//! Verified core of the ZombieZap client.
//!
//! Everything the client decides on plain values lives here: session flow,
//! message handling, prediction bookkeeping, voice framing and jitter, pointer
//! event staging, level-of-detail selection, HUD contents and the layout of
//! generated meshes. Rendering, sockets, devices and floating-point maths sit
//! around this crate.

pub mod audio;
pub mod boot;
pub mod egui_click_latch;
pub mod game;
pub mod hud;
pub mod intents;
pub mod lod;
pub mod map_render;
pub mod models;
pub mod mountain_dressing;
pub mod net;
pub mod platform;
pub mod predict;
pub mod remotes;
pub mod retro;
pub mod rigs;
pub mod scalar;
pub mod seams;
pub mod text;
pub mod touch;
pub mod voice;
pub mod wire;
