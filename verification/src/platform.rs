//! Platform differences: a native process reads its environment, a browser page
//! its address, its storage and its own scripts.
//!
//! What was read comes in as plain values; what to write or call goes out as
//! plain values.

use vstd::prelude::*;
use crate::seams::QueuedBootAction;
use crate::voice::i16_to_pcm_bytes;

verus! {

/// Where the client runs.
#[derive(Clone, Copy, Debug, PartialEq, Eq, Structural)]
pub enum Target {
    Native,
    Wasm,
}

/// Marker that a shipped build must contain.
pub const BOOT_ENTRY_CANARY: &'static str = "zz-boot-entry-v1";

/// A moment on the boot clock, in milliseconds.
#[derive(Clone, Copy, Debug, PartialEq, Eq, Structural)]
pub struct BootStamp {
    pub t0_ms: u128,
}

impl BootStamp {
    /// A stamp taken now.
    pub fn at(now_ms: u128) -> (r: Self)
        ensures
            r.t0_ms == now_ms,
    {
        BootStamp { t0_ms: now_ms }
    }

    /// Milliseconds since this stamp: zero if the clock went back, and at most
    /// `u32::MAX`.
    pub fn elapsed_ms(self, now_ms: u128) -> (r: u32)
        ensures
            r == (if now_ms <= self.t0_ms {
                0
            } else if now_ms - self.t0_ms > u32::MAX {
                u32::MAX as int
            } else {
                now_ms - self.t0_ms
            }),
    {
        if now_ms <= self.t0_ms {
            return 0;
        }
        let dt: u128 = now_ms - self.t0_ms;
        if dt > u32::MAX as u128 {
            u32::MAX
        } else {
            dt as u32
        }
    }
}

/// Whether two texts are the same.
pub fn same_text(a: &str, b: &str) -> (r: bool)
    ensures
        r == (a@ == b@),
{
    a.to_owned() == b.to_owned()
}

// ---- server, lobby code, name ---------------------------------------------

/// The page's address, as far as it could be read.
#[derive(Debug, PartialEq, Eq)]
pub struct PageAddress {
    pub protocol: Option<String>,
    pub host: Option<String>,
}

/// A text, or a stand-in where there is none.
pub open spec fn text_or(s: Option<String>, other: Seq<char>) -> Seq<char> {
    match s {
        Some(t) => t@,
        None => other,
    }
}

fn or_text(s: Option<String>, other: &str) -> (r: String)
    ensures
        r@ == text_or(s, other@),
{
    match s {
        Some(t) => t,
        None => other.to_owned(),
    }
}

/// The server's address: natively what the environment says, or a local
/// default; in a page the page's own origin, secured where the page is.
pub open spec fn server_address(
    target: Target,
    from_env: Option<String>,
    page: Option<PageAddress>,
) -> Seq<char> {
    match target {
        Target::Native => text_or(from_env, "ws://127.0.0.1:8080/ws"@),
        Target::Wasm => match page {
            None => "ws://127.0.0.1:8080/ws"@,
            Some(p) => (if text_or(p.protocol, "http:"@) == "https:"@ {
                "wss"@
            } else {
                "ws"@
            }) + "://"@ + text_or(p.host, "127.0.0.1:8080"@) + "/ws"@,
        },
    }
}

pub fn server_url(target: Target, from_env: Option<String>, page: Option<PageAddress>) -> (r: String)
    ensures
        r@ == server_address(target, from_env, page),
{
    match target {
        Target::Native => or_text(from_env, "ws://127.0.0.1:8080/ws"),
        Target::Wasm => match page {
            None => "ws://127.0.0.1:8080/ws".to_owned(),
            Some(p) => {
                let protocol: String = or_text(p.protocol, "http:");
                let host: String = or_text(p.host, "127.0.0.1:8080");
                let mut url: String = if same_text(protocol.as_str(), "https:") {
                    "wss".to_owned()
                } else {
                    "ws".to_owned()
                };
                url.append("://");
                url.append(host.as_str());
                url.append("/ws");
                url
            },
        },
    }
}

/// A code, unless it is empty.
pub open spec fn some_code(code: Seq<char>) -> Option<Seq<char>> {
    if code.len() == 0 {
        None
    } else {
        Some(code)
    }
}

/// A lobby code as typed or linked: trimmed, in capitals; a blank one is none.
pub open spec fn join_code(raw: Option<Seq<char>>) -> Option<Seq<char>> {
    match raw {
        Some(s) => some_code(crate::text::uppercased(crate::text::trimmed(s))),
        None => None,
    }
}

/// The lobby code of an ASCII text.
pub open spec fn ascii_join_code(raw: Seq<char>) -> Option<Seq<char>> {
    some_code(crate::text::ascii_capitals(crate::text::trimmed(raw)))
}

/// A code that is trimmed and in capitals already, unless it is empty.
pub fn join_from(code: String) -> (r: Option<String>)
    ensures
        crate::seams::optional_text(r) == some_code(code@),
{
    if code.as_str().is_empty() {
        None
    } else {
        Some(code)
    }
}

pub fn normalize_join(raw: String) -> (r: Option<String>)
    ensures
        crate::seams::optional_text(r) == join_code(Some(raw@)),
        crate::text::all_ascii(raw@) ==> crate::seams::optional_text(r) == ascii_join_code(raw@),
{
    let trimmed: &str = raw.as_str().trim();
    proof {
        if crate::text::all_ascii(raw@) {
            crate::text::lemma_ascii_trimmed(raw@);
        }
    }
    join_from(trimmed.to_uppercase())
}

/// Linking to a lobby code leads back to it: the code of an ASCII text is its own
/// code, in capitals throughout, and there is none exactly where the text is
/// blank.
pub proof fn law_join_code_is_its_own_code(raw: Seq<char>)
    requires
        crate::text::all_ascii(raw),
    ensures
        ascii_join_code(raw) is None <==> crate::text::trimmed(raw).len() == 0,
        ascii_join_code(raw) matches Some(code) ==> {
            &&& crate::text::all_ascii(code)
            &&& ascii_join_code(code) == Some(code)
            &&& forall|i: int| 0 <= i < code.len() ==> !crate::text::is_small(#[trigger] code[i])
        },
{
    crate::text::law_ascii_codes_are_canonical(raw);
}

/// The lobby code of the environment, or of the page's address.
pub fn join_code_from_url(target: Target, from_env: Option<String>, search: &str) -> (r: Option<String>)
    ensures
        ({
            let raw = if target is Native {
                crate::seams::optional_text(from_env)
            } else {
                query_value(search@, "join"@)
            };
            &&& crate::seams::optional_text(r) == join_code(raw)
            &&& raw is Some && crate::text::all_ascii(raw->0) ==> crate::seams::optional_text(r)
                == ascii_join_code(raw->0)
        }),
{
    match target {
        Target::Native => match from_env {
            Some(raw) => normalize_join(raw),
            None => None,
        },
        Target::Wasm => wasm_join_code(search),
    }
}

pub fn wasm_join_code(search: &str) -> (r: Option<String>)
    ensures
        crate::seams::optional_text(r) == join_code(query_value(search@, "join"@)),
        query_value(search@, "join"@) matches Some(v) ==> crate::text::all_ascii(v)
            ==> crate::seams::optional_text(r) == ascii_join_code(v),
{
    match wasm_query_param(search, "join") {
        Some(raw) => normalize_join(raw),
        None => None,
    }
}

/// The callsign to begin with: natively the environment's, in a page the stored
/// one unless blank, and a stand-in otherwise.
pub open spec fn first_name(
    target: Target,
    from_env: Option<String>,
    stored: Option<String>,
) -> Seq<char> {
    match target {
        Target::Native => text_or(from_env, "survivor"@),
        Target::Wasm => if stored is Some && crate::text::trimmed(stored->0@).len() > 0 {
            stored->0@
        } else {
            "survivor"@
        },
    }
}

pub fn initial_name(target: Target, from_env: Option<String>, stored: Option<String>) -> (r: String)
    ensures
        r@ == first_name(target, from_env, stored),
{
    match target {
        Target::Native => or_text(from_env, "survivor"),
        Target::Wasm => wasm_initial_name(stored),
    }
}

pub fn wasm_initial_name(stored: Option<String>) -> (r: String)
    ensures
        r@ == first_name(Target::Wasm, None, stored),
{
    match stored {
        Some(s) => {
            if s.as_str().trim().is_empty() {
                "survivor".to_owned()
            } else {
                s
            }
        },
        None => "survivor".to_owned(),
    }
}

/// The callsign to store for the next visit; nothing natively, and nothing for
/// a blank one.
pub fn persist_name(target: Target, name: &str) -> (r: Option<String>)
    ensures
        crate::seams::optional_text(r) == (if target is Wasm && crate::text::trimmed(name@).len()
            > 0 {
            Some(crate::text::trimmed(name@))
        } else {
            None
        }),
        r is Some ==> crate::text::trimmed(r->0@) == r->0@,
{
    match target {
        Target::Native => None,
        Target::Wasm => wasm_persist_name(name),
    }
}

pub fn wasm_persist_name(name: &str) -> (r: Option<String>)
    ensures
        crate::seams::optional_text(r) == (if crate::text::trimmed(name@).len() > 0 {
            Some(crate::text::trimmed(name@))
        } else {
            None
        }),
        r is Some ==> crate::text::trimmed(r->0@) == r->0@,
{
    let trimmed: &str = name.trim();
    proof {
        crate::text::law_trimming_is_idempotent(name@);
    }
    if trimmed.is_empty() {
        None
    } else {
        Some(trimmed.to_owned())
    }
}

/// What is stored of a name, which is the name trimmed, is what the next visit
/// begins with.
pub proof fn law_stored_name_comes_back(name: Seq<char>, stored: String)
    requires
        stored@ == crate::text::trimmed(name),
        stored@.len() > 0,
    ensures
        first_name(Target::Wasm, None, Some(stored)) == crate::text::trimmed(name),
{
    crate::text::law_trimming_is_idempotent(name);
}

// ---- query strings ----------------------------------------------------------

/// The first place at or after `i` that holds `c`, or the end.
pub open spec fn until(s: Seq<char>, c: char, i: int) -> int
    decreases s.len() - i,
{
    if i >= s.len() {
        s.len() as int
    } else if s[i] == c {
        i
    } else {
        until(s, c, i + 1)
    }
}

/// Plus signs read as blanks.
pub open spec fn unplussed(s: Seq<char>) -> Seq<char> {
    Seq::new(
        s.len(),
        |i: int| if s[i] == '+' {
            ' '
        } else {
            s[i]
        },
    )
}

/// The value of the first pair named `key` at or after `i`. Pairs are separated
/// by `&`; the first `=` of a pair ends its name, and a pair without one has an
/// empty value.
pub open spec fn value_from(s: Seq<char>, key: Seq<char>, i: int) -> Option<Seq<char>>
    decreases s.len() - i,
{
    if i < 0 || i > s.len() {
        None
    } else {
        let end = until(s, '&', i);
        let eq = until(s, '=', i);
        let name_end = if eq < end {
            eq
        } else {
            end
        };
        if s.subrange(i, name_end) == key {
            Some(
                unplussed(
                    if eq < end {
                        s.subrange(eq + 1, end)
                    } else {
                        Seq::empty()
                    },
                ),
            )
        } else if i <= end < s.len() {
            value_from(s, key, end + 1)
        } else {
            None
        }
    }
}

/// The value of a parameter of a query string, with or without its leading
/// question mark.
pub open spec fn query_value(search: Seq<char>, key: Seq<char>) -> Option<Seq<char>> {
    if search.len() > 0 && search[0] == '?' {
        value_from(search, key, 1)
    } else {
        value_from(search, key, 0)
    }
}

fn to_chars(s: &str) -> (r: Vec<char>)
    ensures
        r@ == s@,
{
    let n: usize = s.unicode_len();
    let mut out: Vec<char> = Vec::new();
    for i in 0..n
        invariant
            n == s@.len(),
            out@ == s@.take(i as int),
    {
        out.push(s.get_char(i));
        assert(out@ =~= s@.take(i + 1));
    }
    assert(s@.take(n as int) =~= s@);
    out
}

fn find_char(s: &Vec<char>, c: char, i: usize) -> (r: usize)
    requires
        i <= s@.len(),
    ensures
        r == until(s@, c, i as int),
        i <= r <= s@.len(),
{
    let mut j: usize = i;
    while j < s.len() && s[j] != c
        invariant
            i <= j <= s@.len(),
            until(s@, c, i as int) == until(s@, c, j as int),
        decreases s@.len() - j,
    {
        j += 1;
    }
    j
}

fn range_is(s: &Vec<char>, from: usize, to: usize, key: &Vec<char>) -> (r: bool)
    requires
        from <= to <= s@.len(),
    ensures
        r == (s@.subrange(from as int, to as int) == key@),
{
    if to - from != key.len() {
        return false;
    }
    for k in 0..key.len()
        invariant
            from <= to <= s@.len(),
            to - from == key@.len(),
            forall|j: int| 0 <= j < k ==> s@[from + j] == key@[j],
    {
        if s[from + k] != key[k] {
            assert(s@.subrange(from as int, to as int)[k as int] != key@[k as int]);
            return false;
        }
    }
    assert(s@.subrange(from as int, to as int) =~= key@);
    true
}

/// The value of a parameter of the page's query string.
pub fn wasm_query_param(search: &str, key: &str) -> (r: Option<String>)
    ensures
        crate::seams::optional_text(r) == query_value(search@, key@),
{
    let s: Vec<char> = to_chars(search);
    let k: Vec<char> = to_chars(key);
    let start: usize = if s.len() > 0 && s[0] == '?' { 1 } else { 0 };
    let mut i: usize = start;
    loop
        invariant
            i <= s@.len(),
            s@ == search@,
            k@ == key@,
            query_value(search@, key@) == value_from(s@, k@, i as int),
        decreases s@.len() - i,
    {
        let end: usize = find_char(&s, '&', i);
        let eq: usize = find_char(&s, '=', i);
        let name_end: usize = if eq < end { eq } else { end };
        if range_is(&s, i, name_end, &k) {
            let mut value: String = String::new();
            let ghost want = if eq < end {
                s@.subrange(eq + 1, end as int)
            } else {
                Seq::empty()
            };
            let from: usize = if eq < end { eq + 1 } else { end };
            assert(value@ =~= unplussed(want.take(0)));
            for j in from..end
                invariant
                    from <= end <= s@.len(),
                    want == s@.subrange(from as int, end as int),
                    value@ == unplussed(want.take(j - from)),
            {
                let c: char = if s[j] == '+' { ' ' } else { s[j] };
                value.push(c);
                assert(value@ =~= unplussed(want.take(j + 1 - from)));
            }
            assert(want.take(want.len() as int) =~= want);
            return Some(value);
        }
        if end >= s.len() {
            return None;
        }
        i = end + 1;
    }
}

// ---- touch ------------------------------------------------------------------

/// What an explicit setting says: `1` forces touch on and `0` forces it off;
/// natively `false` and `FALSE` do so too. Anything else says nothing.
pub open spec fn touch_setting(target: Target, value: Option<Seq<char>>) -> Option<bool> {
    if value == Some("1"@) {
        Some(true)
    } else if value == Some("0"@) || (target is Native && (value == Some("false"@) || value
        == Some("FALSE"@))) {
        Some(false)
    } else {
        None
    }
}

/// The explicit setting, if there is one.
pub fn touch_override(target: Target, value: &Option<String>) -> (r: Option<bool>)
    ensures
        r == touch_setting(target, crate::seams::optional_text(*value)),
{
    match value {
        None => None,
        Some(s) => {
            if same_text(s.as_str(), "1") {
                Some(true)
            } else if same_text(s.as_str(), "0") || (matches!(target, Target::Native) && (
            same_text(s.as_str(), "false") || same_text(s.as_str(), "FALSE"))) {
                Some(false)
            } else {
                None
            }
        },
    }
}

/// Whether to show touch controls: an explicit setting wins; otherwise never
/// natively, and in a page if the device has touch points.
pub fn is_touch_mode(target: Target, value: &Option<String>, max_touch_points: i32) -> (r: bool)
    ensures
        r == (match touch_setting(target, crate::seams::optional_text(*value)) {
            Some(forced) => forced,
            None => target is Wasm && max_touch_points > 0,
        }),
{
    match touch_override(target, value) {
        Some(forced) => forced,
        None => matches!(target, Target::Wasm) && max_touch_points > 0,
    }
}

/// A change of the page body's classes.
#[derive(Clone, Copy, Debug, PartialEq, Eq)]
pub struct BodyClass {
    pub class: &'static str,
    pub add: bool,
}

/// In a page, marks the body for the touch styles, or unmarks it.
pub fn apply_touch_body_class(target: Target, enabled: bool) -> (r: Option<BodyClass>)
    ensures
        target is Native ==> r is None,
        target is Wasm ==> r is Some && r->0.class@ == "touch"@ && r->0.add == enabled,
{
    match target {
        Target::Native => None,
        Target::Wasm => Some(BodyClass { class: "touch", add: enabled }),
    }
}

/// How a page element is displayed.
#[derive(Clone, Copy, Debug, PartialEq, Eq)]
pub struct DisplayRule {
    pub id: &'static str,
    pub display: &'static str,
}

impl DisplayRule {
    /// The element shows as `shown` exactly if `visible`.
    pub open spec fn shows(self, id: Seq<char>, visible: bool, shown: Seq<char>) -> bool {
        &&& self.id@ == id
        &&& self.display@ == (if visible {
            shown
        } else {
            "none"@
        })
    }
}

/// The text fields a page lays over the canvas on touch devices.
#[derive(Clone, Copy, Debug, PartialEq, Eq)]
pub struct TouchOverlays {
    pub name: DisplayRule,
    pub code: DisplayRule,
    pub shell: DisplayRule,
    /// Leaving the menu: the start screen's remains are hidden too.
    pub hide_start: Option<PageCall>,
}

fn rule(id: &'static str, visible: bool, shown: &'static str) -> (r: DisplayRule)
    ensures
        r.shows(id@, visible, shown@),
{
    DisplayRule { id, display: if visible { shown } else { "none" } }
}

/// Shows or hides the name and the code field. Their shell shows while either
/// does.
pub fn set_touch_text_overlays(target: Target, name: bool, code: bool) -> (r: Option<TouchOverlays>)
    ensures
        target is Native ==> r is None,
        target is Wasm ==> {
            &&& r is Some
            &&& r->0.name.shows("zz-name-input"@, name, "block"@)
            &&& r->0.code.shows("zz-code-input"@, code, "block"@)
            &&& r->0.shell.shows("zz-touch-fields"@, name || code, "flex"@)
            &&& r->0.hide_start is Some <==> !name && !code
            &&& r->0.hide_start is Some ==> r->0.hide_start->0.is_call(
                "__zzBoot"@,
                "hideAll"@,
                None,
            )
        },
{
    match target {
        Target::Native => None,
        Target::Wasm => Some(
            TouchOverlays {
                name: rule("zz-name-input", name, "block"),
                code: rule("zz-code-input", code, "block"),
                shell: rule("zz-touch-fields", name || code, "flex"),
                hide_start: if !name && !code { Some(wasm_boot_hide_all()) } else { None },
            },
        ),
    }
}

// ---- calls into the page ------------------------------------------------------

/// A call of a function of the page's scripts.
#[derive(Clone, Copy, Debug, PartialEq, Eq)]
pub struct PageCall {
    /// The object the function belongs to; the window itself where empty.
    pub object: &'static str,
    pub function: &'static str,
    pub arg: Option<bool>,
}

impl PageCall {
    pub open spec fn is_call(self, object: Seq<char>, function: Seq<char>, arg: Option<bool>) -> bool {
        self.object@ == object && self.function@ == function && self.arg == arg
    }
}

/// In a page this call is made, natively none is.
pub open spec fn page_only(
    r: Option<PageCall>,
    target: Target,
    object: Seq<char>,
    function: Seq<char>,
    arg: Option<bool>,
) -> bool {
    match target {
        Target::Native => r is None,
        Target::Wasm => r is Some && r->0.is_call(object, function, arg),
    }
}

fn in_page(
    target: Target,
    object: &'static str,
    function: &'static str,
    arg: Option<bool>,
) -> (r: Option<PageCall>)
    ensures
        page_only(r, target, object@, function@, arg),
{
    match target {
        Target::Native => None,
        Target::Wasm => Some(PageCall { object, function, arg }),
    }
}

/// Hides what is left of the start screen.
pub fn wasm_boot_hide_all() -> (r: PageCall)
    ensures
        r.is_call("__zzBoot"@, "hideAll"@, None),
{
    PageCall { object: "__zzBoot", function: "hideAll", arg: None }
}

/// Tells the page that the engine is ready.
pub fn boot_signal_engine_ready(target: Target) -> (r: Option<PageCall>)
    ensures
        page_only(r, target, "__zzBoot"@, "setEngineReady"@, None),
{
    in_page(target, "__zzBoot", "setEngineReady", None)
}

/// Dismisses the start screen.
pub fn boot_dismiss_start(target: Target, is_touch: bool) -> (r: Option<PageCall>)
    ensures
        page_only(r, target, "__zzBoot"@, "handoff"@, Some(is_touch)),
{
    in_page(target, "__zzBoot", "handoff", Some(is_touch))
}

/// Prints the boot phases.
pub fn boot_log_phases(target: Target) -> (r: Option<PageCall>)
    ensures
        page_only(r, target, "__zzBoot"@, "logPhases"@, None),
{
    in_page(target, "__zzBoot", "logPhases", None)
}

/// Resumes audio that waits for a gesture.
pub fn unlock_audio(target: Target) -> (r: Option<PageCall>)
    ensures
        page_only(r, target, ""@, "__zzUnlockAudio"@, None),
{
    in_page(target, "", "__zzUnlockAudio", None)
}

/// Puts the keyboard on the canvas.
pub fn refocus_canvas(target: Target) -> (r: Option<PageCall>)
    ensures
        page_only(r, target, ""@, "__zzFocusCanvas"@, None),
{
    in_page(target, "", "__zzFocusCanvas", None)
}

/// Asks for the microphone.
pub fn voice_request_mic() -> (r: PageCall)
    ensures
        r.is_call("__zzVoice"@, "requestMic"@, None),
{
    PageCall { object: "__zzVoice", function: "requestMic", arg: None }
}

/// Lets captured frames through, or holds them.
pub fn voice_set_tx_enabled(enabled: bool) -> (r: PageCall)
    ensures
        r.is_call("__zzVoice"@, "setTxEnabled"@, Some(enabled)),
{
    PageCall { object: "__zzVoice", function: "setTxEnabled", arg: Some(enabled) }
}

/// What a boot phase's log line says.
pub open spec fn phase_line(name: Seq<char>, ms: u32) -> Seq<char> {
    "[zz boot] "@ + name + "="@ + crate::text::decimal(ms as nat) + "ms"@
}

/// The log line of a boot phase.
pub fn boot_record_phase(name: &str, ms: u32) -> (r: String)
    ensures
        r@ == phase_line(name@, ms),
{
    let mut line: String = "[zz boot] ".to_owned();
    line.append(name);
    line.append("=");
    crate::text::push_decimal(&mut line, ms as u64);
    line.append("ms");
    line
}

// ---- reading the page ---------------------------------------------------------

/// A text field of the page.
#[derive(Debug, PartialEq, Eq)]
pub struct PageField {
    pub value: String,
    /// Its inline display style, where one could be read.
    pub display: Option<String>,
}

/// What a field holds, shown or not; natively there is none.
pub open spec fn field_value(target: Target, field: Option<PageField>) -> Option<Seq<char>> {
    if target is Wasm && field is Some {
        Some(field->0.value@)
    } else {
        None
    }
}

/// What a field holds while it is shown.
pub open spec fn shown_value(target: Target, field: Option<PageField>) -> Option<Seq<char>> {
    if field is Some && field->0.display is Some && field->0.display->0@ == "none"@ {
        None
    } else {
        field_value(target, field)
    }
}

fn read_field(target: Target, field: Option<PageField>, only_shown: bool) -> (r: Option<String>)
    ensures
        crate::seams::optional_text(r) == (if only_shown {
            shown_value(target, field)
        } else {
            field_value(target, field)
        }),
{
    match (target, field) {
        (Target::Wasm, Some(f)) => {
            let hidden: bool = match &f.display {
                Some(d) => same_text(d.as_str(), "none"),
                None => false,
            };
            if only_shown && hidden {
                None
            } else {
                Some(f.value)
            }
        },
        _ => None,
    }
}

/// The start screen's callsign, shown or not.
pub fn boot_html_name(target: Target, field: Option<PageField>) -> (r: Option<String>)
    ensures
        crate::seams::optional_text(r) == field_value(target, field),
{
    read_field(target, field, false)
}

/// The start screen's lobby code, shown or not.
pub fn boot_html_code(target: Target, field: Option<PageField>) -> (r: Option<String>)
    ensures
        crate::seams::optional_text(r) == field_value(target, field),
{
    read_field(target, field, false)
}

/// The name overlay's text while it is shown.
pub fn html_name_value(target: Target, field: Option<PageField>) -> (r: Option<String>)
    ensures
        crate::seams::optional_text(r) == shown_value(target, field),
{
    read_field(target, field, true)
}

/// The code overlay's text while it is shown.
pub fn html_code_value(target: Target, field: Option<PageField>) -> (r: Option<String>)
    ensures
        crate::seams::optional_text(r) == shown_value(target, field),
{
    read_field(target, field, true)
}

/// A text to put into a field of the page.
#[derive(Debug, PartialEq, Eq)]
pub struct FieldWrite {
    pub id: &'static str,
    pub value: String,
}

/// Seeds the name overlay.
pub fn set_html_name_value(target: Target, name: &str) -> (r: Option<FieldWrite>)
    ensures
        target is Native ==> r is None,
        target is Wasm ==> r is Some && r->0.id@ == "zz-name-input"@ && r->0.value@ == name@,
{
    match target {
        Target::Native => None,
        Target::Wasm => Some(FieldWrite { id: "zz-name-input", value: name.to_owned() }),
    }
}

/// Seeds the code overlay.
pub fn set_html_code_value(target: Target, code: &str) -> (r: Option<FieldWrite>)
    ensures
        target is Native ==> r is None,
        target is Wasm ==> r is Some && r->0.id@ == "zz-code-input"@ && r->0.value@ == code@,
{
    match target {
        Target::Native => None,
        Target::Wasm => Some(FieldWrite { id: "zz-code-input", value: code.to_owned() }),
    }
}

/// What the start screen has queued, as read from the page.
#[derive(Debug, PartialEq, Eq)]
pub struct BootReply {
    pub kind: Option<String>,
    pub code: Option<String>,
}

/// A queued action with its code taken as characters.
pub enum BootActionView {
    Host,
    Join(Seq<char>),
}

/// The view of an optional queued action.
pub open spec fn boot_action_view(a: Option<QueuedBootAction>) -> Option<BootActionView> {
    match a {
        None => None,
        Some(QueuedBootAction::Host) => Some(BootActionView::Host),
        Some(QueuedBootAction::Join(code)) => Some(BootActionView::Join(code@)),
    }
}

/// What the start screen's reply asks for: hosting, or joining with a code that
/// is not blank.
pub open spec fn boot_action(target: Target, reply: Option<BootReply>) -> Option<BootActionView> {
    boot_action_with(target, reply, join_code(Some(boot_code(reply))))
}

/// The same where the code is an ASCII text.
pub open spec fn ascii_boot_action(
    target: Target,
    reply: Option<BootReply>,
) -> Option<BootActionView> {
    boot_action_with(target, reply, ascii_join_code(boot_code(reply)))
}

/// The code of a reply as it was typed; nothing where there is none.
pub open spec fn boot_code(reply: Option<BootReply>) -> Seq<char> {
    if reply is Some {
        text_or(reply->0.code, Seq::empty())
    } else {
        Seq::empty()
    }
}

/// What a reply asks for where `join` is the lobby code it comes to.
pub open spec fn boot_action_with(
    target: Target,
    reply: Option<BootReply>,
    join: Option<Seq<char>>,
) -> Option<BootActionView> {
    if target is Native || reply is None || reply->0.kind is None {
        None
    } else if reply->0.kind->0@ == "host"@ {
        Some(BootActionView::Host)
    } else if reply->0.kind->0@ == "join"@ {
        match join {
            Some(code) => Some(BootActionView::Join(code)),
            None => None,
        }
    } else {
        None
    }
}

fn read_action(target: Target, reply: Option<BootReply>) -> (r: Option<QueuedBootAction>)
    ensures
        boot_action_view(r) == boot_action(target, reply),
        crate::text::all_ascii(boot_code(reply)) ==> boot_action_view(r) == ascii_boot_action(
            target,
            reply,
        ),
{
    match (target, reply) {
        (Target::Wasm, Some(BootReply { kind: Some(kind), code })) => {
            if same_text(kind.as_str(), "host") {
                Some(QueuedBootAction::Host)
            } else if same_text(kind.as_str(), "join") {
                let raw: String = match code {
                    Some(c) => c,
                    None => String::new(),
                };
                assert(raw@ =~= text_or(code, Seq::empty()));
                match normalize_join(raw) {
                    Some(code) => Some(QueuedBootAction::Join(code)),
                    None => None,
                }
            } else {
                None
            }
        },
        _ => None,
    }
}

/// The function of the page that gives the queued action.
pub fn boot_action_function(take: bool) -> (r: &'static str)
    ensures
        r@ == (if take {
            "takeAction"@
        } else {
            "peekAction"@
        }),
{
    if take {
        "takeAction"
    } else {
        "peekAction"
    }
}

/// The queued action, left in the queue.
pub fn boot_peek_action(target: Target, reply: Option<BootReply>) -> (r: Option<QueuedBootAction>)
    ensures
        boot_action_view(r) == boot_action(target, reply),
        crate::text::all_ascii(boot_code(reply)) ==> boot_action_view(r) == ascii_boot_action(
            target,
            reply,
        ),
{
    read_action(target, reply)
}

/// The queued action, taken off the queue.
pub fn boot_take_action(target: Target, reply: Option<BootReply>) -> (r: Option<QueuedBootAction>)
    ensures
        boot_action_view(r) == boot_action(target, reply),
        crate::text::all_ascii(boot_code(reply)) ==> boot_action_view(r) == ascii_boot_action(
            target,
            reply,
        ),
{
    read_action(target, reply)
}

/// A flag of the page counts only where it is there and set.
pub open spec fn flag_set(flag: Option<bool>) -> bool {
    flag == Some(true)
}

fn is_set(flag: Option<bool>) -> (r: bool)
    ensures
        r == flag_set(flag),
{
    match flag {
        Some(b) => b,
        None => false,
    }
}

/// The page saw the space bar held; natively the window's own keys count.
pub fn js_space_pressed(target: Target, flag: Option<bool>) -> (r: bool)
    ensures
        r == (target is Wasm && flag_set(flag)),
{
    matches!(target, Target::Wasm) && is_set(flag)
}

/// The page has the microphone.
pub fn voice_mic_ready(flag: Option<bool>) -> (r: bool)
    ensures
        r == flag_set(flag),
{
    is_set(flag)
}

/// The page was refused the microphone.
pub fn voice_mic_denied(flag: Option<bool>) -> (r: bool)
    ensures
        r == flag_set(flag),
{
    is_set(flag)
}

/// A captured frame as the page hands it over.
#[derive(Debug, PartialEq, Eq)]
pub enum PageFrame {
    Bytes(Vec<u8>),
    Samples(Vec<i16>),
    Other,
}

/// The bytes of a captured frame.
pub open spec fn frame_bytes(f: PageFrame) -> Seq<u8> {
    match f {
        PageFrame::Bytes(b) => b@,
        PageFrame::Samples(s) => crate::voice::encoded(s@),
        PageFrame::Other => Seq::empty(),
    }
}

/// The bytes of those among the first `n` frames that hold any, in order.
pub open spec fn pcm_frames(frames: Seq<PageFrame>, n: int) -> Seq<Seq<u8>>
    decreases n,
{
    if n <= 0 {
        Seq::empty()
    } else if frame_bytes(frames[n - 1]).len() > 0 {
        pcm_frames(frames, n - 1).push(frame_bytes(frames[n - 1]))
    } else {
        pcm_frames(frames, n - 1)
    }
}

/// The views of byte strings.
pub open spec fn byte_views(v: Seq<Vec<u8>>) -> Seq<Seq<u8>> {
    Seq::new(v.len(), |i: int| v[i]@)
}

/// The frames the page captured, as bytes; empty ones are left out.
pub fn voice_drain_pcm_frames(frames: Vec<PageFrame>) -> (r: Vec<Vec<u8>>)
    ensures
        byte_views(r@) == pcm_frames(frames@, frames@.len() as int),
{
    let ghost all = frames@;
    let mut out: Vec<Vec<u8>> = Vec::new();
    assert(byte_views(out@) =~= Seq::empty());
    for f in it: frames
        invariant
            it.seq() == all,
            byte_views(out@) == pcm_frames(all, it.index() as int),
    {
        let ghost before = out@;
        let bytes: Vec<u8> = match f {
            PageFrame::Bytes(b) => b,
            PageFrame::Samples(s) => i16_to_pcm_bytes(s.as_slice()),
            PageFrame::Other => Vec::new(),
        };
        assert(bytes@ =~= frame_bytes(f));
        if bytes.len() > 0 {
            out.push(bytes);
            assert(byte_views(out@) =~= byte_views(before).push(bytes@));
        }
    }
    out
}

// ---- what the platform promises -------------------------------------------------

/// The text holds no such character.
pub open spec fn lacks(s: Seq<char>, c: char) -> bool {
    forall|i: int| 0 <= i < s.len() ==> #[trigger] s[i] != c
}

proof fn lemma_until(s: Seq<char>, c: char, from: int, at: int)
    requires
        0 <= from <= at <= s.len(),
        forall|i: int| from <= i < at ==> #[trigger] s[i] != c,
        at < s.len() ==> s[at] == c,
    ensures
        until(s, c, from) == at,
    decreases at - from,
{
    if from < at {
        assert(s[from] != c);
        lemma_until(s, c, from + 1, at);
    }
}

/// A parameter is read as it was written: its value is what stands between its
/// name and the next pair, with plus signs as blanks.
pub proof fn law_parameters_are_read_as_written(
    key: Seq<char>,
    value: Seq<char>,
    rest: Seq<char>,
)
    requires
        lacks(key, '&'),
        lacks(key, '='),
        lacks(value, '&'),
        rest.len() > 0 ==> rest[0] == '&',
    ensures
        value_from(key + seq!['='] + value + rest, key, 0) == Some(unplussed(value)),
        query_value(seq!['?'] + (key + seq!['='] + value + rest), key) == Some(unplussed(value)),
        key.len() > 0 && key[0] != '?' ==> query_value(key + seq!['='] + value + rest, key) == Some(
            unplussed(value),
        ),
{
    let s = key + seq!['='] + value + rest;
    lemma_pair_at(Seq::empty(), key, value, rest);
    assert(Seq::<char>::empty() + s =~= s);
    lemma_pair_at(seq!['?'], key, value, rest);
    if key.len() > 0 {
        assert(s[0] == key[0]);
    }
}

proof fn lemma_pair_at(before: Seq<char>, key: Seq<char>, value: Seq<char>, rest: Seq<char>)
    requires
        lacks(key, '&'),
        lacks(key, '='),
        lacks(value, '&'),
        rest.len() > 0 ==> rest[0] == '&',
    ensures
        value_from(
            before + (key + seq!['='] + value + rest),
            key,
            before.len() as int,
        ) == Some(unplussed(value)),
{
    let s = before + (key + seq!['='] + value + rest);
    let i = before.len() as int;
    let eq = i + key.len();
    let end = eq + 1 + value.len();
    assert forall|k: int| i <= k < eq implies #[trigger] s[k] == key[k - i] by {}
    assert(s[eq] == '=');
    assert forall|k: int| eq < k < end implies #[trigger] s[k] == value[k - eq - 1] by {}
    assert(end < s.len() ==> s[end] == rest[0]);
    assert forall|k: int| i <= k < end implies #[trigger] s[k] != '&' by {
        if k < eq {
            assert(s[k] == key[k - i]);
        } else if k > eq {
            assert(s[k] == value[k - eq - 1]);
        }
    }
    assert forall|k: int| i <= k < eq implies #[trigger] s[k] != '=' by {
        assert(s[k] == key[k - i]);
    }
    lemma_until(s, '&', i, end);
    lemma_until(s, '=', i, eq);
    assert(s.subrange(i, eq) =~= key);
    assert(s.subrange(eq + 1, end) =~= value);
}

/// Pairs with another name are passed over.
pub proof fn law_other_parameters_are_passed_over(
    name: Seq<char>,
    value: Seq<char>,
    rest: Seq<char>,
    key: Seq<char>,
)
    requires
        lacks(name, '&'),
        lacks(name, '='),
        lacks(value, '&'),
        name != key,
    ensures
        ({
            let first = name + seq!['='] + value + seq!['&'];
            value_from(first + rest, key, 0) == value_from(first + rest, key, first.len() as int)
        }),
{
    let first = name + seq!['='] + value + seq!['&'];
    let s = first + rest;
    let eq = name.len() as int;
    let end = first.len() - 1;
    assert forall|k: int| 0 <= k < eq implies #[trigger] s[k] == name[k] by {}
    assert forall|k: int| eq < k < end implies #[trigger] s[k] == value[k - eq - 1] by {}
    assert(s[eq] == '=');
    assert(s[end] == '&');
    assert forall|k: int| 0 <= k < end implies #[trigger] s[k] != '&' by {
        if k < eq {
            assert(s[k] == name[k]);
        } else if k > eq {
            assert(s[k] == value[k - eq - 1]);
        }
    }
    lemma_until(s, '&', 0, end);
    lemma_until(s, '=', 0, eq);
    assert(s.subrange(0, eq) =~= name);
}

/// Plus signs stand for blanks, and all else for itself.
pub proof fn law_plus_signs_are_blanks(s: Seq<char>, i: int)
    requires
        0 <= i < s.len(),
    ensures
        unplussed(s).len() == s.len(),
        s[i] == '+' ==> unplussed(s)[i] == ' ',
        s[i] != '+' ==> unplussed(s)[i] == s[i],
{
}

/// Natively the environment decides where the server is; a page talks to its own
/// host, over a secure connection exactly if the page itself came over one.
pub proof fn law_the_server_is_where_it_should_be(
    from_env: Option<String>,
    other_env: Option<String>,
    protocol: Option<String>,
    host: String,
)
    ensures
        from_env is Some ==> server_address(Target::Native, from_env, None) == from_env->0@,
        ({
            let page = Some(PageAddress { protocol, host: Some(host) });
            let url = server_address(Target::Wasm, from_env, page);
            let secure = protocol is Some && protocol->0@ == "https:"@;
            let scheme = if secure {
                "wss://"@
            } else {
                "ws://"@
            };
            &&& url == scheme + (host@ + "/ws"@)
            &&& url == server_address(Target::Wasm, other_env, page)
        }),
        server_address(Target::Wasm, from_env, None) == server_address(
            Target::Native,
            None,
            None,
        ),
{
    reveal_strlit("wss");
    reveal_strlit("ws");
    reveal_strlit("://");
    reveal_strlit("wss://");
    reveal_strlit("ws://");
    reveal_strlit("http:");
    reveal_strlit("https:");
    assert("http:"@.len() != "https:"@.len());
    let page = Some(PageAddress { protocol, host: Some(host) });
    let url = server_address(Target::Wasm, from_env, page);
    let secure = protocol is Some && protocol->0@ == "https:"@;
    if secure {
        assert("wss"@ + "://"@ =~= "wss://"@);
        assert(url =~= "wss://"@ + (host@ + "/ws"@));
    } else {
        assert("ws"@ + "://"@ =~= "ws://"@);
        assert(url =~= "ws://"@ + (host@ + "/ws"@));
    }
}

/// A lobby code is there exactly where it is not empty, and is the text trimmed
/// and in capitals; no text, no code.
pub proof fn law_codes_come_from_texts(raw: Seq<char>)
    ensures
        join_code(None) is None,
        join_code(Some(raw)) is Some <==> crate::text::uppercased(crate::text::trimmed(raw)).len()
            > 0,
        join_code(Some(raw)) is Some ==> join_code(Some(raw))->0 == crate::text::uppercased(
            crate::text::trimmed(raw),
        ),
        ascii_join_code(raw) is Some ==> ascii_join_code(raw)->0.len() == crate::text::trimmed(
            raw,
        ).len(),
{
}

/// The callsign to begin with: natively the environment's, in a page the one that
/// was stored, as it was stored; a blank one has a stand-in.
pub proof fn law_names_begin_as_they_were_left(from_env: Option<String>, stored: Option<String>)
    ensures
        from_env is Some ==> first_name(Target::Native, from_env, stored) == from_env->0@,
        from_env is None ==> first_name(Target::Native, from_env, stored) == "survivor"@,
        stored is Some && crate::text::trimmed(stored->0@).len() > 0 ==> first_name(
            Target::Wasm,
            from_env,
            stored,
        ) == stored->0@,
        stored is None || crate::text::trimmed(stored->0@).len() == 0 ==> first_name(
            Target::Wasm,
            from_env,
            stored,
        ) == "survivor"@,
{
}

/// A setting of `1` turns touch on and one of `0` off, wherever the client runs;
/// without a setting nothing is said.
pub proof fn law_touch_settings_are_heeded(target: Target, value: Seq<char>)
    ensures
        value == "1"@ ==> touch_setting(target, Some(value)) == Some(true),
        value == "0"@ ==> touch_setting(target, Some(value)) == Some(false),
        touch_setting(target, None) is None,
        touch_setting(target, Some(value)) == Some(true) ==> value == "1"@,
        target is Wasm && value != "1"@ && value != "0"@ ==> touch_setting(target, Some(value))
            is None,
{
    reveal_strlit("0");
    reveal_strlit("1");
    assert("0"@[0] != "1"@[0]);
}

/// A page's field is read as it is; the overlays' only while they are shown.
/// Natively there are no fields.
pub proof fn law_fields_are_read_while_shown(field: PageField)
    ensures
        field_value(Target::Wasm, Some(field)) == Some(field.value@),
        field_value(Target::Wasm, None) is None,
        field_value(Target::Native, Some(field)) is None,
        shown_value(Target::Native, Some(field)) is None,
        field.display is Some && field.display->0@ == "none"@ ==> shown_value(
            Target::Wasm,
            Some(field),
        ) is None,
        !(field.display is Some && field.display->0@ == "none"@) ==> shown_value(
            Target::Wasm,
            Some(field),
        ) == Some(field.value@),
{
}

/// The start screen's wish is granted: hosting hosts, joining joins with its code
/// where there is one, and nothing else does anything. Natively nothing is asked.
pub proof fn law_the_start_screen_is_heard(kind: String, code: Option<String>)
    ensures
        ({
            let reply = Some(BootReply { kind: Some(kind), code });
            let typed = if code is Some {
                code->0@
            } else {
                Seq::empty()
            };
            let want = crate::text::ascii_capitals(crate::text::trimmed(typed));
            let act = ascii_boot_action(Target::Wasm, reply);
            &&& kind@ == "host"@ ==> act is Some && act->0 is Host
            &&& kind@ == "join"@ && want.len() > 0 ==> act == Some(BootActionView::Join(want))
            &&& kind@ == "join"@ && want.len() == 0 ==> act is None
            &&& kind@ != "host"@ && kind@ != "join"@ ==> act is None
            &&& ascii_boot_action(Target::Native, reply) is None
            &&& boot_action(Target::Native, reply) is None
            &&& kind@ == "host"@ ==> boot_action(Target::Wasm, reply) == act
        }),
        ascii_boot_action(Target::Wasm, None) is None,
{
    reveal_strlit("host");
    reveal_strlit("join");
    assert("host"@[0] != "join"@[0]);
}

/// A flag counts only where it is there and set.
pub proof fn law_flags_count_only_when_set(flag: Option<bool>)
    ensures
        flag is None ==> !flag_set(flag),
        flag is Some ==> flag_set(flag) == flag->0,
{
}

/// A phase's line names the phase and its milliseconds.
pub proof fn law_phase_lines_tell_the_time(name: Seq<char>, ms: u32)
    ensures
        phase_line(name, ms) == "[zz boot] "@ + (name + ("="@ + (crate::text::decimal(ms as nat)
            + "ms"@))),
        crate::text::digits_value(crate::text::decimal(ms as nat)) == ms,
{
    crate::text::law_decimal_reads_back(ms as nat);
    assert(phase_line(name, ms) =~= "[zz boot] "@ + (name + ("="@ + (crate::text::decimal(
        ms as nat,
    ) + "ms"@))));
}

/// Captured frames are handed on in order, bytes as they are and samples encoded;
/// those that hold nothing are left out.
pub proof fn law_captured_frames_are_handed_on(frames: Seq<PageFrame>, n: int)
    requires
        0 <= n <= frames.len(),
    ensures
        pcm_frames(frames, n) == frames.take(n).map_values(
            |f: PageFrame| frame_bytes(f),
        ).filter(|b: Seq<u8>| b.len() > 0),
    decreases n,
{
    let bytes = |f: PageFrame| frame_bytes(f);
    let some = |b: Seq<u8>| b.len() > 0;
    reveal(Seq::filter);
    let all = frames.take(n).map_values(bytes);
    if n > 0 {
        law_captured_frames_are_handed_on(frames, n - 1);
        assert(all.drop_last() =~= frames.take(n - 1).map_values(bytes));
        assert(all.last() == frame_bytes(frames[n - 1]));
    }
}

/// Captured bytes are what they are, and captured samples decode to themselves.
pub proof fn law_captured_frames_keep_their_sound(b: Vec<u8>, s: Vec<i16>)
    ensures
        frame_bytes(PageFrame::Bytes(b)) == b@,
        crate::voice::decoded(frame_bytes(PageFrame::Samples(s))) == s@,
        frame_bytes(PageFrame::Other).len() == 0,
{
    crate::voice::law_pcm_round_trip(s@);
}

/// A visible element shows as it should, and a hidden one not at all.
pub proof fn law_elements_show_or_not(
    rule: DisplayRule,
    id: Seq<char>,
    visible: bool,
    shown: Seq<char>,
)
    requires
        rule.shows(id, visible, shown),
    ensures
        rule.id@ == id,
        visible ==> rule.display@ == shown,
        !visible ==> rule.display@ == "none"@,
{
}

/// In a page exactly the call that is asked for is made, with its argument;
/// natively none is.
pub proof fn law_pages_are_called_as_asked(
    r: Option<PageCall>,
    target: Target,
    object: Seq<char>,
    function: Seq<char>,
    arg: Option<bool>,
)
    requires
        page_only(r, target, object, function, arg),
    ensures
        r is Some <==> target is Wasm,
        r is Some ==> r->0.object@ == object && r->0.function@ == function && r->0.arg == arg,
{
}

} // verus!
