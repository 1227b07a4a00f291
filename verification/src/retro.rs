//! The low resolution at which the world is drawn, and when it is fitted to the
//! window anew.

use vstd::prelude::*;
use crate::scalar::F32;

verus! {

/// Width of the drawn world, in pixels.
pub const RETRO_W: u32 = 480;

/// Height of the drawn world, in pixels.
pub const RETRO_H: u32 = 270;

/// The window size that the picture was last fitted to.
#[derive(Clone, Copy, Debug, PartialEq, Eq, Structural)]
pub struct FittedSize {
    pub width: F32,
    pub height: F32,
}

/// Two numbers compare equal.
pub open spec fn same_number(a: F32, b: F32) -> bool {
    a.at_most(b) && b.at_most(a)
}

impl FittedSize {
    /// The picture must be fitted to a window of this size: it is not the size
    /// fitted to last, and neither side is zero or less.
    pub open spec fn stale(self, width: F32, height: F32) -> bool {
        let zero = F32 { bits: 0 };
        &&& !(same_number(self.width, width) && same_number(self.height, height))
        &&& !width.at_most(zero)
        &&& !height.at_most(zero)
    }

    pub fn new() -> (r: FittedSize)
        ensures
            r.width.bits == 0,
            r.height.bits == 0,
    {
        FittedSize { width: F32 { bits: 0 }, height: F32 { bits: 0 } }
    }

    /// Takes note of the window's size; true where the picture must be fitted.
    pub fn fit_blit_node(&mut self, width: F32, height: F32) -> (r: bool)
        ensures
            r == old(self).stale(width, height),
            *final(self) == (if r {
                (FittedSize { width, height })
            } else {
                *old(self)
            }),
    {
        let zero = F32::from_bits(0);
        let same = self.width.le(width) && width.le(self.width) && self.height.le(height)
            && height.le(self.height);
        if same || width.le(zero) || height.le(zero) {
            return false;
        }
        self.width = width;
        self.height = height;
        true
    }
}

/// A size fitted to is not fitted to again while the window keeps it.
pub proof fn law_fitting_settles(width: F32, height: F32)
    requires
        !width.nan(),
        !height.nan(),
    ensures
        !(FittedSize { width, height }).stale(width, height),
{
}

/// The picture is fitted anew exactly to a window with an area whose width or
/// height is another than the one fitted to.
pub proof fn law_new_sizes_are_fitted(fitted: FittedSize, width: F32, height: F32)
    requires
        !width.nan(),
        !height.nan(),
        !fitted.width.nan(),
        !fitted.height.nan(),
    ensures
        fitted.stale(width, height) <==> width.rank() > 0 && height.rank() > 0 && (width.rank()
            != fitted.width.rank() || height.rank() != fitted.height.rank()),
{
}

} // verus!
