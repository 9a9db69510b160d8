//! Heat-time presets, as `(heat_time_5, heat_time_40)` in printhead pulse
//! units. The spread across material families is what makes these useful
//! starting points for calibrating unknown stock.

use vstd::prelude::*;

verus! {

/// Standard die-cut and continuous label stock: the catch-all default.
pub const STANDARD: (u16, u16) = (1700, 1200);

/// Index tabs, transparent black-mark, and black-mark-with-hole stock.
pub const BLACK_MARK: (u16, u16) = (1800, 1300);

/// Black-mark cardstock: the hottest profile.
pub const CARDSTOCK: (u16, u16) = (2500, 2000);

} // verus!
