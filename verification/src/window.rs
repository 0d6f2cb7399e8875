//! The two window layouts: the compact always-on-top mini view and the full
//! control centre. Applying a layout to the window is the application's part.

use vstd::prelude::*;

use crate::text::{chars_eq_str, chars_of, str_to_string};

verus! {

/// A window layout in logical pixels.
#[derive(Debug, Clone, Copy, PartialEq, Eq)]
pub struct WindowLayout {
    pub always_on_top: bool,
    pub width: u32,
    pub height: u32,
    /// Whether the window is centred on screen after resizing.
    pub center: bool,
}

/// The layout for a mode name: `mini` is 386×520 and stays on top, `full` is
/// 1240×790, centred; any other name is refused.
pub open spec fn layout_for(mode: Seq<char>) -> Result<WindowLayout, Seq<char>> {
    if mode == "mini"@ {
        Ok(WindowLayout { always_on_top: true, width: 386, height: 520, center: false })
    } else if mode == "full"@ {
        Ok(WindowLayout { always_on_top: false, width: 1240, height: 790, center: true })
    } else {
        Err("unknown window mode"@)
    }
}

pub fn window_layout(mode: &str) -> (r: Result<WindowLayout, String>)
    ensures
        match r {
            Ok(l) => layout_for(mode@) == Ok::<WindowLayout, Seq<char>>(l),
            Err(e) => layout_for(mode@) == Err::<WindowLayout, Seq<char>>(e@),
        },
{
    let m = chars_of(mode);
    if chars_eq_str(&m, "mini") {
        Ok(WindowLayout { always_on_top: true, width: 386, height: 520, center: false })
    } else if chars_eq_str(&m, "full") {
        Ok(WindowLayout { always_on_top: false, width: 1240, height: 790, center: true })
    } else {
        Err(str_to_string("unknown window mode"))
    }
}

} // verus!
