//! The shell's settings.

use vstd::prelude::*;

verus! {

/// The shell's settings.
#[derive(Debug)]
pub struct Config {
    pub auto_comp: bool,
    pub only_sagest_when_typing: bool,
    pub scroll_amount: u16,
    pub mouse_scroll: bool,
}

impl Default for Config {
    /// Completion on, suggestions at any time, mouse scrolling by 5 rows.
    fn default() -> (c: Config)
        ensures
            c.auto_comp,
            !c.only_sagest_when_typing,
            c.scroll_amount == 5,
            c.mouse_scroll,
    {
        Config { auto_comp: true, only_sagest_when_typing: false, scroll_amount: 5, mouse_scroll: true }
    }
}

} // verus!
