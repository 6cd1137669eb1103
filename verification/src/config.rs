use vstd::prelude::*;

verus! {

/// The settings the game starts with: board size, wrapping, the snake's
/// look and the colour theme by name.
pub struct Args {
    pub width: u16,
    pub height: u16,
    pub wrap: bool,
    pub skin: char,
    pub theme: String,
}

impl Default for Args {
    /// A 40 by 20 board without wrapping, a block skin and the classic theme.
    fn default() -> (r: Args)
        ensures
            r.width == 40,
            r.height == 20,
            !r.wrap,
            r.skin == '█',
            r.theme@ == "classic"@,
    {
        Args { width: 40, height: 20, wrap: false, skin: '█', theme: String::from_str("classic") }
    }
}

} // verus!
