//! The escape codes that the renderers write.

use vstd::prelude::*;
use crate::text::{append_decimal, decimal};

verus! {

/// Clears every flag and both colours.
pub const RESET: u8 = 0;

/// Switches bold on.
pub const BOLD: u8 = 1;

/// Switches dim on.
pub const DIM: u8 = 2;

/// Switches italic on.
pub const ITALIC: u8 = 3;

/// Sets a green foreground.
pub const GREEN: u8 = 32;

/// Sets a yellow foreground.
pub const YELLOW: u8 = 33;

/// Sets a blue foreground.
pub const BLUE: u8 = 34;

/// Sets a magenta foreground.
pub const MAGENTA: u8 = 35;

/// Sets a cyan foreground.
pub const CYAN: u8 = 36;

/// The escape sequence that selects the graphic rendition `code`.
pub open spec fn sgr(code: nat) -> Seq<char> {
    seq!['\x1b', '['] + decimal(code) + seq!['m']
}

/// Appends the escape sequence for `code` to `out`.
pub fn push_sgr(out: &mut Vec<char>, code: u8)
    ensures
        final(out)@ == old(out)@ + sgr(code as nat),
{
    out.push('\x1b');
    out.push('[');
    append_decimal(out, code as u64);
    out.push('m');
    assert(out@ =~= old(out)@ + sgr(code as nat));
}

} // verus!
