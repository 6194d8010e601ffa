//! Which colors a prompt has.
use crate::highlight::{highlighted_line, line_spans};
use vstd::prelude::*;

verus! {

/// The bytes that turn on bold letters of a color.
pub open spec fn bold(color: u8) -> Seq<u8> {
    seq![0x1bu8, 0x5bu8, 0x31u8, 0x3bu8, 0x33u8, color, 0x6du8]
}

/// The bytes that turn colors off.
pub open spec fn plain_again() -> Seq<u8> {
    seq![0x1bu8, 0x5bu8, 0x30u8, 0x6du8]
}

/// In a line that is a prompt the user is green, the directory blue and the
/// sigil white, each in bold and each alone: before it stands its color, behind
/// it the end of the color, and the bytes between them are those of the line.
/// A line that is no prompt stays as it is.
pub proof fn lemma_prompt_colors(line: Seq<u8>)
    ensures
        line_spans(line) is None ==> highlighted_line(line) == line,
        line_spans(line) matches Some((u, d, s)) ==> highlighted_line(line) == line.subrange(0, u.0)
            + bold(0x32) + line.subrange(u.0, u.1) + plain_again() + line.subrange(u.1, d.0) + bold(
            0x34,
        ) + line.subrange(d.0, d.1) + plain_again() + line.subrange(d.1, s.0) + bold(0x37)
            + line.subrange(s.0, s.1) + plain_again() + line.subrange(s.1, line.len() as int),
{
    assert(crate::highlight::GREEN_BOLD@ =~= bold(0x32));
    assert(crate::highlight::BLUE_BOLD@ =~= bold(0x34));
    assert(crate::highlight::WHITE_BOLD@ =~= bold(0x37));
    assert(crate::highlight::RESET@ =~= plain_again());
}

} // verus!
