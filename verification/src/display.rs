//! Text layout for the surrounding terminal menus.
//!
//! The library computes each line's text and the column it starts at;
//! actually moving the cursor and printing is the caller's affair. A line
//! is centered by its byte length within a fixed 80-column width, column 0
//! when it does not fit.

use vstd::prelude::*;

verus! {

use vstd::string::StringSliceAdditionalSpecFns;

/// The fixed terminal width the layout centers within.
pub const TERMINAL_WIDTH: usize = 80;

/// One line of terminal output: the column to start at, and the text.
pub struct CenteredLine {
    pub column: usize,
    pub text: String,
}

/// The starting column that centers a text of the given byte length: half
/// the leftover width, or column 0 when the text does not fit.
pub open spec fn center_column_spec(len: nat) -> nat {
    if len > 80 {
        0
    } else {
        ((80 - len) / 2) as nat
    }
}

/// A line is laid out when its column centers its text's byte length (any
/// text an allocation can hold: one whose byte length fits the machine).
pub open spec fn centered(line: CenteredLine) -> bool {
    vstd::utf8::encode_utf8(line.text@).len() <= usize::MAX ==> line.column == center_column_spec(
        vstd::utf8::encode_utf8(line.text@).len(),
    )
}

fn center_column(len: usize) -> (c: usize)
    ensures
        c == center_column_spec(len as nat),
{
    if len > TERMINAL_WIDTH {
        0
    } else {
        (TERMINAL_WIDTH - len) / 2
    }
}

/// Lays out one text centered on the fixed-width terminal, by byte
/// length.
pub fn print_centered(text: &str) -> (r: CenteredLine)
    ensures
        r.text@ == text@,
        text.spec_bytes().len() <= usize::MAX ==> r.column == center_column_spec(
            text.spec_bytes().len(),
        ),
        centered(r),
{
    let column = center_column(text.len());
    CenteredLine { column, text: text.to_owned() }
}

/// Lays out a horizontal separator: a line of 76 box-drawing characters.
pub fn print_separator() -> (r: CenteredLine)
    ensures
        r.text@
            == "════════════════════════════════════════════════════════════════════════════"@,
        centered(r),
{
    print_centered("════════════════════════════════════════════════════════════════════════════")
}

/// Lays out a title: the text centered, then a separator under it.
pub fn print_title(text: &str) -> (r: Vec<CenteredLine>)
    ensures
        r@.len() == 2,
        r@[0].text@ == text@,
        r@[1].text@
            == "════════════════════════════════════════════════════════════════════════════"@,
        forall|i: int| 0 <= i < 2 ==> centered(#[trigger] r@[i]),
{
    let mut lines: Vec<CenteredLine> = Vec::new();
    lines.push(print_centered(text));
    lines.push(print_separator());
    lines
}

/// Lays out the main menu: a title with its separator, the four numbered
/// choices, and a closing separator, each line centered by byte length.
pub fn display_menu() -> (r: Vec<CenteredLine>)
    ensures
        r@.len() == 7,
        r@[0].text@ == "Rosario's Enigma Encryption Tool - Main Menu"@,
        r@[2].text@ == "1. Generate new grid and validate password"@,
        r@[3].text@ == "2. View current configuration"@,
        r@[4].text@ == "3. Reset configuration"@,
        r@[5].text@ == "4. Exit"@,
        r@[1].text@
            == "════════════════════════════════════════════════════════════════════════════"@,
        r@[6].text@
            == "════════════════════════════════════════════════════════════════════════════"@,
        forall|i: int| 0 <= i < 7 ==> centered(#[trigger] r@[i]),
{
    let mut lines: Vec<CenteredLine> = Vec::new();
    lines.push(print_centered("Rosario's Enigma Encryption Tool - Main Menu"));
    lines.push(print_separator());
    lines.push(print_centered("1. Generate new grid and validate password"));
    lines.push(print_centered("2. View current configuration"));
    lines.push(print_centered("3. Reset configuration"));
    lines.push(print_centered("4. Exit"));
    lines.push(print_separator());
    lines
}

} // verus!
