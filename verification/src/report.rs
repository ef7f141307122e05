//! The texts and the lines that a display of the scan needs.

use crate::candidate::{FileView, Filesize};
use crate::counts::ScanResult;
use num_format::{Locale, ToFormattedString};
use vstd::prelude::*;

verus! {

/// The character for the decimal digit `d`.
pub open spec fn digit(d: nat) -> char {
    if d == 0 {
        '0'
    } else if d == 1 {
        '1'
    } else if d == 2 {
        '2'
    } else if d == 3 {
        '3'
    } else if d == 4 {
        '4'
    } else if d == 5 {
        '5'
    } else if d == 6 {
        '6'
    } else if d == 7 {
        '7'
    } else if d == 8 {
        '8'
    } else {
        '9'
    }
}

/// The decimal digits of `n`, the highest first, with no leading zero.
pub open spec fn decimal(n: nat) -> Seq<char>
    decreases n,
{
    if n < 10 {
        seq![digit(n)]
    } else {
        decimal(n / 10).push(digit(n % 10))
    }
}

/// The decimal digits of `n` with a comma in front of each group of three,
/// counted from the right: 1234567 is written 1,234,567.
pub open spec fn grouped(n: nat) -> Seq<char>
    decreases n,
{
    if n < 1000 {
        decimal(n)
    } else {
        grouped(n / 1000) + seq![
            ',',
            digit(n % 1000 / 100),
            digit(n % 100 / 10),
            digit(n % 10),
        ]
    }
}

/// `ToFormattedString::to_formatted_string` with `Locale::en`. For that
/// locale `num_format` holds the comma and the groups of three in a table of
/// its own, so the text does not depend on the machine.
#[verifier::external_body]
fn group_digits(n: u64) -> (text: String)
    ensures
        text@ == grouped(n as nat),
{
    n.to_formatted_string(&Locale::en)
}

/// `n` spaces.
pub open spec fn spaces(n: nat) -> Seq<char> {
    Seq::new(n, |i: int| ' ')
}

/// `text` moved to the right in a field of `width` characters: spaces in
/// front make up what it lacks, and a longer text stays as it is.
pub open spec fn right_aligned(text: Seq<char>, width: nat) -> Seq<char> {
    if text.len() < width {
        spaces((width - text.len()) as nat) + text
    } else {
        text
    }
}

/// The status line for these totals. Errors and denials are named only
/// where there are any.
pub open spec fn status_line(totals: ScanResult) -> Seq<char> {
    "scanned files: "@ + grouped(totals.file_count as nat) + " directories: "@ + grouped(
        totals.directory_count as nat,
    ) + " "@ + (if totals.error_count > 0 {
        "errors: "@ + grouped(totals.error_count as nat)
    } else {
        Seq::empty()
    }) + (if totals.permission_denied_count > 0 {
        " denied: "@ + grouped(totals.permission_denied_count as nat)
    } else {
        Seq::empty()
    })
}

/// The line for a ranked file whose size is written as `size`: the size in
/// 15 columns, the days of creation, change and last use in 10 columns each,
/// and the path, with two spaces between them.
pub open spec fn entry_line(file: FileView, size: Seq<char>) -> Seq<char> {
    right_aligned(size, 15) + "  "@ + right_aligned(file.created, 10) + "  "@ + right_aligned(
        file.modified,
        10,
    ) + "  "@ + right_aligned(file.used, 10) + "  "@ + file.path
}

/// The lines of the display that have to be drawn again after a file was
/// ranked at `rank`: from `rank` to the end of what is shown, which is the
/// ranking as far as the page reaches. The range is empty where `rank` is
/// beyond the page.
pub open spec fn lines_to_repaint(rank: nat, ranked: nat, page_size: nat) -> (nat, nat) {
    let shown = if ranked < page_size {
        ranked
    } else {
        page_size
    };
    if rank < shown {
        (rank, shown)
    } else {
        (rank, rank)
    }
}

/// Where line `line_no` of the list is drawn when the list starts at row
/// `start_line` of a terminal of `rows` rows, and by how many rows the
/// terminal scrolls first. A line that would fall on row `rows` is drawn on
/// the row above after one scroll.
pub open spec fn row_and_scrolls(start_line: int, line_no: int, rows: int) -> (int, int) {
    if start_line + line_no == rows {
        (rows - 1, 1)
    } else {
        (start_line + line_no, 0)
    }
}

/// The row for line `line_no` of the list, and how many rows to scroll
/// before it is drawn.
pub fn row_of(start_line: i16, line_no: usize, rows: u16) -> (place: (u16, u16))
    requires
        0 <= start_line + line_no <= i16::MAX,
        rows >= 1,
    ensures
        (place.0 as int, place.1 as int) == row_and_scrolls(
            start_line as int,
            line_no as int,
            rows as int,
        ),
{
    let row: i32 = start_line as i32 + line_no as i32;
    if row == rows as i32 {
        (rows - 1, 1)
    } else {
        (row as u16, 0)
    }
}

/// `text` moved to the right in a field of `width` characters.
pub fn pad_left(text: &str, width: usize) -> (padded: String)
    ensures
        padded@ == right_aligned(text@, width as nat),
{
    let len = text.unicode_len();
    let mut padded = String::new();
    if len < width {
        let missing = width - len;
        let mut i: usize = 0;
        while i < missing
            invariant
                i <= missing,
                padded@ == spaces(i as nat),
            decreases missing - i,
        {
            proof {
                reveal_strlit(" ");
            }
            let ghost before = padded@;
            padded.append(" ");
            assert(padded@ =~= spaces((i + 1) as nat)) by {
                assert(" "@ =~= seq![' ']);
                assert(padded@ == before + " "@);
            }
            i = i + 1;
        }
    } else {
        assert(padded@ =~= spaces(0));
    }
    let ghost front = padded@;
    padded.append(text);
    proof {
        if len >= width {
            assert(front + text@ =~= text@);
        }
    }
    padded
}

impl ScanResult {
    /// The status line for these totals.
    pub fn status_text(&self) -> (text: String)
        ensures
            text@ == status_line(*self),
    {
        let mut text = String::from_str("scanned files: ");
        text.append(group_digits(self.file_count as u64).as_str());
        text.append(" directories: ");
        text.append(group_digits(self.directory_count as u64).as_str());
        text.append(" ");
        if self.error_count > 0 {
            let ghost before = text@;
            text.append("errors: ");
            text.append(group_digits(self.error_count as u64).as_str());
            assert(text@ =~= before + ("errors: "@ + grouped(self.error_count as nat)));
        } else {
            assert(text@ =~= text@ + Seq::<char>::empty());
        }
        if self.permission_denied_count > 0 {
            let ghost before = text@;
            text.append(" denied: ");
            text.append(group_digits(self.permission_denied_count as u64).as_str());
            assert(text@ =~= before + (" denied: "@ + grouped(
                self.permission_denied_count as nat,
            )));
        } else {
            assert(text@ =~= text@ + Seq::<char>::empty());
        }
        text
    }
}

impl Filesize {
    /// The size in bytes, digits in groups of three.
    pub fn size_text(&self) -> (text: String)
        ensures
            text@ == grouped(self.size as nat),
    {
        group_digits(self.size)
    }

    /// The line for this file with its size written as `size`.
    pub fn line_text(&self, size: &str) -> (text: String)
        ensures
            text@ == entry_line(self@, size@),
    {
        let mut text = pad_left(size, 15);
        text.append("  ");
        text.append(pad_left(self.created.as_str(), 10).as_str());
        text.append("  ");
        text.append(pad_left(self.modified.as_str(), 10).as_str());
        text.append("  ");
        text.append(pad_left(self.used.as_str(), 10).as_str());
        text.append("  ");
        text.append(self.path.as_str());
        text
    }
}

/// The lines to draw again after a file was ranked at `rank` in a ranking
/// of `ranked` files shown on a page of `page_size` lines: the first of them
/// and the one after the last.
pub fn repaint_range(rank: usize, ranked: usize, page_size: usize) -> (lines: (usize, usize))
    ensures
        (lines.0 as nat, lines.1 as nat) == lines_to_repaint(
            rank as nat,
            ranked as nat,
            page_size as nat,
        ),
{
    let shown = if ranked < page_size {
        ranked
    } else {
        page_size
    };
    if rank < shown {
        (rank, shown)
    } else {
        (rank, rank)
    }
}

} // verus!
