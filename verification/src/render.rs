//! The board as text, for a person to read.

use crate::board::Board;
use crate::cell::CellState;
use crate::model::BoardView;
use vstd::prelude::*;
use vstd::string::StringExecFns;

verus! {

/// The decimal digit for `d`, a number below ten.
pub open spec fn digit_char(d: int) -> char {
    if d == 0 {
        '0'
    } else if d == 1 {
        '1'
    } else if d == 2 {
        '2'
    } else if d == 3 {
        '3'
    } else if d == 4 {
        '4'
    } else if d == 5 {
        '5'
    } else if d == 6 {
        '6'
    } else if d == 7 {
        '7'
    } else if d == 8 {
        '8'
    } else {
        '9'
    }
}

/// `n` in decimal, without leading zeros.
pub open spec fn decimal(n: nat) -> Seq<char>
    decreases n,
{
    if n < 10 {
        seq![digit_char(n as int)]
    } else {
        decimal(n / 10).push(digit_char((n % 10) as int))
    }
}

/// How one cell is drawn: a blank cell as the tag of its region, a star as
/// `X`, a filled cell as `#`.
pub open spec fn cell_text(tag: usize, state: CellState) -> Seq<char> {
    match state {
        CellState::Blank => decimal(tag as nat),
        CellState::Star => seq!['X'],
        CellState::Filled => seq!['#'],
    }
}

impl BoardView {
    /// The first `n` cells of row `r`, with a single space between
    /// neighbours.
    pub open spec fn row_text(self, r: int, n: nat) -> Seq<char>
        decreases n,
    {
        if n == 0 {
            Seq::empty()
        } else if n == 1 {
            cell_text(self.tag(r, 0), self.state(r, 0))
        } else {
            self.row_text(r, (n - 1) as nat) + seq![' '] + cell_text(
                self.tag(r, n - 1),
                self.state(r, n - 1),
            )
        }
    }

    /// The first `n` rows, each ended by a line feed.
    pub open spec fn rows_text(self, n: nat) -> Seq<char>
        decreases n,
    {
        if n == 0 {
            Seq::empty()
        } else {
            self.rows_text((n - 1) as nat) + self.row_text(n - 1, self.width) + seq!['\n']
        }
    }

    /// The whole grid, one row per line, and an empty line after it.
    pub open spec fn rendered(self) -> Seq<char> {
        self.rows_text(self.height) + seq!['\n']
    }
}

/// The digit for `d` as a string.
fn digit_str(d: usize) -> (s: &'static str)
    requires
        d < 10,
    ensures
        s@ == seq![digit_char(d as int)],
{
    proof {
        reveal_strlit("0");
        reveal_strlit("1");
        reveal_strlit("2");
        reveal_strlit("3");
        reveal_strlit("4");
        reveal_strlit("5");
        reveal_strlit("6");
        reveal_strlit("7");
        reveal_strlit("8");
        reveal_strlit("9");
    }
    let s = if d == 0 {
        "0"
    } else if d == 1 {
        "1"
    } else if d == 2 {
        "2"
    } else if d == 3 {
        "3"
    } else if d == 4 {
        "4"
    } else if d == 5 {
        "5"
    } else if d == 6 {
        "6"
    } else if d == 7 {
        "7"
    } else if d == 8 {
        "8"
    } else {
        "9"
    };
    assert(s@ =~= seq![digit_char(d as int)]);
    s
}

/// Appends `n` in decimal to `out`.
fn push_decimal(out: &mut String, n: usize)
    ensures
        final(out)@ == old(out)@ + decimal(n as nat),
    decreases n,
{
    if n >= 10 {
        push_decimal(out, n / 10);
    }
    out.append(digit_str(n % 10));
    proof {
        if n >= 10 {
            assert(final(out)@ =~= old(out)@ + decimal(n as nat));
        }
    }
}

impl CellState {
    /// The state as a string of one character: `-` for blank, `X` for a
    /// star, `#` for a filled cell.
    pub fn to_string(&self) -> (s: String)
        ensures
            s@ == seq![self.symbol_spec()],
    {
        proof {
            reveal_strlit("-");
            reveal_strlit("X");
            reveal_strlit("#");
        }
        let text = match self {
            CellState::Blank => "-",
            CellState::Star => "X",
            CellState::Filled => "#",
        };
        let mut s = String::new();
        s.append(text);
        assert(s@ =~= seq![self.symbol_spec()]);
        s
    }
}

impl Board {
    /// The board as text: one row per line, the cells of a row separated by
    /// single spaces, a blank cell drawn as the tag of its region, a star
    /// as `X`, a filled cell as `#`; an empty line follows the grid.
    pub fn render(&self) -> (text: String)
        requires
            self@.is_grid(),
        ensures
            text@ == self@.rendered(),
    {
        let height = self.height();
        let width = self.width();
        let mut text = String::new();
        proof {
            reveal_strlit(" ");
            reveal_strlit("\n");
            reveal_strlit("X");
            reveal_strlit("#");
            assert(text@ =~= self@.rows_text(0));
        }
        for row in 0..height
            invariant
                self@.is_grid(),
                height == self@.height,
                width == self@.width,
                " "@ == seq![' '],
                "\n"@ == seq!['\n'],
                "X"@ == seq!['X'],
                "#"@ == seq!['#'],
                text@ == self@.rows_text(row as nat),
        {
            let ghost start = text@;
            for col in 0..width
                invariant
                    self@.is_grid(),
                    height == self@.height,
                    width == self@.width,
                    row < height,
                    " "@ == seq![' '],
                    "X"@ == seq!['X'],
                    "#"@ == seq!['#'],
                    text@ == start + self@.row_text(row as int, col as nat),
            {
                let ghost before = text@;
                if col > 0 {
                    text.append(" ");
                }
                match self.state(row, col) {
                    CellState::Blank => {
                        push_decimal(&mut text, self.region(row, col));
                    },
                    CellState::Star => {
                        text.append("X");
                    },
                    CellState::Filled => {
                        text.append("#");
                    },
                }
                proof {
                    assert(text@ =~= start + self@.row_text(row as int, (col + 1) as nat));
                }
            }
            text.append("\n");
            proof {
                assert(text@ =~= self@.rows_text((row + 1) as nat));
            }
        }
        text.append("\n");
        text
    }
}

} // verus!
