//! The line of a terminal on which a tuner shows how far a pitch is from the
//! nearest note.

use vstd::prelude::*;
use vstd::string::*;
use crate::constants::{MAX_CENTS_OFFSET, NUM_CENTS_BETWEEN_NOTES, STEPS_PER_CENT};

verus! {

/// The columns of a tuner line of a given width: from left to right the
/// previous note, blanks, dots up to the note in the middle, dots, blanks and
/// the next note. The dots mark where a pitch counts as in tune.
#[derive(Clone, Copy, Debug, PartialEq, Eq, Structural)]
pub struct TunerLayout {
    /// Column from which a pitch counts as in tune though it is still flat.
    pub left_tick_pos: u16,
    /// Column up to which a pitch counts as in tune though it is sharp.
    pub right_tick_pos: u16,
    pub note_name_pos: u16,
    pub cursor_pos: u16,
    pub previous_note_pos: u16,
    pub next_note_pos: u16,
    pub width: u16,
}

/// `n` times the character `c`.
pub open spec fn repeated(c: char, n: int) -> Seq<char> {
    Seq::new(n as nat, |i: int| c)
}

/// The column of the left tick: `MAX_CENTS_OFFSET` cents before the note in
/// the middle, where the middle at the column `note_name_pos` stands for
/// `NUM_CENTS_BETWEEN_NOTES` cents, rounded to the nearest column.
pub open spec fn left_tick_column(note_name_pos: u16) -> int {
    (2 * note_name_pos * (NUM_CENTS_BETWEEN_NOTES - MAX_CENTS_OFFSET) + NUM_CENTS_BETWEEN_NOTES) / (2
        * NUM_CENTS_BETWEEN_NOTES)
}

/// The column of the cursor for a pitch that is `offset` steps away from the
/// note, `STEPS_PER_CENT` steps to a cent: with `whole` for the steps between
/// two notes it is `note_name_pos * (whole - offset) / whole`, rounded to the
/// nearest column and kept within what a `u16` holds.
pub open spec fn cursor_column(note_name_pos: u16, offset: i32) -> int {
    let whole = NUM_CENTS_BETWEEN_NOTES * STEPS_PER_CENT;
    let t = note_name_pos * (whole - offset);
    let c = (2 * t + whole) / (2 * whole);
    if t <= 0 {
        0
    } else if c > u16::MAX {
        u16::MAX as int
    } else {
        c
    }
}

impl TunerLayout {
    /// The columns are in their order from left to right.
    pub open spec fn wf(self) -> bool {
        &&& self.previous_note_pos <= self.left_tick_pos
        &&& self.left_tick_pos <= self.note_name_pos
        &&& self.note_name_pos <= self.right_tick_pos
        &&& self.right_tick_pos <= self.next_note_pos
    }

    /// The line without the cursor.
    pub open spec fn line(self, previous_note_name: Seq<char>, note_name: Seq<char>, next_note_name: Seq<char>) -> Seq<char> {
        previous_note_name + repeated(' ', self.left_tick_pos - self.previous_note_pos) + repeated(
            '.',
            self.note_name_pos - self.left_tick_pos,
        ) + note_name + repeated('.', self.right_tick_pos - self.note_name_pos) + repeated(
            ' ',
            self.next_note_pos - self.right_tick_pos,
        ) + next_note_name
    }

    /// The line has a character in the column of the cursor.
    pub open spec fn cursor_fits(self, previous_note_name: Seq<char>, note_name: Seq<char>, next_note_name: Seq<char>) -> bool {
        self.cursor_pos < self.line(previous_note_name, note_name, next_note_name).len()
    }

    /// What `new` returns.
    pub open spec fn new_spec(offset: i32, terminal_width: u16) -> TunerLayout {
        let note_name_pos = (terminal_width / 2) as u16;
        let left_tick_pos = left_tick_column(note_name_pos) as u16;
        TunerLayout {
            left_tick_pos,
            right_tick_pos: (2 * note_name_pos - left_tick_pos) as u16,
            note_name_pos,
            cursor_pos: cursor_column(note_name_pos, offset) as u16,
            previous_note_pos: 0,
            next_note_pos: (terminal_width - 1) as u16,
            width: terminal_width,
        }
    }

    /// Lays out a line of `terminal_width` columns, which is not zero, for a
    /// pitch that is `offset` steps away from the note, `STEPS_PER_CENT`
    /// steps to a cent.
    pub fn new(offset: i32, terminal_width: u16) -> (r: Self)
        requires
            terminal_width >= 1,
        ensures
            r == Self::new_spec(offset, terminal_width),
            r.wf(),
            r.note_name_pos == terminal_width / 2,
            r.left_tick_pos == left_tick_column(r.note_name_pos),
            r.right_tick_pos == 2 * r.note_name_pos - r.left_tick_pos,
            r.cursor_pos == cursor_column(r.note_name_pos, offset),
            r.previous_note_pos == 0,
            r.next_note_pos == terminal_width - 1,
            r.width == terminal_width,
    {
        let note_name_pos: u16 = terminal_width / 2;
        let in_tune: u32 = (NUM_CENTS_BETWEEN_NOTES - MAX_CENTS_OFFSET) as u32;
        let whole: u32 = NUM_CENTS_BETWEEN_NOTES as u32;
        let left: u32 = (2 * (note_name_pos as u32) * in_tune + whole) / (2 * whole);
        assert(left <= note_name_pos && (note_name_pos >= 1 ==> left >= 1)) by (nonlinear_arith)
            requires
                left == (2 * note_name_pos * in_tune + whole) / (2 * whole),
                note_name_pos >= 0,
                0 < in_tune <= whole <= 2 * in_tune,
        ;
        let left_tick_pos: u16 = left as u16;
        let right_tick_pos: u16 = note_name_pos + (note_name_pos - left_tick_pos);
        assert(0 < NUM_CENTS_BETWEEN_NOTES * STEPS_PER_CENT <= 0xffff * 0xffff) by (nonlinear_arith)
            requires
                0 < NUM_CENTS_BETWEEN_NOTES <= 0xffff,
                0 < STEPS_PER_CENT <= 0xffff,
        ;
        let steps: i64 = (NUM_CENTS_BETWEEN_NOTES as i64) * (STEPS_PER_CENT as i64);
        let away: i64 = steps - offset as i64;
        assert(-0x8000 * 0x2_0000_0000 <= note_name_pos * away <= 0x8000 * 0x2_0000_0000) by (nonlinear_arith)
            requires
                0 <= note_name_pos <= 0x8000,
                -0x2_0000_0000 <= away <= 0x2_0000_0000,
        ;
        let t: i64 = (note_name_pos as i64) * away;
        let cursor_pos: u16 = if t <= 0 {
            0
        } else {
            let c: i64 = (2 * t + steps) / (2 * steps);
            if c > u16::MAX as i64 {
                u16::MAX
            } else {
                c as u16
            }
        };
        TunerLayout {
            left_tick_pos,
            right_tick_pos,
            note_name_pos,
            cursor_pos,
            previous_note_pos: 0,
            next_note_pos: terminal_width - 1,
            width: terminal_width,
        }
    }

    /// Whether the line would have a character in the column of the cursor.
    pub fn fits(&self, previous_note_name: &str, note_name: &str, next_note_name: &str) -> (r: bool)
        requires
            self.wf(),
        ensures
            r == self.cursor_fits(previous_note_name@, note_name@, next_note_name@),
    {
        let names: u128 = previous_note_name.unicode_len() as u128 + note_name.unicode_len() as u128
            + next_note_name.unicode_len() as u128;
        let between: u128 = (self.next_note_pos - self.previous_note_pos) as u128;
        (self.cursor_pos as u128) < names + between
    }

    /// Writes the line and puts the cursor `|` in place of the character in
    /// the column `cursor_pos`, which the line must have.
    pub fn build(&self, previous_note_name: &str, note_name: &str, next_note_name: &str) -> (r: String)
        requires
            self.wf(),
            self.cursor_fits(previous_note_name@, note_name@, next_note_name@),
        ensures
            r@ == self.line(previous_note_name@, note_name@, next_note_name@).update(
                self.cursor_pos as int,
                '|',
            ),
    {
        let mut s = String::new();
        s.append(previous_note_name);
        push_repeated(&mut s, ' ', self.left_tick_pos - self.previous_note_pos);
        push_repeated(&mut s, '.', self.note_name_pos - self.left_tick_pos);
        s.append(note_name);
        push_repeated(&mut s, '.', self.right_tick_pos - self.note_name_pos);
        push_repeated(&mut s, ' ', self.next_note_pos - self.right_tick_pos);
        s.append(next_note_name);
        assert(s@ =~= self.line(previous_note_name@, note_name@, next_note_name@));
        let total: usize = s.as_str().unicode_len();
        let at: usize = self.cursor_pos as usize;
        let head = s.as_str().substring_char(0, at);
        let tail = s.as_str().substring_char(at + 1, total);
        let mut out = String::from_str(head);
        out.append("|");
        out.append(tail);
        proof {
            reveal_strlit("|");
            assert("|"@ =~= seq!['|']);
            assert(out@ =~= s@.update(at as int, '|'));
        }
        out
    }
}

/// Appends `n` times the blank or the dot `c` to `s`.
fn push_repeated(s: &mut String, c: char, n: u16)
    requires
        c == ' ' || c == '.',
    ensures
        final(s)@ == old(s)@ + repeated(c, n as int),
{
    let mut k: u16 = 0;
    while k < n
        invariant
            k <= n,
            c == ' ' || c == '.',
            s@ == old(s)@ + repeated(c, k as int),
        decreases n - k,
    {
        proof {
            reveal_strlit(" ");
            reveal_strlit(".");
            assert(" "@ =~= seq![' ']);
            assert("."@ =~= seq!['.']);
        }
        if c == ' ' {
            s.append(" ");
        } else {
            s.append(".");
        }
        k += 1;
        assert(s@ =~= old(s)@ + repeated(c, k as int));
    }
    assert(s@ =~= old(s)@ + repeated(c, n as int));
}

/// A note renderer that draws on a terminal of `cols` columns and `rows`
/// rows.
pub struct CmdLineNoteRenderer {
    cols: u16,
    rows: u16,
}

impl CmdLineNoteRenderer {
    /// The number of columns that the renderer was made with.
    pub closed spec fn spec_cols(&self) -> u16 {
        self.cols
    }

    /// The number of rows that the renderer was made with.
    pub closed spec fn spec_rows(&self) -> u16 {
        self.rows
    }

    pub fn new_with_rows_and_columns(cols: u16, rows: u16) -> (r: Self)
        ensures
            r.spec_cols() == cols,
            r.spec_rows() == rows,
    {
        Self { cols, rows }
    }

    #[verifier::when_used_as_spec(spec_cols)]
    pub fn cols(&self) -> (r: u16)
        ensures
            r == self.spec_cols(),
    {
        self.cols
    }

    #[verifier::when_used_as_spec(spec_rows)]
    pub fn rows(&self) -> (r: u16)
        ensures
            r == self.spec_rows(),
    {
        self.rows
    }

    /// The tuner line for a pitch that is `offset` steps away from the note
    /// `note_name`, over the whole width of the terminal. There is none
    /// where the terminal has no column, or where the line has no character in
    /// the column of the cursor.
    pub fn render_line(
        &self,
        offset: i32,
        previous_note_name: &str,
        note_name: &str,
        next_note_name: &str,
    ) -> (r: Option<String>)
        ensures
            r is Some <==> self.cols() >= 1 && TunerLayout::new_spec(offset, self.cols()).cursor_fits(
                previous_note_name@,
                note_name@,
                next_note_name@,
            ),
            r is Some ==> {
                let layout = TunerLayout::new_spec(offset, self.cols());
                r.unwrap()@ == layout.line(previous_note_name@, note_name@, next_note_name@).update(
                    layout.cursor_pos as int,
                    '|',
                )
            },
    {
        if self.cols == 0 {
            return None;
        }
        let tuner_layout = TunerLayout::new(offset, self.cols);
        if !tuner_layout.fits(previous_note_name, note_name, next_note_name) {
            return None;
        }
        Some(tuner_layout.build(previous_note_name, note_name, next_note_name))
    }
}

} // verus!
