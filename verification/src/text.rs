//! Positions as text: three lines of five characters, `D` for a dog, `R`
//! for the rabbit, any other character for an empty cell.

use vstd::prelude::*;
use crate::entity::Entity;
use crate::board::{Board, Game, empty_board};

verus! {

/// What `char::is_whitespace` of std says of a character: whether it has
/// the Unicode property White_Space.
pub uninterp spec fn white_space(c: char) -> bool;

/// Tells whether a character is white space, by `char::is_whitespace` of
/// std. The result is a function of the character alone; which characters
/// are white space is left to std.
#[verifier::external_body]
fn is_space(c: char) -> (r: bool)
    ensures
        r == white_space(c),
{
    c.is_whitespace()
}

/// Appends a character to a string, by `String::push` of std.
#[verifier::external_body]
fn push_char(s: &mut String, c: char)
    ensures
        final(s)@ == old(s)@.push(c),
{
    s.push(c)
}

/// The text without the white space at its start.
pub open spec fn trim_start(s: Seq<char>) -> Seq<char>
    decreases s.len(),
{
    if s.len() > 0 && white_space(s[0]) {
        trim_start(s.drop_first())
    } else {
        s
    }
}

/// The text without the white space at its end.
pub open spec fn trim_end(s: Seq<char>) -> Seq<char>
    decreases s.len(),
{
    if s.len() > 0 && white_space(s.last()) {
        trim_end(s.drop_last())
    } else {
        s
    }
}

/// The text without the white space at its start and at its end.
pub open spec fn trimmed(s: Seq<char>) -> Seq<char> {
    trim_end(trim_start(s))
}

/// The row that a line of text stands for: the characters of the trimmed
/// line are read from the left; a line that is too long loses what is beyond
/// the fifth character, and one that is too short gives empty cells.
pub open spec fn row_of(line: Seq<char>) -> Seq<Entity> {
    Seq::new(
        5,
        |j: int|
            if j < trimmed(line).len() {
                Entity::from_char(trimmed(line)[j])
            } else {
                Entity::Empty
            },
    )
}

/// The position that lines of text stand for: the first three lines give
/// the rows, and a missing line gives an empty row.
pub open spec fn board_of_lines(lines: Seq<Seq<char>>) -> Board {
    Seq::new(
        3,
        |i: int|
            if i < lines.len() {
                row_of(lines[i])
            } else {
                empty_board()[i]
            },
    )
}

/// The lines have the shape of a board: there are three, each five
/// characters wide once trimmed.
pub open spec fn has_board_shape(lines: Seq<Seq<char>>) -> bool {
    &&& lines.len() == 3
    &&& forall|i: int| 0 <= i < 3 ==> trimmed(#[trigger] lines[i]).len() == 5
}

/// The text of a row.
pub open spec fn row_text(row: Seq<Entity>) -> Seq<char> {
    row.map_values(|e: Entity| e.to_char())
}

/// The text of a position: its rows from top to bottom, each ended by a
/// line feed.
pub open spec fn board_text(b: Board) -> Seq<char> {
    row_text(b[0]).push('\n') + row_text(b[1]).push('\n') + row_text(b[2]).push('\n')
}

/// The characters of a string.
pub(crate) fn chars_of(line: &str) -> (cs: Vec<char>)
    ensures
        cs@ == line@,
{
    let mut cs: Vec<char> = Vec::new();
    for c in it: line.chars()
        invariant
            cs@ == it.seq().take(it.index() as int),
            it.seq() == line@,
    {
        cs.push(c);
    }
    cs
}

/// Dropping white space from the start of a text leaves what follows its
/// first character that is none.
proof fn lemma_trim_start(s: Seq<char>, a: int)
    requires
        0 <= a <= s.len(),
        forall|k: int| 0 <= k < a ==> white_space(s[k]),
        a < s.len() ==> !white_space(s[a]),
    ensures
        trim_start(s) == s.skip(a),
    decreases a,
{
    if a > 0 {
        let rest = s.drop_first();
        assert forall|k: int| 0 <= k < a - 1 implies white_space(rest[k]) by {
            assert(rest[k] == s[k + 1]);
        }
        lemma_trim_start(rest, a - 1);
        assert(rest.skip(a - 1) =~= s.skip(a));
    } else {
        assert(s.skip(0) =~= s);
    }
}

/// Dropping white space from the end of a text leaves what precedes its
/// last character that is none.
proof fn lemma_trim_end(s: Seq<char>, b: int)
    requires
        0 <= b <= s.len(),
        forall|k: int| b <= k < s.len() ==> white_space(s[k]),
        b > 0 ==> !white_space(s[b - 1]),
    ensures
        trim_end(s) == s.take(b),
    decreases s.len() - b,
{
    if b < s.len() {
        let rest = s.drop_last();
        lemma_trim_end(rest, b);
        assert(rest.take(b) =~= s.take(b));
    } else {
        assert(s.take(b) =~= s);
    }
}

/// Finds the trimmed part of a text: it runs from index `r.0` up to, not
/// including, index `r.1`.
fn trim_bounds(cs: &Vec<char>) -> (r: (usize, usize))
    ensures
        r.0 <= r.1 <= cs.len(),
        trimmed(cs@) == cs@.subrange(r.0 as int, r.1 as int),
{
    let mut a: usize = 0;
    while a < cs.len() && is_space(cs[a])
        invariant
            a <= cs.len(),
            forall|k: int| 0 <= k < a ==> white_space(cs@[k]),
        decreases cs.len() - a,
    {
        a += 1;
    }
    let mut b: usize = cs.len();
    while b > a && is_space(cs[b - 1])
        invariant
            a <= b <= cs.len(),
            forall|k: int| b <= k < cs.len() ==> white_space(cs@[k]),
        decreases b,
    {
        b -= 1;
    }
    proof {
        lemma_trim_start(cs@, a as int);
        let tail = cs@.skip(a as int);
        assert forall|k: int| b - a <= k < tail.len() implies white_space(tail[k]) by {
            assert(tail[k] == cs@[k + a]);
        }
        lemma_trim_end(tail, b - a);
        assert(tail.take(b - a) =~= cs@.subrange(a as int, b as int));
    }
    (a, b)
}

/// Reads one row from a line of text.
fn parse_row(line: &str) -> (r: ([Entity; 5], usize))
    ensures
        r.0@ == row_of(line@),
        r.1 == trimmed(line@).len(),
{
    let cs = chars_of(line);
    let (a, b) = trim_bounds(&cs);
    let mut row: [Entity; 5] = [Entity::Empty; 5];
    let mut j: usize = 0;
    while j < 5 && j < b - a
        invariant
            j <= 5,
            a <= b <= cs.len(),
            cs@ == line@,
            trimmed(line@) == cs@.subrange(a as int, b as int),
            forall|k: int| 0 <= k < j ==> row@[k] == row_of(line@)[k],
            forall|k: int| j <= k < 5 ==> row@[k] == Entity::Empty,
        decreases 5 - j,
    {
        row[j] = Entity::from_char(cs[a + j]);
        j += 1;
    }
    assert(row@ =~= row_of(line@));
    (row, b - a)
}

/// Why a text is no board.
#[derive(Debug, Clone, Copy, PartialEq, Eq, Structural)]
pub enum GameError {
    /// The text has not three lines, or a line is not five characters wide.
    InvalidInputShape,
}

impl Game {
    /// Reads a position from lines of text, whatever their shape: a line
    /// that is too long is cut, a line that is too short or missing gives
    /// empty cells, and lines after the third are not read.
    pub fn read(lines: &Vec<String>) -> (g: Game)
        ensures
            g@ == board_of_lines(lines.deep_view()),
    {
        let mut g = Game::empty();
        let mut i: usize = 0;
        while i < 3 && i < lines.len()
            invariant
                i <= 3,
                forall|k: int| 0 <= k < i ==> g@[k] == board_of_lines(lines.deep_view())[k],
                forall|k: int| i <= k < 3 ==> g@[k] == empty_board()[k],
                g@.len() == 3,
            decreases 3 - i,
        {
            let (row, _) = parse_row(lines[i].as_str());
            g.set_row(i, row);
            assert(lines.deep_view()[i as int] == lines@[i as int]@);
            i += 1;
        }
        assert(g@ =~= board_of_lines(lines.deep_view()));
        g
    }

    /// Reads a position from lines of text that have the shape of a board,
    /// and refuses any other text.
    pub fn parse(lines: &Vec<String>) -> (r: Result<Game, GameError>)
        ensures
            match r {
                Ok(g) => has_board_shape(lines.deep_view()) && g@ == board_of_lines(
                    lines.deep_view(),
                ),
                Err(e) => !has_board_shape(lines.deep_view()) && e == GameError::InvalidInputShape,
            },
    {
        if lines.len() != 3 {
            return Err(GameError::InvalidInputShape);
        }
        let mut g = Game::empty();
        let mut i: usize = 0;
        while i < 3
            invariant
                i <= 3,
                lines.len() == 3,
                forall|k: int| 0 <= k < i ==> g@[k] == board_of_lines(lines.deep_view())[k],
                forall|k: int| 0 <= k < i ==> trimmed(#[trigger] lines.deep_view()[k]).len() == 5,
                g@.len() == 3,
            decreases 3 - i,
        {
            assert(lines.deep_view()[i as int] == lines@[i as int]@);
            let (row, width) = parse_row(lines[i].as_str());
            if width != 5 {
                return Err(GameError::InvalidInputShape);
            }
            g.set_row(i, row);
            i += 1;
        }
        assert(g@ =~= board_of_lines(lines.deep_view()));
        Ok(g)
    }

    /// Writes the position as text: one line for each row, each ended by a
    /// line feed.
    pub fn write(&self) -> (s: String)
        ensures
            s@ == board_text(self@),
    {
        let mut s = String::new();
        let mut i: usize = 0;
        while i < 3
            invariant
                i <= 3,
                s@ == rows_text(self@, i as int),
            decreases 3 - i,
        {
            let ghost before = s@;
            let mut j: usize = 0;
            while j < 5
                invariant
                    i < 3,
                    j <= 5,
                    s@ == before + row_text(self@[i as int]).take(j as int),
                decreases 5 - j,
            {
                push_char(&mut s, self.get(i, j).to_char());
                assert(s@ =~= before + row_text(self@[i as int]).take(j + 1));
                j += 1;
            }
            push_char(&mut s, '\n');
            assert(row_text(self@[i as int]).take(5) =~= row_text(self@[i as int]));
            assert(s@ =~= before + row_text(self@[i as int]).push('\n'));
            i += 1;
        }
        assert(rows_text(self@, 3) =~= board_text(self@)) by {
            reveal_with_fuel(rows_text, 4);
        }
        s
    }
}

/// The text of the first `n` rows of a position.
pub open spec fn rows_text(b: Board, n: int) -> Seq<char>
    decreases n,
{
    if n <= 0 {
        Seq::empty()
    } else {
        rows_text(b, n - 1) + row_text(b[n - 1]).push('\n')
    }
}

/// The text that answers a request: the position after the move that was
/// found, or `-1` on a line of its own where no move was found.
pub open spec fn answer_text(r: Option<Board>) -> Seq<char> {
    match r {
        Some(b) => board_text(b),
        None => seq!['-', '1', '\n'],
    }
}

/// Writes the answer to a request as text.
pub fn answer(r: &Option<Game>) -> (s: String)
    ensures
        s@ == answer_text(crate::policy::board_of(*r)),
{
    match r {
        Some(g) => g.write(),
        None => {
            let mut s = String::new();
            push_char(&mut s, '-');
            push_char(&mut s, '1');
            push_char(&mut s, '\n');
            assert(s@ =~= seq!['-', '1', '\n']);
            s
        },
    }
}

} // verus!
