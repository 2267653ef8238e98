//! Reading a move typed by a player: two squares such as `e2 e4`, each a
//! column letter `a`..`h` followed by a row digit `1`..`8`, separated by
//! whitespace. Only ASCII whitespace separates words here: a non-ASCII space
//! such as U+00A0 counts as part of a word, so a line that uses one between
//! the two squares is rejected.
use vstd::prelude::*;

use vstd::string::StringSliceAdditionalSpecFns;

use crate::game::{BoardIndex, Column, Row};

verus! {

/// The column that a lowercase letter `a`..`h` names.
pub open spec fn column_of_byte(b: u8) -> Option<Column> {
    if b == 97 {
        Some(Column::A)
    } else if b == 98 {
        Some(Column::B)
    } else if b == 99 {
        Some(Column::C)
    } else if b == 100 {
        Some(Column::D)
    } else if b == 101 {
        Some(Column::E)
    } else if b == 102 {
        Some(Column::F)
    } else if b == 103 {
        Some(Column::G)
    } else if b == 104 {
        Some(Column::H)
    } else {
        None
    }
}

/// The row that a digit `1`..`8` names.
pub open spec fn row_of_byte(b: u8) -> Option<Row> {
    if b == 49 {
        Some(Row::R1)
    } else if b == 50 {
        Some(Row::R2)
    } else if b == 51 {
        Some(Row::R3)
    } else if b == 52 {
        Some(Row::R4)
    } else if b == 53 {
        Some(Row::R5)
    } else if b == 54 {
        Some(Row::R6)
    } else if b == 55 {
        Some(Row::R7)
    } else if b == 56 {
        Some(Row::R8)
    } else {
        None
    }
}

/// The square that exactly two bytes, a column letter then a row digit, name.
pub open spec fn square_of(b: Seq<u8>) -> Option<BoardIndex> {
    if b.len() == 2 && column_of_byte(b[0]) is Some && row_of_byte(b[1]) is Some {
        Some(BoardIndex { column: column_of_byte(b[0])->Some_0, row: row_of_byte(b[1])->Some_0 })
    } else {
        None
    }
}

/// Space, tab, line feed, vertical tab, form feed or carriage return.
pub open spec fn is_space(b: u8) -> bool {
    b == 32 || (9 <= b && b <= 13)
}

/// The first position at or after `i` that does not hold a space.
pub open spec fn skip_spaces(s: Seq<u8>, i: int) -> int
    decreases s.len() - i,
{
    if 0 <= i < s.len() && is_space(s[i]) {
        skip_spaces(s, i + 1)
    } else {
        i
    }
}

/// The first position at or after `i` that holds a space, or the end.
pub open spec fn word_end(s: Seq<u8>, i: int) -> int
    decreases s.len() - i,
{
    if 0 <= i < s.len() && !is_space(s[i]) {
        word_end(s, i + 1)
    } else {
        i
    }
}

/// The two squares that the first two words of the line name, if both do.
pub open spec fn parse_line(s: Seq<u8>) -> Option<(BoardIndex, BoardIndex)> {
    let s1 = skip_spaces(s, 0);
    let e1 = word_end(s, s1);
    let s2 = skip_spaces(s, e1);
    let e2 = word_end(s, s2);
    if s1 < s.len() && s2 < s.len() && square_of(s.subrange(s1, e1)) is Some && square_of(
        s.subrange(s2, e2),
    ) is Some {
        Some((square_of(s.subrange(s1, e1))->Some_0, square_of(s.subrange(s2, e2))->Some_0))
    } else {
        None
    }
}

fn column_from_byte(b: u8) -> (r: Option<Column>)
    ensures
        r == column_of_byte(b),
{
    match b {
        97 => Some(Column::A),
        98 => Some(Column::B),
        99 => Some(Column::C),
        100 => Some(Column::D),
        101 => Some(Column::E),
        102 => Some(Column::F),
        103 => Some(Column::G),
        104 => Some(Column::H),
        _ => None,
    }
}

fn row_from_byte(b: u8) -> (r: Option<Row>)
    ensures
        r == row_of_byte(b),
{
    match b {
        49 => Some(Row::R1),
        50 => Some(Row::R2),
        51 => Some(Row::R3),
        52 => Some(Row::R4),
        53 => Some(Row::R5),
        54 => Some(Row::R6),
        55 => Some(Row::R7),
        56 => Some(Row::R8),
        _ => None,
    }
}

fn square_from_bytes(b: &[u8], start: usize, end: usize) -> (r: Result<BoardIndex, ()>)
    requires
        start <= end <= b@.len(),
    ensures
        r is Ok <==> square_of(b@.subrange(start as int, end as int)) is Some,
        r is Ok ==> r->Ok_0 == square_of(b@.subrange(start as int, end as int))->Some_0,
{
    if end - start != 2 {
        return Err(());
    }
    let column = match column_from_byte(b[start]) {
        Some(c) => c,
        None => return Err(()),
    };
    let row = match row_from_byte(b[start + 1]) {
        Some(r) => r,
        None => return Err(()),
    };
    Ok(BoardIndex::new(column, row))
}

/// Reads one square, such as `e2`.
pub fn parse_board_index(input: &str) -> (r: Result<BoardIndex, ()>)
    ensures
        r is Ok <==> square_of(input.spec_bytes()) is Some,
        r is Ok ==> r->Ok_0 == square_of(input.spec_bytes())->Some_0,
{
    let b = input.as_bytes();
    let r = square_from_bytes(b, 0, b.len());
    assert(b@.subrange(0, b@.len() as int) =~= b@);
    r
}

fn skip_from(s: &[u8], i: usize) -> (r: usize)
    requires
        i <= s@.len(),
    ensures
        r == skip_spaces(s@, i as int),
        i <= r <= s@.len(),
{
    let mut j: usize = i;
    while j < s.len() && (s[j] == 32 || (9 <= s[j] && s[j] <= 13))
        invariant
            i <= j <= s@.len(),
            skip_spaces(s@, j as int) == skip_spaces(s@, i as int),
        decreases s@.len() - j,
    {
        j = j + 1;
    }
    j
}

fn word_end_from(s: &[u8], i: usize) -> (r: usize)
    requires
        i <= s@.len(),
    ensures
        r == word_end(s@, i as int),
        i <= r <= s@.len(),
{
    let mut j: usize = i;
    while j < s.len() && !(s[j] == 32 || (9 <= s[j] && s[j] <= 13))
        invariant
            i <= j <= s@.len(),
            word_end(s@, j as int) == word_end(s@, i as int),
        decreases s@.len() - j,
    {
        j = j + 1;
    }
    j
}

/// Reads a move: the squares named by the first two whitespace-separated
/// words of the line. Fails when there are fewer than two words or either of
/// them is not a square.
pub fn parse_input(line: &str) -> (r: Result<(BoardIndex, BoardIndex), ()>)
    ensures
        r is Ok <==> parse_line(line.spec_bytes()) is Some,
        r is Ok ==> r->Ok_0 == parse_line(line.spec_bytes())->Some_0,
{
    let s = line.as_bytes();
    let s1 = skip_from(s, 0);
    if s1 == s.len() {
        return Err(());
    }
    let e1 = word_end_from(s, s1);
    let first = square_from_bytes(s, s1, e1);
    let s2 = skip_from(s, e1);
    if s2 == s.len() {
        return Err(());
    }
    let e2 = word_end_from(s, s2);
    let second = square_from_bytes(s, s2, e2);
    match (first, second) {
        (Ok(a), Ok(b)) => Ok((a, b)),
        _ => Err(()),
    }
}

} // verus!
