use vstd::prelude::*;

verus! {

/// One grid position.
#[derive(Clone, Copy, Debug, PartialEq, Eq, Structural)]
pub struct Cell {
    pub is_mine: bool,
    pub is_revealed: bool,
    pub is_flagged: bool,
    pub adjacent_mines: i8,
    pub row: usize,
    pub col: usize,
}

/// Number of cells of `s` that satisfy `p`.
pub open spec fn count_where(s: Seq<Cell>, p: spec_fn(Cell) -> bool) -> nat
    decreases s.len(),
{
    if s.len() == 0 {
        0
    } else {
        count_where(s.drop_last(), p) + if p(s.last()) { 1nat } else { 0nat }
    }
}

pub open spec fn is_mine_cell(c: Cell) -> bool {
    c.is_mine
}

pub open spec fn is_safe_cell(c: Cell) -> bool {
    !c.is_mine
}

pub open spec fn is_hidden_cell(c: Cell) -> bool {
    !c.is_revealed
}

/// Number of mines among `s`.
pub open spec fn count_mines(s: Seq<Cell>) -> nat {
    count_where(s, |c: Cell| is_mine_cell(c))
}

/// Number of cells of `s` without a mine.
pub open spec fn count_safe(s: Seq<Cell>) -> nat {
    count_where(s, |c: Cell| is_safe_cell(c))
}

/// Number of cells of `s` not yet revealed.
pub open spec fn count_hidden(s: Seq<Cell>) -> nat {
    count_where(s, |c: Cell| is_hidden_cell(c))
}

pub proof fn lemma_count_bounded(s: Seq<Cell>, p: spec_fn(Cell) -> bool)
    ensures
        count_where(s, p) <= s.len(),
    decreases s.len(),
{
    if s.len() > 0 {
        lemma_count_bounded(s.drop_last(), p);
    }
}

/// Counting over a prefix one element longer.
pub proof fn lemma_count_take(s: Seq<Cell>, p: spec_fn(Cell) -> bool, i: int)
    requires
        0 <= i < s.len(),
    ensures
        count_where(s.take(i + 1), p) == count_where(s.take(i), p) + if p(s[i]) { 1nat } else { 0nat },
{
    assert(s.take(i + 1).drop_last() =~= s.take(i));
}

/// Replacing one element changes the count by at most that element.
pub proof fn lemma_count_update(s: Seq<Cell>, p: spec_fn(Cell) -> bool, j: int, c: Cell)
    requires
        0 <= j < s.len(),
    ensures
        count_where(s.update(j, c), p) + (if p(s[j]) { 1int } else { 0int })
            == count_where(s, p) + (if p(c) { 1int } else { 0int }),
    decreases s.len(),
{
    if j == s.len() - 1 {
        assert(s.update(j, c).drop_last() =~= s.drop_last());
    } else {
        assert(s.update(j, c).drop_last() =~= s.drop_last().update(j, c));
        lemma_count_update(s.drop_last(), p, j, c);
    }
}

/// Each cell is either a mine or safe.
pub proof fn lemma_mines_and_safe(s: Seq<Cell>)
    ensures
        count_mines(s) + count_safe(s) == s.len(),
    decreases s.len(),
{
    if s.len() > 0 {
        lemma_mines_and_safe(s.drop_last());
    }
}

/// Equal predicates on every element give equal counts.
pub proof fn lemma_count_same_on(s: Seq<Cell>, t: Seq<Cell>, p: spec_fn(Cell) -> bool)
    requires
        s.len() == t.len(),
        forall|i: int| 0 <= i < s.len() ==> p(s[i]) == p(t[i]),
    ensures
        count_where(s, p) == count_where(t, p),
    decreases s.len(),
{
    if s.len() > 0 {
        lemma_count_same_on(s.drop_last(), t.drop_last(), p);
    }
}

/// A count is zero exactly when no element satisfies the predicate.
pub proof fn lemma_count_zero(s: Seq<Cell>, p: spec_fn(Cell) -> bool)
    ensures
        (count_where(s, p) == 0) <==> (forall|i: int| 0 <= i < s.len() ==> !p(#[trigger] s[i])),
    decreases s.len(),
{
    if s.len() > 0 {
        lemma_count_zero(s.drop_last(), p);
        if count_where(s, p) == 0 {
            assert forall|i: int| 0 <= i < s.len() implies !p(#[trigger] s[i]) by {
                if i < s.len() - 1 {
                    assert(s.drop_last()[i] == s[i]);
                }
            }
        } else if count_where(s.drop_last(), p) > 0 {
            let i = choose|i: int| 0 <= i < s.len() - 1 && p(#[trigger] s.drop_last()[i]);
            assert(s[i] == s.drop_last()[i]);
        }
    }
}

impl Cell {
    /// A fresh cell at (`row`, `col`): no mine, hidden, unflagged, count 0.
    pub fn new(row: usize, col: usize) -> (r: Cell)
        ensures
            r == (Cell {
                is_mine: false,
                is_revealed: false,
                is_flagged: false,
                adjacent_mines: 0,
                row,
                col,
            }),
    {
        Cell { is_mine: false, is_revealed: false, is_flagged: false, adjacent_mines: 0, row, col }
    }

    /// The character a player sees for this cell.
    pub open spec fn symbol_spec(self) -> char {
        if self.is_revealed {
            if self.is_mine {
                '*'
            } else {
                digit_char(self.adjacent_mines as int)
            }
        } else if self.is_flagged {
            'F'
        } else {
            '\u{2022}'
        }
    }

    /// Revealed mine `*`, revealed count as a digit, flag `F`, hidden `•`.
    pub fn symbol(&self) -> (r: char)
        requires
            0 <= self.adjacent_mines <= 9,
        ensures
            r == self.symbol_spec(),
    {
        if self.is_revealed {
            if self.is_mine {
                '*'
            } else {
                digit(self.adjacent_mines as u8)
            }
        } else if self.is_flagged {
            'F'
        } else {
            '\u{2022}'
        }
    }
}

pub open spec fn digit_char(n: int) -> char {
    if n == 0 { '0' }
    else if n == 1 { '1' }
    else if n == 2 { '2' }
    else if n == 3 { '3' }
    else if n == 4 { '4' }
    else if n == 5 { '5' }
    else if n == 6 { '6' }
    else if n == 7 { '7' }
    else if n == 8 { '8' }
    else { '9' }
}

fn digit(n: u8) -> (r: char)
    requires
        n <= 9,
    ensures
        r == digit_char(n as int),
{
    if n == 0 { '0' }
    else if n == 1 { '1' }
    else if n == 2 { '2' }
    else if n == 3 { '3' }
    else if n == 4 { '4' }
    else if n == 5 { '5' }
    else if n == 6 { '6' }
    else if n == 7 { '7' }
    else if n == 8 { '8' }
    else { '9' }
}

} // verus!
