use vstd::prelude::*;
use crate::cell::Cell;

verus! {

/// The lowercase folding that Unicode assigns to a string's characters; the
/// result depends on the characters alone.
pub uninterp spec fn lower_of(s: Seq<char>) -> Seq<char>;

/// Relies on str::to_lowercase: the Unicode lowercase of a string, a
/// function of its characters alone.
#[verifier::external_body]
fn to_lower(s: &String) -> (r: String)
    ensures
        r@ == lower_of(s@),
{
    s.to_lowercase()
}

/// Relies on String's FromIterator: the string holding exactly the given
/// characters.
#[verifier::external_body]
fn chars_to_string(v: &Vec<char>) -> (r: String)
    ensures
        r@ == v@,
{
    v.iter().collect()
}

/// Relies on str::chars: the string's characters, in order.
#[verifier::external_body]
fn string_chars(s: &String) -> (r: Vec<char>)
    ensures
        r@ == s@,
{
    s.chars().collect()
}

/// The text of one grid row: its cells' codepoints in order.
pub open spec fn row_text(row: Seq<Cell>) -> Seq<char> {
    Seq::new(row.len(), |i: int| row[i].ch)
}

/// The rows of a slice of rows, as sequences of cells.
pub open spec fn rows_view(s: Seq<Vec<Cell>>) -> Seq<Seq<Cell>> {
    Seq::new(s.len(), |i: int| s[i]@)
}

/// The needle occurs in the haystack starting at `c`.
pub open spec fn hit_at(hay: Seq<char>, q: Seq<char>, c: int) -> bool {
    &&& 0 <= c < hay.len()
    &&& c + q.len() <= hay.len()
    &&& hay.subrange(c, c + q.len()) == q
}

/// One match: a starting position in the combined scrollback-then-grid row
/// space, and the length of the matched text.
#[derive(Clone, Copy, Debug, PartialEq, Eq, Structural)]
pub struct SearchMatch {
    pub row: usize,
    pub col: usize,
    pub len: usize,
}

/// The match covers the given position.
pub open spec fn covers(m: SearchMatch, row: int, col: int) -> bool {
    &&& m.row == row
    &&& m.col <= col < m.col + m.len
}

/// The matches of one row at starting columns below `c`, in column order.
pub open spec fn row_hits_upto(hay: Seq<char>, q: Seq<char>, r: int, c: int) -> Seq<SearchMatch>
    decreases c,
{
    if c <= 0 {
        Seq::empty()
    } else {
        let rest = row_hits_upto(hay, q, r, c - 1);
        if hit_at(hay, q, c - 1) {
            rest.push(SearchMatch { row: r as usize, col: (c - 1) as usize, len: q.len() as usize })
        } else {
            rest
        }
    }
}

/// Every match of one row, in column order.
pub open spec fn row_hits(hay: Seq<char>, q: Seq<char>, r: int) -> Seq<SearchMatch> {
    row_hits_upto(hay, q, r, hay.len() as int)
}

/// Every match of the rows below index `r`, row-major.
pub open spec fn rows_hits_upto(rows: Seq<Seq<Cell>>, q: Seq<char>, r: int) -> Seq<SearchMatch>
    decreases r,
{
    if r <= 0 {
        Seq::empty()
    } else {
        rows_hits_upto(rows, q, r - 1) + row_hits(lower_of(row_text(rows[r - 1])), q, r - 1)
    }
}

/// What a search yields: with an empty query nothing; otherwise every
/// occurrence of the case-folded query in the case-folded text of the
/// scrollback rows followed by the live rows, row-major and in column order,
/// overlapping occurrences included.
pub open spec fn spec_search_matches(sb: Seq<Seq<Cell>>, g: Seq<Seq<Cell>>, query: Seq<char>) -> Seq<SearchMatch> {
    if query.len() == 0 {
        Seq::empty()
    } else {
        rows_hits_upto(sb + g, lower_of(query), (sb + g).len() as int)
    }
}

/// The successor of the cyclic current-match index among `n` matches, as
/// [`SearchState::next`] computes it for an in-range index.
pub open spec fn next_idx(i: nat, n: nat) -> nat {
    if i + 1 >= n {
        0
    } else {
        (i + 1) as nat
    }
}

/// The cyclic index stepped `k` times.
pub open spec fn iter_next(i: nat, n: nat, k: nat) -> nat
    decreases k,
{
    if k == 0 {
        i
    } else {
        next_idx(iter_next(i, n, (k - 1) as nat), n)
    }
}

/// Stepping the cyclic index stays within the match count.
pub proof fn lemma_iter_next_in_range(i: nat, n: nat, k: nat)
    requires
        i < n,
    ensures
        iter_next(i, n, k) < n,
    decreases k,
{
    if k > 0 {
        lemma_iter_next_in_range(i, n, (k - 1) as nat);
    }
}

/// Cyclic navigation wraps: stepping the current-match index exactly as
/// many times as there are matches returns it to where it started.
pub proof fn lemma_next_cycles(i: nat, n: nat)
    requires
        i < n,
    ensures
        iter_next(i, n, n) == i,
{
    lemma_iter_next_reaches(i, n, ((n - 1) - i) as nat);
    assert(iter_next(i, n, ((n - 1) - i) as nat) == n - 1);
    assert(iter_next(i, n, (n - i) as nat) == 0);
    lemma_iter_next_reaches(0, n, i);
    lemma_iter_next_split(i, n, (n - i) as nat, i);
}

/// Stepping `k` times from an index that stays clear of the wrap point just
/// adds `k`.
proof fn lemma_iter_next_reaches(i: nat, n: nat, k: nat)
    requires
        i < n,
        i + k < n,
    ensures
        iter_next(i, n, k) == i + k,
    decreases k,
{
    if k > 0 {
        lemma_iter_next_reaches(i, n, (k - 1) as nat);
    }
}

/// Stepping `a + b` times is stepping `a` times, then `b` more.
proof fn lemma_iter_next_split(i: nat, n: nat, a: nat, b: nat)
    ensures
        iter_next(i, n, a + b) == iter_next(iter_next(i, n, a), n, b),
    decreases b,
{
    if b > 0 {
        lemma_iter_next_split(i, n, a, (b - 1) as nat);
    }
}

/// Whether the needle sits at position `c` of the haystack.
fn is_prefix_at(hay: &Vec<char>, q: &Vec<char>, c: usize) -> (r: bool)
    requires
        c < hay@.len(),
    ensures
        r == hit_at(hay@, q@, c as int),
{
    let hn = hay.len();
    let qn = q.len();
    if qn > hn || c > hn - qn {
        return false;
    }
    let mut k: usize = 0;
    while k < q.len()
        invariant
            c + q@.len() <= hay@.len(),
            hay@.len() <= usize::MAX,
            k <= q@.len(),
            forall|j: int| 0 <= j < k ==> hay@[c + j] == q@[j],
        decreases q@.len() - k,
    {
        if hay[c + k] != q[k] {
            proof {
                assert(hay@.subrange(c as int, c + q@.len())[k as int] != q@[k as int]);
            }
            return false;
        }
        k += 1;
    }
    proof {
        assert(hay@.subrange(c as int, c + q@.len()) =~= q@);
    }
    true
}

/// Appends every match of one row, scanning each starting column.
fn scan_row(ms: &mut Vec<SearchMatch>, hay: &Vec<char>, q: &Vec<char>, r: usize)
    ensures
        final(ms)@ == old(ms)@ + row_hits(hay@, q@, r as int),
{
    let n = hay.len();
    let mut c: usize = 0;
    while c < n
        invariant
            c <= n,
            n == hay@.len(),
            ms@ == old(ms)@ + row_hits_upto(hay@, q@, r as int, c as int),
        decreases n - c,
    {
        if is_prefix_at(hay, q, c) {
            let m = SearchMatch { row: r, col: c, len: q.len() };
            ms.push(m);
            proof {
                assert(ms@ =~= old(ms)@ + row_hits_upto(hay@, q@, r as int, c as int + 1));
            }
        }
        c += 1;
    }
    proof {
        assert(ms@ =~= old(ms)@ + row_hits(hay@, q@, r as int));
    }
}

/// The case-folded text of one row of cells.
fn lower_row(row: &Vec<Cell>) -> (r: Vec<char>)
    ensures
        r@ == lower_of(row_text(row@)),
{
    let mut cs: Vec<char> = Vec::new();
    let mut i: usize = 0;
    while i < row.len()
        invariant
            i <= row@.len(),
            cs@.len() == i,
            forall|j: int| 0 <= j < i ==> cs@[j] == row@[j].ch,
        decreases row@.len() - i,
    {
        let ch = row[i].ch;
        cs.push(ch);
        i += 1;
    }
    proof {
        assert(cs@ =~= row_text(row@));
    }
    let s = chars_to_string(&cs);
    let l = to_lower(&s);
    string_chars(&l)
}

/// The scrollback search: a query, the matches of its last run over
/// scrollback plus the live grid, and a cyclic current-match index for
/// navigation and highlight rendering.
#[derive(Debug)]
pub struct SearchState {
    pub query: String,
    pub matches: Vec<SearchMatch>,
    pub current_idx: usize,
    pub active: bool,
}

impl Default for SearchState {
    fn default() -> (r: SearchState)
        ensures
            r.query@ == Seq::<char>::empty(),
            r.matches@ == Seq::<SearchMatch>::empty(),
            r.current_idx == 0,
            r.active == false,
    {
        SearchState { query: String::new(), matches: Vec::new(), current_idx: 0, active: false }
    }
}

impl SearchState {
    /// Recomputes the match list wholesale: case-insensitive substring
    /// search per row over scrollback then the live grid, collecting every
    /// occurrence start (overlapping ones included) in order, and resetting
    /// the current match to the first.
    pub fn search(&mut self, scrollback: &[Vec<Cell>], grid: &[Vec<Cell>])
        requires
            scrollback@.len() + grid@.len() <= usize::MAX,
        ensures
            final(self).query@ == old(self).query@,
            final(self).active == old(self).active,
            final(self).current_idx == 0,
            final(self).matches@ == spec_search_matches(
                rows_view(scrollback@),
                rows_view(grid@),
                old(self).query@,
            ),
    {
        self.matches.clear();
        self.current_idx = 0;
        if self.query.as_str().is_empty() {
            return ;
        }
        let lowered = to_lower(&self.query);
        let qv = string_chars(&lowered);
        let ghost rows = rows_view(scrollback@) + rows_view(grid@);
        let sb_len = scrollback.len();
        let mut r: usize = 0;
        while r < sb_len
            invariant
                r <= sb_len,
                sb_len == scrollback@.len(),
                sb_len + grid@.len() <= usize::MAX,
                rows == rows_view(scrollback@) + rows_view(grid@),
                qv@ == lower_of(old(self).query@),
                self.query@ == old(self).query@,
                self.active == old(self).active,
                self.current_idx == 0,
                self.matches@ == rows_hits_upto(rows, qv@, r as int),
            decreases sb_len - r,
        {
            let hay = lower_row(&scrollback[r]);
            proof {
                assert(rows[r as int] == scrollback@[r as int]@);
            }
            scan_row(&mut self.matches, &hay, &qv, r);
            r += 1;
        }
        let g_len = grid.len();
        let mut j: usize = 0;
        while j < g_len
            invariant
                j <= g_len,
                g_len == grid@.len(),
                sb_len == scrollback@.len(),
                sb_len + g_len <= usize::MAX,
                rows == rows_view(scrollback@) + rows_view(grid@),
                qv@ == lower_of(old(self).query@),
                self.query@ == old(self).query@,
                self.active == old(self).active,
                self.current_idx == 0,
                self.matches@ == rows_hits_upto(rows, qv@, sb_len + j),
            decreases g_len - j,
        {
            let hay = lower_row(&grid[j]);
            proof {
                assert(rows[sb_len + j] == grid@[j as int]@);
            }
            scan_row(&mut self.matches, &hay, &qv, sb_len + j);
            j += 1;
        }
        proof {
            assert(rows.len() == sb_len + g_len);
        }
    }

    /// Steps the current match forward, wrapping past the last to the first;
    /// with no matches nothing changes.
    pub fn next(&mut self)
        ensures
            final(self).query@ == old(self).query@,
            final(self).matches@ == old(self).matches@,
            final(self).active == old(self).active,
            old(self).matches@.len() == 0 ==> final(self).current_idx == old(self).current_idx,
            old(self).matches@.len() > 0 ==> final(self).current_idx == next_idx(
                old(self).current_idx as nat,
                old(self).matches@.len(),
            ),
    {
        let n = self.matches.len();
        if n > 0 {
            self.current_idx = if self.current_idx >= n - 1 {
                0
            } else {
                self.current_idx + 1
            };
        }
    }

    /// Steps the current match backward, wrapping past the first to the
    /// last; with no matches nothing changes.
    pub fn prev(&mut self)
        ensures
            final(self).query@ == old(self).query@,
            final(self).matches@ == old(self).matches@,
            final(self).active == old(self).active,
            old(self).matches@.len() == 0 ==> final(self).current_idx == old(self).current_idx,
            old(self).matches@.len() > 0 ==> final(self).current_idx == (if old(self).current_idx
                == 0 {
                old(self).matches@.len() - 1
            } else {
                old(self).current_idx - 1
            }),
    {
        let n = self.matches.len();
        if n == 0 {
            return ;
        }
        if self.current_idx == 0 {
            self.current_idx = n - 1;
        } else {
            self.current_idx = self.current_idx - 1;
        }
    }

    /// The match the cyclic index points at, if any.
    pub fn current_match(&self) -> (r: Option<&SearchMatch>)
        ensures
            match r {
                Some(m) => self.current_idx < self.matches@.len() && *m == self.matches@[self.current_idx as int],
                None => self.current_idx >= self.matches@.len(),
            },
    {
        if self.current_idx < self.matches.len() {
            Some(&self.matches[self.current_idx])
        } else {
            None
        }
    }

    /// Whether any match covers the position, for highlight rendering.
    pub fn is_match_at(&self, row: usize, col: usize) -> (r: bool)
        ensures
            r == exists|k: int|
                0 <= k < self.matches@.len() && covers(#[trigger] self.matches@[k], row as int, col as int),
    {
        let n = self.matches.len();
        let mut k: usize = 0;
        while k < n
            invariant
                k <= n,
                n == self.matches@.len(),
                forall|j: int| 0 <= j < k ==> !covers(#[trigger] self.matches@[j], row as int, col as int),
            decreases n - k,
        {
            let m = self.matches[k];
            if m.row == row && col >= m.col && col - m.col < m.len {
                return true;
            }
            k += 1;
        }
        false
    }

    /// Whether the current match covers the position.
    pub fn is_current_at(&self, row: usize, col: usize) -> (r: bool)
        ensures
            r == (self.current_idx < self.matches@.len() && covers(
                self.matches@[self.current_idx as int],
                row as int,
                col as int,
            )),
    {
        match self.current_match() {
            Some(m) => m.row == row && col >= m.col && col - m.col < m.len,
            None => false,
        }
    }
}

} // verus!
