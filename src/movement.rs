use vstd::prelude::*;
use crate::buffer::{
    char_at_offset, is_char_at, lemma_char_at_offset, lemma_prefix_monotone, offset_of, prefix_len,
    total_len,
};
use crate::cursor::Cursor;
use crate::editor::Editor;

verus! {

/// A position of the executable side, seen as a pair of integers.
pub open spec fn pos_view(p: Option<(usize, usize)>) -> Option<(int, int)> {
    match p {
        Some(q) => Some((q.0 as int, q.1 as int)),
        None => None,
    }
}

/// The position `n` characters after (x, y) in the flattened text: the one that holds the
/// character at that offset, if the text reaches that far.
pub open spec fn after_pos(lines: Seq<Seq<char>>, n: int, x: int, y: int) -> Option<(int, int)> {
    char_at_offset(lines, offset_of(lines, x, y) + n)
}

/// The position `n` characters before (x, y) in the flattened text. Within the line this is
/// plain subtraction on the column; past its start it is the position that holds the
/// character at that offset, if the text reaches back that far.
pub open spec fn before_pos(lines: Seq<Seq<char>>, n: int, x: int, y: int) -> Option<(int, int)> {
    if n <= x {
        Some((x - n, y))
    } else {
        char_at_offset(lines, offset_of(lines, x, y) - n)
    }
}

/// (x, y) is a place where a cursor may rest: on an existing line, at most one past its end.
pub open spec fn valid_pos(lines: Seq<Seq<char>>, x: int, y: int) -> bool {
    0 <= y < lines.len() && 0 <= x <= lines[y].len()
}

/// Moving zero characters forward from a position that holds a character stays there.
pub proof fn lemma_after_zero(lines: Seq<Seq<char>>, x: int, y: int)
    requires
        0 <= y < lines.len(),
        0 <= x < lines[y].len(),
    ensures
        after_pos(lines, 0, x, y) == Some((x, y)),
{
    lemma_char_at_offset(lines, offset_of(lines, x, y), (x, y));
}

/// Moving zero characters back from any valid position stays there.
pub proof fn lemma_before_zero(lines: Seq<Seq<char>>, x: int, y: int)
    requires
        valid_pos(lines, x, y),
    ensures
        before_pos(lines, 0, x, y) == Some((x, y)),
{
}

/// Going `n` characters forward from a position that holds a character and then `n` back
/// returns to it, whenever the forward move succeeds.
pub proof fn lemma_after_before_round_trip(lines: Seq<Seq<char>>, n: int, x: int, y: int)
    requires
        0 <= y < lines.len(),
        0 <= x < lines[y].len(),
        0 <= n,
        after_pos(lines, n, x, y) is Some,
    ensures
        ({
            let q = after_pos(lines, n, x, y)->Some_0;
            before_pos(lines, n, q.0, q.1) == Some((x, y))
        }),
{
    let t = offset_of(lines, x, y) + n;
    let q = after_pos(lines, n, x, y)->Some_0;
    lemma_char_at_offset(lines, t, q);
    assert(is_char_at(lines, t, q));
    assert(prefix_len(lines, y + 1) == prefix_len(lines, y) + lines[y].len());
    assert(prefix_len(lines, q.1 + 1) == prefix_len(lines, q.1) + lines[q.1].len());
    if q.1 > y {
        lemma_prefix_monotone(lines, y + 1, q.1);
    } else if q.1 < y {
        lemma_prefix_monotone(lines, q.1 + 1, y);
    }
    if n > q.0 {
        lemma_char_at_offset(lines, offset_of(lines, x, y), (x, y));
    }
}

/// Moving back `n` characters fails exactly when fewer than `n` characters come before the
/// position in the flattened text.
pub proof fn lemma_before_none(lines: Seq<Seq<char>>, n: int, x: int, y: int)
    requires
        valid_pos(lines, x, y),
        0 <= n,
    ensures
        before_pos(lines, n, x, y) is None <==> offset_of(lines, x, y) < n,
{
    let t = offset_of(lines, x, y) - n;
    lemma_prefix_monotone(lines, 0, y);
    lemma_prefix_monotone(lines, y + 1, lines.len() as int);
    assert(prefix_len(lines, y + 1) == prefix_len(lines, y) + lines[y].len());
    lemma_char_at_offset(lines, t, (0, 0));
}

/// Number of columns in `lo..hi` of `s` that hold `c`.
pub open spec fn count_in(s: Seq<char>, c: char, lo: int, hi: int) -> int
    decreases hi - lo,
{
    if hi <= lo {
        0
    } else {
        count_in(s, c, lo, hi - 1) + if s[hi - 1] == c {
            1int
        } else {
            0int
        }
    }
}

/// Counting from one column earlier adds that column.
proof fn lemma_count_in_front(s: Seq<char>, c: char, lo: int, hi: int)
    requires
        lo < hi,
    ensures
        count_in(s, c, lo, hi) == count_in(s, c, lo + 1, hi) + if s[lo] == c {
            1int
        } else {
            0int
        },
    decreases hi - lo,
{
    if lo + 1 < hi {
        lemma_count_in_front(s, c, lo, hi - 1);
        assert(count_in(s, c, lo + 1, hi) == count_in(s, c, lo + 1, hi - 1) + if s[hi - 1] == c {
            1int
        } else {
            0int
        });
    } else {
        assert(count_in(s, c, lo, lo) == 0);
        assert(count_in(s, c, lo + 1, hi) == 0);
    }
}

/// The lesser of two integers.
pub open spec fn min_int(a: int, b: int) -> int {
    if a <= b {
        a
    } else {
        b
    }
}

impl Editor {
    /// The position `n` characters after `pos`, lines joined with nothing between them.
    pub fn after(&self, n: usize, pos: (usize, usize)) -> (r: Option<(usize, usize)>)
        requires
            pos.1 < self.lines().len(),
            pos.0 + n <= usize::MAX,
        ensures
            pos_view(r) == after_pos(self.lines(), n as int, pos.0 as int, pos.1 as int),
    {
        let ghost lines = self.lines();
        let (x, y) = pos;
        let ghost t = offset_of(lines, x as int, y as int) + n;
        let buffer = self.buffer();
        let line_len = buffer.get_line(y).len();
        if x + n < line_len {
            proof {
                lemma_char_at_offset(lines, t, ((x + n) as int, y as int));
            }
            return Some((x + n, y));
        }
        if y >= buffer.len() - 1 {
            proof {
                lemma_char_at_offset(lines, t, (0, 0));
            }
            return None;
        }
        let mut mv: usize = x + n - line_len;
        let mut ry: usize = y + 1;
        loop
            invariant
                lines == self.lines(),
                buffer@ == lines,
                pos == (x, y),
                y < ry < lines.len(),
                t == offset_of(lines, x as int, y as int) + n,
                t == prefix_len(lines, ry as int) + mv,
            decreases lines.len() - ry,
        {
            let len = buffer.get_line(ry).len();
            if mv < len {
                proof {
                    lemma_char_at_offset(lines, t, (mv as int, ry as int));
                }
                return Some((mv, ry));
            }
            if ry >= buffer.len() - 1 {
                proof {
                    lemma_char_at_offset(lines, t, (0, 0));
                }
                return None;
            }
            mv = mv - len;
            ry = ry + 1;
        }
    }

    /// The position `n` characters before `pos`, lines joined with nothing between them.
    pub fn before(&self, n: usize, pos: (usize, usize)) -> (r: Option<(usize, usize)>)
        requires
            pos.1 < self.lines().len(),
        ensures
            pos_view(r) == before_pos(self.lines(), n as int, pos.0 as int, pos.1 as int),
    {
        let ghost lines = self.lines();
        let (x, y) = pos;
        let ghost t = offset_of(lines, x as int, y as int) - n;
        if x >= n {
            return Some((x - n, y));
        }
        if y == 0 {
            proof {
                lemma_char_at_offset(lines, t, (0, 0));
            }
            return None;
        }
        let buffer = self.buffer();
        let mut mv: usize = n - x;
        let mut ry: usize = y - 1;
        loop
            invariant
                lines == self.lines(),
                buffer@ == lines,
                pos == (x, y),
                ry < y < lines.len(),
                x < n,
                mv > 0,
                t == offset_of(lines, x as int, y as int) - n,
                t == prefix_len(lines, ry + 1) - mv,
            decreases ry,
        {
            let len = buffer.get_line(ry).len();
            if mv <= len {
                proof {
                    assert(prefix_len(lines, ry + 1) == prefix_len(lines, ry as int) + len);
                    lemma_char_at_offset(lines, t, ((len - mv) as int, ry as int));
                }
                return Some((len - mv, ry));
            }
            if ry == 0 {
                proof {
                    assert(prefix_len(lines, 1) == prefix_len(lines, 0) + len);
                    lemma_char_at_offset(lines, t, (0, 0));
                }
                return None;
            }
            mv = mv - len;
            ry = ry - 1;
        }
    }

    /// Moves the current cursor to `pos`, keeping its mode. Nothing is bounded.
    pub fn goto(&mut self, pos: (usize, usize))
        requires
            old(self).wf(),
        ensures
            final(self).wf(),
            final(self).lines() == old(self).lines(),
            final(self).selector() == old(self).selector(),
            final(self).cursors() == old(self).cursors().update(
                old(self).selector(),
                Cursor { x: pos.0, y: pos.1, mode: old(self).cur().mode },
            ),
    {
        let c = self.cursor_mut();
        c.y = pos.1;
        c.x = pos.0;
    }

    /// The position `n` characters before the current cursor (not left of it: lines are
    /// crossed).
    pub fn previous(&self, n: usize) -> (r: Option<(usize, usize)>)
        requires
            self.wf(),
            self.cur().y < self.lines().len(),
        ensures
            pos_view(r) == before_pos(self.lines(), n as int, self.cur().x as int, self.cur().y as int),
    {
        self.before(n, self.pos())
    }

    /// The position `n` characters after the current cursor (not right of it: lines are
    /// crossed).
    pub fn next(&self, n: usize) -> (r: Option<(usize, usize)>)
        requires
            self.wf(),
            self.cur().y < self.lines().len(),
            self.cur().x + n <= usize::MAX,
        ensures
            pos_view(r) == after_pos(self.lines(), n as int, self.cur().x as int, self.cur().y as int),
    {
        self.after(n, self.pos())
    }

    /// `n` columns right of the current cursor, stopping at the end of its line.
    pub fn right(&self, n: usize) -> (r: (usize, usize))
        requires
            self.wf(),
            self.cur().y < self.lines().len(),
        ensures
            r.0 as int == min_int(
                self.cur().x + n,
                self.lines()[self.cur().y as int].len() as int,
            ),
            r.1 == self.cur().y,
            r.0 <= self.lines()[r.1 as int].len(),
    {
        let (x, y) = self.pos();
        let len = self.buffer().get_line(y).len();
        if x >= len || n >= len - x {
            (len, y)
        } else {
            (x + n, y)
        }
    }

    /// `n` columns right of the current cursor, with no bound.
    pub fn right_unbounded(&self, n: usize) -> (r: (isize, isize))
        requires
            self.wf(),
            self.cur().x + n <= isize::MAX,
            self.cur().y <= isize::MAX,
        ensures
            r.0 == self.cur().x + n,
            r.1 == self.cur().y,
    {
        ((self.x() + n) as isize, self.y() as isize)
    }

    /// `n` columns left of the current cursor, stopping at column 0 and bounded by the
    /// length of its line.
    pub fn left(&self, n: usize) -> (r: (usize, usize))
        requires
            self.wf(),
            self.cur().y < self.lines().len(),
        ensures
            r.0 as int == min_int(
                if n <= self.cur().x {
                    self.cur().x - n
                } else {
                    0
                },
                self.lines()[self.cur().y as int].len() as int,
            ),
            r.1 == self.cur().y,
            r.0 <= self.lines()[r.1 as int].len(),
    {
        let (x, y) = self.pos();
        let len = self.buffer().get_line(y).len();
        let nx = if n <= x {
            x - n
        } else {
            0
        };
        if nx <= len {
            (nx, y)
        } else {
            (len, y)
        }
    }

    /// `n` columns left of the current cursor, with no bound.
    pub fn left_unbounded(&self, n: usize) -> (r: (isize, isize))
        requires
            self.wf(),
            self.cur().x <= isize::MAX,
            n <= isize::MAX,
            self.cur().y <= isize::MAX,
        ensures
            r.0 == self.cur().x - n,
            r.1 == self.cur().y,
    {
        (self.x() as isize - n as isize, self.y() as isize)
    }

    /// `n` lines above the current cursor, stopping at line 0. The column is kept as it is.
    pub fn up(&self, n: usize) -> (r: (usize, usize))
        requires
            self.wf(),
        ensures
            r.0 == self.cur().x,
            r.1 as int == (if n <= self.cur().y {
                self.cur().y - n
            } else {
                0
            }),
    {
        let (x, y) = self.pos();
        if n <= y {
            (x, y - n)
        } else {
            (x, 0)
        }
    }

    /// `n` lines above the current cursor, with no bound.
    pub fn up_unbounded(&self, n: usize) -> (r: (isize, isize))
        requires
            self.wf(),
            self.cur().x <= isize::MAX,
            self.cur().y <= isize::MAX,
            n <= isize::MAX,
        ensures
            r.0 == self.cur().x,
            r.1 == self.cur().y - n,
    {
        (self.x() as isize, self.y() as isize - n as isize)
    }

    /// `n` lines below the current cursor, stopping at the last line; the column is then
    /// bounded by the length of that line.
    pub fn down(&self, n: usize) -> (r: (usize, usize))
        requires
            self.wf(),
            self.lines().len() >= 1,
        ensures
            r.1 as int == min_int(self.cur().y + n, self.lines().len() - 1),
            r.1 < self.lines().len(),
            r.0 <= self.lines()[r.1 as int].len(),
            r.0 as int == min_int(self.cur().x as int, self.lines()[r.1 as int].len() as int),
    {
        let (x, y) = self.pos();
        let last = self.buffer().len() - 1;
        let ny = if y >= last || n >= last - y {
            last
        } else {
            y + n
        };
        let len = self.buffer().get_line(ny).len();
        if x <= len {
            (x, ny)
        } else {
            (len, ny)
        }
    }

    /// `n` lines below the current cursor, with no bound.
    pub fn down_unbounded(&self, n: usize) -> (r: (isize, isize))
        requires
            self.wf(),
            self.cur().x <= isize::MAX,
            self.cur().y + n <= isize::MAX,
        ensures
            r.0 == self.cur().x,
            r.1 == self.cur().y + n,
    {
        (self.x() as isize, (self.y() + n) as isize)
    }

    /// Column of the `n`-th occurrence of `c` on the current line, scanning right from the
    /// current column (which counts). `None` when there are fewer than `n`, or `n` is 0.
    pub fn next_ocur(&self, c: char, n: usize) -> (r: Option<usize>)
        requires
            self.wf(),
            self.cur().y < self.lines().len(),
        ensures
            ({
                let s = self.lines()[self.cur().y as int];
                let x = self.cur().x as int;
                match r {
                    Some(k) => n >= 1 && x <= k < s.len() && s[k as int] == c
                        && count_in(s, c, x, k as int) == n - 1,
                    None => n == 0 || count_in(s, c, x, s.len() as int) < n,
                }
            }),
    {
        let ghost s = self.lines()[self.cur().y as int];
        let (x, y) = self.pos();
        if n == 0 {
            return None;
        }
        let line = self.buffer().get_line(y);
        let mut k: usize = x;
        let mut dn: usize = 0;
        while k < line.len()
            invariant
                line@ == s,
                s == self.lines()[self.cur().y as int],
                x == self.cur().x,
                n >= 1,
                x <= k,
                k < line.len() ==> k <= s.len(),
                x <= s.len() ==> k <= s.len(),
                dn == count_in(s, c, x as int, k as int),
                dn < n,
            decreases line.len() - k,
        {
            if line[k] == c {
                dn = dn + 1;
                if dn == n {
                    return Some(k);
                }
            }
            k = k + 1;
        }
        None
    }

    /// Column of the `n`-th occurrence of `c` on the current line, scanning left from just
    /// before the current column. `None` when there are fewer than `n`, or `n` is 0.
    pub fn previous_ocur(&self, c: char, n: usize) -> (r: Option<usize>)
        requires
            self.wf(),
            self.cur().y < self.lines().len(),
        ensures
            ({
                let s = self.lines()[self.cur().y as int];
                let hi = min_int(self.cur().x as int, s.len() as int);
                match r {
                    Some(k) => n >= 1 && k < hi && s[k as int] == c
                        && count_in(s, c, k + 1, hi) == n - 1,
                    None => n == 0 || count_in(s, c, 0, hi) < n,
                }
            }),
    {
        let ghost s = self.lines()[self.cur().y as int];
        let (x, y) = self.pos();
        if n == 0 {
            return None;
        }
        let line = self.buffer().get_line(y);
        let hi = if x <= line.len() {
            x
        } else {
            line.len()
        };
        let mut k: usize = hi;
        let mut dn: usize = 0;
        while k > 0
            invariant
                line@ == s,
                s == self.lines()[self.cur().y as int],
                x == self.cur().x,
                n >= 1,
                hi as int == min_int(x as int, s.len() as int),
                k <= hi,
                dn == count_in(s, c, k as int, hi as int),
                dn < n,
            decreases k,
        {
            k = k - 1;
            proof {
                lemma_count_in_front(s, c, k as int, hi as int);
            }
            if line[k] == c {
                dn = dn + 1;
                if dn == n {
                    return Some(k);
                }
            }
        }
        None
    }
}

} // verus!
