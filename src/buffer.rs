use vstd::prelude::*;

verus! {

/// Number of characters on the lines before line `y`.
pub open spec fn prefix_len(lines: Seq<Seq<char>>, y: int) -> int
    decreases y,
{
    if y <= 0 {
        0
    } else {
        prefix_len(lines, y - 1) + lines[y - 1].len()
    }
}

/// Number of characters in the whole text, lines joined without separator.
pub open spec fn total_len(lines: Seq<Seq<char>>) -> int {
    prefix_len(lines, lines.len() as int)
}

/// Offset in the flattened text of column `x` on line `y`.
pub open spec fn offset_of(lines: Seq<Seq<char>>, x: int, y: int) -> int {
    prefix_len(lines, y) + x
}

/// `p` (column, line) holds a character, and that character sits at offset `t` of the
/// flattened text.
pub open spec fn is_char_at(lines: Seq<Seq<char>>, t: int, p: (int, int)) -> bool {
    0 <= p.1 < lines.len() && 0 <= p.0 < lines[p.1].len() && offset_of(lines, p.0, p.1) == t
}

/// The position of the character at offset `t` of the flattened text, if there is one.
pub open spec fn char_at_offset(lines: Seq<Seq<char>>, t: int) -> Option<(int, int)> {
    if 0 <= t < total_len(lines) {
        Some(choose|p: (int, int)| is_char_at(lines, t, p))
    } else {
        None
    }
}

/// Character counts of earlier lines never exceed those of later ones.
pub proof fn lemma_prefix_monotone(lines: Seq<Seq<char>>, a: int, b: int)
    requires
        a <= b,
    ensures
        prefix_len(lines, a) <= prefix_len(lines, b),
    decreases b - a,
{
    if a < b {
        lemma_prefix_monotone(lines, a, b - 1);
        if b > 0 {
            assert(prefix_len(lines, b) == prefix_len(lines, b - 1) + lines[b - 1].len());
        }
    }
}

/// Each offset below `prefix_len(lines, k)` holds a character on a line before `k`.
proof fn lemma_char_exists_below(lines: Seq<Seq<char>>, t: int, k: int)
    requires
        0 <= t < prefix_len(lines, k),
        k <= lines.len(),
    ensures
        exists|p: (int, int)| is_char_at(lines, t, p) && p.1 < k,
    decreases k,
{
    if k > 0 {
        if t >= prefix_len(lines, k - 1) {
            assert(is_char_at(lines, t, (t - prefix_len(lines, k - 1), k - 1)));
        } else {
            lemma_char_exists_below(lines, t, k - 1);
        }
    }
}

/// At most one position holds the character at a given offset.
pub proof fn lemma_char_at_unique(lines: Seq<Seq<char>>, t: int, p: (int, int), q: (int, int))
    requires
        is_char_at(lines, t, p),
        is_char_at(lines, t, q),
    ensures
        p == q,
{
    if p.1 < q.1 {
        lemma_prefix_monotone(lines, p.1 + 1, q.1);
    } else if q.1 < p.1 {
        lemma_prefix_monotone(lines, q.1 + 1, p.1);
    }
}

/// `char_at_offset` names exactly the position that holds the character at offset `t`.
pub proof fn lemma_char_at_offset(lines: Seq<Seq<char>>, t: int, p: (int, int))
    ensures
        is_char_at(lines, t, p) <==> char_at_offset(lines, t) == Some(p),
        char_at_offset(lines, t) is Some <==> 0 <= t < total_len(lines),
{
    if is_char_at(lines, t, p) {
        assert(prefix_len(lines, p.1 + 1) == prefix_len(lines, p.1) + lines[p.1].len());
        lemma_prefix_monotone(lines, p.1 + 1, lines.len() as int);
        lemma_prefix_monotone(lines, 0, p.1);
    }
    if 0 <= t < total_len(lines) {
        lemma_char_exists_below(lines, t, lines.len() as int);
        let c = choose|c: (int, int)| is_char_at(lines, t, c);
        if is_char_at(lines, t, p) {
            lemma_char_at_unique(lines, t, p, c);
        }
    }
}

/// A text: a sequence of lines, each a sequence of characters.
pub struct Buffer {
    lines: Vec<Vec<char>>,
}

impl View for Buffer {
    type V = Seq<Seq<char>>;

    closed spec fn view(&self) -> Seq<Seq<char>> {
        self.lines@.map_values(|l: Vec<char>| l@)
    }
}

impl Buffer {
    /// A text of one empty line.
    pub fn new() -> (r: Buffer)
        ensures
            r@ == seq![Seq::<char>::empty()],
    {
        let mut lines: Vec<Vec<char>> = Vec::new();
        lines.push(Vec::new());
        let r = Buffer { lines };
        assert(r@ =~= seq![Seq::<char>::empty()]);
        r
    }

    /// A text made of the given lines.
    pub fn from_lines(lines: Vec<Vec<char>>) -> (r: Buffer)
        ensures
            r@ == lines@.map_values(|l: Vec<char>| l@),
    {
        Buffer { lines }
    }

    /// The number of lines.
    pub fn len(&self) -> (r: usize)
        ensures
            r == self@.len(),
    {
        self.lines.len()
    }

    /// Line `i`.
    pub fn get_line(&self, i: usize) -> (r: &Vec<char>)
        requires
            i < self@.len(),
        ensures
            r@ == self@[i as int],
    {
        &self.lines[i]
    }
}

} // verus!
