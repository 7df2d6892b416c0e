use vstd::prelude::*;
use crate::buffer::Buffer;
use crate::cursor::Cursor;

verus! {

/// An editor: a text and a non-empty set of cursors, one of which is current.
pub struct Editor {
    buffer: Buffer,
    cursors: Vec<Cursor>,
    current_cursor: u8,
}

/// The selector after one step among `len` cursors.
pub open spec fn next_selector(sel: int, len: int) -> int {
    (sel + 1) % len
}

/// The selector after `k` steps among `len` cursors.
pub open spec fn advanced(sel: int, len: int, k: nat) -> int
    decreases k,
{
    if k == 0 {
        sel
    } else {
        next_selector(advanced(sel, len, (k - 1) as nat), len)
    }
}

/// `k` steps from `sel` land on `(sel + k) % len`.
proof fn lemma_advanced_mod(sel: int, len: int, k: nat)
    requires
        1 <= len,
        0 <= sel < len,
    ensures
        advanced(sel, len, k) == (sel + k) % len,
    decreases k,
{
    if k > 0 {
        lemma_advanced_mod(sel, len, (k - 1) as nat);
        let a = sel + k - 1;
        vstd::arithmetic::div_mod::lemma_add_mod_noop(a, 1, len);
        vstd::arithmetic::div_mod::lemma_add_mod_noop(a % len, 1, len);
        vstd::arithmetic::div_mod::lemma_mod_twice(a, len);
    } else {
        vstd::arithmetic::div_mod::lemma_small_mod(sel as nat, len as nat);
    }
}

/// Stepping to the next cursor as many times as there are cursors comes back to the
/// cursor one started from.
pub proof fn lemma_advance_full_cycle(e: Editor)
    requires
        e.wf(),
    ensures
        advanced(e.selector(), e.cursors().len() as int, e.cursors().len()) == e.selector(),
{
    let len = e.cursors().len() as int;
    lemma_advanced_mod(e.selector(), len, len as nat);
    vstd::arithmetic::div_mod::lemma_mod_add_multiples_vanish(e.selector(), len);
    vstd::arithmetic::div_mod::lemma_small_mod(e.selector() as nat, len as nat);
}

impl Editor {
    /// The lines of the text.
    pub closed spec fn lines(&self) -> Seq<Seq<char>> {
        self.buffer@
    }

    /// The cursors, in order.
    pub closed spec fn cursors(&self) -> Seq<Cursor> {
        self.cursors@
    }

    /// The index of the current cursor.
    pub closed spec fn selector(&self) -> int {
        self.current_cursor as int
    }

    /// There is at least one cursor, no more than the selector can count, and the selector
    /// points at one of them.
    pub open spec fn wf(&self) -> bool {
        1 <= self.cursors().len() <= 256 && 0 <= self.selector() < self.cursors().len()
    }

    /// The current cursor.
    pub open spec fn cur(&self) -> Cursor {
        self.cursors()[self.selector()]
    }

    /// An editor over `buffer` with one fresh cursor.
    pub fn new(buffer: Buffer) -> (r: Editor)
        ensures
            r.wf(),
            r.lines() == buffer@,
            r.cursors() == seq![Cursor::new_spec()],
            r.selector() == 0,
    {
        let mut cursors: Vec<Cursor> = Vec::new();
        cursors.push(Cursor::new());
        let r = Editor { buffer, cursors, current_cursor: 0 };
        assert(r.cursors() =~= seq![Cursor::new_spec()]);
        r
    }

    /// An editor over `buffer` with the given cursors, `current` selecting one of them.
    /// Gives `None` when there is no cursor, more than 256, or `current` is out of range.
    pub fn with_cursors(buffer: Buffer, cursors: Vec<Cursor>, current: u8) -> (r: Option<Editor>)
        ensures
            r is Some <==> (1 <= cursors@.len() <= 256 && (current as int) < cursors@.len()),
            r matches Some(e) ==> e.wf() && e.lines() == buffer@ && e.cursors() == cursors@
                && e.selector() == current as int,
    {
        if cursors.len() == 0 || cursors.len() > 256 || current as usize >= cursors.len() {
            None
        } else {
            Some(Editor { buffer, cursors, current_cursor: current })
        }
    }

    /// The text.
    pub fn buffer(&self) -> (r: &Buffer)
        ensures
            r@ == self.lines(),
    {
        &self.buffer
    }

    /// The current cursor.
    pub fn cursor(&self) -> (r: &Cursor)
        requires
            self.wf(),
        ensures
            *r == self.cur(),
    {
        &self.cursors[self.current_cursor as usize]
    }

    /// The current cursor, to change it in place.
    pub fn cursor_mut(&mut self) -> (r: &mut Cursor)
        requires
            old(self).wf(),
        ensures
            *r == old(self).cur(),
            final(self).wf(),
            final(self).lines() == old(self).lines(),
            final(self).selector() == old(self).selector(),
            final(self).cursors() == old(self).cursors().update(old(self).selector(), *final(r)),
    {
        &mut self.cursors[self.current_cursor as usize]
    }

    /// Makes the next cursor current, wrapping from the last to the first.
    pub fn next_cursor(&mut self)
        requires
            old(self).wf(),
        ensures
            final(self).wf(),
            final(self).lines() == old(self).lines(),
            final(self).cursors() == old(self).cursors(),
            final(self).selector() == next_selector(old(self).selector(), old(self).cursors().len() as int),
    {
        let next: usize = (self.current_cursor as usize + 1) % self.cursors.len();
        self.current_cursor = next as u8;
    }

    /// Position (column, line) of the current cursor.
    pub fn pos(&self) -> (r: (usize, usize))
        requires
            self.wf(),
        ensures
            r == (self.cur().x, self.cur().y),
    {
        let c = self.cursor();
        (c.x, c.y)
    }

    /// Column of the current cursor.
    pub fn x(&self) -> (r: usize)
        requires
            self.wf(),
        ensures
            r == self.cur().x,
    {
        self.cursor().x
    }

    /// Line of the current cursor.
    pub fn y(&self) -> (r: usize)
        requires
            self.wf(),
        ensures
            r == self.cur().y,
    {
        self.cursor().y
    }

    /// The character under the current cursor, if its column holds one.
    pub fn current(&self) -> (r: Option<char>)
        requires
            self.wf(),
            self.cur().y < self.lines().len(),
        ensures
            r == (if self.cur().x < self.lines()[self.cur().y as int].len() {
                Some(self.lines()[self.cur().y as int][self.cur().x as int])
            } else {
                None
            }),
    {
        let (x, y) = self.pos();
        let line = self.buffer.get_line(y);
        if x < line.len() {
            Some(line[x])
        } else {
            None
        }
    }
}

} // verus!
