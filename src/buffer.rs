//! The edit buffer: lines of text, a cursor, and an optional selection anchor.
use vstd::prelude::*;

use crate::text::{is_line, join_lines, join_text, line_views, lines_wf, split_lines, split_text};

verus! {

/// A place in the buffer: a zero-based line and a zero-based column, where a
/// column equal to the line's length stands after its last character.
#[derive(Clone, Copy, Debug, PartialEq, Eq, Structural)]
pub struct Position {
    pub line: usize,
    pub column: usize,
}

/// `a` comes no later than `b`.
pub open spec fn pos_le(a: Position, b: Position) -> bool {
    a.line < b.line || (a.line == b.line && a.column <= b.column)
}

pub open spec fn pos(line: int, column: int) -> Position {
    Position { line: line as usize, column: column as usize }
}

/// A cursor movement.
#[derive(Clone, Copy, Debug, PartialEq, Eq, Structural)]
pub enum Direction {
    Left,
    Right,
    Up,
    Down,
    Home,
    End,
}

/// A discrete operation on a buffer.
#[derive(Clone, Debug)]
pub enum Action {
    InsertChar(char),
    InsertNewline,
    Backspace,
    Delete,
    MoveCursor(Direction),
    SelectTo(Position),
    Paste(Vec<char>),
}

impl Action {
    /// Every action but cursor and selection movement changes the text.
    pub open spec fn spec_is_edit(&self) -> bool {
        !(self is MoveCursor || self is SelectTo)
    }

    pub fn is_edit(&self) -> (r: bool)
        ensures
            r == self.spec_is_edit(),
    {
        match self {
            Action::MoveCursor(_) => false,
            Action::SelectTo(_) => false,
            _ => true,
        }
    }
}

/// The text between `s` and `e` taken out of `ls`.
pub open spec fn delete_range(ls: Seq<Seq<char>>, s: Position, e: Position) -> Seq<Seq<char>> {
    ls.take(s.line as int).push(
        ls[s.line as int].take(s.column as int) + ls[e.line as int].skip(e.column as int),
    ) + ls.skip(e.line as int + 1)
}

/// What a buffer holds, as mathematical values.
pub struct BufferModel {
    pub lines: Seq<Seq<char>>,
    pub cursor: Position,
    pub anchor: Option<Position>,
}

impl BufferModel {
    pub open spec fn line_len(self, l: int) -> int {
        self.lines[l].len() as int
    }

    pub open spec fn valid_pos(self, p: Position) -> bool {
        p.line < self.lines.len() && p.column <= self.lines[p.line as int].len()
    }

    pub open spec fn wf(self) -> bool {
        &&& lines_wf(self.lines)
        &&& self.valid_pos(self.cursor)
        &&& (self.anchor matches Some(a) ==> self.valid_pos(a))
    }

    /// The selected range, start first; none where no anchor is set or the
    /// anchor sits at the cursor.
    pub open spec fn selection(self) -> Option<(Position, Position)> {
        match self.anchor {
            Some(a) => if a == self.cursor {
                None
            } else if pos_le(a, self.cursor) {
                Some((a, self.cursor))
            } else {
                Some((self.cursor, a))
            },
            None => None,
        }
    }

    /// The selected text removed (cursor at its start), and no anchor.
    pub open spec fn without_selection(self) -> BufferModel {
        match self.selection() {
            Some((s, e)) => BufferModel { lines: delete_range(self.lines, s, e), cursor: s, anchor: None },
            None => BufferModel { anchor: None, ..self },
        }
    }

    pub open spec fn insert_newline(self) -> BufferModel {
        let m = self.without_selection();
        let l = m.cursor.line as int;
        let c = m.cursor.column as int;
        BufferModel {
            lines: m.lines.take(l).push(m.lines[l].take(c)).push(m.lines[l].skip(c)) + m.lines.skip(
                l + 1,
            ),
            cursor: pos(l + 1, 0),
            anchor: None,
        }
    }

    pub open spec fn insert_char(self, ch: char) -> BufferModel {
        if ch == '\n' {
            self.insert_newline()
        } else {
            let m = self.without_selection();
            let l = m.cursor.line as int;
            let c = m.cursor.column as int;
            BufferModel {
                lines: m.lines.update(l, m.lines[l].take(c).push(ch) + m.lines[l].skip(c)),
                cursor: pos(l, c + 1),
                anchor: None,
            }
        }
    }

    pub open spec fn backspace(self) -> BufferModel {
        let l = self.cursor.line as int;
        let c = self.cursor.column as int;
        if self.selection() is Some {
            self.without_selection()
        } else if c > 0 {
            BufferModel {
                lines: self.lines.update(l, self.lines[l].remove(c - 1)),
                cursor: pos(l, c - 1),
                anchor: None,
            }
        } else if l > 0 {
            BufferModel {
                lines: self.lines.take(l - 1).push(self.lines[l - 1] + self.lines[l]) + self.lines.skip(
                    l + 1,
                ),
                cursor: pos(l - 1, self.line_len(l - 1)),
                anchor: None,
            }
        } else {
            self
        }
    }

    pub open spec fn delete(self) -> BufferModel {
        let l = self.cursor.line as int;
        let c = self.cursor.column as int;
        if self.selection() is Some {
            self.without_selection()
        } else if c < self.line_len(l) {
            BufferModel {
                lines: self.lines.update(l, self.lines[l].remove(c)),
                anchor: None,
                ..self
            }
        } else if l < self.lines.len() - 1 {
            BufferModel {
                lines: self.lines.take(l).push(self.lines[l] + self.lines[l + 1]) + self.lines.skip(
                    l + 2,
                ),
                anchor: None,
                ..self
            }
        } else {
            self
        }
    }

    /// Where the cursor goes on a movement.
    pub open spec fn moved(self, d: Direction) -> Position {
        let l = self.cursor.line as int;
        let c = self.cursor.column as int;
        match d {
            Direction::Left => if c > 0 {
                pos(l, c - 1)
            } else if l > 0 {
                pos(l - 1, self.line_len(l - 1))
            } else {
                self.cursor
            },
            Direction::Right => if c < self.line_len(l) {
                pos(l, c + 1)
            } else if l < self.lines.len() - 1 {
                pos(l + 1, 0)
            } else {
                self.cursor
            },
            Direction::Up => if l > 0 {
                pos(l - 1, if c < self.line_len(l - 1) { c } else { self.line_len(l - 1) })
            } else {
                self.cursor
            },
            Direction::Down => if l < self.lines.len() - 1 {
                pos(l + 1, if c < self.line_len(l + 1) { c } else { self.line_len(l + 1) })
            } else {
                self.cursor
            },
            Direction::Home => pos(l, 0),
            Direction::End => pos(l, self.line_len(l)),
        }
    }

    pub open spec fn move_cursor(self, d: Direction) -> BufferModel {
        BufferModel { cursor: self.moved(d), anchor: None, ..self }
    }

    /// `p` brought into the buffer: the last line at most, and the line's end at most.
    pub open spec fn clamp(self, p: Position) -> Position {
        let l = if p.line < self.lines.len() { p.line as int } else { self.lines.len() - 1 };
        pos(l, if p.column <= self.line_len(l) { p.column as int } else { self.line_len(l) })
    }

    /// The cursor moves to `p`; the anchor stays, or is set where the cursor was.
    pub open spec fn select_to(self, p: Position) -> BufferModel {
        BufferModel {
            cursor: self.clamp(p),
            anchor: if self.anchor is Some { self.anchor } else { Some(self.cursor) },
            ..self
        }
    }

    /// Each character of `t` inserted in turn.
    pub open spec fn paste(self, t: Seq<char>) -> BufferModel
        decreases t.len(),
    {
        if t.len() == 0 {
            self
        } else {
            self.paste(t.drop_last()).insert_char(t.last())
        }
    }

    pub open spec fn apply(self, a: Action) -> BufferModel {
        match a {
            Action::InsertChar(c) => self.insert_char(c),
            Action::InsertNewline => self.insert_newline(),
            Action::Backspace => self.backspace(),
            Action::Delete => self.delete(),
            Action::MoveCursor(d) => self.move_cursor(d),
            Action::SelectTo(p) => self.select_to(p),
            Action::Paste(t) => self.paste(t@),
        }
    }

    pub open spec fn text(self) -> Seq<char> {
        join_lines(self.lines)
    }
}

/// The lines of a document being edited, with its cursor and selection anchor.
pub struct Buffer {
    pub lines: Vec<Vec<char>>,
    pub cursor: Position,
    pub anchor: Option<Position>,
}

impl View for Buffer {
    type V = BufferModel;

    open spec fn view(&self) -> BufferModel {
        BufferModel { lines: line_views(self.lines@), cursor: self.cursor, anchor: self.anchor }
    }
}

proof fn lemma_line_concat(a: Seq<char>, b: Seq<char>)
    requires
        is_line(a),
        is_line(b),
    ensures
        is_line(a + b),
{
    assert forall|k: int| 0 <= k < (a + b).len() implies (a + b)[k] != '\n' by {
        if k < a.len() {
            assert((a + b)[k] == a[k]);
        } else {
            assert((a + b)[k] == b[k - a.len()]);
        }
    }
}

proof fn lemma_line_take_skip(a: Seq<char>, i: int)
    requires
        is_line(a),
        0 <= i <= a.len(),
    ensures
        is_line(a.take(i)),
        is_line(a.skip(i)),
{
    assert forall|k: int| 0 <= k < a.take(i).len() implies a.take(i)[k] != '\n' by {
        assert(a.take(i)[k] == a[k]);
    }
    assert forall|k: int| 0 <= k < a.skip(i).len() implies a.skip(i)[k] != '\n' by {
        assert(a.skip(i)[k] == a[k + i]);
    }
}

proof fn lemma_line_remove(a: Seq<char>, i: int)
    requires
        is_line(a),
        0 <= i < a.len(),
    ensures
        is_line(a.remove(i)),
{
    assert forall|k: int| 0 <= k < a.remove(i).len() implies a.remove(i)[k] != '\n' by {
        if k < i {
            assert(a.remove(i)[k] == a[k]);
        } else {
            assert(a.remove(i)[k] == a[k + 1]);
        }
    }
}

/// Lines `s.line` to `e.line` of `ls` replaced by the line `x` keep the lines well formed.
proof fn lemma_splice_wf(ls: Seq<Seq<char>>, s: int, e: int, x: Seq<char>)
    requires
        lines_wf(ls),
        0 <= s <= e < ls.len(),
        is_line(x),
    ensures
        lines_wf(ls.take(s).push(x) + ls.skip(e + 1)),
{
    let r = ls.take(s).push(x) + ls.skip(e + 1);
    assert forall|i: int| 0 <= i < r.len() implies is_line(#[trigger] r[i]) by {
        if i < s {
            assert(r[i] == ls[i]);
        } else if i > s {
            assert(r[i] == ls[i - s - 1 + e + 1]);
        }
    }
}

/// Takes the text between `s` and `e` out of `lines`.
fn delete_lines_range(lines: &mut Vec<Vec<char>>, s: Position, e: Position)
    requires
        pos_le(s, e),
        e.line < old(lines)@.len(),
        s.column <= old(lines)@[s.line as int]@.len(),
        e.column <= old(lines)@[e.line as int]@.len(),
    ensures
        line_views(final(lines)@) == delete_range(line_views(old(lines)@), s, e),
{
    let ghost o = old(lines)@;
    let mut first = lines.remove(s.line);
    let mut tail: Vec<char>;
    if s.line == e.line {
        tail = first.split_off(e.column);
        assert(lines@ =~= o.take(s.line as int) + o.skip(e.line + 1));
    } else {
        let mut j: usize = s.line + 1;
        assert(lines@ =~= o.take(s.line as int) + o.skip(j as int));
        while j < e.line
            invariant
                s.line < j <= e.line,
                e.line < o.len(),
                lines@ == o.take(s.line as int) + o.skip(j as int),
            decreases e.line - j,
        {
            lines.remove(s.line);
            j = j + 1;
            assert(lines@ =~= o.take(s.line as int) + o.skip(j as int));
        }
        let mut last = lines.remove(s.line);
        assert(last == o[e.line as int]);
        assert(lines@ =~= o.take(s.line as int) + o.skip(e.line + 1));
        tail = last.split_off(e.column);
    }
    assert(tail@ == o[e.line as int]@.skip(e.column as int));
    first.truncate(s.column);
    assert(first@ == o[s.line as int]@.take(s.column as int));
    first.append(&mut tail);
    let ghost mid = lines@;
    lines.insert(s.line, first);
    assert(lines@ == mid.insert(s.line as int, first));
    assert(line_views(lines@).len() == delete_range(line_views(o), s, e).len());
    assert(line_views(lines@) =~= delete_range(line_views(o), s, e));
}

impl Buffer {
    /// An empty buffer: one empty line, the cursor at its start.
    pub fn new() -> (r: Buffer)
        ensures
            r@.lines == seq![Seq::<char>::empty()],
            r@.cursor == pos(0, 0),
            r@.anchor is None,
            r@.wf(),
    {
        let mut lines: Vec<Vec<char>> = Vec::new();
        lines.push(Vec::new());
        let r = Buffer { lines, cursor: Position { line: 0, column: 0 }, anchor: None };
        assert(r@.lines =~= seq![Seq::<char>::empty()]);
        r
    }

    /// A buffer holding `t`, the cursor at its start.
    pub fn from_text(t: &Vec<char>) -> (r: Buffer)
        ensures
            r@.lines == split_lines(t@),
            r@.cursor == pos(0, 0),
            r@.anchor is None,
            r@.wf(),
    {
        proof {
            crate::text::lemma_split_lines_wf(t@);
        }
        let lines = split_text(t);
        Buffer { lines, cursor: Position { line: 0, column: 0 }, anchor: None }
    }

    /// The whole text, lines joined by `'\n'`.
    pub fn text(&self) -> (r: Vec<char>)
        ensures
            r@ == self@.text(),
    {
        join_text(&self.lines)
    }

    /// The cursor as (line, column).
    pub fn cursor_position(&self) -> (r: (usize, usize))
        ensures
            r == (self.cursor.line, self.cursor.column),
    {
        (self.cursor.line, self.cursor.column)
    }

    /// The selected range, start first.
    pub fn selection(&self) -> (r: Option<(Position, Position)>)
        ensures
            r == self@.selection(),
    {
        match self.anchor {
            Some(a) => {
                if a.line == self.cursor.line && a.column == self.cursor.column {
                    None
                } else if a.line < self.cursor.line || (a.line == self.cursor.line && a.column
                    <= self.cursor.column) {
                    Some((a, self.cursor))
                } else {
                    Some((self.cursor, a))
                }
            },
            None => None,
        }
    }

    fn remove_selection(&mut self)
        requires
            old(self)@.wf(),
        ensures
            final(self)@ == old(self)@.without_selection(),
            final(self)@.wf(),
    {
        match self.selection() {
            Some((s, e)) => {
                let ghost m = self@;
                delete_lines_range(&mut self.lines, s, e);
                self.cursor = s;
                self.anchor = None;
                proof {
                    lemma_line_take_skip(m.lines[s.line as int], s.column as int);
                    lemma_line_take_skip(m.lines[e.line as int], e.column as int);
                    lemma_line_concat(
                        m.lines[s.line as int].take(s.column as int),
                        m.lines[e.line as int].skip(e.column as int),
                    );
                    lemma_splice_wf(
                        m.lines,
                        s.line as int,
                        e.line as int,
                        m.lines[s.line as int].take(s.column as int) + m.lines[e.line
                            as int].skip(e.column as int),
                    );
                }
            },
            None => {
                self.anchor = None;
            },
        }
    }

    /// Splits the cursor's line at the cursor (after removing any selection);
    /// the cursor goes to the start of the new line.
    pub fn insert_newline(&mut self)
        requires
            old(self)@.wf(),
        ensures
            final(self)@ == old(self)@.insert_newline(),
            final(self)@.wf(),
    {
        self.remove_selection();
        let ghost m = self@;
        let l = self.cursor.line;
        let c = self.cursor.column;
        let mut head = self.lines.remove(l);
        let tail = head.split_off(c);
        self.lines.insert(l, head);
        let n = self.lines.len();
        self.lines.insert(l + 1, tail);
        self.cursor = Position { line: l + 1, column: 0 };
        proof {
            let r = m.lines.take(l as int).push(m.lines[l as int].take(c as int)).push(
                m.lines[l as int].skip(c as int),
            ) + m.lines.skip(l + 1);
            assert(self@.lines =~= r);
            lemma_line_take_skip(m.lines[l as int], c as int);
            assert forall|i: int| 0 <= i < r.len() implies is_line(#[trigger] r[i]) by {
                if i < l {
                    assert(r[i] == m.lines[i]);
                } else if i > l + 1 {
                    assert(r[i] == m.lines[i - 1]);
                }
            }
        }
    }

    /// Inserts `ch` at the cursor, replacing any selection; a `'\n'` splits the line.
    pub fn insert_char(&mut self, ch: char)
        requires
            old(self)@.wf(),
        ensures
            final(self)@ == old(self)@.insert_char(ch),
            final(self)@.wf(),
    {
        if ch == '\n' {
            self.insert_newline();
            return;
        }
        self.remove_selection();
        let ghost m = self@;
        let l = self.cursor.line;
        let c = self.cursor.column;
        let mut line = self.lines.remove(l);
        line.insert(c, ch);
        let n = line.len();
        self.lines.insert(l, line);
        self.cursor = Position { line: l, column: c + 1 };
        proof {
            let x = m.lines[l as int].take(c as int).push(ch) + m.lines[l as int].skip(c as int);
            assert(line@ =~= x);
            assert(self@.lines =~= m.lines.update(l as int, x));
            lemma_line_take_skip(m.lines[l as int], c as int);
            assert(is_line(seq![ch]));
            assert(m.lines[l as int].take(c as int).push(ch) =~= m.lines[l as int].take(c as int)
                + seq![ch]);
            lemma_line_concat(m.lines[l as int].take(c as int), seq![ch]);
            lemma_line_concat(
                m.lines[l as int].take(c as int).push(ch),
                m.lines[l as int].skip(c as int),
            );
            lemma_splice_wf(m.lines, l as int, l as int, x);
            assert(m.lines.update(l as int, x) =~= m.lines.take(l as int).push(x) + m.lines.skip(
                l + 1,
            ));
        }
    }

    /// Joins line `l` and the line after it.
    fn merge_with_next(&mut self, l: usize)
        requires
            lines_wf(old(self)@.lines),
            l + 1 < old(self)@.lines.len(),
        ensures
            final(self)@.lines == old(self)@.lines.take(l as int).push(
                old(self)@.lines[l as int] + old(self)@.lines[l + 1],
            ) + old(self)@.lines.skip(l + 2),
            lines_wf(final(self)@.lines),
            final(self).cursor == old(self).cursor,
            final(self).anchor == old(self).anchor,
    {
        let ghost m = self@;
        let n = self.lines.len();
        let mut next = self.lines.remove(l + 1);
        let mut line = self.lines.remove(l);
        line.append(&mut next);
        self.lines.insert(l, line);
        proof {
            let x = m.lines[l as int] + m.lines[l + 1];
            assert(self@.lines =~= m.lines.take(l as int).push(x) + m.lines.skip(l + 2));
            lemma_line_concat(m.lines[l as int], m.lines[l + 1]);
            lemma_splice_wf(m.lines, l as int, l + 1, x);
        }
    }

    /// Removes the character at column `c` of line `l`.
    fn remove_char_at(&mut self, l: usize, c: usize)
        requires
            lines_wf(old(self)@.lines),
            l < old(self)@.lines.len(),
            c < old(self)@.lines[l as int].len(),
        ensures
            final(self)@.lines == old(self)@.lines.update(
                l as int,
                old(self)@.lines[l as int].remove(c as int),
            ),
            lines_wf(final(self)@.lines),
            final(self).cursor == old(self).cursor,
            final(self).anchor == old(self).anchor,
    {
        let ghost m = self@;
        let mut line = self.lines.remove(l);
        line.remove(c);
        self.lines.insert(l, line);
        proof {
            let x = m.lines[l as int].remove(c as int);
            assert(self@.lines =~= m.lines.update(l as int, x));
            lemma_line_remove(m.lines[l as int], c as int);
            lemma_splice_wf(m.lines, l as int, l as int, x);
            assert(m.lines.update(l as int, x) =~= m.lines.take(l as int).push(x) + m.lines.skip(
                l + 1,
            ));
        }
    }

    /// Removes the selection, or else the character before the cursor, or
    /// else joins the cursor's line to the one above; nothing at the start.
    pub fn backspace(&mut self)
        requires
            old(self)@.wf(),
        ensures
            final(self)@ == old(self)@.backspace(),
            final(self)@.wf(),
    {
        let l = self.cursor.line;
        let c = self.cursor.column;
        if self.selection().is_some() {
            self.remove_selection();
        } else if c > 0 {
            self.remove_char_at(l, c - 1);
            self.cursor = Position { line: l, column: c - 1 };
            self.anchor = None;
        } else if l > 0 {
            let prev_len = self.lines[l - 1].len();
            self.merge_with_next(l - 1);
            self.cursor = Position { line: l - 1, column: prev_len };
            self.anchor = None;
            assert(self@.lines =~= old(self)@.lines.take(l - 1).push(
                old(self)@.lines[l - 1] + old(self)@.lines[l as int],
            ) + old(self)@.lines.skip(l + 1));
        }
    }

    /// Removes the selection, or else the character after the cursor, or
    /// else joins the next line to the cursor's; nothing at the end.
    pub fn delete(&mut self)
        requires
            old(self)@.wf(),
        ensures
            final(self)@ == old(self)@.delete(),
            final(self)@.wf(),
    {
        let l = self.cursor.line;
        let c = self.cursor.column;
        if self.selection().is_some() {
            self.remove_selection();
        } else if c < self.lines[l].len() {
            self.remove_char_at(l, c);
            self.anchor = None;
        } else if l < self.lines.len() - 1 {
            self.merge_with_next(l);
            self.anchor = None;
        }
    }

    /// Moves the cursor and drops the selection.
    pub fn move_cursor(&mut self, d: Direction)
        requires
            old(self)@.wf(),
        ensures
            final(self)@ == old(self)@.move_cursor(d),
            final(self)@.wf(),
    {
        let l = self.cursor.line;
        let c = self.cursor.column;
        let len = self.lines[l].len();
        let next = match d {
            Direction::Left => {
                if c > 0 {
                    Position { line: l, column: c - 1 }
                } else if l > 0 {
                    Position { line: l - 1, column: self.lines[l - 1].len() }
                } else {
                    self.cursor
                }
            },
            Direction::Right => {
                if c < len {
                    Position { line: l, column: c + 1 }
                } else if l < self.lines.len() - 1 {
                    Position { line: l + 1, column: 0 }
                } else {
                    self.cursor
                }
            },
            Direction::Up => {
                if l > 0 {
                    let above = self.lines[l - 1].len();
                    Position { line: l - 1, column: if c < above { c } else { above } }
                } else {
                    self.cursor
                }
            },
            Direction::Down => {
                if l < self.lines.len() - 1 {
                    let below = self.lines[l + 1].len();
                    Position { line: l + 1, column: if c < below { c } else { below } }
                } else {
                    self.cursor
                }
            },
            Direction::Home => Position { line: l, column: 0 },
            Direction::End => Position { line: l, column: len },
        };
        self.cursor = next;
        self.anchor = None;
    }

    /// Moves the cursor to `p` (brought into the buffer), keeping the anchor,
    /// or setting it where the cursor was.
    pub fn select_to(&mut self, p: Position)
        requires
            old(self)@.wf(),
        ensures
            final(self)@ == old(self)@.select_to(p),
            final(self)@.wf(),
    {
        let n = self.lines.len();
        let l = if p.line < n { p.line } else { n - 1 };
        let len = self.lines[l].len();
        let target = Position { line: l, column: if p.column <= len { p.column } else { len } };
        if self.anchor.is_none() {
            self.anchor = Some(self.cursor);
        }
        self.cursor = target;
    }

    /// Inserts each character of `t` in turn, as one action.
    pub fn paste(&mut self, t: &Vec<char>)
        requires
            old(self)@.wf(),
        ensures
            final(self)@ == old(self)@.paste(t@),
            final(self)@.wf(),
    {
        let mut i: usize = 0;
        assert(t@.take(0) =~= Seq::<char>::empty());
        while i < t.len()
            invariant
                i <= t@.len(),
                self@ == old(self)@.paste(t@.take(i as int)),
                self@.wf(),
            decreases t@.len() - i,
        {
            self.insert_char(t[i]);
            assert(t@.take(i as int + 1).drop_last() =~= t@.take(i as int));
            i = i + 1;
        }
        assert(t@.take(t@.len() as int) =~= t@);
    }

    /// Performs `a`.
    pub fn apply(&mut self, a: &Action)
        requires
            old(self)@.wf(),
        ensures
            final(self)@ == old(self)@.apply(*a),
            final(self)@.wf(),
    {
        match a {
            Action::InsertChar(c) => self.insert_char(*c),
            Action::InsertNewline => self.insert_newline(),
            Action::Backspace => self.backspace(),
            Action::Delete => self.delete(),
            Action::MoveCursor(d) => self.move_cursor(*d),
            Action::SelectTo(p) => self.select_to(*p),
            Action::Paste(t) => self.paste(t),
        }
    }
}

/// Backspace with the cursor at the start of the buffer and nothing selected
/// changes nothing.
pub proof fn lemma_backspace_at_start(m: BufferModel)
    requires
        m.wf(),
        m.cursor == pos(0, 0),
        m.selection() is None,
    ensures
        m.backspace() == m,
{
}

} // verus!
