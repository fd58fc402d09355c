//! The document being edited: a buffer, the file it belongs to, and whether
//! it differs from what was last loaded or saved. New, Open and Save are
//! transactions: each completes fully, or the document is left as it was.
use vstd::prelude::*;
use vstd::string::StrSliceExecFns;

use crate::buffer::{pos, Action, Buffer, BufferModel};
use crate::highlight::{highlight_lines, highlighted, span_views, utf8_len, HighlightSpan, SyntaxTheme};
use crate::text::{join_lines, lemma_join_split, lemma_split_join, split_lines};

verus! {

/// How a file operation ended without completing.
#[derive(Clone, Copy, Debug, PartialEq, Eq, Structural)]
pub enum FileError {
    /// The file dialog was closed without a choice.
    DialogCancelled,
    /// The chosen file could not be read.
    ReadFailure,
    /// The file could not be written.
    WriteFailure,
}

/// The index of the last `c` in `s`, or -1.
pub open spec fn rfind(s: Seq<char>, c: char) -> int
    decreases s.len(),
{
    if s.len() == 0 {
        -1
    } else if s.last() == c {
        s.len() - 1
    } else {
        rfind(s.drop_last(), c)
    }
}

proof fn lemma_rfind_bounds(s: Seq<char>, c: char)
    ensures
        -1 <= rfind(s, c) < s.len(),
    decreases s.len(),
{
    if s.len() > 0 {
        lemma_rfind_bounds(s.drop_last(), c);
    }
}

/// The last component of a path: what follows its last `'/'`.
pub open spec fn file_name(p: Seq<char>) -> Seq<char> {
    p.skip(rfind(p, '/') + 1)
}

/// What follows the last `'.'` of the file name, where that dot is not its
/// first character.
pub open spec fn extension(p: Seq<char>) -> Option<Seq<char>> {
    let n = file_name(p);
    let k = rfind(n, '.');
    if k > 0 {
        Some(n.skip(k + 1))
    } else {
        None
    }
}

/// The grammar token for a file: its extension, or `txt` (plain text) when
/// there is no path or no extension.
pub open spec fn grammar_of(path: Option<Seq<char>>) -> Seq<char> {
    match path {
        Some(p) => match extension(p) {
            Some(e) => e,
            None => seq!['t', 'x', 't'],
        },
        None => seq!['t', 'x', 't'],
    }
}

/// The index of the last `c` among the characters `lo..hi` of `s`, counted from `lo`.
fn rfind_in(s: &str, c: char, lo: usize, hi: usize) -> (r: Option<usize>)
    requires
        lo <= hi <= s@.len(),
    ensures
        r is Some <==> rfind(s@.subrange(lo as int, hi as int), c) >= 0,
        r matches Some(k) ==> k as int == rfind(s@.subrange(lo as int, hi as int), c) && lo + k
            < hi,
{
    let mut i: usize = hi;
    while i > lo
        invariant
            lo <= i <= hi <= s@.len(),
            rfind(s@.subrange(lo as int, hi as int), c) == rfind(s@.subrange(lo as int, i as int), c),
        decreases i - lo,
    {
        assert(s@.subrange(lo as int, i as int).drop_last() =~= s@.subrange(lo as int, i - 1));
        if s.get_char(i - 1) == c {
            return Some(i - 1 - lo);
        }
        i = i - 1;
    }
    assert(s@.subrange(lo as int, i as int).len() == 0);
    None
}

/// The grammar token for the file at `path`, as `grammar_of` states it.
pub fn grammar_for(path: &Option<String>) -> (r: String)
    ensures
        r@ == grammar_of(opt_view(*path)),
{
    let txt = "txt".to_owned();
    proof {
        reveal_strlit("txt");
        assert(txt@ =~= seq!['t', 'x', 't']);
    }
    match path {
        None => txt,
        Some(p) => {
            let s = p.as_str();
            let len = s.unicode_len();
            let slash = rfind_in(s, '/', 0, len);
            assert(s@.subrange(0, len as int) =~= s@);
            let start = match slash {
                Some(k) => k + 1,
                None => 0,
            };
            proof {
                lemma_rfind_bounds(s@, '/');
            }
            assert(s@.subrange(start as int, len as int) =~= file_name(s@));
            match rfind_in(s, '.', start, len) {
                Some(k) if k > 0 => {
                    let ext = s.substring_char(start + k + 1, len).to_owned();
                    proof {
                        lemma_rfind_bounds(file_name(s@), '.');
                    }
                    assert(ext@ =~= file_name(s@).skip(k + 1));
                    ext
                },
                _ => txt,
            }
        },
    }
}

pub open spec fn opt_view(p: Option<String>) -> Option<Seq<char>> {
    match p {
        Some(s) => Some(s@),
        None => None,
    }
}

/// What a document holds, as mathematical values.
pub struct DocumentModel {
    pub path: Option<Seq<char>>,
    pub buffer: BufferModel,
    pub dirty: bool,
}

/// An empty buffer with the cursor at its start.
pub open spec fn empty_buffer() -> BufferModel {
    BufferModel { lines: seq![Seq::<char>::empty()], cursor: pos(0, 0), anchor: None }
}

impl DocumentModel {
    pub open spec fn wf(self) -> bool {
        self.buffer.wf()
    }

    /// A new, untitled, clean document.
    pub open spec fn fresh() -> DocumentModel {
        DocumentModel { path: None, buffer: empty_buffer(), dirty: false }
    }

    /// `a` applied to the buffer; an edit marks the document dirty.
    pub open spec fn step(self, a: Action) -> DocumentModel {
        DocumentModel { buffer: self.buffer.apply(a), dirty: self.dirty || a.spec_is_edit(), ..self }
    }

    /// The actions applied in order.
    pub open spec fn run(self, actions: Seq<Action>) -> DocumentModel
        decreases actions.len(),
    {
        if actions.len() == 0 {
            self
        } else {
            self.run(actions.drop_last()).step(actions.last())
        }
    }

    /// The document after `t` was read from `p`.
    pub open spec fn opened(self, p: Seq<char>, t: Seq<char>) -> DocumentModel {
        DocumentModel {
            path: Some(p),
            buffer: BufferModel { lines: split_lines(t), cursor: pos(0, 0), anchor: None },
            dirty: false,
        }
    }

    /// The document after its text was written to `p`.
    pub open spec fn saved(self, p: Seq<char>) -> DocumentModel {
        DocumentModel { path: Some(p), dirty: false, ..self }
    }
}

/// The document being edited.
pub struct Document {
    pub path: Option<String>,
    pub buffer: Buffer,
    pub dirty: bool,
}

impl View for Document {
    type V = DocumentModel;

    open spec fn view(&self) -> DocumentModel {
        DocumentModel { path: opt_view(self.path), buffer: self.buffer@, dirty: self.dirty }
    }
}

impl Document {
    /// A new untitled document; it starts clean, since nothing in it differs
    /// from an empty file.
    pub fn new() -> (r: Document)
        ensures
            r@ == DocumentModel::fresh(),
            r@.wf(),
    {
        Document { path: None, buffer: Buffer::new(), dirty: false }
    }

    /// The New command: an empty, untitled, clean document.
    pub fn new_file(&mut self)
        ensures
            final(self)@ == DocumentModel::fresh(),
            final(self)@.wf(),
    {
        self.path = None;
        self.buffer = Buffer::new();
        self.dirty = false;
    }

    /// Applies `a` to the buffer; an edit marks the document dirty.
    pub fn perform(&mut self, a: &Action)
        requires
            old(self)@.wf(),
        ensures
            final(self)@ == old(self)@.step(*a),
            final(self)@.wf(),
    {
        if a.is_edit() {
            self.dirty = true;
        }
        self.buffer.apply(a);
    }

    /// Completes Open with what the file dialog and the read gave: the path
    /// and text read, or the reason there is none, which changes nothing.
    pub fn finish_open(&mut self, outcome: Result<(String, Vec<char>), FileError>)
        requires
            old(self)@.wf(),
        ensures
            final(self)@.wf(),
            match outcome {
                Ok((p, t)) => final(self)@ == old(self)@.opened(p@, t@),
                Err(_) => final(self)@ == old(self)@,
            },
    {
        match outcome {
            Ok((p, t)) => {
                self.buffer = Buffer::from_text(&t);
                self.path = Some(p);
                self.dirty = false;
            },
            Err(_) => {},
        }
    }

    /// Whether Save has to ask for a path first.
    pub fn needs_save_path(&self) -> (r: bool)
        ensures
            r == (self.path is None),
    {
        self.path.is_none()
    }

    /// What Save writes: the text, to the document's path or else to the
    /// path `chosen` in the save dialog; none when there is neither.
    pub fn save_request(&self, chosen: Option<String>) -> (r: Option<(String, Vec<char>)>)
        ensures
            r is Some <==> (self.path is Some || chosen is Some),
            r matches Some((p, t)) ==> t@ == self@.buffer.text() && p@ == match self.path {
                Some(q) => q@,
                None => chosen->0@,
            },
    {
        let target = match &self.path {
            Some(q) => Some(q.clone()),
            None => chosen,
        };
        match target {
            Some(p) => Some((p, self.buffer.text())),
            None => None,
        }
    }

    /// Completes Save of the text to `path`: on success the document
    /// belongs to `path` and is clean; a failure changes nothing.
    pub fn finish_save(&mut self, path: String, result: Result<(), FileError>)
        ensures
            match result {
                Ok(_) => final(self)@ == old(self)@.saved(path@),
                Err(_) => final(self)@ == old(self)@,
            },
    {
        if result.is_ok() {
            self.path = Some(path);
            self.dirty = false;
        }
    }

    /// The grammar token for the document's file.
    pub fn grammar(&self) -> (r: String)
        ensures
            r@ == grammar_of(self@.path),
    {
        grammar_for(&self.path)
    }

    /// The text, lines joined by `'\n'`.
    pub fn text(&self) -> (r: Vec<char>)
        ensures
            r@ == self@.buffer.text(),
    {
        self.buffer.text()
    }

    /// The cursor as (line, column).
    pub fn cursor_position(&self) -> (r: (usize, usize))
        ensures
            r == (self.buffer.cursor.line, self.buffer.cursor.column),
    {
        self.buffer.cursor_position()
    }

    /// The highlight spans of every line, under the document's grammar and `theme`.
    pub fn highlight(&self, theme: SyntaxTheme) -> (r: Vec<Vec<HighlightSpan>>)
        requires
            forall|i: int|
                0 <= i < self@.buffer.lines.len() ==> utf8_len(#[trigger] self@.buffer.lines[i]) <= usize::MAX,
        ensures
            span_views(r@) == highlighted(self@.buffer.lines, grammar_of(self@.path), theme),
    {
        let grammar = self.grammar();
        assert forall|i: int| 0 <= i < self.buffer.lines@.len() implies utf8_len(
            #[trigger] self.buffer.lines@[i]@,
        ) <= usize::MAX by {
            assert(self@.buffer.lines[i] == self.buffer.lines@[i]@);
        }
        highlight_lines(&self.buffer.lines, &grammar, theme)
    }
}

/// Any non-empty run of edit actions leaves the document dirty.
pub proof fn lemma_edits_make_dirty(d: DocumentModel, actions: Seq<Action>)
    requires
        actions.len() > 0,
        forall|i: int| 0 <= i < actions.len() ==> (#[trigger] actions[i]).spec_is_edit(),
    ensures
        d.run(actions).dirty,
{
    assert(actions.last() == actions[actions.len() - 1]);
}

/// Saving a document to a path and then opening that file gives back the
/// same text, the same lines, and a clean document at that path.
pub proof fn lemma_save_then_open(d: DocumentModel, p: Seq<char>)
    requires
        d.wf(),
    ensures
        d.saved(p).opened(p, d.buffer.text()).buffer.text() == d.buffer.text(),
        d.saved(p).opened(p, d.buffer.text()).buffer.lines == d.buffer.lines,
        d.saved(p).opened(p, d.buffer.text()).path == Some(p),
        !d.saved(p).opened(p, d.buffer.text()).dirty,
{
    lemma_split_join(d.buffer.lines);
    lemma_join_split(join_lines(d.buffer.lines));
}

} // verus!
