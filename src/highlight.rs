//! Syntax highlighting: each line is styled on its own by the grammar chosen
//! for the file and by a color theme, and the styled ranges are assembled into
//! ordered, non-overlapping spans.
use vstd::prelude::*;

use crate::text::line_views;

verus! {

/// The color themes of the syntax highlighter, in the highlighter's own order.
#[derive(Clone, Copy, Debug, PartialEq, Eq, Structural)]
pub enum SyntaxTheme {
    SolarizedDark,
    Base16Mocha,
    Base16Ocean,
    Base16Eighties,
    InspiredGitHub,
}

pub open spec fn theme_index(t: SyntaxTheme) -> usize {
    match t {
        SyntaxTheme::SolarizedDark => 0,
        SyntaxTheme::Base16Mocha => 1,
        SyntaxTheme::Base16Ocean => 2,
        SyntaxTheme::Base16Eighties => 3,
        SyntaxTheme::InspiredGitHub => 4,
    }
}

impl SyntaxTheme {
    /// The theme's place in the highlighter's list of themes.
    pub fn index(&self) -> (r: usize)
        ensures
            r == theme_index(*self),
            r < 5,
    {
        match self {
            SyntaxTheme::SolarizedDark => 0,
            SyntaxTheme::Base16Mocha => 1,
            SyntaxTheme::Base16Ocean => 2,
            SyntaxTheme::Base16Eighties => 3,
            SyntaxTheme::InspiredGitHub => 4,
        }
    }
}

/// A styled byte range of one line, as the highlighter reports it; `color`
/// is the foreground as RGBA, none for the theme's default.
#[derive(Clone, Copy, Debug, PartialEq, Eq)]
pub struct StyledRange {
    pub start: usize,
    pub end: usize,
    pub color: Option<[u8; 4]>,
}

/// A styled byte range `start..end` of line `line`.
#[derive(Clone, Copy, Debug, PartialEq, Eq)]
pub struct HighlightSpan {
    pub line: usize,
    pub start: usize,
    pub end: usize,
    pub color: Option<[u8; 4]>,
}

/// The styled ranges that the highlighter gives for `line`, under the grammar
/// named by the file extension `grammar` and the theme at index `theme`.
pub uninterp spec fn line_highlights(line: Seq<char>, grammar: Seq<char>, theme: usize) -> Seq<
    StyledRange,
>;

/// Relies on iced's syntax highlighter (`iced::highlighter::Highlighter`, over
/// syntect): a fresh highlighter per call, so the ranges depend on the line,
/// the grammar token and the theme alone.
#[verifier::external_body]
fn highlight_line(line: &Vec<char>, grammar: &String, theme: usize) -> (r: Vec<StyledRange>)
    requires
        theme < 5,
    ensures
        r@ == line_highlights(line@, grammar@, theme),
{
    let settings = iced::highlighter::Settings {
        theme: iced::highlighter::Theme::ALL[theme],
        extension: grammar.clone(),
    };
    let mut h = <iced::highlighter::Highlighter as iced::advanced::text::Highlighter>::new(
        &settings,
    );
    let text: String = line.iter().collect();
    let ranges = iced::advanced::text::Highlighter::highlight_line(&mut h, &text).map(
        |(range, hl)| StyledRange { start: range.start, end: range.end, color: hl.color().map(|c| c.into_rgba8()) },
    );
    ranges.collect()
}

/// The number of bytes that `c` takes in UTF-8.
pub open spec fn utf8_width(c: char) -> nat {
    if (c as u32) < 0x80 {
        1
    } else if (c as u32) < 0x800 {
        2
    } else if (c as u32) < 0x10000 {
        3
    } else {
        4
    }
}

/// The number of bytes that `s` takes in UTF-8.
pub open spec fn utf8_len(s: Seq<char>) -> nat
    decreases s.len(),
{
    if s.len() == 0 {
        0
    } else {
        utf8_len(s.drop_last()) + utf8_width(s.last())
    }
}

pub open spec fn end_of(spans: Seq<HighlightSpan>) -> int {
    if spans.len() == 0 {
        0
    } else {
        spans.last().end as int
    }
}

/// The ranges of `raw`, in order, that start no earlier than the end of the
/// last one kept, are not empty and lie within `limit` bytes, each tagged
/// with line `line`.
pub open spec fn kept_spans(line: usize, raw: Seq<StyledRange>, limit: int) -> Seq<HighlightSpan>
    decreases raw.len(),
{
    if raw.len() == 0 {
        Seq::<HighlightSpan>::empty()
    } else {
        let k = kept_spans(line, raw.drop_last(), limit);
        let r = raw.last();
        if end_of(k) <= r.start && r.start < r.end && r.end <= limit {
            k.push(HighlightSpan { line, start: r.start, end: r.end, color: r.color })
        } else {
            k
        }
    }
}

/// Spans in order, each not empty, none overlapping the next, all within `limit`.
pub open spec fn spans_ordered(spans: Seq<HighlightSpan>, limit: int) -> bool {
    &&& forall|i: int| 0 <= i < spans.len() ==> #[trigger] spans[i].start < spans[i].end
        <= limit
    &&& forall|i: int| 0 < i < spans.len() ==> spans[i - 1].end <= #[trigger] spans[i].start
}

pub proof fn lemma_kept_spans_ordered(line: usize, raw: Seq<StyledRange>, limit: int)
    ensures
        spans_ordered(kept_spans(line, raw, limit), limit),
        forall|i: int|
            0 <= i < kept_spans(line, raw, limit).len() ==> (#[trigger] kept_spans(
                line,
                raw,
                limit,
            )[i]).line == line,
    decreases raw.len(),
{
    if raw.len() > 0 {
        lemma_kept_spans_ordered(line, raw.drop_last(), limit);
    }
}

/// The spans of a line with the ranges `raw`, `limit` bytes long.
pub fn tag_ranges(line: usize, raw: &Vec<StyledRange>, limit: usize) -> (r: Vec<HighlightSpan>)
    ensures
        r@ == kept_spans(line, raw@, limit as int),
        spans_ordered(r@, limit as int),
{
    let mut out: Vec<HighlightSpan> = Vec::new();
    let mut last_end: usize = 0;
    let mut i: usize = 0;
    assert(raw@.take(0) =~= Seq::<StyledRange>::empty());
    while i < raw.len()
        invariant
            i <= raw@.len(),
            out@ == kept_spans(line, raw@.take(i as int), limit as int),
            last_end as int == end_of(out@),
        decreases raw@.len() - i,
    {
        let r = raw[i];
        assert(raw@.take(i as int + 1).drop_last() =~= raw@.take(i as int));
        if last_end <= r.start && r.start < r.end && r.end <= limit {
            out.push(HighlightSpan { line, start: r.start, end: r.end, color: r.color });
            last_end = r.end;
        }
        i = i + 1;
    }
    assert(raw@.take(raw@.len() as int) =~= raw@);
    proof {
        lemma_kept_spans_ordered(line, raw@, limit as int);
    }
    out
}

/// The number of bytes that `s` takes in UTF-8.
pub fn utf8_length(s: &Vec<char>) -> (r: usize)
    requires
        utf8_len(s@) <= usize::MAX,
    ensures
        r == utf8_len(s@),
{
    let mut n: usize = 0;
    let mut i: usize = 0;
    assert(s@.take(0) =~= Seq::<char>::empty());
    while i < s.len()
        invariant
            i <= s@.len(),
            n == utf8_len(s@.take(i as int)),
            utf8_len(s@) <= usize::MAX,
        decreases s@.len() - i,
    {
        proof {
            lemma_utf8_len_prefix(s@, i as int + 1);
        }
        let c = s[i];
        assert(s@.take(i as int + 1).drop_last() =~= s@.take(i as int));
        let w: usize = if (c as u32) < 0x80 {
            1
        } else if (c as u32) < 0x800 {
            2
        } else if (c as u32) < 0x10000 {
            3
        } else {
            4
        };
        n = n + w;
        i = i + 1;
    }
    assert(s@.take(s@.len() as int) =~= s@);
    n
}

proof fn lemma_utf8_len_prefix(s: Seq<char>, k: int)
    requires
        0 <= k <= s.len(),
    ensures
        utf8_len(s.take(k)) <= utf8_len(s),
    decreases s.len() - k,
{
    if k < s.len() {
        lemma_utf8_len_prefix(s, k + 1);
        assert(s.take(k + 1).drop_last() =~= s.take(k));
    } else {
        assert(s.take(k) =~= s);
    }
}

/// The spans of line `index`, holding `line`.
pub open spec fn line_spans(index: usize, line: Seq<char>, grammar: Seq<char>, theme: SyntaxTheme) -> Seq<HighlightSpan> {
    kept_spans(index, line_highlights(line, grammar, theme_index(theme)), utf8_len(line) as int)
}

/// The spans of every line of `lines`.
pub open spec fn highlighted(lines: Seq<Seq<char>>, grammar: Seq<char>, theme: SyntaxTheme) -> Seq<Seq<HighlightSpan>> {
    Seq::new(lines.len(), |i: int| line_spans(i as usize, lines[i], grammar, theme))
}

/// The vectors' contents.
pub open spec fn span_views(v: Seq<Vec<HighlightSpan>>) -> Seq<Seq<HighlightSpan>> {
    Seq::new(v.len(), |i: int| v[i]@)
}

/// Highlights each of `lines` under the grammar token `grammar` and `theme`.
pub fn highlight_lines(lines: &Vec<Vec<char>>, grammar: &String, theme: SyntaxTheme) -> (r: Vec<Vec<HighlightSpan>>)
    requires
        forall|i: int| 0 <= i < lines@.len() ==> utf8_len(#[trigger] lines@[i]@) <= usize::MAX,
    ensures
        span_views(r@) == highlighted(line_views(lines@), grammar@, theme),
        forall|i: int| 0 <= i < r@.len() ==> spans_ordered(#[trigger] r@[i]@, utf8_len(lines@[i]@) as int),
{
    let t = theme.index();
    let mut out: Vec<Vec<HighlightSpan>> = Vec::new();
    let mut i: usize = 0;
    while i < lines.len()
        invariant
            i <= lines@.len(),
            out@.len() == i,
            t == theme_index(theme),
            forall|j: int| 0 <= j < lines@.len() ==> utf8_len(#[trigger] lines@[j]@) <= usize::MAX,
            span_views(out@) == highlighted(line_views(lines@), grammar@, theme).take(i as int),
            forall|j: int| 0 <= j < i ==> spans_ordered(#[trigger] out@[j]@, utf8_len(lines@[j]@) as int),
        decreases lines@.len() - i,
    {
        let raw = highlight_line(&lines[i], grammar, t);
        let limit = utf8_length(&lines[i]);
        let spans = tag_ranges(i, &raw, limit);
        assert(line_views(lines@)[i as int] == lines@[i as int]@);
        assert(spans@ == line_spans(i, lines@[i as int]@, grammar@, theme));
        out.push(spans);
        i = i + 1;
        assert(span_views(out@) =~= highlighted(line_views(lines@), grammar@, theme).take(i as int));
    }
    assert(highlighted(line_views(lines@), grammar@, theme).take(i as int) =~= highlighted(line_views(lines@), grammar@, theme));
    out
}

/// Highlighting is a function of its inputs: two runs on the same lines,
/// grammar and theme give the same spans.
pub proof fn lemma_highlight_deterministic(
    lines: Seq<Seq<char>>,
    grammar: Seq<char>,
    theme: SyntaxTheme,
    first: Seq<Seq<HighlightSpan>>,
    second: Seq<Seq<HighlightSpan>>,
)
    requires
        first == highlighted(lines, grammar, theme),
        second == highlighted(lines, grammar, theme),
    ensures
        first == second,
        forall|i: int| 0 <= i < lines.len() ==> #[trigger] first[i] == line_spans(i as usize, lines[i], grammar, theme),
{
}

/// Whether `a` and `b` hold the same characters.
fn same_line(a: &Vec<char>, b: &Vec<char>) -> (r: bool)
    ensures
        r == (a@ == b@),
{
    if a.len() != b.len() {
        return false;
    }
    let mut i: usize = 0;
    while i < a.len()
        invariant
            i <= a@.len() == b@.len(),
            forall|k: int| 0 <= k < i ==> a@[k] == b@[k],
        decreases a@.len() - i,
    {
        if a[i] != b[i] {
            return false;
        }
        i = i + 1;
    }
    assert(a@ =~= b@);
    true
}

/// A copy of `v`.
fn copy_spans(v: &Vec<HighlightSpan>) -> (r: Vec<HighlightSpan>)
    ensures
        r@ == v@,
{
    let mut out: Vec<HighlightSpan> = Vec::new();
    let mut i: usize = 0;
    while i < v.len()
        invariant
            i <= v@.len(),
            out@ == v@.take(i as int),
        decreases v@.len() - i,
    {
        out.push(v[i]);
        i = i + 1;
        assert(out@ =~= v@.take(i as int));
    }
    assert(v@.take(v@.len() as int) =~= v@);
    out
}

/// What a highlight cache holds, as mathematical values.
pub struct HighlightCacheView {
    pub lines: Seq<Seq<char>>,
    pub grammar: Seq<char>,
    pub theme: SyntaxTheme,
    pub spans: Seq<Seq<HighlightSpan>>,
}

/// The spans of the lines last highlighted, so that a later pass recomputes
/// only the lines that changed.
pub struct HighlightCache {
    lines: Vec<Vec<char>>,
    grammar: String,
    theme: SyntaxTheme,
    spans: Vec<Vec<HighlightSpan>>,
}

impl View for HighlightCache {
    type V = HighlightCacheView;

    closed spec fn view(&self) -> HighlightCacheView {
        HighlightCacheView {
            lines: line_views(self.lines@),
            grammar: self.grammar@,
            theme: self.theme,
            spans: span_views(self.spans@),
        }
    }
}

impl HighlightCache {
    #[verifier::type_invariant]
    closed spec fn inv(&self) -> bool {
        span_views(self.spans@) == highlighted(line_views(self.lines@), self.grammar@, self.theme)
    }

    /// A cache of no lines.
    pub fn new(grammar: String, theme: SyntaxTheme) -> (r: HighlightCache)
        ensures
            r@.lines == Seq::<Seq<char>>::empty(),
            r@.spans == Seq::<Seq<HighlightSpan>>::empty(),
            r@.grammar == grammar@,
            r@.theme == theme,
    {
        let lines: Vec<Vec<char>> = Vec::new();
        let spans: Vec<Vec<HighlightSpan>> = Vec::new();
        assert(span_views(spans@) =~= highlighted(line_views(lines@), grammar@, theme));
        let r = HighlightCache { lines, grammar, theme, spans };
        assert(line_views(r.lines@) =~= Seq::<Seq<char>>::empty());
        assert(span_views(r.spans@) =~= Seq::<Seq<HighlightSpan>>::empty());
        r
    }

    /// The spans of each line last highlighted.
    pub fn spans(&self) -> (r: &Vec<Vec<HighlightSpan>>)
        ensures
            span_views(r@) == self@.spans,
    {
        &self.spans
    }

    /// Highlights `lines` under `grammar` and `theme`, reusing the spans of
    /// each line that holds the same text at the same index as before under
    /// the same grammar and theme. Returns how many lines were recomputed.
    pub fn refresh(&mut self, lines: &Vec<Vec<char>>, grammar: &String, theme: SyntaxTheme) -> (recomputed: usize)
        requires
            forall|i: int| 0 <= i < lines@.len() ==> utf8_len(#[trigger] lines@[i]@) <= usize::MAX,
        ensures
            final(self)@.spans == highlighted(line_views(lines@), grammar@, theme),
            final(self)@.lines == line_views(lines@),
            final(self)@.grammar == grammar@,
            final(self)@.theme == theme,
            recomputed <= lines@.len(),
            (old(self)@.grammar == grammar@ && old(self)@.theme == theme && old(self)@.lines
                == line_views(lines@)) ==> recomputed == 0,
    {
        proof {
            use_type_invariant(&*self);
        }
        let same_settings = self.theme == theme && self.grammar == *grammar;
        let t = theme.index();
        let ghost old_lines = line_views(self.lines@);
        let ghost unchanged = same_settings && old_lines == line_views(lines@);
        assert(span_views(self.spans@).len() == old_lines.len());
        let mut new_lines: Vec<Vec<char>> = Vec::new();
        let mut new_spans: Vec<Vec<HighlightSpan>> = Vec::new();
        let mut count: usize = 0;
        let mut i: usize = 0;
        while i < lines.len()
            invariant
                i <= lines@.len(),
                new_lines@.len() == i,
                new_spans@.len() == i,
                self.spans@.len() == self.lines@.len(),
                count <= i,
                unchanged ==> count == 0,
                t == theme_index(theme),
                same_settings == (self.theme == theme && self.grammar@ == grammar@),
                old_lines == line_views(self.lines@),
                unchanged == (same_settings && old_lines == line_views(lines@)),
                span_views(self.spans@) == highlighted(old_lines, self.grammar@, self.theme),
                forall|j: int| 0 <= j < lines@.len() ==> utf8_len(#[trigger] lines@[j]@) <= usize::MAX,
                line_views(new_lines@) == line_views(lines@).take(i as int),
                span_views(new_spans@) == highlighted(line_views(lines@), grammar@, theme).take(i as int),
            decreases lines@.len() - i,
        {
            let reuse = same_settings && i < self.lines.len() && same_line(&self.lines[i], &lines[i]);
            assert(unchanged ==> reuse) by {
                if unchanged {
                    assert(old_lines[i as int] == self.lines@[i as int]@);
                    assert(line_views(lines@)[i as int] == lines@[i as int]@);
                }
            }
            let spans = if reuse {
                assert(span_views(self.spans@)[i as int] == self.spans@[i as int]@);
                assert(old_lines[i as int] == self.lines@[i as int]@);
                copy_spans(&self.spans[i])
            } else {
                count = count + 1;
                let raw = highlight_line(&lines[i], grammar, t);
                let limit = utf8_length(&lines[i]);
                tag_ranges(i, &raw, limit)
            };
            assert(spans@ == line_spans(i, lines@[i as int]@, grammar@, theme));
            let mut copy: Vec<char> = Vec::new();
            crate::text::push_all(&mut copy, &lines[i]);
            let ghost prev_lines = new_lines@;
            let ghost prev_spans = new_spans@;
            new_lines.push(copy);
            new_spans.push(spans);
            assert(new_lines@ == prev_lines.push(copy));
            assert(line_views(lines@)[i as int] == lines@[i as int]@);
            i = i + 1;
            assert(line_views(new_lines@) =~= line_views(lines@).take(i as int));
            assert(span_views(new_spans@) =~= highlighted(line_views(lines@), grammar@, theme).take(i as int));
        }
        assert(line_views(lines@).take(i as int) =~= line_views(lines@));
        assert(highlighted(line_views(lines@), grammar@, theme).take(i as int) =~= highlighted(line_views(lines@), grammar@, theme));
        *self = HighlightCache { lines: new_lines, grammar: grammar.clone(), theme, spans: new_spans };
        count
    }
}

} // verus!
