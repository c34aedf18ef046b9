//! Styled text: a `Span` is a string with one style, `Spans` a line of spans, `Text` a list of
//! lines.
use vstd::prelude::*;
use vstd::string::*;

use crate::style::{default_style, Style};
use crate::unicode::{display_width, grapheme_clusters, graphemes_of, width_of};

verus! {

/// A grapheme associated to a style.
#[derive(Debug, Clone, Copy, PartialEq)]
pub struct StyledGrapheme<'a> {
    pub symbol: &'a str,
    pub style: Style,
}

/// A string where all graphemes have the same style.
#[derive(Debug, PartialEq)]
pub struct Span {
    pub content: String,
    pub style: Style,
}

impl Clone for Span {
    fn clone(&self) -> (s: Span)
        ensures
            s.content@ == self.content@,
            s.style == self.style,
    {
        Span { content: self.content.clone(), style: self.style }
    }
}

impl Span {
    /// A span with the default style.
    pub fn raw(content: &str) -> (s: Span)
        ensures
            s.content@ == content@,
            s.style == default_style(),
    {
        Span { content: String::from_str(content), style: Style::new() }
    }

    /// A span with the given style.
    pub fn styled(content: &str, style: Style) -> (s: Span)
        ensures
            s.content@ == content@,
            s.style == style,
    {
        Span { content: String::from_str(content), style }
    }

    /// The grapheme clusters of the content, each with `base_style` with the span's style laid
    /// over it, leaving out line breaks.
    pub fn styled_graphemes<'a>(&'a self, base_style: Style) -> (r: Vec<StyledGrapheme<'a>>)
        ensures
            r@.len() == clusters_without_breaks(grapheme_clusters(self.content@), grapheme_clusters(self.content@).len() as int).len(),
            forall|i: int| 0 <= i < r@.len() ==> {
                &&& (#[trigger] r@[i]).symbol@ == clusters_without_breaks(grapheme_clusters(self.content@), grapheme_clusters(self.content@).len() as int)[i]
                &&& r@[i].style == base_style.spec_patch(self.style)
            },
    {
        let gs = graphemes_of(self.content.as_str());
        let style = base_style.patch(self.style);
        let ghost all = grapheme_clusters(self.content@);
        let mut r: Vec<StyledGrapheme<'a>> = Vec::new();
        for k in 0..gs.len()
            invariant
                gs@.len() == all.len(),
                all == grapheme_clusters(self.content@),
                style == base_style.spec_patch(self.style),
                forall|i: int| 0 <= i < gs@.len() ==> (#[trigger] gs@[i])@ == all[i],
                r@.len() == clusters_without_breaks(all, k as int).len(),
                forall|i: int| 0 <= i < r@.len() ==> {
                    &&& (#[trigger] r@[i]).symbol@ == clusters_without_breaks(all, k as int)[i]
                    &&& r@[i].style == style
                },
        {
            let g = gs[k];
            let is_break = g.unicode_len() == 1 && g.get_char(0) == '\n';
            proof {
                if g@.len() == 1 {
                    assert(is_break == (g@ =~= seq!['\n']));
                } else {
                    assert(g@ != seq!['\n']);
                }
            }
            if !is_break {
                r.push(StyledGrapheme { symbol: g, style });
            }
        }
        r
    }

    /// The width of the content held by this span.
    pub fn width(&self) -> (w: usize)
        ensures
            w == display_width(self.content@),
    {
        width_of(self.content.as_str())
    }
}

impl From<String> for Span {
    fn from(s: String) -> (span: Span) {
        Span { content: s, style: Style::new() }
    }
}

impl vstd::std_specs::convert::FromSpecImpl<String> for Span {
    open spec fn obeys_from_spec() -> bool {
        true
    }

    open spec fn from_spec(s: String) -> Span {
        Span { content: s, style: default_style() }
    }
}

/// The first `k` clusters, leaving out those that are a line break.
pub open spec fn clusters_without_breaks(gs: Seq<Seq<char>>, k: int) -> Seq<Seq<char>>
    decreases k,
{
    if k <= 0 {
        seq![]
    } else {
        let r = clusters_without_breaks(gs, k - 1);
        if gs[k - 1] == seq!['\n'] { r } else { r.push(gs[k - 1]) }
    }
}

/// The summed widths of a line's spans.
pub open spec fn spans_width(spans: Seq<Span>) -> int
    decreases spans.len(),
{
    if spans.len() == 0 {
        0
    } else {
        spans_width(spans.drop_last()) + display_width(spans.last().content@)
    }
}

/// A line: clusters of graphemes, each cluster with its own style.
#[derive(Debug, PartialEq)]
pub struct Spans(pub Vec<Span>);

impl Default for Spans {
    fn default() -> (s: Spans)
        ensures
            s.0@.len() == 0,
    {
        Spans(Vec::new())
    }
}

impl Spans {
    /// The width of the underlying string: the sum of its spans' widths.
    pub fn width(&self) -> (w: usize)
        requires
            spans_width(self.0@) <= usize::MAX,
        ensures
            w == spans_width(self.0@),
    {
        let mut acc: usize = 0;
        for k in 0..self.0.len()
            invariant
                spans_width(self.0@) <= usize::MAX,
                acc == spans_width(self.0@.take(k as int)),
        {
            assert(self.0@.take(k + 1).drop_last() =~= self.0@.take(k as int));
            proof {
                lemma_spans_width_prefix(self.0@, k + 1);
            }
            acc = acc + self.0[k].width();
        }
        assert(self.0@.take(self.0@.len() as int) =~= self.0@);
        acc
    }
}

pub(crate) proof fn lemma_spans_width_prefix(spans: Seq<Span>, k: int)
    requires
        0 <= k <= spans.len(),
    ensures
        0 <= spans_width(spans.take(k)) <= spans_width(spans),
    decreases spans.len(),
{
    if spans.len() > 0 {
        if k == spans.len() {
            assert(spans.take(k) =~= spans);
            lemma_spans_width_prefix(spans.drop_last(), k - 1);
            assert(spans.drop_last().take(k - 1) =~= spans.drop_last());
        } else {
            lemma_spans_width_prefix(spans.drop_last(), k);
            assert(spans.drop_last().take(k) =~= spans.take(k));
            lemma_spans_width_prefix(spans.drop_last(), spans.len() - 1);
            assert(spans.drop_last().take(spans.len() - 1) =~= spans.drop_last());
        }
    }
}

impl From<Vec<Span>> for Spans {
    fn from(spans: Vec<Span>) -> (s: Spans) {
        Spans(spans)
    }
}

impl vstd::std_specs::convert::FromSpecImpl<Vec<Span>> for Spans {
    open spec fn obeys_from_spec() -> bool {
        true
    }

    open spec fn from_spec(spans: Vec<Span>) -> Spans {
        Spans(spans)
    }
}

/// The widest of the lines.
pub open spec fn text_width(lines: Seq<Spans>) -> int
    decreases lines.len(),
{
    if lines.len() == 0 {
        0
    } else {
        let w = spans_width(lines.last().0@);
        let rest = text_width(lines.drop_last());
        if w >= rest { w } else { rest }
    }
}

/// A string split over lines, each line made of spans.
#[derive(Debug, PartialEq)]
pub struct Text {
    pub lines: Vec<Spans>,
}

impl Default for Text {
    fn default() -> (t: Text)
        ensures
            t.lines@.len() == 0,
    {
        Text { lines: Vec::new() }
    }
}

impl Text {
    /// The width of the widest line.
    pub fn width(&self) -> (w: usize)
        requires
            forall|i: int| 0 <= i < self.lines@.len() ==> spans_width((#[trigger] self.lines@[i]).0@) <= usize::MAX,
        ensures
            w == text_width(self.lines@),
    {
        let mut acc: usize = 0;
        for k in 0..self.lines.len()
            invariant
                forall|i: int| 0 <= i < self.lines@.len() ==> spans_width((#[trigger] self.lines@[i]).0@) <= usize::MAX,
                acc == text_width(self.lines@.take(k as int)),
        {
            assert(self.lines@.take(k + 1).drop_last() =~= self.lines@.take(k as int));
            let w = self.lines[k].width();
            if w >= acc {
                acc = w;
            }
        }
        assert(self.lines@.take(self.lines@.len() as int) =~= self.lines@);
        acc
    }

    /// The number of lines.
    pub fn height(&self) -> (h: usize)
        ensures
            h == self.lines@.len(),
    {
        self.lines.len()
    }

    /// Lays `style` over the style of every span, keeping their contents.
    pub fn patch_style(&mut self, style: Style)
        ensures
            final(self).lines@.len() == old(self).lines@.len(),
            forall|i: int| 0 <= i < old(self).lines@.len() ==> #[trigger] final(self).lines@[i].0@.len() == old(self).lines@[i].0@.len(),
            forall|i: int, j: int| 0 <= i < old(self).lines@.len() && 0 <= j < old(self).lines@[i].0@.len() ==> {
                &&& (#[trigger] final(self).lines@[i].0@[j]).content@ == old(self).lines@[i].0@[j].content@
                &&& final(self).lines@[i].0@[j].style == old(self).lines@[i].0@[j].style.spec_patch(style)
            },
    {
        let mut lines: Vec<Spans> = Vec::new();
        let n = self.lines.len();
        for i in 0..n
            invariant
                n == self.lines@.len(),
                lines@.len() == i,
                forall|k: int| 0 <= k < i ==> #[trigger] lines@[k].0@.len() == self.lines@[k].0@.len(),
                forall|k: int, j: int| 0 <= k < i && 0 <= j < self.lines@[k].0@.len() ==> {
                    &&& (#[trigger] lines@[k].0@[j]).content@ == self.lines@[k].0@[j].content@
                    &&& lines@[k].0@[j].style == self.lines@[k].0@[j].style.spec_patch(style)
                },
        {
            let line = &self.lines[i];
            let mut spans: Vec<Span> = Vec::new();
            let m = line.0.len();
            for j in 0..m
                invariant
                    m == line.0@.len(),
                    spans@.len() == j,
                    forall|q: int| 0 <= q < j ==> {
                        &&& (#[trigger] spans@[q]).content@ == line.0@[q].content@
                        &&& spans@[q].style == line.0@[q].style.spec_patch(style)
                    },
            {
                let span = &line.0[j];
                spans.push(Span { content: span.content.clone(), style: span.style.patch(style) });
            }
            lines.push(Spans(spans));
        }
        self.lines = lines;
    }
}

impl From<Vec<Spans>> for Text {
    fn from(lines: Vec<Spans>) -> (t: Text) {
        Text { lines }
    }
}

impl vstd::std_specs::convert::FromSpecImpl<Vec<Spans>> for Text {
    open spec fn obeys_from_spec() -> bool {
        true
    }

    open spec fn from_spec(lines: Vec<Spans>) -> Text {
        Text { lines }
    }
}

/// The lines of a string: it is cut at each `\n`, a `\r` just before a `\n` is dropped with it,
/// and a final line ending adds no empty line.
pub open spec fn split_lines(s: Seq<char>) -> Seq<Seq<char>>
    decreases s.len(),
{
    if s.len() == 0 {
        seq![]
    } else {
        let i = first_newline(s, 0);
        proof {
            lemma_first_newline_bounds(s, 0);
        }
        if i >= s.len() {
            seq![s]
        } else {
            let line = s.subrange(0, i);
            let line = if line.len() > 0 && line.last() == '\r' { line.drop_last() } else { line };
            seq![line] + split_lines(s.subrange(i + 1, s.len() as int))
        }
    }
}

/// The index of the first `\n` of `s` from `i` on, or the length of `s`.
pub open spec fn first_newline(s: Seq<char>, i: int) -> int
    decreases s.len() - i,
{
    if i >= s.len() || i < 0 {
        s.len() as int
    } else if s[i] == '\n' {
        i
    } else {
        first_newline(s, i + 1)
    }
}

/// The first newline from `i` on lies between `i` and the end, and is a newline.
pub proof fn lemma_first_newline_bounds(s: Seq<char>, i: int)
    requires
        0 <= i <= s.len(),
    ensures
        i <= first_newline(s, i) <= s.len(),
        first_newline(s, i) < s.len() ==> s[first_newline(s, i)] == '\n',
    decreases s.len() - i,
{
    if i < s.len() && s[i] != '\n' {
        lemma_first_newline_bounds(s, i + 1);
    }
}

/// Searching from a later start on the same string finds the same newline, when no newline lies
/// in between.
proof fn lemma_first_newline_shift(s: Seq<char>, a: int, i: int)
    requires
        0 <= a <= s.len(),
        a <= i <= s.len(),
        first_newline(s, a) >= i,
    ensures
        first_newline(s, a) == first_newline(s, i),
    decreases i - a,
{
    if a < i {
        lemma_first_newline_shift(s, a + 1, i);
    }
}

/// The first newline of a suffix is the first newline of the string after the cut, moved back.
proof fn lemma_first_newline_suffix(s: Seq<char>, start: int, i: int)
    requires
        0 <= start <= i <= s.len(),
    ensures
        first_newline(s.subrange(start, s.len() as int), i - start) == first_newline(s, i) - start,
    decreases s.len() - i,
{
    if i < s.len() && s[i] != '\n' {
        lemma_first_newline_suffix(s, start, i + 1);
    }
}

impl Text {
    /// Text from a string, one line for each line of the string, with the default style.
    pub fn raw(content: &str) -> (t: Text)
        ensures
            t.lines@.len() == split_lines(content@).len(),
            forall|i: int| 0 <= i < t.lines@.len() ==> (#[trigger] t.lines@[i]).0@.len() == 1
                && t.lines@[i].0@[0].content@ == split_lines(content@)[i]
                && t.lines@[i].0@[0].style == default_style(),
    {
        Text::styled(content, Style::new())
    }

    /// Text from a string, one line for each line of the string, all with `style`.
    pub fn styled(content: &str, style: Style) -> (t: Text)
        ensures
            t.lines@.len() == split_lines(content@).len(),
            forall|i: int| 0 <= i < t.lines@.len() ==> (#[trigger] t.lines@[i]).0@.len() == 1
                && t.lines@[i].0@[0].content@ == split_lines(content@)[i]
                && t.lines@[i].0@[0].style == style,
    {
        let len = content.unicode_len();
        let ghost s = content@;
        let mut lines: Vec<Spans> = Vec::new();
        let mut start: usize = 0;
        assert(s.subrange(0, len as int) =~= s);
        assert(lines@.map_values(|l: Spans| l.0@[0].content@) =~= Seq::<Seq<char>>::empty());
        while start < len
            invariant
                len == s.len(),
                s == content@,
                start <= len,
                split_lines(s) == lines@.map_values(|l: Spans| l.0@[0].content@) + split_lines(s.subrange(start as int, len as int)),
                forall|i: int| 0 <= i < lines@.len() ==> (#[trigger] lines@[i]).0@.len() == 1 && lines@[i].0@[0].style == style,
            decreases len - start,
        {
            let ghost rest = s.subrange(start as int, len as int);
            let mut i = start;
            while i < len && content.get_char(i) != '\n'
                invariant
                    len == s.len(),
                    s == content@,
                    start <= i <= len,
                    first_newline(s, start as int) == first_newline(s, i as int),
                decreases len - i,
            {
                i = i + 1;
            }
            proof {
                lemma_first_newline_bounds(s, start as int);
                lemma_first_newline_suffix(s, start as int, start as int);
                assert(rest.len() > 0);
                assert(first_newline(rest, 0) == i - start);
            }
            let mut end = i;
            if i < len && end > start && content.get_char(end - 1) == '\r' {
                end = end - 1;
            }
            let line = content.substring_char(start, end);
            let mut spans: Vec<Span> = Vec::new();
            spans.push(Span::styled(line, style));
            let ghost before = lines@;
            lines.push(Spans(spans));
            proof {
                let l = rest.subrange(0, i - start);
                if i < len {
                    assert(rest.subrange(i - start + 1, rest.len() as int) =~= s.subrange(i + 1, len as int));
                    if l.len() > 0 && l.last() == '\r' {
                        assert(l.drop_last() =~= s.subrange(start as int, end as int));
                    } else {
                        assert(l =~= s.subrange(start as int, end as int));
                    }
                    assert(lines@.map_values(|x: Spans| x.0@[0].content@) =~= before.map_values(|x: Spans| x.0@[0].content@).push(s.subrange(start as int, end as int)));
                } else {
                    assert(rest =~= s.subrange(start as int, end as int));
                    assert(lines@.map_values(|x: Spans| x.0@[0].content@) =~= before.map_values(|x: Spans| x.0@[0].content@).push(s.subrange(start as int, end as int)));
                    assert(s.subrange(len as int, len as int) =~= Seq::<char>::empty());
                }
            }
            start = if i < len { i + 1 } else { len };
        }
        assert(s.subrange(len as int, len as int) =~= Seq::<char>::empty());
        assert(lines@.map_values(|l: Spans| l.0@[0].content@) =~= split_lines(s));
        Text { lines }
    }
}

} // verus!
