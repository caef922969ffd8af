//! The caption-track parser: a line-by-line state machine that turns the
//! engine's caption text into ordered transcript segments, together with a
//! serializer back into the caption format.
//!
//! The parser never fails: malformed input degrades to empty or partial
//! fields, never to an error.

use vstd::prelude::*;

use crate::text::{
    chars_of_str, contains_sub, find_pattern, find_sub, is_bracket, is_space, join_chars,
    join_with, lemma_find_sub, match_at, split_at_char, split_chars, string_from_chars,
    subrange_chars, trim, trim_bracket_chars, trim_brackets, trim_chars,
};

verus! {

/// The header token that caption output starts with; always skipped.
pub open spec fn header_token() -> Seq<char> {
    seq!['W', 'E', 'B', 'V', 'T', 'T']
}

/// The arrow that marks a cue's time line.
pub open spec fn arrow_token() -> Seq<char> {
    seq!['-', '-', '>']
}

/// The separator a time span is split on: `" --> "`.
pub open spec fn span_separator() -> Seq<char> {
    seq![' ', '-', '-', '>', ' ']
}

/// One transcript unit: a time span and its caption text.
#[derive(Debug)]
pub struct Segment {
    pub start: String,
    pub end: String,
    pub text: String,
}

/// Mathematical image of a [`Segment`].
#[verifier::ext_equal]
pub ghost struct SegmentModel {
    pub start: Seq<char>,
    pub end: Seq<char>,
    pub text: Seq<char>,
}

impl View for Segment {
    type V = SegmentModel;

    open spec fn view(&self) -> SegmentModel {
        SegmentModel { start: self.start@, end: self.end@, text: self.text@ }
    }
}

/// The models of a sequence of segments.
pub open spec fn segment_models(s: Seq<Segment>) -> Seq<SegmentModel> {
    Seq::new(s.len(), |i: int| s[i]@)
}

/// Mathematical image of the parser state: the pending time span, the
/// pending text lines, and whether a cue block has been started.
#[verifier::ext_equal]
pub ghost struct ParserModel {
    pub time_span: Seq<char>,
    pub text_lines: Seq<Seq<char>>,
    pub in_block: bool,
}

/// The state the parser starts in and returns to after each flush.
pub open spec fn idle_state() -> ParserModel {
    ParserModel { time_span: Seq::empty(), text_lines: Seq::empty(), in_block: false }
}

/// A pending block may be flushed: a block was started, the time span is
/// non-empty and at least one collected text line is non-empty. So a
/// segment is only ever emitted with both a non-empty time span and at
/// least one non-empty text line.
pub open spec fn block_complete(st: ParserModel) -> bool {
    st.in_block && st.time_span.len() > 0 && (exists|i: int|
        0 <= i < st.text_lines.len() && (#[trigger] st.text_lines[i]).len() > 0)
}

/// The segment a complete pending block flushes to: brackets stripped from
/// the raw time span, which is then split on `" --> "` into trimmed start
/// and end (an absent side degrades to the empty string); the text lines
/// joined with newlines and trimmed.
pub open spec fn flushed_segment(st: ParserModel) -> SegmentModel {
    let cleaned = trim_brackets(st.time_span);
    let sep = span_separator();
    let parts = match find_sub(cleaned, sep) {
        None => (trim(cleaned), Seq::<char>::empty()),
        Some(i) => {
            let rest = cleaned.skip(i + sep.len());
            let second = match find_sub(rest, sep) {
                Some(j) => rest.take(j),
                None => rest,
            };
            (trim(cleaned.take(i)), trim(second))
        },
    };
    SegmentModel {
        start: parts.0,
        end: parts.1,
        text: trim(join_with(st.text_lines, '\n')),
    }
}

/// One transition of the parser on one input line: the next state and the
/// segment emitted, if any.
pub open spec fn step(st: ParserModel, line: Seq<char>) -> (ParserModel, Option<SegmentModel>) {
    let t = trim(line);
    if t.len() == 0 {
        if block_complete(st) {
            (idle_state(), Some(flushed_segment(st)))
        } else {
            (st, None)
        }
    } else if t == header_token() {
        (st, None)
    } else if contains_sub(t, arrow_token()) {
        let emitted = if block_complete(st) {
            Some(flushed_segment(st))
        } else {
            None
        };
        match find_sub(t, seq![']']) {
            Some(bi) => (
                ParserModel {
                    time_span: trim(t.take(bi + 1)),
                    text_lines: seq![trim(t.skip(bi + 1))],
                    in_block: true,
                },
                emitted,
            ),
            None => (
                ParserModel { time_span: t, text_lines: Seq::empty(), in_block: true },
                emitted,
            ),
        }
    } else if st.in_block {
        (
            ParserModel {
                time_span: st.time_span,
                text_lines: st.text_lines.push(t),
                in_block: true,
            },
            None,
        )
    } else {
        (st, None)
    }
}

pub open spec fn emitted_seq(e: Option<SegmentModel>) -> Seq<SegmentModel> {
    match e {
        Some(s) => seq![s],
        None => Seq::empty(),
    }
}

/// The parser run over a whole line sequence: final state and all segments
/// emitted, in order.
pub open spec fn run(st: ParserModel, lines: Seq<Seq<char>>) -> (ParserModel, Seq<SegmentModel>)
    decreases lines.len(),
{
    if lines.len() == 0 {
        (st, Seq::empty())
    } else {
        let first = step(st, lines[0]);
        let rest = run(first.0, lines.drop_first());
        (rest.0, emitted_seq(first.1) + rest.1)
    }
}

/// What parsing a line sequence yields: the segments emitted during the
/// run, plus the final pending block if it is complete at end of stream.
pub open spec fn parsed_segments(lines: Seq<Seq<char>>) -> Seq<SegmentModel> {
    let end = run(idle_state(), lines);
    end.1 + if block_complete(end.0) {
        seq![flushed_segment(end.0)]
    } else {
        Seq::empty()
    }
}

/// The line models of a sequence of strings.
pub open spec fn line_models(lines: Seq<String>) -> Seq<Seq<char>> {
    Seq::new(lines.len(), |i: int| lines[i]@)
}

/// `run` extended by one line at the end.
pub proof fn lemma_run_snoc(st: ParserModel, lines: Seq<Seq<char>>, line: Seq<char>)
    ensures
        run(st, lines.push(line)) == {
            let mid = run(st, lines);
            let last = step(mid.0, line);
            (last.0, mid.1 + emitted_seq(last.1))
        },
    decreases lines.len(),
{
    let whole = lines.push(line);
    if lines.len() == 0 {
        reveal_with_fuel(run, 2);
        assert(whole[0] == line);
        assert(whole.drop_first() =~= Seq::<Seq<char>>::empty());
        let first = step(st, line);
        assert(run(st, whole).1 =~= emitted_seq(first.1));
        assert(run(st, lines).1 + emitted_seq(first.1) =~= emitted_seq(first.1));
    } else {
        assert(whole[0] == lines[0]);
        assert(whole.drop_first() =~= lines.drop_first().push(line));
        let first = step(st, lines[0]);
        lemma_run_snoc(first.0, lines.drop_first(), line);
        let mid = run(st, lines);
        let last = step(mid.0, line);
        assert(run(st, whole).1 =~= mid.1 + emitted_seq(last.1));
    }
}

/// `run` split across a concatenation of line sequences.
pub proof fn lemma_run_append(st: ParserModel, a: Seq<Seq<char>>, b: Seq<Seq<char>>)
    ensures
        run(st, a + b) == {
            let mid = run(st, a);
            let rest = run(mid.0, b);
            (rest.0, mid.1 + rest.1)
        },
    decreases a.len(),
{
    if a.len() == 0 {
        assert(a + b =~= b);
        assert(run(st, a).1 + run(st, b).1 =~= run(st, b).1);
    } else {
        assert((a + b)[0] == a[0]);
        assert((a + b).drop_first() =~= a.drop_first() + b);
        let first = step(st, a[0]);
        lemma_run_append(first.0, a.drop_first(), b);
        let mid = run(st, a);
        let rest = run(mid.0, b);
        assert(run(st, a + b).1 =~= mid.1 + rest.1);
    }
}

/// The caption parser's explicit state: the raw pending time-span line,
/// the pending text lines, and whether a cue block has been started.
pub struct CaptionParser {
    time_span: Vec<char>,
    text_lines: Vec<Vec<char>>,
    in_block: bool,
}

impl View for CaptionParser {
    type V = ParserModel;

    closed spec fn view(&self) -> ParserModel {
        ParserModel {
            time_span: self.time_span@,
            text_lines: self.text_lines.deep_view(),
            in_block: self.in_block,
        }
    }
}

impl CaptionParser {
    /// A parser in the idle state.
    pub fn new() -> (p: CaptionParser)
        ensures
            p@ == idle_state(),
    {
        let p = CaptionParser { time_span: Vec::new(), text_lines: Vec::new(), in_block: false };
        proof {
            assert(p@ =~~= idle_state());
        }
        p
    }

    /// Whether at least one collected text line is non-empty.
    fn has_pending_text(&self) -> (b: bool)
        ensures
            b == (exists|i: int|
                0 <= i < self@.text_lines.len() && (#[trigger] self@.text_lines[i]).len() > 0),
    {
        let n = self.text_lines.len();
        let mut i: usize = 0;
        while i < n
            invariant
                i <= n,
                n == self.text_lines@.len(),
                self@.text_lines.len() == n,
                forall|j: int| 0 <= j < n ==> self@.text_lines[j] == #[trigger] self
                    .text_lines@[j]@,
                forall|j: int| 0 <= j < i ==> (#[trigger] self@.text_lines[j]).len() == 0,
            decreases n - i,
        {
            if self.text_lines[i].len() > 0 {
                proof {
                    assert(self@.text_lines[i as int].len() > 0);
                }
                return true;
            }
            i += 1;
        }
        false
    }

    /// The segment the pending block flushes to.
    fn flush_segment(&self) -> (r: Segment)
        requires
            block_complete(self@),
        ensures
            r@ == flushed_segment(self@),
    {
        let cleaned = trim_bracket_chars(&self.time_span);
        let mut sep: Vec<char> = Vec::new();
        sep.push(' ');
        sep.push('-');
        sep.push('-');
        sep.push('>');
        sep.push(' ');
        proof {
            assert(sep@ =~= span_separator());
        }
        let (start, end) = match find_pattern(&cleaned, &sep) {
            None => {
                let s = trim_chars(&cleaned);
                let e: Vec<char> = Vec::new();
                proof {
                    assert(e@ =~= Seq::<char>::empty());
                }
                (s, e)
            },
            Some(i) => {
                let prefix = subrange_chars(&cleaned, 0, i);
                proof {
                    assert(prefix@ =~= trim_brackets(self.time_span@).take(i as int));
                }
                let cleaned_len = cleaned.len();
                let rest = subrange_chars(&cleaned, i + sep.len(), cleaned_len);
                proof {
                    assert(rest@ =~= trim_brackets(self.time_span@).skip(
                        i + span_separator().len(),
                    ));
                }
                let second = match find_pattern(&rest, &sep) {
                    Some(j) => {
                        let p = subrange_chars(&rest, 0, j);
                        proof {
                            assert(p@ =~= rest@.take(j as int));
                        }
                        p
                    },
                    None => rest,
                };
                (trim_chars(&prefix), trim_chars(&second))
            },
        };
        let joined = join_chars(&self.text_lines, '\n');
        let text = trim_chars(&joined);
        let r = Segment {
            start: string_from_chars(&start),
            end: string_from_chars(&end),
            text: string_from_chars(&text),
        };
        proof {
            assert(r@ =~= flushed_segment(self@));
        }
        r
    }

    /// Feed one line to the parser; the returned segment, if any, is the
    /// cue block this line completed.
    pub fn feed_line(&mut self, line: &str) -> (r: Option<Segment>)
        ensures
            final(self)@ == step(old(self)@, line@).0,
            match r {
                Some(s) => step(old(self)@, line@).1 == Some(s@),
                None => step(old(self)@, line@).1 is None,
            },
    {
        let raw = chars_of_str(line);
        let t = trim_chars(&raw);
        let ghost st0 = self@;
        if t.len() == 0 {
            if self.in_block && self.time_span.len() > 0 && self.has_pending_text() {
                let seg = self.flush_segment();
                self.time_span = Vec::new();
                self.text_lines = Vec::new();
                self.in_block = false;
                proof {
                    assert(self@ =~~= idle_state());
                }
                return Some(seg);
            }
            return None;
        }
        if is_header_line(&t) {
            return None;
        }
        let mut arrow: Vec<char> = Vec::new();
        arrow.push('-');
        arrow.push('-');
        arrow.push('>');
        proof {
            assert(arrow@ =~= arrow_token());
        }
        if find_pattern(&t, &arrow).is_some() {
            let emitted = if self.in_block && self.time_span.len() > 0
                && self.has_pending_text() {
                Some(self.flush_segment())
            } else {
                None
            };
            let mut bracket: Vec<char> = Vec::new();
            bracket.push(']');
            proof {
                assert(bracket@ =~= seq![']']);
            }
            match find_pattern(&t, &bracket) {
                Some(bi) => {
                    let time_part = subrange_chars(&t, 0, bi + 1);
                    proof {
                        assert(time_part@ =~= trim(raw@).take(bi + 1));
                    }
                    let text_part = subrange_chars(&t, bi + 1, t.len());
                    proof {
                        assert(text_part@ =~= trim(raw@).skip(bi + 1));
                    }
                    self.time_span = trim_chars(&time_part);
                    let first_text = trim_chars(&text_part);
                    self.text_lines = Vec::new();
                    self.text_lines.push(first_text);
                    self.in_block = true;
                    proof {
                        assert(self@ =~~= step(st0, line@).0);
                    }
                },
                None => {
                    self.time_span = t;
                    self.text_lines = Vec::new();
                    self.in_block = true;
                    proof {
                        assert(self@ =~~= step(st0, line@).0);
                    }
                },
            }
            return emitted;
        }
        if self.in_block {
            let ghost before = self.text_lines.deep_view();
            self.text_lines.push(t);
            proof {
                assert(self.text_lines.deep_view() =~~= before.push(trim(raw@)));
                assert(self@ =~~= step(st0, line@).0);
            }
            return None;
        }
        None
    }

    /// End of stream: flush the final pending block if it is complete, and
    /// return the parser to the idle state.
    pub fn finish(&mut self) -> (r: Option<Segment>)
        ensures
            final(self)@ == idle_state(),
            match r {
                Some(s) => block_complete(old(self)@) && s@ == flushed_segment(old(self)@),
                None => !block_complete(old(self)@),
            },
    {
        let r = if self.in_block && self.time_span.len() > 0 && self.has_pending_text() {
            Some(self.flush_segment())
        } else {
            None
        };
        self.time_span = Vec::new();
        self.text_lines = Vec::new();
        self.in_block = false;
        proof {
            assert(self@ =~~= idle_state());
        }
        r
    }
}

/// A time-span side that survives the caption format unchanged: non-empty,
/// no whitespace at its edges, no bracket characters anywhere, and never
/// containing the arrow token.
pub open spec fn renderable_span(p: Seq<char>) -> bool {
    p.len() > 0 && !is_space(p[0]) && !is_space(p.last()) && (forall|i: int|
        0 <= i < p.len() ==> !is_bracket(#[trigger] p[i])) && !contains_sub(p, arrow_token())
}

/// A caption text line that survives the format unchanged: non-empty, no
/// whitespace at its edges, not the header token, and never containing the
/// arrow token.
pub open spec fn renderable_text_line(l: Seq<char>) -> bool {
    l.len() > 0 && !is_space(l[0]) && !is_space(l.last()) && l != header_token()
        && !contains_sub(l, arrow_token())
}

/// A segment the caption format can carry faithfully. In particular its
/// text holds no blank lines.
pub open spec fn renderable(s: SegmentModel) -> bool {
    renderable_span(s.start) && renderable_span(s.end) && (forall|i: int|
        0 <= i < split_at_char(s.text, '\n').len() ==> renderable_text_line(
            #[trigger] split_at_char(s.text, '\n')[i],
        ))
}

/// The time line a segment serializes to.
pub open spec fn time_line_of(s: SegmentModel) -> Seq<char> {
    s.start + span_separator() + s.end
}

/// The lines one segment serializes to: its time line, its text lines, and
/// a blank separator.
pub open spec fn render_segment(s: SegmentModel) -> Seq<Seq<char>> {
    seq![time_line_of(s)] + split_at_char(s.text, '\n') + seq![Seq::<char>::empty()]
}

pub open spec fn render_blocks(segs: Seq<SegmentModel>) -> Seq<Seq<char>>
    decreases segs.len(),
{
    if segs.len() == 0 {
        Seq::empty()
    } else {
        render_segment(segs[0]) + render_blocks(segs.drop_first())
    }
}

/// The caption lines a segment sequence serializes to: the header, a blank
/// line, then each segment's block.
pub open spec fn rendered_lines(segs: Seq<SegmentModel>) -> Seq<Seq<char>> {
    seq![header_token(), Seq::<char>::empty()] + render_blocks(segs)
}

/// Trimming does not change a sequence whose edges are not whitespace.
proof fn lemma_trim_identity(s: Seq<char>)
    requires
        s.len() > 0,
        !is_space(s[0]),
        !is_space(s.last()),
    ensures
        trim(s) == s,
{
}

/// A non-empty join starts with the first line's first character and ends
/// with the last line's last character.
proof fn lemma_join_edges(ls: Seq<Seq<char>>, sep: char)
    requires
        ls.len() > 0,
        forall|i: int| 0 <= i < ls.len() ==> (#[trigger] ls[i]).len() > 0,
    ensures
        join_with(ls, sep).len() > 0,
        join_with(ls, sep)[0] == ls[0][0],
        join_with(ls, sep).last() == ls.last().last(),
    decreases ls.len(),
{
    if ls.len() == 1 {
    } else {
        assert(forall|i: int|
            0 <= i < ls.drop_first().len() ==> (#[trigger] ls.drop_first()[i]).len() > 0);
        lemma_join_edges(ls.drop_first(), sep);
        let j = join_with(ls, sep);
        assert(j == ls[0].push(sep) + join_with(ls.drop_first(), sep));
        assert(j[0] == ls[0].push(sep)[0]);
        assert(ls.drop_first().last() == ls.last());
        assert(j.last() == join_with(ls.drop_first(), sep).last());
    }
}

/// Where the serialized time line splits: exactly at the boundary between
/// start and separator, with no bracket and no earlier or later separator.
#[verifier::rlimit(100)]
proof fn lemma_time_line_splits(a: Seq<char>, b: Seq<char>)
    requires
        renderable_span(a),
        renderable_span(b),
    ensures
        find_sub(a + span_separator() + b, span_separator()) == Some(a.len() as int),
        find_sub(b, span_separator()) is None,
        find_sub(a + span_separator() + b, seq![']']) is None,
        contains_sub(a + span_separator() + b, arrow_token()),
{
    let t = a + span_separator() + b;
    let sep = span_separator();
    let big = a.len() as int;
    assert(t.len() == a.len() + 5 + b.len());
    assert(forall|k: int| 0 <= k < a.len() ==> t[k] == a[k]);
    assert(forall|k: int| 0 <= k < 5 ==> t[big + k] == sep[k]);
    assert(forall|k: int| 0 <= k < b.len() ==> t[big + 5 + k] == b[k]);

    // The separator occurs at the boundary.
    assert(match_at(t, sep, big)) by {
        assert(t.subrange(big, big + 5) =~= sep);
    }
    // The arrow occurs inside that separator occurrence.
    assert(match_at(t, arrow_token(), big + 1)) by {
        assert(t.subrange(big + 1, big + 4) =~= arrow_token());
    }
    lemma_find_sub(t, arrow_token());
    assert(contains_sub(t, arrow_token()));

    // No bracket character occurs anywhere.
    lemma_find_sub(t, seq![']']);
    if find_sub(t, seq![']']) is Some {
        let i = find_sub(t, seq![']'])->Some_0;
        assert(t.subrange(i, i + 1)[0] == t[i]);
        assert(t[i] == ']');
        if i < big {
            assert(!is_bracket(a[i]));
        } else if i < big + 5 {
            assert(t[i] == sep[i - big]);
        } else {
            assert(!is_bracket(b[i - big - 5]));
        }
    }

    // No separator occurrence inside `b` alone.
    lemma_find_sub(b, sep);
    if find_sub(b, sep) is Some {
        let j = find_sub(b, sep)->Some_0;
        assert(b.subrange(j, j + 5) == sep);
        assert(match_at(b, arrow_token(), j + 1)) by {
            assert(b.subrange(j + 1, j + 4) =~= b.subrange(j, j + 5).subrange(1, 4));
            assert(b.subrange(j, j + 5).subrange(1, 4) =~= arrow_token());
        }
        lemma_find_sub(b, arrow_token());
        assert(contains_sub(b, arrow_token()));
    }

    // No separator occurrence left of the boundary.
    assert forall|j: int| 0 <= j < big implies !match_at(t, sep, j) by {
        if match_at(t, sep, j) {
            assert(t.subrange(j, j + 5)[1] == t[j + 1]);
            assert(t.subrange(j, j + 5)[2] == t[j + 2]);
            assert(t.subrange(j, j + 5)[3] == t[j + 3]);
            if j + 4 <= big {
                assert(match_at(a, arrow_token(), j + 1)) by {
                    assert(a.subrange(j + 1, j + 4) =~= arrow_token());
                }
                lemma_find_sub(a, arrow_token());
                assert(contains_sub(a, arrow_token()));
            } else {
                // The separator's first character would land on a
                // non-blank position of the real separator.
                let k = big - j;
                assert(1 <= k < 4);
                assert(t[big] == sep[0]);
                assert(t[j + k] == sep[k]);
            }
        }
    }
    lemma_find_sub(t, sep);
    if find_sub(t, sep) is None {
        assert(!match_at(t, sep, big));
    }
    let f = find_sub(t, sep)->Some_0;
    assert(!(f < big));
    assert(!(big < f));
}

/// Feeding only renderable text lines accumulates them in order.
proof fn lemma_run_text_lines(st: ParserModel, ls: Seq<Seq<char>>)
    requires
        st.in_block,
        forall|i: int| 0 <= i < ls.len() ==> renderable_text_line(#[trigger] ls[i]),
    ensures
        run(st, ls) == (
            ParserModel {
                time_span: st.time_span,
                text_lines: st.text_lines + ls,
                in_block: true,
            },
            Seq::<SegmentModel>::empty(),
        ),
    decreases ls.len(),
{
    if ls.len() == 0 {
        assert(st.text_lines + ls =~= st.text_lines);
        assert(st =~~= ParserModel {
            time_span: st.time_span,
            text_lines: st.text_lines + ls,
            in_block: true,
        });
    } else {
        let l = ls[0];
        assert(renderable_text_line(l));
        lemma_trim_identity(l);
        let next = step(st, l);
        assert(next.0 == ParserModel {
            time_span: st.time_span,
            text_lines: st.text_lines.push(l),
            in_block: true,
        });
        assert(next.1 is None);
        assert(forall|i: int|
            0 <= i < ls.drop_first().len() ==> renderable_text_line(
                #[trigger] ls.drop_first()[i],
            ));
        lemma_run_text_lines(next.0, ls.drop_first());
        assert(st.text_lines.push(l) + ls.drop_first() =~= st.text_lines + ls);
        assert(run(st, ls).1 =~= Seq::<SegmentModel>::empty());
    }
}

/// Parsing one rendered segment block from the idle state emits exactly
/// that segment and returns to the idle state.
proof fn lemma_run_render_segment(s: SegmentModel)
    requires
        renderable(s),
    ensures
        run(idle_state(), render_segment(s)) == (idle_state(), seq![s]),
{
    let t = time_line_of(s);
    let sep = span_separator();
    let lines = split_at_char(s.text, '\n');
    let big = s.start.len() as int;
    lemma_time_line_splits(s.start, s.end);
    crate::text::lemma_split_len(s.text, '\n');

    // Step on the time line: it is already trimmed, is not the header
    // (it is at least seven characters long), holds the arrow, and holds
    // no bracket; so it starts a fresh block.
    assert(t.len() >= 7);
    assert(t[0] == s.start[0]);
    assert(t.last() == s.end.last()) by {
        assert(t.len() == big + 5 + s.end.len());
        assert(t[big + 5 + (s.end.len() - 1)] == s.end[s.end.len() - 1]);
    }
    lemma_trim_identity(t);
    let st1 = ParserModel { time_span: t, text_lines: Seq::empty(), in_block: true };
    assert(step(idle_state(), t) == (st1, Option::<SegmentModel>::None)) by {
        assert(t.len() != header_token().len());
        assert(!block_complete(idle_state()));
    }

    // The text lines accumulate.
    lemma_run_text_lines(st1, lines);
    let st2 = ParserModel { time_span: t, text_lines: Seq::empty() + lines, in_block: true };

    // The blank separator flushes the block back to the idle state.
    assert(trim(Seq::<char>::empty()).len() == 0);
    assert(block_complete(st2)) by {
        assert(lines.len() >= 1);
        assert(renderable_text_line(lines[0]));
        assert((Seq::<Seq<char>>::empty() + lines)[0] == lines[0]);
        assert(st2.text_lines[0].len() > 0);
    }
    assert(flushed_segment(st2) == s) by {
        assert(st2.time_span == t);
        assert(trim_brackets(t) == t) by {
            assert(!is_bracket(t[0]));
            assert(!is_bracket(t.last()));
        }
        assert(find_sub(t, sep) == Some(big));
        let rest = t.skip(big + 5);
        assert(rest =~= s.end);
        assert(find_sub(rest, sep) is None);
        assert(t.take(big) =~= s.start);
        lemma_trim_identity(s.start);
        lemma_trim_identity(s.end);
        // The joined text lines are exactly the original text, already
        // trimmed at its edges.
        assert(st2.text_lines =~= lines);
        crate::text::lemma_join_split(s.text, '\n');
        assert(join_with(lines, '\n') == s.text);
        assert(forall|i: int| 0 <= i < lines.len() ==> (#[trigger] lines[i]).len() > 0);
        lemma_join_edges(lines, '\n');
        assert(s.text[0] == lines[0][0]);
        assert(s.text.last() == lines.last().last());
        assert(!is_space(s.text[0]));
        assert(!is_space(s.text.last()));
        lemma_trim_identity(s.text);
        assert(flushed_segment(st2) =~~= s);
    }
    assert(step(st2, Seq::<char>::empty()) == (idle_state(), Some(flushed_segment(st2))));

    // Compose the three parts of the block.
    let part_a = seq![t];
    let part_b = lines;
    let part_c = seq![Seq::<char>::empty()];
    assert(render_segment(s) =~= part_a + (part_b + part_c));
    lemma_run_append(idle_state(), part_a, part_b + part_c);
    assert(run(idle_state(), part_a) == (st1, Seq::<SegmentModel>::empty())) by {
        reveal_with_fuel(run, 2);
        assert(part_a.drop_first() =~= Seq::<Seq<char>>::empty());
        assert(emitted_seq(Option::<SegmentModel>::None) + Seq::<SegmentModel>::empty()
            =~= Seq::<SegmentModel>::empty());
    }
    lemma_run_append(st1, part_b, part_c);
    assert(run(st1, part_b) == (st2, Seq::<SegmentModel>::empty())) by {
        assert(Seq::<Seq<char>>::empty() + lines =~= lines);
        assert(st2 =~~= ParserModel {
            time_span: st1.time_span,
            text_lines: st1.text_lines + lines,
            in_block: true,
        });
    }
    assert(run(st2, part_c) == (idle_state(), seq![s])) by {
        reveal_with_fuel(run, 2);
        assert(part_c[0] == Seq::<char>::empty());
        assert(part_c.drop_first() =~= Seq::<Seq<char>>::empty());
        assert(emitted_seq(Some(s)) + Seq::<SegmentModel>::empty() =~= seq![s]);
    }
    assert(run(idle_state(), render_segment(s)).1 =~= seq![s]);
}

/// Parsing the rendered blocks of renderable segments emits exactly those
/// segments.
proof fn lemma_run_render_blocks(segs: Seq<SegmentModel>)
    requires
        forall|i: int| 0 <= i < segs.len() ==> renderable(#[trigger] segs[i]),
    ensures
        run(idle_state(), render_blocks(segs)) == (idle_state(), segs),
    decreases segs.len(),
{
    if segs.len() == 0 {
        assert(run(idle_state(), render_blocks(segs)).1 =~= segs);
    } else {
        lemma_run_render_segment(segs[0]);
        assert(forall|i: int|
            0 <= i < segs.drop_first().len() ==> renderable(#[trigger] segs.drop_first()[i]));
        lemma_run_render_blocks(segs.drop_first());
        lemma_run_append(idle_state(), render_segment(segs[0]), render_blocks(segs.drop_first()));
        assert(seq![segs[0]] + segs.drop_first() =~= segs);
    }
}

/// Round trip: parsing the serialization of renderable segments yields
/// exactly those segments. In particular no cue is lost and no field
/// changes, for any segment sequence whose time-span sides and text lines
/// are renderable (non-empty, trimmed, free of brackets, arrows and blank
/// lines).
pub proof fn lemma_parse_render_round_trip(segs: Seq<SegmentModel>)
    requires
        forall|i: int| 0 <= i < segs.len() ==> renderable(#[trigger] segs[i]),
    ensures
        parsed_segments(rendered_lines(segs)) == segs,
{
    let preamble = seq![header_token(), Seq::<char>::empty()];
    assert(run(idle_state(), preamble) == (idle_state(), Seq::<SegmentModel>::empty())) by {
        reveal_with_fuel(run, 3);
        assert(preamble[0] == header_token());
        lemma_trim_identity(header_token());
        assert(step(idle_state(), header_token()) == (
            idle_state(),
            Option::<SegmentModel>::None,
        ));
        assert(preamble.drop_first() =~= seq![Seq::<char>::empty()]);
        assert(preamble.drop_first()[0] == Seq::<char>::empty());
        assert(trim(Seq::<char>::empty()).len() == 0);
        assert(preamble.drop_first().drop_first() =~= Seq::<Seq<char>>::empty());
        assert(run(idle_state(), preamble).1 =~= Seq::<SegmentModel>::empty());
    }
    lemma_run_append(idle_state(), preamble, render_blocks(segs));
    lemma_run_render_blocks(segs);
    assert(rendered_lines(segs) == preamble + render_blocks(segs));
    assert(run(idle_state(), rendered_lines(segs)).1 =~= segs);
    assert(!block_complete(idle_state()));
    assert(parsed_segments(rendered_lines(segs)) =~= segs);
}

/// `render_blocks` extended by one segment at the end.
proof fn lemma_render_blocks_snoc(segs: Seq<SegmentModel>, s: SegmentModel)
    ensures
        render_blocks(segs.push(s)) == render_blocks(segs) + render_segment(s),
    decreases segs.len(),
{
    let whole = segs.push(s);
    if segs.len() == 0 {
        reveal_with_fuel(render_blocks, 2);
        assert(whole[0] == s);
        assert(whole.drop_first() =~= Seq::<SegmentModel>::empty());
        assert(render_blocks(whole) =~= render_segment(s));
        assert(render_blocks(segs) + render_segment(s) =~= render_segment(s));
    } else {
        assert(whole[0] == segs[0]);
        assert(whole.drop_first() =~= segs.drop_first().push(s));
        lemma_render_blocks_snoc(segs.drop_first(), s);
        assert(render_blocks(whole) =~= render_blocks(segs) + render_segment(s));
    }
}

/// Serialize segments back into caption lines: the header, a blank line,
/// then for each segment its time line, its text lines and a blank
/// separator.
pub fn render_captions(segs: &Vec<Segment>) -> (r: Vec<String>)
    ensures
        line_models(r@) == rendered_lines(segment_models(segs@)),
{
    proof {
        reveal_strlit("WEBVTT");
        reveal_strlit(" --> ");
        assert("WEBVTT"@ =~= header_token());
        assert(" --> "@ =~= span_separator());
    }
    let mut out: Vec<String> = Vec::new();
    out.push(String::from_str("WEBVTT"));
    out.push(String::new());
    let n = segs.len();
    let mut i: usize = 0;
    proof {
        assert(segment_models(segs@).take(0) =~= Seq::<SegmentModel>::empty());
        assert(line_models(out@) =~= seq![header_token(), Seq::<char>::empty()]);
    }
    while i < n
        invariant
            i <= n,
            n == segs@.len(),
            line_models(out@) =~= seq![header_token(), Seq::<char>::empty()] + render_blocks(
                segment_models(segs@).take(i as int),
            ),
        decreases n - i,
    {
        let ghost models = segment_models(segs@);
        let ghost out0 = line_models(out@);
        proof {
            reveal_strlit(" --> ");
            assert(" --> "@ =~= span_separator());
        }
        let mut time_line = segs[i].start.clone();
        time_line.append(" --> ");
        time_line.append(segs[i].end.as_str());
        proof {
            assert(time_line@ =~= time_line_of(models[i as int]));
        }
        out.push(time_line);
        let text_chars = chars_of_str(segs[i].text.as_str());
        let parts = split_chars(&text_chars, '\n');
        let ghost out1 = line_models(out@);
        let m = parts.len();
        let mut k: usize = 0;
        proof {
            assert(parts.deep_view().take(0) =~= Seq::<Seq<char>>::empty());
            assert(out1 =~= out0.push(time_line_of(models[i as int])));
        }
        while k < m
            invariant
                k <= m,
                m == parts@.len(),
                parts.deep_view().len() == parts@.len(),
                forall|j: int| 0 <= j < m ==> parts.deep_view()[j] == #[trigger] parts@[j]@,
                line_models(out@) =~= out1 + parts.deep_view().take(k as int),
            decreases m - k,
        {
            let line = string_from_chars(&parts[k]);
            out.push(line);
            proof {
                assert(parts.deep_view().take(k + 1) =~= parts.deep_view().take(
                    k as int,
                ).push(parts@[k as int]@));
                assert(line_models(out@) =~= (out1 + parts.deep_view().take(k as int)).push(
                    parts@[k as int]@,
                ));
                assert((out1 + parts.deep_view().take(k as int)).push(parts@[k as int]@) =~= out1
                    + parts.deep_view().take(k + 1));
            }
            k += 1;
        }
        out.push(String::new());
        proof {
            assert(parts.deep_view().take(m as int) =~= parts.deep_view());
            assert(parts.deep_view() == split_at_char(models[i as int].text, '\n'));
            lemma_render_blocks_snoc(models.take(i as int), models[i as int]);
            assert(models.take(i + 1) =~= models.take(i as int).push(models[i as int]));
            assert(line_models(out@) =~= ((out0.push(time_line_of(models[i as int]))) + parts
                .deep_view()).push(Seq::<char>::empty()));
            assert(((out0.push(time_line_of(models[i as int]))) + parts.deep_view()).push(
                Seq::<char>::empty(),
            ) =~= out0 + render_segment(models[i as int]));
        }
        i += 1;
    }
    proof {
        assert(segment_models(segs@).take(n as int) =~= segment_models(segs@));
    }
    out
}

/// Whether a trimmed line is exactly the header token.
fn is_header_line(t: &Vec<char>) -> (b: bool)
    ensures
        b == (t@ == header_token()),
{
    if t.len() != 6 {
        proof {
            assert(t@ != header_token());
        }
        return false;
    }
    let b = t[0] == 'W' && t[1] == 'E' && t[2] == 'B' && t[3] == 'V' && t[4] == 'T' && t[5]
        == 'T';
    proof {
        if b {
            assert(t@ =~= header_token());
        } else {
            assert(t@ != header_token());
        }
    }
    b
}

/// Parse a sequence of caption lines into ordered segments. Never fails,
/// whatever the lines hold.
pub fn parse_caption_lines(lines: &Vec<String>) -> (r: Vec<Segment>)
    ensures
        segment_models(r@) == parsed_segments(line_models(lines@)),
{
    let mut parser = CaptionParser::new();
    let mut out: Vec<Segment> = Vec::new();
    let n = lines.len();
    let mut i: usize = 0;
    proof {
        assert(line_models(lines@).take(0) =~= Seq::<Seq<char>>::empty());
        assert(segment_models(out@) =~= Seq::<SegmentModel>::empty());
    }
    while i < n
        invariant
            i <= n,
            n == lines@.len(),
            run(idle_state(), line_models(lines@).take(i as int)) == (
                parser@,
                segment_models(out@),
            ),
        decreases n - i,
    {
        let ghost consumed = line_models(lines@).take(i as int);
        let ghost segs0 = segment_models(out@);
        let r = parser.feed_line(lines[i].as_str());
        proof {
            lemma_run_snoc(idle_state(), consumed, lines@[i as int]@);
            assert(line_models(lines@).take(i + 1) =~= consumed.push(lines@[i as int]@));
        }
        match r {
            Some(s) => {
                out.push(s);
                proof {
                    assert(segment_models(out@) =~= segs0.push(s@));
                    assert(segs0 + emitted_seq(Some(s@)) =~= segs0.push(s@));
                }
            },
            None => {
                proof {
                    assert(segs0 + emitted_seq(step(run(idle_state(), consumed).0, lines@[i
                        as int]@).1) =~= segs0);
                }
            },
        }
        i += 1;
    }
    proof {
        assert(line_models(lines@).take(n as int) =~= line_models(lines@));
    }
    let ghost segs0 = segment_models(out@);
    match parser.finish() {
        Some(s) => {
            out.push(s);
            proof {
                assert(segment_models(out@) =~= segs0.push(s@));
                assert(parsed_segments(line_models(lines@)) =~= segs0.push(s@));
            }
        },
        None => {
            proof {
                assert(parsed_segments(line_models(lines@)) =~= segs0);
            }
        },
    }
    out
}

/// Parse a whole caption text: split on newlines, then parse the lines.
pub fn parse_captions(output: &str) -> (r: Vec<Segment>)
    ensures
        segment_models(r@) == parsed_segments(split_at_char(output@, '\n')),
{
    let raw = chars_of_str(output);
    let lines = split_chars(&raw, '\n');
    let mut parser = CaptionParser::new();
    let mut out: Vec<Segment> = Vec::new();
    let n = lines.len();
    let mut i: usize = 0;
    proof {
        assert(lines.deep_view().take(0) =~= Seq::<Seq<char>>::empty());
        assert(segment_models(out@) =~= Seq::<SegmentModel>::empty());
    }
    while i < n
        invariant
            i <= n,
            n == lines@.len(),
            lines.deep_view().len() == lines@.len(),
            forall|j: int| 0 <= j < n ==> lines.deep_view()[j] == #[trigger] lines@[j]@,
            run(idle_state(), lines.deep_view().take(i as int)) == (
                parser@,
                segment_models(out@),
            ),
        decreases n - i,
    {
        let ghost consumed = lines.deep_view().take(i as int);
        let ghost segs0 = segment_models(out@);
        let line = string_from_chars(&lines[i]);
        let r = parser.feed_line(line.as_str());
        proof {
            lemma_run_snoc(idle_state(), consumed, lines@[i as int]@);
            assert(lines.deep_view().take(i + 1) =~= consumed.push(lines@[i as int]@));
        }
        match r {
            Some(s) => {
                out.push(s);
                proof {
                    assert(segment_models(out@) =~= segs0.push(s@));
                    assert(segs0 + emitted_seq(Some(s@)) =~= segs0.push(s@));
                }
            },
            None => {
                proof {
                    assert(segs0 + emitted_seq(step(run(idle_state(), consumed).0, lines@[i
                        as int]@).1) =~= segs0);
                }
            },
        }
        i += 1;
    }
    proof {
        assert(lines.deep_view().take(n as int) =~= lines.deep_view());
        assert(lines.deep_view() == split_at_char(output@, '\n'));
    }
    let ghost segs0 = segment_models(out@);
    match parser.finish() {
        Some(s) => {
            out.push(s);
            proof {
                assert(segment_models(out@) =~= segs0.push(s@));
                assert(parsed_segments(split_at_char(output@, '\n')) =~= segs0.push(s@));
            }
        },
        None => {
            proof {
                assert(parsed_segments(split_at_char(output@, '\n')) =~= segs0);
            }
        },
    }
    out
}

} // verus!
