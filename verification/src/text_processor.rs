//! Alphabet classification and text segmentation.
//!
//! An alphabets scheme is a flattened array of triples `(range start,
//! range end, engine index)`, sorted ascending by range start.  A code point
//! is classified by walking the triples in order and taking the first range
//! that contains it; everything before the first range, after the last, or
//! between two ranges falls back to engine 0.

use vstd::prelude::*;

use crate::text::{chars_contains, chars_of, spec_trim, string_from_range_trimmed};

verus! {

/// One maximal run of text classified to one engine: the engine index and
/// the run's text, trimmed at both ends.
#[derive(Debug, PartialEq)]
pub struct LanguageChunk(pub usize, pub String);

impl View for LanguageChunk {
    type V = (int, Seq<char>);

    open spec fn view(&self) -> (int, Seq<char>) {
        (self.0 as int, self.1@)
    }
}

/// The views of a chunk sequence.
pub open spec fn chunks_view(v: Seq<LanguageChunk>) -> Seq<(int, Seq<char>)> {
    v.map_values(|c: LanguageChunk| c@)
}

/// The walk of `spec_classify` from triple position `i` on: stop with 0
/// before a range that already lies above `ch`, stop with the range's engine
/// index when the range contains `ch`, otherwise step to the next triple.
pub open spec fn spec_classify_from(s: Seq<u32>, ch: u32, i: int) -> int
    decreases s.len() - i,
{
    if i < 0 || i + 3 > s.len() {
        0
    } else if ch < s[i] {
        0
    } else if ch <= s[i + 1] {
        s[i + 2] as int
    } else {
        spec_classify_from(s, ch, i + 3)
    }
}

/// The engine index of code point `ch` under the scheme `s`: 0 when the
/// scheme is empty or `ch` lies outside every range, else the index stored
/// with the first range containing `ch`, in ascending range-start order.
pub open spec fn spec_classify(s: Seq<u32>, ch: u32) -> int {
    if s.len() == 0 {
        0
    } else if ch < s[0] || ch > s[s.len() - 2] {
        0
    } else {
        spec_classify_from(s, ch, 0)
    }
}

/// The engine index a character is spoken by under the given scheme.
pub fn identify_character(character: char, alphabets_scheme: &Vec<u32>) -> (r: usize)
    requires
        alphabets_scheme@.len() % 3 == 0,
    ensures
        r == spec_classify(alphabets_scheme@, character as u32),
{
    classify_code_point(character as u32, alphabets_scheme)
}

/// The engine index of a code point under the given scheme.
pub fn classify_code_point(ch: u32, alphabets_scheme: &Vec<u32>) -> (r: usize)
    requires
        alphabets_scheme@.len() % 3 == 0,
    ensures
        r == spec_classify(alphabets_scheme@, ch),
{
    let ghost s = alphabets_scheme@;
    if alphabets_scheme.len() == 0 {
        return 0;
    }
    if ch < alphabets_scheme[0] || ch > alphabets_scheme[alphabets_scheme.len() - 2] {
        return 0;
    }
    let mut i: usize = 0;
    while i < alphabets_scheme.len()
        invariant
            s == alphabets_scheme@,
            s.len() % 3 == 0,
            s.len() > 0,
            i % 3 == 0,
            i <= s.len(),
            !(ch < s[0] || ch > s[s.len() - 2]),
            spec_classify_from(s, ch, 0) == spec_classify_from(s, ch, i as int),
        decreases s.len() - i,
    {
        assert(i + 3 <= s.len());
        if ch < alphabets_scheme[i] {
            return 0;
        }
        if ch <= alphabets_scheme[i + 1] {
            return alphabets_scheme[i + 2] as usize;
        }
        i = i + 3;
    }
    0
}

/// Every classification is a valid engine index: with `n` engines whose
/// stored indices all lie below `n`, `spec_classify` lies in `[0, n)` for
/// every code point, and an empty scheme always yields 0.
pub proof fn lemma_classify_in_range(s: Seq<u32>, ch: u32, n: int)
    requires
        n >= 1,
        forall|j: int| 0 <= j < s.len() && j % 3 == 2 ==> (s[j] as int) < n,
    ensures
        0 <= spec_classify(s, ch) < n,
        s.len() == 0 ==> spec_classify(s, ch) == 0,
{
    lemma_classify_from_in_range(s, ch, 0, n);
}

proof fn lemma_classify_from_in_range(s: Seq<u32>, ch: u32, i: int, n: int)
    requires
        n >= 1,
        i % 3 == 0,
        forall|j: int| 0 <= j < s.len() && j % 3 == 2 ==> (s[j] as int) < n,
    ensures
        0 <= spec_classify_from(s, ch, i) < n,
    decreases s.len() - i,
{
    if i < 0 || i + 3 > s.len() {
    } else if ch < s[i] {
    } else if ch <= s[i + 1] {
        assert((i + 2) % 3 == 2) by (nonlinear_arith)
            requires
                i % 3 == 0,
        ;
    } else {
        assert((i + 3) % 3 == 0) by (nonlinear_arith)
            requires
                i % 3 == 0,
        ;
        lemma_classify_from_in_range(s, ch, i + 3, n);
    }
}

/// The running state of the segmentation walk: the start of the open chunk,
/// whether its engine is settled yet and which it is, whether the walk
/// stands inside an SSML tag, the start of every completed chunk, and the
/// completed chunks themselves.
pub ghost struct SegState {
    pub last_mark: int,
    pub type_set: bool,
    pub cur: int,
    pub in_tag: bool,
    pub marks: Seq<int>,
    pub chunks: Seq<(int, Seq<char>)>,
}

/// The walk's state before any character is visited: the open chunk's
/// engine is provisional (the fallback, 0) until the first non-skipped,
/// non-tag character seeds it.
pub open spec fn seg_init() -> SegState {
    SegState {
        last_mark: 0,
        type_set: false,
        cur: 0,
        in_tag: false,
        marks: Seq::empty(),
        chunks: Seq::empty(),
    }
}

/// One step of the segmentation walk, visiting `text[i]`.  Tag interiors
/// and the closing `>` are excluded under `ssml`; punctuation is excluded
/// from classification; the first classified character settles the open
/// chunk's engine; any later change of classification cuts a chunk at `i`,
/// its text the trimmed slice since the previous cut.
pub open spec fn seg_step(
    text: Seq<char>,
    scheme: Seq<u32>,
    punctuation: Seq<char>,
    ssml: bool,
    st: SegState,
    i: int,
) -> SegState {
    let ch = text[i];
    if ssml && ch == '<' && !st.in_tag {
        SegState { in_tag: true, ..st }
    } else if ssml && ch == '>' && st.in_tag {
        SegState { in_tag: false, ..st }
    } else if ssml && st.in_tag {
        st
    } else if punctuation.contains(ch) {
        st
    } else if !st.type_set {
        SegState { type_set: true, cur: spec_classify(scheme, ch as u32), ..st }
    } else {
        let t = spec_classify(scheme, ch as u32);
        if t != st.cur {
            SegState {
                last_mark: i,
                cur: t,
                marks: st.marks.push(st.last_mark),
                chunks: st.chunks.push((st.cur, spec_trim(text.subrange(st.last_mark, i)))),
                ..st
            }
        } else {
            st
        }
    }
}

/// The walk's state after visiting the first `i` characters.
pub open spec fn seg_iter(
    text: Seq<char>,
    scheme: Seq<u32>,
    punctuation: Seq<char>,
    ssml: bool,
    i: int,
) -> SegState
    decreases i,
{
    if i <= 0 {
        seg_init()
    } else {
        seg_step(text, scheme, punctuation, ssml, seg_iter(text, scheme, punctuation, ssml, i - 1), i - 1)
    }
}

/// What `parse_text` returns: with empty text no chunks at all; with an
/// empty scheme the whole text as one fallback chunk; otherwise the
/// completed chunks of the walk, closed by the trailing slice (which may
/// be empty after trimming).
pub open spec fn spec_parse_text(
    text: Seq<char>,
    scheme: Seq<u32>,
    punctuation: Seq<char>,
    ssml: bool,
) -> Seq<(int, Seq<char>)> {
    if text.len() == 0 {
        Seq::empty()
    } else if scheme.len() == 0 {
        seq![(0int, text)]
    } else {
        let st = seg_iter(text, scheme, punctuation, ssml, text.len() as int);
        st.chunks.push((st.cur, spec_trim(text.subrange(st.last_mark, text.len() as int))))
    }
}

/// Splits an utterance into maximal runs classified to one engine each.
/// Characters inside SSML tags (under `ssml`) and configured punctuation
/// never open or close a run, though punctuation stays in the run's text.
pub fn parse_text(
    text: &str,
    alphabets_scheme: &Vec<u32>,
    punctuation_characters: &Vec<char>,
    ssml: bool,
) -> (r: Vec<LanguageChunk>)
    requires
        alphabets_scheme@.len() % 3 == 0,
    ensures
        chunks_view(r@) == spec_parse_text(
            text@,
            alphabets_scheme@,
            punctuation_characters@,
            ssml,
        ),
{
    let ghost t = text@;
    let ghost s = alphabets_scheme@;
    let ghost p = punctuation_characters@;
    let chars = chars_of(text);
    if chars.len() == 0 {
        let r: Vec<LanguageChunk> = Vec::new();
        assert(chunks_view(r@) =~~= Seq::<(int, Seq<char>)>::empty());
        return r;
    }
    if alphabets_scheme.len() == 0 {
        let mut r: Vec<LanguageChunk> = Vec::new();
        r.push(LanguageChunk(0, text.to_owned()));
        assert(chunks_view(r@) =~~= seq![(0int, t)]);
        return r;
    }
    let mut result: Vec<LanguageChunk> = Vec::new();
    let mut last_mark: usize = 0;
    let mut chunk_type_set: bool = false;
    let mut current_chunk_type: usize = 0;
    let mut in_tag: bool = false;
    let mut i: usize = 0;
    while i < chars.len()
        invariant
            chars@ == t,
            s == alphabets_scheme@,
            p == punctuation_characters@,
            s.len() % 3 == 0,
            s.len() > 0,
            t.len() > 0,
            i <= t.len(),
            last_mark <= i,
            ({
                let st = seg_iter(t, s, p, ssml, i as int);
                &&& last_mark == st.last_mark
                &&& chunk_type_set == st.type_set
                &&& current_chunk_type == st.cur
                &&& in_tag == st.in_tag
                &&& chunks_view(result@) == st.chunks
            }),
        decreases t.len() - i,
    {
        let ghost st = seg_iter(t, s, p, ssml, i as int);
        let ghost st_next = seg_iter(t, s, p, ssml, i + 1);
        assert(st_next == seg_step(t, s, p, ssml, st, i as int));
        let ch = chars[i];
        let mut skip = false;
        if ssml {
            if ch == '<' && !in_tag {
                in_tag = true;
            }
            if ch == '>' && in_tag {
                in_tag = false;
                skip = true;
            }
            if !skip && in_tag {
                skip = true;
            }
        }
        if !skip {
            if chars_contains(punctuation_characters, ch) {
                skip = true;
            }
        }
        if !skip {
            if !chunk_type_set {
                current_chunk_type = classify_code_point(ch as u32, alphabets_scheme);
                chunk_type_set = true;
            } else {
                let new_chunk_type = classify_code_point(ch as u32, alphabets_scheme);
                if new_chunk_type != current_chunk_type {
                    let collected = string_from_range_trimmed(&chars, last_mark, i);
                    let ghost prev = chunks_view(result@);
                    result.push(LanguageChunk(current_chunk_type, collected));
                    assert(chunks_view(result@) =~~= prev.push(
                        (current_chunk_type as int, spec_trim(t.subrange(last_mark as int, i as int))),
                    ));
                    current_chunk_type = new_chunk_type;
                    last_mark = i;
                }
            }
        }
        i = i + 1;
    }
    let collected = string_from_range_trimmed(&chars, last_mark, chars.len());
    let ghost prev = chunks_view(result@);
    let ghost st = seg_iter(t, s, p, ssml, t.len() as int);
    result.push(LanguageChunk(current_chunk_type, collected));
    assert(chunks_view(result@) =~~= prev.push(
        (current_chunk_type as int, spec_trim(t.subrange(last_mark as int, t.len() as int))),
    ));
    result
}

/// Segmentation is a pure function of its four inputs: any two results that
/// `parse_text`'s contract admits for the same text, scheme, punctuation
/// set and SSML flag are equal.
pub proof fn lemma_segment_pure(
    text: Seq<char>,
    scheme: Seq<u32>,
    punctuation: Seq<char>,
    ssml: bool,
    r1: Seq<(int, Seq<char>)>,
    r2: Seq<(int, Seq<char>)>,
)
    requires
        r1 == spec_parse_text(text, scheme, punctuation, ssml),
        r2 == spec_parse_text(text, scheme, punctuation, ssml),
    ensures
        r1 == r2,
{
}

/// The cut point just after chunk `j`: the start of the next completed
/// chunk, or the start of the still open one.
pub open spec fn seg_next_mark(st: SegState, j: int) -> int {
    if j + 1 < st.marks.len() {
        st.marks[j + 1]
    } else {
        st.last_mark
    }
}

proof fn lemma_seg_iter_wf(
    text: Seq<char>,
    scheme: Seq<u32>,
    punctuation: Seq<char>,
    ssml: bool,
    i: int,
)
    requires
        text.len() > 0,
        0 <= i <= text.len(),
    ensures
        ({
            let st = seg_iter(text, scheme, punctuation, ssml, i);
            &&& 0 <= st.last_mark <= i
            &&& st.marks.len() == st.chunks.len()
            &&& (st.marks.len() > 0 ==> st.marks[0] == 0)
            &&& (st.marks.len() == 0 ==> st.last_mark == 0)
            &&& (forall|j: int|
                0 <= j < st.marks.len() ==> 0 <= #[trigger] st.marks[j] <= seg_next_mark(st, j))
            &&& (forall|j: int|
                0 <= j < st.chunks.len() ==> st.chunks[j].1 == spec_trim(
                    text.subrange(st.marks[j], seg_next_mark(st, j)),
                ))
        }),
    decreases i,
{
    if i > 0 {
        lemma_seg_iter_wf(text, scheme, punctuation, ssml, i - 1);
        let st = seg_iter(text, scheme, punctuation, ssml, i - 1);
        let st2 = seg_iter(text, scheme, punctuation, ssml, i);
        assert(st2 == seg_step(text, scheme, punctuation, ssml, st, i - 1));
        if st2.marks != st.marks {
            assert(forall|j: int|
                0 <= j < st.marks.len() ==> seg_next_mark(st2, j) == seg_next_mark(st, j));
        }
    }
}

/// The cut points of a segmentation: the start of every chunk, closed with
/// the text's length.
pub open spec fn spec_segment_marks(
    text: Seq<char>,
    scheme: Seq<u32>,
    punctuation: Seq<char>,
    ssml: bool,
) -> Seq<int> {
    let st = seg_iter(text, scheme, punctuation, ssml, text.len() as int);
    st.marks.push(st.last_mark).push(text.len() as int)
}

/// Chunk coverage: the cut points of a segmentation partition the whole
/// text, from 0 to its length in ascending order, and each chunk's text is
/// exactly its slice of the original text, trimmed.  Nothing of the text is
/// lost between chunks but the white space the trimming removes.
pub proof fn lemma_chunk_coverage(
    text: Seq<char>,
    scheme: Seq<u32>,
    punctuation: Seq<char>,
    ssml: bool,
)
    requires
        scheme.len() > 0,
        text.len() > 0,
    ensures
        ({
            let chunks = spec_parse_text(text, scheme, punctuation, ssml);
            let marks = spec_segment_marks(text, scheme, punctuation, ssml);
            &&& marks.len() == chunks.len() + 1
            &&& marks[0] == 0
            &&& marks.last() == text.len()
            &&& (forall|j: int| 0 <= j < chunks.len() ==> #[trigger] marks[j] <= marks[j + 1])
            &&& (forall|j: int|
                0 <= j < chunks.len() ==> chunks[j].1 == spec_trim(
                    text.subrange(marks[j], marks[j + 1]),
                ))
        }),
{
    lemma_seg_iter_wf(text, scheme, punctuation, ssml, text.len() as int);
    let st = seg_iter(text, scheme, punctuation, ssml, text.len() as int);
    let chunks = spec_parse_text(text, scheme, punctuation, ssml);
    let marks = spec_segment_marks(text, scheme, punctuation, ssml);
    assert(forall|j: int|
        0 <= j < st.chunks.len() ==> marks[j] == st.marks[j] && marks[j + 1] == seg_next_mark(
            st,
            j,
        ));
    assert(chunks[chunks.len() - 1].1 == spec_trim(
        text.subrange(marks[chunks.len() - 1], marks[chunks.len() as int]),
    ));
}


proof fn lemma_seg_types_bounded(
    text: Seq<char>,
    scheme: Seq<u32>,
    punctuation: Seq<char>,
    ssml: bool,
    i: int,
    n: int,
)
    requires
        text.len() > 0,
        0 <= i <= text.len(),
        n >= 1,
        forall|j: int| 0 <= j < scheme.len() && j % 3 == 2 ==> (scheme[j] as int) < n,
    ensures
        ({
            let st = seg_iter(text, scheme, punctuation, ssml, i);
            &&& 0 <= st.cur < n
            &&& forall|j: int| 0 <= j < st.chunks.len() ==> 0 <= (#[trigger] st.chunks[j]).0 < n
        }),
    decreases i,
{
    if i > 0 {
        lemma_seg_types_bounded(text, scheme, punctuation, ssml, i - 1, n);
        lemma_classify_in_range(scheme, text[i - 1] as u32, n);
    }
}

/// Every chunk of a segmentation carries a valid engine index: below `n`
/// whenever every index stored in the scheme is, and `n` is at least 1.
pub proof fn lemma_parse_text_types_bounded(
    text: Seq<char>,
    scheme: Seq<u32>,
    punctuation: Seq<char>,
    ssml: bool,
    n: int,
)
    requires
        n >= 1,
        forall|j: int| 0 <= j < scheme.len() && j % 3 == 2 ==> (scheme[j] as int) < n,
    ensures
        ({
            let chunks = spec_parse_text(text, scheme, punctuation, ssml);
            forall|j: int| 0 <= j < chunks.len() ==> 0 <= (#[trigger] chunks[j]).0 < n
        }),
{
    if scheme.len() == 0 || text.len() == 0 {
    } else {
        lemma_seg_types_bounded(text, scheme, punctuation, ssml, text.len() as int, n);
        let st = seg_iter(text, scheme, punctuation, ssml, text.len() as int);
        let chunks = spec_parse_text(text, scheme, punctuation, ssml);
        assert forall|j: int| 0 <= j < chunks.len() implies 0 <= (#[trigger] chunks[j]).0 < n by {
            if j < st.chunks.len() {
                assert(chunks[j] == st.chunks[j]);
            } else {
                assert(chunks[j] == (st.cur, spec_trim(
                    text.subrange(st.last_mark, text.len() as int),
                )));
            }
        }
    }
}



proof fn lemma_seg_alternation(
    text: Seq<char>,
    scheme: Seq<u32>,
    punctuation: Seq<char>,
    ssml: bool,
    i: int,
)
    requires
        text.len() > 0,
        0 <= i <= text.len(),
    ensures
        ({
            let st = seg_iter(text, scheme, punctuation, ssml, i);
            &&& (forall|j: int|
                0 <= j < st.chunks.len() - 1 ==> (#[trigger] st.chunks[j]).0 != st.chunks[j
                    + 1].0)
            &&& (st.chunks.len() > 0 ==> st.chunks.last().0 != st.cur)
            &&& (!st.type_set ==> st.chunks.len() == 0)
        }),
    decreases i,
{
    if i > 0 {
        lemma_seg_alternation(text, scheme, punctuation, ssml, i - 1);
        let st = seg_iter(text, scheme, punctuation, ssml, i - 1);
        let st2 = seg_iter(text, scheme, punctuation, ssml, i);
        if st2.chunks != st.chunks {
            assert(forall|j: int|
                0 <= j < st.chunks.len() ==> st2.chunks[j] == #[trigger] st.chunks[j]);
        }
    }
}

/// Chunks are maximal runs: no two neighbouring chunks of a segmentation
/// target the same engine — a chunk is cut exactly where the
/// classification changes.
pub proof fn lemma_chunks_alternate(
    text: Seq<char>,
    scheme: Seq<u32>,
    punctuation: Seq<char>,
    ssml: bool,
)
    requires
        scheme.len() > 0,
        text.len() > 0,
    ensures
        ({
            let chunks = spec_parse_text(text, scheme, punctuation, ssml);
            forall|j: int|
                0 <= j < chunks.len() - 1 ==> (#[trigger] chunks[j]).0 != chunks[j + 1].0
        }),
{
    lemma_seg_alternation(text, scheme, punctuation, ssml, text.len() as int);
    let st = seg_iter(text, scheme, punctuation, ssml, text.len() as int);
    let chunks = spec_parse_text(text, scheme, punctuation, ssml);
    assert forall|j: int| 0 <= j < chunks.len() - 1 implies (#[trigger] chunks[j]).0 != chunks[j
        + 1].0 by {
        assert(chunks[j] == st.chunks[j]);
        if j + 1 < st.chunks.len() {
            assert(chunks[j + 1] == st.chunks[j + 1]);
        } else {
            assert(chunks[j + 1].0 == st.cur);
            assert(st.chunks[j] == st.chunks.last());
        }
    }
}

} // verus!
