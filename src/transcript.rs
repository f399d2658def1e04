use vstd::prelude::*;
use crate::text::{decimal, decimal_string, join_words, join_with_spaces, words_of};
use vstd::string::StringExecFns;

verus! {

/// One recognised word, timed on the original timeline (microseconds).
#[derive(Clone, Debug)]
pub struct Word {
    pub id: String,
    pub word: String,
    pub start: u64,
    pub end: u64,
}

/// A contiguous stretch of transcript with its words.
#[derive(Clone, Debug)]
pub struct Segment {
    pub id: usize,
    pub start: u64,
    pub end: u64,
    pub text: String,
    pub words: Vec<Word>,
}

/// A transcript, segment by segment.
#[derive(Clone, Debug)]
pub struct Transcript {
    pub segments: Vec<Segment>,
    pub language: Option<String>,
}

/// What the editor receives: segments, every word in order, and the
/// video's duration (microseconds).
#[derive(Clone, Debug)]
pub struct TranscriptResult {
    pub segments: Vec<Segment>,
    pub words: Vec<Word>,
    pub duration: u64,
    pub input_path: String,
}

/// The identifier of the word at position `n` of a transcript: `w<n>`.
pub open spec fn word_id(n: nat) -> Seq<char> {
    seq!['w'] + decimal(n)
}

/// Builds `w<n>`.
pub fn word_id_string(n: usize) -> (r: String)
    ensures
        r@ == word_id(n as nat),
{
    let digits = decimal_string(n as u64);
    let mut s = String::new();
    proof {
        reveal_strlit("w");
    }
    s.append("w");
    s.append(digits.as_str());
    proof {
        assert(s@ =~= word_id(n as nat));
    }
    s
}

/// Every segment spans forwards in time.
pub open spec fn segments_wf(segs: Seq<Segment>) -> bool {
    forall|k: int| 0 <= k < segs.len() ==> #[trigger] segs[k].start <= segs[k].end
}

/// How many revised words the segments before `k` take, out of `w`.
pub open spec fn taken_before(segs: Seq<Segment>, k: int, w: int) -> int
    decreases k,
{
    if k <= 0 {
        0
    } else {
        let t = taken_before(segs, k - 1, w) + segs[k - 1].words@.len();
        if t <= w {
            t
        } else {
            w
        }
    }
}

/// Start of the `i`-th of `cnt` equal shares of `[start, end]`.
pub open spec fn share_start(start: u64, end: u64, i: int, cnt: int) -> int {
    start + (i * (end - start)) / cnt
}

/// `out` is `orig` carrying revised words `lo..hi`, spread evenly over its
/// unchanged span.
pub open spec fn segment_redistributed(
    orig: Segment,
    words: Seq<Seq<char>>,
    lo: int,
    hi: int,
    out: Segment,
) -> bool {
    &&& out.id == orig.id
    &&& out.start == orig.start
    &&& out.end == orig.end
    &&& out.text@ == join_words(words.subrange(lo, hi))
    &&& out.words@.len() == hi - lo
    &&& forall|i: int|
        0 <= i < hi - lo ==> {
            &&& (#[trigger] out.words@[i]).word@ == words[lo + i]
            &&& out.words@[i].id@ == word_id((lo + i) as nat)
            &&& out.words@[i].start == share_start(orig.start, orig.end, i, hi - lo)
            &&& out.words@[i].end == share_start(orig.start, orig.end, i + 1, hi - lo)
        }
}

/// `r` is `segs` with the revised `words` handed out in order, each
/// segment taking as many as it had, the last ones taking what is left.
pub open spec fn redistributed(segs: Seq<Segment>, words: Seq<Seq<char>>, r: Seq<Segment>) -> bool {
    &&& r.len() == segs.len()
    &&& forall|k: int|
        0 <= k < segs.len() ==> segment_redistributed(
            segs[k],
            words,
            taken_before(segs, k, words.len() as int),
            taken_before(segs, k + 1, words.len() as int),
            #[trigger] r[k],
        )
}

/// Start of share `i` of `cnt` over `[start, end]`.
fn share_at(start: u64, end: u64, i: usize, cnt: usize) -> (r: u64)
    requires
        start <= end,
        0 < cnt,
        i <= cnt,
    ensures
        r == share_start(start, end, i as int, cnt as int),
        start <= r <= end,
{
    let d: u64 = end - start;
    proof {
        let a = i as int;
        let b = d as int;
        assert(0 <= a <= 0xffff_ffff_ffff_ffff);
        assert(0 <= b <= 0xffff_ffff_ffff_ffff);
        assert(a * b <= 0xffff_ffff_ffff_ffff * 0xffff_ffff_ffff_ffff) by (nonlinear_arith)
            requires
                0 <= a <= 0xffff_ffff_ffff_ffff,
                0 <= b <= 0xffff_ffff_ffff_ffff,
        ;
    }
    let prod: u128 = (i as u128) * (d as u128);
    let q: u128 = prod / (cnt as u128);
    proof {
        vstd::arithmetic::mul::lemma_mul_inequality(i as int, cnt as int, d as int);
        vstd::arithmetic::div_mod::lemma_div_is_ordered(
            (i as int) * (d as int),
            (cnt as int) * (d as int),
            cnt as int,
        );
        vstd::arithmetic::div_mod::lemma_div_multiples_vanish(d as int, cnt as int);
        assert((cnt as int) * (d as int) == (d as int) * (cnt as int)) by (nonlinear_arith);
        assert(q <= d);
    }
    start + (q as u64)
}

proof fn lemma_taken_bounds(segs: Seq<Segment>, k: int, w: int)
    requires
        0 <= k,
        0 <= w,
    ensures
        0 <= taken_before(segs, k, w) <= w,
    decreases k,
{
    if k > 0 {
        lemma_taken_bounds(segs, k - 1, w);
    }
}

/// Hands the revised `words` out to `segments` in order: each segment takes
/// as many words as it had (the last ones what is left), keeps its span, id
/// and nothing else, and splits its span evenly between its new words.
/// Word ids count the words across the transcript.
pub fn redistribute_words(segments: &Vec<Segment>, words: &Vec<String>) -> (r: Vec<Segment>)
    requires
        segments_wf(segments@),
    ensures
        redistributed(segments@, words@.map_values(|w: String| w@), r@),
{
    let ghost ws = words@.map_values(|w: String| w@);
    let ghost segs = segments@;
    let total = words.len();
    let mut out: Vec<Segment> = Vec::new();
    let mut word_index: usize = 0;
    let mut k: usize = 0;
    while k < segments.len()
        invariant
            segs == segments@,
            ws == words@.map_values(|w: String| w@),
            total == words@.len(),
            segments_wf(segs),
            k <= segs.len(),
            out@.len() == k,
            word_index == taken_before(segs, k as int, total as int),
            word_index <= total,
            forall|j: int|
                0 <= j < k ==> segment_redistributed(
                    segs[j],
                    ws,
                    taken_before(segs, j, total as int),
                    taken_before(segs, j + 1, total as int),
                    #[trigger] out@[j],
                ),
        decreases segs.len() - k,
    {
        let seg = &segments[k];
        let n = seg.words.len();
        let cnt: usize = if n <= total - word_index {
            n
        } else {
            total - word_index
        };
        let mut taken: Vec<String> = Vec::new();
        let mut seg_words: Vec<Word> = Vec::new();
        let mut i: usize = 0;
        while i < cnt
            invariant
                seg == &segments@[k as int],
                seg.start <= seg.end,
                ws == words@.map_values(|w: String| w@),
                total == words@.len(),
                word_index + cnt <= total,
                i <= cnt,
                taken@.len() == i,
                seg_words@.len() == i,
                forall|j: int| 0 <= j < i ==> #[trigger] taken@[j]@ == ws[word_index + j],
                forall|j: int|
                    0 <= j < i ==> {
                        &&& (#[trigger] seg_words@[j]).word@ == ws[word_index + j]
                        &&& seg_words@[j].id@ == word_id((word_index + j) as nat)
                        &&& seg_words@[j].start == share_start(seg.start, seg.end, j, cnt as int)
                        &&& seg_words@[j].end == share_start(seg.start, seg.end, j + 1, cnt as int)
                    },
            decreases cnt - i,
        {
            let ws_start = share_at(seg.start, seg.end, i, cnt);
            let ws_end = share_at(seg.start, seg.end, i + 1, cnt);
            let text = words[word_index + i].clone();
            let id = word_id_string(word_index + i);
            taken.push(words[word_index + i].clone());
            seg_words.push(Word { id, word: text, start: ws_start, end: ws_end });
            i = i + 1;
        }
        let seg_text = join_with_spaces(taken.as_slice());
        proof {
            assert(taken@.map_values(|w: String| w@) =~= ws.subrange(
                word_index as int,
                word_index + cnt,
            ));
            lemma_taken_bounds(segs, k as int, total as int);
            assert(taken_before(segs, k + 1, total as int) == word_index + cnt);
        }
        out.push(
            Segment { id: seg.id, start: seg.start, end: seg.end, text: seg_text, words: seg_words },
        );
        word_index = word_index + cnt;
        k = k + 1;
    }
    out
}

/// Relies on `str::split_whitespace`: the maximal runs of characters
/// outside Unicode `White_Space`, in order.
#[verifier::external_body]
fn split_words(text: &str) -> (r: Vec<String>)
    ensures
        r@.map_values(|w: String| w@) == words_of(text@),
{
    text.split_whitespace().map(|w| w.to_string()).collect()
}

/// Spreads the words of `cleaned_text` over `original_segments`, as
/// `redistribute_words` does.
pub fn redistribute_text_to_segments(original_segments: &Vec<Segment>, cleaned_text: &str) -> (r: Vec<
    Segment,
>)
    requires
        segments_wf(original_segments@),
    ensures
        redistributed(original_segments@, words_of(cleaned_text@), r@),
{
    let words = split_words(cleaned_text);
    redistribute_words(original_segments, &words)
}

/// Uses a cleanup reply when there is one with at least one word in it;
/// otherwise keeps the segments as they were.
pub fn apply_cleanup(segments: Vec<Segment>, reply: Option<String>) -> (r: Vec<Segment>)
    requires
        segments_wf(segments@),
    ensures
        match reply {
            Some(t) => if words_of(t@).len() > 0 {
                redistributed(segments@, words_of(t@), r@)
            } else {
                r == segments
            },
            None => r == segments,
        },
{
    match reply {
        Some(t) => {
            let words = split_words(t.as_str());
            if words.len() > 0 {
                redistribute_words(&segments, &words)
            } else {
                segments
            }
        },
        None => segments,
    }
}

/// Number of words over all of `segs`.
pub open spec fn total_words(segs: Seq<Segment>) -> int
    decreases segs.len(),
{
    if segs.len() == 0 {
        0
    } else {
        total_words(segs.drop_last()) + segs.last().words@.len()
    }
}

/// Redistribution keeps every segment's span: each output segment starts
/// and ends where the matching input segment does.
pub proof fn lemma_spans_preserved(segs: Seq<Segment>, words: Seq<Seq<char>>, r: Seq<Segment>)
    requires
        redistributed(segs, words, r),
    ensures
        r.len() == segs.len(),
        forall|k: int|
            0 <= k < r.len() ==> (#[trigger] r[k]).start == segs[k].start && r[k].end
                == segs[k].end,
{
    assert forall|k: int| 0 <= k < r.len() implies (#[trigger] r[k]).start == segs[k].start
        && r[k].end == segs[k].end by {
        assert(segment_redistributed(
            segs[k],
            words,
            taken_before(segs, k, words.len() as int),
            taken_before(segs, k + 1, words.len() as int),
            r[k],
        ));
    }
}

proof fn lemma_taken_is_min(segs: Seq<Segment>, k: int, w: int)
    requires
        0 <= k <= segs.len(),
        0 <= w,
    ensures
        taken_before(segs, k, w) == if total_words(segs.take(k)) <= w {
            total_words(segs.take(k))
        } else {
            w
        },
    decreases k,
{
    if k > 0 {
        lemma_taken_is_min(segs, k - 1, w);
        assert(segs.take(k).drop_last() =~= segs.take(k - 1));
        lemma_total_words_nonneg(segs.take(k - 1));
    }
}

proof fn lemma_total_words_nonneg(segs: Seq<Segment>)
    ensures
        total_words(segs) >= 0,
    decreases segs.len(),
{
    if segs.len() > 0 {
        lemma_total_words_nonneg(segs.drop_last());
    }
}

proof fn lemma_output_words(segs: Seq<Segment>, words: Seq<Seq<char>>, r: Seq<Segment>, k: int)
    requires
        redistributed(segs, words, r),
        0 <= k <= r.len(),
    ensures
        total_words(r.take(k)) == taken_before(segs, k, words.len() as int),
    decreases k,
{
    if k > 0 {
        lemma_output_words(segs, words, r, k - 1);
        assert(r.take(k).drop_last() =~= r.take(k - 1));
        assert(segment_redistributed(
            segs[k - 1],
            words,
            taken_before(segs, k - 1, words.len() as int),
            taken_before(segs, k, words.len() as int),
            r[k - 1],
        ));
    }
}

/// Word-count conservation: the output holds as many words as the smaller
/// of the revised word count and the original word count.
pub proof fn lemma_word_count(segs: Seq<Segment>, words: Seq<Seq<char>>, r: Seq<Segment>)
    requires
        redistributed(segs, words, r),
    ensures
        total_words(r) == if words.len() <= total_words(segs) {
            words.len() as int
        } else {
            total_words(segs)
        },
{
    lemma_output_words(segs, words, r, r.len() as int);
    lemma_taken_is_min(segs, segs.len() as int, words.len() as int);
    assert(r.take(r.len() as int) =~= r);
    assert(segs.take(segs.len() as int) =~= segs);
}

/// What a word holds, as plain values: id, text, start, end.
pub open spec fn word_view(w: Word) -> (Seq<char>, Seq<char>, u64, u64) {
    (w.id@, w.word@, w.start, w.end)
}

/// Every word of `segs`, segment after segment.
pub open spec fn flat_words(segs: Seq<Segment>) -> Seq<(Seq<char>, Seq<char>, u64, u64)>
    decreases segs.len(),
{
    if segs.len() == 0 {
        Seq::empty()
    } else {
        flat_words(segs.drop_last()) + segs.last().words@.map_values(|w: Word| word_view(w))
    }
}

fn copy_word(w: &Word) -> (r: Word)
    ensures
        word_view(r) == word_view(*w),
{
    Word { id: w.id.clone(), word: w.word.clone(), start: w.start, end: w.end }
}

/// All words of the transcript in order.
pub fn all_words(segments: &Vec<Segment>) -> (r: Vec<Word>)
    ensures
        r@.map_values(|w: Word| word_view(w)) == flat_words(segments@),
{
    let mut out: Vec<Word> = Vec::new();
    let mut k: usize = 0;
    while k < segments.len()
        invariant
            k <= segments@.len(),
            out@.map_values(|w: Word| word_view(w)) == flat_words(segments@.take(k as int)),
        decreases segments@.len() - k,
    {
        let ghost before = out@.map_values(|w: Word| word_view(w));
        let ws = &segments[k].words;
        let mut i: usize = 0;
        while i < ws.len()
            invariant
                k < segments@.len(),
                ws == &segments@[k as int].words,
                i <= ws@.len(),
                out@.map_values(|w: Word| word_view(w)) == before + ws@.take(i as int).map_values(
                    |w: Word| word_view(w),
                ),
            decreases ws@.len() - i,
        {
            let w = copy_word(&ws[i]);
            let ghost prev = out@;
            out.push(w);
            proof {
                assert(out@.map_values(|w: Word| word_view(w)) =~= prev.map_values(
                    |w: Word| word_view(w),
                ).push(word_view(ws@[i as int])));
                assert(ws@.take(i + 1).map_values(|w: Word| word_view(w)) =~= ws@.take(
                    i as int,
                ).map_values(|w: Word| word_view(w)).push(word_view(ws@[i as int])));
                assert(out@.map_values(|w: Word| word_view(w)) =~= before + ws@.take(
                    i + 1,
                ).map_values(|w: Word| word_view(w)));
            }
            i = i + 1;
        }
        proof {
            assert(ws@.take(i as int) =~= ws@);
            assert(segments@.take(k + 1).drop_last() =~= segments@.take(k as int));
            assert(segments@.take(k + 1).last() == segments@[k as int]);
        }
        k = k + 1;
    }
    proof {
        assert(segments@.take(k as int) =~= segments@);
    }
    out
}

/// What the editor is handed: the segments, all their words in order, the
/// video's duration and its path.
pub fn editor_result(segments: Vec<Segment>, duration: u64, input_path: &str) -> (r: TranscriptResult)
    ensures
        r.segments == segments,
        r.words@.map_values(|w: Word| word_view(w)) == flat_words(segments@),
        r.duration == duration,
        r.input_path@ == input_path@,
{
    let words = all_words(&segments);
    TranscriptResult { segments, words, duration, input_path: String::from_str(input_path) }
}

} // verus!
