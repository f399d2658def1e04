use vstd::prelude::*;
use vstd::string::StrSliceExecFns;
use crate::text::{join_words, join_with_spaces, trimmed};
use crate::transcript::{Segment, Word, word_id, word_id_string};
use crate::interval::{max_u64, min_u64};

verus! {

/// A token as the speech recognizer reports it, timed in centiseconds.
#[derive(Clone, Debug)]
pub struct RawToken {
    pub text: String,
    pub t0: i64,
    pub t1: i64,
}

/// A segment as the speech recognizer reports it, timed in centiseconds.
#[derive(Clone, Debug)]
pub struct RawSegment {
    pub t0: i64,
    pub t1: i64,
    pub text: String,
    pub tokens: Vec<RawToken>,
}

/// Largest centisecond count whose microseconds fit in an `i64`.
pub const MAX_CENTIS: i64 = 922_337_203_685_477;

/// Centiseconds as microseconds, negatives taken as zero and values past
/// `MAX_CENTIS` as `MAX_CENTIS`.
pub open spec fn centis_to_micros(t: i64) -> u64 {
    if t < 0 {
        0
    } else if t > MAX_CENTIS {
        (MAX_CENTIS * 10_000) as u64
    } else {
        (t * 10_000) as u64
    }
}

/// Relies on `str::trim`: the text without leading and trailing Unicode
/// `White_Space`.
#[verifier::external_body]
fn trim_text(s: &str) -> (r: String)
    ensures
        r@ == trimmed(s@),
{
    s.trim().to_string()
}

/// A control token: its text opens with `[` or `<`.
pub open spec fn is_control(text: Seq<char>) -> bool {
    text.len() > 0 && (text[0] == '[' || text[0] == '<')
}

/// The word a token makes within a segment spanning `[lo, hi]`, if any.
/// Control tokens, tokens whose times are negative, not increasing or out
/// of range, and tokens with nothing left after trimming make none. The
/// word's times are clamped into the span; a word left with no time in it
/// is dropped.
pub open spec fn token_word(tok: RawToken, lo: u64, hi: u64) -> Option<(Seq<char>, u64, u64)> {
    let s = max_u64(centis_to_micros(tok.t0), lo);
    let e = min_u64(centis_to_micros(tok.t1), hi);
    if is_control(tok.text@) || tok.t0 < 0 || tok.t1 <= tok.t0 || tok.t1 > MAX_CENTIS
        || trimmed(tok.text@).len() == 0 || e <= s {
        None
    } else {
        Some((trimmed(tok.text@), s, e))
    }
}

/// The words that `toks` make within `[lo, hi]`, in order.
pub open spec fn token_words(toks: Seq<RawToken>, lo: u64, hi: u64) -> Seq<(Seq<char>, u64, u64)>
    decreases toks.len(),
{
    if toks.len() == 0 {
        Seq::empty()
    } else {
        match token_word(toks.last(), lo, hi) {
            Some(w) => token_words(toks.drop_last(), lo, hi).push(w),
            None => token_words(toks.drop_last(), lo, hi),
        }
    }
}

/// The span of a recognizer segment, in microseconds.
pub open spec fn seg_lo(seg: RawSegment) -> u64 {
    centis_to_micros(seg.t0)
}

pub open spec fn seg_hi(seg: RawSegment) -> u64 {
    centis_to_micros(seg.t1)
}

/// `words` are the words of `seg`'s tokens, numbered from `first`; each
/// lies inside the segment's span.
pub open spec fn words_numbered(words: Seq<Word>, seg: RawSegment, first: int) -> bool {
    let ws = token_words(seg.tokens@, seg_lo(seg), seg_hi(seg));
    &&& words.len() == ws.len()
    &&& forall|i: int|
        0 <= i < words.len() ==> {
            &&& (#[trigger] words[i]).word@ == ws[i].0
            &&& words[i].start == ws[i].1
            &&& words[i].end == ws[i].2
            &&& words[i].id@ == word_id((first + i) as nat)
            &&& seg_lo(seg) <= words[i].start < words[i].end <= seg_hi(seg)
        }
}

proof fn lemma_token_words_len(toks: Seq<RawToken>, lo: u64, hi: u64)
    ensures
        token_words(toks, lo, hi).len() <= toks.len(),
    decreases toks.len(),
{
    if toks.len() > 0 {
        lemma_token_words_len(toks.drop_last(), lo, hi);
    }
}

/// The words of one recognizer segment, inside its span. Ids continue
/// from `global_word_index`, which moves past the words made.
pub fn extract_words_from_segment(segment: &RawSegment, global_word_index: &mut usize) -> (r: Vec<
    Word,
>)
    requires
        *old(global_word_index) + segment.tokens@.len() <= usize::MAX,
    ensures
        words_numbered(r@, *segment, *old(global_word_index) as int),
        *final(global_word_index) == *old(global_word_index) + r@.len(),
{
    let ghost first = *global_word_index as int;
    let tokens = &segment.tokens;
    let lo = centis_micros(segment.t0);
    let hi = centis_micros(segment.t1);
    let mut words: Vec<Word> = Vec::new();
    let mut i: usize = 0;
    while i < tokens.len()
        invariant
            tokens == &segment.tokens,
            lo == seg_lo(*segment),
            hi == seg_hi(*segment),
            i <= tokens@.len(),
            first + tokens@.len() <= usize::MAX,
            *global_word_index == first + words@.len(),
            words@.len() == token_words(tokens@.take(i as int), lo, hi).len(),
            forall|j: int|
                0 <= j < words@.len() ==> {
                    let ws = token_words(tokens@.take(i as int), lo, hi);
                    &&& (#[trigger] words@[j]).word@ == ws[j].0
                    &&& words@[j].start == ws[j].1
                    &&& words@[j].end == ws[j].2
                    &&& words@[j].id@ == word_id((first + j) as nat)
                    &&& lo <= words@[j].start < words@[j].end <= hi
                },
        decreases tokens@.len() - i,
    {
        let tok = &tokens[i];
        proof {
            assert(tokens@.take(i + 1).drop_last() =~= tokens@.take(i as int));
            assert(tokens@.take(i + 1).last() == tokens@[i as int]);
            lemma_token_words_len(tokens@.take(i as int), lo, hi);
        }
        let n = tok.text.as_str().unicode_len();
        let control = n > 0 && (tok.text.as_str().get_char(0) == '[' || tok.text.as_str().get_char(0)
            == '<');
        if !control && tok.t0 >= 0 && tok.t1 > tok.t0 && tok.t1 <= MAX_CENTIS {
            let t = trim_text(tok.text.as_str());
            let raw_start = (tok.t0 * 10_000) as u64;
            let raw_end = (tok.t1 * 10_000) as u64;
            let start = if raw_start >= lo {
                raw_start
            } else {
                lo
            };
            let end = if raw_end <= hi {
                raw_end
            } else {
                hi
            };
            if t.as_str().unicode_len() > 0 && start < end {
                let id = word_id_string(*global_word_index);
                words.push(Word { id, word: t, start, end });
                *global_word_index = *global_word_index + 1;
            }
        }
        proof {
            let ws = token_words(tokens@.take(i + 1), lo, hi);
            assert forall|j: int| 0 <= j < words@.len() implies {
                &&& (#[trigger] words@[j]).word@ == ws[j].0
                &&& words@[j].start == ws[j].1
                &&& words@[j].end == ws[j].2
                &&& words@[j].id@ == word_id((first + j) as nat)
                &&& lo <= words@[j].start < words@[j].end <= hi
            } by {}
        }
        i = i + 1;
    }
    proof {
        assert(tokens@.take(i as int) =~= tokens@);
    }
    words
}

/// `segs` are the segments of `raw` with their token words, numbered in
/// order from zero.
pub open spec fn segments_built(segs: Seq<Segment>, raw: Seq<RawSegment>) -> bool {
    &&& segs.len() == raw.len()
    &&& forall|k: int|
        0 <= k < raw.len() ==> {
            &&& (#[trigger] segs[k]).id == k
            &&& segs[k].start == centis_to_micros(raw[k].t0)
            &&& segs[k].end == centis_to_micros(raw[k].t1)
            &&& segs[k].text@ == raw[k].text@
            &&& words_numbered(segs[k].words@, raw[k], words_before(raw, k))
            &&& forall|i: int|
                0 <= i < segs[k].words@.len() ==> segs[k].start <= (
                #[trigger] segs[k].words@[i]).start && segs[k].words@[i].end <= segs[k].end
        }
}

/// How many tokens the segments of `raw` before `k` hold.
pub open spec fn tokens_before(raw: Seq<RawSegment>, k: int) -> int
    decreases k,
{
    if k <= 0 {
        0
    } else {
        tokens_before(raw, k - 1) + raw[k - 1].tokens@.len()
    }
}

/// How many words the segments of `raw` before `k` make.
pub open spec fn words_before(raw: Seq<RawSegment>, k: int) -> int
    decreases k,
{
    if k <= 0 {
        0
    } else {
        words_before(raw, k - 1) + token_words(
            raw[k - 1].tokens@,
            seg_lo(raw[k - 1]),
            seg_hi(raw[k - 1]),
        ).len()
    }
}

fn centis_micros(t: i64) -> (r: u64)
    ensures
        r == centis_to_micros(t),
{
    if t < 0 {
        0
    } else if t > MAX_CENTIS {
        (MAX_CENTIS * 10_000) as u64
    } else {
        (t * 10_000) as u64
    }
}

/// Segments with word-level timing from the recognizer's output; word ids
/// run across the whole transcript.
pub fn extract_segments_with_words(raw: &Vec<RawSegment>) -> (r: Vec<Segment>)
    requires
        tokens_before(raw@, raw@.len() as int) <= usize::MAX,
    ensures
        segments_built(r@, raw@),
{
    let mut out: Vec<Segment> = Vec::new();
    let mut global: usize = 0;
    let mut k: usize = 0;
    while k < raw.len()
        invariant
            k <= raw@.len(),
            tokens_before(raw@, raw@.len() as int) <= usize::MAX,
            out@.len() == k,
            global == words_before(raw@, k as int),
            forall|j: int|
                0 <= j < k ==> {
                    &&& (#[trigger] out@[j]).id == j
                    &&& out@[j].start == centis_to_micros(raw@[j].t0)
                    &&& out@[j].end == centis_to_micros(raw@[j].t1)
                    &&& out@[j].text@ == raw@[j].text@
                    &&& words_numbered(out@[j].words@, raw@[j], words_before(raw@, j))
                },
        decreases raw@.len() - k,
    {
        let seg = &raw[k];
        proof {
            lemma_tokens_before_grows(raw@, k + 1, raw@.len() as int);
            lemma_words_within_tokens(raw@, k as int);
        }
        let words = extract_words_from_segment(seg, &mut global);
        out.push(
            Segment {
                id: k,
                start: centis_micros(seg.t0),
                end: centis_micros(seg.t1),
                text: seg.text.clone(),
                words,
            },
        );
        k = k + 1;
    }
    out
}

proof fn lemma_tokens_before_grows(raw: Seq<RawSegment>, i: int, j: int)
    requires
        0 <= i <= j <= raw.len(),
    ensures
        tokens_before(raw, i) <= tokens_before(raw, j),
    decreases j - i,
{
    if i < j {
        lemma_tokens_before_grows(raw, i, j - 1);
    }
}

proof fn lemma_words_within_tokens(raw: Seq<RawSegment>, k: int)
    requires
        0 <= k <= raw.len(),
    ensures
        words_before(raw, k) <= tokens_before(raw, k),
    decreases k,
{
    if k > 0 {
        lemma_words_within_tokens(raw, k - 1);
        lemma_token_words_len(raw[k - 1].tokens@, seg_lo(raw[k - 1]), seg_hi(raw[k - 1]));
    }
}

/// The segment texts joined by spaces: what a text cleanup pass is given.
pub fn full_text(segments: &Vec<Segment>) -> (r: String)
    ensures
        r@ == join_words(segments@.map_values(|s: Segment| s.text@)),
{
    let mut texts: Vec<String> = Vec::new();
    let mut k: usize = 0;
    while k < segments.len()
        invariant
            k <= segments@.len(),
            texts@.len() == k,
            forall|j: int| 0 <= j < k ==> #[trigger] texts@[j]@ == segments@[j].text@,
        decreases segments@.len() - k,
    {
        texts.push(segments[k].text.clone());
        k = k + 1;
    }
    let r = join_with_spaces(texts.as_slice());
    proof {
        assert(texts@.map_values(|w: String| w@) =~= segments@.map_values(|s: Segment| s.text@));
    }
    r
}

} // verus!
