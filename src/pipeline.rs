use vstd::prelude::*;
use vstd::string::{StrSliceExecFns, StringExecFns};
use crate::command::{copy_args, copy_video, cut_args, cut_silences_and_export, enhance_args, enhance_audio};
use crate::interval::TimeInterval;
use crate::keep::{compute_keep_ranges, keep_ranges, lemma_sorted_take, silences_sorted, total_silence};
use crate::transcript::Transcript;

verus! {

/// Settings of one run. Times are microseconds; the silence threshold is in
/// hundredths of a dB, signed as ffmpeg takes it (negative below full
/// scale).
#[derive(Clone, Debug)]
pub struct PipelineConfig {
    pub enhance_audio: bool,
    pub cut_silences: bool,
    pub silence_threshold_centi_db: i64,
    pub silence_min_duration: u64,
    pub cut_margin: u64,
    pub language: Option<String>,
}

impl Default for PipelineConfig {
    fn default() -> (r: PipelineConfig)
        ensures
            r.enhance_audio,
            r.cut_silences,
            r.silence_threshold_centi_db == -3000,
            r.silence_min_duration == 500_000,
            r.cut_margin == 200_000,
            r.language is None,
    {
        PipelineConfig {
            enhance_audio: true,
            cut_silences: true,
            silence_threshold_centi_db: -3000,
            silence_min_duration: 500_000,
            cut_margin: 200_000,
            language: None,
        }
    }
}

/// Figures reported at the end of a run. Durations are microseconds; the
/// share of silence is in hundredths of a percent.
#[derive(Clone, Copy, Debug, PartialEq, Eq, Structural)]
pub struct TranscriptStats {
    pub original_duration: u64,
    pub original_size_bytes: u64,
    pub processed_duration: u64,
    pub removed_silence_duration: u64,
    pub silence_basis_points: u64,
}

/// The outcome of a successful run.
#[derive(Clone, Debug)]
pub struct PipelineResult {
    pub output_path: String,
    pub transcript: Transcript,
    pub stats: TranscriptStats,
}

/// Notifications sent to the caller while a run goes on. Progress is in
/// thousandths.
#[derive(Clone, Debug)]
pub enum PipelineEvent {
    StageStarted { stage: String },
    StageProgress { stage: String, progress_permille: u32 },
    StageCompleted { stage: String },
    StageFailed { stage: String, error: String },
    PipelineCompleted { result: PipelineResult },
    PipelineFailed { error: String },
}

/// The stages of a run.
#[derive(Clone, Copy, Debug, PartialEq, Eq, Structural)]
pub enum PipelineStage {
    Transcribe,
    DetectSilences,
    EnhanceAudio,
    CutSilences,
    Export,
}

/// Where a run stands.
#[derive(Clone, Copy, Debug, PartialEq, Eq, Structural)]
pub enum RunState {
    Transcribing,
    DetectingSilences,
    CuttingSilences,
    EnhancingOnly,
    CopyOnly,
    Done,
    Failed,
}

pub open spec fn next_state_spec(
    state: RunState,
    succeeded: bool,
    cut_silences: bool,
    enhance_audio: bool,
    silences_found: bool,
) -> RunState {
    match state {
        RunState::Done => RunState::Done,
        RunState::Failed => RunState::Failed,
        _ => if !succeeded {
            RunState::Failed
        } else {
            match state {
                RunState::Transcribing => RunState::DetectingSilences,
                RunState::DetectingSilences => if cut_silences && silences_found {
                    RunState::CuttingSilences
                } else if enhance_audio {
                    RunState::EnhancingOnly
                } else {
                    RunState::CopyOnly
                },
                _ => RunState::Done,
            }
        },
    }
}

/// The state after the current stage ended. Stages follow one another
/// without going back: transcription, silence detection, then one of
/// cutting (when cutting is on and silences were found), enhancing only
/// (when enhancement is on) or copying, then done. Any failure ends the run.
pub fn next_state(state: RunState, succeeded: bool, config: &PipelineConfig, silences_found: bool) -> (r:
    RunState)
    ensures
        r == next_state_spec(
            state,
            succeeded,
            config.cut_silences,
            config.enhance_audio,
            silences_found,
        ),
{
    match state {
        RunState::Done => RunState::Done,
        RunState::Failed => RunState::Failed,
        _ => {
            if !succeeded {
                RunState::Failed
            } else {
                match state {
                    RunState::Transcribing => RunState::DetectingSilences,
                    RunState::DetectingSilences => {
                        if config.cut_silences && silences_found {
                            RunState::CuttingSilences
                        } else if config.enhance_audio {
                            RunState::EnhancingOnly
                        } else {
                            RunState::CopyOnly
                        }
                    },
                    _ => RunState::Done,
                }
            }
        },
    }
}

/// The stage that a state runs, if it runs one.
pub fn stage_of(state: RunState) -> (r: Option<PipelineStage>)
    ensures
        r == match state {
            RunState::Transcribing => Some(PipelineStage::Transcribe),
            RunState::DetectingSilences => Some(PipelineStage::DetectSilences),
            RunState::CuttingSilences => Some(PipelineStage::CutSilences),
            RunState::EnhancingOnly => Some(PipelineStage::EnhanceAudio),
            RunState::CopyOnly => Some(PipelineStage::Export),
            _ => None::<PipelineStage>,
        },
{
    match state {
        RunState::Transcribing => Some(PipelineStage::Transcribe),
        RunState::DetectingSilences => Some(PipelineStage::DetectSilences),
        RunState::CuttingSilences => Some(PipelineStage::CutSilences),
        RunState::EnhancingOnly => Some(PipelineStage::EnhanceAudio),
        RunState::CopyOnly => Some(PipelineStage::Export),
        _ => None,
    }
}

pub open spec fn stage_name_spec(stage: PipelineStage) -> Seq<char> {
    match stage {
        PipelineStage::Transcribe => "transcribe"@,
        PipelineStage::DetectSilences => "detect_silences"@,
        PipelineStage::EnhanceAudio => "enhance_audio"@,
        PipelineStage::CutSilences => "cut_silences"@,
        PipelineStage::Export => "export"@,
    }
}

/// The name that notifications give a stage.
pub fn stage_name(stage: PipelineStage) -> (r: String)
    ensures
        r@ == stage_name_spec(stage),
{
    match stage {
        PipelineStage::Transcribe => String::from_str("transcribe"),
        PipelineStage::DetectSilences => String::from_str("detect_silences"),
        PipelineStage::EnhanceAudio => String::from_str("enhance_audio"),
        PipelineStage::CutSilences => String::from_str("cut_silences"),
        PipelineStage::Export => String::from_str("export"),
    }
}

/// Whether a stage's start and end are announced (copying is silent).
pub fn stage_is_announced(stage: PipelineStage) -> (r: bool)
    ensures
        r == (stage != PipelineStage::Export),
{
    match stage {
        PipelineStage::Export => false,
        _ => true,
    }
}

/// Whether a stage's successful end is announced: transcription reports
/// progress to completion instead, and copying is silent.
pub fn stage_completion_announced(stage: PipelineStage) -> (r: bool)
    ensures
        r == (stage != PipelineStage::Transcribe && stage != PipelineStage::Export),
{
    match stage {
        PipelineStage::Transcribe => false,
        PipelineStage::Export => false,
        _ => true,
    }
}

/// Whether `silences` is a valid silence list: well-formed intervals in
/// order, without overlap.
pub fn is_silence_list(silences: &Vec<TimeInterval>) -> (r: bool)
    ensures
        r == silences_sorted(silences@),
{
    let mut i: usize = 0;
    while i < silences.len()
        invariant
            i <= silences@.len(),
            forall|j: int| 0 <= j < i ==> #[trigger] silences@[j].start <= silences@[j].end,
            forall|j: int| 0 < j < i ==> #[trigger] silences@[j - 1].end <= silences@[j].start,
        decreases silences@.len() - i,
    {
        if silences[i].start > silences[i].end {
            return false;
        }
        if i > 0 && silences[i - 1].end > silences[i].start {
            return false;
        }
        i = i + 1;
    }
    true
}

/// The ffmpeg arguments of the export stage: cut to the keep ranges when
/// cutting is on and there are silences, else enhance when enhancement is
/// on, else copy.
pub fn export_arguments(
    input_path: &str,
    output_path: &str,
    config: &PipelineConfig,
    silences: &Vec<TimeInterval>,
    duration: u64,
) -> (r: Vec<String>)
    ensures
        r@.map_values(|s: String| s@) == if config.cut_silences && silences@.len() > 0 {
            cut_args(
                input_path@,
                keep_ranges(silences@, duration, config.cut_margin),
                output_path@,
                config.enhance_audio,
            )
        } else if config.enhance_audio {
            enhance_args(input_path@, output_path@)
        } else {
            copy_args(input_path@, output_path@)
        },
{
    if config.cut_silences && silences.len() > 0 {
        let ranges = compute_keep_ranges(silences, duration, config.cut_margin);
        cut_silences_and_export(input_path, &ranges, output_path, config.enhance_audio)
    } else if config.enhance_audio {
        enhance_audio(input_path, output_path)
    } else {
        copy_video(input_path, output_path)
    }
}

proof fn lemma_total_silence_bound(sil: Seq<TimeInterval>)
    requires
        silences_sorted(sil),
        sil.len() > 0,
    ensures
        0 <= total_silence(sil) <= sil.last().end,
    decreases sil.len(),
{
    let n = sil.len() as int;
    assert(sil[n - 1].start <= sil[n - 1].end);
    assert(sil.last() == sil[n - 1]);
    if n == 1 {
        assert(sil.drop_last().len() == 0);
        assert(total_silence(sil.drop_last()) == 0);
    } else {
        let p = sil.drop_last();
        lemma_sorted_take(sil, n - 1);
        assert(sil.take(n - 1) =~= p);
        lemma_total_silence_bound(p);
        assert(p.last() == sil[n - 2]);
        assert(sil[n - 2].end <= sil[n - 1].start);
    }
}

/// Share of `part` in `whole`, in hundredths of a percent (zero for an
/// empty whole, capped at `u64::MAX`).
pub open spec fn basis_points(part: int, whole: int) -> int {
    if whole <= 0 {
        0
    } else if part * 10000 / whole > u64::MAX {
        u64::MAX as int
    } else {
        part * 10000 / whole
    }
}

/// What a silence counts towards the removed total: its length, or
/// nothing for a reversed span.
pub open spec fn silence_len(iv: TimeInterval) -> int {
    if iv.start <= iv.end {
        iv.end - iv.start
    } else {
        0
    }
}

/// Sum of `silence_len` over `sil`.
pub open spec fn counted_silence(sil: Seq<TimeInterval>) -> int
    decreases sil.len(),
{
    if sil.len() == 0 {
        0
    } else {
        counted_silence(sil.drop_last()) + silence_len(sil.last())
    }
}

proof fn lemma_counted_is_total(sil: Seq<TimeInterval>)
    requires
        silences_sorted(sil),
    ensures
        counted_silence(sil) == total_silence(sil),
    decreases sil.len(),
{
    if sil.len() > 0 {
        let n = sil.len() as int;
        lemma_sorted_take(sil, n - 1);
        assert(sil.take(n - 1) =~= sil.drop_last());
        lemma_counted_is_total(sil.drop_last());
        assert(sil.last() == sil[n - 1]);
    }
}

proof fn lemma_counted_nonneg(sil: Seq<TimeInterval>)
    ensures
        counted_silence(sil) >= 0,
    decreases sil.len(),
{
    if sil.len() > 0 {
        lemma_counted_nonneg(sil.drop_last());
    }
}

/// The figures of a finished run. The silence removed is the sum of the
/// detected silences (reversed spans count nothing; the sum stops at
/// `u64::MAX`, which a valid silence list never reaches).
pub fn compute_stats(
    original_duration: u64,
    original_size_bytes: u64,
    processed_duration: u64,
    silences: &Vec<TimeInterval>,
) -> (r: TranscriptStats)
    ensures
        r.original_duration == original_duration,
        r.original_size_bytes == original_size_bytes,
        r.processed_duration == processed_duration,
        r.removed_silence_duration == if counted_silence(silences@) <= u64::MAX {
            counted_silence(silences@)
        } else {
            u64::MAX as int
        },
        silences_sorted(silences@) ==> r.removed_silence_duration == total_silence(silences@),
        r.silence_basis_points == basis_points(
            r.removed_silence_duration as int,
            original_duration as int,
        ),
{
    let mut total: u64 = 0;
    let mut i: usize = 0;
    while i < silences.len()
        invariant
            i <= silences@.len(),
            total == if counted_silence(silences@.take(i as int)) <= u64::MAX {
                counted_silence(silences@.take(i as int))
            } else {
                u64::MAX as int
            },
        decreases silences@.len() - i,
    {
        proof {
            let t = silences@.take(i + 1);
            assert(t.drop_last() =~= silences@.take(i as int));
            assert(t.last() == silences@[i as int]);
            lemma_counted_nonneg(silences@.take(i as int));
        }
        let iv = silences[i];
        let len: u64 = if iv.start <= iv.end {
            iv.end - iv.start
        } else {
            0
        };
        total = if len > u64::MAX - total {
            u64::MAX
        } else {
            total + len
        };
        i = i + 1;
    }
    proof {
        assert(silences@.take(i as int) =~= silences@);
        if silences_sorted(silences@) {
            lemma_counted_is_total(silences@);
            if silences@.len() > 0 {
                lemma_total_silence_bound(silences@);
            }
        }
    }
    let bp: u64 = if original_duration == 0 {
        0
    } else {
        let q: u128 = (total as u128) * 10000 / (original_duration as u128);
        if q > u64::MAX as u128 {
            u64::MAX
        } else {
            q as u64
        }
    };
    TranscriptStats {
        original_duration,
        original_size_bytes,
        processed_duration,
        removed_silence_duration: total,
        silence_basis_points: bp,
    }
}

/// `s` with every trailing copy of `suffix` taken off.
pub open spec fn strip_suffixes(s: Seq<char>, suffix: Seq<char>) -> Seq<char>
    decreases s.len(),
{
    if suffix.len() > 0 && suffix.len() <= s.len() && s.subrange(
        s.len() - suffix.len(),
        s.len() as int,
    ) == suffix {
        strip_suffixes(s.subrange(0, s.len() - suffix.len()), suffix)
    } else {
        s
    }
}

/// Scratch file for the extracted audio: `<input>.pcm`.
pub fn pcm_path(input_path: &str) -> (r: String)
    ensures
        r@ == input_path@ + ".pcm"@,
{
    let mut s = String::from_str(input_path);
    s.append(".pcm");
    s
}

/// Scratch file for enhanced audio: `<input>.enhanced.aac`.
pub fn enhanced_audio_path(input_path: &str) -> (r: String)
    ensures
        r@ == input_path@ + ".enhanced.aac"@,
{
    let mut s = String::from_str(input_path);
    s.append(".enhanced.aac");
    s
}

fn ends_with_at(s: &str, e: usize, a: char, b: char, c: char, d: char) -> (r: bool)
    requires
        4 <= e <= s@.len(),
    ensures
        r == (s@.subrange(e - 4, e as int) == seq![a, b, c, d]),
{
    let r = s.get_char(e - 4) == a && s.get_char(e - 3) == b && s.get_char(e - 2) == c
        && s.get_char(e - 1) == d;
    proof {
        if r {
            assert(s@.subrange(e - 4, e as int) =~= seq![a, b, c, d]);
        } else if s@.subrange(e - 4, e as int) == seq![a, b, c, d] {
            assert(s@.subrange(e - 4, e as int)[0] == a);
            assert(s@.subrange(e - 4, e as int)[1] == b);
            assert(s@.subrange(e - 4, e as int)[2] == c);
            assert(s@.subrange(e - 4, e as int)[3] == d);
        }
    }
    r
}

/// Where the edited video goes: the input path with any trailing `.mp4`,
/// then any trailing `.MP4`, taken off, followed by `_edited.mp4`.
pub fn edited_output_path(input_path: &str) -> (r: String)
    ensures
        r@ == strip_suffixes(strip_suffixes(input_path@, seq!['.', 'm', 'p', '4']), seq!['.', 'M', 'P', '4'])
            + "_edited.mp4"@,
{
    let ghost lower = seq!['.', 'm', 'p', '4'];
    let ghost upper = seq!['.', 'M', 'P', '4'];
    let n = input_path.unicode_len();
    let mut e: usize = n;
    proof {
        assert(input_path@.subrange(0, n as int) =~= input_path@);
        assert(lower.len() == 4);
        assert(upper.len() == 4);
    }
    while e >= 4 && ends_with_at(input_path, e, '.', 'm', 'p', '4')
        invariant
            e <= n == input_path@.len(),
            lower == seq!['.', 'm', 'p', '4'],
            strip_suffixes(input_path@, lower) == strip_suffixes(input_path@.subrange(0, e as int), lower),
        decreases e,
    {
        proof {
            let t = input_path@.subrange(0, e as int);
            assert(t.subrange(t.len() - 4, t.len() as int) =~= input_path@.subrange(e - 4, e as int));
            assert(t.subrange(0, t.len() - 4) =~= input_path@.subrange(0, e - 4));
        }
        e = e - 4;
    }
    proof {
        let t = input_path@.subrange(0, e as int);
        if e >= 4 {
            assert(t.subrange(t.len() - 4, t.len() as int) =~= input_path@.subrange(e - 4, e as int));
        }
        assert(strip_suffixes(t, lower) == t);
        assert(strip_suffixes(input_path@, lower) == t);
    }
    let ghost mid = input_path@.subrange(0, e as int);
    while e >= 4 && ends_with_at(input_path, e, '.', 'M', 'P', '4')
        invariant
            e <= n == input_path@.len(),
            upper == seq!['.', 'M', 'P', '4'],
            strip_suffixes(mid, upper) == strip_suffixes(input_path@.subrange(0, e as int), upper),
        decreases e,
    {
        proof {
            let t = input_path@.subrange(0, e as int);
            assert(t.subrange(t.len() - 4, t.len() as int) =~= input_path@.subrange(e - 4, e as int));
            assert(t.subrange(0, t.len() - 4) =~= input_path@.subrange(0, e - 4));
        }
        e = e - 4;
    }
    proof {
        let t = input_path@.subrange(0, e as int);
        if e >= 4 {
            assert(t.subrange(t.len() - 4, t.len() as int) =~= input_path@.subrange(e - 4, e as int));
        }
        assert(strip_suffixes(t, upper) == t);
    }
    let stem = input_path.substring_char(0, e);
    let mut s = String::from_str(stem);
    s.append("_edited.mp4");
    s
}

} // verus!
