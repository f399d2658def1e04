use autovideo::interval::TimeInterval;
use autovideo::pipeline::{
    compute_stats, edited_output_path, enhanced_audio_path, export_arguments, is_silence_list, next_state,
    pcm_path, stage_completion_announced, stage_is_announced, stage_name, stage_of, PipelineConfig, PipelineStage, RunState,
};

fn iv(start: u64, end: u64) -> TimeInterval {
    TimeInterval::new(start, end)
}

#[test]
fn default_config() {
    let c = PipelineConfig::default();
    assert!(c.enhance_audio && c.cut_silences);
    assert_eq!((c.silence_threshold_centi_db, c.silence_min_duration, c.cut_margin), (-3000, 500_000, 200_000));
    assert!(c.language.is_none());
}

#[test]
fn states_follow_in_order() {
    let c = PipelineConfig::default();
    assert_eq!(next_state(RunState::Transcribing, true, &c, false), RunState::DetectingSilences);
    assert_eq!(next_state(RunState::DetectingSilences, true, &c, true), RunState::CuttingSilences);
    assert_eq!(next_state(RunState::DetectingSilences, true, &c, false), RunState::EnhancingOnly);
    let plain = PipelineConfig { enhance_audio: false, cut_silences: false, ..PipelineConfig::default() };
    assert_eq!(next_state(RunState::DetectingSilences, true, &plain, true), RunState::CopyOnly);
    assert_eq!(next_state(RunState::CuttingSilences, true, &c, true), RunState::Done);
    assert_eq!(next_state(RunState::EnhancingOnly, false, &c, true), RunState::Failed);
    assert_eq!(next_state(RunState::Failed, true, &c, true), RunState::Failed);
    assert_eq!(next_state(RunState::Done, false, &c, true), RunState::Done);
}

#[test]
fn stage_names() {
    assert_eq!(stage_of(RunState::Transcribing), Some(PipelineStage::Transcribe));
    assert_eq!(stage_of(RunState::CopyOnly), Some(PipelineStage::Export));
    assert_eq!(stage_of(RunState::Done), None);
    assert_eq!(stage_name(PipelineStage::DetectSilences), "detect_silences");
    assert_eq!(stage_name(PipelineStage::CutSilences), "cut_silences");
    assert!(stage_is_announced(PipelineStage::EnhanceAudio));
    assert!(!stage_is_announced(PipelineStage::Export));
    assert!(!stage_completion_announced(PipelineStage::Transcribe));
    assert!(stage_completion_announced(PipelineStage::CutSilences));
    assert!(!stage_completion_announced(PipelineStage::Export));
}

#[test]
fn stats_sum_the_silences() {
    let s = vec![iv(1_000_000, 2_000_000), iv(3_000_000, 3_500_000)];
    let st = compute_stats(10_000_000, 42, 8_500_000, &s);
    assert_eq!(st.removed_silence_duration, 1_500_000);
    assert_eq!(st.silence_basis_points, 1500);
    assert_eq!((st.original_duration, st.original_size_bytes, st.processed_duration), (10_000_000, 42, 8_500_000));
    assert_eq!(compute_stats(0, 0, 0, &Vec::new()).silence_basis_points, 0);
    // A reversed span counts nothing; an unordered list is still summed.
    let odd = vec![iv(5_000_000, 4_000_000), iv(1_000_000, 3_000_000), iv(0, 500_000)];
    let st = compute_stats(10_000_000, 0, 0, &odd);
    assert_eq!(st.removed_silence_duration, 2_500_000);
    assert_eq!(st.silence_basis_points, 2500);
}

#[test]
fn silence_list_check() {
    assert!(is_silence_list(&vec![iv(1, 2), iv(2, 5)]));
    assert!(!is_silence_list(&vec![iv(1, 3), iv(2, 5)]));
    assert!(!is_silence_list(&vec![iv(3, 1)]));
}

#[test]
fn export_picks_the_stage() {
    let c = PipelineConfig::default();
    let s = vec![iv(2_000_000, 3_000_000)];
    let a = export_arguments("in.mp4", "out.mp4", &c, &s, 10_000_000);
    assert_eq!(a[3], "select='between(t,0,2.2)+between(t,2.8,10)',setpts=N/FRAME_RATE/TB");
    let a = export_arguments("in.mp4", "out.mp4", &c, &Vec::new(), 10_000_000);
    assert_eq!(a[3], "afftdn=nf=-25,loudnorm=I=-16:TP=-1.5:LRA=11");
    let plain = PipelineConfig { enhance_audio: false, ..PipelineConfig::default() };
    let a = export_arguments("in.mp4", "out.mp4", &plain, &Vec::new(), 10_000_000);
    assert_eq!(a[5], "aac");
}

#[test]
fn derived_paths() {
    assert_eq!(pcm_path("/v/a.mp4"), "/v/a.mp4.pcm");
    assert_eq!(enhanced_audio_path("/v/a.mp4"), "/v/a.mp4.enhanced.aac");
    assert_eq!(edited_output_path("/v/a.mp4"), "/v/a_edited.mp4");
    assert_eq!(edited_output_path("/v/a.MP4"), "/v/a_edited.mp4");
    assert_eq!(edited_output_path("/v/a.mp4.mp4"), "/v/a_edited.mp4");
    assert_eq!(edited_output_path("/v/a.mp4.MP4"), "/v/a.mp4_edited.mp4");
    assert_eq!(edited_output_path("/v/a.mov"), "/v/a.mov_edited.mp4");
    assert_eq!(edited_output_path(".mp4"), "_edited.mp4");
}
