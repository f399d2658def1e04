use vstd::prelude::*;
use vstd::string::StringExecFns;
use crate::interval::TimeInterval;
use crate::text::{decimal, decimal_string, digit_char, digit_string};

verus! {

/// The last `k` decimal digits of `f`, zero-padded.
pub open spec fn digits_fixed(f: nat, k: nat) -> Seq<char>
    decreases k,
{
    if k == 0 {
        Seq::empty()
    } else {
        digits_fixed(f / 10, (k - 1) as nat).push(digit_char((f % 10) as int))
    }
}

/// `s` without its trailing zeros.
pub open spec fn trim_zeros(s: Seq<char>) -> Seq<char>
    decreases s.len(),
{
    if s.len() > 0 && s.last() == '0' {
        trim_zeros(s.drop_last())
    } else {
        s
    }
}

/// `v` units of `1 / scale` written in decimal with `places` places: the
/// whole part, then a dot and the fraction without trailing zeros when
/// there is one.
pub open spec fn fixed_point_text(v: nat, places: nat, scale: nat) -> Seq<char> {
    let frac = trim_zeros(digits_fixed(v % scale, places));
    if frac.len() == 0 {
        decimal(v / scale)
    } else {
        decimal(v / scale) + seq!['.'] + frac
    }
}

/// Microseconds written as seconds (`2200000` is `2.2`, `10000000` is
/// `10`).
pub open spec fn seconds_text(us: nat) -> Seq<char> {
    fixed_point_text(us, 6, 1_000_000)
}

/// Hundredths of a decibel written as decibels, with a minus sign when
/// negative (`-3050` is `-30.5`).
pub open spec fn db_text(centi_db: int) -> Seq<char> {
    if centi_db < 0 {
        seq!['-'] + fixed_point_text((-centi_db) as nat, 2, 100)
    } else {
        fixed_point_text(centi_db as nat, 2, 100)
    }
}

/// The test that keeps one range: `between(t,<start>,<end>)`.
pub open spec fn between_text(iv: TimeInterval) -> Seq<char> {
    "between(t,"@ + seconds_text(iv.start as nat) + ","@ + seconds_text(iv.end as nat) + ")"@
}

/// The keep ranges as a sum of range tests, which is non-zero exactly at
/// kept times.
pub open spec fn keep_expr(rs: Seq<TimeInterval>) -> Seq<char>
    decreases rs.len(),
{
    if rs.len() == 0 {
        Seq::empty()
    } else if rs.len() == 1 {
        between_text(rs[0])
    } else {
        keep_expr(rs.drop_last()) + "+"@ + between_text(rs.last())
    }
}

/// Denoising and loudness normalisation.
pub open spec fn enhancement_chain() -> Seq<char> {
    "afftdn=nf=-25,loudnorm=I=-16:TP=-1.5:LRA=11"@
}

pub open spec fn video_filter_text(rs: Seq<TimeInterval>) -> Seq<char> {
    "select='"@ + keep_expr(rs) + "',setpts=N/FRAME_RATE/TB"@
}

pub open spec fn audio_filter_text(rs: Seq<TimeInterval>, enhance: bool) -> Seq<char> {
    let base = "aselect='"@ + keep_expr(rs) + "',asetpts=N/SR/TB"@;
    if enhance {
        base + ","@ + enhancement_chain()
    } else {
        base
    }
}

pub open spec fn silence_filter_text(threshold_centi_db: int, min_duration: nat) -> Seq<char> {
    "silencedetect=noise="@ + db_text(threshold_centi_db) + "dB:d="@ + seconds_text(min_duration)
}

pub open spec fn views(v: Seq<String>) -> Seq<Seq<char>> {
    v.map_values(|s: String| s@)
}

fn fixed_digits(f: u64, k: u64) -> (r: String)
    ensures
        r@ == digits_fixed(f as nat, k as nat),
    decreases k,
{
    if k == 0 {
        String::new()
    } else {
        let mut s = fixed_digits(f / 10, k - 1);
        let d = digit_string(f % 10);
        s.append(d.as_str());
        proof {
            assert(s@ =~= digits_fixed(f as nat, k as nat));
        }
        s
    }
}

proof fn lemma_digits_fixed_len(f: nat, k: nat)
    ensures
        digits_fixed(f, k).len() == k,
    decreases k,
{
    if k > 0 {
        lemma_digits_fixed_len(f / 10, (k - 1) as nat);
    }
}

proof fn lemma_digit_zero(d: int)
    requires
        0 <= d < 10,
    ensures
        (digit_char(d) == '0') == (d == 0),
{
}

fn fixed_point_string(v: u64, places: u64, scale: u64) -> (r: String)
    requires
        0 < scale,
        places <= 6,
    ensures
        r@ == fixed_point_text(v as nat, places as nat, scale as nat),
{
    let mut f: u64 = v % scale;
    let mut k: u64 = places;
    while k > 0 && f % 10 == 0
        invariant
            k <= places,
            0 < scale,
            trim_zeros(digits_fixed((v % scale) as nat, places as nat)) == trim_zeros(
                digits_fixed(f as nat, k as nat),
            ),
        decreases k,
    {
        proof {
            lemma_digit_zero((f % 10) as int);
            assert(digits_fixed(f as nat, k as nat).drop_last() == digits_fixed(
                (f / 10) as nat,
                (k - 1) as nat,
            ));
        }
        f = f / 10;
        k = k - 1;
    }
    proof {
        lemma_digits_fixed_len(f as nat, k as nat);
        if k > 0 {
            lemma_digit_zero((f % 10) as int);
            assert(trim_zeros(digits_fixed(f as nat, k as nat)) == digits_fixed(f as nat, k as nat));
        } else {
            assert(trim_zeros(digits_fixed(f as nat, k as nat)).len() == 0);
        }
        reveal_strlit(".");
    }
    let frac = fixed_digits(f, k);
    let mut s = decimal_string(v / scale);
    if k > 0 {
        s.append(".");
        s.append(frac.as_str());
        proof {
            assert(s@ =~= fixed_point_text(v as nat, places as nat, scale as nat));
        }
    }
    s
}

/// Writes microseconds as seconds.
pub fn seconds_string(us: u64) -> (r: String)
    ensures
        r@ == seconds_text(us as nat),
{
    fixed_point_string(us, 6, 1_000_000)
}

/// Writes hundredths of a decibel as decibels.
pub fn db_string(centi_db: i64) -> (r: String)
    ensures
        r@ == db_text(centi_db as int),
{
    if centi_db < 0 {
        let a: u64 = ((-(centi_db + 1)) as u64) + 1;
        let mut s = String::new();
        proof {
            reveal_strlit("-");
        }
        s.append("-");
        let d = fixed_point_string(a, 2, 100);
        s.append(d.as_str());
        proof {
            assert(s@ =~= db_text(centi_db as int));
        }
        s
    } else {
        fixed_point_string(centi_db as u64, 2, 100)
    }
}

fn between_string(iv: TimeInterval) -> (r: String)
    ensures
        r@ == between_text(iv),
{
    let mut s = String::new();
    s.append("between(t,");
    let a = seconds_string(iv.start);
    s.append(a.as_str());
    s.append(",");
    let b = seconds_string(iv.end);
    s.append(b.as_str());
    s.append(")");
    proof {
        assert(s@ =~= between_text(iv));
    }
    s
}

/// The frame-selection expression for `keep_ranges`.
pub fn keep_expression(keep_ranges: &Vec<TimeInterval>) -> (r: String)
    ensures
        r@ == keep_expr(keep_ranges@),
{
    let mut s = String::new();
    let mut i: usize = 0;
    while i < keep_ranges.len()
        invariant
            i <= keep_ranges@.len(),
            s@ == keep_expr(keep_ranges@.take(i as int)),
        decreases keep_ranges@.len() - i,
    {
        proof {
            assert(keep_ranges@.take(i + 1).drop_last() =~= keep_ranges@.take(i as int));
        }
        if i > 0 {
            s.append("+");
        }
        let t = between_string(keep_ranges[i]);
        s.append(t.as_str());
        proof {
            if i == 0 {
                assert(keep_ranges@.take(1).len() == 1);
            }
            assert(s@ =~= keep_expr(keep_ranges@.take(i + 1)));
        }
        i = i + 1;
    }
    proof {
        assert(keep_ranges@.take(i as int) =~= keep_ranges@);
    }
    s
}

/// The video filter that keeps only `keep_ranges` and closes the gaps.
pub fn video_filter(keep_ranges: &Vec<TimeInterval>) -> (r: String)
    ensures
        r@ == video_filter_text(keep_ranges@),
{
    let mut s = String::new();
    s.append("select='");
    let e = keep_expression(keep_ranges);
    s.append(e.as_str());
    s.append("',setpts=N/FRAME_RATE/TB");
    proof {
        assert(s@ =~= video_filter_text(keep_ranges@));
    }
    s
}

/// The matching audio filter, with the enhancement chain after it when asked.
pub fn audio_filter(keep_ranges: &Vec<TimeInterval>, enhance: bool) -> (r: String)
    ensures
        r@ == audio_filter_text(keep_ranges@, enhance),
{
    let mut s = String::new();
    s.append("aselect='");
    let e = keep_expression(keep_ranges);
    s.append(e.as_str());
    s.append("',asetpts=N/SR/TB");
    let ghost base = s@;
    assert(base =~= "aselect='"@ + keep_expr(keep_ranges@) + "',asetpts=N/SR/TB"@);
    if enhance {
        s.append(",");
        s.append("afftdn=nf=-25,loudnorm=I=-16:TP=-1.5:LRA=11");
        assert(s@ =~= base + ","@ + enhancement_chain());
    }
    s
}

/// The silence detection filter for a noise floor in hundredths of a dB
/// and a minimum silence length in microseconds. The threshold is taken as
/// written, so a floor below full scale is given negative.
pub fn silence_filter(threshold_centi_db: i64, min_duration: u64) -> (r: String)
    ensures
        r@ == silence_filter_text(threshold_centi_db as int, min_duration as nat),
{
    let mut s = String::new();
    s.append("silencedetect=noise=");
    let d = db_string(threshold_centi_db);
    s.append(d.as_str());
    s.append("dB:d=");
    let m = seconds_string(min_duration);
    s.append(m.as_str());
    proof {
        assert(s@ =~= silence_filter_text(threshold_centi_db as int, min_duration as nat));
    }
    s
}

pub open spec fn enhance_args(input_path: Seq<char>, output_path: Seq<char>) -> Seq<Seq<char>> {
    seq![
        "-i"@,
        input_path,
        "-af"@,
        enhancement_chain(),
        "-c:v"@,
        "copy"@,
        "-y"@,
        output_path,
    ]
}

pub open spec fn copy_args(input_path: Seq<char>, output_path: Seq<char>) -> Seq<Seq<char>> {
    seq![
        "-i"@,
        input_path,
        "-c:v"@,
        "copy"@,
        "-c:a"@,
        "aac"@,
        "-b:a"@,
        "192k"@,
        "-ar"@,
        "44100"@,
        "-movflags"@,
        "+faststart"@,
        "-y"@,
        output_path,
    ]
}

pub open spec fn cut_args(
    input_path: Seq<char>,
    keep_ranges: Seq<TimeInterval>,
    output_path: Seq<char>,
    enhance_audio: bool,
) -> Seq<Seq<char>> {
    seq![
        "-i"@,
        input_path,
        "-vf"@,
        video_filter_text(keep_ranges),
        "-af"@,
        audio_filter_text(keep_ranges, enhance_audio),
    ] + seq![
        "-c:v"@,
        "h264_videotoolbox"@,
        "-b:v"@,
        "8M"@,
        "-maxrate"@,
        "10M"@,
        "-bufsize"@,
        "16M"@,
        "-profile:v"@,
        "high"@,
    ] + seq![
        "-c:a"@,
        "aac"@,
        "-b:a"@,
        "192k"@,
        "-ar"@,
        "44100"@,
        "-pix_fmt"@,
        "yuv420p"@,
        "-movflags"@,
        "+faststart"@,
        "-y"@,
        output_path,
    ]
}

pub open spec fn detect_args(input_path: Seq<char>, threshold_centi_db: int, min_duration: nat) -> Seq<Seq<char>> {
    seq![
        "-i"@,
        input_path,
        "-af"@,
        silence_filter_text(threshold_centi_db, min_duration),
        "-f"@,
        "null"@,
        "-"@,
    ]
}

pub open spec fn extract_args(
    input_path: Seq<char>,
    output_path: Seq<char>,
    sample_rate: nat,
    num_channels: nat,
) -> Seq<Seq<char>> {
    seq![
        "-i"@,
        input_path,
        "-ar"@,
        decimal(sample_rate),
        "-ac"@,
        decimal(num_channels),
    ] + seq![
        "-f"@,
        "f32le"@,
        "-acodec"@,
        "pcm_f32le"@,
        "-y"@,
        output_path,
    ]
}

pub open spec fn probe_args(input_path: Seq<char>) -> Seq<Seq<char>> {
    seq!["-i"@, input_path, "-t"@, "0.000001"@, "-f"@, "null"@, "-"@]
}

fn push_arg(args: &mut Vec<String>, a: &str)
    ensures
        views(final(args)@) == views(old(args)@).push(a@),
{
    args.push(String::from_str(a));
    proof {
        assert(views(final(args)@) =~= views(old(args)@).push(a@));
    }
}

/// The ffmpeg arguments that denoise and normalise the audio of
/// `input_path` into `output_path`, copying the video stream.
pub fn enhance_audio(input_path: &str, output_path: &str) -> (r: Vec<String>)
    ensures
        views(r@) == enhance_args(input_path@, output_path@),
{
    let mut a: Vec<String> = Vec::new();
    push_arg(&mut a, "-i");
    push_arg(&mut a, input_path);
    push_arg(&mut a, "-af");
    push_arg(&mut a, "afftdn=nf=-25,loudnorm=I=-16:TP=-1.5:LRA=11");
    push_arg(&mut a, "-c:v");
    push_arg(&mut a, "copy");
    push_arg(&mut a, "-y");
    push_arg(&mut a, output_path);
    proof {
        assert(views(a@) =~= seq![
            "-i"@,
            input_path@,
            "-af"@,
            enhancement_chain(),
            "-c:v"@,
            "copy"@,
            "-y"@,
            output_path@,
        ]);
    }
    a
}

/// The ffmpeg arguments that copy the video stream of `input_path` and
/// re-encode its audio to AAC, for fast start.
pub fn copy_video(input_path: &str, output_path: &str) -> (r: Vec<String>)
    ensures
        views(r@) == copy_args(input_path@, output_path@),
{
    let mut a: Vec<String> = Vec::new();
    push_arg(&mut a, "-i");
    push_arg(&mut a, input_path);
    push_arg(&mut a, "-c:v");
    push_arg(&mut a, "copy");
    push_arg(&mut a, "-c:a");
    push_arg(&mut a, "aac");
    push_arg(&mut a, "-b:a");
    push_arg(&mut a, "192k");
    push_arg(&mut a, "-ar");
    push_arg(&mut a, "44100");
    push_arg(&mut a, "-movflags");
    push_arg(&mut a, "+faststart");
    push_arg(&mut a, "-y");
    push_arg(&mut a, output_path);
    proof {
        assert(views(a@) =~= seq![
            "-i"@,
            input_path@,
            "-c:v"@,
            "copy"@,
            "-c:a"@,
            "aac"@,
            "-b:a"@,
            "192k"@,
            "-ar"@,
            "44100"@,
            "-movflags"@,
            "+faststart"@,
            "-y"@,
            output_path@,
        ]);
    }
    a
}

/// The ffmpeg arguments that keep only `keep_ranges` of `input_path`, in
/// both streams, and encode the result to `output_path`.
pub fn cut_silences_and_export(
    input_path: &str,
    keep_ranges: &Vec<TimeInterval>,
    output_path: &str,
    enhance_audio: bool,
) -> (r: Vec<String>)
    ensures
        views(r@) == cut_args(input_path@, keep_ranges@, output_path@, enhance_audio),
{
    let vf = video_filter(keep_ranges);
    let af = audio_filter(keep_ranges, enhance_audio);
    let mut a: Vec<String> = Vec::new();
    push_arg(&mut a, "-i");
    push_arg(&mut a, input_path);
    push_arg(&mut a, "-vf");
    push_arg(&mut a, vf.as_str());
    push_arg(&mut a, "-af");
    push_arg(&mut a, af.as_str());
    let ghost first = views(a@);
    push_arg(&mut a, "-c:v");
    push_arg(&mut a, "h264_videotoolbox");
    push_arg(&mut a, "-b:v");
    push_arg(&mut a, "8M");
    push_arg(&mut a, "-maxrate");
    push_arg(&mut a, "10M");
    push_arg(&mut a, "-bufsize");
    push_arg(&mut a, "16M");
    push_arg(&mut a, "-profile:v");
    push_arg(&mut a, "high");
    let ghost second = views(a@);
    push_arg(&mut a, "-c:a");
    push_arg(&mut a, "aac");
    push_arg(&mut a, "-b:a");
    push_arg(&mut a, "192k");
    push_arg(&mut a, "-ar");
    push_arg(&mut a, "44100");
    push_arg(&mut a, "-pix_fmt");
    push_arg(&mut a, "yuv420p");
    push_arg(&mut a, "-movflags");
    push_arg(&mut a, "+faststart");
    push_arg(&mut a, "-y");
    push_arg(&mut a, output_path);
    proof {
        assert(views(a@) =~= seq![
            "-i"@,
            input_path@,
            "-vf"@,
            video_filter_text(keep_ranges@),
            "-af"@,
            audio_filter_text(keep_ranges@, enhance_audio),
        ] + seq![
            "-c:v"@,
            "h264_videotoolbox"@,
            "-b:v"@,
            "8M"@,
            "-maxrate"@,
            "10M"@,
            "-bufsize"@,
            "16M"@,
            "-profile:v"@,
            "high"@,
        ] + seq![
            "-c:a"@,
            "aac"@,
            "-b:a"@,
            "192k"@,
            "-ar"@,
            "44100"@,
            "-pix_fmt"@,
            "yuv420p"@,
            "-movflags"@,
            "+faststart"@,
            "-y"@,
            output_path@,
        ]);
    }
    a
}

/// The ffmpeg arguments that run silence detection over `input_path`,
/// discarding the output.
pub fn detect_silences(input_path: &str, threshold_centi_db: i64, min_duration: u64) -> (r: Vec<String>)
    ensures
        views(r@) == detect_args(input_path@, threshold_centi_db as int, min_duration as nat),
{
    let filter = silence_filter(threshold_centi_db, min_duration);
    let mut a: Vec<String> = Vec::new();
    push_arg(&mut a, "-i");
    push_arg(&mut a, input_path);
    push_arg(&mut a, "-af");
    push_arg(&mut a, filter.as_str());
    push_arg(&mut a, "-f");
    push_arg(&mut a, "null");
    push_arg(&mut a, "-");
    proof {
        assert(views(a@) =~= seq![
            "-i"@,
            input_path@,
            "-af"@,
            silence_filter_text(threshold_centi_db as int, min_duration as nat),
            "-f"@,
            "null"@,
            "-"@,
        ]);
    }
    a
}

/// The ffmpeg arguments that write the audio of `input_path` to
/// `output_path` as headerless little-endian 32-bit float samples.
pub fn extract_audio(input_path: &str, output_path: &str, sample_rate: u32, num_channels: u16) -> (r:
    Vec<String>)
    ensures
        views(r@) == extract_args(input_path@, output_path@, sample_rate as nat, num_channels as nat),
{
    let rate = decimal_string(sample_rate as u64);
    let channels = decimal_string(num_channels as u64);
    let mut a: Vec<String> = Vec::new();
    push_arg(&mut a, "-i");
    push_arg(&mut a, input_path);
    push_arg(&mut a, "-ar");
    push_arg(&mut a, rate.as_str());
    push_arg(&mut a, "-ac");
    push_arg(&mut a, channels.as_str());
    push_arg(&mut a, "-f");
    push_arg(&mut a, "f32le");
    push_arg(&mut a, "-acodec");
    push_arg(&mut a, "pcm_f32le");
    push_arg(&mut a, "-y");
    push_arg(&mut a, output_path);
    proof {
        assert(views(a@) =~= seq![
            "-i"@,
            input_path@,
            "-ar"@,
            decimal(sample_rate as nat),
            "-ac"@,
            decimal(num_channels as nat),
        ] + seq!["-f"@, "f32le"@, "-acodec"@, "pcm_f32le"@, "-y"@, output_path@]);
    }
    a
}

/// The ffmpeg arguments that make it report the length of `input_path`
/// while decoding next to nothing.
pub fn duration_probe(input_path: &str) -> (r: Vec<String>)
    ensures
        views(r@) == probe_args(input_path@),
{
    let mut a: Vec<String> = Vec::new();
    push_arg(&mut a, "-i");
    push_arg(&mut a, input_path);
    push_arg(&mut a, "-t");
    push_arg(&mut a, "0.000001");
    push_arg(&mut a, "-f");
    push_arg(&mut a, "null");
    push_arg(&mut a, "-");
    proof {
        assert(views(a@) =~= seq!["-i"@, input_path@, "-t"@, "0.000001"@, "-f"@, "null"@, "-"@]);
    }
    a
}

} // verus!
