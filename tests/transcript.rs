use autovideo::recognize::{extract_segments_with_words, extract_words_from_segment, full_text, RawSegment, RawToken};
use autovideo::transcript::{
    all_words, apply_cleanup, editor_result, redistribute_text_to_segments, redistribute_words,
    word_id_string, Segment, Word,
};

fn word(id: &str, text: &str, start: u64, end: u64) -> Word {
    Word { id: id.to_string(), word: text.to_string(), start, end }
}

fn segment(id: usize, start: u64, end: u64, words: &[&str]) -> Segment {
    let n = words.len() as u64;
    let step = if n == 0 { 0 } else { (end - start) / n };
    Segment {
        id,
        start,
        end,
        text: words.join(" "),
        words: words
            .iter()
            .enumerate()
            .map(|(i, w)| word(&format!("w{}", i), w, start + i as u64 * step, start + (i as u64 + 1) * step))
            .collect(),
    }
}

fn strings(ws: &[&str]) -> Vec<String> {
    ws.iter().map(|w| w.to_string()).collect()
}

#[test]
fn scenario_three_words_share_segment_evenly() {
    let segs = vec![segment(0, 1_000_000, 2_500_000, &["dis", "av", "ivo"])];
    let r = redistribute_words(&segs, &strings(&["uno", "dos", "tres"]));
    assert_eq!(r.len(), 1);
    let starts: Vec<u64> = r[0].words.iter().map(|w| w.start).collect();
    let ends: Vec<u64> = r[0].words.iter().map(|w| w.end).collect();
    assert_eq!(starts, vec![1_000_000, 1_500_000, 2_000_000]);
    assert_eq!(ends, vec![1_500_000, 2_000_000, 2_500_000]);
    assert_eq!(r[0].text, "uno dos tres");
    let ids: Vec<&str> = r[0].words.iter().map(|w| w.id.as_str()).collect();
    assert_eq!(ids, vec!["w0", "w1", "w2"]);
}

#[test]
fn scenario_segment_left_without_words() {
    let segs = vec![
        segment(0, 0, 1_000_000, &["a", "b"]),
        segment(1, 1_000_000, 3_000_000, &["c", "d"]),
    ];
    let r = redistribute_words(&segs, &strings(&["x", "y"]));
    assert_eq!(r[0].text, "x y");
    assert_eq!(r[1].text, "");
    assert!(r[1].words.is_empty());
    assert_eq!((r[1].start, r[1].end), (1_000_000, 3_000_000));
}

#[test]
fn redistribution_keeps_spans_and_conserves_words() {
    let segs = vec![
        segment(3, 0, 900_000, &["a", "b", "c"]),
        segment(4, 1_000_000, 2_000_000, &["d"]),
        segment(5, 2_000_000, 2_000_001, &["e", "f"]),
    ];
    for revised in [vec!["p", "q"], vec!["p", "q", "r", "s", "t", "u"], vec!["p", "q", "r", "s", "t", "u", "v", "w"]] {
        let r = redistribute_words(&segs, &strings(&revised));
        assert_eq!(r.len(), segs.len());
        for (o, n) in segs.iter().zip(r.iter()) {
            assert_eq!((o.id, o.start, o.end), (n.id, n.start, n.end));
            if let (Some(f), Some(l)) = (n.words.first(), n.words.last()) {
                assert_eq!(f.start, n.start);
                assert_eq!(l.end, n.end);
            }
        }
        let total: usize = r.iter().map(|s| s.words.len()).sum();
        assert_eq!(total, revised.len().min(6));
    }
}

#[test]
fn uneven_shares_round_down_and_end_on_the_boundary() {
    let segs = vec![segment(0, 0, 10, &["a", "b", "c"])];
    let r = redistribute_words(&segs, &strings(&["x", "y", "z"]));
    let spans: Vec<(u64, u64)> = r[0].words.iter().map(|w| (w.start, w.end)).collect();
    assert_eq!(spans, vec![(0, 3), (3, 6), (6, 10)]);
}

#[test]
fn word_ids_continue_across_segments() {
    let segs = vec![segment(0, 0, 100, &["a", "b"]), segment(1, 100, 200, &["c"])];
    let r = redistribute_words(&segs, &strings(&["x", "y", "z"]));
    assert_eq!(r[1].words[0].id, "w2");
}

#[test]
fn text_is_split_on_whitespace() {
    let segs = vec![segment(0, 0, 200, &["a", "b"])];
    let r = redistribute_text_to_segments(&segs, "  hola \n mundo\t");
    assert_eq!(r[0].text, "hola mundo");
    assert_eq!(r[0].words[1].word, "mundo");
}

#[test]
fn empty_cleanup_reply_keeps_original() {
    let segs = vec![segment(0, 0, 200, &["a", "b"])];
    let kept = apply_cleanup(segs.clone(), Some("   ".to_string()));
    assert_eq!(kept[0].text, "a b");
    let kept = apply_cleanup(segs.clone(), None);
    assert_eq!(kept[0].text, "a b");
    let changed = apply_cleanup(segs, Some("negocios fracasar".to_string()));
    assert_eq!(changed[0].text, "negocios fracasar");
}

#[test]
fn word_ids_are_decimal() {
    assert_eq!(word_id_string(0), "w0");
    assert_eq!(word_id_string(10), "w10");
    assert_eq!(word_id_string(12345), "w12345");
}

#[test]
fn tokens_become_words() {
    let toks = vec![
        RawToken { text: "[_BEG_]".to_string(), t0: 0, t1: 10 },
        RawToken { text: " hola".to_string(), t0: 10, t1: 50 },
        RawToken { text: "<|en|>".to_string(), t0: 50, t1: 60 },
        RawToken { text: " bad".to_string(), t0: 70, t1: 70 },
        RawToken { text: " neg".to_string(), t0: -5, t1: 70 },
        RawToken { text: "   ".to_string(), t0: 80, t1: 90 },
        RawToken { text: " mundo ".to_string(), t0: 90, t1: 120 },
    ];
    let seg = RawSegment { t0: 0, t1: 200, text: " hola mundo".to_string(), tokens: toks };
    let mut next = 7usize;
    let ws = extract_words_from_segment(&seg, &mut next);
    assert_eq!(next, 9);
    assert_eq!(ws.len(), 2);
    assert_eq!((ws[0].id.as_str(), ws[0].word.as_str(), ws[0].start, ws[0].end), ("w7", "hola", 100_000, 500_000));
    assert_eq!((ws[1].id.as_str(), ws[1].word.as_str(), ws[1].start, ws[1].end), ("w8", "mundo", 900_000, 1_200_000));
}

#[test]
fn word_times_are_kept_inside_the_segment() {
    let toks = vec![
        RawToken { text: " antes".to_string(), t0: 5, t1: 30 },
        RawToken { text: " dentro".to_string(), t0: 30, t1: 300 },
        RawToken { text: " fuera".to_string(), t0: 260, t1: 400 },
    ];
    let seg = RawSegment { t0: 10, t1: 250, text: String::new(), tokens: toks };
    let mut next = 0usize;
    let ws = extract_words_from_segment(&seg, &mut next);
    let got: Vec<(&str, u64, u64)> = ws.iter().map(|w| (w.word.as_str(), w.start, w.end)).collect();
    assert_eq!(got, vec![("antes", 100_000, 300_000), ("dentro", 300_000, 2_500_000)]);
    assert_eq!(next, 2);
}

#[test]
fn segments_are_numbered_and_timed() {
    let raw = vec![
        RawSegment {
            t0: 0,
            t1: 150,
            text: " Hola mundo".to_string(),
            tokens: vec![
                RawToken { text: " Hola".to_string(), t0: 0, t1: 70 },
                RawToken { text: " mundo".to_string(), t0: 70, t1: 150 },
            ],
        },
        RawSegment {
            t0: 150,
            t1: 300,
            text: " otra".to_string(),
            tokens: vec![RawToken { text: " otra".to_string(), t0: 150, t1: 300 }],
        },
    ];
    let segs = extract_segments_with_words(&raw);
    assert_eq!(segs.len(), 2);
    assert_eq!((segs[1].id, segs[1].start, segs[1].end), (1, 1_500_000, 3_000_000));
    assert_eq!(segs[1].words[0].id, "w2");
    assert_eq!(full_text(&segs), " Hola mundo  otra");
    let all = all_words(&segs);
    let texts: Vec<&str> = all.iter().map(|w| w.word.as_str()).collect();
    assert_eq!(texts, vec!["Hola", "mundo", "otra"]);
    let res = editor_result(segs, 3_000_000, "/v/a.mp4");
    assert_eq!(res.words.len(), 3);
    assert_eq!(res.input_path, "/v/a.mp4");
    assert_eq!(res.duration, 3_000_000);
}
