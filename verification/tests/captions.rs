use transcriber::captions::{parse_caption_lines, parse_captions, render_captions, CaptionParser, Segment};

fn lines(v: &[&str]) -> Vec<String> {
    v.iter().map(|s| s.to_string()).collect()
}

#[test]
fn scenario_two_blocks_with_blank_separators() {
    let input = lines(&[
        "WEBVTT",
        "",
        "00:00:00.000 --> 00:00:02.000",
        "Hello world",
        "",
        "00:00:02.000 --> 00:00:04.000",
        "Second line",
    ]);
    let segs = parse_caption_lines(&input);
    assert_eq!(segs.len(), 2);
    assert_eq!(segs[0].start, "00:00:00.000");
    assert_eq!(segs[0].end, "00:00:02.000");
    assert_eq!(segs[0].text, "Hello world");
    assert_eq!(segs[1].start, "00:00:02.000");
    assert_eq!(segs[1].end, "00:00:04.000");
    assert_eq!(segs[1].text, "Second line");
}

#[test]
fn scenario_adjacent_bracketed_cues_lose_nothing() {
    let input = lines(&[
        "[00:00:00.000 --> 00:00:01.000]  First",
        "[00:00:01.000 --> 00:00:02.000]  Second",
    ]);
    let segs = parse_caption_lines(&input);
    assert_eq!(segs.len(), 2);
    assert_eq!(segs[0].start, "00:00:00.000");
    assert_eq!(segs[0].end, "00:00:01.000");
    assert_eq!(segs[0].text, "First");
    assert_eq!(segs[1].start, "00:00:01.000");
    assert_eq!(segs[1].end, "00:00:02.000");
    assert_eq!(segs[1].text, "Second");
}

#[test]
fn scenario_malformed_time_line_becomes_text() {
    let input = lines(&[
        "WEBVTT",
        "",
        "00:00:00.000 --> 00:00:02.000",
        "Hello",
        "00:00:01.000 00:00:02.000",
        "",
    ]);
    let segs = parse_caption_lines(&input);
    assert_eq!(segs.len(), 1);
    assert_eq!(segs[0].start, "00:00:00.000");
    assert_eq!(segs[0].end, "00:00:02.000");
    assert_eq!(segs[0].text, "Hello\n00:00:01.000 00:00:02.000");
}

#[test]
fn empty_input_yields_no_segments() {
    let segs = parse_caption_lines(&Vec::new());
    assert!(segs.is_empty());
    let segs = parse_captions("");
    assert!(segs.is_empty());
}

#[test]
fn header_only_yields_no_segments() {
    let segs = parse_caption_lines(&lines(&["WEBVTT"]));
    assert!(segs.is_empty());
    let segs = parse_captions("WEBVTT\n\n");
    assert!(segs.is_empty());
}

#[test]
fn adjacent_plain_cue_headers_both_kept() {
    let input = lines(&[
        "00:00:00.000 --> 00:00:01.000",
        "A",
        "00:00:01.000 --> 00:00:02.000",
        "B",
    ]);
    let segs = parse_caption_lines(&input);
    assert_eq!(segs.len(), 2);
    assert_eq!(segs[0].text, "A");
    assert_eq!(segs[1].text, "B");
}

#[test]
fn stray_text_in_idle_is_ignored() {
    let input = lines(&["noise before any cue", "more noise", ""]);
    let segs = parse_caption_lines(&input);
    assert!(segs.is_empty());
}

#[test]
fn missing_end_defaults_to_empty_string() {
    let input = lines(&["strange --> ", "x", ""]);
    let segs = parse_caption_lines(&input);
    assert_eq!(segs.len(), 1);
    assert_eq!(segs[0].start, "strange -->");
    assert_eq!(segs[0].end, "");
    assert_eq!(segs[0].text, "x");
}

#[test]
fn multi_line_cue_text_is_joined() {
    let out = parse_captions("WEBVTT\n\n00:00:00.000 --> 00:00:02.000\nfirst\nsecond\n");
    assert_eq!(out.len(), 1);
    assert_eq!(out[0].text, "first\nsecond");
}

#[test]
fn feed_line_reports_completed_cue() {
    let mut p = CaptionParser::new();
    assert!(p.feed_line("WEBVTT").is_none());
    assert!(p.feed_line("").is_none());
    assert!(p.feed_line("00:00:00.000 --> 00:00:01.000").is_none());
    assert!(p.feed_line("hi").is_none());
    let done = p.feed_line("").expect("blank line should flush the cue");
    assert_eq!(done.start, "00:00:00.000");
    assert_eq!(done.end, "00:00:01.000");
    assert_eq!(done.text, "hi");
    assert!(p.finish().is_none());
}

#[test]
fn cue_with_only_empty_text_is_not_emitted() {
    let segs = parse_caption_lines(&lines(&["[-->]", ""]));
    assert!(segs.is_empty());
    let segs = parse_caption_lines(&lines(&["[00:00:00.000 --> 00:00:01.000]"]));
    assert!(segs.is_empty());
}

#[test]
fn cue_is_completed_by_a_later_nonempty_text_line() {
    let input = lines(&["[00:00:00.000 --> 00:00:01.000]", "", "hi", ""]);
    let segs = parse_caption_lines(&input);
    assert_eq!(segs.len(), 1);
    assert_eq!(segs[0].start, "00:00:00.000");
    assert_eq!(segs[0].end, "00:00:01.000");
    assert_eq!(segs[0].text, "hi");
}

#[test]
fn unicode_whitespace_is_trimmed_from_line_edges() {
    let input = lines(&[
        "\u{a0}00:00:00.000 --> 00:00:02.000\u{2009}",
        "\u{3000}Hello world\u{a0}",
        "\u{2028}",
    ]);
    let segs = parse_caption_lines(&input);
    assert_eq!(segs.len(), 1);
    assert_eq!(segs[0].start, "00:00:00.000");
    assert_eq!(segs[0].end, "00:00:02.000");
    assert_eq!(segs[0].text, "Hello world");
}

#[test]
fn render_produces_caption_lines() {
    let segs = vec![Segment {
        start: "00:00:00.000".to_string(),
        end: "00:00:02.000".to_string(),
        text: "Hello world".to_string(),
    }];
    let out = render_captions(&segs);
    assert_eq!(
        out,
        vec![
            "WEBVTT".to_string(),
            "".to_string(),
            "00:00:00.000 --> 00:00:02.000".to_string(),
            "Hello world".to_string(),
            "".to_string(),
        ]
    );
}

#[test]
fn round_trip_preserves_segments() {
    let segs = vec![
        Segment {
            start: "00:00:00.000".to_string(),
            end: "00:00:02.000".to_string(),
            text: "Hello world".to_string(),
        },
        Segment {
            start: "00:00:02.000".to_string(),
            end: "00:00:04.500".to_string(),
            text: "two lines\nof text".to_string(),
        },
    ];
    let rendered = render_captions(&segs);
    let reparsed = parse_caption_lines(&rendered);
    assert_eq!(reparsed.len(), segs.len());
    for (a, b) in segs.iter().zip(reparsed.iter()) {
        assert_eq!(a.start, b.start);
        assert_eq!(a.end, b.end);
        assert_eq!(a.text, b.text);
    }
}
