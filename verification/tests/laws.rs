use ccap::{
    offset_str_stamps, parse_document, write_document, Caption, CaptionBlock, CaptionError,
    Format, SimpleTime, SrtParser, VttParser,
};

fn block(speaker: Option<&str>, start: usize, end: usize, text: &str) -> CaptionBlock {
    CaptionBlock::from(
        speaker.map(|s| s.to_string()),
        SimpleTime::from_milliseconds(start),
        SimpleTime::from_milliseconds(end),
        text.to_string(),
    )
    .unwrap()
}

fn same_blocks(a: &Caption, b: &Caption) {
    assert_eq!(a.header, b.header);
    assert_eq!(a.blocks.len(), b.blocks.len());
    for (x, y) in a.blocks.iter().zip(b.blocks.iter()) {
        assert_eq!(x.speaker(), y.speaker());
        assert_eq!(x.start(), y.start());
        assert_eq!(x.end(), y.end());
        assert_eq!(x.text(), y.text());
    }
}

#[test]
fn round_trip_vtt() {
    let doc = Caption {
        header: None,
        blocks: vec![
            block(Some("Pete Molfese"), 0, 1000, "Hello, welcome to the caption tool!"),
            block(None, 1000, 2500, "[music] plays, 3 times"),
            block(Some(""), 3_599_998, 359_999_998, ""),
        ],
    };
    let text = write_document(Format::Vtt, &doc);
    let back = parse_document(Format::Vtt, &text).unwrap();
    same_blocks(&doc, &back);
}

#[test]
fn round_trip_vtt_without_blocks() {
    let doc = Caption { header: None, blocks: vec![] };
    let text = write_document(Format::Vtt, &doc);
    assert_eq!(text, "WEBVTT\n");
    let back = parse_document(Format::Vtt, &text).unwrap();
    same_blocks(&doc, &back);
}

#[test]
fn round_trip_srt() {
    let doc = Caption {
        header: None,
        blocks: vec![
            block(Some("Peter Molfese"), 0, 1000, "Hello, welcome to the caption tool!"),
            block(None, 1000, 2500, "No speaker, 2 digits"),
            block(Some("A [nested"), 2500, 2500, ""),
        ],
    };
    let text = write_document(Format::Srt, &doc);
    let back = parse_document(Format::Srt, &text).unwrap();
    same_blocks(&doc, &back);
}

#[test]
fn round_trip_renumbers_blocks() {
    let text = "WEBVTT\n\n7\n00:00:00.000 --> 00:00:01.000\nfirst\n\n7\n00:00:01.000 --> 00:00:02.000\nsecond\n";
    let doc = VttParser::parse(text).unwrap();
    let written = write_document(Format::Vtt, &doc);
    assert_eq!(
        written,
        "WEBVTT\n\n1\n00:00:00.000 --> 00:00:01.000\nfirst\n\n2\n00:00:01.000 --> 00:00:02.000\nsecond\n"
    );
}

#[test]
fn a_header_does_not_survive_the_dotted_format() {
    let doc = Caption {
        header: Some("Title".to_string()),
        blocks: vec![block(None, 0, 1000, "text")],
    };
    let text = write_document(Format::Vtt, &doc);
    let back = parse_document(Format::Vtt, &text).unwrap();
    assert_eq!(back.header, None);
    assert_eq!(back.blocks.len(), 1);
}

#[test]
fn an_empty_caption_does_not_survive_the_comma_format() {
    let doc = Caption { header: None, blocks: vec![] };
    let text = write_document(Format::Srt, &doc);
    assert_eq!(text, "");
    assert!(matches!(
        SrtParser::parse(&text),
        Err(ccap::SrtParserError::UnexpectedEndOfFile)
    ));
}

#[test]
fn time_round_trip() {
    for &(h, m, s, ms) in &[(0, 0, 0, 0), (1, 2, 3, 4), (23, 54, 17, 837), (10_000, 59, 59, 998)] {
        let t = SimpleTime::from_parts(h, m, s, ms).unwrap();
        assert_eq!(SimpleTime::from_milliseconds(t.to_milliseconds()), t);
    }
}

#[test]
fn offset_adds_for_non_negative_delta() {
    for &(start, delta) in &[(0usize, 0isize), (0, 1), (999, 1), (86_057_837, 3_600_000)] {
        let mut t = SimpleTime::from_milliseconds(start);
        assert!(t.offset_fits(delta));
        t.offset(delta).unwrap();
        assert_eq!(t.to_milliseconds(), start + delta as usize);
    }
}

#[test]
fn offset_below_zero_is_refused_and_changes_nothing() {
    let mut t = SimpleTime::from_milliseconds(0);
    assert!(t.offset(-1).is_err());
    assert_eq!(t.to_milliseconds(), 0);
    assert_eq!(t, SimpleTime::from_milliseconds(0));
}

#[test]
fn concatenate_moves_the_second_caption_by_the_end_of_the_first() {
    let first = Caption { header: None, blocks: vec![block(None, 0, 1000, "one")] };
    let second = Caption { header: None, blocks: vec![block(None, 500, 2000, "two")] };
    let joined = Caption::concatenate(vec![first, second]).unwrap();
    assert_eq!(joined.header, None);
    assert_eq!(joined.blocks.len(), 2);
    assert_eq!(joined.blocks[0].start().to_milliseconds(), 0);
    assert_eq!(joined.blocks[0].end().to_milliseconds(), 1000);
    assert_eq!(joined.blocks[1].start().to_milliseconds(), 500 + 1000);
    assert_eq!(joined.blocks[1].end().to_milliseconds(), 2000 + 1000);
    assert_eq!(joined.blocks[1].text(), "two");
}

#[test]
fn parse_scenario_dotted() {
    let cap = VttParser::parse(
        "WEBVTT\n\n1\nPete Molfese 00:00:00.000 --> 00:00:01.000\nHello, welcome to the caption tool!\n",
    )
    .unwrap();
    assert_eq!(cap.header, None);
    assert_eq!(cap.blocks.len(), 1);
    assert_eq!(cap.blocks[0].speaker(), Some("Pete Molfese".to_string()));
    assert_eq!(cap.blocks[0].start().to_milliseconds(), 0);
    assert_eq!(cap.blocks[0].end().to_milliseconds(), 1000);
    assert_eq!(cap.blocks[0].text(), "Hello, welcome to the caption tool!");
}

#[test]
fn parse_scenario_comma() {
    let cap = SrtParser::parse(
        "1\n00:00:00,000 --> 00:00:01,000\n[Peter Molfese] Hello, welcome to the caption tool!\n",
    )
    .unwrap();
    assert_eq!(cap.header, None);
    assert_eq!(cap.blocks.len(), 1);
    assert_eq!(cap.blocks[0].speaker(), Some("Peter Molfese".to_string()));
    assert_eq!(cap.blocks[0].start().to_milliseconds(), 0);
    assert_eq!(cap.blocks[0].end().to_milliseconds(), 1000);
    assert_eq!(cap.blocks[0].text(), "Hello, welcome to the caption tool!");
}

#[test]
fn offset_str_stamps_scenario() {
    let moved = offset_str_stamps("(00:00:00,000) --> (00:00:01,543)", 100).unwrap();
    assert_eq!(moved, "(00:00:00,100) --> (00:00:01,643)");
}

#[test]
fn empty_caption_has_no_first_or_last_time() {
    let empty = Caption { header: None, blocks: vec![] };
    assert!(matches!(empty.time_head(), Err(CaptionError::EmptyDocument)));
    assert!(matches!(empty.time_tail(), Err(CaptionError::EmptyDocument)));
}
