use ccap::{
    Caption, CaptionBlock, CaptionBlockError, CaptionError, NegativeSimpleTime, OutOfRange,
    SimpleTime, SrtParser, SrtParserError, SrtWriter, VttParser, VttParserError, VttWriter,
};

fn block(speaker: Option<&str>, start: usize, end: usize, text: &str) -> CaptionBlock {
    CaptionBlock::from(
        speaker.map(|s| s.to_string()),
        SimpleTime::from_milliseconds(start),
        SimpleTime::from_milliseconds(end),
        text.to_string(),
    )
    .unwrap()
}

fn starts(c: &Caption) -> Vec<usize> {
    c.blocks.iter().map(|b| b.start().to_milliseconds()).collect()
}

#[test]
fn from_parts_accepts_the_largest_components() {
    let t = SimpleTime::from_parts(1, 59, 59, 998).unwrap();
    assert_eq!(t.hour(), 1);
    assert_eq!(t.minute(), 59);
    assert_eq!(t.second(), 59);
    assert_eq!(t.millisecond(), 998);
    assert_eq!(t.to_milliseconds(), 3_600_000 + 59 * 60_000 + 59 * 1000 + 998);
}

#[test]
fn from_parts_refuses_components_out_of_range() {
    assert!(SimpleTime::from_parts(0, 60, 0, 0).is_err());
    assert!(SimpleTime::from_parts(0, 0, 60, 0).is_err());
    assert!(SimpleTime::from_parts(0, 0, 0, 999).is_err());
    assert!(SimpleTime::from_parts(0, 0, 0, 1000).is_err());
    let e: OutOfRange = SimpleTime::from_parts(0, 61, 0, 0).unwrap_err();
    assert_eq!(
        e.to_string(),
        "SimpleTime requires minutes and seconds below 60 and milliseconds below 999"
    );
}

#[test]
fn parts_fit_tells_the_machine_limit() {
    assert!(SimpleTime::parts_fit(10_000, 59, 59, 998));
    assert!(SimpleTime::parts_fit(usize::MAX / 3_600_000, 0, 0, 0));
    assert!(!SimpleTime::parts_fit(usize::MAX / 3_600_000 + 1, 0, 0, 0));
    assert!(!SimpleTime::parts_fit(usize::MAX, usize::MAX, usize::MAX, usize::MAX));
}

#[test]
fn from_parts_reads_components_back() {
    let t = SimpleTime::from_parts(1, 2, 3, 4).unwrap();
    assert_eq!(t.hour(), 1);
    assert_eq!(t.minute(), 2);
    assert_eq!(t.second(), 3);
    assert_eq!(t.millisecond(), 4);
}

#[test]
fn from_milliseconds_splits_by_division() {
    let t = SimpleTime::from_milliseconds(47_703_450);
    assert_eq!(t.hour(), 13);
    assert_eq!(t.minute(), 15);
    assert_eq!(t.second(), 3);
    assert_eq!(t.millisecond(), 450);
}

#[test]
fn from_milliseconds_may_carry_999_milliseconds() {
    let t = SimpleTime::from_milliseconds(999);
    assert_eq!(t.millisecond(), 999);
    assert_eq!(t.to_milliseconds(), 999);
    assert_eq!(VttWriter::timestamp(&t), "00:00:00.999");
    assert!(VttParser::block_timestamp("00:00:00.999").is_err());
}

#[test]
fn ten_thousand_hours_are_counted_exactly() {
    let t = SimpleTime::from_parts(10_000, 0, 0, 0).unwrap();
    assert_eq!(t.to_milliseconds(), 36_000_000_000);
    assert_eq!(VttWriter::timestamp(&t), "10000:00:00.000");
}

#[test]
fn offset_backwards_within_range() {
    let mut t = SimpleTime::from_milliseconds(1500);
    t.offset(-500).unwrap();
    assert_eq!(t.to_milliseconds(), 1000);
    t.offset(-1000).unwrap();
    assert_eq!(t.to_milliseconds(), 0);
}

#[test]
fn offset_fits_tells_the_machine_limit() {
    let t = SimpleTime::from_milliseconds(usize::MAX);
    assert!(!t.offset_fits(1));
    assert!(t.offset_fits(0));
    assert!(t.offset_fits(-1));
}

#[test]
fn negative_time_in_words() {
    assert_eq!(NegativeSimpleTime.to_string(), "attempted to create negative SimpleTime");
}

#[test]
fn block_that_ends_before_it_starts_is_refused() {
    let r = CaptionBlock::from(
        None,
        SimpleTime::from_milliseconds(1001),
        SimpleTime::from_milliseconds(1000),
        "x".to_string(),
    );
    match r {
        Err(CaptionBlockError::EndsBeforeStart(start, end)) => {
            assert_eq!(start.to_milliseconds(), 1001);
            assert_eq!(end.to_milliseconds(), 1000);
        }
        Ok(_) => panic!("built a block that ends before it starts"),
    }
}

#[test]
fn block_of_no_length_is_accepted() {
    let b = block(Some("A"), 1000, 1000, "x");
    assert_eq!(b.start(), b.end());
    assert_eq!(b.speaker(), Some("A".to_string()));
    assert_eq!(b.text(), "x");
}

#[test]
fn block_offset_moves_both_times() {
    let mut b = block(None, 1000, 2000, "x");
    b.offset_milliseconds(-1000).unwrap();
    assert_eq!(b.start().to_milliseconds(), 0);
    assert_eq!(b.end().to_milliseconds(), 1000);
    assert!(b.offset_milliseconds(-1).is_err());
    assert_eq!(b.start().to_milliseconds(), 0);
    assert_eq!(b.end().to_milliseconds(), 1000);
    b.offset_milliseconds(5000).unwrap();
    assert_eq!(b.start().to_milliseconds(), 5000);
    assert_eq!(b.end().to_milliseconds(), 6000);
}

#[test]
fn block_clone_is_the_same_block() {
    let b = block(Some("A"), 1, 2, "x");
    let c = b.clone();
    assert_eq!(c.speaker(), b.speaker());
    assert_eq!(c.start(), b.start());
    assert_eq!(c.end(), b.end());
    assert_eq!(c.text(), b.text());
}

#[test]
fn caption_from_copies_the_header() {
    let c = Caption::from(Some("head"), vec![block(None, 0, 1, "x")]);
    assert_eq!(c.header, Some("head".to_string()));
    assert_eq!(c.blocks.len(), 1);
    let d = Caption::from(None, vec![]);
    assert_eq!(d.header, None);
    assert_eq!(d.blocks.len(), 0);
}

#[test]
fn caption_offset_is_all_or_nothing() {
    let mut c = Caption {
        header: Some("h".to_string()),
        blocks: vec![block(None, 1000, 2000, "late"), block(None, 100, 200, "early")],
    };
    assert!(c.offset_fits(-500));
    assert!(c.offset_milliseconds(-500).is_err());
    assert_eq!(starts(&c), vec![1000, 100]);
    c.offset_milliseconds(-100).unwrap();
    assert_eq!(starts(&c), vec![900, 0]);
    assert_eq!(c.blocks[0].end().to_milliseconds(), 1900);
    assert_eq!(c.blocks[1].end().to_milliseconds(), 100);
    assert_eq!(c.header, Some("h".to_string()));
}

#[test]
fn caption_offset_fits_tells_the_machine_limit() {
    let c = Caption {
        header: None,
        blocks: vec![block(None, 0, 10, "a"), block(None, 0, usize::MAX, "b")],
    };
    assert!(c.offset_fits(0));
    assert!(!c.offset_fits(1));
}

#[test]
fn first_and_last_time() {
    let c = Caption {
        header: None,
        blocks: vec![block(None, 5, 10, "a"), block(None, 20, 30, "b")],
    };
    assert_eq!(c.time_head().unwrap(), 5);
    assert_eq!(c.time_tail().unwrap(), 30);
}

#[test]
fn concatenate_refuses_a_caption_without_blocks() {
    let full = Caption { header: None, blocks: vec![block(None, 0, 1000, "a")] };
    let empty = Caption { header: None, blocks: vec![] };
    assert!(Caption::concatenation_fits(&vec![
        Caption { header: None, blocks: vec![block(None, 0, 1000, "a")] },
        Caption { header: None, blocks: vec![] },
    ]));
    assert!(matches!(
        Caption::concatenate(vec![full, empty]),
        Err(CaptionError::EmptyDocument)
    ));
}

#[test]
fn concatenate_drops_headers_and_keeps_order() {
    let a = Caption {
        header: Some("A".to_string()),
        blocks: vec![block(Some("x"), 100, 300, "a1"), block(None, 50, 200, "a2")],
    };
    let b = Caption { header: Some("B".to_string()), blocks: vec![block(None, 0, 10, "b1")] };
    let c = Caption { header: None, blocks: vec![block(None, 1, 2, "c1")] };
    let joined = Caption::concatenate(vec![a, b, c]).unwrap();
    assert_eq!(joined.header, None);
    assert_eq!(starts(&joined), vec![100, 50, 200, 211]);
    assert_eq!(joined.blocks[3].end().to_milliseconds(), 212);
    assert_eq!(joined.blocks[0].speaker(), Some("x".to_string()));
    assert_eq!(joined.blocks[2].text(), "b1");
}

#[test]
fn concatenate_of_nothing_is_empty() {
    let joined = Caption::concatenate(vec![]).unwrap();
    assert_eq!(joined.header, None);
    assert_eq!(joined.blocks.len(), 0);
}

#[test]
fn concatenation_fits_tells_the_machine_limit() {
    let big = vec![
        Caption { header: None, blocks: vec![block(None, 0, usize::MAX / 2 + 1, "a")] },
        Caption { header: None, blocks: vec![block(None, 0, 1, "b")] },
    ];
    assert!(!Caption::concatenation_fits(&big));
    let edge = vec![
        Caption { header: None, blocks: vec![block(None, 0, usize::MAX / 2, "a")] },
        Caption { header: None, blocks: vec![block(None, 0, usize::MAX / 2 + 1, "b")] },
    ];
    assert!(Caption::concatenation_fits(&edge));
    let joined = Caption::concatenate(edge).unwrap();
    assert_eq!(joined.blocks[1].start().to_milliseconds(), usize::MAX / 2);
    assert_eq!(joined.blocks[1].end().to_milliseconds(), usize::MAX);
    let beyond = vec![
        Caption { header: None, blocks: vec![block(None, 0, usize::MAX / 2, "a")] },
        Caption { header: None, blocks: vec![block(None, 0, usize::MAX / 2 + 2, "b")] },
    ];
    assert!(!Caption::concatenation_fits(&beyond));
    let small = vec![
        Caption { header: None, blocks: vec![block(None, 0, 1000, "a")] },
        Caption { header: None, blocks: vec![block(None, 0, 1, "b")] },
    ];
    assert!(Caption::concatenation_fits(&small));
}

#[test]
fn crop_keeps_blocks_that_meet_the_window() {
    let make = || Caption {
        header: Some("h".to_string()),
        blocks: vec![
            block(None, 0, 999, "before"),
            block(None, 500, 1000, "touches from"),
            block(None, 1200, 1800, "inside"),
            block(None, 2000, 3000, "touches to"),
            block(None, 2001, 3000, "after"),
        ],
    };
    let from = Some(SimpleTime::from_milliseconds(1000));
    let to = Some(SimpleTime::from_milliseconds(2000));

    let mut both = make();
    both.crop(from, to);
    assert_eq!(starts(&both), vec![500, 1200, 2000]);
    assert_eq!(both.blocks[0].end().to_milliseconds(), 1000);
    assert_eq!(both.blocks[2].end().to_milliseconds(), 3000);
    assert_eq!(both.header, Some("h".to_string()));

    let mut only_from = make();
    only_from.crop(from, None);
    assert_eq!(starts(&only_from), vec![500, 1200, 2000, 2001]);

    let mut only_to = make();
    only_to.crop(None, to);
    assert_eq!(starts(&only_to), vec![0, 500, 1200, 2000]);

    let mut neither = make();
    neither.crop(None, None);
    assert_eq!(starts(&neither), vec![0, 500, 1200, 2000, 2001]);
}

#[test]
fn dotted_file_without_marker_ends_unexpectedly() {
    assert!(matches!(VttParser::parse(""), Err(VttParserError::UnexpectedEndOfFile)));
    assert!(matches!(
        VttParser::parse("webvtt\n\n1\n00:00:00.000 --> 00:00:01.000\nx\n"),
        Err(VttParserError::UnexpectedEndOfFile)
    ));
    assert!(matches!(VttParser::header("no marker"), Err(VttParserError::UnexpectedEndOfFile)));
}

#[test]
fn dotted_file_with_a_broken_last_block_ends_unexpectedly() {
    assert!(matches!(
        VttParser::parse("WEBVTT\n\n1\n00:00:00.000 --> 00:00:01.000\n"),
        Err(VttParserError::UnexpectedEndOfFile)
    ));
}

#[test]
fn dotted_marker_within_the_first_three_lines_has_no_header() {
    let (header, line) = VttParser::header("a\nb\nWEBVTT\n").unwrap();
    assert_eq!(header, None);
    assert_eq!(line, 2);
    let (header, line) = VttParser::header("a\nb\nc\nWEBVTT\n").unwrap();
    assert_eq!(header, Some("a".to_string()));
    assert_eq!(line, 3);
}

#[test]
fn dotted_file_with_header_and_blocks() {
    let cap = VttParser::parse(
        "Title\nMore\n\n\nWEBVTT\n\n1\n00:00:00.000 --> 00:00:01.000\nfirst\n\n2\nAnn 00:00:01.000 --> 00:00:02.000\nsecond\n",
    )
    .unwrap();
    assert_eq!(cap.header, Some("Title\nMore".to_string()));
    assert_eq!(cap.blocks.len(), 2);
    assert_eq!(cap.blocks[0].speaker(), None);
    assert_eq!(cap.blocks[1].speaker(), Some("Ann".to_string()));
    assert_eq!(cap.blocks[1].start().to_milliseconds(), 1000);
    assert_eq!(cap.blocks[1].text(), "second");
}

#[test]
fn dotted_file_with_carriage_returns() {
    let cap = VttParser::parse("WEBVTT\r\n\r\n1\r\n00:00:00.000 --> 00:00:01.000\r\nfirst\r\n")
        .unwrap();
    assert_eq!(cap.blocks.len(), 1);
    assert_eq!(cap.blocks[0].text(), "first");
}

#[test]
fn dotted_block_with_empty_text() {
    let cap = VttParser::parse("WEBVTT\n\n1\n00:00:00.000 --> 00:00:01.000\n\n").unwrap();
    assert_eq!(cap.blocks.len(), 1);
    assert_eq!(cap.blocks[0].text(), "");
}

#[test]
fn dotted_block_must_begin_with_a_blank_line() {
    match VttParser::block("x\n1\n00:00:00.000 --> 00:00:01.000\ntext\n") {
        Err(VttParserError::ExpectedBlankLine(s)) => assert_eq!(s, "x"),
        other => panic!("unexpected {:?}", other),
    }
}

#[test]
fn dotted_block_must_have_a_number() {
    match VttParser::block("\none\n00:00:00.000 --> 00:00:01.000\ntext\n") {
        Err(VttParserError::ExpectedBlockNumber(s)) => assert_eq!(s, "one"),
        other => panic!("unexpected {:?}", other),
    }
    assert!(VttParser::block_number("").is_err());
    assert!(VttParser::block_number("-1").is_err());
    assert!(VttParser::block_number("1 ").is_err());
    assert!(VttParser::block_number("99999999999999999999999999").is_err());
    assert_eq!(VttParser::block_number("+12").unwrap(), 12);
    assert_eq!(VttParser::block_number("007").unwrap(), 7);
    assert_eq!(VttParser::block_number("18446744073709551615").ok(), "18446744073709551615".parse::<usize>().ok());
}

#[test]
fn dotted_block_header_failures() {
    assert!(matches!(VttParser::block_header(""), Err(VttParserError::UnexpectedEndOfFile)));
    match VttParser::block_header("Pete") {
        Err(VttParserError::BlockHeaderInvalid(s)) => assert_eq!(s, "Pete"),
        other => panic!("unexpected {:?}", other),
    }
    match VttParser::block_header("Pete00:00:00.000 --> 00:00:01.000") {
        Err(VttParserError::BlockHeaderInvalid(s)) => {
            assert_eq!(s, "Pete00:00:00.000 --> 00:00:01.000")
        }
        other => panic!("unexpected {:?}", other),
    }
    match VttParser::block_header("Agent 7 00:00:00.000 --> 00:00:01.000") {
        Err(VttParserError::InvalidTimestamp(s)) => {
            assert_eq!(s, "7 00:00:00.000 --> 00:00:01.000")
        }
        other => panic!("unexpected {:?}", other),
    }
}

#[test]
fn dotted_block_header_with_empty_speaker() {
    let (speaker, start, end) = VttParser::block_header(" 00:00:00.000 --> 00:00:01.000").unwrap();
    assert_eq!(speaker, Some("".to_string()));
    assert_eq!(start.to_milliseconds(), 0);
    assert_eq!(end.to_milliseconds(), 1000);
}

#[test]
fn dotted_timestamps() {
    assert_eq!(VttParser::block_timestamp("01:02:03.004").unwrap().to_milliseconds(), 3_723_004);
    assert_eq!(
        VttParser::block_timestamp("99:59:59.998").unwrap().to_milliseconds(),
        359_999_998
    );
    for bad in [
        "",
        "1:02:03.004",
        "001:02:03.004",
        "01-02:03.004",
        "01:02-03.004",
        "01:02:03,004",
        "0a:02:03.004",
        "+1:02:03.004",
        "01:60:03.004",
        "01:02:60.004",
        "01:02:03.999",
        "01:02:03.0é",
    ] {
        match VttParser::block_timestamp(bad) {
            Err(VttParserError::InvalidTimestamp(s)) => assert_eq!(s, bad),
            other => panic!("unexpected {:?} for {:?}", other, bad),
        }
    }
}

#[test]
fn dotted_ranges() {
    let (start, end) =
        VttParser::block_header_timestamps("00:00:00.000 --> 00:00:01.001").unwrap();
    assert_eq!(start.to_milliseconds(), 0);
    assert_eq!(end.to_milliseconds(), 1001);
    for bad in [
        "00:00:00.000 -> 00:00:01.001",
        "00:00:00.000  --> 00:00:01.001",
        "00:00:00.000 --> 00:00:01.001 ",
        "00:00:00.000-->00:00:01.001",
        "",
    ] {
        match VttParser::block_header_timestamps(bad) {
            Err(VttParserError::InvalidTimestamp(s)) => assert_eq!(s, bad),
            other => panic!("unexpected {:?} for {:?}", other, bad),
        }
    }
    match VttParser::block_header_timestamps("00:00:00.000 --> 00:00:01") {
        Err(VttParserError::InvalidTimestamp(s)) => assert_eq!(s, "00:00:01"),
        other => panic!("unexpected {:?}", other),
    }
    match VttParser::block_header_timestamps("0:00:00.000 --> 00:00:01.000") {
        Err(VttParserError::InvalidTimestamp(s)) => assert_eq!(s, "0:00:00.000"),
        other => panic!("unexpected {:?}", other),
    }
}

#[test]
fn dotted_block_that_ends_before_it_starts() {
    match VttParser::parse("WEBVTT\n\n1\n00:00:02.000 --> 00:00:01.000\nx\n") {
        Err(VttParserError::EndsBeforeStart(start, end)) => {
            assert_eq!(start.to_milliseconds(), 2000);
            assert_eq!(end.to_milliseconds(), 1000);
        }
        other => panic!("unexpected {:?}", other),
    }
}

#[test]
fn dotted_first_failing_block_decides() {
    let text = "WEBVTT\n\n1\n00:00:00.000 --> 00:00:01.000\nfine\nx\n2\n00:00:01.000 --> 00:00:02.000\nsecond\n\nthree\n00:00:00.000 --> 00:00:01.000\nthird\n";
    match VttParser::parse(text) {
        Err(VttParserError::ExpectedBlankLine(s)) => assert_eq!(s, "x"),
        other => panic!("unexpected {:?}", other),
    }
}

#[test]
fn dotted_errors_in_words() {
    assert_eq!(VttParserError::UnexpectedEndOfFile.to_string(), "unexpected end of file");
    assert_eq!(
        VttParserError::FileNotReadable("a.vtt".to_string()).to_string(),
        "could not read file a.vtt"
    );
    assert_eq!(
        VttParserError::ExpectedBlankLine("x".to_string()).to_string(),
        "expected blank line, got x"
    );
    assert_eq!(
        VttParserError::ExpectedBlockNumber("x".to_string()).to_string(),
        "expected VTT block number, got x"
    );
    assert_eq!(
        VttParserError::BlockHeaderInvalid("x".to_string()).to_string(),
        "invalid VTT block from line x"
    );
    assert_eq!(
        VttParserError::InvalidTimestamp("x".to_string()).to_string(),
        "invalid VTT block from word x"
    );
    assert_eq!(
        VttParserError::EndsBeforeStart(
            SimpleTime::from_milliseconds(2000),
            SimpleTime::from_milliseconds(1000)
        )
        .to_string(),
        "VTT block ends at 00:00:01.000 before it starts at 00:00:02.000"
    );
}

#[test]
fn dotted_writer_parts() {
    let with_speaker = block(Some("Ann"), 3_723_004, 3_723_005, "hi");
    assert_eq!(
        VttWriter::block(&with_speaker, 12),
        "12\nAnn 01:02:03.004 --> 01:02:03.005\nhi\n"
    );
    let without = block(None, 0, 1, "hi");
    assert_eq!(VttWriter::block(&without, 1), "1\n00:00:00.000 --> 00:00:00.001\nhi\n");
    assert_eq!(VttWriter::timestamp(&SimpleTime::from_milliseconds(3_723_004)), "01:02:03.004");
    let plain = Caption { header: None, blocks: vec![] };
    assert_eq!(VttWriter::header(&plain), "WEBVTT\n");
    let titled = Caption { header: Some("T".to_string()), blocks: vec![] };
    assert_eq!(VttWriter::header(&titled), "T\n\nWEBVTT\n");
}

#[test]
fn comma_file_of_several_blocks() {
    let cap = SrtParser::parse(
        "1\n00:00:00,000 --> 00:00:01,000\n[Ann] first\n\n2\n00:00:01,000 --> 00:00:02,500\nsecond\n",
    )
    .unwrap();
    assert_eq!(cap.header, None);
    assert_eq!(cap.blocks.len(), 2);
    assert_eq!(cap.blocks[0].speaker(), Some("Ann".to_string()));
    assert_eq!(cap.blocks[0].text(), "first");
    assert_eq!(cap.blocks[1].speaker(), None);
    assert_eq!(cap.blocks[1].end().to_milliseconds(), 2500);
}

#[test]
fn comma_file_failures() {
    assert!(matches!(SrtParser::parse(""), Err(SrtParserError::UnexpectedEndOfFile)));
    assert!(matches!(
        SrtParser::parse("1\n00:00:00,000 --> 00:00:01,000\n"),
        Err(SrtParserError::UnexpectedEndOfFile)
    ));
    match SrtParser::parse("1\n00:00:00,000 --> 00:00:01,000\na\nb\n2\n00:00:00,000 --> 00:00:01,000\nc\n") {
        Err(SrtParserError::ExpectedBlankLine(s)) => assert_eq!(s, "b"),
        other => panic!("unexpected {:?}", other),
    }
    match SrtParser::parse("x\n00:00:00,000 --> 00:00:01,000\na\n") {
        Err(SrtParserError::ExpectedBlockNumber(s)) => assert_eq!(s, "x"),
        other => panic!("unexpected {:?}", other),
    }
    match SrtParser::parse("1\n00:00:00.000 --> 00:00:01,000\na\n") {
        Err(SrtParserError::InvalidTimestamp(s)) => assert_eq!(s, "00:00:00.000"),
        other => panic!("unexpected {:?}", other),
    }
    match SrtParser::parse("1\n00:00:03,000 --> 00:00:01,000\na\n") {
        Err(SrtParserError::EndsBeforeStart(start, end)) => {
            assert_eq!(start.to_milliseconds(), 3000);
            assert_eq!(end.to_milliseconds(), 1000);
        }
        other => panic!("unexpected {:?}", other),
    }
}

#[test]
fn comma_timestamps() {
    assert_eq!(SrtParser::block_timestamp("01:02:03,004").unwrap().to_milliseconds(), 3_723_004);
    match SrtParser::block_timestamp("01:02:03.004") {
        Err(SrtParserError::InvalidTimestamp(s)) => assert_eq!(s, "01:02:03.004"),
        other => panic!("unexpected {:?}", other),
    }
    match SrtParser::block_timestamps("00:00:00,000 00:00:01,000") {
        Err(SrtParserError::InvalidTimestamp(s)) => assert_eq!(s, "00:00:00,000 00:00:01,000"),
        other => panic!("unexpected {:?}", other),
    }
}

#[test]
fn comma_speaker_placement() {
    let (speaker, text) = SrtParser::block_text("plain text").unwrap();
    assert_eq!(speaker, None);
    assert_eq!(text, "plain text");
    let (speaker, text) = SrtParser::block_text("[Ann] ").unwrap();
    assert_eq!(speaker, Some("Ann".to_string()));
    assert_eq!(text, "");
    let (speaker, text) = SrtParser::block_text("[] x").unwrap();
    assert_eq!(speaker, Some("".to_string()));
    assert_eq!(text, "x");
    let (speaker, text) = SrtParser::block_text("[Zoë]-né").unwrap();
    assert_eq!(speaker, Some("Zoë".to_string()));
    assert_eq!(text, "né");
    for bad in ["say [Ann] hi", "[Ann hi", "[Ann]", "] [", "x["] {
        match SrtParser::block_text(bad) {
            Err(SrtParserError::InvalidSpeakerPlacement(s)) => assert_eq!(s, bad),
            other => panic!("unexpected {:?} for {:?}", other, bad),
        }
    }
}

#[test]
fn comma_errors_in_words() {
    assert_eq!(SrtParserError::UnexpectedEndOfFile.to_string(), "unexpected end of file");
    assert_eq!(
        SrtParserError::FileNotReadable("a.srt".to_string()).to_string(),
        "could not read file a.srt"
    );
    assert_eq!(
        SrtParserError::ExpectedBlankLine("x".to_string()).to_string(),
        "expected blank line, got x"
    );
    assert_eq!(
        SrtParserError::ExpectedBlockNumber("x".to_string()).to_string(),
        "expected SRT block number, got x"
    );
    assert_eq!(
        SrtParserError::BlockHeaderInvalid("x".to_string()).to_string(),
        "invalid SRT block from line x"
    );
    assert_eq!(
        SrtParserError::InvalidTimestamp("x".to_string()).to_string(),
        "invalid SRT block from word x"
    );
    assert_eq!(
        SrtParserError::InvalidSpeakerPlacement("x".to_string()).to_string(),
        "invalid SRT speaker placement in line x"
    );
    assert_eq!(
        SrtParserError::EndsBeforeStart(
            SimpleTime::from_milliseconds(2000),
            SimpleTime::from_milliseconds(1000)
        )
        .to_string(),
        "SRT block ends at 00:00:01,000 before it starts at 00:00:02,000"
    );
}

#[test]
fn comma_writer_parts() {
    let with_speaker = block(Some("Ann"), 3_723_004, 3_723_005, "hi");
    assert_eq!(
        SrtWriter::block(&with_speaker, 3),
        "3\n01:02:03,004 --> 01:02:03,005\n[Ann] hi\n"
    );
    assert_eq!(SrtWriter::timestamp(&SimpleTime::from_milliseconds(3_723_004)), "01:02:03,004");
    let two = Caption {
        header: Some("dropped".to_string()),
        blocks: vec![block(None, 0, 1, "a"), block(None, 1, 2, "b")],
    };
    assert_eq!(
        SrtWriter::write(&two),
        "1\n00:00:00,000 --> 00:00:00,001\na\n\n2\n00:00:00,001 --> 00:00:00,002\nb\n"
    );
}
