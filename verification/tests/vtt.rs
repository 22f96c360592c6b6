use ccap::{Caption, CaptionBlock, SimpleTime, VttParser, VttParserError, VttWriter};

fn block(speaker: Option<&str>, start: usize, end: usize, text: &str) -> CaptionBlock {
    CaptionBlock::from(
        speaker.map(|s| s.to_string()),
        SimpleTime::from_milliseconds(start),
        SimpleTime::from_milliseconds(end),
        text.to_string(),
    )
    .unwrap()
}

#[test]
fn write() {
    let cap = Caption {
        header: None,
        blocks: vec![block(Some("Pete Molfese"), 0, 1000, "Hello, world!")],
    };
    let should_get = format!(
        "WEBVTT\n\n{}\n{} {} --> {}\n{}\n",
        1, "Pete Molfese", "00:00:00.000", "00:00:01.000", "Hello, world!"
    );
    assert_eq!(VttWriter::write(&cap), should_get);
}

#[test]
fn write_with_header() {
    let cap = Caption {
        header: Some("This is a VERY cool test".to_string()),
        blocks: vec![
            block(None, 0, 1500, "We're doing very cool things"),
            block(None, 1500, 2500, "The COOLEST things!"),
        ],
    };
    let should_get = format!(
        "{}\n\nWEBVTT\n\n{}\n{} --> {}\n{}\n\n{}\n{} --> {}\n{}\n",
        "This is a VERY cool test",
        1,
        "00:00:00.000",
        "00:00:01.500",
        "We're doing very cool things",
        2,
        "00:00:01.500",
        "00:00:02.500",
        "The COOLEST things!"
    );
    assert_eq!(VttWriter::write(&cap), should_get);
}

#[test]
fn parse() {
    let block = format!(
        "\n{}\n{}\n{}\n",
        1, "Pete Molfese 00:00:00.000 --> 00:00:01.000", "Hello, welcome to the caption tool!"
    );
    let s = format!("WEBVTT\n{}", block);
    let cap = VttParser::parse(&s).expect("Should have passed!");
    assert_eq!(cap.header, None);
    let expected_block = CaptionBlock::from(
        Some("Pete Molfese".to_string()),
        SimpleTime::from_milliseconds(0),
        SimpleTime::from_milliseconds(1000),
        "Hello, welcome to the caption tool!".to_string(),
    )
    .unwrap();
    assert_eq!(cap.blocks.len(), 1);
    let received_block = &cap.blocks[0];
    assert_eq!(expected_block.speaker(), received_block.speaker());
    assert_eq!(expected_block.start(), received_block.start());
    assert_eq!(expected_block.end(), received_block.end());
    assert_eq!(expected_block.text(), received_block.text());
}

#[test]
fn parse_header() {
    let h1 = "This is an event!";
    let h2 = "Loads of cool presenters, all fabulous!";
    let fake_block = format!("\n{}\n{}\n{}\n", 1, " ", " ");
    let s = format!("{}\n{}\n\n\nWEBVTT\n{}", h1, h2, fake_block);
    let (header, line_number) = VttParser::header(&s).expect("Should not have failed to parse!");
    assert_eq!(header, Some(format!("{}\n{}", h1, h2)));
    assert_eq!(line_number, 4);
}

#[test]
fn parse_no_header() {
    let fake_block = format!("\n{}\n{}\n{}\n", 1, " ", " ");
    let s = format!("WEBVTT\n{}", fake_block);
    let (header, line_number) = VttParser::header(&s).expect("Should not have failed to parse!");
    assert_eq!(header, None);
    assert_eq!(line_number, 0);
}

#[test]
fn test_parse_block_no() {
    let n = VttParser::block_number("1").expect("");
    assert_eq!(n, 1);

    let n = VttParser::block_number("a");
    match n {
        Ok(_) => panic!("Test failure! VttParser parses 'a'"),
        Err(e) => {
            match e {
                VttParserError::UnexpectedEndOfFile => {
                    panic!("Test failure! VttParser wrong err");
                }
                VttParserError::ExpectedBlockNumber(s) => {
                    assert_eq!(s, "a");
                }
                _ => panic!("Unknown test failure"),
            };
        }
    };
}

#[test]
fn test_parse_block_header_no_name() {
    let test_str_1 = "00:00:00.000 --> 00:00:01.001";
    let r = VttParser::block_header(test_str_1);
    match r {
        Ok((None, start, end)) => {
            assert_eq!(start.to_milliseconds(), 0);
            assert_eq!(end.to_milliseconds(), 1001);
        }
        _ => panic!("Test failed"),
    }
}

#[test]
fn test_parse_block_header_with_name() {
    let test_str_2 = "Pete Molfese 00:00:00.000 --> 00:00:01.001";
    let r = VttParser::block_header(test_str_2);
    match r {
        Ok((Some(s), start, end)) => {
            assert_eq!(s, "Pete Molfese");
            assert_eq!(start.to_milliseconds(), 0);
            assert_eq!(end.to_milliseconds(), 1001);
        }
        Ok((None, _start, _end)) => {
            panic!("Did not parse out any names");
        }
        Err(e) => {
            panic!("Test failed with error {:?}", e);
        }
    }
}

#[test]
fn test_parse_block_header_missing_start() {
    let test_str_3 = "--> 00:00:01.001";
    let r = VttParser::block_header(test_str_3);
    match r {
        Ok((name, start, end)) => {
            panic!("Parsed {:?}, {:?}, {:?} when should have failed", name, start, end);
        }
        Err(e) => {
            match e {
                VttParserError::InvalidTimestamp(_s) => {}
                _ => panic!("Test failed in unexpected way"),
            };
        }
    };
}

#[test]
fn test_parse_block_text() {
    let test_str = "The quick brown fox jumps over the lazy dog.";
    let text = VttParser::block_text(test_str);
    assert_eq!(text, test_str.to_string());
}

#[test]
fn test_parse_block() {
    let start = "00:00:00.000";
    let end = "00:00:01.000";
    let text = "The quick brown fox jumps over the lazy dog";
    let test_input = format!("\n{}\n{} --> {}\n{}\n", 1, start, end, text);
    let cb = VttParser::block(&test_input).expect("Failed test");
    assert_eq!(cb.start().to_milliseconds(), 0);
    assert_eq!(cb.end().to_milliseconds(), 1000);
    assert_eq!(cb.speaker(), None);
    assert_eq!(cb.text(), text);
}

#[test]
fn test_parse_block_fails_insufficient_lines() {
    let x = VttParser::block("thing\n");
    match x {
        Err(VttParserError::UnexpectedEndOfFile) => {}
        _ => panic!("Didn't get unexpected EOF {:?}", x),
    };
}
