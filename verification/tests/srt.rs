use ccap::{Caption, CaptionBlock, SimpleTime, SrtParser, SrtParserError, SrtWriter};

#[test]
fn lib_parse() {
    let s = format!(
        "{}\n{}\n{}\n",
        1, "00:00:00,000 --> 00:00:01,000", "[Peter Molfese] Hello, welcome to the caption tool!"
    );
    let cap = SrtParser::parse(&s).expect("Should have passed!");
    assert_eq!(cap.header, None);
    let expected_block = CaptionBlock::from(
        Some("Peter Molfese".to_string()),
        SimpleTime::from_milliseconds(0),
        SimpleTime::from_milliseconds(1000),
        "Hello, welcome to the caption tool!".to_string(),
    )
    .unwrap();
    assert_eq!(cap.blocks.len(), 1);
    let received_block = &cap.blocks[0];
    assert_eq!(expected_block.speaker(), received_block.speaker());
    assert_eq!(expected_block.start(), received_block.start());
    assert_eq!(expected_block.end(), received_block.end());
    assert_eq!(expected_block.text(), received_block.text());
}

#[test]
fn lib_test_parse_block_no() {
    let n = SrtParser::block_number("1").expect("");
    assert_eq!(n, 1);

    let n = SrtParser::block_number("a");
    match n {
        Ok(_) => panic!("Test failure! SrtParser parses 'a'"),
        Err(e) => {
            match e {
                SrtParserError::UnexpectedEndOfFile => {
                    panic!("Test failure! SrtParser wrong err");
                }
                SrtParserError::ExpectedBlockNumber(s) => {
                    assert_eq!(s, "a");
                }
                _ => panic!("Unknown test failure"),
            };
        }
    };
}

#[test]
fn test_parse_block_timestamps() {
    let test_str_1 = "00:00:00,000 --> 00:00:01,001";
    let r = SrtParser::block_timestamps(test_str_1);
    match r {
        Ok((start, end)) => {
            assert_eq!(start.to_milliseconds(), 0);
            assert_eq!(end.to_milliseconds(), 1001);
        }
        _ => panic!("Test failed"),
    }
}

#[test]
fn test_parse_block_timestamps_missing_start() {
    let test_str_3 = "--> 00:00:01,001";
    let r = SrtParser::block_timestamps(test_str_3);
    match r {
        Ok((start, end)) => {
            panic!("Parsed {:?}, {:?} when should have failed", start, end);
        }
        Err(e) => {
            match e {
                SrtParserError::InvalidTimestamp(_s) => {}
                _ => panic!("Test failed in unexpected way"),
            };
        }
    };
}

#[test]
fn lib_test_parse_block_text() {
    let spk = "Peter Molfese";
    let txt = "The quick brown fox jumps over the lazy dog.";

    let test_str = format!("[{}] {}", spk, txt);
    let (speaker, text) = SrtParser::block_text(&test_str).expect("Should be fine");
    assert_eq!(speaker, Some(spk.to_string()));
    assert_eq!(text, txt.to_string());
}

#[test]
fn lib_test_parse_block() {
    let start = "00:00:00,000";
    let end = "00:00:01,000";
    let text = "The quick brown fox jumps over the lazy dog";
    let test_input = format!("\n{}\n{} --> {}\n{}\n", 1, start, end, text);
    let cb = SrtParser::block(&test_input).expect("Failed test");
    assert_eq!(cb.start().to_milliseconds(), 0);
    assert_eq!(cb.end().to_milliseconds(), 1000);
    assert_eq!(cb.speaker(), None);
    assert_eq!(cb.text(), text);
}

#[test]
fn lib_test_parse_block_fails_insufficient_lines() {
    let x = SrtParser::block("thing\n");
    match x {
        Err(SrtParserError::UnexpectedEndOfFile) => {}
        _ => panic!("Didn't get unexpected EOF {:?}", x),
    };
}

#[test]
fn lib_write() {
    let cap = Caption {
        header: None,
        blocks: vec![CaptionBlock::from(
            Some("Pete Molfese".to_string()),
            SimpleTime::from_milliseconds(0),
            SimpleTime::from_milliseconds(1000),
            "Hello, world!".to_string(),
        )
        .unwrap()],
    };
    let should_get = format!(
        "{}\n{} --> {}\n{}\n",
        1, "00:00:00,000", "00:00:01,000", "[Pete Molfese] Hello, world!"
    );
    assert_eq!(SrtWriter::write(&cap), should_get);
}
