use ccap::{Caption, CaptionBlock, SimpleTime};

fn block(speaker: Option<&str>, start: usize, end: usize, text: &str) -> CaptionBlock {
    CaptionBlock::from(
        speaker.map(|s| s.to_string()),
        SimpleTime::from_milliseconds(start),
        SimpleTime::from_milliseconds(end),
        text.to_string(),
    )
    .unwrap()
}

#[test]
fn offset_caption() {
    let mut c = Caption {
        header: None,
        blocks: vec![block(None, 0, 1000, "John Dies at the End")],
    };
    c.offset_milliseconds(500).expect("Should be fine");
    assert_eq!(c.blocks[0].start().to_milliseconds(), 500);
    assert_eq!(c.blocks[0].end().to_milliseconds(), 1500);
}

#[test]
fn concatenate_captions() {
    let c1 = Caption {
        header: None,
        blocks: vec![block(None, 0, 1000, "John Dies at the End")],
    };
    let c2 = Caption {
        header: None,
        blocks: vec![block(None, 0, 1000, "John is dead now")],
    };
    let c3 = Caption {
        header: None,
        blocks: vec![
            block(None, 0, 1000, "Go read the book!"),
            block(None, 1200, 2400, "Seriously."),
        ],
    };
    let c = Caption::concatenate(vec![c1, c2, c3]).unwrap();
    assert_eq!(c.blocks[0].start().to_milliseconds(), 0);
    assert_eq!(c.blocks[0].end().to_milliseconds(), 1000);
    assert_eq!(c.blocks[1].start().to_milliseconds(), 1000);
    assert_eq!(c.blocks[1].end().to_milliseconds(), 2000);
    assert_eq!(c.blocks[2].start().to_milliseconds(), 2000);
    assert_eq!(c.blocks[2].end().to_milliseconds(), 3000);
    assert_eq!(c.blocks[3].start().to_milliseconds(), 3200);
    assert_eq!(c.blocks[3].end().to_milliseconds(), 4400);
}
