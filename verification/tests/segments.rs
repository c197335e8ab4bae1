use ai_companion::models::{MessageSegment, SegmentType};
use ai_companion::segments::{split_content_to_segments, split_lines_pub, split_text_to_plain_and_images};

fn view(v: &[MessageSegment]) -> Vec<(SegmentType, Option<String>, Option<String>, Option<String>)> {
    v.iter().map(|m| (m.segment_type, m.content.clone(), m.language.clone(), m.image_url.clone())).collect()
}

fn some(x: &str) -> Option<String> {
    Some(x.to_string())
}

#[test]
fn lines_like_str_lines() {
    let v: Vec<char> = "a\r\nb\n\nc\n".chars().collect();
    let lines: Vec<String> = split_lines_pub(&v).into_iter().map(|l| l.into_iter().collect()).collect();
    assert_eq!(lines, "a\r\nb\n\nc\n".lines().map(|l| l.to_string()).collect::<Vec<_>>());
    assert!(split_lines_pub(&vec![]).is_empty());
}

#[test]
fn text_and_images() {
    let t: Vec<char> = " look ![a cat](http://c.png)![](u) and ![x]() end ".chars().collect();
    assert_eq!(
        view(&split_text_to_plain_and_images(&t)),
        vec![
            (SegmentType::Text, some("look"), None, None),
            (SegmentType::Image, some("a cat"), None, some("http://c.png")),
            (SegmentType::Image, some(""), None, some("u")),
            (SegmentType::Text, some("and ![x]() end"), None, None),
        ]
    );
    assert!(split_text_to_plain_and_images(&"   ".chars().collect()).is_empty());
}

#[test]
fn code_blocks_text_and_images() {
    let content = "Intro text\n```rust\nfn main() {}\n\n```\nSee ![cat](http://c.png) here\n```\nunclosed";
    assert_eq!(
        view(&split_content_to_segments(content)),
        vec![
            (SegmentType::Text, some("Intro text"), None, None),
            (SegmentType::Code, some("fn main() {}"), some("rust"), None),
            (SegmentType::Text, some("See"), None, None),
            (SegmentType::Image, some("cat"), None, some("http://c.png")),
            (SegmentType::Text, some("here"), None, None),
            (SegmentType::Code, some("unclosed"), None, None),
        ]
    );
}

#[test]
fn unclosed_code_block_is_kept() {
    assert_eq!(
        view(&split_content_to_segments("a\n```\ncode")),
        vec![(SegmentType::Text, some("a"), None, None), (SegmentType::Code, some("code"), None, None)]
    );
    assert_eq!(
        view(&split_content_to_segments("```py\nx = 1\n\n")),
        vec![(SegmentType::Code, some("x = 1"), some("py"), None)]
    );
}

#[test]
fn plain_reply_is_one_text_segment() {
    assert_eq!(view(&split_content_to_segments("  你好\n世界  ")), vec![(SegmentType::Text, some("你好\n世界"), None, None)]);
    assert!(split_content_to_segments("").is_empty());
    assert_eq!(
        view(&split_content_to_segments("```\ncode\n```")),
        vec![(SegmentType::Code, some("code"), None, None)]
    );
}
