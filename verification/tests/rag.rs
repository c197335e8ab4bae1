use ai_companion::rag::{split_text, Chunk};

fn flat(v: &[Chunk]) -> Vec<(String, usize)> {
    v.iter().map(|c| (c.text.clone(), c.seq)).collect()
}

fn s(x: &str) -> String {
    x.to_string()
}

#[test]
fn short_text_is_one_piece() {
    assert_eq!(flat(&split_text("short", 10, 2)), vec![(s("short"), 0)]);
    assert_eq!(flat(&split_text("", 0, 50)), vec![(s(""), 0)]);
}

#[test]
fn pieces_end_after_sentence_marks() {
    assert_eq!(
        flat(&split_text("Hello world. This is a test! Done.", 12, 0)),
        vec![(s("Hello world."), 0), (s(" This is a t"), 1), (s("est! Done."), 2)]
    );
    assert_eq!(
        flat(&split_text("你好世界再见朋友", 6, 0)),
        vec![(s("你好"), 0), (s("世界"), 1), (s("再见"), 2), (s("朋友"), 3)]
    );
    assert_eq!(flat(&split_text("ab. cd", 4, 10)), vec![(s("ab."), 0), (s(" cd"), 1)]);
}

#[test]
fn window_slides_to_the_end() {
    assert_eq!(
        flat(&split_text("abcdefghij", 4, 1)),
        vec![(s("abcd"), 0), (s("defg"), 1), (s("ghij"), 2)]
    );
    assert_eq!(flat(&split_text("abcdefghij", 4, 0)).len(), 3);
    assert_eq!(flat(&split_text("ab", 0, 0)), vec![(s("a"), 0), (s("b"), 1)]);
    let long = "x".repeat(1200);
    let pieces = split_text(&long, 512, 50);
    assert_eq!(pieces.len(), 3);
    assert!(pieces.iter().all(|c| c.text.len() <= 512));
    assert_eq!(pieces.iter().map(|c| c.seq).collect::<Vec<_>>(), vec![0, 1, 2]);
}

#[test]
fn windows_keep_characters_whole() {
    assert_eq!(
        flat(&split_text("你好。世界！再见", 9, 0)),
        vec![(s("你好。"), 0), (s("世界！"), 1), (s("再见"), 2)]
    );
    assert_eq!(
        flat(&split_text("你好世界", 4, 0)),
        vec![(s("你"), 0), (s("好"), 1), (s("世"), 2), (s("界"), 3)]
    );
    assert_eq!(
        flat(&split_text("你好世界", 4, 2)),
        vec![(s("你"), 0), (s("好"), 1), (s("世"), 2), (s("界"), 3)]
    );
}
