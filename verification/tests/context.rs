use ai_companion::context::{build_augmented_system_prompt, build_knowledge_context, KnowledgeChunk};
use ai_companion::tokens::estimate_tokens;

fn s(x: &str) -> String {
    x.to_string()
}

#[test]
fn knowledge_note() {
    assert_eq!(build_knowledge_context(&vec![]), "");
    let chunks = vec![
        KnowledgeChunk { doc_title: Some(s("手册")), text: s("  第一段 \n") },
        KnowledgeChunk { doc_title: None, text: s("第二段") },
    ];
    assert_eq!(
        build_knowledge_context(&chunks),
        "以下是从知识库检索到的相关内容，请基于这些信息回答用户问题：\n\n[片段1] 来源：手册\n第一段\n\n[片段2] 来源：未知文档\n第二段\n\n（以上为参考资料，请结合对话上下文作答）"
    );
}

#[test]
fn prompt_without_notes_is_the_base() {
    let (text, tokens) = build_augmented_system_prompt("你是小助手", "", "", "", "", 0);
    assert_eq!(text, "你是小助手");
    assert_eq!(tokens, estimate_tokens("你是小助手"));
}

#[test]
fn prompt_with_all_notes() {
    let (text, tokens) = build_augmented_system_prompt("BASE", "KNOW", "MEM", "REL", "CORE", 100);
    let expected = "BASE\n\n---\nREL\n\nCORE\n\nKNOW\n\nMEM\n---\n";
    assert_eq!(text, expected);
    assert_eq!(tokens, estimate_tokens(expected));
}

#[test]
fn notes_that_do_not_fit_are_left_out() {
    let (text, _) = build_augmented_system_prompt("BASE", "KNOW", "MEM", "REL", "", 2_000_000);
    assert_eq!(text, "BASE\n\n---\nREL\n---\n");
    let (text, _) = build_augmented_system_prompt("BASE", "KNOW", "MEM", "", "", 2_000_000);
    assert_eq!(text, "BASE");
}
