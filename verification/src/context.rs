//! The context given to the model with each request: the persona's system
//! prompt, then the relationship and core memory notes, knowledge found in
//! the library and long-term memories, each within a share of the token
//! budget.

use vstd::prelude::*;
use vstd::string::StringExecFns;
use crate::segments::{spec_lines, vv, split_lines_pub};
use crate::text::{
    chars_of, trim_chars, string_from_chars, spec_trim, spec_join, join_strs, strs_view,
    lemma_strs_view_push, spec_decimal, decimal_string,
};
use crate::tokens::{estimate_tokens, spec_estimate_tokens, MAX_CONTEXT_TOKENS, RESERVED_OUTPUT_TOKENS};

verus! {

/// Tokens kept for the system prompt itself.
pub const SYSTEM_PROMPT_RESERVE: usize = 4096;

/// The most tokens knowledge from the library may take.
pub const KNOWLEDGE_RESERVE: usize = 200_000;

/// The most tokens long-term memories may take.
pub const MEMORY_RESERVE: usize = 50_000;

/// A piece of a document found in the knowledge library.
pub struct KnowledgeChunk {
    pub doc_title: Option<String>,
    pub text: String,
}

/// The text of one knowledge piece, numbered from 1.
pub open spec fn knowledge_item(i: int, c: KnowledgeChunk) -> Seq<char> {
    "[片段"@ + spec_decimal((i + 1) as nat) + "] 来源："@ + match c.doc_title {
        Some(t) => t@,
        None => "未知文档"@,
    } + "\n"@ + spec_trim(c.text@)
}

/// The knowledge note: an introduction, each piece, and a closing remark,
/// separated by blank lines; empty without pieces.
pub open spec fn spec_knowledge_context(chunks: Seq<KnowledgeChunk>) -> Seq<char> {
    if chunks.len() == 0 {
        Seq::empty()
    } else {
        spec_join(
            seq!["以下是从知识库检索到的相关内容，请基于这些信息回答用户问题："@] + Seq::new(chunks.len(), |i: int| knowledge_item(i, chunks[i]))
                + seq!["（以上为参考资料，请结合对话上下文作答）"@],
            "\n\n"@,
        )
    }
}

/// Writes the knowledge note.
pub fn build_knowledge_context(chunks: &Vec<KnowledgeChunk>) -> (r: String)
    ensures
        r@ == spec_knowledge_context(chunks@),
{
    if chunks.len() == 0 {
        return String::new();
    }
    let mut parts: Vec<String> = Vec::new();
    parts.push(String::from_str("以下是从知识库检索到的相关内容，请基于这些信息回答用户问题："));
    let ghost head = seq!["以下是从知识库检索到的相关内容，请基于这些信息回答用户问题："@];
    assert(strs_view(parts@) =~= head);
    let mut k: usize = 0;
    while k < chunks.len()
        invariant
            k <= chunks@.len(),
            head == seq!["以下是从知识库检索到的相关内容，请基于这些信息回答用户问题："@],
            strs_view(parts@) == head + Seq::new(k as nat, |i: int| knowledge_item(i, chunks@[i])),
        decreases chunks.len() - k,
    {
        let c = &chunks[k];
        let mut s = String::from_str("[片段");
        s.append(decimal_string((k + 1) as u64).as_str());
        s.append("] 来源：");
        match &c.doc_title {
            Some(t) => s.append(t.as_str()),
            None => s.append("未知文档"),
        }
        s.append("\n");
        s.append(string_from_chars(&trim_chars(&chars_of(c.text.as_str()))).as_str());
        assert(s@ == knowledge_item(k as int, chunks@[k as int]));
        let ghost before = parts@;
        parts.push(s);
        proof {
            lemma_strs_view_push(before, s);
            assert(head + Seq::new((k + 1) as nat, |i: int| knowledge_item(i, chunks@[i])) =~= (head + Seq::new(
                k as nat,
                |i: int| knowledge_item(i, chunks@[i]),
            )).push(s@));
        }
        k += 1;
    }
    let tail = String::from_str("（以上为参考资料，请结合对话上下文作答）");
    let ghost before = parts@;
    parts.push(tail);
    proof {
        lemma_strs_view_push(before, tail);
    }
    assert(strs_view(parts@) =~= seq!["以下是从知识库检索到的相关内容，请基于这些信息回答用户问题："@] + Seq::new(
        chunks@.len(),
        |i: int| knowledge_item(i, chunks@[i]),
    ) + seq!["（以上为参考资料，请结合对话上下文作答）"@]);
    join_strs(&parts, "\n\n")
}

/// The lines of a note that fit in `budget` tokens, each followed by a line
/// break, from the first on until one does not fit; with the tokens they
/// take.
pub open spec fn fit_lines(lines: Seq<Seq<char>>, budget: nat, acc: Seq<char>, used: nat) -> (Seq<char>, nat)
    decreases lines.len(),
{
    if lines.len() == 0 {
        (acc, used)
    } else {
        let lt = spec_estimate_tokens(lines[0]);
        if used + lt > budget {
            (acc, used)
        } else {
            fit_lines(lines.drop_first(), budget, acc + lines[0] + seq!['\n'], used + lt)
        }
    }
}

fn fit_lines_exec(text: &str, budget: usize) -> (r: (String, usize))
    ensures
        (r.0@, r.1 as nat) == fit_lines(spec_lines(text@), budget as nat, Seq::empty(), 0),
{
    let lines = split_lines_pub(&chars_of(text));
    let ghost ls = vv(lines@);
    let mut acc = String::new();
    let mut used: usize = 0;
    let mut k: usize = 0;
    assert(ls.skip(0) =~= ls);
    while k < lines.len()
        invariant
            k <= lines@.len(),
            ls == vv(lines@),
            ls == spec_lines(text@),
            used <= budget,
            fit_lines(ls.skip(k as int), budget as nat, acc@, used as nat) == fit_lines(ls, budget as nat, Seq::empty(), 0),
        decreases lines.len() - k,
    {
        let line = string_from_chars(&lines[k]);
        let lt = estimate_tokens(line.as_str());
        assert(line@ == ls[k as int]);
        assert(ls.skip(k as int)[0] == ls[k as int]);
        assert(ls.skip(k as int).drop_first() =~= ls.skip(k + 1));
        if lt > budget - used {
            return (acc, used);
        }
        let ghost old_acc = acc@;
        acc.append(line.as_str());
        acc.append("\n");
        proof {
            reveal_strlit("\n");
            assert(acc@ =~= old_acc + ls[k as int] + seq!['\n']);
        }
        used = used + lt;
        k += 1;
    }
    assert(ls.skip(k as int) =~= Seq::<Seq<char>>::empty());
    (acc, used)
}

/// What is left of `a` after taking away `b`, not below zero.
pub open spec fn sat_sub(a: int, b: int) -> int {
    if a > b {
        a - b
    } else {
        0
    }
}

/// The tokens a note takes in the context: its estimate and 32 more, none
/// when it is empty.
pub open spec fn note_tokens(note: Seq<char>) -> int {
    if note.len() == 0 {
        0
    } else {
        (spec_estimate_tokens(note) + 32) as int
    }
}

/// The system prompt with its notes, and its estimated tokens.  The notes
/// share what the base prompt, the reserves and the history leave of the
/// context: the relationship and core memory notes always go in; the
/// knowledge note goes in whole when it fits its share (at most 200 000
/// tokens), else as many of its first lines as fit when the share exceeds
/// 200 tokens; then the memory note likewise with at most 50 000 tokens and
/// a floor of 100.  Without notes the base prompt stands alone.
pub open spec fn spec_augment(
    base: Seq<char>,
    knowledge: Seq<char>,
    memory: Seq<char>,
    relationship: Seq<char>,
    core: Seq<char>,
    history_tokens: nat,
) -> (Seq<char>, nat) {
    let base_tokens = spec_estimate_tokens(base);
    let avail0 = sat_sub(
        MAX_CONTEXT_TOKENS as int,
        base_tokens + note_tokens(relationship) + note_tokens(core) + SYSTEM_PROMPT_RESERVE + RESERVED_OUTPUT_TOKENS + history_tokens,
    );
    let parts0 = (if relationship.len() > 0 {
        seq![relationship]
    } else {
        Seq::empty()
    }) + (if core.len() > 0 {
        seq![core]
    } else {
        Seq::empty()
    });
    let kb = if avail0 < KNOWLEDGE_RESERVE { avail0 } else { KNOWLEDGE_RESERVE as int };
    let kt = spec_estimate_tokens(knowledge);
    let kfit = fit_lines(spec_lines(knowledge), kb as nat, Seq::empty(), 0);
    let (parts1, avail1) = if knowledge.len() == 0 {
        (parts0, avail0)
    } else if kt <= kb {
        (parts0.push(knowledge), sat_sub(avail0, kt as int))
    } else if kb > 200 && kfit.0.len() > 0 {
        (parts0.push(kfit.0), sat_sub(avail0, kfit.1 as int))
    } else {
        (parts0, avail0)
    };
    let mb = if avail1 < MEMORY_RESERVE { avail1 } else { MEMORY_RESERVE as int };
    let mt = spec_estimate_tokens(memory);
    let mfit = fit_lines(spec_lines(memory), mb as nat, Seq::empty(), 0);
    let parts2 = if memory.len() == 0 {
        parts1
    } else if mt <= mb {
        parts1.push(memory)
    } else if mb > 100 && mfit.0.len() > 0 {
        parts1.push(mfit.0)
    } else {
        parts1
    };
    if parts2.len() == 0 {
        (base, base_tokens)
    } else {
        let text = base + "\n\n---\n"@ + spec_join(parts2, "\n\n"@) + "\n---\n"@;
        (text, spec_estimate_tokens(text))
    }
}

fn note_tokens_exec(note: &str) -> (r: usize)
    ensures
        r == note_tokens(note@),
        r <= 16777216 + 32,
{
    if note.is_empty() {
        0
    } else {
        estimate_tokens(note) + 32
    }
}

/// Builds the system prompt with its notes, within the token budget that
/// the history (`history_tokens`) leaves.
pub fn build_augmented_system_prompt(
    base: &str,
    knowledge: &str,
    memory: &str,
    relationship: &str,
    core: &str,
    history_tokens: usize,
) -> (r: (String, usize))
    ensures
        (r.0@, r.1 as nat) == spec_augment(base@, knowledge@, memory@, relationship@, core@, history_tokens as nat),
{
    let base_tokens = estimate_tokens(base);
    let rel_tokens = note_tokens_exec(relationship);
    let core_tokens = note_tokens_exec(core);
    let mut avail: usize = MAX_CONTEXT_TOKENS;
    avail = avail.saturating_sub(base_tokens);
    avail = avail.saturating_sub(rel_tokens);
    avail = avail.saturating_sub(core_tokens);
    avail = avail.saturating_sub(SYSTEM_PROMPT_RESERVE);
    avail = avail.saturating_sub(RESERVED_OUTPUT_TOKENS);
    avail = avail.saturating_sub(history_tokens);
    let ghost avail0 = avail as int;
    let mut parts: Vec<String> = Vec::new();
    if !relationship.is_empty() {
        parts.push(String::from_str(relationship));
    }
    if !core.is_empty() {
        parts.push(String::from_str(core));
    }
    let ghost parts0 = strs_view(parts@);
    assert(parts0 =~= (if relationship@.len() > 0 {
        seq![relationship@]
    } else {
        Seq::empty()
    }) + (if core@.len() > 0 {
        seq![core@]
    } else {
        Seq::empty()
    }));
    if !knowledge.is_empty() {
        let kt = estimate_tokens(knowledge);
        let kb = if avail < KNOWLEDGE_RESERVE {
            avail
        } else {
            KNOWLEDGE_RESERVE
        };
        if kt <= kb {
            let ghost before = parts@;
            let s = String::from_str(knowledge);
            parts.push(s);
            proof {
                lemma_strs_view_push(before, s);
            }
            avail = avail.saturating_sub(kt);
        } else if kb > 200 {
            let (t, used) = fit_lines_exec(knowledge, kb);
            if !t.as_str().is_empty() {
                let ghost before = parts@;
                parts.push(t);
                proof {
                    lemma_strs_view_push(before, t);
                }
                avail = avail.saturating_sub(used);
            }
        }
    }
    let ghost parts1 = strs_view(parts@);
    if !memory.is_empty() {
        let mt = estimate_tokens(memory);
        let mb = if avail < MEMORY_RESERVE {
            avail
        } else {
            MEMORY_RESERVE
        };
        if mt <= mb {
            let ghost before = parts@;
            let s = String::from_str(memory);
            parts.push(s);
            proof {
                lemma_strs_view_push(before, s);
            }
        } else if mb > 100 {
            let (t, _used) = fit_lines_exec(memory, mb);
            if !t.as_str().is_empty() {
                let ghost before = parts@;
                parts.push(t);
                proof {
                    lemma_strs_view_push(before, t);
                }
            }
        }
    }
    if parts.len() == 0 {
        return (String::from_str(base), base_tokens);
    }
    let mut text = String::from_str(base);
    text.append("\n\n---\n");
    text.append(join_strs(&parts, "\n\n").as_str());
    text.append("\n---\n");
    let n = estimate_tokens(text.as_str());
    (text, n)
}

} // verus!
