//! Turning a finished reply into display segments: fenced code blocks
//! become code segments, Markdown images `![alt](url)` become image
//! segments, and the text around them becomes text segments.

use vstd::prelude::*;
use crate::models::{MessageSegment, SegmentType};
use crate::text::{spec_trim, trim_chars, string_from_chars, copy_range, trim_start, is_whitespace};

verus! {

// ---------------------------------------------------------------------------
// Lines
// ---------------------------------------------------------------------------

/// A line without the carriage return of a CRLF ending.
pub open spec fn strip_cr(l: Seq<char>) -> Seq<char> {
    if l.len() > 0 && l.last() == '\r' {
        l.drop_last()
    } else {
        l
    }
}

/// The lines of `s` as `str::lines` yields them, `cur` being the line in
/// progress: split at each newline, a CRLF ending stripped, and no empty
/// line after a final newline.
pub open spec fn lines_from(s: Seq<char>, cur: Seq<char>) -> Seq<Seq<char>>
    decreases s.len(),
{
    if s.len() == 0 {
        if cur.len() > 0 {
            seq![cur]
        } else {
            Seq::empty()
        }
    } else if s[0] == '\n' {
        seq![strip_cr(cur)] + lines_from(s.drop_first(), Seq::empty())
    } else {
        lines_from(s.drop_first(), cur.push(s[0]))
    }
}

/// The lines of a text.
pub open spec fn spec_lines(s: Seq<char>) -> Seq<Seq<char>> {
    lines_from(s, Seq::empty())
}

/// The character sequences of a vector of character vectors.
pub open spec fn vv(s: Seq<Vec<char>>) -> Seq<Seq<char>> {
    s.map_values(|v: Vec<char>| v@)
}

/// Splits characters into lines as `str::lines` does.
pub fn split_lines_pub(s: &Vec<char>) -> (r: Vec<Vec<char>>)
    ensures
        vv(r@) == spec_lines(s@),
{
    split_lines(s)
}

fn split_lines(s: &Vec<char>) -> (r: Vec<Vec<char>>)
    ensures
        vv(r@) == spec_lines(s@),
{
    let mut out: Vec<Vec<char>> = Vec::new();
    let mut cur: Vec<char> = Vec::new();
    let mut i: usize = 0;
    assert(s@.skip(0) =~= s@);
    assert(vv(out@) =~= Seq::<Seq<char>>::empty());
    while i < s.len()
        invariant
            i <= s.len(),
            vv(out@) + lines_from(s@.skip(i as int), cur@) == spec_lines(s@),
        decreases s.len() - i,
    {
        let ghost rest = s@.skip(i as int);
        assert(rest.drop_first() =~= s@.skip(i + 1));
        if s[i] == '\n' {
            let n = cur.len();
            let line = if n > 0 && cur[n - 1] == '\r' {
                copy_range(&cur, 0, n - 1)
            } else {
                copy_range(&cur, 0, n)
            };
            assert(line@ =~= strip_cr(cur@));
            let ghost before = vv(out@);
            out.push(line);
            assert(vv(out@) =~= before.push(line@));
            assert(vv(out@) + lines_from(s@.skip(i + 1), Seq::empty()) =~= before + (seq![strip_cr(cur@)]
                + lines_from(s@.skip(i + 1), Seq::empty())));
            cur = Vec::new();
            assert(cur@ =~= Seq::<char>::empty());
        } else {
            cur.push(s[i]);
        }
        i += 1;
    }
    assert(s@.skip(i as int) =~= Seq::<char>::empty());
    if cur.len() > 0 {
        let ghost before = vv(out@);
        out.push(cur);
        assert(vv(out@) =~= before + seq![cur@]);
    } else {
        assert(vv(out@) + Seq::<Seq<char>>::empty() =~= vv(out@));
    }
    out
}

// ---------------------------------------------------------------------------
// Markdown images
// ---------------------------------------------------------------------------

/// The first index from `k` on where `s` holds `c`.
pub open spec fn find_char(s: Seq<char>, k: int, c: char) -> Option<int>
    decreases s.len() - k,
{
    if k < 0 || k >= s.len() {
        None
    } else if s[k] == c {
        Some(k)
    } else {
        find_char(s, k + 1, c)
    }
}

/// The image `![alt](url)` that starts at `p`, if one does: the index of
/// its `]` and of its closing `)`; the alt text holds no `]` and the
/// address at least one character and no `)`.
pub open spec fn image_at(s: Seq<char>, p: int) -> Option<(int, int)> {
    if 0 <= p && p + 1 < s.len() && s[p] == '!' && s[p + 1] == '[' {
        match find_char(s, p + 2, ']') {
            Some(q) => if q + 1 < s.len() && s[q + 1] == '(' {
                match find_char(s, q + 2, ')') {
                    Some(r) => if r > q + 2 {
                        Some((q, r))
                    } else {
                        None
                    },
                    None => None,
                }
            } else {
                None
            },
            None => None,
        }
    } else {
        None
    }
}

/// The leftmost image starting at `k` or later.
pub open spec fn next_image(s: Seq<char>, k: int) -> Option<(int, int, int)>
    decreases s.len() - k,
{
    if k < 0 || k >= s.len() {
        None
    } else {
        match image_at(s, k) {
            Some((q, r)) => Some((k, q, r)),
            None => next_image(s, k + 1),
        }
    }
}

/// The model of a segment: its kind, text, language and image address.
pub struct SegModel {
    pub kind: SegmentType,
    pub content: Option<Seq<char>>,
    pub language: Option<Seq<char>>,
    pub image_url: Option<Seq<char>>,
}

/// A text segment, when the trimmed text is not empty.
pub open spec fn text_seg(t: Seq<char>) -> Seq<SegModel> {
    if spec_trim(t).len() > 0 {
        seq![SegModel { kind: SegmentType::Text, content: Some(spec_trim(t)), language: None, image_url: None }]
    } else {
        Seq::empty()
    }
}

pub proof fn lemma_find_char_bounds(s: Seq<char>, k: int, c: char)
    requires
        0 <= k,
    ensures
        match find_char(s, k, c) {
            Some(j) => k <= j < s.len() && s[j] == c && forall|x: int| k <= x < j ==> s[x] != c,
            None => forall|x: int| k <= x < s.len() && 0 <= x ==> s[x] != c,
        },
    decreases s.len() - k,
{
    if 0 <= k < s.len() && s[k] != c {
        lemma_find_char_bounds(s, k + 1, c);
    }
}

pub proof fn lemma_next_image_bounds(s: Seq<char>, k: int)
    requires
        0 <= k,
    ensures
        match next_image(s, k) {
            Some((p, q, r)) => k <= p && p + 2 <= q && q + 2 < r && r < s.len()
                && image_at(s, p) == Some((q, r)),
            None => true,
        },
    decreases s.len() - k,
{
    if k < s.len() {
        match image_at(s, k) {
            Some((q, r)) => {
                lemma_find_char_bounds(s, k + 2, ']');
                lemma_find_char_bounds(s, q + 2, ')');
            },
            None => {
                lemma_next_image_bounds(s, k + 1);
            },
        }
    }
}

/// The segments of plain text from `k` on: text between images as text
/// segments (trimmed, blank ones left out), each image as an image segment
/// with its alt text as content.
pub open spec fn image_segments(s: Seq<char>, k: int) -> Seq<SegModel>
    decreases s.len() - k,
{
    if k < 0 || k > s.len() {
        Seq::empty()
    } else {
        match next_image(s, k) {
            Some((p, q, r)) => {
                proof {
                    lemma_next_image_bounds(s, k);
                }
                text_seg(s.subrange(k, p)) + seq![SegModel {
                    kind: SegmentType::Image,
                    content: Some(s.subrange(p + 2, q)),
                    language: None,
                    image_url: Some(s.subrange(q + 2, r)),
                }] + image_segments(s, r + 1)
            },
            None => text_seg(s.subrange(k, s.len() as int)),
        }
    }
}

/// The model of a segment.
pub open spec fn seg_view(m: MessageSegment) -> SegModel {
    SegModel {
        kind: m.segment_type,
        content: match m.content {
            Some(c) => Some(c@),
            None => None,
        },
        language: match m.language {
            Some(c) => Some(c@),
            None => None,
        },
        image_url: match m.image_url {
            Some(c) => Some(c@),
            None => None,
        },
    }
}

/// A segment carries nothing beyond kind, text, language and address.
pub open spec fn plain_segment(m: MessageSegment) -> bool {
    m.image_bytes is None && m.tool_call_id is None && m.source is None && m.collapsed is None
}

/// The models of a list of segments.
pub open spec fn segs_view(v: Seq<MessageSegment>) -> Seq<SegModel> {
    v.map_values(|m: MessageSegment| seg_view(m))
}

/// Every segment of the list is plain.
pub open spec fn all_plain(v: Seq<MessageSegment>) -> bool {
    forall|i: int| 0 <= i < v.len() ==> plain_segment(#[trigger] v[i])
}

proof fn lemma_push_seg(v: Seq<MessageSegment>, m: MessageSegment)
    requires
        all_plain(v),
        plain_segment(m),
    ensures
        all_plain(v.push(m)),
        segs_view(v.push(m)) == segs_view(v).push(seg_view(m)),
{
    assert(segs_view(v.push(m)) =~= segs_view(v).push(seg_view(m)));
    assert forall|i: int| 0 <= i < v.push(m).len() implies plain_segment(#[trigger] v.push(m)[i]) by {
        if i < v.len() {
            assert(v.push(m)[i] == v[i]);
        }
    }
}

fn make_seg(kind: SegmentType, content: Option<String>, language: Option<String>, image_url: Option<String>) -> (m: MessageSegment)
    ensures
        m.segment_type == kind,
        m.content == content,
        m.language == language,
        m.image_url == image_url,
        plain_segment(m),
{
    MessageSegment {
        segment_type: kind,
        content,
        language,
        image_url,
        image_bytes: None,
        tool_call_id: None,
        source: None,
        collapsed: None,
    }
}

fn find_char_exec(s: &Vec<char>, k: usize, c: char) -> (r: Option<usize>)
    requires
        k <= s.len(),
    ensures
        match r {
            Some(j) => find_char(s@, k as int, c) == Some(j as int),
            None => find_char(s@, k as int, c) is None,
        },
{
    let mut j = k;
    while j < s.len()
        invariant
            k <= j <= s.len(),
            find_char(s@, k as int, c) == find_char(s@, j as int, c),
        decreases s.len() - j,
    {
        if s[j] == c {
            return Some(j);
        }
        j += 1;
    }
    None
}

fn image_at_exec(s: &Vec<char>, p: usize) -> (r: Option<(usize, usize)>)
    requires
        p <= s.len(),
    ensures
        match r {
            Some((q, x)) => image_at(s@, p as int) == Some((q as int, x as int)),
            None => image_at(s@, p as int) is None,
        },
{
    if p < s.len() && p + 1 < s.len() && s[p] == '!' && s[p + 1] == '[' {
        proof {
            lemma_find_char_bounds(s@, p + 2, ']');
        }
        match find_char_exec(s, p + 2, ']') {
            Some(q) => {
                if q + 1 < s.len() && s[q + 1] == '(' {
                    match find_char_exec(s, q + 2, ')') {
                        Some(r) => {
                            if r > q + 2 {
                                Some((q, r))
                            } else {
                                None
                            }
                        },
                        None => None,
                    }
                } else {
                    None
                }
            },
            None => None,
        }
    } else {
        None
    }
}

fn push_seg(out: &mut Vec<MessageSegment>, m: MessageSegment)
    requires
        all_plain(old(out)@),
        plain_segment(m),
    ensures
        all_plain(final(out)@),
        segs_view(final(out)@) == segs_view(old(out)@).push(seg_view(m)),
{
    proof {
        lemma_push_seg(out@, m);
    }
    out.push(m);
}

fn push_text_seg(out: &mut Vec<MessageSegment>, t: &Vec<char>)
    requires
        all_plain(old(out)@),
    ensures
        all_plain(final(out)@),
        segs_view(final(out)@) == segs_view(old(out)@) + text_seg(t@),
{
    let tt = trim_chars(t);
    if tt.len() > 0 {
        let s = string_from_chars(&tt);
        let ghost o0 = segs_view(out@);
        push_seg(out, make_seg(SegmentType::Text, Some(s), None, None));
        assert(segs_view(out@) =~= o0 + text_seg(t@));
    } else {
        assert(segs_view(out@) =~= segs_view(out@) + text_seg(t@));
    }
}

/// Splits plain text into text and image segments at Markdown images.
pub fn split_text_to_plain_and_images(text: &Vec<char>) -> (r: Vec<MessageSegment>)
    ensures
        all_plain(r@),
        segs_view(r@) == image_segments(text@, 0),
{
    let mut out: Vec<MessageSegment> = Vec::new();
    let ghost want = image_segments(text@, 0);
    let mut k: usize = 0;
    let mut p: usize = 0;
    assert(segs_view(out@) =~= Seq::<SegModel>::empty());
    while p < text.len()
        invariant
            k <= p <= text.len(),
            next_image(text@, k as int) == next_image(text@, p as int),
            all_plain(out@),
            segs_view(out@) + image_segments(text@, k as int) == want,
        decreases text.len() - p,
    {
        match image_at_exec(text, p) {
            Some((q, r)) => {
                proof {
                    lemma_next_image_bounds(text@, p as int);
                    assert(next_image(text@, k as int) == Some((p as int, q as int, r as int)));
                }
                let before = copy_range(text, k, p);
                let ghost o0 = segs_view(out@);
                push_text_seg(&mut out, &before);
                let alt = copy_range(text, p + 2, q);
                let url = copy_range(text, q + 2, r);
                let seg = make_seg(SegmentType::Image, Some(string_from_chars(&alt)), None, Some(string_from_chars(&url)));
                push_seg(&mut out, seg);
                proof {
                    let img = SegModel {
                        kind: SegmentType::Image,
                        content: Some(text@.subrange(p + 2, q as int)),
                        language: None,
                        image_url: Some(text@.subrange(q + 2, r as int)),
                    };
                    assert(segs_view(out@) =~= o0 + text_seg(before@) + seq![img]);
                    assert(image_segments(text@, k as int) == text_seg(before@) + seq![img] + image_segments(text@, r + 1));
                    assert(segs_view(out@) + image_segments(text@, r + 1) =~= want);
                }
                k = r + 1;
                p = r + 1;
            },
            None => {
                p += 1;
            },
        }
    }
    proof {
        assert(next_image(text@, p as int) is None);
        assert(image_segments(text@, k as int) == text_seg(text@.subrange(k as int, text@.len() as int)));
    }
    let after = copy_range(text, k, text.len());
    let ghost o0 = segs_view(out@);
    push_text_seg(&mut out, &after);
    assert(segs_view(out@) =~= o0 + text_seg(after@));
    out
}

// ---------------------------------------------------------------------------
// Code blocks
// ---------------------------------------------------------------------------

/// Whether a line opens or closes a fenced code block.
pub open spec fn starts_with_fence(t: Seq<char>) -> bool {
    t.len() >= 3 && t[0] == '`' && t[1] == '`' && t[2] == '`'
}

/// The text with every leading fence removed.
pub open spec fn strip_fences(t: Seq<char>) -> Seq<char>
    decreases t.len(),
{
    if starts_with_fence(t) {
        strip_fences(t.subrange(3, t.len() as int))
    } else {
        t
    }
}

/// The text without its trailing newlines.
pub open spec fn trim_end_newlines(t: Seq<char>) -> Seq<char>
    decreases t.len(),
{
    if t.len() > 0 && t.last() == '\n' {
        trim_end_newlines(t.drop_last())
    } else {
        t
    }
}

/// The segments found so far, the pending text, and the code block in
/// progress.
pub struct BlockState {
    pub segs: Seq<SegModel>,
    pub text_buf: Seq<char>,
    pub in_code: bool,
    pub code_lang: Seq<char>,
    pub code_buf: Seq<char>,
}

/// One line of the reply: a fence line closes the open code block (as a
/// code segment without its trailing newlines, its language only when
/// given) or opens one (after the pending text, unless blank, is split into
/// text and image segments; the language is what follows the fences,
/// trimmed); other lines go to the code block or to the pending text.
pub open spec fn block_step(st: BlockState, line: Seq<char>) -> BlockState {
    let trimmed = trim_start(line);
    if starts_with_fence(trimmed) {
        if st.in_code {
            BlockState {
                segs: st.segs.push(SegModel {
                    kind: SegmentType::Code,
                    content: Some(trim_end_newlines(st.code_buf)),
                    language: if st.code_lang.len() == 0 { None } else { Some(st.code_lang) },
                    image_url: None,
                }),
                text_buf: st.text_buf,
                in_code: false,
                code_lang: Seq::empty(),
                code_buf: Seq::empty(),
            }
        } else {
            let flush = spec_trim(st.text_buf).len() > 0;
            BlockState {
                segs: if flush { st.segs + image_segments(st.text_buf, 0) } else { st.segs },
                text_buf: if flush { Seq::empty() } else { st.text_buf },
                in_code: true,
                code_lang: spec_trim(strip_fences(trimmed)),
                code_buf: st.code_buf,
            }
        }
    } else if st.in_code {
        BlockState { code_buf: st.code_buf + line + seq!['\n'], ..st }
    } else {
        BlockState { text_buf: st.text_buf + line + seq!['\n'], ..st }
    }
}

/// The state after all the lines, in order.
pub open spec fn blocks(lines: Seq<Seq<char>>) -> BlockState
    decreases lines.len(),
{
    if lines.len() == 0 {
        BlockState { segs: Seq::empty(), text_buf: Seq::empty(), in_code: false, code_lang: Seq::empty(), code_buf: Seq::empty() }
    } else {
        block_step(blocks(lines.drop_last()), lines.last())
    }
}

/// The code segment a code block becomes: its text without trailing
/// newlines, its language only when given.
pub open spec fn code_segment(lang: Seq<char>, body: Seq<char>) -> SegModel {
    SegModel {
        kind: SegmentType::Code,
        content: Some(trim_end_newlines(body)),
        language: if lang.len() == 0 { None } else { Some(lang) },
        image_url: None,
    }
}

/// The segments of a reply: nothing of it is lost.  Text still pending at
/// the end is split too, and a code block never closed is closed at the
/// end, as if its fence had been written.
pub open spec fn spec_split_content(content: Seq<char>) -> Seq<SegModel> {
    let st = blocks(spec_lines(content));
    let segs = if spec_trim(st.text_buf).len() > 0 {
        st.segs + image_segments(st.text_buf, 0)
    } else {
        st.segs
    };
    if st.in_code {
        segs.push(code_segment(st.code_lang, st.code_buf))
    } else {
        segs
    }
}

fn trim_start_chars(v: &Vec<char>) -> (r: Vec<char>)
    ensures
        r@ == trim_start(v@),
{
    let mut a: usize = 0;
    assert(v@.skip(0) =~= v@);
    while a < v.len() && is_whitespace(v[a])
        invariant
            a <= v.len(),
            trim_start(v@) == trim_start(v@.skip(a as int)),
        decreases v.len() - a,
    {
        assert(v@.skip(a as int).drop_first() =~= v@.skip(a + 1));
        a += 1;
    }
    assert(v@.skip(a as int) =~= v@.subrange(a as int, v@.len() as int));
    copy_range(v, a, v.len())
}

fn is_fence(t: &Vec<char>) -> (b: bool)
    ensures
        b == starts_with_fence(t@),
{
    t.len() >= 3 && t[0] == '`' && t[1] == '`' && t[2] == '`'
}

fn strip_fences_chars(t: &Vec<char>) -> (r: Vec<char>)
    ensures
        r@ == strip_fences(t@),
{
    let mut a: usize = 0;
    assert(t@.skip(0) =~= t@);
    while a < t.len() && t.len() - a >= 3 && t[a] == '`' && t[a + 1] == '`' && t[a + 2] == '`'
        invariant
            a <= t.len(),
            strip_fences(t@) == strip_fences(t@.skip(a as int)),
        decreases t.len() - a,
    {
        assert(t@.skip(a as int).subrange(3, t@.skip(a as int).len() as int) =~= t@.skip(a + 3));
        a += 3;
    }
    assert(t@.skip(a as int) =~= t@.subrange(a as int, t@.len() as int));
    copy_range(t, a, t.len())
}

fn trim_end_newlines_chars(t: &Vec<char>) -> (r: Vec<char>)
    ensures
        r@ == trim_end_newlines(t@),
{
    let mut b: usize = t.len();
    assert(t@.subrange(0, b as int) =~= t@);
    while b > 0 && t[b - 1] == '\n'
        invariant
            b <= t.len(),
            trim_end_newlines(t@) == trim_end_newlines(t@.subrange(0, b as int)),
        decreases b,
    {
        assert(t@.subrange(0, b as int).drop_last() =~= t@.subrange(0, b - 1));
        b -= 1;
    }
    copy_range(t, 0, b)
}

fn append_line(buf: &mut Vec<char>, line: &Vec<char>)
    ensures
        final(buf)@ == old(buf)@ + line@ + seq!['\n'],
{
    let mut k: usize = 0;
    let ghost b0 = buf@;
    while k < line.len()
        invariant
            k <= line.len(),
            buf@ == b0 + line@.take(k as int),
        decreases line.len() - k,
    {
        buf.push(line[k]);
        k += 1;
        assert(buf@ =~= b0 + line@.take(k as int));
    }
    assert(line@.take(k as int) =~= line@);
    buf.push('\n');
}

fn extend_segs(out: &mut Vec<MessageSegment>, more: Vec<MessageSegment>)
    requires
        all_plain(old(out)@),
        all_plain(more@),
    ensures
        all_plain(final(out)@),
        segs_view(final(out)@) == segs_view(old(out)@) + segs_view(more@),
{
    let ghost o0 = segs_view(out@);
    let ghost m0 = more@;
    let mut more = more;
    let mut k: usize = 0;
    let total = more.len();
    while more.len() > 0
        invariant
            k + more.len() == total,
            total == m0.len(),
            more@ == m0.skip(k as int),
            all_plain(out@),
            all_plain(m0),
            segs_view(out@) == o0 + segs_view(m0.take(k as int)),
        decreases more.len(),
    {
        let m = more.remove(0);
        assert(m == m0[k as int]);
        push_seg(out, m);
        proof {
            assert(segs_view(m0.take(k + 1)) =~= segs_view(m0.take(k as int)).push(seg_view(m)));
        }
        k += 1;
        assert(more@ =~= m0.skip(k as int));
    }
    assert(m0.take(k as int) =~= m0);
}

/// Splits a finished reply into code, text and image segments.
pub fn split_content_to_segments(content: &str) -> (r: Vec<MessageSegment>)
    ensures
        all_plain(r@),
        segs_view(r@) == spec_split_content(content@),
{
    let chars = crate::text::chars_of(content);
    let lines = split_lines(&chars);
    let mut segs: Vec<MessageSegment> = Vec::new();
    let mut text_buf: Vec<char> = Vec::new();
    let mut in_code = false;
    let mut code_lang: Vec<char> = Vec::new();
    let mut code_buf: Vec<char> = Vec::new();
    let ghost ls = vv(lines@);
    let mut k: usize = 0;
    assert(segs_view(segs@) =~= Seq::<SegModel>::empty());
    assert(ls.take(0) =~= Seq::<Seq<char>>::empty());
    while k < lines.len()
        invariant
            k <= lines.len(),
            ls == vv(lines@),
            all_plain(segs@),
            blocks(ls.take(k as int)) == (BlockState {
                segs: segs_view(segs@),
                text_buf: text_buf@,
                in_code: in_code,
                code_lang: code_lang@,
                code_buf: code_buf@,
            }),
        decreases lines.len() - k,
    {
        let line = &lines[k];
        let ghost st = blocks(ls.take(k as int));
        proof {
            assert(ls.take(k + 1).drop_last() =~= ls.take(k as int));
            assert(ls.take(k + 1).last() == line@);
        }
        let trimmed = trim_start_chars(line);
        if is_fence(&trimmed) {
            if in_code {
                let body = trim_end_newlines_chars(&code_buf);
                let lang = if code_lang.len() == 0 {
                    None
                } else {
                    Some(string_from_chars(&code_lang))
                };
                let ghost s0 = segs_view(segs@);
                push_seg(&mut segs, make_seg(SegmentType::Code, Some(string_from_chars(&body)), lang, None));
                code_buf = Vec::new();
                code_lang = Vec::new();
                in_code = false;
                proof {
                    assert(code_buf@ =~= Seq::<char>::empty());
                    assert(code_lang@ =~= Seq::<char>::empty());
                }
            } else {
                let t = trim_chars(&text_buf);
                if t.len() > 0 {
                    let more = split_text_to_plain_and_images(&text_buf);
                    extend_segs(&mut segs, more);
                    text_buf = Vec::new();
                    assert(text_buf@ =~= Seq::<char>::empty());
                }
                let stripped = strip_fences_chars(&trimmed);
                code_lang = trim_chars(&stripped);
                in_code = true;
            }
        } else if in_code {
            append_line(&mut code_buf, line);
        } else {
            append_line(&mut text_buf, line);
        }
        k += 1;
    }
    assert(ls.take(k as int) =~= ls);
    let t = trim_chars(&text_buf);
    if t.len() > 0 {
        let more = split_text_to_plain_and_images(&text_buf);
        extend_segs(&mut segs, more);
    }
    if in_code {
        let body = trim_end_newlines_chars(&code_buf);
        let lang = if code_lang.len() == 0 {
            None
        } else {
            Some(string_from_chars(&code_lang))
        };
        push_seg(&mut segs, make_seg(SegmentType::Code, Some(string_from_chars(&body)), lang, None));
    }
    segs
}

// ---------------------------------------------------------------------------
// A fenced code block keeps its lines

/// Each line followed by a newline.
pub open spec fn lines_with_newlines(b: Seq<Seq<char>>) -> Seq<char>
    decreases b.len(),
{
    if b.len() == 0 {
        Seq::empty()
    } else {
        lines_with_newlines(b.drop_last()) + b.last() + seq!['\n']
    }
}

/// The lines joined by newline characters.
pub open spec fn lines_joined(b: Seq<Seq<char>>) -> Seq<char>
    decreases b.len(),
{
    if b.len() == 0 {
        Seq::empty()
    } else if b.len() == 1 {
        b[0]
    } else {
        lines_joined(b.drop_last()) + seq!['\n'] + b.last()
    }
}

/// A line that holds no newline and does not end with a carriage return.
pub open spec fn plain_line(l: Seq<char>) -> bool {
    (forall|j: int| 0 <= j < l.len() ==> l[j] != '\n') && !(l.len() > 0 && l.last() == '\r')
}

proof fn lemma_lines_from_plain(x: Seq<char>, rest: Seq<char>, cur: Seq<char>)
    requires
        forall|j: int| 0 <= j < x.len() ==> x[j] != '\n',
    ensures
        lines_from(x + rest, cur) == lines_from(rest, cur + x),
    decreases x.len(),
{
    if x.len() == 0 {
        assert(x + rest =~= rest);
        assert(cur + x =~= cur);
    } else {
        assert((x + rest)[0] == x[0]);
        assert((x + rest).drop_first() =~= x.drop_first() + rest);
        lemma_lines_from_plain(x.drop_first(), rest, cur.push(x[0]));
        assert(cur.push(x[0]) + x.drop_first() =~= cur + x);
    }
}

proof fn lemma_lines_from_line(x: Seq<char>, rest: Seq<char>)
    requires
        plain_line(x),
    ensures
        lines_from(x + seq!['\n'] + rest, Seq::empty()) == seq![x] + lines_from(rest, Seq::empty()),
{
    lemma_lines_from_plain(x, seq!['\n'] + rest, Seq::empty());
    assert(x + seq!['\n'] + rest =~= x + (seq!['\n'] + rest));
    assert(Seq::<char>::empty() + x =~= x);
    let t = seq!['\n'] + rest;
    assert(t[0] == '\n');
    assert(t.drop_first() =~= rest);
    assert(strip_cr(x) == x);
}

proof fn lemma_with_newlines_front(b: Seq<Seq<char>>)
    requires
        b.len() > 0,
    ensures
        lines_with_newlines(b) == b[0] + seq!['\n'] + lines_with_newlines(b.drop_first()),
    decreases b.len(),
{
    if b.len() == 1 {
        assert(b.drop_last() =~= Seq::<Seq<char>>::empty());
        assert(b.drop_first() =~= Seq::<Seq<char>>::empty());
        assert(lines_with_newlines(b.drop_last()) =~= Seq::<char>::empty());
        assert(lines_with_newlines(b.drop_first()) =~= Seq::<char>::empty());
        assert(b.last() == b[0]);
        assert(lines_with_newlines(b) =~= b[0] + seq!['\n'] + Seq::<char>::empty());
    } else {
        lemma_with_newlines_front(b.drop_last());
        assert(b.drop_last().drop_first() =~= b.drop_first().drop_last());
        assert(b.drop_first().last() == b.last());
        assert(b.drop_last()[0] == b[0]);
        assert(lines_with_newlines(b) =~= b[0] + seq!['\n'] + lines_with_newlines(b.drop_first()));
    }
}

proof fn lemma_lines_of_body(b: Seq<Seq<char>>, tail: Seq<char>)
    requires
        forall|i: int| 0 <= i < b.len() ==> plain_line(#[trigger] b[i]),
    ensures
        lines_from(lines_with_newlines(b) + tail, Seq::empty()) == b + lines_from(tail, Seq::empty()),
    decreases b.len(),
{
    if b.len() == 0 {
        assert(lines_with_newlines(b) + tail =~= tail);
        assert(b + lines_from(tail, Seq::empty()) =~= lines_from(tail, Seq::empty()));
    } else {
        lemma_with_newlines_front(b);
        let r = b.drop_first();
        assert forall|i: int| 0 <= i < r.len() implies plain_line(#[trigger] r[i]) by {
            assert(r[i] == b[i + 1]);
        }
        lemma_lines_of_body(r, tail);
        assert(lines_with_newlines(b) + tail =~= b[0] + seq!['\n'] + (lines_with_newlines(r) + tail));
        assert(plain_line(b[0]));
        lemma_lines_from_line(b[0], lines_with_newlines(r) + tail);
        assert(seq![b[0]] + (r + lines_from(tail, Seq::empty())) =~= b + lines_from(tail, Seq::empty()));
    }
}

proof fn lemma_with_newlines_joined(b: Seq<Seq<char>>)
    requires
        b.len() > 0,
    ensures
        lines_with_newlines(b) == lines_joined(b) + seq!['\n'],
    decreases b.len(),
{
    if b.len() == 1 {
        assert(b.drop_last() =~= Seq::<Seq<char>>::empty());
        assert(lines_with_newlines(b.drop_last()) =~= Seq::<char>::empty());
        assert(b.last() == b[0]);
        assert(lines_with_newlines(b) =~= b[0] + seq!['\n']);
    } else {
        lemma_with_newlines_joined(b.drop_last());
    }
}

proof fn lemma_joined_last(b: Seq<Seq<char>>)
    requires
        b.len() > 0,
        b.last().len() > 0,
    ensures
        lines_joined(b).len() > 0,
        lines_joined(b).last() == b.last().last(),
{
    if b.len() == 1 {
    } else {
        let j = lines_joined(b.drop_last()) + seq!['\n'] + b.last();
        assert(j.last() == b.last().last());
    }
}

/// The walk over the opening fence and the body lines: a code block in
/// progress holding each line followed by a newline.
proof fn lemma_blocks_body(open: Seq<char>, lang: Seq<char>, b: Seq<Seq<char>>, k: int)
    requires
        open == seq!['`', '`', '`'] + lang,
        !starts_with_fence(lang),
        0 <= k <= b.len(),
        forall|i: int| 0 <= i < b.len() ==> !starts_with_fence(trim_start(#[trigger] b[i])),
    ensures
        blocks(seq![open] + b.take(k)) == (BlockState {
            segs: Seq::empty(),
            text_buf: Seq::empty(),
            in_code: true,
            code_lang: spec_trim(lang),
            code_buf: lines_with_newlines(b.take(k)),
        }),
    decreases k,
{
    if k == 0 {
        let l = seq![open] + b.take(0);
        assert(l =~= seq![open]);
        assert(l.drop_last() =~= Seq::<Seq<char>>::empty());
        assert(trim_start(open) == open);
        assert(open.subrange(3, open.len() as int) =~= lang);
        assert(strip_fences(open) == strip_fences(lang));
        assert(strip_fences(lang) == lang);
        assert(spec_trim(Seq::<char>::empty()) =~= Seq::<char>::empty());
        assert(b.take(0) =~= Seq::<Seq<char>>::empty());
        assert(lines_with_newlines(b.take(0)) =~= Seq::<char>::empty());
        assert(l.last() == open);
        assert(starts_with_fence(open));
        let st0 = blocks(l.drop_last());
        assert(st0 == BlockState { segs: Seq::empty(), text_buf: Seq::empty(), in_code: false, code_lang: Seq::empty(), code_buf: Seq::empty() });
        assert(blocks(l) == block_step(st0, open));
    } else {
        lemma_blocks_body(open, lang, b, k - 1);
        let l = seq![open] + b.take(k);
        assert(l.drop_last() =~= seq![open] + b.take(k - 1));
        assert(l.last() == b[k - 1]);
        assert(b.take(k).drop_last() =~= b.take(k - 1));
        assert(b.take(k).last() == b[k - 1]);
        assert(!starts_with_fence(trim_start(b[k - 1])));
        assert(lines_with_newlines(b.take(k)) == lines_with_newlines(b.take(k - 1)) + b[k - 1] + seq!['\n']);
        assert(blocks(l) == block_step(blocks(l.drop_last()), b[k - 1]));
    }
}

/// A reply that is one fenced code block, opened by three backquotes and a
/// language and closed by three backquotes, becomes one code segment whose
/// content is the lines between the fences joined by newlines and whose
/// language is the trimmed language, when given.
pub proof fn law_code_block_keeps_lines(lang: Seq<char>, body: Seq<Seq<char>>)
    requires
        forall|j: int| 0 <= j < lang.len() ==> lang[j] != '\n' && lang[j] != '\r',
        !starts_with_fence(lang),
        body.len() > 0,
        body.last().len() > 0,
        forall|i: int| 0 <= i < body.len() ==> plain_line(#[trigger] body[i]) && !starts_with_fence(trim_start(body[i])),
    ensures
        spec_split_content(seq!['`', '`', '`'] + lang + seq!['\n'] + lines_with_newlines(body) + seq!['`', '`', '`'])
            == seq![SegModel {
                kind: SegmentType::Code,
                content: Some(lines_joined(body)),
                language: if spec_trim(lang).len() == 0 { None } else { Some(spec_trim(lang)) },
                image_url: None,
            }],
{
    let open = seq!['`', '`', '`'] + lang;
    let close = seq!['`', '`', '`'];
    let content = open + seq!['\n'] + lines_with_newlines(body) + close;
    // The lines: the opening fence, the body, the closing fence.
    assert(plain_line(open)) by {
        assert forall|j: int| 0 <= j < open.len() implies open[j] != '\n' by {
            if j >= 3 {
                assert(open[j] == lang[j - 3]);
            }
        }
        if lang.len() > 0 {
            assert(open.last() == lang.last());
        }
    }
    assert(content =~= open + seq!['\n'] + (lines_with_newlines(body) + close));
    lemma_lines_from_line(open, lines_with_newlines(body) + close);
    assert forall|i: int| 0 <= i < body.len() implies plain_line(#[trigger] body[i]) by {}
    lemma_lines_of_body(body, close);
    lemma_lines_from_plain(close, Seq::<char>::empty(), Seq::empty());
    assert(close + Seq::<char>::empty() =~= close);
    assert(Seq::<char>::empty() + close =~= close);
    assert(lines_from(close, Seq::empty()) == seq![close]);
    let lines = seq![open] + body + seq![close];
    assert(spec_lines(content) =~= lines);
    // The walk.
    assert forall|i: int| 0 <= i < body.len() implies !starts_with_fence(trim_start(#[trigger] body[i])) by {}
    lemma_blocks_body(open, lang, body, body.len() as int);
    assert(body.take(body.len() as int) =~= body);
    assert(lines.drop_last() =~= seq![open] + body.take(body.len() as int));
    assert(lines.last() == close);
    assert(trim_start(close) == close);
    // The code segment's content.
    lemma_with_newlines_joined(body);
    lemma_joined_last(body);
    let j = lines_joined(body);
    assert(body.last().last() != '\n') by {
        assert(plain_line(body[body.len() - 1]));
        assert(body.last()[body.last().len() - 1] != '\n');
    }
    assert((j + seq!['\n']).drop_last() =~= j);
    assert(trim_end_newlines(j + seq!['\n']) == trim_end_newlines(j));
    assert(trim_end_newlines(j) == j);
    assert(spec_trim(Seq::<char>::empty()) =~= Seq::<char>::empty());
}

} // verus!
