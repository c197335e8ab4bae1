//! WeChat (iLink) messaging: message kinds and login states, the text
//! shaping applied to an AI reply before it is sent (removing bracketed
//! action descriptions, splitting it into chat-sized segments), and the
//! decisions of the synchronisation loop.

use vstd::prelude::*;
use vstd::string::StringExecFns;
use crate::text::{
    spec_is_whitespace, is_whitespace, chars_of, trim_chars, spec_trim, string_from_chars,
    concat_all, visible, lemma_visible_concat, lemma_visible_push, lemma_visible_empty,
    lemma_visible_trim, spec_join, str_eq,
};

verus! {

/// The kind of a WeChat message (its `type` field: 1 text, 2 image,
/// 3 voice, 4 file, 5 video; 10000 and 10002 are system notices).
#[derive(Clone, Copy, Debug, PartialEq, Eq, Structural)]
pub enum MsgType {
    Text,
    Image,
    Voice,
    File,
    Video,
    System,
    Unknown,
}

/// The state of a login QR code.
#[derive(Clone, Copy, Debug, PartialEq, Eq, Structural)]
pub enum QrCodeStatus {
    New,
    Scanning,
    Confirmed,
    Expired,
    Canceled,
}

/// The kind that a `type` number stands for.
pub open spec fn spec_msg_type_from_int(v: i32) -> MsgType {
    if v == 1 {
        MsgType::Text
    } else if v == 2 {
        MsgType::Image
    } else if v == 3 {
        MsgType::Voice
    } else if v == 4 {
        MsgType::File
    } else if v == 5 {
        MsgType::Video
    } else if v == 10000 || v == 10002 {
        MsgType::System
    } else {
        MsgType::Unknown
    }
}

impl MsgType {
    /// The kind that a `type` number stands for.
    pub fn from_int(v: i32) -> (r: MsgType)
        ensures
            r == spec_msg_type_from_int(v),
    {
        match v {
            1 => MsgType::Text,
            2 => MsgType::Image,
            3 => MsgType::Voice,
            4 => MsgType::File,
            5 => MsgType::Video,
            10000 | 10002 => MsgType::System,
            _ => MsgType::Unknown,
        }
    }
}

/// The name under which a message kind is stored.
pub open spec fn spec_msg_type_str(t: MsgType) -> Seq<char> {
    match t {
        MsgType::Text => "text"@,
        MsgType::Image => "image"@,
        MsgType::Voice => "voice"@,
        MsgType::Video => "video"@,
        MsgType::File => "file"@,
        MsgType::System => "system"@,
        MsgType::Unknown => "unknown"@,
    }
}

/// The name under which a message kind is stored.
pub fn msg_type_str(t: &MsgType) -> (r: &'static str)
    ensures
        r@ == spec_msg_type_str(*t),
{
    match t {
        MsgType::Text => "text",
        MsgType::Image => "image",
        MsgType::Voice => "voice",
        MsgType::Video => "video",
        MsgType::File => "file",
        MsgType::System => "system",
        MsgType::Unknown => "unknown",
    }
}

/// The login state shown to the user for a QR code state.
pub open spec fn spec_qrcode_status_str(s: QrCodeStatus) -> Seq<char> {
    match s {
        QrCodeStatus::New => "pending"@,
        QrCodeStatus::Scanning => "scanned"@,
        QrCodeStatus::Confirmed => "confirmed"@,
        QrCodeStatus::Expired => "expired"@,
        QrCodeStatus::Canceled => "expired"@,
    }
}

/// The login state shown to the user for a QR code state.
pub fn map_qrcode_status_str(s: &QrCodeStatus) -> (r: &'static str)
    ensures
        r@ == spec_qrcode_status_str(*s),
{
    match s {
        QrCodeStatus::New => "pending",
        QrCodeStatus::Scanning => "scanned",
        QrCodeStatus::Confirmed => "confirmed",
        QrCodeStatus::Expired => "expired",
        QrCodeStatus::Canceled => "expired",
    }
}

/// The login state shown to the user for a QR code state.
pub fn map_status(s: &QrCodeStatus) -> (r: &'static str)
    ensures
        r@ == spec_qrcode_status_str(*s),
{
    map_qrcode_status_str(s)
}

/// The account used when none is named.
pub fn default_account_id() -> (r: String)
    ensures
        r@ == "default"@,
{
    String::from_str("default")
}

/// The QR code state a status word of the login service stands for;
/// unknown words (such as "wait") mean the code is still new.
pub open spec fn spec_qrcode_status_from_text(s: Seq<char>) -> QrCodeStatus {
    if s == "scaned"@ || s == "scanning"@ || s == "scanned"@ {
        QrCodeStatus::Scanning
    } else if s == "confirmed"@ || s == "ok"@ || s == "success"@ || s == "logged_in"@ {
        QrCodeStatus::Confirmed
    } else if s == "expired"@ {
        QrCodeStatus::Expired
    } else if s == "canceled"@ || s == "cancelled"@ {
        QrCodeStatus::Canceled
    } else {
        QrCodeStatus::New
    }
}

/// Reads a status word of the login service.
pub fn qrcode_status_from_text(s: &str) -> (r: QrCodeStatus)
    ensures
        r == spec_qrcode_status_from_text(s@),
{
    if str_eq(s, "scaned") || str_eq(s, "scanning") || str_eq(s, "scanned") {
        QrCodeStatus::Scanning
    } else if str_eq(s, "confirmed") || str_eq(s, "ok") || str_eq(s, "success") || str_eq(s, "logged_in") {
        QrCodeStatus::Confirmed
    } else if str_eq(s, "expired") {
        QrCodeStatus::Expired
    } else if str_eq(s, "canceled") || str_eq(s, "cancelled") {
        QrCodeStatus::Canceled
    } else {
        QrCodeStatus::New
    }
}

/// The preview of a session's last message: the text of a text (or
/// unknown) message, else a bracketed label for its kind.
pub open spec fn spec_preview_text(t: MsgType, content: Option<Seq<char>>) -> Seq<char> {
    let text = match content {
        Some(c) => c,
        None => Seq::empty(),
    };
    match t {
        MsgType::Text => text,
        MsgType::Image => "[图片]"@,
        MsgType::Voice => "[语音]"@,
        MsgType::Video => "[视频]"@,
        MsgType::File => "[文件]"@,
        MsgType::System => "[系统消息]"@,
        MsgType::Unknown => text,
    }
}

/// The preview of a session's last message.
pub fn preview_text(t: &MsgType, content: &Option<String>) -> (r: String)
    ensures
        r@ == spec_preview_text(*t, match content {
            Some(c) => Some(c@),
            None => None,
        }),
{
    let text = match content {
        Some(c) => c.clone(),
        None => String::new(),
    };
    match t {
        MsgType::Text => text,
        MsgType::Image => String::from_str("[图片]"),
        MsgType::Voice => String::from_str("[语音]"),
        MsgType::Video => String::from_str("[视频]"),
        MsgType::File => String::from_str("[文件]"),
        MsgType::System => String::from_str("[系统消息]"),
        MsgType::Unknown => text,
    }
}

/// Whether the stored auto-reply setting turns auto-reply on: the JSON text
/// `"true"` or the bare word `true`.
pub fn auto_reply_enabled(value_json: &str) -> (r: bool)
    ensures
        r == (value_json@ == "\"true\""@ || value_json@ == "true"@),
{
    str_eq(value_json, "\"true\"") || str_eq(value_json, "true")
}

/// The wait before the next long poll after a failure: doubled, at most
/// one minute.
pub fn next_backoff(secs: u64) -> (r: u64)
    requires
        secs <= 60,
    ensures
        r == if secs * 2 <= 60 { secs * 2 } else { 60 },
{
    if secs * 2 <= 60 {
        secs * 2
    } else {
        60
    }
}

// ---------------------------------------------------------------------------
// Character classes
// ---------------------------------------------------------------------------

/// Punctuation that ends a sentence outright.
pub open spec fn is_full_stop(c: char) -> bool {
    c == '。' || c == '！' || c == '？' || c == '!' || c == '?'
}

/// Characters that may close a quotation or an aside right after a sentence.
pub open spec fn is_closing_mark(c: char) -> bool {
    c == '"' || c == '」' || c == '）' || c == ')'
}

/// Whether `ch` ends a sentence, given the character after it: full stops
/// and tildes do; an ellipsis does only at the end, before white space, a
/// full stop or a closing mark.
pub open spec fn spec_is_sentence_terminator(ch: char, next: Option<char>) -> bool {
    if is_full_stop(ch) || ch == '~' || ch == '～' {
        true
    } else if ch == '…' {
        match next {
            None => true,
            Some(nc) => spec_is_whitespace(nc) || is_full_stop(nc) || is_closing_mark(nc),
        }
    } else {
        false
    }
}

/// Whether `ch` ends a sentence, given the character after it.
pub fn is_sentence_terminator(ch: char, next_ch: Option<char>) -> (r: bool)
    ensures
        r == spec_is_sentence_terminator(ch, next_ch),
{
    if ch == '。' || ch == '！' || ch == '？' || ch == '!' || ch == '?' {
        true
    } else if ch == '~' || ch == '～' {
        true
    } else if ch == '…' {
        match next_ch {
            None => true,
            Some(nc) => is_whitespace(nc) || nc == '。' || nc == '！' || nc == '？' || nc == '!'
                || nc == '?' || nc == '"' || nc == '」' || nc == '）' || nc == ')',
        }
    } else {
        false
    }
}

/// The emoji ranges after which a reply may be split.
pub open spec fn spec_is_emoji(ch: char) -> bool {
    let cp = ch as u32;
    ||| (0x1F600 <= cp && cp <= 0x1F64F)
    ||| (0x1F300 <= cp && cp <= 0x1F5FF)
    ||| (0x1F680 <= cp && cp <= 0x1F6FF)
    ||| (0x1F900 <= cp && cp <= 0x1F9FF)
    ||| (0x2600 <= cp && cp <= 0x26FF)
    ||| (0x2700 <= cp && cp <= 0x27BF)
    ||| (0x1F400 <= cp && cp <= 0x1F4FF)
    ||| (0x1F480 <= cp && cp <= 0x1F4FF)
    ||| cp == 0x2764
    ||| (0x1F493 <= cp && cp <= 0x1F49F)
}

/// Whether `ch` is an emoji.
pub fn is_emoji(ch: char) -> (r: bool)
    ensures
        r == spec_is_emoji(ch),
{
    let cp = ch as u32;
    (0x1F600 <= cp && cp <= 0x1F64F) || (0x1F300 <= cp && cp <= 0x1F5FF) || (0x1F680 <= cp && cp
        <= 0x1F6FF) || (0x1F900 <= cp && cp <= 0x1F9FF) || (0x2600 <= cp && cp <= 0x26FF) || (0x2700
        <= cp && cp <= 0x27BF) || (0x1F400 <= cp && cp <= 0x1F4FF) || (0x1F480 <= cp && cp
        <= 0x1F4FF) || cp == 0x2764 || (0x1F493 <= cp && cp <= 0x1F49F)
}

/// An opening bracket of an action description.
pub open spec fn is_open_bracket(c: char) -> bool {
    c == '（' || c == '('
}

/// The bracket that closes `open`.
pub open spec fn closing_of(open: char) -> char {
    if open == '（' {
        '）'
    } else {
        ')'
    }
}

/// The index just past the bracket group whose body starts at `j` with
/// `depth` brackets open: the scan stops when the depth returns to zero or
/// the text ends.
pub open spec fn bracket_end(chars: Seq<char>, open: char, close: char, j: int, depth: nat) -> int
    decreases chars.len() - j,
{
    if j >= chars.len() || j < 0 || depth == 0 {
        j
    } else {
        let d: nat = if chars[j] == open {
            depth + 1
        } else if chars[j] == close {
            (depth - 1) as nat
        } else {
            depth
        };
        bracket_end(chars, open, close, j + 1, d)
    }
}

/// The group end lies between its start and the end of the text.
pub proof fn lemma_bracket_end_bounds(chars: Seq<char>, open: char, close: char, j: int, depth: nat)
    requires
        0 <= j <= chars.len(),
    ensures
        j <= bracket_end(chars, open, close, j, depth) <= chars.len(),
    decreases chars.len() - j,
{
    if j < chars.len() && depth > 0 {
        let d: nat = if chars[j] == open {
            depth + 1
        } else if chars[j] == close {
            (depth - 1) as nat
        } else {
            depth
        };
        lemma_bracket_end_bounds(chars, open, close, j + 1, d);
    }
}

/// Scans a bracket group in `chars` starting after the opening bracket at
/// `start - 1`; returns the index just past it.
fn scan_bracket(chars: &Vec<char>, open: char, close: char, start: usize) -> (r: usize)
    requires
        1 <= start <= chars.len(),
    ensures
        r == bracket_end(chars@, open, close, start as int, 1),
        start <= r <= chars.len(),
{
    let mut i = start;
    let mut depth: usize = 1;
    proof {
        lemma_bracket_end_bounds(chars@, open, close, start as int, 1);
    }
    while i < chars.len() && depth > 0
        invariant
            1 <= start <= i <= chars.len(),
            depth <= i - start + 1,
            bracket_end(chars@, open, close, i as int, depth as nat) == bracket_end(chars@, open, close, start as int, 1),
        decreases chars.len() - i,
    {
        if chars[i] == open {
            depth += 1;
        } else if chars[i] == close {
            depth -= 1;
        }
        i += 1;
    }
    proof {
        lemma_bracket_end_bounds(chars@, open, close, start as int, 1);
    }
    i
}

// ---------------------------------------------------------------------------
// Removing action descriptions
// ---------------------------------------------------------------------------

/// The text from index `i` on with every bracket group — from an opening
/// bracket to the bracket that closes it, or to the end — left out.
pub open spec fn strip_brackets(chars: Seq<char>, i: int) -> Seq<char>
    decreases chars.len() - i,
{
    if i >= chars.len() || i < 0 {
        Seq::empty()
    } else if is_open_bracket(chars[i]) {
        let e = bracket_end(chars, chars[i], closing_of(chars[i]), i + 1, 1);
        proof {
            lemma_bracket_end_bounds(chars, chars[i], closing_of(chars[i]), i + 1, 1);
        }
        strip_brackets(chars, e)
    } else {
        seq![chars[i]] + strip_brackets(chars, i + 1)
    }
}

/// The lines of `s` (split at each newline), each trimmed, the empty ones
/// left out; `lines` holds the finished lines and `cur` the line in
/// progress.
pub open spec fn clean_lines(s: Seq<char>, lines: Seq<Seq<char>>, cur: Seq<char>) -> Seq<Seq<char>>
    decreases s.len(),
{
    if s.len() == 0 {
        if spec_trim(cur).len() > 0 {
            lines.push(spec_trim(cur))
        } else {
            lines
        }
    } else if s[0] == '\n' {
        let l = if spec_trim(cur).len() > 0 {
            lines.push(spec_trim(cur))
        } else {
            lines
        };
        clean_lines(s.drop_first(), l, Seq::empty())
    } else {
        clean_lines(s.drop_first(), lines, cur.push(s[0]))
    }
}

/// The reply with its bracketed action descriptions removed, and its lines
/// trimmed, empty lines dropped and joined again by newlines.
pub open spec fn spec_remove_action_descriptions(text: Seq<char>) -> Seq<char> {
    spec_join(clean_lines(strip_brackets(text, 0), Seq::empty(), Seq::empty()), "\n"@)
}

/// Removes bracketed action descriptions — （…） and (…), brackets included —
/// from a reply, then drops the blank lines this leaves.
pub fn remove_action_descriptions(text: &str) -> (r: String)
    ensures
        r@ == spec_remove_action_descriptions(text@),
        forall|i: int| 0 <= i < r@.len() ==> !is_open_bracket(#[trigger] r@[i]),
{
    let chars = chars_of(text);
    let len = chars.len();
    let mut kept: Vec<char> = Vec::new();
    let mut i: usize = 0;
    while i < len
        invariant
            len == chars.len(),
            i <= len,
            kept@ + strip_brackets(chars@, i as int) == strip_brackets(chars@, 0),
            forall|q: int| 0 <= q < kept@.len() ==> !is_open_bracket(#[trigger] kept@[q]),
        decreases len - i,
    {
        let ch = chars[i];
        if ch == '（' || ch == '(' {
            let close = if ch == '（' { '）' } else { ')' };
            i = scan_bracket(&chars, ch, close, i + 1);
        } else {
            let ghost before = kept@;
            kept.push(ch);
            assert(kept@ + strip_brackets(chars@, i + 1) =~= before + strip_brackets(chars@, i as int));
            i += 1;
        }
    }
    assert(kept@ =~= strip_brackets(chars@, 0));
    let lines = split_clean_lines(&kept);
    let mut out = String::new();
    let mut k: usize = 0;
    while k < lines.len()
        invariant
            k <= lines.len(),
            out@ == spec_join(lines@.map_values(|l: Vec<char>| l@).take(k as int), "\n"@),
            forall|q: int| 0 <= q < out@.len() ==> !is_open_bracket(#[trigger] out@[q]),
            forall|a: int, q: int| 0 <= a < lines@.len() && 0 <= q < lines@[a]@.len() ==> !is_open_bracket(#[trigger] lines@[a]@[q]),
        decreases lines.len() - k,
    {
        let ghost prev = out@;
        let ghost ls = lines@.map_values(|l: Vec<char>| l@);
        if k > 0 {
            out.append("\n");
        }
        let piece = string_from_chars(&lines[k]);
        out.append(piece.as_str());
        proof {
            let t = ls.take(k + 1);
            assert(t.drop_last() =~= ls.take(k as int));
            assert(t.last() == lines@[k as int]@);
            reveal_strlit("\n");
            if k == 0 {
                assert(out@ =~= t[0]);
            } else {
                assert(out@ =~= spec_join(t.drop_last(), "\n"@) + "\n"@ + t.last());
            }
            assert forall|q: int| 0 <= q < out@.len() implies !is_open_bracket(#[trigger] out@[q]) by {
                if q < prev.len() {
                    assert(out@[q] == prev[q]);
                } else if k > 0 && q == prev.len() {
                    assert(out@[q] == '\n');
                } else {
                    let off: int = if k > 0 { prev.len() as int + 1 } else { prev.len() as int };
                    assert(out@[q] == lines@[k as int]@[q - off]);
                }
            }
        }
        k += 1;
    }
    assert(lines@.map_values(|l: Vec<char>| l@).take(k as int) =~= lines@.map_values(|l: Vec<char>| l@));
    out
}

/// Splits characters into trimmed, non-empty lines.
fn split_clean_lines(s: &Vec<char>) -> (r: Vec<Vec<char>>)
    requires
        forall|q: int| 0 <= q < s@.len() ==> !is_open_bracket(#[trigger] s@[q]),
    ensures
        r@.map_values(|l: Vec<char>| l@) == clean_lines(s@, Seq::empty(), Seq::empty()),
        forall|a: int, q: int| 0 <= a < r@.len() && 0 <= q < r@[a]@.len() ==> !is_open_bracket(#[trigger] r@[a]@[q]),
{
    let mut lines: Vec<Vec<char>> = Vec::new();
    let mut cur: Vec<char> = Vec::new();
    let mut i: usize = 0;
    assert(s@.skip(0) =~= s@);
    assert(lines@.map_values(|l: Vec<char>| l@) =~= Seq::<Seq<char>>::empty());
    assert(cur@ =~= Seq::<char>::empty());
    while i < s.len()
        invariant
            i <= s.len(),
            forall|q: int| 0 <= q < s@.len() ==> !is_open_bracket(#[trigger] s@[q]),
            clean_lines(s@.skip(i as int), lines@.map_values(|l: Vec<char>| l@), cur@) == clean_lines(s@, Seq::empty(), Seq::empty()),
            forall|q: int| 0 <= q < cur@.len() ==> !is_open_bracket(#[trigger] cur@[q]),
            forall|a: int, q: int| 0 <= a < lines@.len() && 0 <= q < lines@[a]@.len() ==> !is_open_bracket(#[trigger] lines@[a]@[q]),
        decreases s.len() - i,
    {
        let ghost rest = s@.skip(i as int);
        assert(rest.drop_first() =~= s@.skip(i + 1));
        if s[i] == '\n' {
            let t = trim_chars(&cur);
            proof {
                let (a, b) = lemma_trim_range(cur@);
                assert forall|q: int| 0 <= q < t@.len() implies !is_open_bracket(#[trigger] t@[q]) by {
                    assert(t@[q] == cur@[a + q]);
                }
            }
            if t.len() > 0 {
                let ghost lv = lines@.map_values(|l: Vec<char>| l@);
                lines.push(t);
                assert(lines@.map_values(|l: Vec<char>| l@) =~= lv.push(spec_trim(cur@)));
            }
            cur = Vec::new();
        } else {
            cur.push(s[i]);
        }
        i += 1;
    }
    assert(s@.skip(i as int) =~= Seq::<char>::empty());
    let t = trim_chars(&cur);
    proof {
        let (a, b) = lemma_trim_range(cur@);
        assert forall|q: int| 0 <= q < t@.len() implies !is_open_bracket(#[trigger] t@[q]) by {
            assert(t@[q] == cur@[a + q]);
        }
    }
    if t.len() > 0 {
        let ghost lv = lines@.map_values(|l: Vec<char>| l@);
        lines.push(t);
        assert(lines@.map_values(|l: Vec<char>| l@) =~= lv.push(spec_trim(cur@)));
    }
    lines
}

/// The bounds of the trimmed text within the text.
pub proof fn lemma_trim_range(s: Seq<char>) -> (ab: (int, int))
    ensures
        0 <= ab.0 <= ab.1 <= s.len(),
        spec_trim(s) == s.subrange(ab.0, ab.1),
{
    let a = lemma_trim_start_range(s);
    let b = lemma_trim_end_range(s.skip(a));
    assert(s.skip(a).subrange(0, b) =~= s.subrange(a, a + b));
    (a, a + b)
}

proof fn lemma_trim_start_range(s: Seq<char>) -> (a: int)
    ensures
        0 <= a <= s.len(),
        crate::text::trim_start(s) == s.skip(a),
    decreases s.len(),
{
    if s.len() > 0 && spec_is_whitespace(s[0]) {
        let a = lemma_trim_start_range(s.drop_first());
        assert(s.drop_first().skip(a) =~= s.skip(a + 1));
        a + 1
    } else {
        assert(s.skip(0) =~= s);
        0
    }
}

proof fn lemma_trim_end_range(s: Seq<char>) -> (b: int)
    ensures
        0 <= b <= s.len(),
        crate::text::trim_end(s) == s.subrange(0, b),
    decreases s.len(),
{
    if s.len() > 0 && spec_is_whitespace(s.last()) {
        let b = lemma_trim_end_range(s.drop_last());
        assert(s.drop_last().subrange(0, b) =~= s.subrange(0, b));
        b
    } else {
        assert(s.subrange(0, s.len() as int) =~= s);
        s.len() as int
    }
}

// ---------------------------------------------------------------------------
// Splitting a reply into chat-sized segments
// ---------------------------------------------------------------------------

/// Below this many characters a segment is not cut at a sentence end.
pub const MIN_SEG_LEN: usize = 20;
/// From this many characters on a sentence end cuts a segment.
pub const TARGET_SEG_LEN: usize = 50;
/// From this many characters on a comma, semicolon or space cuts a segment.
pub const MAX_SEG_LEN: usize = 120;

/// Where an over-long segment may be cut.
pub open spec fn is_soft_break(c: char) -> bool {
    c == '，' || c == '、' || c == '；' || c == ',' || c == ';' || c == ' '
}

/// What may follow an emoji that ends a segment: nothing, a space, a
/// newline or an ideographic space.
pub open spec fn ends_emoji_run(next: Option<char>) -> bool {
    match next {
        None => true,
        Some(c) => c == ' ' || c == '\n' || c == '　',
    }
}

/// The segments found so far, the text gathered for the next one, and the
/// position reached.
pub struct SplitState {
    pub segs: Seq<Seq<char>>,
    pub buf: Seq<char>,
    pub i: int,
}

/// The segments with the trimmed buffer added, unless it is blank.
pub open spec fn flush(segs: Seq<Seq<char>>, buf: Seq<char>) -> Seq<Seq<char>> {
    if spec_trim(buf).len() > 0 {
        segs.push(spec_trim(buf))
    } else {
        segs
    }
}

/// One step of the segmentation at position `st.i`:
/// - with `separate`, a bracketed action description becomes a segment of
///   its own (the text before it is closed first);
/// - a blank line closes the segment; a single newline closes it unless it
///   is blank;
/// - an emoji closes a segment of at least 20 characters when the text ends
///   or a space or newline follows;
/// - a sentence end in a segment of at least 20 characters takes a closing
///   mark right after it along, and closes the segment when it has reached
///   50 characters or the text ends;
/// - from 120 characters on, a comma, semicolon or space closes it.
pub open spec fn split_step(chars: Seq<char>, separate: bool, st: SplitState) -> SplitState {
    let len = chars.len();
    let i = st.i;
    let ch = chars[i];
    let next = if i + 1 < len {
        Some(chars[i + 1])
    } else {
        None
    };
    if separate && is_open_bracket(ch) {
        let end = bracket_end(chars, ch, closing_of(ch), i + 1, 1);
        let t = spec_trim(st.buf);
        let segs1 = if t.len() > 0 {
            st.segs.push(t)
        } else {
            st.segs
        };
        let buf1 = if t.len() > 0 {
            Seq::empty()
        } else {
            st.buf
        };
        let action = spec_trim(buf1 + chars.subrange(i, end));
        let segs2 = if action.len() > 0 {
            segs1.push(action)
        } else {
            segs1
        };
        SplitState { segs: segs2, buf: Seq::empty(), i: end }
    } else if ch == '\n' && i + 1 < len && chars[i + 1] == '\n' {
        SplitState { segs: flush(st.segs, st.buf), buf: Seq::empty(), i: i + 2 }
    } else if ch == '\n' {
        if spec_trim(st.buf).len() > 0 {
            SplitState { segs: st.segs.push(spec_trim(st.buf)), buf: Seq::empty(), i: i + 1 }
        } else {
            SplitState { segs: st.segs, buf: st.buf, i: i + 1 }
        }
    } else {
        let b = st.buf.push(ch);
        let n = b.len();
        if spec_is_emoji(ch) && n >= 20 && ends_emoji_run(next) {
            SplitState { segs: st.segs.push(spec_trim(b)), buf: Seq::empty(), i: i + 1 }
        } else if spec_is_sentence_terminator(ch, next) && n >= 20 {
            let absorb = match next {
                Some(nc) => is_closing_mark(nc),
                None => false,
            };
            let b2 = if absorb {
                b.push(chars[i + 1])
            } else {
                b
            };
            let i2 = if absorb {
                i + 2
            } else {
                i + 1
            };
            if n >= 50 || next is None {
                SplitState { segs: st.segs.push(spec_trim(b2)), buf: Seq::empty(), i: i2 }
            } else {
                SplitState { segs: st.segs, buf: b2, i: i2 }
            }
        } else if n >= 120 && is_soft_break(ch) {
            SplitState { segs: st.segs.push(spec_trim(b)), buf: Seq::empty(), i: i + 1 }
        } else {
            SplitState { segs: st.segs, buf: b, i: i + 1 }
        }
    }
}

/// The segmentation from position `st.i` to the end of the text.
pub open spec fn split_run(chars: Seq<char>, separate: bool, st: SplitState) -> SplitState
    decreases chars.len() - st.i,
{
    if st.i < 0 || st.i >= chars.len() {
        st
    } else {
        proof {
            lemma_bracket_end_bounds(chars, chars[st.i], closing_of(chars[st.i]), st.i + 1, 1);
        }
        split_run(chars, separate, split_step(chars, separate, st))
    }
}

/// Punctuation or emoji that makes a short segment a message of its own.
pub open spec fn ends_with_terminal(seg: Seq<char>) -> bool {
    seg.len() > 0 && (is_full_stop(seg.last()) || seg.last() == '~' || seg.last() == '～'
        || spec_is_emoji(seg.last()))
}

/// Adds a segment to the merged list: a fragment under 15 characters that
/// is not an action description is appended to the previous segment,
/// unless it has at least 4 characters and ends in sentence punctuation or
/// an emoji.
pub open spec fn merge_step(merged: Seq<Seq<char>>, seg: Seq<char>) -> Seq<Seq<char>> {
    let n = seg.len();
    let is_action = n > 0 && is_open_bracket(seg[0]);
    if n < 15 && merged.len() > 0 && !is_action {
        if ends_with_terminal(seg) && n >= 4 {
            merged.push(seg)
        } else {
            merged.update(merged.len() - 1, merged.last() + seg)
        }
    } else {
        merged.push(seg)
    }
}

/// The segments with short fragments merged, in order.
pub open spec fn merge_segments(segs: Seq<Seq<char>>) -> Seq<Seq<char>>
    decreases segs.len(),
{
    if segs.len() == 0 {
        Seq::empty()
    } else {
        merge_step(merge_segments(segs.drop_last()), segs.last())
    }
}

/// The segments of a reply: split, with short fragments merged; the whole
/// text when no segment results.
pub open spec fn spec_smart_split(text: Seq<char>, mode: Seq<char>) -> Seq<Seq<char>> {
    let st = split_run(text, mode == "separate"@, SplitState { segs: Seq::empty(), buf: Seq::empty(), i: 0 });
    let merged = merge_segments(flush(st.segs, st.buf));
    if merged.len() == 0 {
        seq![text]
    } else {
        merged
    }
}

/// The character sequences of a vector of character vectors.
pub open spec fn vv(s: Seq<Vec<char>>) -> Seq<Seq<char>> {
    s.map_values(|v: Vec<char>| v@)
}

proof fn lemma_vv_push(s: Seq<Vec<char>>, x: Vec<char>)
    ensures
        vv(s.push(x)) == vv(s).push(x@),
{
    assert(vv(s.push(x)) =~= vv(s).push(x@));
}

/// Closes the buffer as a segment when it is not blank.
fn flush_into(segs: &mut Vec<Vec<char>>, buf: &Vec<char>)
    ensures
        vv(final(segs)@) == flush(vv(old(segs)@), buf@),
{
    let t = trim_chars(buf);
    if t.len() > 0 {
        proof {
            lemma_vv_push(segs@, t);
        }
        segs.push(t);
    }
}

/// Splits an AI reply into chat-sized segments.  `action_mode` is
/// "separate" when bracketed action descriptions should be sent on their
/// own; any other mode leaves them in the text.
pub fn smart_split_segments(text: &str, action_mode: &str) -> (r: Vec<String>)
    ensures
        crate::text::strs_view(r@) == spec_smart_split(text@, action_mode@),
        r@.len() >= 1,
        visible(concat_all(crate::text::strs_view(r@))) == visible(text@),
{
    let separate = str_eq(action_mode, "separate");
    let chars = chars_of(text);
    let len = chars.len();
    let mut segs: Vec<Vec<char>> = Vec::new();
    let mut buf: Vec<char> = Vec::new();
    let mut i: usize = 0;
    let ghost init = SplitState { segs: Seq::empty(), buf: Seq::empty(), i: 0 };
    proof {
        assert(vv(segs@) =~= Seq::<Seq<char>>::empty());
        assert(buf@ =~= Seq::<char>::empty());
    }
    while i < len
        invariant
            len == chars.len(),
            chars@ == text@,
            i <= len,
            split_run(chars@, separate, SplitState { segs: vv(segs@), buf: buf@, i: i as int })
                == split_run(chars@, separate, init),
        decreases len - i,
    {
        let ghost st = SplitState { segs: vv(segs@), buf: buf@, i: i as int };
        let ch = chars[i];
        let next_ch: Option<char> = if i + 1 < len { Some(chars[i + 1]) } else { None };
        if separate && (ch == '（' || ch == '(') {
            let close = if ch == '（' { '）' } else { ')' };
            let t = trim_chars(&buf);
            if t.len() > 0 {
                proof {
                    lemma_vv_push(segs@, t);
                }
                segs.push(t);
                buf = Vec::new();
            }
            let end = scan_bracket(&chars, ch, close, i + 1);
            let mut k = i;
            let ghost buf1 = buf@;
            while k < end
                invariant
                    i <= k <= end <= len,
                    len == chars.len(),
                    buf@ == buf1 + chars@.subrange(i as int, k as int),
                decreases end - k,
            {
                buf.push(chars[k]);
                k += 1;
                assert(buf@ =~= buf1 + chars@.subrange(i as int, k as int));
            }
            let action = trim_chars(&buf);
            if action.len() > 0 {
                proof {
                    lemma_vv_push(segs@, action);
                }
                segs.push(action);
            }
            buf = Vec::new();
            proof {
                assert(buf@ =~= Seq::<char>::empty());
                let nst = SplitState { segs: vv(segs@), buf: buf@, i: end as int };
                assert(nst == split_step(chars@, separate, st));
            }
            i = end;
            continue;
        }
        if ch == '\n' && i + 1 < len && chars[i + 1] == '\n' {
            flush_into(&mut segs, &buf);
            buf = Vec::new();
            proof {
                assert(buf@ =~= Seq::<char>::empty());
                let nst = SplitState { segs: vv(segs@), buf: buf@, i: i + 2 };
                assert(nst == split_step(chars@, separate, st));
            }
            i += 2;
            continue;
        }
        if ch == '\n' {
            let t = trim_chars(&buf);
            if t.len() > 0 {
                proof {
                    lemma_vv_push(segs@, t);
                }
                segs.push(t);
                buf = Vec::new();
            }
            proof {
                assert(buf@ =~= (if spec_trim(st.buf).len() > 0 { Seq::<char>::empty() } else { st.buf }));
                let nst = SplitState { segs: vv(segs@), buf: buf@, i: i + 1 };
                assert(nst == split_step(chars@, separate, st));
            }
            i += 1;
            continue;
        }
        buf.push(ch);
        let buf_len = buf.len();
        if is_emoji(ch) && buf_len >= MIN_SEG_LEN {
            let follows = match next_ch {
                None => true,
                Some(c) => c == ' ' || c == '\n' || c == '　',
            };
            if follows {
                let t = trim_chars(&buf);
                proof {
                    lemma_vv_push(segs@, t);
                }
                segs.push(t);
                buf = Vec::new();
                proof {
                    assert(buf@ =~= Seq::<char>::empty());
                    let nst = SplitState { segs: vv(segs@), buf: buf@, i: i + 1 };
                    assert(nst == split_step(chars@, separate, st));
                }
                i += 1;
                continue;
            }
        }
        if is_sentence_terminator(ch, next_ch) && buf_len >= MIN_SEG_LEN {
            let mut step: usize = 1;
            match next_ch {
                Some(nc) => {
                    if nc == '"' || nc == '」' || nc == '）' || nc == ')' {
                        buf.push(nc);
                        step = 2;
                    }
                },
                None => {},
            }
            if buf_len >= TARGET_SEG_LEN || next_ch.is_none() {
                let t = trim_chars(&buf);
                proof {
                    lemma_vv_push(segs@, t);
                }
                segs.push(t);
                buf = Vec::new();
            }
            proof {
                assert(buf@ =~= split_step(chars@, separate, st).buf);
                let nst = SplitState { segs: vv(segs@), buf: buf@, i: i + step };
                assert(nst == split_step(chars@, separate, st));
            }
            i += step;
            continue;
        }
        if buf_len >= MAX_SEG_LEN && (ch == '，' || ch == '、' || ch == '；' || ch == ',' || ch == ';'
            || ch == ' ') {
            let t = trim_chars(&buf);
            proof {
                lemma_vv_push(segs@, t);
            }
            segs.push(t);
            buf = Vec::new();
        }
        proof {
            assert(buf@ =~= split_step(chars@, separate, st).buf);
            let nst = SplitState { segs: vv(segs@), buf: buf@, i: i + 1 };
            assert(nst == split_step(chars@, separate, st));
        }
        i += 1;
    }
    let ghost fin = split_run(chars@, separate, init);
    assert(fin == SplitState { segs: vv(segs@), buf: buf@, i: i as int });
    flush_into(&mut segs, &buf);
    proof {
        lemma_visible_empty();
        assert(chars@.take(0) =~= Seq::<char>::empty());
        assert(concat_all(Seq::<Seq<char>>::empty()) =~= Seq::<char>::empty());
        assert(visible(concat_all(init.segs)) + visible(init.buf) =~= visible(chars@.take(0)));
        lemma_split_run_visible(chars@, separate, init);
        assert(chars@.take(len as int) =~= chars@);
        lemma_flush_visible(vv(segs@).len() as int, fin.segs, fin.buf);
    }

    let merged = merge_all(&segs);
    proof {
        lemma_merge_concat(vv(segs@));
    }
    let mut out: Vec<String> = Vec::new();
    if merged.len() == 0 {
        out.push(String::from_str(text));
        proof {
            assert(crate::text::strs_view(out@) =~= seq![text@]);
            assert(seq![text@].drop_last() =~= Seq::<Seq<char>>::empty());
            assert(concat_all(seq![text@]) =~= text@);
        }
        return out;
    }
    let mut k: usize = 0;
    while k < merged.len()
        invariant
            k <= merged.len(),
            crate::text::strs_view(out@) =~= vv(merged@).take(k as int),
        decreases merged.len() - k,
    {
        let s = string_from_chars(&merged[k]);
        proof {
            crate::text::lemma_strs_view_push(out@, s);
            assert(vv(merged@).take(k + 1) =~= vv(merged@).take(k as int).push(merged@[k as int]@));
        }
        out.push(s);
        k += 1;
    }
    assert(vv(merged@).take(k as int) =~= vv(merged@));
    out
}

/// Merges short fragments into the segment before them.
fn merge_all(segs: &Vec<Vec<char>>) -> (r: Vec<Vec<char>>)
    ensures
        vv(r@) == merge_segments(vv(segs@)),
{
    let mut merged: Vec<Vec<char>> = Vec::new();
    let mut k: usize = 0;
    assert(vv(segs@).take(0) =~= Seq::<Seq<char>>::empty());
    assert(vv(merged@) =~= Seq::<Seq<char>>::empty());
    while k < segs.len()
        invariant
            k <= segs.len(),
            vv(merged@) == merge_segments(vv(segs@).take(k as int)),
        decreases segs.len() - k,
    {
        let ghost before = vv(merged@);
        let seg = &segs[k];
        let n = seg.len();
        let is_action = n > 0 && (seg[0] == '（' || seg[0] == '(');
        let copy = crate::text::copy_range(seg, 0, n);
        assert(copy@ =~= seg@);
        if n < 15 && merged.len() > 0 && !is_action {
            let ends_terminal = if n > 0 {
                let last_c = seg[n - 1];
                last_c == '。' || last_c == '！' || last_c == '？' || last_c == '~' || last_c == '～'
                    || last_c == '!' || last_c == '?' || is_emoji(last_c)
            } else {
                false
            };
            if ends_terminal && n >= 4 {
                proof {
                    lemma_vv_push(merged@, copy);
                }
                merged.push(copy);
            } else {
                let mut last = merged.pop().unwrap();
                let ghost l0 = last@;
                let mut q: usize = 0;
                while q < n
                    invariant
                        q <= n,
                        n == seg@.len(),
                        last@ == l0 + seg@.take(q as int),
                    decreases n - q,
                {
                    last.push(seg[q]);
                    q += 1;
                    assert(last@ =~= l0 + seg@.take(q as int));
                }
                assert(seg@.take(n as int) =~= seg@);
                proof {
                    lemma_vv_push(merged@, last);
                }
                merged.push(last);
                proof {
                    assert(vv(merged@) =~= before.update(before.len() - 1, before.last() + seg@));
                }
            }
        } else {
            proof {
                lemma_vv_push(merged@, copy);
            }
            merged.push(copy);
        }
        proof {
            let t = vv(segs@).take(k + 1);
            assert(t.drop_last() =~= vv(segs@).take(k as int));
            assert(t.last() == seg@);
        }
        k += 1;
    }
    assert(vv(segs@).take(k as int) =~= vv(segs@));
    merged
}

proof fn lemma_concat_all_push(s: Seq<Seq<char>>, x: Seq<char>)
    ensures
        concat_all(s.push(x)) == concat_all(s) + x,
{
    assert(s.push(x).drop_last() =~= s);
}

/// Merging keeps the text: the merged segments concatenate to the same
/// characters.
proof fn lemma_merge_concat(segs: Seq<Seq<char>>)
    ensures
        concat_all(merge_segments(segs)) == concat_all(segs),
    decreases segs.len(),
{
    if segs.len() > 0 {
        let d = segs.drop_last();
        lemma_merge_concat(d);
        let m = merge_segments(d);
        let x = segs.last();
        lemma_concat_all_push(d, x);
        lemma_concat_all_push(m, x);
        if m.len() > 0 {
            let u = m.update(m.len() - 1, m.last() + x);
            assert(u.drop_last() =~= m.drop_last());
            assert(m =~= m.drop_last().push(m.last()));
            lemma_concat_all_push(m.drop_last(), m.last());
            assert(concat_all(u) == concat_all(m.drop_last()) + (m.last() + x));
            assert(concat_all(u) =~= concat_all(m) + x);
        }
    }
}

proof fn lemma_visible_take(chars: Seq<char>, a: int, b: int)
    requires
        0 <= a <= b <= chars.len(),
    ensures
        visible(chars.take(b)) == visible(chars.take(a)) + visible(chars.subrange(a, b)),
{
    assert(chars.take(b) =~= chars.take(a) + chars.subrange(a, b));
    lemma_visible_concat(chars.take(a), chars.subrange(a, b));
}

proof fn lemma_visible_blank(b: Seq<char>)
    requires
        spec_trim(b).len() == 0,
    ensures
        visible(b) == Seq::<char>::empty(),
{
    lemma_visible_trim(b);
    assert(spec_trim(b) =~= Seq::<char>::empty());
    lemma_visible_empty();
}

proof fn lemma_visible_newline()
    ensures
        visible(seq!['\n']) == Seq::<char>::empty(),
{
    assert(seq!['\n'] =~= Seq::<char>::empty().push('\n'));
    lemma_visible_push(Seq::<char>::empty(), '\n');
    lemma_visible_empty();
}

proof fn lemma_flush_visible(unused: int, segs: Seq<Seq<char>>, buf: Seq<char>)
    ensures
        visible(concat_all(flush(segs, buf))) == visible(concat_all(segs)) + visible(buf),
{
    if spec_trim(buf).len() > 0 {
        lemma_concat_all_push(segs, spec_trim(buf));
        lemma_visible_concat(concat_all(segs), spec_trim(buf));
        lemma_visible_trim(buf);
    } else {
        lemma_visible_blank(buf);
        assert(visible(concat_all(segs)) + visible(buf) =~= visible(concat_all(segs)));
    }
}

/// The segmentation invariant: the segments found and the buffer hold
/// exactly the visible characters read so far.
pub open spec fn split_keeps_text(chars: Seq<char>, st: SplitState) -> bool {
    &&& 0 <= st.i <= chars.len()
    &&& visible(concat_all(st.segs)) + visible(st.buf) == visible(chars.take(st.i))
}

proof fn lemma_split_step_visible(chars: Seq<char>, separate: bool, st: SplitState)
    requires
        split_keeps_text(chars, st),
        st.i < chars.len(),
    ensures
        split_keeps_text(chars, split_step(chars, separate, st)),
{
    let len = chars.len();
    let i = st.i;
    let ch = chars[i];
    let nst = split_step(chars, separate, st);
    lemma_visible_empty();
    if separate && is_open_bracket(ch) {
        let end = bracket_end(chars, ch, closing_of(ch), i + 1, 1);
        lemma_bracket_end_bounds(chars, ch, closing_of(ch), i + 1, 1);
        let t = spec_trim(st.buf);
        let segs1 = if t.len() > 0 { st.segs.push(t) } else { st.segs };
        let buf1 = if t.len() > 0 { Seq::<char>::empty() } else { st.buf };
        if t.len() > 0 {
            lemma_concat_all_push(st.segs, t);
            lemma_visible_concat(concat_all(st.segs), t);
            lemma_visible_trim(st.buf);
        }
        assert(visible(concat_all(segs1)) + visible(buf1) =~= visible(concat_all(st.segs)) + visible(st.buf));
        let sub = chars.subrange(i, end);
        let action = spec_trim(buf1 + sub);
        lemma_visible_concat(buf1, sub);
        lemma_visible_trim(buf1 + sub);
        lemma_visible_take(chars, i, end);
        if action.len() > 0 {
            lemma_concat_all_push(segs1, action);
            lemma_visible_concat(concat_all(segs1), action);
            assert(visible(concat_all(nst.segs)) + visible(nst.buf) =~= visible(chars.take(end)));
        } else {
            lemma_visible_blank(buf1 + sub);
            assert(visible(buf1).len() == 0 && visible(sub).len() == 0);
            assert(visible(buf1) =~= Seq::<char>::empty());
            assert(visible(sub) =~= Seq::<char>::empty());
            assert(visible(concat_all(nst.segs)) + visible(nst.buf) =~= visible(chars.take(end)));
        }
    } else if ch == '\n' && i + 1 < len && chars[i + 1] == '\n' {
        lemma_flush_visible(0, st.segs, st.buf);
        lemma_visible_take(chars, i, i + 2);
        assert(chars.subrange(i, i + 2) =~= seq!['\n'] + seq!['\n']);
        lemma_visible_concat(seq!['\n'], seq!['\n']);
        lemma_visible_newline();
        assert(visible(concat_all(nst.segs)) + visible(nst.buf) =~= visible(chars.take(i + 2)));
    } else if ch == '\n' {
        lemma_visible_take(chars, i, i + 1);
        assert(chars.subrange(i, i + 1) =~= seq!['\n']);
        lemma_visible_newline();
        if spec_trim(st.buf).len() > 0 {
            lemma_concat_all_push(st.segs, spec_trim(st.buf));
            lemma_visible_concat(concat_all(st.segs), spec_trim(st.buf));
            lemma_visible_trim(st.buf);
        }
        assert(visible(concat_all(nst.segs)) + visible(nst.buf) =~= visible(chars.take(i + 1)));
    } else {
        let b = st.buf.push(ch);
        lemma_visible_take(chars, i, i + 1);
        assert(chars.subrange(i, i + 1) =~= Seq::<char>::empty().push(ch));
        lemma_visible_push(Seq::<char>::empty(), ch);
        lemma_visible_push(st.buf, ch);
        assert(visible(concat_all(st.segs)) + visible(b) =~= visible(chars.take(i + 1)));
        lemma_visible_trim(b);
        lemma_concat_all_push(st.segs, spec_trim(b));
        lemma_visible_concat(concat_all(st.segs), spec_trim(b));
        if i + 1 < len {
            let nc = chars[i + 1];
            let b2 = b.push(nc);
            lemma_visible_take(chars, i + 1, i + 2);
            assert(chars.subrange(i + 1, i + 2) =~= Seq::<char>::empty().push(nc));
            lemma_visible_push(Seq::<char>::empty(), nc);
            lemma_visible_push(b, nc);
            assert(visible(concat_all(st.segs)) + visible(b2) =~= visible(chars.take(i + 2)));
            lemma_visible_trim(b2);
            lemma_concat_all_push(st.segs, spec_trim(b2));
            lemma_visible_concat(concat_all(st.segs), spec_trim(b2));
        }
        assert(visible(concat_all(nst.segs)) + visible(nst.buf) =~= visible(chars.take(nst.i)));
    }
}

/// The whole segmentation keeps the invariant.
pub proof fn lemma_split_run_visible(chars: Seq<char>, separate: bool, st: SplitState)
    requires
        split_keeps_text(chars, st),
    ensures
        split_keeps_text(chars, split_run(chars, separate, st)),
        split_run(chars, separate, st).i == chars.len(),
    decreases chars.len() - st.i,
{
    if st.i < chars.len() {
        lemma_bracket_end_bounds(chars, chars[st.i], closing_of(chars[st.i]), st.i + 1, 1);
        lemma_split_step_visible(chars, separate, st);
        lemma_split_run_visible(chars, separate, split_step(chars, separate, st));
    }
}

} // verus!
