//! Cutting a document into overlapping pieces for the knowledge library: a
//! sliding window over the UTF-8 bytes of the text.  Each window holds at
//! most `chunk_size` bytes (shortened to the character boundary below, and
//! at least one character); a piece ends after the last sentence mark in
//! its window unless the window reaches the end of the text; the next
//! window starts `overlap` bytes before the end of the piece (at the
//! character boundary below), but always after the start of the piece;
//! the cut stops with the piece that reaches the end of the text.

use vstd::prelude::*;
use vstd::string::StringSliceAdditionalSpecFns;
use vstd::utf8::{encode_utf8, is_char_boundary, valid_utf8};

verus! {

broadcast use vstd::utf8::encode_utf8_valid_utf8, vstd::utf8::is_char_boundary_start_end_of_seq;

/// A piece of a document and its position among the pieces.
pub struct Chunk {
    pub text: String,
    pub seq: usize,
}

/// The model of a piece: the UTF-8 bytes of its text, and its position.
pub open spec fn chunk_model(c: Chunk) -> (Seq<u8>, nat) {
    (encode_utf8(c.text@), c.seq as nat)
}

/// The models of pieces.
pub open spec fn chunks_model(v: Seq<Chunk>) -> Seq<(Seq<u8>, nat)> {
    v.map_values(|c: Chunk| chunk_model(c))
}

/// Whether a sentence mark starts at byte `p` and ends before `end`: `.`
/// or `!`, or the full-width `？`, `！` or `。`.
pub open spec fn mark_at(b: Seq<u8>, p: int, end: int) -> bool {
    ||| b[p] == 0x2E || b[p] == 0x21
    ||| p + 3 <= end && b[p] == 0xEF && b[p + 1] == 0xBC && (b[p + 2] == 0x9F || b[p + 2] == 0x81)
    ||| p + 3 <= end && b[p] == 0xE3 && b[p + 1] == 0x80 && b[p + 2] == 0x82
}

/// The last byte below `k` and at or after `start` where a sentence mark
/// ending before `end` starts.
pub open spec fn last_mark(b: Seq<u8>, start: int, end: int, k: int) -> Option<int>
    decreases k - start,
{
    if k <= start {
        None
    } else if mark_at(b, k - 1, end) {
        Some(k - 1)
    } else {
        last_mark(b, start, end, k - 1)
    }
}

/// The end of the window that starts at `start`.
pub open spec fn window_end(len: int, chunk_size: int, start: int) -> int {
    if start + chunk_size < len {
        start + chunk_size
    } else {
        len
    }
}

/// The greatest character boundary at or below `x`.
pub open spec fn floor_boundary(b: Seq<u8>, x: int) -> int
    decreases x,
{
    if x <= 0 {
        0
    } else if is_char_boundary(b, x) {
        x
    } else {
        floor_boundary(b, x - 1)
    }
}

/// The least character boundary at or above `x` (the end of the text at
/// the latest).
pub open spec fn ceil_boundary(b: Seq<u8>, x: int) -> int
    decreases b.len() - x,
{
    if x >= b.len() {
        b.len() as int
    } else if is_char_boundary(b, x) {
        x
    } else {
        ceil_boundary(b, x + 1)
    }
}

/// The end of the window that starts at `start`, on a character boundary:
/// the boundary at or below `start + chunk_size`, or the end of the first
/// character when that is `start` itself.
pub open spec fn window_stop(b: Seq<u8>, chunk_size: int, start: int) -> int {
    let f = floor_boundary(b, window_end(b.len() as int, chunk_size, start));
    if f > start {
        f
    } else {
        ceil_boundary(b, start + 1)
    }
}

/// The length of the sentence mark that starts at byte `p`.
pub open spec fn mark_len(b: Seq<u8>, p: int) -> int {
    if b[p] == 0x2E || b[p] == 0x21 {
        1
    } else {
        3
    }
}

/// Where the piece that starts at `start` ends: after the last sentence
/// mark of its window, unless the window reaches the end of the text or
/// holds no mark.
pub open spec fn piece_end(b: Seq<u8>, chunk_size: int, start: int) -> int {
    let end = window_stop(b, chunk_size, start);
    if end < b.len() {
        match last_mark(b, start, end, end) {
            Some(p) => if is_char_boundary(b, p + mark_len(b, p)) {
                p + mark_len(b, p)
            } else {
                end
            },
            None => end,
        }
    } else {
        end
    }
}

/// Where the window after a piece from `start` to `cut` starts: `overlap`
/// bytes before `cut` (on the boundary below), or at `cut` when that would
/// not move past `start`.
pub open spec fn next_start(b: Seq<u8>, overlap: int, start: int, cut: int) -> int {
    let back = if cut > overlap {
        cut - overlap
    } else {
        cut
    };
    let f = floor_boundary(b, back);
    if f > start {
        f
    } else {
        cut
    }
}

/// The pieces from byte `start` on, numbered from `seq`, up to the piece
/// that reaches the end of the text.
pub open spec fn split_from(b: Seq<u8>, chunk_size: nat, overlap: nat, start: int, seq: nat) -> Seq<(Seq<u8>, nat)>
    decreases b.len() - start,
{
    if start < 0 || start >= b.len() {
        Seq::empty()
    } else {
        let cut = piece_end(b, chunk_size as int, start);
        let here = seq![(b.subrange(start, cut), seq)];
        if cut >= b.len() {
            here
        } else {
            let next = next_start(b, overlap as int, start, cut);
            if next <= start || next > b.len() {
                here
            } else {
                here + split_from(b, chunk_size, overlap, next, seq + 1)
            }
        }
    }
}

/// Where the pieces from byte `start` on start.
pub open spec fn split_starts(b: Seq<u8>, chunk_size: nat, overlap: nat, start: int) -> Seq<int>
    decreases b.len() - start,
{
    if start < 0 || start >= b.len() {
        Seq::empty()
    } else {
        let cut = piece_end(b, chunk_size as int, start);
        if cut >= b.len() {
            seq![start]
        } else {
            let next = next_start(b, overlap as int, start, cut);
            if next <= start || next > b.len() {
                seq![start]
            } else {
                seq![start] + split_starts(b, chunk_size, overlap, next)
            }
        }
    }
}

/// The pieces of a text of bytes `b`: the whole text when it fits one
/// window, else the sliding window from the start.
pub open spec fn spec_split_text(b: Seq<u8>, chunk_size: nat, overlap: nat) -> Seq<(Seq<u8>, nat)> {
    if b.len() <= chunk_size {
        seq![(b, 0nat)]
    } else {
        split_from(b, chunk_size, overlap, 0, 0)
    }
}

proof fn lemma_floor(b: Seq<u8>, x: int)
    requires
        valid_utf8(b),
        0 <= x <= b.len(),
    ensures
        0 <= floor_boundary(b, x) <= x,
        is_char_boundary(b, floor_boundary(b, x)),
        is_char_boundary(b, x) ==> floor_boundary(b, x) == x,
    decreases x,
{
    if x > 0 && !is_char_boundary(b, x) {
        lemma_floor(b, x - 1);
    }
}

proof fn lemma_ceil(b: Seq<u8>, x: int)
    requires
        valid_utf8(b),
        0 <= x <= b.len(),
    ensures
        x <= ceil_boundary(b, x) <= b.len(),
        is_char_boundary(b, ceil_boundary(b, x)),
    decreases b.len() - x,
{
    if x < b.len() && !is_char_boundary(b, x) {
        lemma_ceil(b, x + 1);
    }
}

proof fn lemma_last_mark(b: Seq<u8>, start: int, end: int, k: int)
    ensures
        match last_mark(b, start, end, k) {
            Some(p) => start <= p < k && mark_at(b, p, end),
            None => true,
        },
    decreases k - start,
{
    if k > start && !mark_at(b, k - 1, end) {
        lemma_last_mark(b, start, end, k - 1);
    }
}

/// Every byte is ASCII.
pub open spec fn all_ascii(b: Seq<u8>) -> bool {
    forall|j: int| 0 <= j < b.len() ==> b[j] < 0x80
}

proof fn lemma_ascii_boundary(b: Seq<u8>, x: int)
    requires
        valid_utf8(b),
        all_ascii(b),
        0 <= x <= b.len(),
    ensures
        is_char_boundary(b, x),
{
    if x < b.len() {
        vstd::utf8::is_char_boundary_iff_not_is_continuation_byte(b, x);
    }
}

/// A piece starting on a boundary ends on a later boundary; on an ASCII
/// text it spans at most `chunk_size` bytes.
proof fn lemma_piece(b: Seq<u8>, chunk_size: int, start: int)
    requires
        valid_utf8(b),
        0 <= start < b.len(),
        chunk_size >= 0,
    ensures
        start < piece_end(b, chunk_size, start) <= b.len(),
        is_char_boundary(b, piece_end(b, chunk_size, start)),
        all_ascii(b) && chunk_size >= 1 ==> piece_end(b, chunk_size, start) - start <= chunk_size,
{
    let we = window_end(b.len() as int, chunk_size, start);
    lemma_floor(b, we);
    lemma_ceil(b, start + 1);
    let end = window_stop(b, chunk_size, start);
    if all_ascii(b) && chunk_size >= 1 {
        lemma_ascii_boundary(b, we);
        assert(floor_boundary(b, we) == we);
    }
    if end < b.len() {
        lemma_last_mark(b, start, end, end);
    }
}

proof fn lemma_next(b: Seq<u8>, overlap: int, start: int, cut: int)
    requires
        valid_utf8(b),
        0 <= start < cut <= b.len(),
        overlap >= 0,
        is_char_boundary(b, cut),
    ensures
        start < next_start(b, overlap, start, cut) <= cut,
        is_char_boundary(b, next_start(b, overlap, start, cut)),
{
    let back = if cut > overlap {
        cut - overlap
    } else {
        cut
    };
    lemma_floor(b, back);
}

/// The shape of the cut from a boundary `start`: the pieces are numbered
/// from `seq`, each is the bytes at its start, the first starts at `start`,
/// each next one starts after the previous one and no later than where it
/// ends, the last ends at the end of the text, and on an ASCII text none
/// is longer than `chunk_size` bytes.
proof fn lemma_split_from(b: Seq<u8>, chunk_size: nat, overlap: nat, start: int, seq: nat)
    requires
        valid_utf8(b),
        0 <= start < b.len(),
    ensures
        ({
            let r = split_from(b, chunk_size, overlap, start, seq);
            let st = split_starts(b, chunk_size, overlap, start);
            &&& r.len() >= 1 && st.len() == r.len() && st[0] == start
            &&& forall|i: int| 0 <= i < r.len() ==> (#[trigger] r[i]).1 == seq + i
            &&& forall|i: int|
                0 <= i < r.len() ==> 0 <= #[trigger] st[i] && st[i] < st[i] + r[i].0.len() <= b.len()
                    && r[i].0 == b.subrange(st[i], st[i] + r[i].0.len())
            &&& forall|i: int| 0 <= i < r.len() - 1 ==> #[trigger] st[i] < st[i + 1] <= st[i] + r[i].0.len()
            &&& st[r.len() - 1] + r[r.len() - 1].0.len() == b.len()
            &&& all_ascii(b) && chunk_size >= 1 ==> forall|i: int| 0 <= i < r.len() ==> (#[trigger] r[i]).0.len() <= chunk_size
        }),
    decreases b.len() - start,
{
    let r = split_from(b, chunk_size, overlap, start, seq);
    let st = split_starts(b, chunk_size, overlap, start);
    lemma_piece(b, chunk_size as int, start);
    let cut = piece_end(b, chunk_size as int, start);
    if cut < b.len() {
        lemma_next(b, overlap as int, start, cut);
        let next = next_start(b, overlap as int, start, cut);
        lemma_split_from(b, chunk_size, overlap, next, seq + 1);
        let r1 = split_from(b, chunk_size, overlap, next, seq + 1);
        let st1 = split_starts(b, chunk_size, overlap, next);
        assert(r == seq![(b.subrange(start, cut), seq)] + r1);
        assert(st == seq![start] + st1);
        assert forall|i: int| 0 <= i < r.len() implies (#[trigger] r[i]).1 == seq + i by {
            if i > 0 {
                assert(r[i] == r1[i - 1]);
            }
        }
        assert forall|i: int| 0 <= i < r.len() implies 0 <= #[trigger] st[i] && st[i] < st[i] + r[i].0.len() <= b.len()
            && r[i].0 == b.subrange(st[i], st[i] + r[i].0.len()) by {
            if i > 0 {
                assert(r[i] == r1[i - 1]);
                assert(st[i] == st1[i - 1]);
            }
        }
        assert forall|i: int| 0 <= i < r.len() - 1 implies #[trigger] st[i] < st[i + 1] <= st[i] + r[i].0.len() by {
            if i > 0 {
                assert(r[i] == r1[i - 1]);
                assert(st[i] == st1[i - 1]);
                assert(st[i + 1] == st1[i]);
            } else {
                assert(st[0] == start);
                assert(st[1] == st1[0]);
                assert(r[0] == (b.subrange(start, cut), seq));
                assert(r[0].0.len() == cut - start);
            }
        }
        assert(r[r.len() - 1] == r1[r1.len() - 1]);
        assert(st[r.len() - 1] == st1[st1.len() - 1]);
        if all_ascii(b) && chunk_size >= 1 {
            assert forall|i: int| 0 <= i < r.len() implies (#[trigger] r[i]).0.len() <= chunk_size by {
                if i > 0 {
                    assert(r[i] == r1[i - 1]);
                }
            }
        }
    }
}

/// The cut is a sliding window over the whole text: at least one piece,
/// numbered 0, 1, 2, ...; each piece is the bytes of the text at its
/// start; the first starts at the beginning; each next one starts after
/// the previous one and no later than where it ends, so the pieces leave
/// no gap; the last ends at the end of the text; and on an ASCII text with
/// a window of at least one byte no piece is longer than the window.
pub proof fn law_split_text_window(b: Seq<u8>, chunk_size: nat, overlap: nat)
    requires
        valid_utf8(b),
    ensures
        ({
            let r = spec_split_text(b, chunk_size, overlap);
            &&& r.len() >= 1
            &&& forall|i: int| 0 <= i < r.len() ==> (#[trigger] r[i]).1 == i
            &&& exists|st: Seq<int>| {
                &&& st.len() == r.len() && st[0] == 0
                &&& forall|i: int|
                    0 <= i < r.len() ==> 0 <= #[trigger] st[i] && st[i] + r[i].0.len() <= b.len()
                        && r[i].0 == b.subrange(st[i], st[i] + r[i].0.len())
                &&& forall|i: int| 0 <= i < r.len() - 1 ==> #[trigger] st[i] < st[i + 1] <= st[i] + r[i].0.len()
                &&& st[r.len() - 1] + r[r.len() - 1].0.len() == b.len()
            }
            &&& all_ascii(b) && chunk_size >= 1 ==> forall|i: int| 0 <= i < r.len() ==> (#[trigger] r[i]).0.len() <= chunk_size
        }),
{
    let r = spec_split_text(b, chunk_size, overlap);
    if b.len() <= chunk_size {
        let st = seq![0int];
        assert(b.subrange(0, b.len() as int) =~= b);
        assert(r[0] == (b, 0nat));
        assert(st[0] + r[0].0.len() == b.len());
    } else {
        lemma_split_from(b, chunk_size, overlap, 0, 0);
        let st = split_starts(b, chunk_size, overlap, 0);
        assert(st[r.len() - 1] + r[r.len() - 1].0.len() == b.len());
    }
}

fn mark_at_exec(b: &[u8], p: usize, end: usize) -> (r: bool)
    requires
        p < end <= b@.len(),
    ensures
        r == mark_at(b@, p as int, end as int),
{
    if b[p] == 0x2E || b[p] == 0x21 {
        return true;
    }
    if end - p >= 3 {
        if b[p] == 0xEF && b[p + 1] == 0xBC && (b[p + 2] == 0x9F || b[p + 2] == 0x81) {
            return true;
        }
        if b[p] == 0xE3 && b[p + 1] == 0x80 && b[p + 2] == 0x82 {
            return true;
        }
    }
    false
}

fn floor_boundary_exec(text: &str, x: usize) -> (r: usize)
    requires
        x <= text.spec_bytes().len(),
    ensures
        r as int == floor_boundary(text.spec_bytes(), x as int),
{
    let mut k = x;
    while k > 0 && !text.is_char_boundary(k)
        invariant
            k <= x,
            floor_boundary(text.spec_bytes(), x as int) == floor_boundary(text.spec_bytes(), k as int),
        decreases k,
    {
        k -= 1;
    }
    k
}

fn ceil_boundary_exec(text: &str, x: usize) -> (r: usize)
    requires
        x <= text.spec_bytes().len(),
    ensures
        r as int == ceil_boundary(text.spec_bytes(), x as int),
{
    let len = text.as_bytes().len();
    let mut k = x;
    while k < len && !text.is_char_boundary(k)
        invariant
            x <= k <= len == text.spec_bytes().len(),
            ceil_boundary(text.spec_bytes(), x as int) == ceil_boundary(text.spec_bytes(), k as int),
        decreases len - k,
    {
        k += 1;
    }
    k
}

fn piece_end_exec(text: &str, chunk_size: usize, start: usize) -> (r: usize)
    requires
        start < text.spec_bytes().len(),
    ensures
        r as int == piece_end(text.spec_bytes(), chunk_size as int, start as int),
{
    let b = text.as_bytes();
    let len = b.len();
    let we = if chunk_size < len - start {
        start + chunk_size
    } else {
        len
    };
    let f = floor_boundary_exec(text, we);
    let end = if f > start {
        f
    } else {
        ceil_boundary_exec(text, start + 1)
    };
    assert(end as int == window_stop(b@, chunk_size as int, start as int));
    if end >= len {
        return end;
    }
    proof {
        assert(valid_utf8(b@));
        lemma_floor(b@, we as int);
        lemma_ceil(b@, start + 1);
    }
    let mut k = end;
    while k > start
        invariant
            start <= k <= end < len == b@.len(),
            b@ == text.spec_bytes(),
            end == window_stop(b@, chunk_size as int, start as int),
            last_mark(b@, start as int, end as int, end as int) == last_mark(b@, start as int, end as int, k as int),
        decreases k,
    {
        if mark_at_exec(b, k - 1, end) {
            let p = k - 1;
            let ml: usize = if b[p] == 0x2E || b[p] == 0x21 {
                1
            } else {
                3
            };
            assert(ml as int == mark_len(b@, p as int));
            assert(p + ml <= end);
            if text.is_char_boundary(p + ml) {
                return p + ml;
            } else {
                return end;
            }
        }
        k -= 1;
    }
    end
}

fn next_start_exec(text: &str, overlap: usize, start: usize, cut: usize) -> (r: usize)
    requires
        start < cut <= text.spec_bytes().len(),
    ensures
        r as int == next_start(text.spec_bytes(), overlap as int, start as int, cut as int),
{
    let back = if cut > overlap {
        cut - overlap
    } else {
        cut
    };
    let f = floor_boundary_exec(text, back);
    if f > start {
        f
    } else {
        cut
    }
}

proof fn lemma_boundary_in_tail(b: Seq<u8>, start: int, cut: int)
    requires
        valid_utf8(b),
        0 <= start <= cut <= b.len(),
        is_char_boundary(b, start),
        is_char_boundary(b, cut),
    ensures
        valid_utf8(b.subrange(start, b.len() as int)),
        is_char_boundary(b.subrange(start, b.len() as int), cut - start),
{
    let t = b.subrange(start, b.len() as int);
    vstd::utf8::valid_utf8_split(b, start);
    assert(valid_utf8(t));
    if cut == b.len() {
        vstd::utf8::is_char_boundary_start_end_of_seq(t);
        assert(t.len() == cut - start);
    } else {
        assert(t[cut - start] == b[cut]);
        vstd::utf8::is_char_boundary_iff_not_is_continuation_byte(t, cut - start);
        vstd::utf8::is_char_boundary_iff_not_is_continuation_byte(b, cut);
    }
}

/// The piece of `text` between two character boundaries of its bytes.
fn piece(text: &str, start: usize, cut: usize) -> (r: String)
    requires
        start <= cut <= text.spec_bytes().len(),
        is_char_boundary(text.spec_bytes(), start as int),
        is_char_boundary(text.spec_bytes(), cut as int),
    ensures
        encode_utf8(r@) == text.spec_bytes().subrange(start as int, cut as int),
{
    let (_, tail) = text.split_at(start);
    proof {
        lemma_boundary_in_tail(text.spec_bytes(), start as int, cut as int);
    }
    let (head, _) = tail.split_at(cut - start);
    head.to_owned()
}

/// Cuts a text into overlapping pieces with a sliding window of
/// `chunk_size` bytes, `overlap` bytes shared between neighbours.
pub fn split_text(text: &str, chunk_size: usize, overlap: usize) -> (r: Vec<Chunk>)
    ensures
        chunks_model(r@) == spec_split_text(text.spec_bytes(), chunk_size as nat, overlap as nat),
{
    let b = text.as_bytes();
    let len = b.len();
    let ghost bv = text.spec_bytes();
    assert(b@ == bv);
    assert(valid_utf8(bv));
    if len <= chunk_size {
        let mut v: Vec<Chunk> = Vec::new();
        v.push(Chunk { text: text.to_owned(), seq: 0 });
        assert(chunks_model(v@) =~= seq![(bv, 0nat)]);
        return v;
    }
    let mut out: Vec<Chunk> = Vec::new();
    let mut start: usize = 0;
    let mut seq: usize = 0;
    assert(chunks_model(out@) + split_from(bv, chunk_size as nat, overlap as nat, 0, 0) =~= split_from(
        bv,
        chunk_size as nat,
        overlap as nat,
        0,
        0,
    ));
    loop
        invariant
            b@ == bv,
            bv == text.spec_bytes(),
            len == bv.len(),
            valid_utf8(bv),
            chunk_size < len,
            start < len,
            seq <= start,
            is_char_boundary(bv, start as int),
            spec_split_text(bv, chunk_size as nat, overlap as nat) == chunks_model(out@) + split_from(
                bv,
                chunk_size as nat,
                overlap as nat,
                start as int,
                seq as nat,
            ),
        decreases len - start,
    {
        let cut = piece_end_exec(text, chunk_size, start);
        proof {
            lemma_piece(bv, chunk_size as int, start as int);
        }
        let p = piece(text, start, cut);
        let ghost before = out@;
        let c = Chunk { text: p, seq };
        out.push(c);
        let ghost here = seq![(bv.subrange(start as int, cut as int), seq as nat)];
        proof {
            assert(chunks_model(out@) =~= chunks_model(before) + here);
        }
        if cut >= len {
            proof {
                assert(split_from(bv, chunk_size as nat, overlap as nat, start as int, seq as nat) == here);
                assert(chunks_model(before) + here =~= chunks_model(out@));
            }
            return out;
        }
        let next = next_start_exec(text, overlap, start, cut);
        proof {
            lemma_next(bv, overlap as int, start as int, cut as int);
            let rest = split_from(bv, chunk_size as nat, overlap as nat, next as int, (seq + 1) as nat);
            assert(split_from(bv, chunk_size as nat, overlap as nat, start as int, seq as nat) == here + rest);
            assert(chunks_model(before) + (here + rest) =~= chunks_model(out@) + rest);
        }
        start = next;
        seq = seq + 1;
    }
}

} // verus!
