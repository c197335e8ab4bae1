//! Built-in skills that the model can call: dates and times, random
//! numbers, notes, the weather, web search and the calculator's input.  Each skill reads its
//! arguments from a JSON object and answers with a JSON document; the
//! parts that touch the network, the database or the clipboard are done
//! by the caller, which hands the results in.

use vstd::prelude::*;
use vstd::string::StringExecFns;
use vstd::string::StringSliceAdditionalSpecFns;
use rand::Rng;
use chrono::{Datelike, Timelike};
use crate::pipeline::{valid_date, day_number, day_number_exec, spec_season, season, spec_time_of_day, time_of_day};
use crate::ilink::{spec_int_text, i64_text};
use crate::workflow::{regex_finds, regex_is_match};
use crate::json::{
    JsonValue, JsonModel, JsonNumber, json_model, members_model, items_model, int_model, json_str,
    json_int, json_nat, json_object, push_member, new_members, lemma_array_model, spec_get, spec_as_str,
    spec_as_i64, spec_as_u64,
};
use crate::model_test::{byte_prefix, cuts_cleanly, text_head};
use crate::text::{
    contains, spec_contains, chars_of, is_whitespace, spec_is_whitespace, push_char, str_eq, trim_chars, spec_trim,
    string_from_chars, strs_view, lemma_strs_view_push, spec_join, join_strs, spec_decimal,
    decimal_string,
};

verus! {

// ---------------------------------------------------------------------------
// Weekdays

/// The Chinese numeral of a weekday counted from Monday (0); `?` for
/// anything else.
pub open spec fn spec_weekday_cn(day: u32) -> Seq<char> {
    if day == 0 {
        "一"@
    } else if day == 1 {
        "二"@
    } else if day == 2 {
        "三"@
    } else if day == 3 {
        "四"@
    } else if day == 4 {
        "五"@
    } else if day == 5 {
        "六"@
    } else if day == 6 {
        "日"@
    } else {
        "?"@
    }
}

/// The Chinese numeral of a weekday counted from Monday (0).
pub fn weekday_cn(day: u32) -> (r: &'static str)
    ensures
        r@ == spec_weekday_cn(day),
{
    match day {
        0 => "一",
        1 => "二",
        2 => "三",
        3 => "四",
        4 => "五",
        5 => "六",
        6 => "日",
        _ => "?",
    }
}

/// The weekday, counted from Monday (0), that an English or Chinese name
/// stands for; Monday for unknown names.
pub open spec fn spec_parse_weekday(s: Seq<char>) -> u32 {
    if s == "tuesday"@ || s == "周二"@ || s == "星期二"@ {
        1
    } else if s == "wednesday"@ || s == "周三"@ || s == "星期三"@ {
        2
    } else if s == "thursday"@ || s == "周四"@ || s == "星期四"@ {
        3
    } else if s == "friday"@ || s == "周五"@ || s == "星期五"@ {
        4
    } else if s == "saturday"@ || s == "周六"@ || s == "星期六"@ {
        5
    } else if s == "sunday"@ || s == "周日"@ || s == "星期天"@ {
        6
    } else {
        0
    }
}

/// Reads a weekday name.
pub fn parse_weekday(s: &str) -> (r: u32)
    ensures
        r == spec_parse_weekday(s@),
        r <= 6,
{
    if str_eq(s, "tuesday") || str_eq(s, "周二") || str_eq(s, "星期二") {
        1
    } else if str_eq(s, "wednesday") || str_eq(s, "周三") || str_eq(s, "星期三") {
        2
    } else if str_eq(s, "thursday") || str_eq(s, "周四") || str_eq(s, "星期四") {
        3
    } else if str_eq(s, "friday") || str_eq(s, "周五") || str_eq(s, "星期五") {
        4
    } else if str_eq(s, "saturday") || str_eq(s, "周六") || str_eq(s, "星期六") {
        5
    } else if str_eq(s, "sunday") || str_eq(s, "周日") || str_eq(s, "星期天") {
        6
    } else {
        0
    }
}

// ---------------------------------------------------------------------------
// HTML to text

/// The characters of `s` outside tags, from a point where a tag is open
/// or not: `<` opens a tag, `>` closes one, both are dropped.
pub open spec fn outside_tags(s: Seq<char>, in_tag: bool) -> Seq<char>
    decreases s.len(),
{
    if s.len() == 0 {
        Seq::empty()
    } else if s[0] == '<' {
        outside_tags(s.drop_first(), true)
    } else if s[0] == '>' {
        outside_tags(s.drop_first(), false)
    } else if !in_tag {
        seq![s[0]] + outside_tags(s.drop_first(), in_tag)
    } else {
        outside_tags(s.drop_first(), in_tag)
    }
}

/// The words of `s` (runs of characters that are not white space) joined
/// by single spaces, continuing a text in which a word has `started` and
/// a space is `pending` before the next word.
pub open spec fn squeeze(s: Seq<char>, pending: bool, started: bool) -> Seq<char>
    decreases s.len(),
{
    if s.len() == 0 {
        Seq::empty()
    } else if spec_is_whitespace(s[0]) {
        squeeze(s.drop_first(), started, started)
    } else {
        (if pending {
            seq![' ']
        } else {
            Seq::empty()
        }) + seq![s[0]] + squeeze(s.drop_first(), false, true)
    }
}

/// The text of an HTML fragment: tags dropped, white space runs collapsed
/// to single spaces, none at the ends.
pub open spec fn spec_strip_html(html: Seq<char>) -> Seq<char> {
    squeeze(outside_tags(html, false), false, false)
}

/// The text of an HTML fragment.
pub fn strip_html_tags(html: &str) -> (r: String)
    ensures
        r@ == spec_strip_html(html@),
{
    let v = chars_of(html);
    let mut out: Vec<char> = Vec::new();
    let mut in_tag = false;
    let mut i: usize = 0;
    assert(v@.skip(0) =~= v@);
    while i < v.len()
        invariant
            i <= v.len(),
            v@ == html@,
            out@ + outside_tags(v@.skip(i as int), in_tag) == outside_tags(html@, false),
        decreases v.len() - i,
    {
        let ghost rest = v@.skip(i as int);
        assert(rest.drop_first() =~= v@.skip(i + 1));
        let c = v[i];
        if c == '<' {
            in_tag = true;
        } else if c == '>' {
            in_tag = false;
        } else if !in_tag {
            let ghost before = out@;
            out.push(c);
            assert(out@ + outside_tags(v@.skip(i + 1), in_tag) =~= before + (seq![c] + outside_tags(v@.skip(i + 1), in_tag)));
        }
        i += 1;
    }
    assert(out@ + Seq::<char>::empty() =~= out@);
    let ghost text = out@;
    let mut r = String::new();
    let mut pending = false;
    let mut started = false;
    let mut k: usize = 0;
    assert(text.skip(0) =~= text);
    while k < out.len()
        invariant
            k <= out.len(),
            out@ == text,
            r@ + squeeze(text.skip(k as int), pending, started) == squeeze(text, false, false),
        decreases out.len() - k,
    {
        let ghost rest = text.skip(k as int);
        assert(rest.drop_first() =~= text.skip(k + 1));
        let c = out[k];
        if is_whitespace(c) {
            pending = started;
        } else {
            let ghost before = r@;
            let ghost p = pending;
            if pending {
                push_char(&mut r, ' ');
            }
            push_char(&mut r, c);
            pending = false;
            started = true;
            assert(r@ + squeeze(text.skip(k + 1), false, true) =~= before + ((if p {
                seq![' ']
            } else {
                Seq::empty()
            }) + seq![c] + squeeze(text.skip(k + 1), false, true)));
        }
        k += 1;
    }
    assert(r@ + Seq::<char>::empty() =~= r@);
    r
}

/// No `<` or `>` in a text.
pub open spec fn no_angle_brackets(r: Seq<char>) -> bool {
    forall|i: int| 0 <= i < r.len() ==> r[i] != '<' && r[i] != '>'
}

/// Every white-space character of a text is a single space between two
/// characters that are not white space.
pub open spec fn spaces_collapsed(r: Seq<char>) -> bool {
    forall|i: int|
        0 <= i < r.len() && spec_is_whitespace(#[trigger] r[i]) ==> r[i] == ' ' && 0 < i && i + 1 < r.len()
            && !spec_is_whitespace(r[i - 1]) && !spec_is_whitespace(r[i + 1])
}

/// Every white-space character is a space followed by a character that is
/// not white space.
spec fn single_spaces(u: Seq<char>) -> bool
    decreases u.len(),
{
    if u.len() == 0 {
        true
    } else if spec_is_whitespace(u[0]) {
        u[0] == ' ' && u.len() >= 2 && !spec_is_whitespace(u[1]) && single_spaces(u.drop_first())
    } else {
        single_spaces(u.drop_first())
    }
}

proof fn lemma_outside_tags_clean(s: Seq<char>, in_tag: bool)
    ensures
        no_angle_brackets(outside_tags(s, in_tag)),
    decreases s.len(),
{
    if s.len() > 0 {
        lemma_outside_tags_clean(s.drop_first(), s[0] == '<' || (s[0] != '>' && in_tag));
        if s[0] != '<' && s[0] != '>' && !in_tag {
            let rest = outside_tags(s.drop_first(), in_tag);
            let o = seq![s[0]] + rest;
            assert forall|i: int| 0 <= i < o.len() implies o[i] != '<' && o[i] != '>' by {
                if i > 0 {
                    assert(o[i] == rest[i - 1]);
                }
            }
        }
    }
}

proof fn lemma_squeeze_shape(t: Seq<char>, pending: bool, started: bool)
    ensures
        single_spaces(squeeze(t, pending, started)),
        !pending && !started ==> squeeze(t, pending, started).len() == 0 || !spec_is_whitespace(squeeze(t, pending, started)[0]),
        no_angle_brackets(t) ==> no_angle_brackets(squeeze(t, pending, started)),
    decreases t.len(),
{
    if t.len() > 0 {
        let rest = t.drop_first();
        if no_angle_brackets(t) {
            assert forall|i: int| 0 <= i < rest.len() implies rest[i] != '<' && rest[i] != '>' by {
                assert(rest[i] == t[i + 1]);
            }
        }
        if spec_is_whitespace(t[0]) {
            lemma_squeeze_shape(rest, started, started);
        } else {
            lemma_squeeze_shape(rest, false, true);
            let tail = squeeze(rest, false, true);
            let core = seq![t[0]] + tail;
            assert(core.drop_first() =~= tail);
            assert(single_spaces(core));
            if pending {
                let o = seq![' '] + core;
                assert(o =~= squeeze(t, pending, started));
                assert(o.drop_first() =~= core);
                assert(o[1] == t[0]);
                assert(single_spaces(o));
                if no_angle_brackets(t) {
                    assert forall|i: int| 0 <= i < o.len() implies o[i] != '<' && o[i] != '>' by {
                        if i >= 2 {
                            assert(o[i] == tail[i - 2]);
                        }
                    }
                }
            } else {
                assert(core =~= squeeze(t, pending, started));
                if no_angle_brackets(t) {
                    assert forall|i: int| 0 <= i < core.len() implies core[i] != '<' && core[i] != '>' by {
                        if i >= 1 {
                            assert(core[i] == tail[i - 1]);
                        }
                    }
                }
            }
        }
    }
}

/// A text of single spaces is left as it is by squeezing once a word has
/// started.
proof fn lemma_squeeze_fixed(u: Seq<char>)
    requires
        single_spaces(u),
    ensures
        squeeze(u, false, true) == u,
    decreases u.len(),
{
    if u.len() > 0 {
        if spec_is_whitespace(u[0]) {
            let v = u.drop_first();
            assert(v[0] == u[1]);
            assert(single_spaces(v));
            assert(!spec_is_whitespace(v[0]));
            assert(single_spaces(v.drop_first()));
            lemma_squeeze_fixed(v.drop_first());
            assert(squeeze(v, true, true) == seq![' '] + seq![v[0]] + squeeze(v.drop_first(), false, true));
            assert(seq![' '] + seq![v[0]] + v.drop_first() =~= u);
        } else {
            lemma_squeeze_fixed(u.drop_first());
            assert(seq![u[0]] + u.drop_first() =~= u);
        }
    }
}

proof fn lemma_single_spaces_index(u: Seq<char>)
    requires
        single_spaces(u),
    ensures
        forall|i: int|
            0 <= i < u.len() && spec_is_whitespace(#[trigger] u[i]) ==> u[i] == ' ' && i + 1 < u.len()
                && !spec_is_whitespace(u[i + 1]),
    decreases u.len(),
{
    if u.len() > 0 {
        let v = u.drop_first();
        lemma_single_spaces_index(v);
        assert forall|i: int| 0 <= i < u.len() && spec_is_whitespace(#[trigger] u[i]) implies u[i] == ' ' && i + 1
            < u.len() && !spec_is_whitespace(u[i + 1]) by {
            if i > 0 {
                assert(u[i] == v[i - 1]);
                assert(spec_is_whitespace(v[i - 1]));
                if i + 1 < u.len() {
                    assert(u[i + 1] == v[i]);
                }
            }
        }
    }
}

/// The text of an HTML fragment holds no `<` or `>`, its white space is
/// collapsed to single spaces between words, and stripping it again
/// changes nothing.
pub proof fn law_strip_html_clean(html: Seq<char>)
    ensures
        no_angle_brackets(spec_strip_html(html)),
        spaces_collapsed(spec_strip_html(html)),
        spec_strip_html(spec_strip_html(html)) == spec_strip_html(html),
{
    let t = outside_tags(html, false);
    let r = spec_strip_html(html);
    lemma_outside_tags_clean(html, false);
    lemma_squeeze_shape(t, false, false);
    lemma_single_spaces_index(r);
    assert forall|i: int| 0 <= i < r.len() && spec_is_whitespace(#[trigger] r[i]) implies r[i] == ' ' && 0 < i && i + 1
        < r.len() && !spec_is_whitespace(r[i - 1]) && !spec_is_whitespace(r[i + 1]) by {
        if i > 0 && spec_is_whitespace(r[i - 1]) {
            assert(!spec_is_whitespace(r[(i - 1) + 1]));
        }
    }
    // Stripping again: no tags to drop, and the squeeze leaves `r` alone.
    lemma_outside_tags_plain(r);
    if r.len() > 0 {
        lemma_squeeze_fixed(r.drop_first());
        assert(single_spaces(r.drop_first()));
        assert(seq![r[0]] + r.drop_first() =~= r);
    }
}

/// A text without `<` or `>` is all outside tags.
proof fn lemma_outside_tags_plain(r: Seq<char>)
    requires
        no_angle_brackets(r),
    ensures
        outside_tags(r, false) == r,
    decreases r.len(),
{
    if r.len() > 0 {
        let v = r.drop_first();
        assert forall|i: int| 0 <= i < v.len() implies v[i] != '<' && v[i] != '>' by {
            assert(v[i] == r[i + 1]);
        }
        lemma_outside_tags_plain(v);
        assert(seq![r[0]] + v =~= r);
    }
}

// ---------------------------------------------------------------------------
// Reading arguments

/// The text of member `k`, or `dflt` when it is missing or not a string.
pub open spec fn arg_str(args: JsonValue, k: Seq<char>, dflt: Seq<char>) -> Seq<char> {
    match spec_get(args, k) {
        Some(x) => match spec_as_str(x) {
            Some(s) => s,
            None => dflt,
        },
        None => dflt,
    }
}

/// The `i64` value of member `k`, or `dflt`.
pub open spec fn arg_i64(args: JsonValue, k: Seq<char>, dflt: i64) -> i64 {
    match spec_get(args, k) {
        Some(x) => match spec_as_i64(x) {
            Some(v) => v,
            None => dflt,
        },
        None => dflt,
    }
}

/// The `u64` value of member `k`, or `dflt`.
pub open spec fn arg_u64(args: JsonValue, k: Seq<char>, dflt: u64) -> u64 {
    match spec_get(args, k) {
        Some(x) => match spec_as_u64(x) {
            Some(v) => v,
            None => dflt,
        },
        None => dflt,
    }
}

pub(crate) fn read_str(args: &JsonValue, k: &str, dflt: &str) -> (r: String)
    ensures
        r@ == arg_str(*args, k@, dflt@),
{
    match args.get(k) {
        Some(x) => match x.as_str() {
            Some(s) => String::from_str(s),
            None => String::from_str(dflt),
        },
        None => String::from_str(dflt),
    }
}

fn read_i64(args: &JsonValue, k: &str, dflt: i64) -> (r: i64)
    ensures
        r == arg_i64(*args, k@, dflt),
{
    match args.get(k) {
        Some(x) => match x.as_i64() {
            Some(v) => v,
            None => dflt,
        },
        None => dflt,
    }
}

fn read_u64(args: &JsonValue, k: &str, dflt: u64) -> (r: u64)
    ensures
        r == arg_u64(*args, k@, dflt),
{
    match args.get(k) {
        Some(x) => match x.as_u64() {
            Some(v) => v,
            None => dflt,
        },
        None => dflt,
    }
}

/// A text value.
pub open spec fn jstr(s: Seq<char>) -> JsonModel {
    JsonModel::Str(s)
}

/// The reply of a skill that refuses its arguments.
pub open spec fn error_reply(message: Seq<char>) -> JsonModel {
    JsonModel::Object(seq![("status"@, jstr("error"@)), ("message"@, jstr(message))])
}

pub(crate) fn error_value(message: &str) -> (r: JsonValue)
    ensures
        json_model(r) == error_reply(message@),
{
    let mut m = new_members();
    push_member(&mut m, "status", json_str("error"));
    push_member(&mut m, "message", json_str(message));
    assert(members_model(m@) =~= error_reply(message@)->Object_0);
    json_object(m)
}

// ---------------------------------------------------------------------------
// Random numbers

/// `rand::thread_rng().gen_range(lo..=hi)`: a random integer between the
/// bounds, both included.  Which one is not stated.
#[verifier::external_body]
fn rand_i64_in(lo: i64, hi: i64) -> (r: i64)
    requires
        lo <= hi,
    ensures
        lo <= r <= hi,
{
    rand::thread_rng().gen_range(lo..=hi)
}

/// `rand::thread_rng().gen_range(lo..hi)`: a random index from `lo` up to,
/// but not including, `hi`.  Which one is not stated.
#[verifier::external_body]
fn rand_index_in(lo: usize, hi: usize) -> (r: usize)
    requires
        lo < hi,
    ensures
        lo <= r < hi,
{
    rand::thread_rng().gen_range(lo..hi)
}

/// The reply to a request for a random number between `min` and `max`
/// that drew `v`.
pub open spec fn number_reply(min: i64, max: i64, v: i64) -> JsonModel {
    JsonModel::Object(
        seq![
            ("type"@, jstr("number"@)),
            ("min"@, int_model(min as int)),
            ("max"@, int_model(max as int)),
            ("result"@, int_model(v as int)),
            ("full"@, jstr("随机数（"@ + spec_int_text(min as int) + "-"@ + spec_int_text(max as int) + "）: "@ + spec_int_text(v as int))),
        ],
    )
}

/// The sum of integers.
pub open spec fn int_sum(s: Seq<i64>) -> int
    decreases s.len(),
{
    if s.len() == 0 {
        0
    } else {
        int_sum(s.drop_last()) + s.last()
    }
}

/// The texts of integers.
pub open spec fn int_texts(s: Seq<i64>) -> Seq<Seq<char>> {
    s.map_values(|x: i64| spec_int_text(x as int))
}

/// Integers as `Debug` writes a list of them: `[1, 2, 3]`.
pub open spec fn debug_ints(s: Seq<i64>) -> Seq<char> {
    "["@ + spec_join(int_texts(s), ", "@) + "]"@
}

/// The numbers of a list of integers.
pub open spec fn ints_model(s: Seq<i64>) -> Seq<JsonModel> {
    s.map_values(|x: i64| int_model(x as int))
}

/// The reply to a throw of `count` dice with `faces` faces that rolled
/// `rolls`.
pub open spec fn dice_reply(faces: i64, count: nat, rolls: Seq<i64>) -> JsonModel {
    JsonModel::Object(
        seq![
            ("type"@, jstr("dice"@)),
            ("faces"@, int_model(faces as int)),
            ("count"@, int_model(count as int)),
            ("results"@, JsonModel::Array(ints_model(rolls))),
            ("total"@, int_model(int_sum(rolls))),
            ("full"@, jstr(spec_decimal(count) + "d"@ + spec_int_text(faces as int) + ": "@ + debug_ints(rolls) + " = "@ + spec_int_text(int_sum(rolls)))),
        ],
    )
}

/// The characters a password is drawn from.
pub open spec fn password_charset() -> Seq<char> {
    "ABCDEFGHIJKLMNOPQRSTUVWXYZabcdefghijklmnopqrstuvwxyz0123456789!@#$%^&*"@
}

/// The reply to a request for a password of `length` characters.
pub open spec fn password_reply(length: nat, password: Seq<char>) -> JsonModel {
    JsonModel::Object(
        seq![
            ("type"@, jstr("password"@)),
            ("length"@, int_model(length as int)),
            ("password"@, jstr(password)),
            ("full"@, jstr("随机密码（"@ + spec_decimal(length) + "位）: "@ + password)),
        ],
    )
}

/// The pieces of `s` between occurrences of `c`, as `str::split` gives them
/// (one more piece than there are separators).
pub open spec fn split_on(s: Seq<char>, c: char) -> Seq<Seq<char>>
    decreases s.len(),
{
    if s.len() == 0 {
        seq![Seq::empty()]
    } else {
        let rest = split_on(s.drop_last(), c);
        if s.last() == c {
            rest.push(Seq::empty())
        } else {
            rest.update(rest.len() - 1, rest.last().push(s.last()))
        }
    }
}

proof fn lemma_split_on_len(s: Seq<char>, c: char)
    ensures
        split_on(s, c).len() >= 1,
    decreases s.len(),
{
    if s.len() > 0 {
        lemma_split_on_len(s.drop_last(), c);
    }
}

/// The trimmed pieces that are not empty.
pub open spec fn nonempty_trimmed(pieces: Seq<Seq<char>>) -> Seq<Seq<char>>
    decreases pieces.len(),
{
    if pieces.len() == 0 {
        Seq::empty()
    } else {
        let p = nonempty_trimmed(pieces.drop_last());
        let t = spec_trim(pieces.last());
        if t.len() > 0 {
            p.push(t)
        } else {
            p
        }
    }
}

/// The items of a comma-separated list: trimmed, empty ones left out.
pub open spec fn pick_items(s: Seq<char>) -> Seq<Seq<char>> {
    nonempty_trimmed(split_on(s, ','))
}

/// `s` with the entries at `a` and `b` exchanged.
pub open spec fn swap_at(s: Seq<int>, a: int, b: int) -> Seq<int> {
    s.update(a, s[b]).update(b, s[a])
}

/// The positions after the first `k` steps of a Fisher-Yates shuffle of
/// `s` in which step `i` exchanges position `i` with position `draws[i]`.
pub open spec fn shuffled(s: Seq<int>, draws: Seq<int>, k: int) -> Seq<int>
    decreases k,
{
    if k <= 0 {
        s
    } else {
        swap_at(shuffled(s, draws, k - 1), k - 1, draws[k - 1])
    }
}

/// The positions `0` to `n - 1`.
pub open spec fn positions(n: nat) -> Seq<int> {
    Seq::new(n, |i: int| i)
}

/// Whether `draws` are valid draws for `n` steps of a shuffle of `len`
/// items: step `i` draws a position from `i` up to `len`.
pub open spec fn valid_draws(draws: Seq<int>, n: nat, len: nat) -> bool {
    draws.len() == n && forall|i: int| 0 <= i < n ==> i <= #[trigger] draws[i] < len
}

/// The items picked by the shuffle with `draws`: the first `n` positions
/// after `n` steps.
pub open spec fn picked_items(items: Seq<Seq<char>>, draws: Seq<int>, n: nat) -> Seq<Seq<char>> {
    let idx = shuffled(positions(items.len()), draws, n as int);
    Seq::new(n, |i: int| items[idx[i]])
}

/// Texts as `Debug` writes a list of them.
pub uninterp spec fn debug_texts(items: Seq<Seq<char>>) -> Seq<char>;

/// `format!("{:?}", items)`: the list as `Debug` writes it, each text
/// quoted and escaped.  The contract names the result; it depends on the
/// texts alone.
#[verifier::external_body]
fn debug_list(items: &Vec<String>) -> (r: String)
    ensures
        r@ == debug_texts(strs_view(items@)),
{
    format!("{:?}", items)
}

/// The reply to a pick of `n` of `items` that picked `picked`.
pub open spec fn pick_reply(items: Seq<Seq<char>>, n: nat, picked: Seq<Seq<char>>) -> JsonModel {
    JsonModel::Object(
        seq![
            ("type"@, jstr("pick"@)),
            ("total_items"@, int_model(items.len() as int)),
            ("pick_count"@, int_model(n as int)),
            ("picked"@, JsonModel::Array(picked.map_values(|t: Seq<char>| jstr(t)))),
            ("full"@, jstr(if n == 1 {
                "从 "@ + spec_decimal(items.len()) + " 个选项中随机选择: "@ + picked[0]
            } else {
                "从 "@ + spec_decimal(items.len()) + " 个选项中随机选择 "@ + spec_decimal(n) + " 个: "@ + debug_texts(picked)
            })),
        ],
    )
}

/// The kind of random value asked for.
pub open spec fn random_kind(args: JsonValue) -> Seq<char> {
    arg_str(args, "type"@, "number"@)
}

/// The number of faces of the dice: at least two.
pub open spec fn dice_faces(args: JsonValue) -> i64 {
    let f = arg_i64(args, "faces"@, 6);
    if f < 2 {
        2
    } else {
        f
    }
}

/// The number of dice thrown: one to a hundred.
pub open spec fn dice_count(args: JsonValue) -> nat {
    let c = arg_i64(args, "count"@, 1);
    if c < 1 {
        1
    } else if c > 100 {
        100
    } else {
        c as nat
    }
}

/// The length of a password: four to 128 characters.
pub open spec fn password_length(args: JsonValue) -> nat {
    let l = arg_i64(args, "length"@, 16);
    if l < 4 {
        4
    } else if l > 128 {
        128
    } else {
        l as nat
    }
}

/// How many items to pick: at least one, at most as many as there are.
pub open spec fn pick_count(args: JsonValue, available: nat) -> nat {
    let c = arg_i64(args, "pick_count"@, 1);
    let wanted: nat = if c < 1 {
        1
    } else {
        c as nat
    };
    if wanted < available {
        wanted
    } else {
        available
    }
}

/// The arguments on which a random draw is defined: a number range whose
/// lower bound does not exceed the upper, and dice with few enough faces
/// that the total of a hundred throws fits in an `i64`.
pub open spec fn random_args_ok(args: JsonValue) -> bool {
    let kind = random_kind(args);
    &&& kind == "number"@ ==> arg_i64(args, "min"@, 1) <= arg_i64(args, "max"@, 100)
    &&& kind == "dice"@ ==> dice_faces(args) <= i64::MAX / 100
}

/// What a random draw answers, for some outcome of the draws: a number in
/// the range; dice that each show one to `faces`; a password of characters
/// from the set; items picked by a partial Fisher-Yates shuffle; an error
/// for an empty list of items or an unknown kind.
pub open spec fn random_outcome(args: JsonValue, reply: JsonModel) -> bool {
    let kind = random_kind(args);
    if kind == "number"@ {
        let min = arg_i64(args, "min"@, 1);
        let max = arg_i64(args, "max"@, 100);
        exists|v: i64| min <= v <= max && reply == #[trigger] number_reply(min, max, v)
    } else if kind == "dice"@ {
        let faces = dice_faces(args);
        let count = dice_count(args);
        exists|rolls: Seq<i64>|
            rolls.len() == count && (forall|i: int| 0 <= i < count ==> 1 <= #[trigger] rolls[i] <= faces)
            && reply == #[trigger] dice_reply(faces, count, rolls)
    } else if kind == "password"@ {
        let length = password_length(args);
        exists|pw: Seq<char>|
            pw.len() == length && (forall|i: int| 0 <= i < length ==> password_charset().contains(#[trigger] pw[i]))
            && reply == #[trigger] password_reply(length, pw)
    } else if kind == "pick"@ {
        let items = pick_items(arg_str(args, "items"@, Seq::empty()));
        if items.len() == 0 {
            reply == error_reply("候选项列表为空"@)
        } else {
            let n = pick_count(args, items.len());
            exists|draws: Seq<int>|
                valid_draws(draws, n, items.len()) && reply == #[trigger] pick_reply(items, n, picked_items(items, draws, n))
        }
    } else {
        reply == error_reply("不支持的随机类型 '"@ + kind + "'，支持: number, dice, password, pick"@)
    }
}

fn concat3(a: &str, b: &str, c: &str) -> (r: String)
    ensures
        r@ == a@ + b@ + c@,
{
    let mut s = String::from_str(a);
    s.append(b);
    s.append(c);
    s
}

fn random_number(min: i64, max: i64) -> (r: JsonValue)
    requires
        min <= max,
    ensures
        exists|v: i64| min <= v <= max && json_model(r) == #[trigger] number_reply(min, max, v),
{
    let v = rand_i64_in(min, max);
    let mut full = String::from_str("随机数（");
    full.append(i64_text(min).as_str());
    full.append("-");
    full.append(i64_text(max).as_str());
    full.append("）: ");
    full.append(i64_text(v).as_str());
    let mut m = new_members();
    push_member(&mut m, "type", json_str("number"));
    push_member(&mut m, "min", json_int(min));
    push_member(&mut m, "max", json_int(max));
    push_member(&mut m, "result", json_int(v));
    push_member(&mut m, "full", json_str(full.as_str()));
    assert(members_model(m@) =~= number_reply(min, max, v)->Object_0);
    let r = json_object(m);
    assert(json_model(r) == number_reply(min, max, v));
    r
}

fn debug_int_list(rolls: &Vec<i64>) -> (r: String)
    ensures
        r@ == debug_ints(rolls@),
{
    let mut texts: Vec<String> = Vec::new();
    let mut k: usize = 0;
    while k < rolls.len()
        invariant
            k <= rolls.len(),
            strs_view(texts@) == int_texts(rolls@.take(k as int)),
        decreases rolls.len() - k,
    {
        let t = i64_text(rolls[k]);
        let ghost before = texts@;
        texts.push(t);
        proof {
            lemma_strs_view_push(before, t);
        }
        assert(int_texts(rolls@.take(k + 1)) =~= int_texts(rolls@.take(k as int)).push(t@));
        k += 1;
    }
    assert(rolls@.take(k as int) =~= rolls@);
    let joined = join_strs(&texts, ", ");
    concat3("[", joined.as_str(), "]")
}

fn random_dice(faces: i64, count: usize) -> (r: JsonValue)
    requires
        2 <= faces <= i64::MAX / 100,
        1 <= count <= 100,
    ensures
        exists|rolls: Seq<i64>|
            rolls.len() == count && (forall|i: int| 0 <= i < count ==> 1 <= #[trigger] rolls[i] <= faces)
            && json_model(r) == #[trigger] dice_reply(faces, count as nat, rolls),
{
    let mut rolls: Vec<i64> = Vec::new();
    let mut items: Vec<JsonValue> = Vec::new();
    let mut total: i64 = 0;
    let mut k: usize = 0;
    assert(items_model(items@) =~= ints_model(rolls@));
    while k < count
        invariant
            k <= count <= 100,
            2 <= faces <= i64::MAX / 100,
            rolls@.len() == k,
            forall|i: int| 0 <= i < k ==> 1 <= #[trigger] rolls@[i] <= faces,
            total == int_sum(rolls@),
            0 <= total <= k * faces,
            items_model(items@) == ints_model(rolls@),
        decreases count - k,
    {
        let roll = rand_i64_in(1, faces);
        assert(total + roll <= (k + 1) * faces) by (nonlinear_arith)
            requires
                total <= k * faces,
                roll <= faces,
        ;
        assert((k + 1) * faces <= 100 * faces) by (nonlinear_arith)
            requires
                k + 1 <= 100,
                faces >= 0,
        ;
        let ghost before = rolls@;
        rolls.push(roll);
        assert(rolls@.drop_last() =~= before);
        total = total + roll;
        let jv = json_int(roll);
        let ghost items_before = items@;
        items.push(jv);
        assert(items_model(items@) =~= items_model(items_before).push(json_model(jv)));
        assert(ints_model(rolls@) =~= ints_model(before).push(int_model(roll as int)));
        k += 1;
    }
    proof {
        lemma_array_model(items);
    }
    let list = JsonValue::Array(items);
    let mut full = decimal_string(count as u64);
    full.append("d");
    full.append(i64_text(faces).as_str());
    full.append(": ");
    full.append(debug_int_list(&rolls).as_str());
    full.append(" = ");
    full.append(i64_text(total).as_str());
    let mut m = new_members();
    push_member(&mut m, "type", json_str("dice"));
    push_member(&mut m, "faces", json_int(faces));
    push_member(&mut m, "count", json_nat(count as u64));
    push_member(&mut m, "results", list);
    push_member(&mut m, "total", json_int(total));
    push_member(&mut m, "full", json_str(full.as_str()));
    assert(members_model(m@) =~= dice_reply(faces, count as nat, rolls@)->Object_0);
    let r = json_object(m);
    assert(json_model(r) == dice_reply(faces, count as nat, rolls@));
    r
}

fn random_password(length: usize) -> (r: JsonValue)
    requires
        4 <= length <= 128,
    ensures
        exists|pw: Seq<char>|
            pw.len() == length && (forall|i: int| 0 <= i < length ==> password_charset().contains(#[trigger] pw[i]))
            && json_model(r) == #[trigger] password_reply(length as nat, pw),
{
    let set = "ABCDEFGHIJKLMNOPQRSTUVWXYZabcdefghijklmnopqrstuvwxyz0123456789!@#$%^&*";
    proof {
        reveal_strlit("ABCDEFGHIJKLMNOPQRSTUVWXYZabcdefghijklmnopqrstuvwxyz0123456789!@#$%^&*");
    }
    let cs = chars_of(set);
    assert(cs@.len() == 70);
    let mut pw: Vec<char> = Vec::new();
    while pw.len() < length
        invariant
            pw@.len() <= length,
            cs@ == password_charset(),
            cs@.len() == 70,
            forall|i: int| 0 <= i < pw@.len() ==> password_charset().contains(#[trigger] pw@[i]),
        decreases length - pw@.len(),
    {
        let idx = rand_index_in(0, cs.len());
        let c = cs[idx];
        assert(password_charset()[idx as int] == c);
        pw.push(c);
    }
    let text = string_from_chars(&pw);
    let mut full = String::from_str("随机密码（");
    full.append(decimal_string(length as u64).as_str());
    full.append("位）: ");
    full.append(text.as_str());
    let mut m = new_members();
    push_member(&mut m, "type", json_str("password"));
    push_member(&mut m, "length", json_nat(length as u64));
    push_member(&mut m, "password", json_str(text.as_str()));
    push_member(&mut m, "full", json_str(full.as_str()));
    assert(members_model(m@) =~= password_reply(length as nat, pw@)->Object_0);
    let r = json_object(m);
    assert(json_model(r) == password_reply(length as nat, pw@));
    r
}

/// The items of a comma-separated list: trimmed, empty ones left out.
pub fn split_pick_items(s: &str) -> (r: Vec<String>)
    ensures
        strs_view(r@) == pick_items(s@),
{
    let v = chars_of(s);
    let mut out: Vec<String> = Vec::new();
    let mut cur: Vec<char> = Vec::new();
    let ghost mut done: Seq<Seq<char>> = Seq::empty();
    let mut i: usize = 0;
    assert(v@.take(0) =~= Seq::<char>::empty());
    assert(strs_view(out@) =~= Seq::<Seq<char>>::empty());
    while i < v.len()
        invariant
            i <= v.len(),
            v@ == s@,
            split_on(v@.take(i as int), ',') == done.push(cur@),
            strs_view(out@) == nonempty_trimmed(done),
        decreases v.len() - i,
    {
        let c = v[i];
        assert(v@.take(i + 1).drop_last() =~= v@.take(i as int));
        assert(v@.take(i + 1).last() == c);
        if c == ',' {
            let t = trim_chars(&cur);
            proof {
                assert(done.push(cur@).drop_last() =~= done);
            }
            if t.len() > 0 {
                let ts = string_from_chars(&t);
                let ghost before = out@;
                out.push(ts);
                proof {
                    lemma_strs_view_push(before, ts);
                }
            }
            proof {
                done = done.push(cur@);
            }
            cur = Vec::new();
            assert(split_on(v@.take(i + 1), ',') =~= done.push(cur@));
        } else {
            proof {
                lemma_split_on_len(v@.take(i as int), ',');
            }
            cur.push(c);
            assert(split_on(v@.take(i + 1), ',') =~= done.push(cur@));
        }
        i += 1;
    }
    assert(v@.take(i as int) =~= s@);
    let t = trim_chars(&cur);
    assert(done.push(cur@).drop_last() =~= done);
    if t.len() > 0 {
        let ts = string_from_chars(&t);
        let ghost before = out@;
        out.push(ts);
        proof {
            lemma_strs_view_push(before, ts);
        }
    }
    out
}

/// The positions held in a vector.
pub open spec fn as_ints(s: Seq<usize>) -> Seq<int> {
    s.map_values(|x: usize| x as int)
}

fn random_pick(items: &Vec<String>, n: usize) -> (r: JsonValue)
    requires
        1 <= n <= items@.len(),
    ensures
        exists|draws: Seq<int>|
            valid_draws(draws, n as nat, items@.len()) && json_model(r) == #[trigger] pick_reply(
                strs_view(items@),
                n as nat,
                picked_items(strs_view(items@), draws, n as nat),
            ),
{
    let len = items.len();
    let mut idx: Vec<usize> = Vec::new();
    while idx.len() < len
        invariant
            idx@.len() <= len,
            forall|i: int| 0 <= i < idx@.len() ==> #[trigger] idx@[i] == i,
        decreases len - idx@.len(),
    {
        let k = idx.len();
        idx.push(k);
    }
    assert(as_ints(idx@) =~= positions(len as nat));
    let ghost mut draws: Seq<int> = Seq::empty();
    let mut i: usize = 0;
    while i < n
        invariant
            i <= n <= len == items@.len(),
            idx@.len() == len,
            forall|k: int| 0 <= k < len ==> #[trigger] idx@[k] < len,
            as_ints(idx@) == shuffled(positions(len as nat), draws, i as int),
            draws.len() == i,
            forall|k: int| 0 <= k < i ==> k <= #[trigger] draws[k] < len,
        decreases n - i,
    {
        let j = rand_index_in(i, len);
        let a = idx[i];
        let b = idx[j];
        let ghost before = as_ints(idx@);
        idx.set(i, b);
        idx.set(j, a);
        proof {
            let old_draws = draws;
            draws = draws.push(j as int);
            lemma_shuffled_prefix(positions(len as nat), draws, old_draws, i as int);
            assert(as_ints(idx@) =~= swap_at(before, i as int, j as int));
            assert(shuffled(positions(len as nat), draws, i + 1) == swap_at(
                shuffled(positions(len as nat), draws, i as int),
                i as int,
                draws[i as int],
            ));
        }
        i += 1;
    }
    let mut picked: Vec<String> = Vec::new();
    let mut list: Vec<JsonValue> = Vec::new();
    let mut k: usize = 0;
    let ghost want = picked_items(strs_view(items@), draws, n as nat);
    while k < n
        invariant
            k <= n <= len == items@.len(),
            idx@.len() == len,
            forall|q: int| 0 <= q < len ==> #[trigger] idx@[q] < len,
            as_ints(idx@) == shuffled(positions(len as nat), draws, n as int),
            want == picked_items(strs_view(items@), draws, n as nat),
            strs_view(picked@) == want.take(k as int),
            items_model(list@) == want.take(k as int).map_values(|t: Seq<char>| jstr(t)),
        decreases n - k,
    {
        let t = items[idx[k]].clone();
        assert(want[k as int] == strs_view(items@)[idx@[k as int] as int]);
        let ghost before = picked@;
        let jv = json_str(t.as_str());
        let ghost lb = list@;
        list.push(jv);
        picked.push(t);
        proof {
            lemma_strs_view_push(before, t);
            assert(want.take(k + 1) =~= want.take(k as int).push(t@));
            assert(items_model(list@) =~= items_model(lb).push(json_model(jv)));
            assert(want.take(k + 1).map_values(|t: Seq<char>| jstr(t)) =~= want.take(k as int).map_values(|t: Seq<char>| jstr(t)).push(jstr(t@)));
        }
        k += 1;
    }
    assert(want.take(n as int) =~= want);
    proof {
        lemma_array_model(list);
    }
    let arr = JsonValue::Array(list);
    let count_text = decimal_string(len as u64);
    let full = if n == 1 {
        let mut f = String::from_str("从 ");
        f.append(count_text.as_str());
        f.append(" 个选项中随机选择: ");
        f.append(picked[0].as_str());
        f
    } else {
        let mut f = String::from_str("从 ");
        f.append(count_text.as_str());
        f.append(" 个选项中随机选择 ");
        f.append(decimal_string(n as u64).as_str());
        f.append(" 个: ");
        f.append(debug_list(&picked).as_str());
        f
    };
    let mut m = new_members();
    push_member(&mut m, "type", json_str("pick"));
    push_member(&mut m, "total_items", json_nat(len as u64));
    push_member(&mut m, "pick_count", json_nat(n as u64));
    push_member(&mut m, "picked", arr);
    push_member(&mut m, "full", json_str(full.as_str()));
    assert(strs_view(picked@) == want);
    assert(members_model(m@) =~= pick_reply(strs_view(items@), n as nat, want)->Object_0);
    let r = json_object(m);
    assert(valid_draws(draws, n as nat, items@.len()));
    r
}

proof fn lemma_shuffled_prefix(s: Seq<int>, a: Seq<int>, b: Seq<int>, k: int)
    requires
        0 <= k <= a.len(),
        k <= b.len(),
        forall|i: int| 0 <= i < k ==> a[i] == b[i],
    ensures
        shuffled(s, a, k) == shuffled(s, b, k),
    decreases k,
{
    if k > 0 {
        lemma_shuffled_prefix(s, a, b, k - 1);
    }
}

/// Draws a random value of the kind the arguments ask for: `number`
/// (between `min` and `max`, by default 1 and 100), `dice` (`count` dice
/// of `faces` faces), `password` (of `length` characters) or `pick`
/// (`pick_count` of the comma-separated `items`).
pub fn random_gen(args: &JsonValue) -> (r: JsonValue)
    requires
        random_args_ok(*args),
    ensures
        random_outcome(*args, json_model(r)),
{
    let kind = read_str(args, "type", "number");
    if str_eq(kind.as_str(), "number") {
        let min = read_i64(args, "min", 1);
        let max = read_i64(args, "max", 100);
        random_number(min, max)
    } else if str_eq(kind.as_str(), "dice") {
        let f = read_i64(args, "faces", 6);
        let faces = if f < 2 {
            2
        } else {
            f
        };
        let c = read_i64(args, "count", 1);
        let count: usize = if c < 1 {
            1
        } else if c > 100 {
            100
        } else {
            c as usize
        };
        random_dice(faces, count)
    } else if str_eq(kind.as_str(), "password") {
        let l = read_i64(args, "length", 16);
        let length: usize = if l < 4 {
            4
        } else if l > 128 {
            128
        } else {
            l as usize
        };
        random_password(length)
    } else if str_eq(kind.as_str(), "pick") {
        let text = read_str(args, "items", "");
        proof {
            reveal_strlit("");
            assert(""@ =~= Seq::<char>::empty());
        }
        let items = split_pick_items(text.as_str());
        if items.len() == 0 {
            return error_value("候选项列表为空");
        }
        let c = read_i64(args, "pick_count", 1);
        let wanted: usize = if c < 1 {
            1
        } else if c as u64 >= items.len() as u64 {
            items.len()
        } else {
            c as usize
        };
        let n: usize = if wanted < items.len() {
            wanted
        } else {
            items.len()
        };
        assert(n == pick_count(*args, strs_view(items@).len()));
        random_pick(&items, n)
    } else {
        let mut msg = String::from_str("不支持的随机类型 '");
        msg.append(kind.as_str());
        msg.append("'，支持: number, dice, password, pick");
        error_value(msg.as_str())
    }
}

// ---------------------------------------------------------------------------
// Dates and times

/// A moment of local time, as the calendar and clock show it.
pub struct Moment {
    pub year: i32,
    pub month: u32,
    pub day: u32,
    pub hour: u32,
    pub minute: u32,
    pub second: u32,
    /// Counted from Monday (0).
    pub weekday: u32,
    pub iso_week: u32,
    /// The day of the year, from 1.
    pub ordinal: u32,
    /// Seconds since the Unix epoch.
    pub timestamp: i64,
}

/// The field ranges `chrono` documents for a moment.
pub open spec fn moment_ok(t: Moment) -> bool {
    &&& valid_date(t.year as int, t.month as int, t.day as int)
    &&& t.hour <= 23 && t.minute <= 59 && t.second <= 59
    &&& t.weekday <= 6 && 1 <= t.iso_week <= 53 && 1 <= t.ordinal <= 366
}

/// Reads the local clock with `chrono::Local::now()` and, when `later_by`
/// is given, the local time that many seconds later
/// (`TimeDelta::try_seconds` added with `DateTime::checked_add_signed`;
/// nothing when either is out of range), both as calendar fields read with
/// the getters of `Datelike` and `Timelike`.  Trusted: the fields lie in
/// the documented ranges and the later moment is `later_by` seconds later
/// on the Unix clock.  Nothing else is stated: the values are the time of
/// the call and the calendar fields depend on the machine's time zone.
/// `chrono::DateTime` is bounded by an outside trait, so it cannot cross
/// into verified code; both readings are therefore made here.
#[verifier::external_body]
fn local_clock(later_by: Option<i64>) -> (r: (Moment, Option<Option<Moment>>))
    ensures
        moment_ok(r.0),
        later_by is None <==> r.1 is None,
        match r.1 {
            Some(Some(t)) => moment_ok(t) && t.timestamp == r.0.timestamp + later_by.unwrap(),
            _ => true,
        },
{
    let conv = |t: &chrono::DateTime<chrono::Local>| Moment {
        year: t.year(), month: t.month(), day: t.day(), hour: t.hour(), minute: t.minute(),
        second: t.second(), weekday: t.weekday().num_days_from_monday(),
        iso_week: t.iso_week().week(), ordinal: t.ordinal(), timestamp: t.timestamp(),
    };
    let now = chrono::Local::now();
    let later = later_by.map(|s| chrono::TimeDelta::try_seconds(s).and_then(|d| now.checked_add_signed(d)).map(|t| conv(&t)));
    (conv(&now), later)
}

/// The date that `NaiveDate::parse_from_str(text, "%Y-%m-%d")` reads.
pub uninterp spec fn parsed_ymd(text: Seq<char>) -> Option<(i32, u32, u32)>;

/// `chrono::NaiveDate::parse_from_str(text, "%Y-%m-%d")`.  The contract
/// names the result, which depends on `text` alone, and states that a read
/// date exists in the calendar.
#[verifier::external_body]
fn parse_ymd(text: &str) -> (r: Option<(i32, u32, u32)>)
    ensures
        r == parsed_ymd(text@),
        match r {
            Some((y, m, d)) => valid_date(y as int, m as int, d as int),
            None => true,
        },
{
    chrono::NaiveDate::parse_from_str(text, "%Y-%m-%d").ok().map(|d| (d.year(), d.month(), d.day()))
}

/// The lower-case form of a text.
pub uninterp spec fn lowercased(s: Seq<char>) -> Seq<char>;

/// `str::to_lowercase`, the Unicode lower-case mapping.  The contract
/// names the result; it depends on the text alone.
#[verifier::external_body]
pub(crate) fn to_lower(s: &str) -> (r: String)
    ensures
        r@ == lowercased(s@),
{
    s.to_lowercase()
}

/// A number below 10 000 with zeros in front to four digits.
pub open spec fn pad4(n: nat) -> Seq<char> {
    if n < 10 {
        "000"@ + spec_decimal(n)
    } else if n < 100 {
        "00"@ + spec_decimal(n)
    } else if n < 1000 {
        "0"@ + spec_decimal(n)
    } else {
        spec_decimal(n)
    }
}

/// A year as `%Y` writes it: four digits, with a sign outside 0 to 9999.
pub open spec fn year_text(y: i32) -> Seq<char> {
    if 0 <= y <= 9999 {
        pad4(y as nat)
    } else if y < 0 {
        "-"@ + pad4((-y) as nat)
    } else {
        "+"@ + pad4(y as nat)
    }
}

/// A number below 100 in two digits.
pub open spec fn two_digits(n: u32) -> Seq<char> {
    if n < 10 {
        "0"@ + spec_decimal(n as nat)
    } else {
        spec_decimal(n as nat)
    }
}

/// A date as `%Y-%m-%d` writes it.
pub open spec fn ymd_text(y: i32, m: u32, d: u32) -> Seq<char> {
    year_text(y) + "-"@ + two_digits(m) + "-"@ + two_digits(d)
}

/// A moment as `%Y-%m-%d` then `sep` then `%H:%M:%S`.
pub open spec fn stamp_text(t: Moment, sep: Seq<char>) -> Seq<char> {
    ymd_text(t.year, t.month, t.day) + sep + two_digits(t.hour) + ":"@ + two_digits(t.minute) + ":"@ + two_digits(t.second)
}

fn concat2(a: &str, b: &str) -> (r: String)
    ensures
        r@ == a@ + b@,
{
    let mut s = String::from_str(a);
    s.append(b);
    s
}

fn pad4_text(n: u32) -> (r: String)
    ensures
        r@ == pad4(n as nat),
{
    let d = decimal_string(n as u64);
    if n < 10 {
        concat2("000", d.as_str())
    } else if n < 100 {
        concat2("00", d.as_str())
    } else if n < 1000 {
        concat2("0", d.as_str())
    } else {
        d
    }
}

fn year_string(y: i32) -> (r: String)
    requires
        -262143 <= y <= 262142,
    ensures
        r@ == year_text(y),
{
    if 0 <= y && y <= 9999 {
        pad4_text(y as u32)
    } else if y < 0 {
        let a: u32 = (-y) as u32;
        let p = pad4_text(a);
        concat2("-", p.as_str())
    } else {
        let p = pad4_text(y as u32);
        concat2("+", p.as_str())
    }
}

fn two_text(n: u32) -> (r: String)
    ensures
        r@ == two_digits(n),
{
    let d = decimal_string(n as u64);
    if n < 10 {
        concat2("0", d.as_str())
    } else {
        d
    }
}

fn ymd_string(y: i32, m: u32, d: u32) -> (r: String)
    requires
        -262143 <= y <= 262142,
    ensures
        r@ == ymd_text(y, m, d),
{
    let mut s = year_string(y);
    s.append("-");
    s.append(two_text(m).as_str());
    s.append("-");
    s.append(two_text(d).as_str());
    s
}

fn stamp_string(t: &Moment, sep: &str) -> (r: String)
    requires
        moment_ok(*t),
    ensures
        r@ == stamp_text(*t, sep@),
{
    let mut s = ymd_string(t.year, t.month, t.day);
    s.append(sep);
    s.append(two_text(t.hour).as_str());
    s.append(":");
    s.append(two_text(t.minute).as_str());
    s.append(":");
    s.append(two_text(t.second).as_str());
    s
}

// ---------------------------------------------------------------------------
// Reading integers

/// Whether `s` is one or more ASCII digits.
pub open spec fn all_digits(s: Seq<char>) -> bool {
    s.len() > 0 && forall|i: int| 0 <= i < s.len() ==> '0' <= #[trigger] s[i] <= '9'
}

/// The value of ASCII digits.
pub open spec fn digits_value(s: Seq<char>) -> nat
    decreases s.len(),
{
    if s.len() == 0 {
        0
    } else {
        digits_value(s.drop_last()) * 10 + ((s.last() as u32) - ('0' as u32)) as nat
    }
}

/// What `i64::from_str` reads: an optional sign, then ASCII digits, within
/// range.
pub open spec fn spec_parse_i64(s: Seq<char>) -> Option<i64> {
    if s.len() > 0 && s[0] == '-' && all_digits(s.skip(1)) {
        if digits_value(s.skip(1)) <= 9223372036854775808 {
            Some((0 - digits_value(s.skip(1))) as i64)
        } else {
            None
        }
    } else if s.len() > 0 && s[0] == '+' && all_digits(s.skip(1)) {
        if digits_value(s.skip(1)) <= i64::MAX {
            Some(digits_value(s.skip(1)) as i64)
        } else {
            None
        }
    } else if all_digits(s) {
        if digits_value(s) <= i64::MAX {
            Some(digits_value(s) as i64)
        } else {
            None
        }
    } else {
        None
    }
}

proof fn lemma_digits_value_grows(s: Seq<char>, k: int)
    requires
        0 <= k <= s.len(),
        forall|i: int| 0 <= i < s.len() ==> '0' <= #[trigger] s[i] <= '9',
    ensures
        digits_value(s.take(k)) <= digits_value(s),
    decreases s.len() - k,
{
    if k < s.len() {
        lemma_digits_value_grows(s, k + 1);
        assert(s.take(k + 1).drop_last() =~= s.take(k));
    } else {
        assert(s.take(k) =~= s);
    }
}

/// Reads ASCII digits, nothing when there are none, another character, or
/// the value exceeds 2^63.
fn digits_u64(v: &Vec<char>, start: usize) -> (r: Option<u64>)
    requires
        start <= v@.len(),
    ensures
        match r {
            Some(x) => all_digits(v@.skip(start as int)) && x == digits_value(v@.skip(start as int))
                && x <= 9223372036854775808,
            None => !all_digits(v@.skip(start as int)) || digits_value(v@.skip(start as int)) > 9223372036854775808,
        },
{
    let ghost t = v@.skip(start as int);
    if start == v.len() {
        return None;
    }
    let mut acc: u64 = 0;
    let mut i: usize = start;
    assert(t.take(0) =~= Seq::<char>::empty());
    while i < v.len()
        invariant
            start <= i <= v@.len(),
            t == v@.skip(start as int),
            forall|j: int| 0 <= j < i - start ==> '0' <= #[trigger] t[j] <= '9',
            acc == digits_value(t.take(i - start)),
            acc <= 9223372036854775808,
        decreases v.len() - i,
    {
        let c = v[i];
        if c < '0' || c > '9' {
            assert(t[i - start] == c);
            return None;
        }
        let d = (c as u32 - '0' as u32) as u64;
        assert(t.take(i - start + 1).drop_last() =~= t.take(i - start));
        assert(t.take(i - start + 1).last() == c);
        if acc > 922337203685477580 || (acc == 922337203685477580 && d > 8) {
            proof {
                assert(digits_value(t.take(i - start + 1)) > 9223372036854775808);
                if all_digits(t) {
                    lemma_digits_value_grows(t, i - start + 1);
                }
            }
            return None;
        }
        acc = acc * 10 + d;
        i += 1;
    }
    assert(t.take(i - start) =~= t);
    Some(acc)
}

/// Reads an `i64` as `i64::from_str` does.
pub fn parse_i64(s: &str) -> (r: Option<i64>)
    ensures
        r == spec_parse_i64(s@),
{
    let v = chars_of(s);
    if v.len() > 0 && (v[0] == '-' || v[0] == '+') {
        let neg = v[0] == '-';
        match digits_u64(&v, 1) {
            Some(x) => {
                if neg {
                    if x == 9223372036854775808 {
                        Some(i64::MIN)
                    } else {
                        Some(-(x as i64))
                    }
                } else if x <= i64::MAX as u64 {
                    Some(x as i64)
                } else {
                    None
                }
            },
            None => None,
        }
    } else {
        assert(v@.skip(0) =~= v@);
        match digits_u64(&v, 0) {
            Some(x) => {
                if x <= i64::MAX as u64 {
                    Some(x as i64)
                } else {
                    None
                }
            },
            None => None,
        }
    }
}

// ---------------------------------------------------------------------------
// The time skill

/// The operation a time query asks for; `current` by default.
pub open spec fn time_op(args: JsonValue) -> Seq<char> {
    arg_str(args, "operation"@, "current"@)
}

/// The UTC offset in hours of a time zone known by (lower-case) name.
pub open spec fn tz_table(l: Seq<char>) -> Option<i64> {
    if l == "america/new_york"@ || l == "new york"@ || l == "ny"@ || l == "est"@ || l == "edt"@ {
        Some(-4i64)
    } else if l == "america/chicago"@ || l == "chicago"@ {
        Some(-5i64)
    } else if l == "america/denver"@ || l == "denver"@ {
        Some(-6i64)
    } else if l == "america/los_angeles"@ || l == "los angeles"@ || l == "la"@ || l == "pst"@ || l == "pdt"@ {
        Some(-7i64)
    } else if l == "europe/london"@ || l == "london"@ || l == "gmt"@ || l == "bst"@ {
        Some(1i64)
    } else if l == "europe/paris"@ || l == "paris"@ || l == "europe/berlin"@ || l == "berlin"@ {
        Some(2i64)
    } else if l == "europe/moscow"@ || l == "moscow"@ {
        Some(3i64)
    } else if l == "asia/dubai"@ || l == "dubai"@ {
        Some(4i64)
    } else if l == "asia/shanghai"@ || l == "shanghai"@ || l == "asia/tokyo"@ || l == "tokyo"@ || l == "asia/seoul"@
        || l == "seoul"@ || l == "cst"@ || l == "jst"@ {
        Some(8i64)
    } else if l == "australia/sydney"@ || l == "sydney"@ {
        Some(10i64)
    } else if l == "pacific/auckland"@ || l == "auckland"@ {
        Some(12i64)
    } else {
        None
    }
}

/// The UTC offset in hours a time zone name stands for: a known name in
/// any case, else a signed number of hours.
pub open spec fn tz_offset(name: Seq<char>) -> Option<i64> {
    match tz_table(lowercased(name)) {
        Some(o) => Some(o),
        None => spec_parse_i64(name),
    }
}

fn tz_table_exec(l: &str) -> (r: Option<i64>)
    ensures
        r == tz_table(l@),
{
    if str_eq(l, "america/new_york") || str_eq(l, "new york") || str_eq(l, "ny") || str_eq(l, "est") || str_eq(l, "edt") {
        Some(-4)
    } else if str_eq(l, "america/chicago") || str_eq(l, "chicago") {
        Some(-5)
    } else if str_eq(l, "america/denver") || str_eq(l, "denver") {
        Some(-6)
    } else if str_eq(l, "america/los_angeles") || str_eq(l, "los angeles") || str_eq(l, "la") || str_eq(l, "pst") || str_eq(l, "pdt") {
        Some(-7)
    } else if str_eq(l, "europe/london") || str_eq(l, "london") || str_eq(l, "gmt") || str_eq(l, "bst") {
        Some(1)
    } else if str_eq(l, "europe/paris") || str_eq(l, "paris") || str_eq(l, "europe/berlin") || str_eq(l, "berlin") {
        Some(2)
    } else if str_eq(l, "europe/moscow") || str_eq(l, "moscow") {
        Some(3)
    } else if str_eq(l, "asia/dubai") || str_eq(l, "dubai") {
        Some(4)
    } else if str_eq(l, "asia/shanghai") || str_eq(l, "shanghai") || str_eq(l, "asia/tokyo") || str_eq(l, "tokyo")
        || str_eq(l, "asia/seoul") || str_eq(l, "seoul") || str_eq(l, "cst") || str_eq(l, "jst") {
        Some(8)
    } else if str_eq(l, "australia/sydney") || str_eq(l, "sydney") {
        Some(10)
    } else if str_eq(l, "pacific/auckland") || str_eq(l, "auckland") {
        Some(12)
    } else {
        None
    }
}

/// The UTC offset in hours a time zone name stands for.
pub fn timezone_offset(name: &str) -> (r: Option<i64>)
    ensures
        r == tz_offset(name@),
{
    let l = to_lower(name);
    match tz_table_exec(l.as_str()) {
        Some(o) => Some(o),
        None => parse_i64(name),
    }
}

/// How far in seconds a time query moves the clock: nothing for queries
/// that read it as it is; for `add`, `days` days; for a known time zone,
/// its offset less the eight hours of local time.  `Some(None)` when the
/// distance overflows.
pub open spec fn time_shift(args: JsonValue) -> Option<Option<i64>> {
    let op = time_op(args);
    if op == "add"@ {
        let days = arg_i64(args, "days"@, 0);
        Some(if i64::MIN <= days * 86400 <= i64::MAX {
            Some((days * 86400) as i64)
        } else {
            None
        })
    } else if op == "timezone"@ {
        match tz_offset(arg_str(args, "timezone"@, "UTC"@)) {
            Some(off) => Some(if i64::MIN <= off - 8 && i64::MIN <= (off - 8) * 3600 <= i64::MAX {
                Some(((off - 8) * 3600) as i64)
            } else {
                None
            }),
            None => None,
        }
    } else {
        None
    }
}

/// The distance in seconds a time query moves the clock.
pub fn time_shift_secs(args: &JsonValue) -> (r: Option<Option<i64>>)
    ensures
        r == time_shift(*args),
{
    let op = read_str(args, "operation", "current");
    if str_eq(op.as_str(), "add") {
        let days = read_i64(args, "days", 0);
        Some(days.checked_mul(86400))
    } else if str_eq(op.as_str(), "timezone") {
        let name = read_str(args, "timezone", "UTC");
        match timezone_offset(name.as_str()) {
            Some(off) => Some(match off.checked_sub(8) {
                Some(h) => h.checked_mul(3600),
                None => None,
            }),
            None => None,
        }
    } else {
        None
    }
}

/// An integer with its sign always written, as `{:+}` does.
pub open spec fn signed_text(i: i64) -> Seq<char> {
    if i >= 0 {
        "+"@ + spec_decimal(i as nat)
    } else {
        spec_int_text(i as int)
    }
}

/// The answer to a query for the current time.
pub open spec fn current_reply(now: Moment) -> JsonModel {
    let wd = spec_weekday_cn(now.weekday);
    JsonModel::Object(
        seq![
            ("operation"@, jstr("current"@)),
            ("datetime"@, jstr(stamp_text(now, "T"@))),
            ("year"@, int_model(now.year as int)),
            ("month"@, int_model(now.month as int)),
            ("day"@, int_model(now.day as int)),
            ("hour"@, int_model(now.hour as int)),
            ("minute"@, int_model(now.minute as int)),
            ("second"@, int_model(now.second as int)),
            ("weekday"@, jstr(wd)),
            ("week_number"@, int_model(now.iso_week as int)),
            ("day_of_year"@, int_model(now.ordinal as int)),
            ("season"@, jstr(spec_season(now.month))),
            ("time_of_day"@, jstr(spec_time_of_day(now.hour))),
            ("timestamp"@, int_model(now.timestamp as int)),
            ("full"@, jstr(
                "现在是"@ + spec_int_text(now.year as int) + "年"@ + spec_decimal(now.month as nat) + "月"@
                    + spec_decimal(now.day as nat) + "日 "@ + spec_decimal(now.hour as nat) + ":"@
                    + two_digits(now.minute) + ":"@ + two_digits(now.second) + "，星期"@ + wd + "，"@
                    + spec_season(now.month) + "季，"@ + spec_time_of_day(now.hour) + "，第"@
                    + spec_decimal(now.iso_week as nat) + "周"@,
            )),
        ],
    )
}

/// The answer to a query for the date `days` days after `now`, which is
/// `then`.
pub open spec fn add_reply(now: Moment, days: i64, then: Moment) -> JsonModel {
    let wd = spec_weekday_cn(then.weekday);
    JsonModel::Object(
        seq![
            ("operation"@, jstr("add"@)),
            ("base_date"@, jstr(ymd_text(now.year, now.month, now.day))),
            ("days"@, int_model(days as int)),
            ("result_date"@, jstr(ymd_text(then.year, then.month, then.day))),
            ("weekday"@, jstr(wd)),
            ("full"@, jstr(
                spec_int_text(days as int) + "天后是"@ + spec_int_text(then.year as int) + "年"@
                    + spec_decimal(then.month as nat) + "月"@ + spec_decimal(then.day as nat) + "日，星期"@ + wd,
            )),
        ],
    )
}

/// The date a text names, or today's when it names none.
pub open spec fn date_or_today(text: Seq<char>, now: Moment) -> (i32, u32, u32) {
    match parsed_ymd(text) {
        Some(d) => d,
        None => (now.year, now.month, now.day),
    }
}

/// The number of a date in a day count.
pub open spec fn ymd_number(d: (i32, u32, u32)) -> int {
    day_number(d.0 as int, d.1 as int, d.2 as int)
}

/// The answer to a query for the days between two dates.
pub open spec fn diff_reply(d1: (i32, u32, u32), d2: (i32, u32, u32)) -> JsonModel {
    let diff = ymd_number(d2) - ymd_number(d1);
    let dist = if diff >= 0 {
        diff
    } else {
        -diff
    };
    let t1 = ymd_text(d1.0, d1.1, d1.2);
    let t2 = ymd_text(d2.0, d2.1, d2.2);
    JsonModel::Object(
        seq![
            ("operation"@, jstr("diff"@)),
            ("date1"@, jstr(t1)),
            ("date2"@, jstr(t2)),
            ("days"@, int_model(dist)),
            ("direction"@, jstr(if diff >= 0 {
                "之后"@
            } else {
                "之前"@
            })),
            ("full"@, jstr(t1 + " 距离 "@ + t2 + " 还有 "@ + spec_int_text(dist) + " 天"@)),
        ],
    )
}

/// The answer to a countdown to the date named by `target`.
pub open spec fn countdown_reply(target: Seq<char>, now: Moment) -> JsonModel {
    match parsed_ymd(target) {
        Some(t) => {
            let remaining = ymd_number(t) - day_number(now.year as int, now.month as int, now.day as int);
            JsonModel::Object(
                seq![
                    ("operation"@, jstr("countdown"@)),
                    ("target"@, jstr(target)),
                    ("remaining_days"@, int_model(remaining)),
                    ("full"@, jstr(if remaining > 0 {
                        "距离 "@ + target + " 还有 "@ + spec_int_text(remaining) + " 天"@
                    } else if remaining == 0 {
                        "今天就是 "@ + target + "！"@
                    } else {
                        target + " 已经过去了 "@ + spec_int_text(-remaining) + " 天"@
                    })),
                ],
            )
        },
        None => error_reply("无法解析日期 '"@ + target + "'，请使用 YYYY-MM-DD 格式"@),
    }
}

/// The answer to a query for the time in zone `name`, `offset` hours from
/// UTC, where it is `then`.
pub open spec fn timezone_reply(name: Seq<char>, offset: i64, now: Moment, then: Moment) -> JsonModel {
    let wd = spec_weekday_cn(then.weekday);
    JsonModel::Object(
        seq![
            ("operation"@, jstr("timezone"@)),
            ("timezone"@, jstr(name)),
            ("local_time"@, jstr(stamp_text(now, " "@))),
            ("target_time"@, jstr(stamp_text(then, " "@))),
            ("target_weekday"@, jstr(wd)),
            ("offset_hours"@, int_model(offset as int)),
            ("full"@, jstr(
                name + " 当前时间："@ + spec_int_text(then.year as int) + "年"@ + spec_decimal(then.month as nat) + "月"@
                    + spec_decimal(then.day as nat) + "日 "@ + spec_decimal(then.hour as nat) + ":"@
                    + two_digits(then.minute) + "，星期"@ + wd + "，UTC"@ + signed_text(offset),
            )),
        ],
    )
}

/// The answer to a time query made at `now`; `then` is the moment the
/// query moves the clock to, when it moves it.
pub open spec fn time_reply(args: JsonValue, now: Moment, then: Moment) -> JsonModel {
    let op = time_op(args);
    if op == "add"@ {
        add_reply(now, arg_i64(args, "days"@, 0), then)
    } else if op == "diff"@ {
        diff_reply(
            date_or_today(arg_str(args, "date1"@, Seq::empty()), now),
            date_or_today(arg_str(args, "date2"@, Seq::empty()), now),
        )
    } else if op == "countdown"@ {
        countdown_reply(arg_str(args, "target"@, Seq::empty()), now)
    } else if op == "timezone"@ {
        let name = arg_str(args, "timezone"@, "UTC"@);
        match tz_offset(name) {
            Some(off) => timezone_reply(name, off, now, then),
            None => error_reply("不支持的时区 '"@ + name + "'，请使用如 America/New_York、Asia/Tokyo 格式"@),
        }
    } else {
        current_reply(now)
    }
}

fn dec32(n: u32) -> (r: String)
    ensures
        r@ == spec_decimal(n as nat),
{
    decimal_string(n as u64)
}

fn current_value(now: &Moment) -> (r: JsonValue)
    requires
        moment_ok(*now),
    ensures
        json_model(r) == current_reply(*now),
{
    let wd = weekday_cn(now.weekday);
    let mut full = String::from_str("现在是");
    full.append(i64_text(now.year as i64).as_str());
    full.append("年");
    full.append(dec32(now.month).as_str());
    full.append("月");
    full.append(dec32(now.day).as_str());
    full.append("日 ");
    full.append(dec32(now.hour).as_str());
    full.append(":");
    full.append(two_text(now.minute).as_str());
    full.append(":");
    full.append(two_text(now.second).as_str());
    full.append("，星期");
    full.append(wd);
    full.append("，");
    full.append(season(now.month));
    full.append("季，");
    full.append(time_of_day(now.hour));
    full.append("，第");
    full.append(dec32(now.iso_week).as_str());
    full.append("周");
    let mut m = new_members();
    push_member(&mut m, "operation", json_str("current"));
    push_member(&mut m, "datetime", json_str(stamp_string(now, "T").as_str()));
    push_member(&mut m, "year", json_int(now.year as i64));
    push_member(&mut m, "month", json_nat(now.month as u64));
    push_member(&mut m, "day", json_nat(now.day as u64));
    push_member(&mut m, "hour", json_nat(now.hour as u64));
    push_member(&mut m, "minute", json_nat(now.minute as u64));
    push_member(&mut m, "second", json_nat(now.second as u64));
    push_member(&mut m, "weekday", json_str(wd));
    push_member(&mut m, "week_number", json_nat(now.iso_week as u64));
    push_member(&mut m, "day_of_year", json_nat(now.ordinal as u64));
    push_member(&mut m, "season", json_str(season(now.month)));
    push_member(&mut m, "time_of_day", json_str(time_of_day(now.hour)));
    push_member(&mut m, "timestamp", json_int(now.timestamp));
    push_member(&mut m, "full", json_str(full.as_str()));
    assert(members_model(m@) =~= current_reply(*now)->Object_0);
    json_object(m)
}

fn add_value(now: &Moment, days: i64, then: &Moment) -> (r: JsonValue)
    requires
        moment_ok(*now),
        moment_ok(*then),
    ensures
        json_model(r) == add_reply(*now, days, *then),
{
    let wd = weekday_cn(then.weekday);
    let mut full = i64_text(days);
    full.append("天后是");
    full.append(i64_text(then.year as i64).as_str());
    full.append("年");
    full.append(dec32(then.month).as_str());
    full.append("月");
    full.append(dec32(then.day).as_str());
    full.append("日，星期");
    full.append(wd);
    let mut m = new_members();
    push_member(&mut m, "operation", json_str("add"));
    push_member(&mut m, "base_date", json_str(ymd_string(now.year, now.month, now.day).as_str()));
    push_member(&mut m, "days", json_int(days));
    push_member(&mut m, "result_date", json_str(ymd_string(then.year, then.month, then.day).as_str()));
    push_member(&mut m, "weekday", json_str(wd));
    push_member(&mut m, "full", json_str(full.as_str()));
    assert(members_model(m@) =~= add_reply(*now, days, *then)->Object_0);
    json_object(m)
}

fn date_or_today_exec(text: &str, now: &Moment) -> (r: (i32, u32, u32))
    requires
        moment_ok(*now),
    ensures
        r == date_or_today(text@, *now),
        valid_date(r.0 as int, r.1 as int, r.2 as int),
{
    match parse_ymd(text) {
        Some(d) => d,
        None => (now.year, now.month, now.day),
    }
}

fn ymd_number_exec(d: (i32, u32, u32)) -> (r: i64)
    requires
        valid_date(d.0 as int, d.1 as int, d.2 as int),
    ensures
        r == ymd_number(d),
        0 <= r <= 300000000,
{
    let r = day_number_exec(d.0 as i64, d.1, d.2);
    proof {
        lemma_day_number_range(d.0 as int, d.1 as int, d.2 as int);
    }
    r
}

proof fn lemma_day_number_range(y: int, m: int, d: int)
    requires
        valid_date(y, m, d),
    ensures
        0 <= day_number(y, m, d) <= 300000000,
{
    let y2 = (if m <= 2 { y - 1 } else { y }) + 400000;
    let era = y2 / 400;
    let yoe = y2 % 400;
    assert(0 <= era <= 2000 && 0 <= yoe < 400);
    assert(0 <= era * 146097 <= 2000 * 146097) by (nonlinear_arith)
        requires
            0 <= era <= 2000,
    ;
    assert(0 <= yoe * 365 <= 400 * 365) by (nonlinear_arith)
        requires
            0 <= yoe < 400,
    ;
}

fn diff_value(d1: (i32, u32, u32), d2: (i32, u32, u32)) -> (r: JsonValue)
    requires
        valid_date(d1.0 as int, d1.1 as int, d1.2 as int),
        valid_date(d2.0 as int, d2.1 as int, d2.2 as int),
    ensures
        json_model(r) == diff_reply(d1, d2),
{
    let n1 = ymd_number_exec(d1);
    let n2 = ymd_number_exec(d2);
    let diff = n2 - n1;
    let dist = if diff >= 0 {
        diff
    } else {
        -diff
    };
    let t1 = ymd_string(d1.0, d1.1, d1.2);
    let t2 = ymd_string(d2.0, d2.1, d2.2);
    let mut full = concat3(t1.as_str(), " 距离 ", t2.as_str());
    full.append(" 还有 ");
    full.append(i64_text(dist).as_str());
    full.append(" 天");
    let mut m = new_members();
    push_member(&mut m, "operation", json_str("diff"));
    push_member(&mut m, "date1", json_str(t1.as_str()));
    push_member(&mut m, "date2", json_str(t2.as_str()));
    push_member(&mut m, "days", json_int(dist));
    push_member(&mut m, "direction", json_str(if diff >= 0 {
        "之后"
    } else {
        "之前"
    }));
    push_member(&mut m, "full", json_str(full.as_str()));
    assert(members_model(m@) =~= diff_reply(d1, d2)->Object_0);
    json_object(m)
}

fn countdown_value(target: &str, now: &Moment) -> (r: JsonValue)
    requires
        moment_ok(*now),
    ensures
        json_model(r) == countdown_reply(target@, *now),
{
    match parse_ymd(target) {
        Some(t) => {
            let today = ymd_number_exec((now.year, now.month, now.day));
            let remaining = ymd_number_exec(t) - today;
            let full = if remaining > 0 {
                let mut f = concat3("距离 ", target, " 还有 ");
                f.append(i64_text(remaining).as_str());
                f.append(" 天");
                f
            } else if remaining == 0 {
                concat3("今天就是 ", target, "！")
            } else {
                let mut f = concat2(target, " 已经过去了 ");
                f.append(i64_text(-remaining).as_str());
                f.append(" 天");
                f
            };
            let mut m = new_members();
            push_member(&mut m, "operation", json_str("countdown"));
            push_member(&mut m, "target", json_str(target));
            push_member(&mut m, "remaining_days", json_int(remaining));
            push_member(&mut m, "full", json_str(full.as_str()));
            assert(members_model(m@) =~= countdown_reply(target@, *now)->Object_0);
            json_object(m)
        },
        None => {
            let msg = concat3("无法解析日期 '", target, "'，请使用 YYYY-MM-DD 格式");
            error_value(msg.as_str())
        },
    }
}

fn timezone_value(name: &str, offset: i64, now: &Moment, then: &Moment) -> (r: JsonValue)
    requires
        moment_ok(*now),
        moment_ok(*then),
    ensures
        json_model(r) == timezone_reply(name@, offset, *now, *then),
{
    let wd = weekday_cn(then.weekday);
    let sign = if offset >= 0 {
        concat2("+", decimal_string(offset as u64).as_str())
    } else {
        i64_text(offset)
    };
    let mut full = concat2(name, " 当前时间：");
    full.append(i64_text(then.year as i64).as_str());
    full.append("年");
    full.append(dec32(then.month).as_str());
    full.append("月");
    full.append(dec32(then.day).as_str());
    full.append("日 ");
    full.append(dec32(then.hour).as_str());
    full.append(":");
    full.append(two_text(then.minute).as_str());
    full.append("，星期");
    full.append(wd);
    full.append("，UTC");
    full.append(sign.as_str());
    let mut m = new_members();
    push_member(&mut m, "operation", json_str("timezone"));
    push_member(&mut m, "timezone", json_str(name));
    push_member(&mut m, "local_time", json_str(stamp_string(now, " ").as_str()));
    push_member(&mut m, "target_time", json_str(stamp_string(then, " ").as_str()));
    push_member(&mut m, "target_weekday", json_str(wd));
    push_member(&mut m, "offset_hours", json_int(offset));
    push_member(&mut m, "full", json_str(full.as_str()));
    assert(members_model(m@) =~= timezone_reply(name@, offset, *now, *then)->Object_0);
    json_object(m)
}

/// Answers a time query made at `now`; `then` is the moment the query
/// moves the clock to (ignored by queries that do not move it).
pub fn time_reply_at(args: &JsonValue, now: &Moment, then: &Moment) -> (r: JsonValue)
    requires
        moment_ok(*now),
        moment_ok(*then),
    ensures
        json_model(r) == time_reply(*args, *now, *then),
{
    proof {
        reveal_strlit("");
        assert(""@ =~= Seq::<char>::empty());
    }
    let op = read_str(args, "operation", "current");
    if str_eq(op.as_str(), "add") {
        add_value(now, read_i64(args, "days", 0), then)
    } else if str_eq(op.as_str(), "diff") {
        let a = read_str(args, "date1", "");
        let b = read_str(args, "date2", "");
        let d1 = date_or_today_exec(a.as_str(), now);
        let d2 = date_or_today_exec(b.as_str(), now);
        diff_value(d1, d2)
    } else if str_eq(op.as_str(), "countdown") {
        let t = read_str(args, "target", "");
        countdown_value(t.as_str(), now)
    } else if str_eq(op.as_str(), "timezone") {
        let name = read_str(args, "timezone", "UTC");
        match timezone_offset(name.as_str()) {
            Some(off) => timezone_value(name.as_str(), off, now, then),
            None => {
                let msg = concat3("不支持的时区 '", name.as_str(), "'，请使用如 America/New_York、Asia/Tokyo 格式");
                error_value(msg.as_str())
            },
        }
    } else {
        current_value(now)
    }
}

/// How the two readings of a time query relate: the moment the query moves
/// to is the given number of seconds after the clock's reading on the Unix
/// clock; a query that does not move the clock reads it once.
pub open spec fn clock_pair(args: JsonValue, now: Moment, then: Moment) -> bool {
    match time_shift(args) {
        Some(Some(s)) => then.timestamp == now.timestamp + s,
        _ => then == now,
    }
}

/// Answers a time query with the local clock: the current time, the date
/// some days later, the days between two dates, a countdown, or the time
/// in another zone.  Nothing when the distance the query moves the clock
/// does not fit in seconds, or moves it out of the calendar's range; the
/// answer is otherwise that of `time_reply` for the clock's reading and the
/// moment the query moves it to, that many seconds later.
pub fn get_time(args: &JsonValue) -> (r: Option<JsonValue>)
    ensures
        r is None ==> time_shift(*args) is Some,
        time_shift(*args) == Some(None::<i64>) ==> r is None,
        match r {
            Some(v) => exists|now: Moment, then: Moment|
                moment_ok(now) && moment_ok(then) && clock_pair(*args, now, then)
                    && json_model(v) == #[trigger] time_reply(*args, now, then),
            None => true,
        },
{
    match time_shift_secs(args) {
        Some(Some(secs)) => {
            let (now, later) = local_clock(Some(secs));
            match later {
                Some(Some(then)) => {
                    let v = time_reply_at(args, &now, &then);
                    assert(clock_pair(*args, now, then));
                    Some(v)
                },
                _ => None,
            }
        },
        Some(None) => None,
        None => {
            let (now, _) = local_clock(None);
            Some(time_reply_at(args, &now, &now))
        },
    }
}

// ---------------------------------------------------------------------------
// Notes

/// What a note request asks, once its arguments are read.
pub enum NoteAction {
    /// Save a note with these tags.
    Save { content: String, tags: String },
    /// Search notes for a keyword.
    Search { keyword: String },
    /// Delete the note with this id.
    Delete { note_id: String },
    /// List the notes.
    List,
    /// The request is refused with this answer.
    Refused(JsonValue),
}

/// The model of a note request.
pub enum NoteModel {
    Save { content: Seq<char>, tags: Seq<char> },
    Search { keyword: Seq<char> },
    Delete { note_id: Seq<char> },
    List,
    Refused(JsonModel),
}

impl View for NoteAction {
    type V = NoteModel;

    open spec fn view(&self) -> NoteModel {
        match self {
            NoteAction::Save { content, tags } => NoteModel::Save { content: content@, tags: tags@ },
            NoteAction::Search { keyword } => NoteModel::Search { keyword: keyword@ },
            NoteAction::Delete { note_id } => NoteModel::Delete { note_id: note_id@ },
            NoteAction::List => NoteModel::List,
            NoteAction::Refused(v) => NoteModel::Refused(json_model(*v)),
        }
    }
}

/// What a note request asks: `save` needs content, `search` a keyword,
/// `delete` a note id; anything else lists the notes.
pub open spec fn spec_note_action(args: JsonValue) -> NoteModel {
    let action = arg_str(args, "action"@, "list"@);
    if action == "save"@ {
        let content = arg_str(args, "content"@, Seq::empty());
        if content.len() == 0 {
            NoteModel::Refused(error_reply("笔记内容为空"@))
        } else {
            NoteModel::Save { content, tags: arg_str(args, "tags"@, Seq::empty()) }
        }
    } else if action == "search"@ {
        let keyword = arg_str(args, "keyword"@, Seq::empty());
        if keyword.len() == 0 {
            NoteModel::Refused(error_reply("搜索关键词为空"@))
        } else {
            NoteModel::Search { keyword }
        }
    } else if action == "delete"@ {
        let note_id = arg_str(args, "note_id"@, Seq::empty());
        if note_id.len() == 0 {
            NoteModel::Refused(error_reply("笔记ID为空"@))
        } else {
            NoteModel::Delete { note_id }
        }
    } else {
        NoteModel::List
    }
}

/// Reads a note request.
pub fn note_action(args: &JsonValue) -> (r: NoteAction)
    ensures
        r@ == spec_note_action(*args),
{
    proof {
        reveal_strlit("");
        assert(""@ =~= Seq::<char>::empty());
    }
    let action = read_str(args, "action", "list");
    if str_eq(action.as_str(), "save") {
        let content = read_str(args, "content", "");
        if content.as_str().is_empty() {
            NoteAction::Refused(error_value("笔记内容为空"))
        } else {
            NoteAction::Save { content, tags: read_str(args, "tags", "") }
        }
    } else if str_eq(action.as_str(), "search") {
        let keyword = read_str(args, "keyword", "");
        if keyword.as_str().is_empty() {
            NoteAction::Refused(error_value("搜索关键词为空"))
        } else {
            NoteAction::Search { keyword }
        }
    } else if str_eq(action.as_str(), "delete") {
        let note_id = read_str(args, "note_id", "");
        if note_id.as_str().is_empty() {
            NoteAction::Refused(error_value("笔记ID为空"))
        } else {
            NoteAction::Delete { note_id }
        }
    } else {
        NoteAction::List
    }
}

/// The pattern a note search matches content and tags with.
pub fn note_search_pattern(keyword: &str) -> (r: String)
    ensures
        r@ == "%"@ + keyword@ + "%"@,
{
    concat3("%", keyword, "%")
}

/// A fresh note id: `note_` and a random identifier.
pub fn new_note_id() -> (r: String)
    ensures
        r@.len() == 41,
        r@.take(5) == "note_"@,
{
    let u = crate::stream::new_uuid_text();
    let mut s = String::from_str("note_");
    proof {
        reveal_strlit("note_");
    }
    s.append(u.as_str());
    assert(s@.take(5) =~= "note_"@);
    s
}

/// The answer after a note was saved under `id`.
pub open spec fn note_saved_reply(id: Seq<char>, content: Seq<char>, tags: Seq<char>) -> JsonModel {
    JsonModel::Object(
        seq![
            ("status"@, jstr("ok"@)),
            ("action"@, jstr("save"@)),
            ("id"@, jstr(id)),
            ("content"@, jstr(content)),
            ("tags"@, jstr(tags)),
            ("message"@, jstr("笔记已保存"@)),
        ],
    )
}

/// The answer after a note was saved under `id`.
pub fn note_saved(id: &str, content: &str, tags: &str) -> (r: JsonValue)
    ensures
        json_model(r) == note_saved_reply(id@, content@, tags@),
{
    let mut m = new_members();
    push_member(&mut m, "status", json_str("ok"));
    push_member(&mut m, "action", json_str("save"));
    push_member(&mut m, "id", json_str(id));
    push_member(&mut m, "content", json_str(content));
    push_member(&mut m, "tags", json_str(tags));
    push_member(&mut m, "message", json_str("笔记已保存"));
    assert(members_model(m@) =~= note_saved_reply(id@, content@, tags@)->Object_0);
    json_object(m)
}

/// A stored note.
pub struct NoteRow {
    pub id: String,
    pub content: String,
    pub tags: String,
    pub created_at: String,
}

/// A note as an answer shows it.
pub open spec fn note_model(n: NoteRow) -> JsonModel {
    JsonModel::Object(
        seq![
            ("id"@, jstr(n.id@)),
            ("content"@, jstr(n.content@)),
            ("tags"@, jstr(n.tags@)),
            ("created_at"@, jstr(n.created_at@)),
        ],
    )
}

/// The answer listing notes: those found for `keyword`, or all of them
/// when there is no keyword.
pub open spec fn notes_reply(keyword: Option<Seq<char>>, rows: Seq<NoteRow>) -> JsonModel {
    let results = JsonModel::Array(rows.map_values(|n: NoteRow| note_model(n)));
    match keyword {
        Some(k) => JsonModel::Object(
            seq![
                ("action"@, jstr("search"@)),
                ("keyword"@, jstr(k)),
                ("count"@, int_model(rows.len() as int)),
                ("results"@, results),
            ],
        ),
        None => JsonModel::Object(
            seq![("action"@, jstr("list"@)), ("count"@, int_model(rows.len() as int)), ("results"@, results)],
        ),
    }
}

fn note_value(n: &NoteRow) -> (r: JsonValue)
    ensures
        json_model(r) == note_model(*n),
{
    let mut m = new_members();
    push_member(&mut m, "id", json_str(n.id.as_str()));
    push_member(&mut m, "content", json_str(n.content.as_str()));
    push_member(&mut m, "tags", json_str(n.tags.as_str()));
    push_member(&mut m, "created_at", json_str(n.created_at.as_str()));
    assert(members_model(m@) =~= note_model(*n)->Object_0);
    json_object(m)
}

/// The answer listing notes found for `keyword`, or all notes.
pub fn notes_listed(keyword: Option<&str>, rows: &Vec<NoteRow>) -> (r: JsonValue)
    ensures
        json_model(r) == notes_reply(match keyword {
            Some(k) => Some(k@),
            None => None,
        }, rows@),
{
    let mut items: Vec<JsonValue> = Vec::new();
    let mut k: usize = 0;
    while k < rows.len()
        invariant
            k <= rows.len(),
            items_model(items@) == rows@.take(k as int).map_values(|n: NoteRow| note_model(n)),
        decreases rows.len() - k,
    {
        let v = note_value(&rows[k]);
        let ghost before = items@;
        items.push(v);
        assert(items_model(items@) =~= items_model(before).push(json_model(v)));
        assert(rows@.take(k + 1).map_values(|n: NoteRow| note_model(n)) =~= rows@.take(k as int).map_values(
            |n: NoteRow| note_model(n),
        ).push(note_model(rows@[k as int])));
        k += 1;
    }
    assert(rows@.take(k as int) =~= rows@);
    proof {
        lemma_array_model(items);
    }
    let results = JsonValue::Array(items);
    let mut m = new_members();
    match keyword {
        Some(kw) => {
            push_member(&mut m, "action", json_str("search"));
            push_member(&mut m, "keyword", json_str(kw));
        },
        None => {
            push_member(&mut m, "action", json_str("list"));
        },
    }
    push_member(&mut m, "count", json_nat(rows.len() as u64));
    push_member(&mut m, "results", results);
    let ghost want = notes_reply(match keyword {
        Some(k) => Some(k@),
        None => None,
    }, rows@);
    assert(members_model(m@) =~= want->Object_0);
    json_object(m)
}

/// The answer after deleting note `id`, of which `deleted` rows went.
pub open spec fn note_deleted_reply(id: Seq<char>, deleted: usize) -> JsonModel {
    JsonModel::Object(
        seq![
            ("status"@, jstr(if deleted > 0 {
                "ok"@
            } else {
                "not_found"@
            })),
            ("action"@, jstr("delete"@)),
            ("id"@, jstr(id)),
            ("message"@, jstr(if deleted > 0 {
                "笔记已删除"@
            } else {
                "未找到该笔记"@
            })),
        ],
    )
}

/// The answer after deleting a note.
pub fn note_deleted(id: &str, deleted: usize) -> (r: JsonValue)
    ensures
        json_model(r) == note_deleted_reply(id@, deleted),
{
    let mut m = new_members();
    push_member(&mut m, "status", json_str(if deleted > 0 {
        "ok"
    } else {
        "not_found"
    }));
    push_member(&mut m, "action", json_str("delete"));
    push_member(&mut m, "id", json_str(id));
    push_member(&mut m, "message", json_str(if deleted > 0 {
        "笔记已删除"
    } else {
        "未找到该笔记"
    }));
    assert(members_model(m@) =~= note_deleted_reply(id@, deleted)->Object_0);
    json_object(m)
}

// ---------------------------------------------------------------------------
// The weather

/// A byte that a URL keeps as it is: an ASCII letter or digit, `-`, `.`,
/// `_` or `~`.
pub open spec fn url_safe_byte(b: u8) -> bool {
    (0x30 <= b <= 0x39) || (0x41 <= b <= 0x5a) || (0x61 <= b <= 0x7a) || b == 0x2d || b == 0x2e || b == 0x5f
        || b == 0x7e
}

/// An upper-case hexadecimal digit.
pub open spec fn hex_upper(d: u8) -> char {
    if d < 10 {
        (0x30 + d) as char
    } else {
        (0x37 + d) as char
    }
}

/// The percent-encoding of bytes: safe bytes as their characters, every
/// other byte as `%` and two upper-case hexadecimal digits.
pub open spec fn url_encoded_bytes(b: Seq<u8>) -> Seq<char>
    decreases b.len(),
{
    if b.len() == 0 {
        Seq::empty()
    } else {
        (if url_safe_byte(b[0]) {
            seq![b[0] as char]
        } else {
            seq!['%', hex_upper(b[0] / 16), hex_upper(b[0] % 16)]
        }) + url_encoded_bytes(b.drop_first())
    }
}

/// The percent-encoding of a text for a URL, byte by byte of its UTF-8 form.
pub open spec fn url_encoded(s: Seq<char>) -> Seq<char> {
    url_encoded_bytes(vstd::utf8::encode_utf8(s))
}

/// `urlencoding::encode`: every byte of the text's UTF-8 form but ASCII
/// letters, digits and `-_.~` percent-encoded with upper-case digits.
#[verifier::external_body]
fn url_encode(s: &str) -> (r: String)
    ensures
        r@ == url_encoded(s@),
{
    urlencoding::encode(s).into_owned()
}

/// Which day a weather query is about: 1 for today, 2 for tomorrow, 3 for
/// the day after; a date is counted from `today`, past dates meaning today
/// and later ones the third day; anything unreadable means today.
pub open spec fn weather_day(date_param: Seq<char>, today: (i32, u32, u32)) -> int {
    if date_param == "today"@ {
        1
    } else if date_param == "tomorrow"@ {
        2
    } else {
        match parsed_ymd(date_param) {
            Some(d) => {
                let diff = ymd_number(d) - ymd_number(today);
                if diff < 0 {
                    1
                } else if diff > 2 {
                    3
                } else {
                    diff + 1
                }
            },
            None => 1,
        }
    }
}

/// The weather service's address for `city` and day `day`: the current
/// conditions for today, the forecast otherwise.
pub open spec fn weather_url(city: Seq<char>, day: int) -> Seq<char> {
    "https://wttr.in/"@ + url_encoded(city) + if day == 1 {
        "?format=j1"@
    } else {
        "?format=j2"@
    }
}

/// A weather query ready to be sent.
pub struct WeatherQuery {
    pub city: String,
    pub date_param: String,
    pub day: usize,
    pub url: String,
}

/// What a weather request is: refused without a city, else the query.
pub open spec fn spec_weather_plan(args: JsonValue, today: (i32, u32, u32)) -> Result<(Seq<char>, Seq<char>, int, Seq<char>), JsonModel> {
    let city = spec_trim(arg_str(args, "city"@, Seq::empty()));
    if city.len() == 0 {
        Err(JsonModel::Object(seq![("error"@, jstr("city is empty"@))]))
    } else {
        let date_param = arg_str(args, "date"@, "today"@);
        let day = weather_day(date_param, today);
        Ok((city, date_param, day, weather_url(city, day)))
    }
}

/// Reads a weather request, counting dates from `today`.
pub fn plan_weather(args: &JsonValue, today: (i32, u32, u32)) -> (r: Result<WeatherQuery, JsonValue>)
    requires
        valid_date(today.0 as int, today.1 as int, today.2 as int),
    ensures
        match r {
            Ok(q) => spec_weather_plan(*args, today) == Ok::<(Seq<char>, Seq<char>, int, Seq<char>), JsonModel>(
                (q.city@, q.date_param@, q.day as int, q.url@),
            ),
            Err(e) => spec_weather_plan(*args, today) == Err::<(Seq<char>, Seq<char>, int, Seq<char>), JsonModel>(json_model(e)),
        },
{
    proof {
        reveal_strlit("");
        assert(""@ =~= Seq::<char>::empty());
    }
    let raw = read_str(args, "city", "");
    let city = string_from_chars(&trim_chars(&chars_of(raw.as_str())));
    if city.as_str().is_empty() {
        let mut m = new_members();
        push_member(&mut m, "error", json_str("city is empty"));
        assert(members_model(m@) =~= seq![("error"@, jstr("city is empty"@))]);
        return Err(json_object(m));
    }
    let date_param = read_str(args, "date", "today");
    let day: usize = if str_eq(date_param.as_str(), "today") {
        1
    } else if str_eq(date_param.as_str(), "tomorrow") {
        2
    } else {
        match parse_ymd(date_param.as_str()) {
            Some(d) => {
                let diff = ymd_number_exec(d) - ymd_number_exec(today);
                if diff < 0 {
                    1
                } else if diff > 2 {
                    3
                } else {
                    (diff + 1) as usize
                }
            },
            None => 1,
        }
    };
    let mut url = concat2("https://wttr.in/", url_encode(city.as_str()).as_str());
    if day == 1 {
        url.append("?format=j1");
    } else {
        url.append("?format=j2");
    }
    Ok(WeatherQuery { city, date_param, day, url })
}

/// The text of member `k` of `v`, or `dflt`.
pub open spec fn field_text(v: Option<JsonValue>, k: Seq<char>, dflt: Seq<char>) -> Seq<char> {
    match v {
        Some(x) => arg_str(x, k, dflt),
        None => dflt,
    }
}

/// Item `i` of the array in member `k` of `v`, if any.
pub open spec fn item_of(v: Option<JsonValue>, k: Seq<char>, i: int) -> Option<JsonValue> {
    match v {
        Some(x) => match spec_get(x, k) {
            Some(JsonValue::Array(a)) => if 0 <= i < a@.len() {
                Some(a@[i])
            } else {
                None
            },
            _ => None,
        },
        None => None,
    }
}

/// The description of a weather record: the `value` of its first
/// `weatherDesc` entry, or "未知".
pub open spec fn weather_desc(v: Option<JsonValue>) -> Seq<char> {
    field_text(item_of(v, "weatherDesc"@, 0), "value"@, "未知"@)
}

/// The answer to a weather query for `city` and day `day` (1 to 3) from
/// the service's document `data`.
pub open spec fn weather_reply(city: Seq<char>, date_param: Seq<char>, day: int, data: JsonValue) -> JsonModel {
    let fallback = JsonModel::Object(seq![("city"@, jstr(city)), ("message"@, jstr("暂时无法获取天气信息"@))]);
    if day == 1 {
        let cur = item_of(Some(data), "current_condition"@, 0);
        match cur {
            Some(c) => JsonModel::Object(
                seq![
                    ("city"@, jstr(city)),
                    ("date"@, jstr("今天"@)),
                    ("temperature_c"@, jstr(arg_str(c, "temp_C"@, "--"@))),
                    ("feels_like_c"@, jstr(arg_str(c, "FeelsLikeC"@, "--"@))),
                    ("description"@, jstr(weather_desc(Some(c)))),
                    ("humidity"@, jstr(arg_str(c, "humidity"@, "--"@))),
                    ("wind_speed_kmph"@, jstr(arg_str(c, "windspeedKmph"@, "--"@))),
                ],
            ),
            None => fallback,
        }
    } else {
        match item_of(Some(data), "weather"@, day - 2) {
            Some(d) => JsonModel::Object(
                seq![
                    ("city"@, jstr(city)),
                    ("date"@, jstr(arg_str(d, "date"@, Seq::empty()))),
                    ("query_date"@, jstr(date_param)),
                    ("max_temp_c"@, jstr(arg_str(d, "maxtempC"@, "--"@))),
                    ("min_temp_c"@, jstr(arg_str(d, "mintempC"@, "--"@))),
                    ("description"@, jstr(weather_desc(item_of(Some(d), "hourly"@, 4)))),
                ],
            ),
            None => fallback,
        }
    }
}

fn item_at<'a>(v: &'a JsonValue, k: &str, i: usize) -> (r: Option<&'a JsonValue>)
    ensures
        match r {
            Some(x) => item_of(Some(*v), k@, i as int) == Some(*x),
            None => item_of(Some(*v), k@, i as int) is None,
        },
{
    match v.get(k) {
        Some(a) => match a.as_array() {
            Some(items) => {
                if i < items.len() {
                    Some(&items[i])
                } else {
                    None
                }
            },
            None => None,
        },
        None => None,
    }
}

fn desc_of(v: Option<&JsonValue>) -> (r: String)
    ensures
        r@ == weather_desc(match v {
            Some(x) => Some(*x),
            None => None,
        }),
{
    match v {
        Some(x) => match item_at(x, "weatherDesc", 0) {
            Some(e) => read_str(e, "value", "未知"),
            None => String::from_str("未知"),
        },
        None => String::from_str("未知"),
    }
}

/// Answers a weather query from the service's document.
pub fn weather_answer(city: &str, date_param: &str, day: usize, data: &JsonValue) -> (r: JsonValue)
    requires
        1 <= day <= 3,
    ensures
        json_model(r) == weather_reply(city@, date_param@, day as int, *data),
{
    proof {
        reveal_strlit("");
        assert(""@ =~= Seq::<char>::empty());
    }
    if day == 1 {
        if let Some(c) = item_at(data, "current_condition", 0) {
            let mut m = new_members();
            push_member(&mut m, "city", json_str(city));
            push_member(&mut m, "date", json_str("今天"));
            push_member(&mut m, "temperature_c", json_str(read_str(c, "temp_C", "--").as_str()));
            push_member(&mut m, "feels_like_c", json_str(read_str(c, "FeelsLikeC", "--").as_str()));
            push_member(&mut m, "description", json_str(desc_of(Some(c)).as_str()));
            push_member(&mut m, "humidity", json_str(read_str(c, "humidity", "--").as_str()));
            push_member(&mut m, "wind_speed_kmph", json_str(read_str(c, "windspeedKmph", "--").as_str()));
            assert(members_model(m@) =~= weather_reply(city@, date_param@, day as int, *data)->Object_0);
            return json_object(m);
        }
    } else {
        if let Some(d) = item_at(data, "weather", day - 2) {
            let mut m = new_members();
            push_member(&mut m, "city", json_str(city));
            push_member(&mut m, "date", json_str(read_str(d, "date", "").as_str()));
            push_member(&mut m, "query_date", json_str(date_param));
            push_member(&mut m, "max_temp_c", json_str(read_str(d, "maxtempC", "--").as_str()));
            push_member(&mut m, "min_temp_c", json_str(read_str(d, "mintempC", "--").as_str()));
            push_member(&mut m, "description", json_str(desc_of(item_at(d, "hourly", 4)).as_str()));
            assert(members_model(m@) =~= weather_reply(city@, date_param@, day as int, *data)->Object_0);
            return json_object(m);
        }
    }
    let mut m = new_members();
    push_member(&mut m, "city", json_str(city));
    push_member(&mut m, "message", json_str("暂时无法获取天气信息"));
    assert(members_model(m@) =~= seq![("city"@, jstr(city@)), ("message"@, jstr("暂时无法获取天气信息"@))]);
    json_object(m)
}

/// Reads a weather request against today's local date.
pub fn weather_request(args: &JsonValue) -> (r: Result<WeatherQuery, JsonValue>)
    ensures
        exists|today: (i32, u32, u32)|
            valid_date(today.0 as int, today.1 as int, today.2 as int) && match r {
                Ok(q) => spec_weather_plan(*args, today) == Ok::<(Seq<char>, Seq<char>, int, Seq<char>), JsonModel>(
                    (q.city@, q.date_param@, q.day as int, q.url@),
                ),
                Err(e) => #[trigger] spec_weather_plan(*args, today) == Err::<(Seq<char>, Seq<char>, int, Seq<char>), JsonModel>(
                    json_model(e),
                ),
            },
{
    let (now, _) = local_clock(None);
    let today = (now.year, now.month, now.day);
    plan_weather(args, today)
}

// ---------------------------------------------------------------------------
// Web search

/// The capture groups of every match of a pattern in a text, in order, or
/// nothing when the pattern does not compile.
pub uninterp spec fn all_captures(pattern: Seq<char>, text: Seq<char>) -> Option<Seq<Seq<Option<Seq<char>>>>>;

/// `regex::Regex::new(pattern)` then `captures_iter(text)`, each match's
/// groups (the whole match first) as optional texts.  The contract names
/// the result; it depends on the two texts alone.
#[verifier::external_body]
fn regex_captures_all(pattern: &str, text: &str) -> (r: Option<Vec<Vec<Option<String>>>>)
    ensures
        match r {
            Some(v) => all_captures(pattern@, text@) == Some(v@.map_values(|m: Vec<Option<String>>| groups_view(m@))),
            None => all_captures(pattern@, text@) is None,
        },
{
    regex::Regex::new(pattern).ok().map(|re| {
        re.captures_iter(text).map(|c| c.iter().map(|g| g.map(|g| g.as_str().to_string())).collect()).collect()
    })
}

/// The texts of capture groups.
pub open spec fn groups_view(m: Seq<Option<String>>) -> Seq<Option<Seq<char>>> {
    m.map_values(|g: Option<String>| match g {
        Some(s) => Some(s@),
        None => None,
    })
}

/// The value of a hexadecimal digit, either case.
pub open spec fn hex_value(d: u8) -> Option<u8> {
    if 0x30 <= d <= 0x39 {
        Some((d - 0x30) as u8)
    } else if 0x41 <= d <= 0x46 {
        Some((d - 0x41 + 10) as u8)
    } else if 0x61 <= d <= 0x66 {
        Some((d - 0x61 + 10) as u8)
    } else {
        None
    }
}

/// Percent-decoding of bytes: `%` and two hexadecimal digits stand for the
/// byte they spell; any other byte, and a `%` not followed by two digits,
/// stays as it is (`+` included).
pub open spec fn percent_decoded(b: Seq<u8>) -> Seq<u8>
    decreases b.len(),
{
    if b.len() == 0 {
        Seq::empty()
    } else if b[0] == 0x25 && b.len() >= 3 && hex_value(b[1]) is Some && hex_value(b[2]) is Some {
        seq![(hex_value(b[1]).unwrap() * 16 + hex_value(b[2]).unwrap()) as u8] + percent_decoded(b.skip(3))
    } else {
        seq![b[0]] + percent_decoded(b.drop_first())
    }
}

/// The text of a percent-encoded text: its UTF-8 bytes percent-decoded,
/// or nothing when the decoded bytes are not UTF-8.
pub open spec fn url_decoded(s: Seq<char>) -> Option<Seq<char>> {
    let d = percent_decoded(vstd::utf8::encode_utf8(s));
    if vstd::utf8::valid_utf8(d) {
        Some(vstd::utf8::decode_utf8(d))
    } else {
        None
    }
}

/// `urlencoding::decode`: the text percent-decoded byte by byte, `+` kept,
/// a `%` without two hexadecimal digits kept; an error when the bytes are
/// not UTF-8.
#[verifier::external_body]
fn url_decode(s: &str) -> (r: Option<String>)
    ensures
        match r {
            Some(d) => url_decoded(s@) == Some(d@),
            None => url_decoded(s@) is None,
        },
{
    urlencoding::decode(s).ok().map(|c| c.into_owned())
}

/// The position of the first occurrence of `p` in `s`, if any.
pub open spec fn find_text(s: Seq<char>, p: Seq<char>) -> Option<int> {
    if exists|i: int| 0 <= i && i + p.len() <= s.len() && #[trigger] s.subrange(i, i + p.len()) == p {
        Some(
            choose|i: int|
                #![trigger s.subrange(i, i + p.len())]
                0 <= i && i + p.len() <= s.len() && s.subrange(i, i + p.len()) == p && forall|j: int|
                    0 <= j < i ==> #[trigger] s.subrange(j, j + p.len()) != p,
        )
    } else {
        None
    }
}

/// The address a search result links to: DuckDuckGo hides it percent-
/// encoded after `uddg=`; a text that does not decode stays as it is.
pub open spec fn spec_normalize_url(href: Seq<char>) -> Seq<char> {
    let part = match find_text(href, "uddg="@) {
        Some(i) => href.skip(i + 5),
        None => href,
    };
    match url_decoded(part) {
        Some(d) => d,
        None => part,
    }
}

proof fn lemma_find_text_at(s: Seq<char>, p: Seq<char>, i: int)
    requires
        0 <= i && i + p.len() <= s.len(),
        s.subrange(i, i + p.len()) == p,
        forall|j: int| 0 <= j < i ==> #[trigger] s.subrange(j, j + p.len()) != p,
    ensures
        find_text(s, p) == Some(i),
{
    let q = choose|q: int|
        #![trigger s.subrange(q, q + p.len())]
        0 <= q && q + p.len() <= s.len() && s.subrange(q, q + p.len()) == p && forall|j: int|
            0 <= j < q ==> #[trigger] s.subrange(j, j + p.len()) != p;
    if q < i {
        assert(s.subrange(q, q + p.len()) != p);
    }
    if i < q {
        assert(s.subrange(i, i + p.len()) != p);
    }
}

/// How many characters of `pat` match `v` from position `i` on, up to the
/// first difference.
fn match_len(v: &Vec<char>, pat: &Vec<char>, i: usize) -> (k: usize)
    requires
        i + pat@.len() <= v@.len(),
    ensures
        k <= pat@.len(),
        forall|q: int| 0 <= q < k ==> v@[i + q] == pat@[q],
        k < pat@.len() ==> v@[i + k] != pat@[k as int],
{
    let mut k: usize = 0;
    while k < pat.len()
        invariant
            k <= pat@.len(),
            i + pat@.len() <= v.len(),
            forall|q: int| 0 <= q < k ==> v@[i + q] == pat@[q],
        decreases pat.len() - k,
    {
        if v[i + k] != pat[k] {
            return k;
        }
        k += 1;
    }
    k
}

/// The position of the first occurrence of `pat` in `v`.
fn find_chars(v: &Vec<char>, pat: &Vec<char>) -> (r: Option<usize>)
    requires
        pat@.len() > 0,
    ensures
        match r {
            Some(p) => find_text(v@, pat@) == Some(p as int) && p + pat@.len() <= v@.len(),
            None => find_text(v@, pat@) is None,
        },
{
    let n = pat.len();
    if n > v.len() {
        return None;
    }
    let mut i: usize = 0;
    while i <= v.len() - n
        invariant
            n == pat@.len() > 0,
            n <= v@.len(),
            i <= v@.len() - n + 1,
            forall|j: int| 0 <= j < i ==> #[trigger] v@.subrange(j, j + n) != pat@,
        decreases v.len() - n + 1 - i,
    {
        let k = match_len(v, pat, i);
        if k == n {
            assert(v@.subrange(i as int, i + n) =~= pat@);
            proof {
                lemma_find_text_at(v@, pat@, i as int);
            }
            return Some(i);
        }
        assert(v@.subrange(i as int, i + n)[k as int] != pat@[k as int]);
        i += 1;
    }
    assert forall|j: int| 0 <= j && j + n <= v@.len() implies #[trigger] v@.subrange(j, j + n) != pat@ by {
        assert(j < i);
    }
    None
}

/// The address a search result links to.
pub fn normalize_url(href: &str) -> (r: String)
    ensures
        r@ == spec_normalize_url(href@),
{
    let v = chars_of(href);
    let pat = chars_of("uddg=");
    proof {
        reveal_strlit("uddg=");
    }
    assert(pat@.len() == 5);
    let part = match find_chars(&v, &pat) {
        Some(p) => {
            assert(p + 5 <= v.len());
            let rest = copy_chars(&v, p + 5);
            string_from_chars(&rest)
        },
        None => String::from_str(href),
    };
    match url_decode(part.as_str()) {
        Some(d) => d,
        None => part,
    }
}

fn copy_chars(v: &Vec<char>, from: usize) -> (r: Vec<char>)
    requires
        from <= v@.len(),
    ensures
        r@ == v@.skip(from as int),
{
    let r = crate::text::copy_range(v, from, v.len());
    assert(r@ =~= v@.skip(from as int));
    r
}

/// A web search ready to be sent.
pub struct SearchQuery {
    pub query: String,
    pub top_n: usize,
    pub time_range: String,
    pub url: String,
}

/// The search engine's code for a time range: day, week, month or year.
pub open spec fn time_filter(range: Seq<char>) -> Seq<char> {
    if range == "day"@ {
        "d"@
    } else if range == "week"@ {
        "w"@
    } else if range == "month"@ {
        "m"@
    } else if range == "year"@ {
        "y"@
    } else {
        Seq::empty()
    }
}

/// What a web search request is: refused without a query; else the query,
/// how many results (1 to 10, by default 5), the time range, and the
/// search page's address.
pub open spec fn spec_search_plan(args: JsonValue) -> Result<(Seq<char>, nat, Seq<char>, Seq<char>), JsonModel> {
    let query = spec_trim(arg_str(args, "query"@, Seq::empty()));
    if query.len() == 0 {
        Err(JsonModel::Object(seq![("error"@, jstr("query is empty"@))]))
    } else {
        let n = arg_u64(args, "top_n"@, 5);
        let top_n: nat = if n < 1 {
            1
        } else if n > 10 {
            10
        } else {
            n as nat
        };
        let range = arg_str(args, "time_range"@, Seq::empty());
        let f = time_filter(range);
        Ok((query, top_n, range, "https://html.duckduckgo.com/html/?q="@ + url_encoded(query) + if f.len() > 0 {
            "&df="@ + f
        } else {
            Seq::empty()
        }))
    }
}

/// Reads a web search request.
pub fn plan_search(args: &JsonValue) -> (r: Result<SearchQuery, JsonValue>)
    ensures
        match r {
            Ok(q) => spec_search_plan(*args) == Ok::<(Seq<char>, nat, Seq<char>, Seq<char>), JsonModel>(
                (q.query@, q.top_n as nat, q.time_range@, q.url@),
            ),
            Err(e) => spec_search_plan(*args) == Err::<(Seq<char>, nat, Seq<char>, Seq<char>), JsonModel>(json_model(e)),
        },
{
    proof {
        reveal_strlit("");
        assert(""@ =~= Seq::<char>::empty());
    }
    let raw = read_str(args, "query", "");
    let query = string_from_chars(&trim_chars(&chars_of(raw.as_str())));
    if query.as_str().is_empty() {
        let mut m = new_members();
        push_member(&mut m, "error", json_str("query is empty"));
        assert(members_model(m@) =~= seq![("error"@, jstr("query is empty"@))]);
        return Err(json_object(m));
    }
    let n = read_u64(args, "top_n", 5);
    let top_n: usize = if n < 1 {
        1
    } else if n > 10 {
        10
    } else {
        n as usize
    };
    let range = read_str(args, "time_range", "");
    let f = if str_eq(range.as_str(), "day") {
        "d"
    } else if str_eq(range.as_str(), "week") {
        "w"
    } else if str_eq(range.as_str(), "month") {
        "m"
    } else if str_eq(range.as_str(), "year") {
        "y"
    } else {
        ""
    };
    proof {
        reveal_strlit("d");
        reveal_strlit("w");
        reveal_strlit("m");
        reveal_strlit("y");
    }
    assert(f@ == time_filter(range@));
    let mut url = concat2("https://html.duckduckgo.com/html/?q=", url_encode(query.as_str()).as_str());
    if !f.is_empty() {
        url.append("&df=");
        url.append(f);
    } else {
        assert(url@ + Seq::<char>::empty() =~= url@);
    }
    let ghost sp = spec_search_plan(*args);
    assert(sp is Ok);
    assert(sp->Ok_0.0 == query@);
    assert(sp->Ok_0.1 == top_n as nat);
    assert(sp->Ok_0.2 == range@);
    assert(sp->Ok_0.3 == url@);
    Ok(SearchQuery { query, top_n, time_range: range, url })
}

/// The pattern of a result's title link: its address and its text.
pub open spec fn title_pattern() -> Seq<char> {
    "<a[^>]*class=\"result__a\"[^>]*href=\"([^\"]*)\"[^>]*>(.*?)</a>"@
}

/// The pattern of a result's snippet.
pub open spec fn snippet_pattern() -> Seq<char> {
    "<a[^>]*class=\"result__snippet\"[^>]*>(.*?)</a>"@
}

/// The links of title matches that have both an address and a text: the
/// address normalised, the text without tags.
pub open spec fn title_links(caps: Seq<Seq<Option<Seq<char>>>>) -> Seq<(Seq<char>, Seq<char>)>
    decreases caps.len(),
{
    if caps.len() == 0 {
        Seq::empty()
    } else {
        let p = title_links(caps.drop_last());
        let g = caps.last();
        if g.len() > 2 && g[1] is Some && g[2] is Some {
            p.push((spec_normalize_url(g[1].unwrap()), spec_strip_html(g[2].unwrap())))
        } else {
            p
        }
    }
}

/// The texts of snippet matches, without tags.
pub open spec fn snippet_texts(caps: Seq<Seq<Option<Seq<char>>>>) -> Seq<Seq<char>> {
    caps.map_values(|g: Seq<Option<Seq<char>>>| spec_strip_html(if g.len() > 1 && g[1] is Some {
        g[1].unwrap()
    } else {
        Seq::empty()
    }))
}

/// A search result: title, address and snippet.
pub struct SearchHit {
    pub title: String,
    pub url: String,
    pub snippet: String,
}

/// The results on a search page: the first `top_n` title links, each with
/// the snippet at the same position (empty when there is none).
pub open spec fn spec_search_hits(html: Seq<char>, top_n: nat) -> Seq<(Seq<char>, Seq<char>, Seq<char>)> {
    match (all_captures(title_pattern(), html), all_captures(snippet_pattern(), html)) {
        (Some(tc), Some(sc)) => {
            let links = title_links(tc);
            let snips = snippet_texts(sc);
            let n = if links.len() < top_n {
                links.len()
            } else {
                top_n
            };
            Seq::new(n, |i: int| (links[i].1, links[i].0, if i < snips.len() {
                snips[i]
            } else {
                Seq::empty()
            }))
        },
        _ => Seq::empty(),
    }
}

/// The models of search results.
pub open spec fn hits_view(v: Seq<SearchHit>) -> Seq<(Seq<char>, Seq<char>, Seq<char>)> {
    v.map_values(|h: SearchHit| (h.title@, h.url@, h.snippet@))
}

fn group_text(g: &Vec<Option<String>>, i: usize) -> (r: Option<String>)
    ensures
        match r {
            Some(t) => i < g@.len() && groups_view(g@)[i as int] == Some(t@),
            None => !(i < g@.len() && groups_view(g@)[i as int] is Some),
        },
{
    if i < g.len() {
        match &g[i] {
            Some(t) => Some(t.clone()),
            None => None,
        }
    } else {
        None
    }
}

/// Reads the results of a search page.
pub fn parse_duckduckgo_results(html: &str, top_n: usize) -> (r: Vec<SearchHit>)
    ensures
        hits_view(r@) == spec_search_hits(html@, top_n as nat),
{
    let mut out: Vec<SearchHit> = Vec::new();
    let tp = "<a[^>]*class=\"result__a\"[^>]*href=\"([^\"]*)\"[^>]*>(.*?)</a>";
    let sp = "<a[^>]*class=\"result__snippet\"[^>]*>(.*?)</a>";
    assert(tp@ == title_pattern());
    assert(sp@ == snippet_pattern());
    let tc = match regex_captures_all(tp, html) {
        Some(c) => c,
        None => {
            assert(hits_view(out@) =~= spec_search_hits(html@, top_n as nat));
            return out;
        },
    };
    let sc = match regex_captures_all(sp, html) {
        Some(c) => c,
        None => {
            assert(hits_view(out@) =~= spec_search_hits(html@, top_n as nat));
            return out;
        },
    };
    let ghost tcv = tc@.map_values(|m: Vec<Option<String>>| groups_view(m@));
    let ghost scv = sc@.map_values(|m: Vec<Option<String>>| groups_view(m@));
    let mut links: Vec<(String, String)> = Vec::new();
    let mut k: usize = 0;
    while k < tc.len()
        invariant
            k <= tc@.len(),
            tcv == tc@.map_values(|m: Vec<Option<String>>| groups_view(m@)),
            links@.map_values(|p: (String, String)| (p.0@, p.1@)) == title_links(tcv.take(k as int)),
        decreases tc.len() - k,
    {
        assert(tcv.take(k + 1).drop_last() =~= tcv.take(k as int));
        assert(tcv.take(k + 1).last() == groups_view(tc@[k as int]@));
        let g = &tc[k];
        let ghost before = links@;
        if g.len() > 2 {
            match (group_text(g, 1), group_text(g, 2)) {
                (Some(h), Some(t)) => {
                    let link = (normalize_url(h.as_str()), strip_html_tags(t.as_str()));
                    links.push(link);
                    assert(links@.map_values(|p: (String, String)| (p.0@, p.1@)) =~= before.map_values(
                        |p: (String, String)| (p.0@, p.1@),
                    ).push((link.0@, link.1@)));
                },
                _ => {},
            }
        }
        k += 1;
    }
    assert(tcv.take(k as int) =~= tcv);
    let ghost lv = title_links(tcv);
    let mut snips: Vec<String> = Vec::new();
    let mut j: usize = 0;
    while j < sc.len()
        invariant
            j <= sc@.len(),
            scv == sc@.map_values(|m: Vec<Option<String>>| groups_view(m@)),
            strs_view(snips@) == snippet_texts(scv.take(j as int)),
        decreases sc.len() - j,
    {
        let g = &sc[j];
        let body = match group_text(g, 1) {
            Some(t) => t,
            None => String::new(),
        };
        let st = strip_html_tags(body.as_str());
        let ghost before = snips@;
        snips.push(st);
        proof {
            lemma_strs_view_push(before, st);
            assert(snippet_texts(scv.take(j + 1)) =~= snippet_texts(scv.take(j as int)).push(st@));
        }
        j += 1;
    }
    assert(scv.take(j as int) =~= scv);
    let n = if links.len() < top_n {
        links.len()
    } else {
        top_n
    };
    let ghost want = spec_search_hits(html@, top_n as nat);
    let mut i: usize = 0;
    assert(hits_view(out@) =~= want.take(0));
    while i < n
        invariant
            i <= n <= links@.len(),
            n == want.len(),
            links@.map_values(|p: (String, String)| (p.0@, p.1@)) == lv,
            strs_view(snips@) == snippet_texts(scv),
            want == spec_search_hits(html@, top_n as nat),
            lv == title_links(tcv),
            all_captures(title_pattern(), html@) == Some(tcv),
            all_captures(snippet_pattern(), html@) == Some(scv),
            hits_view(out@) == want.take(i as int),
        decreases n - i,
    {
        let snippet = if i < snips.len() {
            snips[i].clone()
        } else {
            String::new()
        };
        let hit = SearchHit { title: links[i].1.clone(), url: links[i].0.clone(), snippet };
        proof {
            let sn = snippet_texts(scv);
            assert(lv[i as int] == (links@[i as int].0@, links@[i as int].1@));
            if i < snips@.len() {
                assert(sn[i as int] == snips@[i as int]@);
            }
            assert(want[i as int] == (lv[i as int].1, lv[i as int].0, if i < sn.len() {
                sn[i as int]
            } else {
                Seq::empty()
            }));
        }
        let ghost before = out@;
        out.push(hit);
        assert(hits_view(out@) =~= hits_view(before).push((hit.title@, hit.url@, hit.snippet@)));
        assert(want.take(i + 1) =~= want.take(i as int).push(want[i as int]));
        assert(hits_view(out@) =~= want.take(i + 1));
        i += 1;
    }
    assert(want.take(n as int) =~= want);
    out
}

/// The answer to a search: the results, or a note that there are none.
pub open spec fn search_reply(query: Seq<char>, range: Seq<char>, hits: Seq<(Seq<char>, Seq<char>, Seq<char>)>) -> JsonModel {
    if hits.len() == 0 {
        JsonModel::Object(seq![("message"@, jstr("未找到相关结果"@)), ("results"@, JsonModel::Array(Seq::empty()))])
    } else {
        JsonModel::Object(
            seq![
                ("query"@, jstr(query)),
                ("time_range"@, jstr(if range.len() == 0 {
                    "all"@
                } else {
                    range
                })),
                ("results"@, JsonModel::Array(hits.map_values(|h: (Seq<char>, Seq<char>, Seq<char>)|
                    JsonModel::Object(seq![("title"@, jstr(h.0)), ("url"@, jstr(h.1)), ("snippet"@, jstr(h.2))])))),
            ],
        )
    }
}

/// The answer to a search.
pub fn search_answer(query: &str, range: &str, hits: &Vec<SearchHit>) -> (r: JsonValue)
    ensures
        json_model(r) == search_reply(query@, range@, hits_view(hits@)),
{
    let mut items: Vec<JsonValue> = Vec::new();
    let ghost hv = hits_view(hits@);
    let mut k: usize = 0;
    while k < hits.len()
        invariant
            k <= hits.len(),
            hv == hits_view(hits@),
            items_model(items@) == hv.take(k as int).map_values(|h: (Seq<char>, Seq<char>, Seq<char>)|
                JsonModel::Object(seq![("title"@, jstr(h.0)), ("url"@, jstr(h.1)), ("snippet"@, jstr(h.2))])),
        decreases hits.len() - k,
    {
        let h = &hits[k];
        let mut m = new_members();
        push_member(&mut m, "title", json_str(h.title.as_str()));
        push_member(&mut m, "url", json_str(h.url.as_str()));
        push_member(&mut m, "snippet", json_str(h.snippet.as_str()));
        assert(members_model(m@) =~= seq![("title"@, jstr(h.title@)), ("url"@, jstr(h.url@)), ("snippet"@, jstr(h.snippet@))]);
        let v = json_object(m);
        let ghost before = items@;
        items.push(v);
        assert(items_model(items@) =~= items_model(before).push(json_model(v)));
        assert(hv.take(k + 1) =~= hv.take(k as int).push(hv[k as int]));
        assert(hv.take(k + 1).map_values(|h: (Seq<char>, Seq<char>, Seq<char>)|
            JsonModel::Object(seq![("title"@, jstr(h.0)), ("url"@, jstr(h.1)), ("snippet"@, jstr(h.2))])) =~= hv.take(
            k as int,
        ).map_values(|h: (Seq<char>, Seq<char>, Seq<char>)|
            JsonModel::Object(seq![("title"@, jstr(h.0)), ("url"@, jstr(h.1)), ("snippet"@, jstr(h.2))])).push(
            json_model(v),
        ));
        k += 1;
    }
    assert(hv.take(k as int) =~= hv);
    proof {
        lemma_array_model(items);
    }
    let mut m = new_members();
    if hits.len() == 0 {
        push_member(&mut m, "message", json_str("未找到相关结果"));
        let empty: Vec<JsonValue> = Vec::new();
        proof {
            lemma_array_model(empty);
        }
        assert(items_model(empty@) =~= Seq::<JsonModel>::empty());
        push_member(&mut m, "results", JsonValue::Array(empty));
    } else {
        push_member(&mut m, "query", json_str(query));
        let tr = if range.is_empty() {
            "all"
        } else {
            range
        };
        push_member(&mut m, "time_range", json_str(tr));
        push_member(&mut m, "results", JsonValue::Array(items));
    }
    assert(members_model(m@) =~= search_reply(query@, range@, hv)->Object_0);
    json_object(m)
}

// ---------------------------------------------------------------------------
// The calculator

/// The characters an expression for the calculator may hold.
pub open spec fn calc_pattern() -> Seq<char> {
    "^[0-9+\\-*/().%\\s^eEpPiIsSnNcCoOtTaAqQrRlLgGfF!]+$"@
}

/// What the calculator does with its arguments before evaluating.
pub enum CalcInput {
    /// Evaluate this (trimmed) expression.
    Ready(String),
    /// Refuse the request with this answer.
    Refused(JsonValue),
    /// The character check's pattern does not compile.
    PatternError,
}

/// The model of the calculator's input.
pub enum CalcModel {
    Ready(Seq<char>),
    Refused(JsonModel),
    PatternError,
}

/// What the calculator does with its arguments: an empty expression is
/// refused, and so is one with a character outside the allowed ones; the
/// trimmed expression is evaluated otherwise.
pub open spec fn spec_calc_input(args: JsonValue) -> CalcModel {
    let expr = spec_trim(arg_str(args, "expression"@, Seq::empty()));
    if expr.len() == 0 {
        CalcModel::Refused(JsonModel::Object(seq![("error"@, jstr("表达式为空"@))]))
    } else {
        match regex_finds(calc_pattern(), expr) {
            Some(true) => CalcModel::Ready(expr),
            Some(false) => CalcModel::Refused(
                JsonModel::Object(seq![("error"@, jstr("表达式包含不允许的字符，仅支持数学运算"@)), ("expression"@, jstr(expr))]),
            ),
            None => CalcModel::PatternError,
        }
    }
}

/// Reads and checks the calculator's expression.
pub fn calc_input(args: &JsonValue) -> (r: CalcInput)
    ensures
        spec_calc_input(*args) == match r {
            CalcInput::Ready(e) => CalcModel::Ready(e@),
            CalcInput::Refused(v) => CalcModel::Refused(json_model(v)),
            CalcInput::PatternError => CalcModel::PatternError,
        },
{
    proof {
        reveal_strlit("");
        assert(""@ =~= Seq::<char>::empty());
    }
    let raw = read_str(args, "expression", "");
    let expr = string_from_chars(&trim_chars(&chars_of(raw.as_str())));
    if expr.as_str().is_empty() {
        let mut m = new_members();
        push_member(&mut m, "error", json_str("表达式为空"));
        assert(members_model(m@) =~= seq![("error"@, jstr("表达式为空"@))]);
        return CalcInput::Refused(json_object(m));
    }
    match regex_is_match("^[0-9+\\-*/().%\\s^eEpPiIsSnNcCoOtTaAqQrRlLgGfF!]+$", expr.as_str()) {
        Some(true) => CalcInput::Ready(expr),
        Some(false) => {
            let mut m = new_members();
            push_member(&mut m, "error", json_str("表达式包含不允许的字符，仅支持数学运算"));
            push_member(&mut m, "expression", json_str(expr.as_str()));
            assert(members_model(m@) =~= seq![("error"@, jstr("表达式包含不允许的字符，仅支持数学运算"@)), ("expression"@, jstr(expr@))]);
            CalcInput::Refused(json_object(m))
        },
        None => CalcInput::PatternError,
    }
}

// ---------------------------------------------------------------------------
// File search

/// The paths of the files among `entries` (path and file name, in the order
/// the directory walk met them) whose lower-case name contains `q`, at most
/// `limit` of them.
pub open spec fn matching_paths(entries: Seq<(Seq<char>, Seq<char>)>, q: Seq<char>, limit: nat) -> Seq<Seq<char>>
    decreases entries.len(),
{
    if entries.len() == 0 || limit == 0 {
        Seq::empty()
    } else if spec_contains(lowercased(entries[0].1), q) {
        seq![entries[0].0] + matching_paths(entries.drop_first(), q, (limit - 1) as nat)
    } else {
        matching_paths(entries.drop_first(), q, limit)
    }
}

/// The models of (path, name) pairs.
pub open spec fn entries_view(v: Seq<(String, String)>) -> Seq<(Seq<char>, Seq<char>)> {
    v.map_values(|e: (String, String)| (e.0@, e.1@))
}

/// The answer of a file search for `query`: an array of the paths of the
/// first ten files whose name contains the query, ignoring case; empty for
/// an empty query.
pub open spec fn file_search_reply(query: Seq<char>, entries: Seq<(Seq<char>, Seq<char>)>) -> JsonModel {
    if query.len() == 0 {
        JsonModel::Array(Seq::empty())
    } else {
        JsonModel::Array(matching_paths(entries, lowercased(query), 10).map_values(|p: Seq<char>| jstr(p)))
    }
}

/// Answers a file search for `query` over the files a directory walk found,
/// each given by its path and its file name.
pub fn file_search_answer(query: &str, entries: &Vec<(String, String)>) -> (r: JsonValue)
    ensures
        json_model(r) == file_search_reply(query@, entries_view(entries@)),
{
    let mut items: Vec<JsonValue> = Vec::new();
    if query.is_empty() {
        proof {
            lemma_array_model(items);
            assert(items_model(items@) =~= Seq::<JsonModel>::empty());
        }
        return JsonValue::Array(items);
    }
    let q = to_lower(query);
    let ghost ev = entries_view(entries@);
    let ghost found: Seq<Seq<char>> = Seq::empty();
    let mut k: usize = 0;
    proof {
        assert(ev.skip(0) =~= ev);
        assert(found + matching_paths(ev, q@, 10) =~= matching_paths(ev, q@, 10));
        assert(items_model(items@) =~= found.map_values(|p: Seq<char>| jstr(p)));
    }
    while k < entries.len() && items.len() < 10
        invariant
            k <= entries.len(),
            items@.len() <= 10,
            ev == entries_view(entries@),
            q@ == lowercased(query@),
            items@.len() == found.len(),
            items_model(items@) == found.map_values(|p: Seq<char>| jstr(p)),
            found + matching_paths(ev.skip(k as int), q@, (10 - items@.len()) as nat)
                == matching_paths(ev, q@, 10),
        decreases entries.len() - k,
    {
        let ghost rest = ev.skip(k as int);
        assert(rest.drop_first() =~= ev.skip(k + 1));
        assert(rest[0] == (entries@[k as int].0@, entries@[k as int].1@));
        let name = to_lower(entries[k].1.as_str());
        if contains(name.as_str(), q.as_str()) {
            let v = json_str(entries[k].0.as_str());
            let ghost before = items@;
            items.push(v);
            proof {
                assert(items_model(items@) =~= items_model(before).push(json_model(v)));
                found = found.push(entries@[k as int].0@);
                assert(items_model(items@) =~= found.map_values(|p: Seq<char>| jstr(p)));
                assert(found + matching_paths(ev.skip(k + 1), q@, (10 - items@.len()) as nat)
                    =~= (found.drop_last() + matching_paths(rest, q@, (10 - (items@.len() - 1)) as nat)));
            }
        }
        k += 1;
    }
    proof {
        let rest = ev.skip(k as int);
        if items@.len() == 10 {
            assert(matching_paths(rest, q@, 0) =~= Seq::<Seq<char>>::empty());
        } else {
            assert(rest.len() == 0);
        }
        assert(found + matching_paths(rest, q@, (10 - items@.len()) as nat) =~= found);
        lemma_array_model(items);
    }
    JsonValue::Array(items)
}

// ---------------------------------------------------------------------------
// Clipboard

/// What a clipboard request asks.
pub enum ClipboardAction {
    /// Read the clipboard's text.
    Read,
    /// Write this text.
    Write(String),
    /// The request is refused with this answer.
    Refused(JsonValue),
}

/// The model of a clipboard request.
pub enum ClipboardModel {
    Read,
    Write(Seq<char>),
    Refused(JsonModel),
}

impl View for ClipboardAction {
    type V = ClipboardModel;

    open spec fn view(&self) -> ClipboardModel {
        match self {
            ClipboardAction::Read => ClipboardModel::Read,
            ClipboardAction::Write(t) => ClipboardModel::Write(t@),
            ClipboardAction::Refused(v) => ClipboardModel::Refused(json_model(*v)),
        }
    }
}

/// A clipboard request: `write` of a non-empty `text`, refused for an empty
/// one; any other action (`read` by default) reads.
pub open spec fn spec_clipboard_action(args: JsonValue) -> ClipboardModel {
    if arg_str(args, "action"@, "read"@) == "write"@ {
        let t = arg_str(args, "text"@, Seq::empty());
        if t.len() == 0 {
            ClipboardModel::Refused(error_reply("要写入的文本为空"@))
        } else {
            ClipboardModel::Write(t)
        }
    } else {
        ClipboardModel::Read
    }
}

/// Reads a clipboard request.
pub fn clipboard_action(args: &JsonValue) -> (r: ClipboardAction)
    ensures
        r@ == spec_clipboard_action(*args),
{
    proof {
        reveal_strlit("");
        assert(""@ =~= Seq::<char>::empty());
    }
    let action = read_str(args, "action", "read");
    if str_eq(action.as_str(), "write") {
        let t = read_str(args, "text", "");
        if t.as_str().is_empty() {
            return ClipboardAction::Refused(error_value("要写入的文本为空"));
        }
        ClipboardAction::Write(t)
    } else {
        ClipboardAction::Read
    }
}

/// The text shown for a clipboard text of `text`: all of it up to 500
/// bytes, else its first 500 bytes and its length in bytes.
pub open spec fn clipboard_display(text: &str) -> Seq<char> {
    if text.spec_bytes().len() > 500 {
        text_head(text, 500) + "...(共"@ + spec_decimal(text.spec_bytes().len() as nat) + "字符)"@
    } else {
        text@
    }
}

/// The answer after reading `text` from the clipboard.
pub open spec fn clipboard_read_reply(text: &str) -> JsonModel {
    JsonModel::Object(
        seq![
            ("status"@, jstr("ok"@)),
            ("action"@, jstr("read"@)),
            ("text"@, jstr(text@)),
            ("display"@, jstr(clipboard_display(text))),
            ("length"@, int_model(text.spec_bytes().len() as int)),
        ],
    )
}

/// The answer after reading `text` from the clipboard; a text longer than
/// 500 bytes must not have a character across its 500th byte.
pub fn clipboard_read_answer(text: &str) -> (r: JsonValue)
    requires
        cuts_cleanly(text, 500),
    ensures
        json_model(r) == clipboard_read_reply(text),
{
    let n = text.as_bytes().len();
    let display = if n > 500 {
        let mut d = byte_prefix(text, 500);
        d.append("...(共");
        d.append(decimal_string(n as u64).as_str());
        d.append("字符)");
        d
    } else {
        text.to_owned()
    };
    let mut m = new_members();
    push_member(&mut m, "status", json_str("ok"));
    push_member(&mut m, "action", json_str("read"));
    push_member(&mut m, "text", json_str(text));
    push_member(&mut m, "display", json_str(display.as_str()));
    push_member(&mut m, "length", json_nat(n as u64));
    assert(members_model(m@) =~= clipboard_read_reply(text)->Object_0);
    json_object(m)
}

/// The answer after writing `text` to the clipboard.
pub open spec fn clipboard_written_reply(text: &str) -> JsonModel {
    let n = text.spec_bytes().len();
    JsonModel::Object(
        seq![
            ("status"@, jstr("ok"@)),
            ("action"@, jstr("write"@)),
            ("length"@, int_model(n as int)),
            ("message"@, jstr("已将 "@ + spec_decimal(n as nat) + " 个字符写入剪贴板"@)),
        ],
    )
}

/// The answer after writing `text` to the clipboard.
pub fn clipboard_written_answer(text: &str) -> (r: JsonValue)
    ensures
        json_model(r) == clipboard_written_reply(text),
{
    let n = text.as_bytes().len();
    let mut msg = String::from_str("已将 ");
    msg.append(decimal_string(n as u64).as_str());
    msg.append(" 个字符写入剪贴板");
    let mut m = new_members();
    push_member(&mut m, "status", json_str("ok"));
    push_member(&mut m, "action", json_str("write"));
    push_member(&mut m, "length", json_nat(n as u64));
    push_member(&mut m, "message", json_str(msg.as_str()));
    assert(members_model(m@) =~= clipboard_written_reply(text)->Object_0);
    json_object(m)
}

/// Where a clipboard request failed: opening the clipboard, reading it, or
/// writing it.
pub enum ClipboardStep {
    Open,
    Read,
    Write,
}

/// The words that introduce a clipboard failure at `step`.
pub open spec fn clipboard_failure_label(step: ClipboardStep) -> Seq<char> {
    match step {
        ClipboardStep::Open => "无法访问剪贴板: "@,
        ClipboardStep::Read => "读取剪贴板失败: "@,
        ClipboardStep::Write => "写入剪贴板失败: "@,
    }
}

/// The answer when the clipboard failed at `step` with the error text `err`.
pub fn clipboard_failed(step: ClipboardStep, err: &str) -> (r: JsonValue)
    ensures
        json_model(r) == error_reply(clipboard_failure_label(step) + err@),
{
    let mut msg = match step {
        ClipboardStep::Open => String::from_str("无法访问剪贴板: "),
        ClipboardStep::Read => String::from_str("读取剪贴板失败: "),
        ClipboardStep::Write => String::from_str("写入剪贴板失败: "),
    };
    msg.append(err);
    error_value(msg.as_str())
}

} // verus!
