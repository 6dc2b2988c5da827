//! Usage data layer: model display names, the platform's day window, and the
//! aggregation of the amount / cost CSV exports by day and by model.

use vstd::prelude::*;
use crate::text::{chars_of, copy_range, push_char, append_chars};
use crate::expr::{pos_of, pos_of_range, ascii_lower, lemma_pos_of_bound};
use crate::path::is_ascii_alphanumeric;
use crate::validate::{starts_with, starts_with_exec};
use crate::template::lit_eq;
use crate::dates::{civil_from_days, day_text, push_day_text, unix_now, civil_of_day};
use crate::fmt::{int_text, push_int};
use crate::expr::all_digits;
use crate::path::{is_ascii_digit, decimal_value};
use crate::text::string_of;
use crate::validate::text_eq;
use crate::text::join_seq;
use crate::state::text_opt;
use crate::keyed::{entry_of, keys_unique, find_key, lemma_entry_first, lemma_entry_none, lemma_entry_update_other, lemma_entry_push, lemma_unique_update, lemma_unique_push};

verus! {

broadcast use vstd::string::group_string_axioms;

/// The platform's time zone, UTC+8, in seconds.
pub const TZ_SEC: i64 = 28_800;

/// Number of days shown.
pub const DAYS: i64 = 7;

// ------------------------------------------------------------------ model names

/// A model id reduced to its lower-case ASCII letters and digits
/// (`deepseek-v4-flash` → `deepseekv4flash`).
pub open spec fn model_key(m: Seq<char>) -> Seq<char>
    decreases m.len(),
{
    if m.len() == 0 {
        Seq::empty()
    } else if is_ascii_alphanumeric(m.last()) {
        model_key(m.drop_last()).push(ascii_lower(m.last()))
    } else {
        model_key(m.drop_last())
    }
}

fn norm_model_key(model: &str) -> (r: Vec<char>)
    ensures
        r@ == model_key(model@),
{
    let m = chars_of(model);
    let mut r: Vec<char> = Vec::new();
    let mut i: usize = 0;
    assert(m@.take(0) =~= Seq::<char>::empty());
    while i < m.len()
        invariant
            i <= m@.len(),
            m@ == model@,
            r@ == model_key(m@.take(i as int)),
        decreases m.len() - i,
    {
        let c = m[i];
        assert(m@.take(i + 1).drop_last() =~= m@.take(i as int));
        if ('a' <= c && c <= 'z') || ('A' <= c && c <= 'Z') || ('0' <= c && c <= '9') {
            let lc = if 'A' <= c && c <= 'Z' {
                ((c as u32) + 32) as u8 as char
            } else {
                c
            };
            assert(lc == ascii_lower(c));
            r.push(lc);
        }
        i = i + 1;
    }
    assert(m@.take(m@.len() as int) =~= m@);
    r
}

/// `s` without the prefix `pre`, where it has it.
pub open spec fn strip_prefix(s: Seq<char>, pre: Seq<char>) -> Seq<char> {
    if starts_with(s, pre) {
        s.skip(pre.len() as int)
    } else {
        s
    }
}

fn strip_prefix_exec(s: &[char], pre: &str) -> (r: Vec<char>)
    ensures
        r@ == strip_prefix(s@, pre@),
{
    if starts_with_exec(s, pre) {
        let p = chars_of(pre);
        let r = copy_range(s, p.len(), s.len());
        assert(r@ =~= s@.skip(pre@.len() as int));
        r
    } else {
        copy_range(s, 0, s.len())
    }
}

/// The pieces of `s` between dashes, as `str::split('-')` yields them.
pub open spec fn split_dash(s: Seq<char>) -> Seq<Seq<char>>
    decreases s.len(),
{
    let p = pos_of(s, '-', '-');
    if 0 <= p < s.len() {
        seq![s.take(p)] + split_dash(s.skip(p + 1))
    } else {
        seq![s]
    }
}

/// The upper-case mapping of a character, as `char::to_uppercase` yields it.
pub uninterp spec fn char_upper(c: char) -> Seq<char>;

/// std `char::to_uppercase`, collected into a `String`: one or more characters, the
/// character itself where it has no upper-case form. Stated besides: in ASCII,
/// `a`–`z` become `A`–`Z` and every other character stays.
#[verifier::external_body]
fn upper_case_of(c: char) -> (r: String)
    ensures
        r@ == char_upper(c),
        'a' <= c <= 'z' ==> r@ == seq![((c as int) - 32) as char],
        (c as int) < 128 && !('a' <= c <= 'z') ==> r@ == seq![c],
{
    c.to_uppercase().collect()
}

/// Word `w` at position `i` of the split: its first character upper-cased, after a
/// space unless it is the first piece; nothing for an empty piece.
pub open spec fn word_piece(w: Seq<char>, i: int) -> Seq<char> {
    if w.len() == 0 {
        Seq::empty()
    } else {
        (if i > 0 {
            seq![' ']
        } else {
            Seq::empty()
        }) + char_upper(w[0]) + w.skip(1)
    }
}

pub open spec fn title_words(ws: Seq<Seq<char>>) -> Seq<char>
    decreases ws.len(),
{
    if ws.len() == 0 {
        Seq::empty()
    } else {
        title_words(ws.drop_last()) + word_piece(ws.last(), ws.len() - 1)
    }
}

/// `deepseek-v4-pro` → `V4 Pro`: no `deepseek-` prefix, dashes as spaces, words capitalised.
pub open spec fn short_name(model: Seq<char>) -> Seq<char> {
    title_words(split_dash(strip_prefix(model, "deepseek-"@)))
}

/// Every character of `s` is ASCII.
pub open spec fn is_ascii_text(s: Seq<char>) -> bool {
    forall|k: int| 0 <= k < s.len() ==> (#[trigger] s[k] as int) < 128
}

/// The upper-case form of an ASCII character: `a`–`z` become `A`–`Z`, the rest stay.
pub open spec fn ascii_upper_of(c: char) -> Seq<char> {
    if 'a' <= c <= 'z' {
        seq![((c as int) - 32) as char]
    } else {
        seq![c]
    }
}

pub open spec fn ascii_word_piece(w: Seq<char>, i: int) -> Seq<char> {
    if w.len() == 0 {
        Seq::empty()
    } else {
        (if i > 0 {
            seq![' ']
        } else {
            Seq::empty()
        }) + ascii_upper_of(w[0]) + w.skip(1)
    }
}

pub open spec fn ascii_title_words(ws: Seq<Seq<char>>) -> Seq<char>
    decreases ws.len(),
{
    if ws.len() == 0 {
        Seq::empty()
    } else {
        ascii_title_words(ws.drop_last()) + ascii_word_piece(ws.last(), ws.len() - 1)
    }
}

/// `short_name` of an ASCII model name, with its upper-casing spelled out.
pub open spec fn ascii_short_name(model: Seq<char>) -> Seq<char> {
    ascii_title_words(split_dash(strip_prefix(model, "deepseek-"@)))
}

proof fn lemma_split_step(s: Seq<char>, a: int, q: int)
    requires
        0 <= a <= q <= s.len(),
        q - a == pos_of(s.subrange(a, s.len() as int), '-', '-'),
    ensures
        q < s.len() ==> split_dash(s.subrange(a, s.len() as int)) == seq![s.subrange(a, q)]
            + split_dash(s.subrange(q + 1, s.len() as int)),
        q == s.len() ==> split_dash(s.subrange(a, s.len() as int)) == seq![s.subrange(a, q)],
{
    let t = s.subrange(a, s.len() as int);
    lemma_pos_of_bound(t, '-', '-');
    assert(t.take(q - a) =~= s.subrange(a, q));
    if q < s.len() {
        assert(t.skip(q - a + 1) =~= s.subrange(q + 1, s.len() as int));
    } else {
        assert(t =~= s.subrange(a, q));
    }
}

/// Display name fallback: drops `deepseek-`, turns dashes into spaces and
/// capitalises each word (`deepseek-chat` → `Chat`).
pub fn model_short_name(model: &str) -> (r: String)
    ensures
        r@ == short_name(model@),
        is_ascii_text(model@) ==> r@ == ascii_short_name(model@),
{
    let m = chars_of(model);
    let stem = strip_prefix_exec(&m, "deepseek-");
    let ghost ascii = is_ascii_text(model@);
    proof {
        if ascii {
            assert forall|k: int| 0 <= k < stem@.len() implies (#[trigger] stem@[k] as int) < 128 by {
                if starts_with(m@, "deepseek-"@) {
                    assert(stem@[k] == model@[k + "deepseek-"@.len()]);
                } else {
                    assert(stem@[k] == model@[k]);
                }
            }
        }
    }
    let n = stem.len();
    let mut out = String::new();
    let mut a: usize = 0;
    let mut i: usize = 0;
    let ghost mut done: Seq<Seq<char>> = Seq::empty();
    assert(stem@.subrange(0, n as int) =~= stem@);
    loop
        invariant_except_break
            a <= n,
            n == stem@.len(),
            i <= a,
            done.len() == i,
            split_dash(stem@) == done + split_dash(stem@.subrange(a as int, n as int)),
            out@ == title_words(done),
            ascii ==> forall|k: int| 0 <= k < stem@.len() ==> (#[trigger] stem@[k] as int) < 128,
            ascii ==> out@ == ascii_title_words(done),
        ensures
            out@ == title_words(split_dash(stem@)),
            ascii ==> out@ == ascii_title_words(split_dash(stem@)),
        decreases n - a,
    {
        let q = pos_of_range(&stem, a, n, '-', '-');
        proof {
            lemma_pos_of_bound(stem@.subrange(a as int, n as int), '-', '-');
            lemma_split_step(stem@, a as int, q as int);
        }
        let ghost w = stem@.subrange(a as int, q as int);
        let ghost before = out@;
        let ghost before_ascii = ascii_title_words(done);
        if q > a {
            if i > 0 {
                push_char(&mut out, ' ');
            }
            let up = upper_case_of(stem[a]);
            out.append(up.as_str());
            let rest = copy_range(&stem, a + 1, q);
            append_chars(&mut out, &rest);
            proof {
                assert(w[0] == stem@[a as int]);
                assert(rest@ =~= w.skip(1));
                assert(out@ =~= before + word_piece(w, i as int));
                if ascii {
                    assert(up@ == ascii_upper_of(w[0]));
                    assert(out@ =~= before_ascii + ascii_word_piece(w, i as int));
                }
            }
        } else {
            assert(out@ =~= before + word_piece(w, i as int));
            assert(ascii ==> out@ =~= before_ascii + ascii_word_piece(w, i as int));
        }
        proof {
            assert(done.push(w).drop_last() =~= done);
            done = done.push(w);
        }
        if q >= n {
            assert(split_dash(stem@) =~= done);
            break;
        }
        a = q + 1;
        i = i + 1;
        proof {
            assert(split_dash(stem@) =~= done + split_dash(stem@.subrange(a as int, n as int)));
        }
    }
    out
}

/// The tag registered for a model: `key` is its full reduced id, `short` that id
/// without `deepseek`.
pub open spec fn tag_for(key: Seq<char>, short: Seq<char>) -> Option<Seq<char>> {
    if "deepseekv4flash"@ == key || "deepseekv4flash"@ == short {
        Some("Flash"@)
    } else if "deepseekv4flashvisionexp"@ == key || "deepseekv4flashvisionexp"@ == short {
        Some("Vision"@)
    } else if "deepseekv4pro"@ == key || "deepseekv4pro"@ == short {
        Some("Pro"@)
    } else {
        None
    }
}

pub open spec fn display_name(model: Seq<char>) -> Seq<char> {
    let key = model_key(model);
    match tag_for(key, strip_prefix(key, "deepseek"@)) {
        Some(t) => t,
        None => short_name(model),
    }
}

/// A model's display name: its registered tag when it has one (matched on the
/// reduced id, with or without `deepseek`), else `model_short_name`.
pub fn model_display_name(model: &str) -> (r: String)
    ensures
        r@ == display_name(model@),
        is_ascii_text(model@) ==> r@ == (match tag_for(model_key(model@), strip_prefix(model_key(model@), "deepseek"@)) {
            Some(t) => t,
            None => ascii_short_name(model@),
        }),
{
    let key = norm_model_key(model);
    let short = strip_prefix_exec(&key, "deepseek");
    if lit_eq(&key, "deepseekv4flash") || lit_eq(&short, "deepseekv4flash") {
        return "Flash".to_string();
    }
    if lit_eq(&key, "deepseekv4flashvisionexp") || lit_eq(&short, "deepseekv4flashvisionexp") {
        return "Vision".to_string();
    }
    if lit_eq(&key, "deepseekv4pro") || lit_eq(&short, "deepseekv4pro") {
        return "Pro".to_string();
    }
    model_short_name(model)
}

} // verus!

verus! {

// ------------------------------------------------------------------ day window

/// The platform-local day number of Unix time `now`.
pub open spec fn cn_today(now: int) -> int {
    (now + TZ_SEC) / 86400
}

/// Unix time of platform-local midnight starting day `d`.
pub open spec fn cn_midnight(d: int) -> int {
    d * 86400 - TZ_SEC
}

/// The last `days` platform-local days up to today, as `[start, end)` Unix seconds.
pub open spec fn cn_window_of(now: int, days: int) -> (int, int) {
    (cn_midnight(cn_today(now) - (days - 1)), cn_midnight(cn_today(now) + 1))
}

/// Every intermediate value of the window's arithmetic fits in an `i64`.
pub open spec fn cn_window_fits(now: int, days: int) -> bool {
    let t = cn_today(now);
    &&& now + TZ_SEC <= i64::MAX
    &&& i64::MIN <= days - 1
    &&& i64::MIN <= t - (days - 1) <= i64::MAX
    &&& i64::MIN <= (t - (days - 1)) * 86400 - TZ_SEC
    &&& (t - (days - 1)) * 86400 <= i64::MAX
    &&& (t + 1) * 86400 <= i64::MAX
}

/// The export window at Unix time `now`: local midnight `days - 1` days back
/// to the coming local midnight.
pub fn cn_window_at(now: i64, days: i64) -> (r: (i64, i64))
    requires
        cn_window_fits(now as int, days as int),
    ensures
        (r.0 as int, r.1 as int) == cn_window_of(now as int, days as int),
        (r.0 + TZ_SEC) % 86400 == 0,
        (r.1 + TZ_SEC) % 86400 == 0,
        r.1 - r.0 == days * 86400,
{
    let t = now + TZ_SEC;
    let q = t / 86400;
    let today = if t % 86400 < 0 {
        q - 1
    } else {
        q
    };
    assert(today == cn_today(now as int));
    let first = today - (days - 1);
    assert(today + 1 <= i64::MAX) by (nonlinear_arith)
        requires
            (today + 1) * 86400 <= i64::MAX,
    ;
    let start = first * 86400 - TZ_SEC;
    let end = (today + 1) * 86400 - TZ_SEC;
    assert(end - start == days * 86400) by (nonlinear_arith)
        requires
            start == first * 86400 - TZ_SEC,
            end == (today + 1) * 86400 - TZ_SEC,
            first == today - (days - 1),
    ;
    (start, end)
}

/// The platform-local day number of Unix time `now` (computed without overflow).
pub fn cn_day(now: i64) -> (r: i64)
    ensures
        r == cn_today(now as int),
        -200_000_000_000_000 <= r <= 200_000_000_000_000,
{
    let t: i128 = now as i128 + TZ_SEC as i128;
    let q = t / 86400;
    let d: i128 = if t % 86400 < 0 {
        q - 1
    } else {
        q
    };
    assert(d == cn_today(now as int));
    assert(-200_000_000_000_000 <= d <= 200_000_000_000_000) by (nonlinear_arith)
        requires
            d == t / 86400,
            -10_000_000_000_000_000_000 <= t <= 10_000_000_000_000_000_000,
    ;
    d as i64
}

/// Both bounds of a window are `i64` values.
pub open spec fn window_in_i64(w: (int, int)) -> bool {
    i64::MIN <= w.0 <= i64::MAX && i64::MIN <= w.1 <= i64::MAX
}

/// What the export window read at clock value `t` is: the window of `t`, its bounds
/// truncated to `i64`; where they fit, it starts and ends at local midnights, spans
/// `days` days and, for `days >= 1`, holds `t`.
pub open spec fn window_read_at(t: i64, days: i64, r: (i64, i64)) -> bool {
    let w = cn_window_of(t as int, days as int);
    &&& r.0 == w.0 as i64
    &&& r.1 == w.1 as i64
    &&& window_in_i64(w) ==> {
        &&& r.0 == w.0 && r.1 == w.1
        &&& (r.0 + TZ_SEC) % 86400 == 0
        &&& (r.1 + TZ_SEC) % 86400 == 0
        &&& r.1 - r.0 == days * 86400
        &&& (days >= 1 ==> r.0 <= t < r.1)
    }
}

proof fn lemma_window_shape(t: int, days: int)
    ensures
        ({
            let w = cn_window_of(t, days);
            &&& (w.0 + TZ_SEC) % 86400 == 0
            &&& (w.1 + TZ_SEC) % 86400 == 0
            &&& w.1 - w.0 == days * 86400
            &&& (days >= 1 ==> w.0 <= t < w.1)
        }),
{
    let today = cn_today(t);
    let w = cn_window_of(t, days);
    assert(w.0 + TZ_SEC == (today - (days - 1)) * 86400);
    assert(w.1 + TZ_SEC == (today + 1) * 86400);
    assert(((today - (days - 1)) * 86400) % 86400 == 0) by (nonlinear_arith);
    assert(((today + 1) * 86400) % 86400 == 0) by (nonlinear_arith);
    assert(w.1 - w.0 == days * 86400) by (nonlinear_arith)
        requires
            w.0 + TZ_SEC == (today - (days - 1)) * 86400,
            w.1 + TZ_SEC == (today + 1) * 86400,
    ;
    assert(today * 86400 <= t + TZ_SEC < (today + 1) * 86400) by (nonlinear_arith)
        requires
            today == (t + TZ_SEC) / 86400,
    ;
    if days >= 1 {
        assert((today - (days - 1)) * 86400 <= today * 86400) by (nonlinear_arith)
            requires
                days >= 1,
        ;
    }
}

/// The export window now: the last `days` platform-local days up to the clock's
/// present reading, midnight-aligned (computed without overflow; bounds outside the
/// `i64` range are truncated).
pub fn cn_window(days: i64) -> (r: (i64, i64))
    ensures
        exists|t: i64| #[trigger] window_read_at(t, days, r),
{
    let now = crate::dates::unix_now();
    let t: i128 = now as i128 + TZ_SEC as i128;
    let q = t / 86400;
    let today: i128 = if t % 86400 < 0 {
        q - 1
    } else {
        q
    };
    assert(today == cn_today(now as int));
    let start: i128 = (today - (days as i128 - 1)) * 86400 - TZ_SEC as i128;
    let end: i128 = (today + 1) * 86400 - TZ_SEC as i128;
    let r = (start as i64, end as i64);
    proof {
        lemma_window_shape(now as int, days as int);
        assert(window_read_at(now, days, r));
    }
    r
}

/// The platform-local date key `YYYY-MM-DD` of day number `today_days`.
pub fn day_key(today_days: i64) -> (r: String)
    requires
        today_days <= i64::MAX - 719468,
    ensures
        r@ == day_text(today_days as int),
{
    let mut s = String::new();
    push_day_text(&mut s, today_days);
    s
}

/// Axis label `M/D` (no padding) of day number `z`.
pub open spec fn day_label(z: int) -> Seq<char> {
    let (y, m, d) = civil_of_day(z);
    int_text(m) + seq!['/'] + int_text(d)
}

/// The days of the display window ending at `today_days`, oldest first:
/// each day's key `YYYY-MM-DD` and its label `M/D`.
pub fn series_days(today_days: i64) -> (r: Vec<(String, String)>)
    requires
        i64::MIN + DAYS <= today_days <= i64::MAX - 719468,
    ensures
        r@.len() == DAYS,
        forall|i: int| #![trigger r@[i]]
            0 <= i < DAYS ==> r@[i].0@ == day_text(today_days - (DAYS - 1) + i) && r@[i].1@
                == day_label(today_days - (DAYS - 1) + i),
{
    let mut r: Vec<(String, String)> = Vec::new();
    let mut k: i64 = 0;
    while k < DAYS
        invariant
            0 <= k <= DAYS,
            i64::MIN + DAYS <= today_days <= i64::MAX - 719468,
            r@.len() == k,
            forall|i: int| #![trigger r@[i]]
                0 <= i < k ==> r@[i].0@ == day_text(today_days - (DAYS - 1) + i) && r@[i].1@
                    == day_label(today_days - (DAYS - 1) + i),
        decreases DAYS - k,
    {
        let d = today_days - (DAYS - 1) + k;
        let key = day_key(d);
        let (_, m, dd) = civil_from_days(d);
        let mut label = String::new();
        push_int(&mut label, m as i64);
        push_char(&mut label, '/');
        push_int(&mut label, dd as i64);
        assert(label@ =~= day_label(d as int));
        r.push((key, label));
        k = k + 1;
    }
    r
}

} // verus!

verus! {

// ------------------------------------------------------------------ CSV records

/// The data records of a CSV text as the `csv` crate reads it (first record taken as
/// the header, every field trimmed): each record's fields, or the text of the error
/// met reading it.
pub uninterp spec fn csv_records(text: Seq<char>) -> Seq<Result<Seq<Seq<char>>, Seq<char>>>;

pub open spec fn fields_view(fs: Vec<String>) -> Seq<Seq<char>> {
    fs@.map_values(|f: String| f@)
}

pub open spec fn record_view(r: Result<Vec<String>, String>) -> Result<Seq<Seq<char>>, Seq<char>> {
    match r {
        Ok(fs) => Ok(fields_view(fs)),
        Err(e) => Err(e@),
    }
}

pub open spec fn records_view(rs: Seq<Result<Vec<String>, String>>) -> Seq<Result<Seq<Seq<char>>, Seq<char>>> {
    rs.map_values(|r: Result<Vec<String>, String>| record_view(r))
}

/// csv: `ReaderBuilder::new().trim(Trim::All).from_reader(..).records()`, every item
/// taken: a record as its fields, an error as its `Display` text. The result is named
/// `csv_records` of the text; nothing more is stated of it.
#[verifier::external_body]
fn read_csv(text: &str) -> (r: Vec<Result<Vec<String>, String>>)
    ensures
        records_view(r@) == csv_records(text@),
{
    let mut reader = csv::ReaderBuilder::new().trim(csv::Trim::All).from_reader(text.as_bytes());
    let mut out = Vec::new();
    for rec in reader.records() {
        out.push(match rec {
            Ok(r) => Ok(r.iter().map(|f| f.to_string()).collect()),
            Err(e) => Err(e.to_string()),
        });
    }
    out
}

/// `s` without a leading byte-order mark.
pub open spec fn strip_bom(s: Seq<char>) -> Seq<char> {
    if s.len() > 0 && s[0] == '\u{feff}' {
        s.skip(1)
    } else {
        s
    }
}

fn strip_bom_exec(text: &str) -> (r: String)
    ensures
        r@ == strip_bom(text@),
{
    let c = chars_of(text);
    if c.len() > 0 && c[0] == '\u{feff}' {
        let t = copy_range(&c, 1, c.len());
        assert(t@ =~= c@.skip(1));
        string_of(&t)
    } else {
        string_of(&c)
    }
}

/// Field `i` of a record; empty where the record has no such field.
pub open spec fn field(fs: Seq<Seq<char>>, i: int) -> Seq<char> {
    if 0 <= i < fs.len() {
        fs[i]
    } else {
        Seq::empty()
    }
}

fn field_at(fs: &Vec<String>, i: usize) -> (r: &str)
    ensures
        r@ == field(fields_view(*fs), i as int),
{
    if i < fs.len() {
        assert(fields_view(*fs)[i as int] == fs@[i as int]@);
        fs[i].as_str()
    } else {
        proof {
            reveal_strlit("");
        }
        ""
    }
}

/// Every field is empty.
pub open spec fn all_empty(fs: Seq<Seq<char>>) -> bool {
    forall|i: int| 0 <= i < fs.len() ==> (#[trigger] fs[i]).len() == 0
}

fn all_empty_exec(fs: &Vec<String>) -> (r: bool)
    ensures
        r == all_empty(fields_view(*fs)),
{
    let mut i: usize = 0;
    while i < fs.len()
        invariant
            i <= fs@.len(),
            forall|j: int| 0 <= j < i ==> (#[trigger] fields_view(*fs)[j]).len() == 0,
        decreases fs.len() - i,
    {
        if fs[i].as_str().unicode_len() > 0 {
            assert(fields_view(*fs)[i as int].len() > 0);
            return false;
        }
        i = i + 1;
    }
    true
}

/// Bytes `c` takes in UTF-8.
pub open spec fn utf8_len(c: char) -> int {
    if c <= '\u{7f}' {
        1
    } else if c <= '\u{7ff}' {
        2
    } else if c <= '\u{ffff}' {
        3
    } else {
        4
    }
}

/// The first `n` bytes of `s` as `str::get(..n)` gives them: `None` when `s` is
/// shorter or byte `n` falls inside a character.
pub open spec fn byte_prefix(s: Seq<char>, n: int) -> Option<Seq<char>>
    decreases s.len(),
{
    if n == 0 {
        Some(Seq::empty())
    } else if n < 0 || s.len() == 0 {
        None
    } else {
        match byte_prefix(s.drop_first(), n - utf8_len(s[0])) {
            Some(t) => Some(seq![s[0]] + t),
            None => None,
        }
    }
}

fn byte_prefix_exec(s: &str, n: usize) -> (r: Option<String>)
    ensures
        match r {
            Some(t) => byte_prefix(s@, n as int) == Some(t@),
            None => byte_prefix(s@, n as int) is None,
        },
{
    let c = chars_of(s);
    let mut i: usize = 0;
    let mut acc: usize = 0;
    assert(c@.skip(0) =~= c@);
    assert(c@.take(0) =~= Seq::<char>::empty());
    while acc < n && i < c.len()
        invariant
            i <= c@.len(),
            acc <= n,
            c@ == s@,
            byte_prefix(s@, n as int) == match byte_prefix(c@.skip(i as int), n - acc) {
                Some(t) => Some(c@.take(i as int) + t),
                None => None,
            },
        decreases c.len() - i,
    {
        let ch = c[i];
        let w: usize = if ch <= '\u{7f}' {
            1
        } else if ch <= '\u{7ff}' {
            2
        } else if ch <= '\u{ffff}' {
            3
        } else {
            4
        };
        assert(w == utf8_len(ch));
        let ghost rest = c@.skip(i as int);
        assert(rest[0] == ch);
        assert(rest.drop_first() =~= c@.skip(i + 1));
        assert(c@.take(i + 1) =~= c@.take(i as int) + seq![ch]);
        if w > n - acc {
            assert(byte_prefix(c@.skip(i + 1), n - acc - w) is None);
            return None;
        }
        acc = acc + w;
        i = i + 1;
    }
    if acc == n {
        let t = copy_range(&c, 0, i);
        assert(t@ =~= c@.take(i as int));
        assert(t@ + Seq::<char>::empty() =~= t@);
        Some(string_of(&t))
    } else {
        None
    }
}

/// The value of a decimal text as `str::parse::<u64>` reads it: an optional `+`,
/// then one or more ASCII digits, at most `u64::MAX`.
pub open spec fn u64_value(s: Seq<char>) -> Option<int> {
    let d = if s.len() > 0 && s[0] == '+' {
        s.skip(1)
    } else {
        s
    };
    if d.len() > 0 && all_digits(d) && decimal_value(d) <= u64::MAX {
        Some(decimal_value(d) as int)
    } else {
        None
    }
}

proof fn lemma_decimal_push(ds: Seq<char>, c: char)
    ensures
        decimal_value(ds.push(c)) == decimal_value(ds) * 10 + (c as nat - 48) as nat,
{
    assert(ds.push(c).drop_last() =~= ds);
}

/// The value of a decimal text, as `str::parse::<u64>` gives it.
pub fn parse_u64(s: &str) -> (r: Option<u64>)
    ensures
        match r {
            Some(v) => u64_value(s@) == Some(v as int),
            None => u64_value(s@) is None,
        },
{
    let c = chars_of(s);
    let start: usize = if c.len() > 0 && c[0] == '+' {
        1
    } else {
        0
    };
    let ghost d = c@.skip(start as int);
    assert(d == (if s@.len() > 0 && s@[0] == '+' {
        s@.skip(1)
    } else {
        s@
    }));
    if start >= c.len() {
        return None;
    }
    let mut j = start;
    let mut v: u64 = 0;
    let mut overflow = false;
    while j < c.len()
        invariant
            c@ == s@,
            start <= j <= c@.len(),
            d == c@.skip(start as int),
            d == (if s@.len() > 0 && s@[0] == '+' {
                s@.skip(1)
            } else {
                s@
            }),
            all_digits(c@.subrange(start as int, j as int)),
            !overflow ==> v == decimal_value(c@.subrange(start as int, j as int)),
            overflow ==> decimal_value(c@.subrange(start as int, j as int)) > u64::MAX,
        decreases c.len() - j,
    {
        let ch = c[j];
        if !('0' <= ch && ch <= '9') {
            assert(!all_digits(d)) by {
                assert(d[j - start] == ch);
            }
            return None;
        }
        let dg = (ch as u32 - 48) as u64;
        proof {
            lemma_decimal_push(c@.subrange(start as int, j as int), ch);
            assert(c@.subrange(start as int, j + 1) =~= c@.subrange(start as int, j as int).push(ch));
        }
        if !overflow {
            match v.checked_mul(10) {
                Some(m) => match m.checked_add(dg) {
                    Some(x) => {
                        v = x;
                    },
                    None => {
                        overflow = true;
                    },
                },
                None => {
                    overflow = true;
                },
            }
        } else {
            assert(decimal_value(c@.subrange(start as int, j + 1)) > u64::MAX) by (nonlinear_arith)
                requires
                    decimal_value(c@.subrange(start as int, j + 1)) == decimal_value(
                        c@.subrange(start as int, j as int),
                    ) * 10 + (ch as nat - 48) as nat,
                    decimal_value(c@.subrange(start as int, j as int)) > u64::MAX,
            ;
        }
        j = j + 1;
    }
    assert(c@.subrange(start as int, c@.len() as int) =~= d);
    assert(d.len() > 0 && all_digits(d));
    if overflow {
        None
    } else {
        Some(v)
    }
}

} // verus!

verus! {

// ------------------------------------------------------------------ token totals

/// Token totals: output tokens, cache-hit input tokens, cache-miss input tokens.
#[derive(Clone, Copy, Debug, PartialEq, Eq)]
pub struct DayTokens {
    pub output_tokens: u64,
    pub hit_tokens: u64,
    pub miss_tokens: u64,
}

/// A usage row: (key, slot, amount); slot 0 counts output tokens, 1 cache hits,
/// 2 cache misses, 3 nothing.
pub open spec fn slot_total(rows: Seq<(Seq<char>, int, int)>, key: Seq<char>, slot: int) -> int
    decreases rows.len(),
{
    if rows.len() == 0 {
        0
    } else {
        slot_total(rows.drop_last(), key, slot) + (if rows.last().0 == key && rows.last().1 == slot {
            rows.last().2
        } else {
            0
        })
    }
}

pub open spec fn has_row(rows: Seq<(Seq<char>, int, int)>, key: Seq<char>) -> bool {
    exists|i: int| 0 <= i < rows.len() && (#[trigger] rows[i]).0 == key
}

/// `x` kept to 64 bits, as `u64` addition without overflow checks keeps it.
pub open spec fn wrap64(x: int) -> int {
    x % 0x1_0000_0000_0000_0000
}

pub open spec fn totals_of(rows: Seq<(Seq<char>, int, int)>, key: Seq<char>) -> DayTokens {
    DayTokens {
        output_tokens: wrap64(slot_total(rows, key, 0)) as u64,
        hit_tokens: wrap64(slot_total(rows, key, 1)) as u64,
        miss_tokens: wrap64(slot_total(rows, key, 2)) as u64,
    }
}

/// `out` holds, once per key, the totals of the rows with that key, and no other key.
pub open spec fn totals_match(out: Seq<(String, DayTokens)>, rows: Seq<(Seq<char>, int, int)>) -> bool {
    &&& keys_unique(out)
    &&& forall|k: Seq<char>| #[trigger]
        entry_of(out, k) == (if has_row(rows, k) {
            Some(totals_of(rows, k))
        } else {
            None
        })
}

proof fn lemma_total_absent(rows: Seq<(Seq<char>, int, int)>, key: Seq<char>, slot: int)
    requires
        !has_row(rows, key),
    ensures
        slot_total(rows, key, slot) == 0,
    decreases rows.len(),
{
    if rows.len() > 0 {
        assert(rows.last() == rows[rows.len() - 1]);
        assert(!has_row(rows.drop_last(), key)) by {
            if has_row(rows.drop_last(), key) {
                let i = choose|i: int| 0 <= i < rows.drop_last().len() && (#[trigger] rows.drop_last()[i]).0 == key;
                assert(rows[i] == rows.drop_last()[i]);
            }
        }
        lemma_total_absent(rows.drop_last(), key, slot);
    }
}

proof fn lemma_wrap_add(x: int, a: int)
    requires
        0 <= x,
        0 <= a <= u64::MAX,
    ensures
        vstd::wrapping::u64_specs::wrapping_add(wrap64(x) as u64, a as u64) == wrap64(x + a),
{
    let m: int = 0x1_0000_0000_0000_0000;
    let w = x % m;
    vstd::arithmetic::div_mod::lemma_add_mod_noop(x, a, m);
    vstd::arithmetic::div_mod::lemma_small_mod(a as nat, m as nat);
    if w + a < m {
        vstd::arithmetic::div_mod::lemma_small_mod((w + a) as nat, m as nat);
    } else {
        vstd::arithmetic::div_mod::lemma_mod_add_multiples_vanish(w + a - m, m);
        vstd::arithmetic::div_mod::lemma_small_mod((w + a - m) as nat, m as nat);
    }
}

/// Adds `amount` to slot `slot` of key `key`, creating the key with zero totals first.
fn accumulate(
    out: &mut Vec<(String, DayTokens)>,
    key: String,
    slot: u8,
    amount: u64,
    Ghost(rows): Ghost<Seq<(Seq<char>, int, int)>>,
)
    requires
        totals_match(old(out)@, rows),
        slot <= 3,
        forall|i: int| 0 <= i < rows.len() ==> (#[trigger] rows[i]).2 >= 0,
    ensures
        totals_match(final(out)@, rows.push((key@, slot as int, amount as int))),
{
    let ghost orig = out@;
    let ghost r = (key@, slot as int, amount as int);
    let ghost rows2 = rows.push(r);
    assert(rows2.drop_last() =~= rows);
    assert forall|k: Seq<char>, sl: int| k != key@ implies #[trigger] slot_total(rows2, k, sl)
        == slot_total(rows, k, sl) by {}
    assert forall|k: Seq<char>| #[trigger] has_row(rows2, k) == (has_row(rows, k) || k == key@) by {
        if has_row(rows2, k) && k != key@ {
            let i = choose|i: int| 0 <= i < rows2.len() && (#[trigger] rows2[i]).0 == k;
            assert(rows2[i] == rows[i]);
        }
        if has_row(rows, k) {
            let i = choose|i: int| 0 <= i < rows.len() && (#[trigger] rows[i]).0 == k;
            assert(rows2[i] == rows[i]);
        }
        if k == key@ {
            assert(rows2[rows.len() as int].0 == k);
        }
    }
    assert forall|i: int| 0 <= i < rows.len() implies (#[trigger] rows[i]).2 >= 0 by {}
    let kc = chars_of(key.as_str());
    match find_key(out, &kc) {
        Some(i) => {
            proof {
                lemma_entry_first(orig, key@, i as int);
            }
            let ghost t = orig[i as int].1;
            assert(has_row(rows, key@));
            proof {
                assert(t == totals_of(rows, key@));
                lemma_slot_total_nonneg(rows, key@, 0);
                lemma_slot_total_nonneg(rows, key@, 1);
                lemma_slot_total_nonneg(rows, key@, 2);
                lemma_wrap_add(slot_total(rows, key@, 0), amount as int);
                lemma_wrap_add(slot_total(rows, key@, 1), amount as int);
                lemma_wrap_add(slot_total(rows, key@, 2), amount as int);
            }
            let mut e: (String, DayTokens) = (
                String::new(),
                DayTokens { output_tokens: 0, hit_tokens: 0, miss_tokens: 0 },
            );
            out.set_and_swap(i, &mut e);
            if slot == 0 {
                e.1.output_tokens = e.1.output_tokens.wrapping_add(amount);
            } else if slot == 1 {
                e.1.hit_tokens = e.1.hit_tokens.wrapping_add(amount);
            } else if slot == 2 {
                e.1.miss_tokens = e.1.miss_tokens.wrapping_add(amount);
            }
            out.set(i, e);
            proof {
                let e2 = out@[i as int];
                assert(out@ =~= orig.update(i as int, e2));
                assert(e2.1 == totals_of(rows2, key@));
                lemma_entry_first(out@, key@, i as int);
                assert forall|k: Seq<char>| k != key@ implies #[trigger] entry_of(out@, k) == entry_of(
                    orig,
                    k,
                ) by {
                    lemma_entry_update_other(orig, i as int, e2, k);
                }
                lemma_unique_update(orig, i as int, e2);
            }
        },
        None => {
            proof {
                lemma_entry_none(orig, key@);
                lemma_total_absent(rows, key@, 0);
                lemma_total_absent(rows, key@, 1);
                lemma_total_absent(rows, key@, 2);
                vstd::arithmetic::div_mod::lemma_small_mod(amount as nat, 0x1_0000_0000_0000_0000nat);
                vstd::arithmetic::div_mod::lemma_small_mod(0nat, 0x1_0000_0000_0000_0000nat);
            }
            let t = DayTokens {
                output_tokens: if slot == 0 { amount } else { 0 },
                hit_tokens: if slot == 1 { amount } else { 0 },
                miss_tokens: if slot == 2 { amount } else { 0 },
            };
            assert(t == totals_of(rows2, key@));
            out.push((key, t));
            proof {
                let e2 = out@.last();
                assert(out@ =~= orig.push(e2));
                assert forall|k: Seq<char>| #[trigger] entry_of(out@, k) == (if k == key@ {
                    Some(t)
                } else {
                    entry_of(orig, k)
                }) by {
                    lemma_entry_push(orig, e2, k);
                }
                lemma_unique_push(orig, e2);
            }
        },
    }
}

proof fn lemma_slot_total_nonneg(rows: Seq<(Seq<char>, int, int)>, key: Seq<char>, slot: int)
    requires
        forall|i: int| 0 <= i < rows.len() ==> (#[trigger] rows[i]).2 >= 0,
    ensures
        slot_total(rows, key, slot) >= 0,
    decreases rows.len(),
{
    if rows.len() > 0 {
        assert(rows.last() == rows[rows.len() - 1]);
        assert forall|i: int| 0 <= i < rows.drop_last().len() implies (#[trigger] rows.drop_last()[i]).2 >= 0 by {
            assert(rows.drop_last()[i] == rows[i]);
        }
        lemma_slot_total_nonneg(rows.drop_last(), key, slot);
    }
}

} // verus!

verus! {

// ------------------------------------------------------------------ export records

/// The usage slot of an amount record's `type` field.
pub open spec fn usage_slot(ty: Seq<char>) -> int {
    if ty == "output_tokens"@ {
        0
    } else if ty == "input_cache_hit_tokens"@ {
        1
    } else if ty == "input_cache_miss_tokens"@ {
        2
    } else {
        3
    }
}

/// A record's date key: the first ten bytes of its `start_time_iso` field.
pub open spec fn record_date(fs: Seq<Seq<char>>) -> Option<Seq<char>> {
    if fs.len() > 1 {
        byte_prefix(fs[1], 10)
    } else {
        None
    }
}

/// One record of the amount export (`user_id,start_time_iso,end_time_iso,model,
/// api_key_name,api_key,type,price,amount`): `None` where it is skipped, else
/// (key, slot, amount). By day every record counts under its date; by model only
/// the `output_tokens` records of a named model count.
pub open spec fn amount_record(fs: Seq<Seq<char>>, by_model: bool) -> Result<Option<(Seq<char>, int, int)>, Seq<char>> {
    if all_empty(fs) {
        Ok(None)
    } else if by_model {
        if field(fs, 3).len() == 0 || field(fs, 6) != "output_tokens"@ {
            Ok(None)
        } else {
            match u64_value(field(fs, 8)) {
                None => Err("amount 非数字: "@ + field(fs, 8)),
                Some(n) => Ok(Some((field(fs, 3), 0, n))),
            }
        }
    } else {
        match record_date(fs) {
            None => Err("amount CSV 缺少日期"@),
            Some(d) => match u64_value(field(fs, 8)) {
                None => Err("amount 非数字: "@ + field(fs, 8)),
                Some(n) => Ok(Some((d, usage_slot(field(fs, 6)), n))),
            },
        }
    }
}

/// The usage rows of the amount records, in order, or the first error.
pub open spec fn amount_scan(recs: Seq<Result<Seq<Seq<char>>, Seq<char>>>, by_model: bool) -> Result<
    Seq<(Seq<char>, int, int)>,
    Seq<char>,
>
    decreases recs.len(),
{
    if recs.len() == 0 {
        Ok(Seq::empty())
    } else {
        match amount_scan(recs.drop_last(), by_model) {
            Err(e) => Err(e),
            Ok(rows) => match recs.last() {
                Err(e) => Err("amount CSV 解析失败: "@ + e),
                Ok(fs) => match amount_record(fs, by_model) {
                    Err(e) => Err(e),
                    Ok(None) => Ok(rows),
                    Ok(Some(r)) => Ok(rows.push(r)),
                },
            },
        }
    }
}

proof fn lemma_amount_scan_err(recs: Seq<Result<Seq<Seq<char>>, Seq<char>>>, by_model: bool, m: int)
    requires
        0 <= m <= recs.len(),
        amount_scan(recs.take(m), by_model) is Err,
    ensures
        amount_scan(recs, by_model) == amount_scan(recs.take(m), by_model),
    decreases recs.len() - m,
{
    if m < recs.len() {
        assert(recs.take(m + 1).drop_last() =~= recs.take(m));
        lemma_amount_scan_err(recs, by_model, m + 1);
    } else {
        assert(recs.take(m) =~= recs);
    }
}

proof fn lemma_amount_rows_nonneg(recs: Seq<Result<Seq<Seq<char>>, Seq<char>>>, by_model: bool)
    ensures
        amount_scan(recs, by_model) matches Ok(rows) ==> forall|i: int|
            0 <= i < rows.len() ==> (#[trigger] rows[i]).2 >= 0,
    decreases recs.len(),
{
    if recs.len() > 0 {
        lemma_amount_rows_nonneg(recs.drop_last(), by_model);
    }
}

fn concat_text(a: &str, b: &str) -> (r: String)
    ensures
        r@ == a@ + b@,
{
    let mut r = a.to_string();
    r.append(b);
    r
}

fn date_of_record(fs: &Vec<String>) -> (r: Option<String>)
    ensures
        text_opt(r) == record_date(fields_view(*fs)),
{
    if fs.len() > 1 {
        assert(fields_view(*fs)[1] == fs@[1]@);
        byte_prefix_exec(fs[1].as_str(), 10)
    } else {
        None
    }
}

fn amount_record_exec(fs: &Vec<String>, by_model: bool) -> (r: Result<Option<(String, u8, u64)>, String>)
    ensures
        match r {
            Ok(None) => amount_record(fields_view(*fs), by_model) == Ok::<
                Option<(Seq<char>, int, int)>,
                Seq<char>,
            >(None),
            Ok(Some(x)) => amount_record(fields_view(*fs), by_model) == Ok::<
                Option<(Seq<char>, int, int)>,
                Seq<char>,
            >(Some((x.0@, x.1 as int, x.2 as int))) && x.1 <= 3,
            Err(e) => amount_record(fields_view(*fs), by_model) == Err::<
                Option<(Seq<char>, int, int)>,
                Seq<char>,
            >(e@),
        },
{
    if all_empty_exec(fs) {
        return Ok(None);
    }
    let f8 = field_at(fs, 8);
    if by_model {
        let model = field_at(fs, 3);
        let ty = field_at(fs, 6);
        if model.unicode_len() == 0 || !text_eq(ty, "output_tokens") {
            return Ok(None);
        }
        match parse_u64(f8) {
            None => Err(concat_text("amount 非数字: ", f8)),
            Some(n) => Ok(Some((model.to_string(), 0, n))),
        }
    } else {
        match date_of_record(fs) {
            None => Err("amount CSV 缺少日期".to_string()),
            Some(d) => {
                let ty = field_at(fs, 6);
                let slot: u8 = if text_eq(ty, "output_tokens") {
                    0
                } else if text_eq(ty, "input_cache_hit_tokens") {
                    1
                } else if text_eq(ty, "input_cache_miss_tokens") {
                    2
                } else {
                    3
                };
                match parse_u64(f8) {
                    None => Err(concat_text("amount 非数字: ", f8)),
                    Some(n) => Ok(Some((d, slot, n))),
                }
            },
        }
    }
}

/// Totals of the amount export's rows, by date or by model.
fn tally_amounts(amount_text: &str, by_model: bool) -> (r: Result<Vec<(String, DayTokens)>, String>)
    ensures
        match r {
            Ok(v) => amount_scan(csv_records(strip_bom(amount_text@)), by_model) matches Ok(rows)
                && totals_match(v@, rows),
            Err(e) => amount_scan(csv_records(strip_bom(amount_text@)), by_model) == Err::<
                Seq<(Seq<char>, int, int)>,
                Seq<char>,
            >(e@),
        },
{
    let text = strip_bom_exec(amount_text);
    let recs = read_csv(text.as_str());
    tally_amount_records(&recs, by_model)
}

/// Token totals of the amount export's records (each a record's fields, or the
/// error met reading it), by platform-local date or (`by_model`) by model; the
/// first error where a record is unreadable or malformed.
pub fn tally_amount_records(recs: &Vec<Result<Vec<String>, String>>, by_model: bool) -> (r: Result<Vec<(String, DayTokens)>, String>)
    ensures
        match r {
            Ok(v) => amount_scan(records_view(recs@), by_model) matches Ok(rows)
                && totals_match(v@, rows),
            Err(e) => amount_scan(records_view(recs@), by_model) == Err::<
                Seq<(Seq<char>, int, int)>,
                Seq<char>,
            >(e@),
        },
{
    let ghost rv = records_view(recs@);
    let mut out: Vec<(String, DayTokens)> = Vec::new();
    let ghost mut rows: Seq<(Seq<char>, int, int)> = Seq::empty();
    let mut n: usize = 0;
    assert(rv.take(0) =~= Seq::<Result<Seq<Seq<char>>, Seq<char>>>::empty());
    assert forall|k: Seq<char>| #[trigger] entry_of(out@, k) == (if has_row(rows, k) {
        Some(totals_of(rows, k))
    } else {
        None
    }) by {}
    while n < recs.len()
        invariant
            n <= recs@.len(),
            rv == records_view(recs@),
            amount_scan(rv.take(n as int), by_model) == Ok::<
                Seq<(Seq<char>, int, int)>,
                Seq<char>,
            >(rows),
            totals_match(out@, rows),
        decreases recs.len() - n,
    {
        proof {
            assert(rv.take(n + 1).drop_last() =~= rv.take(n as int));
            assert(rv.take(n + 1).last() == rv[n as int]);
            assert(rv[n as int] == record_view(recs@[n as int]));
            lemma_amount_rows_nonneg(rv.take(n as int), by_model);
        }
        match &recs[n] {
            Err(e) => {
                let msg = concat_text("amount CSV 解析失败: ", e.as_str());
                proof {
                    lemma_amount_scan_err(rv, by_model, n + 1);
                }
                return Err(msg);
            },
            Ok(fs) => {
                match amount_record_exec(fs, by_model) {
                    Err(e) => {
                        proof {
                            lemma_amount_scan_err(rv, by_model, n + 1);
                        }
                        return Err(e);
                    },
                    Ok(None) => {},
                    Ok(Some((key, slot, amount))) => {
                        accumulate(&mut out, key, slot, amount, Ghost(rows));
                        proof {
                            rows = rows.push((key@, slot as int, amount as int));
                        }
                    },
                }
            },
        }
        n = n + 1;
    }
    assert(rv.take(recs@.len() as int) =~= rv);
    Ok(out)
}

/// Output, cache-hit and cache-miss token totals of the amount export, by
/// platform-local date (`YYYY-MM-DD`); the first error where a record is unreadable.
pub fn day_token_totals(amount_text: &str) -> (r: Result<Vec<(String, DayTokens)>, String>)
    ensures
        match r {
            Ok(v) => amount_scan(csv_records(strip_bom(amount_text@)), false) matches Ok(rows)
                && totals_match(v@, rows),
            Err(e) => amount_scan(csv_records(strip_bom(amount_text@)), false) == Err::<
                Seq<(Seq<char>, int, int)>,
                Seq<char>,
            >(e@),
        },
{
    tally_amounts(amount_text, false)
}

/// Output token totals of the amount export, by model (in `output_tokens`).
pub fn model_token_totals(amount_text: &str) -> (r: Result<Vec<(String, DayTokens)>, String>)
    ensures
        match r {
            Ok(v) => amount_scan(csv_records(strip_bom(amount_text@)), true) matches Ok(rows)
                && totals_match(v@, rows),
            Err(e) => amount_scan(csv_records(strip_bom(amount_text@)), true) == Err::<
                Seq<(Seq<char>, int, int)>,
                Seq<char>,
            >(e@),
        },
{
    tally_amounts(amount_text, true)
}

} // verus!

verus! {

/// One record of the cost export (`user_id,start_time_iso,end_time_iso,model,
/// wallet_type,cost,currency`): `None` where it is skipped, else (key, cost text),
/// the key being the date, or the model (records without one are skipped).
pub open spec fn cost_record(fs: Seq<Seq<char>>, by_model: bool) -> Result<Option<(Seq<char>, Seq<char>)>, Seq<char>> {
    if all_empty(fs) {
        Ok(None)
    } else if by_model {
        if field(fs, 3).len() == 0 {
            Ok(None)
        } else {
            Ok(Some((field(fs, 3), field(fs, 5))))
        }
    } else {
        match record_date(fs) {
            None => Err("cost CSV 缺少日期"@),
            Some(d) => Ok(Some((d, field(fs, 5)))),
        }
    }
}

/// The cost rows before the first unreadable record, and that record's error.
pub open spec fn cost_scan(recs: Seq<Result<Seq<Seq<char>>, Seq<char>>>, by_model: bool) -> (
    Seq<(Seq<char>, Seq<char>)>,
    Option<Seq<char>>,
)
    decreases recs.len(),
{
    if recs.len() == 0 {
        (Seq::empty(), None)
    } else {
        let (rows, err) = cost_scan(recs.drop_last(), by_model);
        if err is Some {
            (rows, err)
        } else {
            match recs.last() {
                Err(e) => (rows, Some("cost CSV 解析失败: "@ + e)),
                Ok(fs) => match cost_record(fs, by_model) {
                    Err(e) => (rows, Some(e)),
                    Ok(None) => (rows, None),
                    Ok(Some(r)) => (rows.push(r), None),
                },
            }
        }
    }
}

proof fn lemma_cost_scan_err(recs: Seq<Result<Seq<Seq<char>>, Seq<char>>>, by_model: bool, m: int)
    requires
        0 <= m <= recs.len(),
        cost_scan(recs.take(m), by_model).1 is Some,
    ensures
        cost_scan(recs, by_model) == cost_scan(recs.take(m), by_model),
    decreases recs.len() - m,
{
    if m < recs.len() {
        assert(recs.take(m + 1).drop_last() =~= recs.take(m));
        lemma_cost_scan_err(recs, by_model, m + 1);
    } else {
        assert(recs.take(m) =~= recs);
    }
}

pub open spec fn pairs_view(v: Seq<(String, String)>) -> Seq<(Seq<char>, Seq<char>)> {
    v.map_values(|p: (String, String)| (p.0@, p.1@))
}

/// The cost rows of the cost export, by date or by model: each row's key and its
/// `cost` field as written, up to the first record that cannot be read, whose
/// error comes second.
fn cost_rows(cost_text: &str, by_model: bool) -> (r: (Vec<(String, String)>, Option<String>))
    ensures
        (pairs_view(r.0@), text_opt(r.1)) == cost_scan(csv_records(strip_bom(cost_text@)), by_model),
{
    let text = strip_bom_exec(cost_text);
    let recs = read_csv(text.as_str());
    cost_record_rows(&recs, by_model)
}

/// The cost rows of the cost export's records (each a record's fields, or the error
/// met reading it): (date or, `by_model`, model, cost text), up to the first record
/// that cannot be read or has no date, whose error comes second.
pub fn cost_record_rows(recs: &Vec<Result<Vec<String>, String>>, by_model: bool) -> (r: (Vec<(String, String)>, Option<String>))
    ensures
        (pairs_view(r.0@), text_opt(r.1)) == cost_scan(records_view(recs@), by_model),
{
    let ghost rv = records_view(recs@);
    let mut out: Vec<(String, String)> = Vec::new();
    let mut n: usize = 0;
    assert(rv.take(0) =~= Seq::<Result<Seq<Seq<char>>, Seq<char>>>::empty());
    assert(pairs_view(out@) =~= Seq::<(Seq<char>, Seq<char>)>::empty());
    while n < recs.len()
        invariant
            n <= recs@.len(),
            rv == records_view(recs@),
            cost_scan(rv.take(n as int), by_model) == (pairs_view(out@), None::<Seq<char>>),
        decreases recs.len() - n,
    {
        proof {
            assert(rv.take(n + 1).drop_last() =~= rv.take(n as int));
            assert(rv.take(n + 1).last() == rv[n as int]);
            assert(rv[n as int] == record_view(recs@[n as int]));
        }
        match &recs[n] {
            Err(e) => {
                let msg = concat_text("cost CSV 解析失败: ", e.as_str());
                proof {
                    lemma_cost_scan_err(rv, by_model, n + 1);
                }
                return (out, Some(msg));
            },
            Ok(fs) => {
                if !all_empty_exec(fs) {
                    if by_model {
                        let model = field_at(fs, 3);
                        if model.unicode_len() > 0 {
                            let c = field_at(fs, 5);
                            let ghost before = pairs_view(out@);
                            out.push((model.to_string(), c.to_string()));
                            assert(pairs_view(out@) =~= before.push((model@, c@)));
                        }
                    } else {
                        match date_of_record(fs) {
                            None => {
                                proof {
                                    lemma_cost_scan_err(rv, by_model, n + 1);
                                }
                                return (out, Some("cost CSV 缺少日期".to_string()));
                            },
                            Some(d) => {
                                let c = field_at(fs, 5);
                                let ghost before = pairs_view(out@);
                                let ghost dv = d@;
                                out.push((d, c.to_string()));
                                assert(pairs_view(out@) =~= before.push((dv, c@)));
                            },
                        }
                    }
                }
            },
        }
        n = n + 1;
    }
    assert(rv.take(recs@.len() as int) =~= rv);
    (out, None)
}

/// The cost rows of the cost export by platform-local date: (date, cost text),
/// up to the first record that cannot be read, whose error comes second.
pub fn day_cost_rows(cost_text: &str) -> (r: (Vec<(String, String)>, Option<String>))
    ensures
        (pairs_view(r.0@), text_opt(r.1)) == cost_scan(csv_records(strip_bom(cost_text@)), false),
{
    cost_rows(cost_text, false)
}

/// The cost rows of the cost export by model: (model, cost text), up to the first
/// record that cannot be read, whose error comes second.
pub fn model_cost_rows(cost_text: &str) -> (r: (Vec<(String, String)>, Option<String>))
    ensures
        (pairs_view(r.0@), text_opt(r.1)) == cost_scan(csv_records(strip_bom(cost_text@)), true),
{
    cost_rows(cost_text, true)
}

} // verus!

verus! {

// ------------------------------------------------------------------ one day's lines

/// The lines of a text as `str::lines` yields them: each `\n` ends a line and is
/// dropped with a `\r` just before it; nothing follows a final `\n`.
pub open spec fn text_lines(s: Seq<char>) -> Seq<Seq<char>>
    decreases s.len(),
{
    if s.len() == 0 {
        Seq::empty()
    } else {
        let p = pos_of(s, '\n', '\n');
        if 0 <= p < s.len() {
            seq![line_body(s.take(p))] + text_lines(s.skip(p + 1))
        } else {
            seq![s]
        }
    }
}

/// A line without the `\r` of a `\r\n` ending.
pub open spec fn line_body(l: Seq<char>) -> Seq<char> {
    if l.len() > 0 && l.last() == '\r' {
        l.drop_last()
    } else {
        l
    }
}

/// Whether a line of an export stays when filtering for day `day`: the header (with
/// or without a byte-order mark) and lines with fewer than two commas stay; a data line stays when the first ten
/// bytes of its second field are `day`.
pub open spec fn keep_line(line: Seq<char>, day: Seq<char>) -> bool {
    let l = strip_bom(line);
    let c1 = pos_of(l, ',', ',');
    if c1 >= l.len() {
        true
    } else {
        let rest = l.skip(c1 + 1);
        let c2 = pos_of(rest, ',', ',');
        if c2 >= rest.len() {
            true
        } else if starts_with(l, "user_id"@) {
            true
        } else {
            byte_prefix(rest.take(c2), 10) == Some(day)
        }
    }
}

pub open spec fn kept_lines(ls: Seq<Seq<char>>, day: Seq<char>) -> Seq<Seq<char>>
    decreases ls.len(),
{
    if ls.len() == 0 {
        Seq::empty()
    } else if keep_line(ls.last(), day) {
        kept_lines(ls.drop_last(), day).push(ls.last())
    } else {
        kept_lines(ls.drop_last(), day)
    }
}

/// The lines of `text` that stay for day `day`, joined with `\n`.
pub open spec fn day_lines(text: Seq<char>, day: Seq<char>) -> Seq<char> {
    join_seq(kept_lines(text_lines(text), day), seq!['\n'])
}

fn keep_line_exec(line: &[char], day: &str) -> (r: bool)
    ensures
        r == keep_line(line@, day@),
{
    let l: Vec<char> = if line.len() > 0 && line[0] == '\u{feff}' {
        copy_range(line, 1, line.len())
    } else {
        copy_range(line, 0, line.len())
    };
    assert(l@ =~= strip_bom(line@));
    let n = l.len();
    let c1 = pos_of_range(&l, 0, n, ',', ',');
    assert(l@.subrange(0, n as int) =~= l@);
    if c1 >= n {
        return true;
    }
    proof {
        lemma_pos_of_bound(l@, ',', ',');
    }
    let c2 = pos_of_range(&l, c1 + 1, n, ',', ',');
    assert(l@.subrange(c1 + 1, n as int) =~= l@.skip(c1 + 1));
    if c2 >= n {
        return true;
    }
    if starts_with_exec(&l, "user_id") {
        return true;
    }
    let date = copy_range(&l, c1 + 1, c2);
    assert(date@ =~= l@.skip(c1 + 1).take(c2 - (c1 + 1)));
    let ds = string_of(&date);
    match byte_prefix_exec(ds.as_str(), 10) {
        Some(t) => text_eq(t.as_str(), day),
        None => false,
    }
}

/// The lines of an export that concern day `day` (`YYYY-MM-DD`), with the header
/// and any line without two commas, joined with `\n`.
pub fn filter_day_lines(text: &str, day: &str) -> (r: String)
    ensures
        r@ == day_lines(text@, day@),
{
    let s = chars_of(text);
    let n = s.len();
    let mut out = String::new();
    let mut a: usize = 0;
    let mut none_kept = true;
    let ghost mut done: Seq<Seq<char>> = Seq::empty();
    assert(s@.skip(0) =~= s@);
    while a < n
        invariant
            a <= n,
            n == s@.len(),
            s@ == text@,
            text_lines(s@) == done + text_lines(s@.skip(a as int)),
            out@ == join_seq(kept_lines(done, day@), seq!['\n']),
            none_kept == (kept_lines(done, day@).len() == 0),
        decreases n - a,
    {
        let ghost t = s@.skip(a as int);
        let q = pos_of_range(&s, a, n, '\n', '\n');
        proof {
            assert(s@.subrange(a as int, n as int) =~= t);
            lemma_pos_of_bound(t, '\n', '\n');
        }
        let mut e = q;
        if e > a && s[e - 1] == '\r' && q < n {
            e = e - 1;
        }
        let line = copy_range(&s, a, e);
        proof {
            if q < n {
                assert(t.take(q - a) =~= s@.subrange(a as int, q as int));
                assert(line@ =~= line_body(t.take(q - a)));
                assert(t.skip(q - a + 1) =~= s@.skip(q + 1));
                assert(text_lines(t) == seq![line@] + text_lines(s@.skip(q + 1)));
            } else {
                assert(line@ =~= t);
                assert(text_lines(t) == seq![line@]);
            }
        }
        let ghost old_kept = kept_lines(done, day@);
        let keep = keep_line_exec(&line, day);
        if keep {
            if !none_kept {
                push_char(&mut out, '\n');
            }
            append_chars(&mut out, &line);
            none_kept = false;
        }
        proof {
            let d2 = done.push(line@);
            assert(d2.drop_last() =~= done);
            if keep {
                assert(kept_lines(d2, day@) == old_kept.push(line@));
                assert(old_kept.push(line@).drop_last() =~= old_kept);
            }
            done = d2;
        }
        if q >= n {
            a = n;
            proof {
                assert(s@.skip(n as int) =~= Seq::<char>::empty());
                assert(text_lines(s@) =~= done + text_lines(s@.skip(a as int)));
            }
        } else {
            a = q + 1;
            proof {
                assert(text_lines(s@) =~= done + text_lines(s@.skip(a as int)));
            }
        }
    }
    proof {
        assert(s@.skip(n as int) =~= Seq::<char>::empty());
        assert(done =~= text_lines(s@));
    }
    out
}

} // verus!
