//! Template text: `{ref:format}` placeholders, value display, currency symbols.
//!
//! Number formats (money, percent, number, compact) are floating point and are
//! applied outside this library; this module parses the templates and turns JSON
//! values into the text that those formats start from.

use vstd::prelude::*;
use crate::json::{Json, JsonV};
use crate::expr::pos_of;
use crate::text::{chars_of, copy_range, trim, trim_chars, string_of, append_chars};
use crate::path::{resolve, resolve_path};

verus! {

broadcast use vstd::string::group_string_axioms;


/// Most bars a series shows.
pub const BARS_MAX: usize = 14;

/// One piece of a value template.
pub enum Piece {
    /// Literal text.
    Text(String),
    /// A placeholder: reference name and optional format, both trimmed.
    Slot(String, Option<String>),
}

pub enum PieceV {
    Text(Seq<char>),
    Slot(Seq<char>, Option<Seq<char>>),
}

impl View for Piece {
    type V = PieceV;

    open spec fn view(&self) -> PieceV {
        match self {
            Piece::Text(t) => PieceV::Text(t@),
            Piece::Slot(n, f) => PieceV::Slot(
                n@,
                match f {
                    Some(x) => Some(x@),
                    None => None,
                },
            ),
        }
    }
}

pub open spec fn pieces_view(ps: Seq<Piece>) -> Seq<PieceV> {
    ps.map_values(|p: Piece| p@)
}

/// The placeholder `name[:format]` split at its first ':' and trimmed.
pub open spec fn slot_of(token: Seq<char>) -> PieceV {
    let c = pos_of(token, ':', ':');
    if c < token.len() {
        PieceV::Slot(trim(token.take(c)), Some(trim(token.skip(c + 1))))
    } else {
        PieceV::Slot(trim(token), None)
    }
}

/// The pieces of a template: text before each `{`, the placeholder up to the next
/// `}`; a `{` with no `}` after it is dropped and the rest is text.
pub open spec fn template_pieces(t: Seq<char>) -> Seq<PieceV>
    decreases t.len(),
{
    let s = pos_of(t, '{', '{');
    if s >= t.len() {
        seq![PieceV::Text(t)]
    } else {
        let after = t.skip(s + 1);
        let e = pos_of(after, '}', '}');
        proof {
            crate::expr::lemma_pos_of_bound(t, '{', '{');
            crate::expr::lemma_pos_of_bound(after, '}', '}');
        }
        if e >= after.len() {
            seq![PieceV::Text(t.take(s)), PieceV::Text(after)]
        } else {
            seq![PieceV::Text(t.take(s)), slot_of(after.take(e))] + template_pieces(after.skip(e + 1))
        }
    }
}

fn slot_exec(t: &[char], a: usize, b: usize) -> (r: Piece)
    requires
        a <= b <= t@.len(),
    ensures
        r@ == slot_of(t@.subrange(a as int, b as int)),
{
    let ghost tok = t@.subrange(a as int, b as int);
    let c = crate::expr::pos_of_range(t, a, b, ':', ':');
    if c < b {
        let n = copy_range(t, a, c);
        let f = copy_range(t, c + 1, b);
        assert(n@ =~= tok.take(c - a));
        assert(f@ =~= tok.skip(c - a + 1));
        let nt = trim_chars(&n);
        let ft = trim_chars(&f);
        Piece::Slot(string_of(&nt), Some(string_of(&ft)))
    } else {
        let n = copy_range(t, a, b);
        assert(n@ =~= tok);
        let nt = trim_chars(&n);
        Piece::Slot(string_of(&nt), None)
    }
}

/// Splits a value template into literal text and `{name[:format]}` placeholders.
pub fn parse_template(tpl: &str) -> (r: Vec<Piece>)
    ensures
        pieces_view(r@) == template_pieces(tpl@),
{
    let tc = chars_of(tpl);
    let n = tc.len();
    let mut out: Vec<Piece> = Vec::new();
    let mut pos: usize = 0;
    assert(tc@.skip(0) =~= tc@);
    assert(pieces_view(out@) =~= Seq::<PieceV>::empty());
    while pos < n
        invariant
            n == tc@.len(),
            tc@ == tpl@,
            pos <= n,
            template_pieces(tpl@) == pieces_view(out@) + template_pieces(tc@.skip(pos as int)),
        decreases n - pos,
    {
        let ghost rest = tc@.skip(pos as int);
        let ghost before = pieces_view(out@);
        let s = crate::expr::pos_of_range(&tc, pos, n, '{', '{');
        assert(tc@.subrange(pos as int, n as int) =~= rest);
        if s >= n {
            let txt = copy_range(&tc, pos, n);
            assert(txt@ =~= rest);
            out.push(Piece::Text(string_of(&txt)));
            assert(pieces_view(out@) =~= before + template_pieces(rest));
            return out;
        }
        let pre = copy_range(&tc, pos, s);
        assert(pre@ =~= rest.take(s - pos));
        let e = crate::expr::pos_of_range(&tc, s + 1, n, '}', '}');
        let ghost after = rest.skip(s - pos + 1);
        assert(after =~= tc@.subrange(s + 1, n as int));
        if e >= n {
            let txt = copy_range(&tc, s + 1, n);
            out.push(Piece::Text(string_of(&pre)));
            out.push(Piece::Text(string_of(&txt)));
            assert(pieces_view(out@) =~= before + template_pieces(rest));
            return out;
        }
        out.push(Piece::Text(string_of(&pre)));
        let slot = slot_exec(&tc, s + 1, e);
        assert(after.take(e - s - 1) =~= tc@.subrange(s + 1, e as int));
        out.push(slot);
        assert(after.skip(e - s) =~= tc@.skip(e + 1));
        assert(pieces_view(out@) =~= before + seq![PieceV::Text(rest.take(s - pos)), slot_of(after.take(e - s - 1))]);
        pos = e + 1;
    }
    assert(tc@.skip(pos as int) =~= Seq::<char>::empty());
    assert(pieces_view(out@) + template_pieces(tc@.skip(pos as int)) =~= pieces_view(out@)
        + seq![PieceV::Text(Seq::empty())]);
    out.push(Piece::Text(String::new()));
    assert(pieces_view(out@) =~= template_pieces(tpl@));
    out
}

} // verus!

verus! {

/// A table row: the row head, then at most three data cells.
#[derive(Clone, Debug, PartialEq)]
pub struct TableRow {
    pub name: String,
    pub cells: Vec<String>,
}

impl Default for TableRow {
    fn default() -> (r: TableRow)
        ensures
            r.name@.len() == 0,
            r.cells@.len() == 0,
    {
        TableRow { name: String::new(), cells: Vec::new() }
    }
}

pub open spec fn currency_symbol_of(upper: Seq<char>) -> Seq<char> {
    if upper == "CNY"@ || upper == "RMB"@ {
        "¥"@
    } else if upper == "USD"@ {
        "$"@
    } else if upper == "EUR"@ {
        "€"@
    } else if upper == "JPY"@ {
        "¥"@
    } else if upper == "GBP"@ {
        "£"@
    } else if upper == "HKD"@ {
        "HK$"@
    } else if upper == "KRW"@ {
        "₩"@
    } else {
        ""@
    }
}

pub(crate) fn lit_eq(a: &[char], lit: &str) -> (r: bool)
    ensures
        r == (a@ == lit@),
{
    let b = chars_of(lit);
    crate::expr::chars_eq(a, &b)
}

/// Currency symbol for a currency code, in any case (`CNY` → `¥`); `""` when unknown.
pub fn currency_symbol(code: &str) -> (r: &'static str)
    ensures
        r@ == currency_symbol_of(crate::validate::ascii_upper(code@)),
{
    let c = chars_of(code);
    let u = crate::validate::upper_chars(&c);
    if lit_eq(&u, "CNY") || lit_eq(&u, "RMB") {
        "¥"
    } else if lit_eq(&u, "USD") {
        "$"
    } else if lit_eq(&u, "EUR") {
        "€"
    } else if lit_eq(&u, "JPY") {
        "¥"
    } else if lit_eq(&u, "GBP") {
        "£"
    } else if lit_eq(&u, "HKD") {
        "HK$"
    } else if lit_eq(&u, "KRW") {
        "₩"
    } else {
        ""
    }
}

/// Whether a rendered value counts as empty: blank, or the `--` placeholder.
pub fn is_empty(v: &str) -> (r: bool)
    ensures
        r == (trim(v@).len() == 0 || v@ == "--"@),
{
    let c = chars_of(v);
    let t = trim_chars(&c);
    t.len() == 0 || lit_eq(&c, "--")
}

/// The text a JSON value shows as: a string as it is, a number as its text,
/// `true`/`false`, and `--` for anything else.
pub open spec fn display_text(v: JsonV) -> Seq<char> {
    match v {
        JsonV::String(s) => s,
        JsonV::Number(n) => n,
        JsonV::Bool(b) => if b { "true"@ } else { "false"@ },
        _ => "--"@,
    }
}

pub fn display_string(v: &Json) -> (r: String)
    ensures
        r@ == display_text(v@),
{
    match v {
        Json::String(s) => s.clone(),
        Json::Number(n) => n.clone(),
        Json::Bool(b) => if *b { "true".to_string() } else { "false".to_string() },
        _ => "--".to_string(),
    }
}

/// The value of the first member named `k` of a name → value map.
pub open spec fn map_get(m: Seq<(String, Json)>, k: Seq<char>) -> Option<JsonV>
    decreases m.len(),
{
    if m.len() == 0 {
        None
    } else if m[0].0@ == k {
        Some(m[0].1@)
    } else {
        map_get(m.drop_first(), k)
    }
}

pub fn map_lookup<'a>(m: &'a Vec<(String, Json)>, k: &[char]) -> (r: Option<&'a Json>)
    ensures
        match r {
            Some(x) => map_get(m@, k@) == Some(x@),
            None => map_get(m@, k@) is None,
        },
{
    let mut i: usize = 0;
    assert(m@.skip(0) =~= m@);
    while i < m.len()
        invariant
            i <= m@.len(),
            map_get(m@, k@) == map_get(m@.skip(i as int), k@),
        decreases m.len() - i,
    {
        assert(m@.skip(i as int)[0] == m@[i as int]);
        assert(m@.skip(i as int).drop_first() =~= m@.skip(i + 1));
        let kc = chars_of(m[i].0.as_str());
        if crate::expr::chars_eq(&kc, k) {
            return Some(&m[i].1);
        }
        i = i + 1;
    }
    None
}

/// `<namespace>.<path>` split at the first '.', after trimming.
pub open spec fn split_ref(spec: Seq<char>) -> Option<(Seq<char>, Seq<char>)> {
    let t = trim(spec);
    let d = pos_of(t, '.', '.');
    if d < t.len() {
        Some((t.take(d), t.skip(d + 1)))
    } else {
        None
    }
}

fn split_ref_exec(spec: &str) -> (r: Option<(Vec<char>, String)>)
    ensures
        match (r, split_ref(spec@)) {
            (Some((a, b)), Some((x, y))) => a@ == x && b@ == y,
            (None, None) => true,
            _ => false,
        },
{
    let c = chars_of(spec);
    let t = trim_chars(&c);
    let n = t.len();
    let d = crate::expr::pos_of_range(&t, 0, n, '.', '.');
    assert(t@.subrange(0, n as int) =~= t@);
    if d < n {
        let a = copy_range(&t, 0, d);
        let b = copy_range(&t, d + 1, n);
        assert(a@ =~= t@.take(d as int));
        assert(b@ =~= t@.skip(d + 1));
        Some((a, string_of(&b)))
    } else {
        None
    }
}

/// The value a table's `from` reference names: `extras.<key>` in the extras map,
/// `<endpoint>.<path>` inside that endpoint's data.
pub open spec fn from_value(spec: Seq<char>, extras: Seq<(String, Json)>, endpoints: Seq<(String, Json)>) -> Option<JsonV> {
    match split_ref(spec) {
        None => None,
        Some((ns, path)) => if ns == "extras"@ {
            map_get(extras, path)
        } else {
            match map_get(endpoints, ns) {
                Some(m) => resolve_path(m, path),
                None => None,
            }
        },
    }
}

/// The objects of the array that a table's `from` reference names, in order;
/// nothing when the value is missing or not an array.
pub open spec fn from_objects(spec: Seq<char>, extras: Seq<(String, Json)>, endpoints: Seq<(String, Json)>) -> Seq<JsonV> {
    match from_value(spec, extras, endpoints) {
        Some(JsonV::Array(a)) => a.filter(|v: JsonV| v is Object),
        _ => Seq::empty(),
    }
}

fn endpoint_value<'a>(ns: &[char], path: &str, endpoints: &'a Vec<(String, Json)>) -> (r: Option<&'a Json>)
    ensures
        match r {
            Some(x) => (match map_get(endpoints@, ns@) {
                Some(m) => resolve_path(m, path@),
                None => None,
            }) == Some(x@),
            None => (match map_get(endpoints@, ns@) {
                Some(m) => resolve_path(m, path@),
                None => None,
            }) is None,
        },
{
    match map_lookup(endpoints, ns) {
        Some(m) => resolve(m, path),
        None => None,
    }
}

/// The objects of the array that a table's `from` reference names (dynamic rows).
pub fn resolve_objects<'a>(
    spec: &str,
    extras: &'a Vec<(String, Json)>,
    endpoints: &'a Vec<(String, Json)>,
) -> (r: Vec<&'a Json>)
    ensures
        r@.map_values(|j: &Json| j@) == from_objects(spec@, extras@, endpoints@),
{
    let (ns, path) = match split_ref_exec(spec) {
        Some(x) => x,
        None => {
            let r: Vec<&Json> = Vec::new();
            assert(r@.map_values(|j: &Json| j@) =~= Seq::<JsonV>::empty());
            return r;
        },
    };
    let val = if lit_eq(&ns, "extras") {
        let pc = chars_of(path.as_str());
        map_lookup(extras, &pc)
    } else {
        endpoint_value(&ns, path.as_str(), endpoints)
    };
    let mut out: Vec<&Json> = Vec::new();
    match val {
        Some(Json::Array(a)) => {
            proof {
                crate::path::lemma_container_views(Json::Array(*a));
            }
            let ghost items = crate::path::items_view(a@);
            let mut i: usize = 0;
            assert(items.take(0).filter(|v: JsonV| v is Object) =~= Seq::<JsonV>::empty());
            while i < a.len()
                invariant
                    i <= a@.len(),
                    items == crate::path::items_view(a@),
                    out@.map_values(|j: &Json| j@) == items.take(i as int).filter(|v: JsonV| v is Object),
                decreases a.len() - i,
            {
                let is_obj = match &a[i] {
                    Json::Object(_) => true,
                    _ => false,
                };
                let ghost before = out@.map_values(|j: &Json| j@);
                assert(items.take(i + 1).drop_last() =~= items.take(i as int));
                proof {
                    reveal_with_fuel(Seq::<JsonV>::filter, 1);
                }
                assert(items[i as int] == a@[i as int]@);
                if is_obj {
                    out.push(&a[i]);
                    assert(out@.map_values(|j: &Json| j@) =~= before.push(a@[i as int]@));
                } else {
                    assert(out@.map_values(|j: &Json| j@) =~= before);
                }
                i = i + 1;
            }
            assert(items.take(a@.len() as int) =~= items);
            out
        },
        _ => {
            assert(out@.map_values(|j: &Json| j@) =~= Seq::<JsonV>::empty());
            out
        },
    }
}

} // verus!

verus! {

// ------------------------------------------------------------------ widget decisions

/// A rendered value counts as empty: blank, or the `--` placeholder.
pub open spec fn value_empty(v: Seq<char>) -> bool {
    trim(v).len() == 0 || v == "--"@
}

/// Whether a widget is shown, given its kind, its `hideEmpty` flag, its rendered
/// value, the length of its resolved series (`None`: no series resolved) and
/// whether its percent resolved. Series widgets need a series, `stack` two
/// segments, `bar` and `ring` a percent or a value; unknown kinds are not shown.
pub open spec fn widget_shown_spec(
    kind: Seq<char>,
    hide_empty: bool,
    value: Seq<char>,
    series: Option<nat>,
    has_percent: bool,
) -> bool {
    let keeps = !(hide_empty && value_empty(value));
    if kind == "balance"@ || kind == "kv"@ {
        keeps
    } else if kind == "note"@ || kind == "table"@ {
        true
    } else if kind == "bars"@ || kind == "ringshare"@ || kind == "ringseg"@ || kind == "hbar"@ {
        keeps && series is Some
    } else if kind == "stack"@ {
        keeps && (series matches Some(n) && n >= 2)
    } else if kind == "bar"@ || kind == "ring"@ {
        keeps && !(!has_percent && value == "--"@)
    } else {
        false
    }
}

pub fn widget_shown(
    kind: &str,
    hide_empty: bool,
    value: &str,
    series: Option<usize>,
    has_percent: bool,
) -> (r: bool)
    ensures
        r == widget_shown_spec(
            kind@,
            hide_empty,
            value@,
            match series {
                Some(n) => Some(n as nat),
                None => None,
            },
            has_percent,
        ),
{
    let k = chars_of(kind);
    let keeps = !(hide_empty && is_empty(value));
    let vc = chars_of(value);
    if lit_eq(&k, "balance") || lit_eq(&k, "kv") {
        keeps
    } else if lit_eq(&k, "note") || lit_eq(&k, "table") {
        true
    } else if lit_eq(&k, "bars") || lit_eq(&k, "ringshare") || lit_eq(&k, "ringseg") || lit_eq(
        &k,
        "hbar",
    ) {
        keeps && series.is_some()
    } else if lit_eq(&k, "stack") {
        keeps && match series {
            Some(n) => n >= 2,
            None => false,
        }
    } else if lit_eq(&k, "bar") || lit_eq(&k, "ring") {
        keeps && !(!has_percent && lit_eq(&vc, "--"))
    } else {
        false
    }
}

/// Most dynamic rows a table shows.
pub const TABLE_ROWS_MAX: usize = 8;

/// The rows a dynamic table shows, from the rows rendered for its objects in order:
/// among the first eight, those whose name is neither blank nor `--`.
pub open spec fn table_rows_kept(rows: Seq<TableRow>) -> Seq<TableRow>
    decreases rows.len(),
{
    if rows.len() == 0 {
        Seq::empty()
    } else if !value_empty(rows.last().name@) {
        table_rows_kept(rows.drop_last()).push(rows.last())
    } else {
        table_rows_kept(rows.drop_last())
    }
}

pub open spec fn pick_table_rows_spec(rows: Seq<TableRow>) -> Option<Seq<TableRow>> {
    let kept = table_rows_kept(rows.take(if rows.len() < 8 { rows.len() as int } else { 8 }));
    if kept.len() == 0 {
        None
    } else {
        Some(kept)
    }
}

/// The rows of a dynamic table; `None` (the table is hidden) when none is left.
pub fn pick_table_rows(rows: Vec<TableRow>) -> (r: Option<Vec<TableRow>>)
    ensures
        match r {
            Some(v) => pick_table_rows_spec(rows@) == Some(v@),
            None => pick_table_rows_spec(rows@) is None,
        },
{
    let ghost all = rows@;
    let ghost lim: int = if all.len() < 8 { all.len() as int } else { 8 };
    let mut rest = rows;
    let mut out: Vec<TableRow> = Vec::new();
    let mut n: usize = 0;
    assert(all.skip(0) =~= all);
    assert(all.take(0) =~= Seq::<TableRow>::empty());
    while n < TABLE_ROWS_MAX && rest.len() > 0
        invariant
            n <= TABLE_ROWS_MAX,
            n <= all.len(),
            lim == (if all.len() < 8 { all.len() as int } else { 8 }),
            n <= lim,
            rest@ == all.skip(n as int),
            out@ == table_rows_kept(all.take(n as int)),
        decreases rest.len(),
    {
        let row = rest.remove(0);
        proof {
            assert(row == all[n as int]);
            assert(rest@ =~= all.skip(n + 1));
            assert(all.take(n + 1).drop_last() =~= all.take(n as int));
            assert(all.take(n + 1).last() == row);
        }
        if !is_empty(row.name.as_str()) {
            out.push(row);
        }
        n = n + 1;
    }
    assert(n == lim);
    if out.len() == 0 {
        None
    } else {
        Some(out)
    }
}

/// The labels of a series reference `<endpoint>.<path>`: the string items of the
/// array it names, at most `BARS_MAX`; `None` when there is no such array or no
/// string in it.
pub open spec fn series_labels_of(spec: Seq<char>, endpoints: Seq<(String, Json)>) -> Option<Seq<Seq<char>>> {
    match split_ref(spec) {
        None => None,
        Some((ns, path)) => match map_get(endpoints, ns) {
            None => None,
            Some(m) => match resolve_path(m, path) {
                Some(JsonV::Array(a)) => {
                    let strs = string_items(a);
                    if strs.len() == 0 {
                        None
                    } else {
                        Some(strs.take(if strs.len() < 14 { strs.len() as int } else { 14 }))
                    }
                },
                _ => None,
            },
        },
    }
}

/// The texts of the string items of an array, in order.
pub open spec fn string_items(a: Seq<JsonV>) -> Seq<Seq<char>>
    decreases a.len(),
{
    if a.len() == 0 {
        Seq::empty()
    } else {
        match a.last() {
            JsonV::String(s) => string_items(a.drop_last()).push(s),
            _ => string_items(a.drop_last()),
        }
    }
}

pub open spec fn texts_view(v: Seq<String>) -> Seq<Seq<char>> {
    v.map_values(|s: String| s@)
}

/// The labels of a series (`usage.dayLabels`): the string items of the endpoint
/// array it names, at most `BARS_MAX`.
pub fn resolve_series_labels(spec: &str, endpoints: &Vec<(String, Json)>) -> (r: Option<Vec<String>>)
    ensures
        match r {
            Some(v) => series_labels_of(spec@, endpoints@) == Some(texts_view(v@)),
            None => series_labels_of(spec@, endpoints@) is None,
        },
{
    let (ns, path) = match split_ref_exec(spec) {
        Some(x) => x,
        None => return None,
    };
    let val = endpoint_value(&ns, path.as_str(), endpoints);
    match val {
        Some(Json::Array(a)) => {
            proof {
                crate::path::lemma_container_views(Json::Array(*a));
            }
            let ghost items = crate::path::items_view(a@);
            let mut strs: Vec<String> = Vec::new();
            let mut i: usize = 0;
            assert(items.take(0) =~= Seq::<JsonV>::empty());
            assert(texts_view(strs@) =~= Seq::<Seq<char>>::empty());
            while i < a.len()
                invariant
                    i <= a@.len(),
                    items == crate::path::items_view(a@),
                    texts_view(strs@) == string_items(items.take(i as int)),
                decreases a.len() - i,
            {
                assert(items.take(i + 1).drop_last() =~= items.take(i as int));
                assert(items[i as int] == a@[i as int]@);
                let ghost before = texts_view(strs@);
                match &a[i] {
                    Json::String(s) => {
                        strs.push(s.clone());
                        assert(texts_view(strs@) =~= before.push(s@));
                    },
                    _ => {},
                }
                i = i + 1;
            }
            assert(items.take(a@.len() as int) =~= items);
            if strs.len() == 0 {
                return None;
            }
            let ghost full = texts_view(strs@);
            let mut out: Vec<String> = Vec::new();
            let mut j: usize = 0;
            while j < strs.len() && j < BARS_MAX
                invariant
                    j <= strs@.len(),
                    j <= BARS_MAX,
                    full == texts_view(strs@),
                    texts_view(out@) == full.take(j as int),
                decreases strs.len() - j,
            {
                let ghost before = texts_view(out@);
                let x = strs[j].clone();
                assert(x@ == full[j as int]);
                out.push(x);
                assert(texts_view(out@) =~= before.push(full[j as int]));
                assert(full.take(j + 1) =~= full.take(j as int).push(full[j as int]));
                j = j + 1;
            }
            Some(out)
        },
        _ => None,
    }
}

} // verus!

verus! {

// ------------------------------------------------------------------ reference text

/// Where the text of a template reference comes from.
pub enum RefSource {
    /// The reference's text.
    Text(String),
    /// An amount of the balance (`balance.total` and the like), a number that the
    /// caller formats.
    BalanceAmount,
    /// Nothing: the placeholder shows `--`.
    Unresolved,
}

pub enum RefSourceV {
    Text(Seq<char>),
    BalanceAmount,
    Unresolved,
}

impl View for RefSource {
    type V = RefSourceV;

    open spec fn view(&self) -> RefSourceV {
        match self {
            RefSource::Text(t) => RefSourceV::Text(t@),
            RefSource::BalanceAmount => RefSourceV::BalanceAmount,
            RefSource::Unresolved => RefSourceV::Unresolved,
        }
    }
}

/// `name` split at its first '.'.
pub open spec fn split_dot(name: Seq<char>) -> Option<(Seq<char>, Seq<char>)> {
    let d = pos_of(name, '.', '.');
    if d < name.len() {
        Some((name.take(d), name.skip(d + 1)))
    } else {
        None
    }
}

/// The text of reference `name` in a value template: `meta.name` is the preset's
/// name; `balance.currency` the balance's currency (`CNY` without a balance);
/// other `balance.` references are amounts; `extras.<key>` an extra's text;
/// `<endpoint>.<path>` the text of that value in the endpoint's data.
pub open spec fn ref_source(
    name: Seq<char>,
    preset_name: Seq<char>,
    currency: Option<Seq<char>>,
    extras: Seq<(String, Json)>,
    endpoints: Seq<(String, Json)>,
) -> RefSourceV {
    if name == "meta.name"@ {
        RefSourceV::Text(preset_name)
    } else {
        match split_dot(name) {
            None => RefSourceV::Unresolved,
            Some((ns, path)) => if ns == "balance"@ {
                if path == "currency"@ {
                    RefSourceV::Text(
                        match currency {
                            Some(c) => c,
                            None => "CNY"@,
                        },
                    )
                } else {
                    RefSourceV::BalanceAmount
                }
            } else if ns == "extras"@ {
                match map_get(extras, path) {
                    Some(v) => RefSourceV::Text(display_text(v)),
                    None => RefSourceV::Unresolved,
                }
            } else {
                match map_get(endpoints, ns) {
                    Some(m) => match resolve_path(m, path) {
                        Some(v) => RefSourceV::Text(display_text(v)),
                        None => RefSourceV::Unresolved,
                    },
                    None => RefSourceV::Unresolved,
                }
            },
        }
    }
}

pub fn resolve_ref_text(
    name: &str,
    preset_name: &str,
    currency: Option<&str>,
    extras: &Vec<(String, Json)>,
    endpoints: &Vec<(String, Json)>,
) -> (r: RefSource)
    ensures
        r@ == ref_source(
            name@,
            preset_name@,
            match currency {
                Some(c) => Some(c@),
                None => None,
            },
            extras@,
            endpoints@,
        ),
{
    let nc = chars_of(name);
    if lit_eq(&nc, "meta.name") {
        return RefSource::Text(preset_name.to_string());
    }
    let n = nc.len();
    let d = crate::expr::pos_of_range(&nc, 0, n, '.', '.');
    assert(nc@.subrange(0, n as int) =~= nc@);
    if d >= n {
        return RefSource::Unresolved;
    }
    let ns = copy_range(&nc, 0, d);
    let path = copy_range(&nc, d + 1, n);
    assert(ns@ =~= nc@.take(d as int));
    assert(path@ =~= nc@.skip(d + 1));
    if lit_eq(&ns, "balance") {
        if lit_eq(&path, "currency") {
            match currency {
                Some(c) => RefSource::Text(c.to_string()),
                None => RefSource::Text("CNY".to_string()),
            }
        } else {
            RefSource::BalanceAmount
        }
    } else if lit_eq(&ns, "extras") {
        match map_lookup(extras, &path) {
            Some(v) => RefSource::Text(display_string(v)),
            None => RefSource::Unresolved,
        }
    } else {
        let ps = string_of(&path);
        match endpoint_value(&ns, ps.as_str(), endpoints) {
            Some(v) => RefSource::Text(display_string(v)),
            None => RefSource::Unresolved,
        }
    }
}

/// The text of reference `name` in a row template of a dynamic table: for
/// `item.<path>`, that value of the row's object unless missing or null.
pub open spec fn scoped_source(name: Seq<char>, item: JsonV) -> Option<Seq<char>> {
    if crate::validate::starts_with(name, "item."@) {
        match resolve_path(item, name.skip(5)) {
            Some(JsonV::Null) => None,
            Some(v) => Some(display_text(v)),
            None => None,
        }
    } else {
        None
    }
}

pub fn scoped_ref_text(name: &str, item: &Json) -> (r: Option<String>)
    ensures
        match r {
            Some(t) => scoped_source(name@, item@) == Some(t@),
            None => scoped_source(name@, item@) is None,
        },
{
    let nc = chars_of(name);
    if !crate::validate::starts_with_exec(&nc, "item.") {
        return None;
    }
    let pre = chars_of("item.");
    let path = copy_range(&nc, pre.len(), nc.len());
    assert(path@ =~= nc@.skip(pre@.len() as int));
    let ps = string_of(&path);
    proof {
        reveal_strlit("item.");
    }
    match resolve(item, ps.as_str()) {
        Some(Json::Null) => None,
        Some(v) => Some(display_string(v)),
        None => None,
    }
}

} // verus!

verus! {

/// Looking a name up in a member list is looking it up in the object it makes.
pub proof fn lemma_map_get_entries(es: Seq<(String, Json)>, k: Seq<char>)
    ensures
        map_get(es, k) == crate::path::object_get(crate::path::entries_view(es), k),
    decreases es.len(),
{
    if es.len() > 0 {
        assert(crate::path::entries_view(es).drop_first() =~= crate::path::entries_view(es.drop_first()));
        lemma_map_get_entries(es.drop_first(), k);
    }
}

} // verus!

verus! {

// ------------------------------------------------------------------ formats

/// How the text of a placeholder is shown.
#[derive(PartialEq, Eq, Structural, Clone, Copy, Debug)]
pub enum FormatPlan {
    /// The text as it is.
    Raw,
    /// `--`: the format needs a number and the text is none.
    Dash,
    /// The number as money, a percentage, a short number, or compact (K/M/B).
    Money,
    Percent,
    Number,
    Compact,
}

/// The format a placeholder without one gets: `number` when its text is a
/// number (as `str::parse::<f64>` accepts it), else `raw`.
pub open spec fn format_plan_of(text: Seq<char>, format: Option<Seq<char>>) -> FormatPlan {
    let f = match format {
        Some(f) => f,
        None => if crate::expr::is_float_text(text) {
            "number"@
        } else {
            "raw"@
        },
    };
    let numeric = f == "money"@ || f == "percent"@ || f == "number"@ || f == "compact"@;
    if numeric && !crate::expr::is_float_text(text) {
        FormatPlan::Dash
    } else if f == "money"@ {
        FormatPlan::Money
    } else if f == "percent"@ {
        FormatPlan::Percent
    } else if f == "number"@ {
        FormatPlan::Number
    } else if f == "compact"@ {
        FormatPlan::Compact
    } else {
        FormatPlan::Raw
    }
}

pub fn format_plan(text: &str, format: Option<&str>) -> (r: FormatPlan)
    ensures
        r == format_plan_of(
            text@,
            match format {
                Some(f) => Some(f@),
                None => None,
            },
        ),
{
    let tc = chars_of(text);
    let is_num = crate::expr::is_float_chars(&tc);
    let fc = match format {
        Some(f) => chars_of(f),
        None => if is_num {
            chars_of("number")
        } else {
            chars_of("raw")
        },
    };
    let money = lit_eq(&fc, "money");
    let percent = lit_eq(&fc, "percent");
    let number = lit_eq(&fc, "number");
    let compact = lit_eq(&fc, "compact");
    if (money || percent || number || compact) && !is_num {
        FormatPlan::Dash
    } else if money {
        FormatPlan::Money
    } else if percent {
        FormatPlan::Percent
    } else if number {
        FormatPlan::Number
    } else if compact {
        FormatPlan::Compact
    } else {
        FormatPlan::Raw
    }
}

/// Where a widget's percentage comes from.
pub enum PercentSource {
    /// A number written in the preset.
    Literal(String),
    /// A reference to evaluate.
    Ref(String),
    /// Nothing.
    Missing,
}

pub enum PercentSourceV {
    Literal(Seq<char>),
    Ref(Seq<char>),
    Missing,
}

impl View for PercentSource {
    type V = PercentSourceV;

    open spec fn view(&self) -> PercentSourceV {
        match self {
            PercentSource::Literal(t) => PercentSourceV::Literal(t@),
            PercentSource::Ref(t) => PercentSourceV::Ref(t@),
            PercentSource::Missing => PercentSourceV::Missing,
        }
    }
}

/// The percentage spec, trimmed: a number, else a reference, else nothing.
pub open spec fn percent_source_of(spec: Seq<char>) -> PercentSourceV {
    let t = trim(spec);
    if crate::expr::is_float_text(t) {
        PercentSourceV::Literal(t)
    } else if crate::expr::is_ref_text(t) {
        PercentSourceV::Ref(t)
    } else {
        PercentSourceV::Missing
    }
}

pub fn percent_source(spec: &str) -> (r: PercentSource)
    ensures
        r@ == percent_source_of(spec@),
{
    let c = chars_of(spec);
    let t = trim_chars(&c);
    if crate::expr::is_float_chars(&t) {
        return PercentSource::Literal(string_of(&t));
    }
    let ts = string_of(&t);
    match crate::expr::parse_ref(ts.as_str()) {
        Some(_) => PercentSource::Ref(ts),
        None => PercentSource::Missing,
    }
}

/// The text of a template with its slots, in order, replaced by `texts`.
pub open spec fn fill_in(ps: Seq<PieceV>, texts: Seq<Seq<char>>) -> Seq<char>
    decreases ps.len(),
{
    if ps.len() == 0 {
        Seq::empty()
    } else {
        match ps[0] {
            PieceV::Text(t) => t + fill_in(ps.drop_first(), texts),
            PieceV::Slot(_, _) => (if texts.len() > 0 {
                texts[0]
            } else {
                Seq::empty()
            }) + fill_in(ps.drop_first(), if texts.len() > 0 {
                texts.drop_first()
            } else {
                texts
            }),
        }
    }
}

/// The number of slots among template pieces.
pub open spec fn slot_count(ps: Seq<PieceV>) -> nat
    decreases ps.len(),
{
    if ps.len() == 0 {
        0
    } else {
        (if ps[0] is Slot {
            1nat
        } else {
            0nat
        }) + slot_count(ps.drop_first())
    }
}

/// Renders a parsed template: its text, with each slot replaced by the next of
/// `texts` (the slots' rendered values, in order).
pub fn fill_template(pieces: &Vec<Piece>, texts: &Vec<String>) -> (r: String)
    ensures
        r@ == fill_in(pieces_view(pieces@), texts@.map_values(|t: String| t@)),
{
    let ghost pv = pieces_view(pieces@);
    let ghost tv = texts@.map_values(|t: String| t@);
    let mut out = String::new();
    let mut i: usize = 0;
    let mut j: usize = 0;
    assert(pv.skip(0) =~= pv);
    assert(tv.skip(0) =~= tv);
    while i < pieces.len()
        invariant
            i <= pieces@.len(),
            pv == pieces_view(pieces@),
            tv == texts@.map_values(|t: String| t@),
            j <= texts@.len(),
            fill_in(pv, tv) == out@ + fill_in(pv.skip(i as int), tv.skip(j as int)),
        decreases pieces.len() - i,
    {
        let ghost rest = pv.skip(i as int);
        assert(rest[0] == pieces@[i as int]@);
        assert(rest.drop_first() =~= pv.skip(i + 1));
        match &pieces[i] {
            Piece::Text(t) => {
                out.append(t.as_str());
            },
            Piece::Slot(_, _) => {
                if j < texts.len() {
                    out.append(texts[j].as_str());
                    assert(tv.skip(j as int)[0] == texts@[j as int]@);
                    assert(tv.skip(j as int).drop_first() =~= tv.skip(j + 1));
                    j = j + 1;
                } else {
                    assert(tv.skip(j as int).len() == 0);
                }
            },
        }
        i = i + 1;
    }
    assert(pv.skip(i as int) =~= Seq::<PieceV>::empty());
    out
}

} // verus!

verus! {

/// How a placeholder's text is shown: a text that reads as a number gets the plan
/// its format names (`money` → money, `percent` → percent, `number` or no format →
/// number, `compact` → compact); a text that is not a number gets `--` under a
/// numeric format and is shown as it is without one; any other format shows it as
/// it is.
pub proof fn lemma_format_plans(t: Seq<char>, other: Seq<char>)
    requires
        other != "money"@ && other != "percent"@ && other != "number"@ && other != "compact"@,
    ensures
        crate::expr::is_float_text(t) ==> format_plan_of(t, Some("money"@)) == FormatPlan::Money,
        crate::expr::is_float_text(t) ==> format_plan_of(t, Some("percent"@)) == FormatPlan::Percent,
        crate::expr::is_float_text(t) ==> format_plan_of(t, Some("number"@)) == FormatPlan::Number,
        crate::expr::is_float_text(t) ==> format_plan_of(t, Some("compact"@)) == FormatPlan::Compact,
        crate::expr::is_float_text(t) ==> format_plan_of(t, None) == FormatPlan::Number,
        !crate::expr::is_float_text(t) ==> format_plan_of(t, Some("money"@)) == FormatPlan::Dash,
        !crate::expr::is_float_text(t) ==> format_plan_of(t, Some("percent"@)) == FormatPlan::Dash,
        !crate::expr::is_float_text(t) ==> format_plan_of(t, Some("number"@)) == FormatPlan::Dash,
        !crate::expr::is_float_text(t) ==> format_plan_of(t, Some("compact"@)) == FormatPlan::Dash,
        !crate::expr::is_float_text(t) ==> format_plan_of(t, None) == FormatPlan::Raw,
        format_plan_of(t, Some(other)) == FormatPlan::Raw,
{
    reveal_strlit("money");
    reveal_strlit("percent");
    reveal_strlit("number");
    reveal_strlit("compact");
    reveal_strlit("raw");
    assert("money"@[0] != "percent"@[0] && "money"@[0] != "number"@[0] && "money"@[0] != "compact"@[0]);
    assert("percent"@[0] != "number"@[0] && "percent"@[0] != "compact"@[0] && "number"@[0] != "compact"@[0]);
    assert("raw"@[0] != "money"@[0] && "raw"@[0] != "percent"@[0] && "raw"@[0] != "number"@[0] && "raw"@[0] != "compact"@[0]);
}

} // verus!
