//! Provider presets: the declarative description of one provider, and its validation.
//!
//! Maps of the preset format (`BTreeMap<String, _>` in the JSON schema) are held as
//! vectors of `(key, value)` pairs in ascending key order with distinct keys, which
//! is how a `BTreeMap` iterates.

use vstd::prelude::*;
use crate::json::{Json, JsonV};
use crate::path::{ExtractSpec, PathSpec, is_ascii_alphanumeric, path_tokens, tokenize};
use crate::expr::{pos_of, parse_expr, parse_expr_spec, lemma_pos_of_bound, chars_eq};
use crate::text::{chars_of, copy_range, trim, trim_chars, string_of, join_seq, push_char, find_char};
use crate::fmt::{digits_of, push_digits};

verus! {

broadcast use vstd::string::group_string_axioms;

pub const SCHEMA_VERSION: u32 = 2;

// ------------------------------------------------------------------ data

#[derive(Clone, Debug)]
pub struct AuthSpec {
    /// `type` in the JSON form.
    pub kind: String,
    /// Request header that carries the credential (such as `Authorization`).
    pub header: String,
    /// Value prefix (such as `Bearer `).
    pub prefix: String,
    /// Label of the default `apiKey` field on the settings page.
    pub key_label: String,
    pub key_hint: String,
}

/// One credential field of the settings form.
#[derive(Clone, Debug)]
pub struct FormField {
    pub id: String,
    pub label: String,
    pub hint: String,
    /// A secret: shown with a notice, never logged.
    pub secret: bool,
}

#[derive(Clone, Debug)]
pub struct FormSpec {
    pub fields: Vec<FormField>,
}

/// The response says "not available" when the value at `path` equals `equals`.
#[derive(Clone, Debug)]
pub struct UnavailableWhen {
    pub path: PathSpec,
    pub equals: Json,
}

#[derive(Clone, Debug)]
pub struct BalanceExtract {
    /// May be absent when `computed.total` provides the total.
    pub total: Option<ExtractSpec>,
    pub top_up: Option<ExtractSpec>,
    pub granted: Option<ExtractSpec>,
    pub currency: Option<ExtractSpec>,
    /// Further fields, by name (referenced as `extras.<name>`).
    pub extras: Vec<(String, ExtractSpec)>,
}

#[derive(Clone, Debug)]
pub struct BalanceSpec {
    /// GET | POST
    pub method: String,
    /// Full URL; `{key}` is replaced by the main credential.
    pub url: String,
    pub headers: Vec<(String, String)>,
    pub body: Option<String>,
    pub timeout_secs: u64,
    pub extract: BalanceExtract,
    pub unavailable_when: Option<UnavailableWhen>,
    /// Derived values: name → expression; `total`/`topUp`/`granted` set the balance fields.
    pub computed: Vec<(String, String)>,
}

/// An extra endpoint: declarative JSON REST, or a code-side fetcher by name.
#[derive(Clone, Debug)]
pub struct EndpointSpec {
    pub method: Option<String>,
    pub url: Option<String>,
    /// Which form field's value authenticates the request.
    pub auth_field: String,
    pub headers: Vec<(String, String)>,
    pub body: Option<String>,
    pub timeout_secs: u64,
    pub fetcher: Option<String>,
    pub extract: Vec<(String, ExtractSpec)>,
    pub computed: Vec<(String, String)>,
    pub unavailable_when: Option<UnavailableWhen>,
}

#[derive(Clone, Debug)]
pub struct WidgetSpec {
    /// `type` in the JSON form.
    pub kind: String,
    pub label: Option<String>,
    /// Value template with `{ref:format}` placeholders.
    pub value: Option<String>,
    pub hint: Option<String>,
    /// Reference to a percentage (bar/ring).
    pub percent: Option<String>,
    /// Reference to a number series (bars/stack).
    pub series: Option<String>,
    /// Reference to a label series (bars).
    pub series_labels: Option<String>,
    pub color: Option<String>,
    pub hide_empty: bool,
    pub group: Option<String>,
    /// Table column heads (1..=3).
    pub columns: Option<Vec<String>>,
    /// Static table rows.
    pub rows: Option<Vec<TableRowSpec>>,
    /// Source of dynamic table rows (an array of objects).
    pub from: Option<String>,
    pub row_name: Option<String>,
    pub row_cells: Option<Vec<String>>,
    pub colors: Option<Vec<String>>,
}

#[derive(Clone, Debug)]
pub struct TableRowSpec {
    pub name: String,
    pub cells: Vec<String>,
}

#[derive(Clone, Debug)]
pub struct TemplateSpec {
    pub widgets: Vec<WidgetSpec>,
    /// Display rules for the band, passed through unchanged.
    pub band: Option<Json>,
}

#[derive(Clone, Debug)]
pub struct Preset {
    pub schema_version: u32,
    pub id: String,
    pub name: String,
    pub homepage: Option<String>,
    pub accent: String,
    pub auth: AuthSpec,
    pub form: FormSpec,
    pub balance: BalanceSpec,
    /// Extra endpoints by name, referenced in templates as `<name>.<key>`.
    pub endpoints: Vec<(String, EndpointSpec)>,
    pub template: TemplateSpec,
}

impl Default for FormSpec {
    fn default() -> (r: FormSpec)
        ensures
            r.fields@.len() == 0,
    {
        FormSpec { fields: Vec::new() }
    }
}

impl Default for TemplateSpec {
    fn default() -> (r: TemplateSpec)
        ensures
            r.widgets@.len() == 0,
            r.band is None,
    {
        TemplateSpec { widgets: Vec::new(), band: None }
    }
}

impl Default for TableRowSpec {
    fn default() -> (r: TableRowSpec)
        ensures
            r.name@.len() == 0,
            r.cells@.len() == 0,
    {
        TableRowSpec { name: String::new(), cells: Vec::new() }
    }
}

/// Label of the default credential field.
pub fn default_key_label() -> (r: String)
    ensures
        r@ == "API Key"@,
{
    "API Key".to_string()
}

/// Credential field of an endpoint when none is named.
pub fn default_auth_field() -> (r: String)
    ensures
        r@ == "apiKey"@,
{
    "apiKey".to_string()
}

/// Request timeout when none is given.
pub fn default_timeout_secs() -> (r: u64)
    ensures
        r == 10,
{
    10
}

/// Accent colour when none is given.
pub fn default_accent() -> (r: String)
    ensures
        r@ == "#4D6BFE"@,
{
    "#4D6BFE".to_string()
}

// ------------------------------------------------------------------ outside: Debug text

/// The text that `{:?}` prints for a string: quoted, with escapes.
pub uninterp spec fn debug_text(s: Seq<char>) -> Seq<char>;

/// std's `Debug` for `str` (`format!("{:?}", s)`); its result is named `debug_text`.
#[verifier::external_body]
pub(crate) fn debug_str(s: &str) -> (r: String)
    ensures
        r@ == debug_text(s@),
{
    format!("{:?}", s)
}

// ------------------------------------------------------------------ map helpers

pub open spec fn has_key<T>(m: Seq<(String, T)>, k: Seq<char>) -> bool {
    exists|i: int| 0 <= i < m.len() && (#[trigger] m[i]).0@ == k
}

pub open spec fn keys_of<T>(m: Seq<(String, T)>) -> Seq<Seq<char>> {
    m.map_values(|e: (String, T)| e.0@)
}

pub fn has_key_exec<T>(m: &Vec<(String, T)>, k: &[char]) -> (r: bool)
    ensures
        r == has_key(m@, k@),
{
    let mut i: usize = 0;
    while i < m.len()
        invariant
            i <= m@.len(),
            forall|j: int| 0 <= j < i ==> (#[trigger] m@[j]).0@ != k@,
        decreases m.len() - i,
    {
        let kc = chars_of(m[i].0.as_str());
        if chars_eq(&kc, k) {
            return true;
        }
        i = i + 1;
    }
    false
}

// ------------------------------------------------------------------ references

/// `<namespace>.<path>` of a reference: the text before the first '.', and after it.
pub open spec fn ref_ns(r: Seq<char>) -> Seq<char> {
    r.take(pos_of(r, '.', '.'))
}

pub open spec fn ref_rest(r: Seq<char>) -> Seq<char> {
    r.skip(pos_of(r, '.', '.') + 1)
}

pub open spec fn balance_fields() -> Seq<Seq<char>> {
    seq!["total"@, "topUp"@, "granted"@, "currency"@]
}

/// The namespaces a reference may use: balance / extras / meta, then the endpoint names.
pub open spec fn known_namespaces(p: Preset) -> Seq<Seq<char>> {
    seq!["balance"@, "extras"@, "meta"@] + keys_of(p.endpoints@)
}

/// The check of one reference against the preset's namespaces.
pub open spec fn ref_check(r: Seq<char>, p: Preset) -> Result<(), Seq<char>> {
    if r == "meta.name"@ {
        Ok(())
    } else if !r.contains('.') {
        Err("引用缺少命名空间: "@ + r)
    } else if ref_rest(r).len() == 0 {
        Err("引用缺少路径: "@ + r)
    } else {
        let ns = ref_ns(r);
        let ok = if ns == "balance"@ {
            balance_fields().contains(ref_rest(r))
        } else if ns == "extras"@ {
            true
        } else {
            has_key(p.endpoints@, ns)
        };
        if ok {
            Ok(())
        } else {
            Err("引用命名空间未知: "@ + r + "(可用: "@ + join_seq(known_namespaces(p), "/"@) + ")"@)
        }
    }
}

pub open spec fn res_view(r: Result<(), String>) -> Result<(), Seq<char>> {
    match r {
        Ok(()) => Ok(()),
        Err(e) => Err(e@),
    }
}

fn namespaces_text(p: &Preset) -> (r: String)
    ensures
        r@ == join_seq(known_namespaces(*p), "/"@),
{
    let mut names: Vec<&str> = Vec::new();
    names.push("balance");
    names.push("extras");
    names.push("meta");
    let mut i: usize = 0;
    while i < p.endpoints.len()
        invariant
            i <= p.endpoints@.len(),
            names@.map_values(|s: &str| s@) == seq!["balance"@, "extras"@, "meta"@] + keys_of(
                p.endpoints@,
            ).take(i as int),
        decreases p.endpoints.len() - i,
    {
        let ghost before = names@.map_values(|s: &str| s@);
        names.push(p.endpoints[i].0.as_str());
        assert(names@.map_values(|s: &str| s@) =~= before.push(p.endpoints@[i as int].0@));
        assert(keys_of(p.endpoints@).take(i + 1) =~= keys_of(p.endpoints@).take(i as int).push(
            p.endpoints@[i as int].0@,
        ));
        i = i + 1;
    }
    assert(keys_of(p.endpoints@).take(p.endpoints@.len() as int) =~= keys_of(p.endpoints@));
    crate::text::join_strs(&names, "/")
}

pub(crate) fn seq_in(list: &Vec<&str>, x: &[char]) -> (r: bool)
    ensures
        r == list@.map_values(|s: &str| s@).contains(x@),
{
    let ghost lv = list@.map_values(|s: &str| s@);
    let mut i: usize = 0;
    while i < list.len()
        invariant
            i <= list@.len(),
            lv == list@.map_values(|s: &str| s@),
            forall|j: int| 0 <= j < i ==> lv[j] != x@,
        decreases list.len() - i,
    {
        let c = chars_of(list[i]);
        if chars_eq(&c, x) {
            assert(lv[i as int] == x@);
            return true;
        }
        i = i + 1;
    }
    false
}

/// Checks that a reference names a known namespace (and, under `balance`, a known field).
pub fn check_ref_namespace(r: &str, p: &Preset) -> (res: Result<(), String>)
    ensures
        res_view(res) == ref_check(r@, *p),
{
    let rc = chars_of(r);
    let meta = chars_of("meta.name");
    if chars_eq(&rc, &meta) {
        return Ok(());
    }
    let dot = match find_char(&rc, '.') {
        Some(d) => d,
        None => {
            let mut e = "引用缺少命名空间: ".to_string();
            e.append(r);
            return Err(e);
        },
    };
    proof {
        lemma_pos_of_bound(rc@, '.', '.');
    }
    assert(rc@.contains('.'));
    assert(dot == pos_of(rc@, '.', '.'));
    let n = rc.len();
    assert(dot < n);
    let ns = copy_range(&rc, 0, dot);
    let rest = copy_range(&rc, dot + 1, n);
    assert(ns@ =~= ref_ns(rc@));
    assert(rest@ =~= ref_rest(rc@));
    if rest.len() == 0 {
        let mut e = "引用缺少路径: ".to_string();
        e.append(r);
        return Err(e);
    }
    let bal = chars_of("balance");
    let ext = chars_of("extras");
    let ok = if chars_eq(&ns, &bal) {
        let mut fields: Vec<&str> = Vec::new();
        fields.push("total");
        fields.push("topUp");
        fields.push("granted");
        fields.push("currency");
        assert(fields@.map_values(|s: &str| s@) =~= balance_fields());
        seq_in(&fields, &rest)
    } else if chars_eq(&ns, &ext) {
        true
    } else {
        has_key_exec(&p.endpoints, &ns)
    };
    if ok {
        Ok(())
    } else {
        let mut e = "引用命名空间未知: ".to_string();
        e.append(r);
        e.append("(可用: ");
        let known = namespaces_text(p);
        e.append(known.as_str());
        e.append(")");
        Err(e)
    }
}

} // verus!

verus! {

// ------------------------------------------------------------------ placeholders

/// The reference name of a placeholder token `name[:format]`, trimmed.
pub open spec fn token_name(token: Seq<char>) -> Seq<char> {
    trim(token.take(pos_of(token, ':', ':')))
}

/// Checks every `{name[:format]}` placeholder of a value template with `check`;
/// scanning stops at a `{` that has no closing `}`.
pub open spec fn placeholders_check(
    t: Seq<char>,
    check: spec_fn(Seq<char>) -> Result<(), Seq<char>>,
) -> Result<(), Seq<char>>
    decreases t.len(),
{
    let s = pos_of(t, '{', '{');
    if s >= t.len() {
        Ok(())
    } else {
        let after = t.skip(s + 1);
        let e = pos_of(after, '}', '}');
        proof {
            lemma_pos_of_bound(t, '{', '{');
            lemma_pos_of_bound(after, '}', '}');
        }
        if e >= after.len() {
            Ok(())
        } else {
            let name = token_name(after.take(e));
            let here = if name.len() > 0 { check(name) } else { Ok(()) };
            match here {
                Err(x) => Err(x),
                Ok(()) => placeholders_check(after.skip(e + 1), check),
            }
        }
    }
}

/// The check of a value template: every placeholder names a known namespace.
pub open spec fn template_refs_check(t: Seq<char>, p: Preset) -> Result<(), Seq<char>> {
    placeholders_check(t, |name: Seq<char>| ref_check(name, p))
}

pub open spec fn item_prefix() -> Seq<char> {
    seq!['i', 't', 'e', 'm', '.']
}

/// The check of a dynamic-row placeholder: `item.<path>` with a valid path.
pub open spec fn scoped_name_check(name: Seq<char>) -> Result<(), Seq<char>> {
    if !(name.len() >= 5 && name.take(5) == item_prefix()) {
        Err("占位符仅支持 item.<路径>: "@ + name)
    } else if name.skip(5).len() == 0 || path_tokens(name.skip(5)) is None {
        Err("路径语法非法: "@ + name)
    } else {
        Ok(())
    }
}

pub open spec fn scoped_refs_check(t: Seq<char>) -> Result<(), Seq<char>> {
    placeholders_check(t, |name: Seq<char>| scoped_name_check(name))
}

fn scoped_name_check_exec(name: &[char]) -> (r: Result<(), String>)
    ensures
        res_view(r) == scoped_name_check(name@),
{
    let pre = ['i', 't', 'e', 'm', '.'];
    assert(pre@ =~= item_prefix());
    let n = name.len();
    let ok_prefix = n >= 5 && {
        let head = copy_range(name, 0, 5);
        assert(head@ =~= name@.take(5));
        chars_eq(&head, &pre)
    };
    if !ok_prefix {
        let mut e = "占位符仅支持 item.<路径>: ".to_string();
        let nm = string_of(name);
        e.append(nm.as_str());
        return Err(e);
    }
    let rest = copy_range(name, 5, n);
    assert(rest@ =~= name@.skip(5));
    let rs = string_of(&rest);
    let valid = rest.len() > 0 && tokenize(rs.as_str()).is_some();
    if !valid {
        let mut e = "路径语法非法: ".to_string();
        let nm = string_of(name);
        e.append(nm.as_str());
        return Err(e);
    }
    Ok(())
}

fn token_name_exec(t: &[char], a: usize, b: usize) -> (r: Vec<char>)
    requires
        a <= b <= t@.len(),
    ensures
        r@ == token_name(t@.subrange(a as int, b as int)),
{
    let c = crate::expr::pos_of_range(t, a, b, ':', ':');
    let raw = copy_range(t, a, c);
    assert(raw@ =~= t@.subrange(a as int, b as int).take(c - a));
    trim_chars(&raw)
}

/// Walks the placeholders of `t`: the position of each `{` with a matching `}`, and
/// the trimmed name inside; `which` selects the check (true: namespaces of `p`).
fn placeholders_check_exec(t: &str, p: &Preset, scoped: bool) -> (r: Result<(), String>)
    ensures
        scoped ==> res_view(r) == scoped_refs_check(t@),
        !scoped ==> res_view(r) == template_refs_check(t@, *p),
{
    let tc = chars_of(t);
    let ghost check = if scoped {
        |name: Seq<char>| scoped_name_check(name)
    } else {
        |name: Seq<char>| ref_check(name, *p)
    };
    let n = tc.len();
    let mut pos: usize = 0;
    assert(tc@.skip(0) =~= tc@);
    while pos < n
        invariant
            n == tc@.len(),
            tc@ == t@,
            pos <= n,
            check == (if scoped {
                |name: Seq<char>| scoped_name_check(name)
            } else {
                |name: Seq<char>| ref_check(name, *p)
            }),
            placeholders_check(tc@, check) == placeholders_check(tc@.skip(pos as int), check),
        decreases n - pos,
    {
        let ghost rest = tc@.skip(pos as int);
        let s = crate::expr::pos_of_range(&tc, pos, n, '{', '{');
        assert(tc@.subrange(pos as int, n as int) =~= rest);
        if s >= n {
            assert(placeholders_check(rest, check) == Ok::<(), Seq<char>>(()));
            return Ok(());
        }
        let e = crate::expr::pos_of_range(&tc, s + 1, n, '}', '}');
        let ghost after = rest.skip(s - pos + 1);
        assert(after =~= tc@.subrange(s + 1, n as int));
        if e >= n {
            assert(placeholders_check(rest, check) == Ok::<(), Seq<char>>(()));
            return Ok(());
        }
        let name = token_name_exec(&tc, s + 1, e);
        assert(after.take(e - s - 1) =~= tc@.subrange(s + 1, e as int));
        if name.len() > 0 {
            let here = if scoped {
                scoped_name_check_exec(&name)
            } else {
                let nm = string_of(&name);
                check_ref_namespace(nm.as_str(), p)
            };
            if here.is_err() {
                return here;
            }
        }
        assert(after.skip(e - s) =~= tc@.skip(e + 1));
        pos = e + 1;
    }
    assert(placeholders_check(tc@.skip(pos as int), check) == Ok::<(), Seq<char>>(()));
    Ok(())
}

/// Checks the `{ref:format}` placeholders of a value template against the preset.
pub fn check_template_refs(tpl: &str, p: &Preset) -> (r: Result<(), String>)
    ensures
        res_view(r) == template_refs_check(tpl@, *p),
{
    placeholders_check_exec(tpl, p, false)
}

/// Checks the `{item.<path>[:format]}` placeholders of a dynamic-row template.
pub fn check_scoped_template_refs(tpl: &str, p: &Preset) -> (r: Result<(), String>)
    ensures
        res_view(r) == scoped_refs_check(tpl@),
{
    placeholders_check_exec(tpl, p, true)
}

} // verus!

verus! {

/// The names of `m` strictly ascend in the order `str` compares in (`text_lt`), so
/// each name occurs once: what a JSON object read into a name-ordered map gives.
pub open spec fn names_ascending<T>(m: Seq<(String, T)>) -> bool {
    forall|i: int, j: int| 0 <= i < j < m.len() ==> text_lt(#[trigger] m[i].0@, #[trigger] m[j].0@)
}

impl Preset {
    /// The invariant of a preset read from its JSON document: each of its name-keyed
    /// maps (balance extras and derived values, the endpoints, and each endpoint's
    /// extracted and derived values) holds each name once, in ascending order.
    pub open spec fn wf(&self) -> bool {
        &&& names_ascending(self.balance.extract.extras@)
        &&& names_ascending(self.balance.computed@)
        &&& names_ascending(self.endpoints@)
        &&& forall|i: int| 0 <= i < self.endpoints@.len() ==> {
            &&& names_ascending((#[trigger] self.endpoints@[i]).1.extract@)
            &&& names_ascending(self.endpoints@[i].1.computed@)
        }
    }
}

/// The endpoint names of fetcher references ascend.
pub open spec fn refs_ascending(rs: Seq<(Seq<char>, Seq<char>, Seq<char>)>) -> bool {
    forall|a: int, b: int| 0 <= a < b < rs.len() ==> text_lt(#[trigger] rs[a].1, #[trigger] rs[b].1)
}

proof fn lemma_refs_from_names(id: Seq<char>, eps: Seq<(String, EndpointSpec)>, known: Seq<Seq<char>>)
    ensures
        forall|a: int| 0 <= a < refs_from(id, eps, known).len() ==> exists|k: int|
            0 <= k < eps.len() && (#[trigger] refs_from(id, eps, known)[a]).1 == eps[k].0@,
    decreases eps.len(),
{
    if eps.len() > 0 {
        let rest = refs_from(id, eps.drop_first(), known);
        lemma_refs_from_names(id, eps.drop_first(), known);
        let all = refs_from(id, eps, known);
        let hl = all.len() - rest.len();
        assert forall|a: int| 0 <= a < all.len() implies exists|k: int|
            0 <= k < eps.len() && (#[trigger] all[a]).1 == eps[k].0@ by {
            if a < hl {
                assert(all[a].1 == eps[0].0@);
            } else {
                assert(all[a] == rest[a - hl]);
                let k = choose|k: int| 0 <= k < eps.drop_first().len() && rest[a - hl].1 == eps.drop_first()[k].0@;
                assert(eps.drop_first()[k] == eps[k + 1]);
            }
        }
    }
}

/// In a preset whose endpoint names ascend, its fetcher references come in
/// ascending endpoint-name order.
pub proof fn lemma_refs_ascending(id: Seq<char>, eps: Seq<(String, EndpointSpec)>, known: Seq<Seq<char>>)
    requires
        names_ascending(eps),
    ensures
        refs_ascending(refs_from(id, eps, known)),
    decreases eps.len(),
{
    if eps.len() > 0 {
        let tail = eps.drop_first();
        assert forall|i: int, j: int| 0 <= i < j < tail.len() implies text_lt(#[trigger] tail[i].0@, #[trigger] tail[j].0@) by {
            assert(tail[i] == eps[i + 1] && tail[j] == eps[j + 1]);
        }
        lemma_refs_ascending(id, tail, known);
        lemma_refs_from_names(id, tail, known);
        let rest = refs_from(id, tail, known);
        let all = refs_from(id, eps, known);
        let hl = all.len() - rest.len();
        assert forall|a: int, b: int| 0 <= a < b < all.len() implies text_lt(#[trigger] all[a].1, #[trigger] all[b].1) by {
            if a < hl {
                assert(all[a].1 == eps[0].0@);
                assert(all[b] == rest[b - hl]);
                let k = choose|k: int| 0 <= k < tail.len() && rest[b - hl].1 == tail[k].0@;
                assert(tail[k] == eps[k + 1]);
                assert(text_lt(eps[0].0@, eps[k + 1].0@));
            } else {
                assert(all[a] == rest[a - hl]);
                assert(all[b] == rest[b - hl]);
            }
        }
    }
}

/// The unregistered fetcher references of one preset, in endpoint order.
pub open spec fn preset_unknown_refs(p: Preset, known: Seq<Seq<char>>) -> Seq<(Seq<char>, Seq<char>, Seq<char>)>
    decreases p.endpoints@.len(),
{
    refs_from(p.id@, p.endpoints@, known)
}

pub open spec fn refs_from(
    id: Seq<char>,
    eps: Seq<(String, EndpointSpec)>,
    known: Seq<Seq<char>>,
) -> Seq<(Seq<char>, Seq<char>, Seq<char>)>
    decreases eps.len(),
{
    if eps.len() == 0 {
        Seq::empty()
    } else {
        let head = match eps[0].1.fetcher {
            Some(f) => if known.contains(f@) {
                Seq::empty()
            } else {
                seq![(id, eps[0].0@, f@)]
            },
            None => Seq::empty(),
        };
        head + refs_from(id, eps.drop_first(), known)
    }
}

/// All unregistered fetcher references: (preset id, endpoint, fetcher), preset by preset.
pub open spec fn unknown_refs(ps: Seq<Preset>, known: Seq<Seq<char>>) -> Seq<(Seq<char>, Seq<char>, Seq<char>)>
    decreases ps.len(),
{
    if ps.len() == 0 {
        Seq::empty()
    } else {
        preset_unknown_refs(ps[0], known) + unknown_refs(ps.drop_first(), known)
    }
}

pub open spec fn triple_view(t: (String, String, String)) -> (Seq<char>, Seq<char>, Seq<char>) {
    (t.0@, t.1@, t.2@)
}

/// The fetcher references of the presets that the registry `known` does not list:
/// (preset id, endpoint name, fetcher name), in preset and endpoint order; for a
/// preset read from JSON (`wf`) that is ascending endpoint-name order.
pub fn unknown_fetcher_refs(presets: &[Preset], known: &[&str]) -> (r: Vec<(String, String, String)>)
    ensures
        r@.map_values(|t: (String, String, String)| triple_view(t)) == unknown_refs(
            presets@,
            known@.map_values(|s: &str| s@),
        ),
        forall|i: int| 0 <= i < presets@.len() && (#[trigger] presets@[i]).wf() ==> refs_ascending(
            preset_unknown_refs(presets@[i], known@.map_values(|s: &str| s@)),
        ),
{
    proof {
        assert forall|i: int| 0 <= i < presets@.len() && (#[trigger] presets@[i]).wf() implies refs_ascending(
            preset_unknown_refs(presets@[i], known@.map_values(|s: &str| s@)),
        ) by {
            lemma_refs_ascending(presets@[i].id@, presets@[i].endpoints@, known@.map_values(|s: &str| s@));
        }
    }
    let ghost kv = known@.map_values(|s: &str| s@);
    let mut known_v: Vec<&str> = Vec::new();
    let mut q: usize = 0;
    while q < known.len()
        invariant
            q <= known@.len(),
            known_v@ == known@.take(q as int),
        decreases known.len() - q,
    {
        known_v.push(known[q]);
        q = q + 1;
        assert(known_v@ =~= known@.take(q as int));
    }
    assert(known@.take(known@.len() as int) =~= known@);
    let mut out: Vec<(String, String, String)> = Vec::new();
    let mut i: usize = 0;
    assert(presets@.skip(0) =~= presets@);
    while i < presets.len()
        invariant
            i <= presets@.len(),
            kv == known@.map_values(|s: &str| s@),
            known_v@ == known@,
            unknown_refs(presets@, kv) == out@.map_values(|t: (String, String, String)| triple_view(t))
                + unknown_refs(presets@.skip(i as int), kv),
        decreases presets.len() - i,
    {
        let p = &presets[i];
        assert(presets@.skip(i as int)[0] == presets@[i as int]);
        assert(presets@.skip(i as int).drop_first() =~= presets@.skip(i + 1));
        let mut j: usize = 0;
        let ghost base = out@.map_values(|t: (String, String, String)| triple_view(t));
        assert(p.endpoints@.skip(0) =~= p.endpoints@);
        assert(base + Seq::empty() =~= base);
        while j < p.endpoints.len()
            invariant
                j <= p.endpoints@.len(),
                known_v@ == known@,
                kv == known@.map_values(|s: &str| s@),
                base + preset_unknown_refs(*p, kv) == out@.map_values(
                    |t: (String, String, String)| triple_view(t),
                ) + refs_from(p.id@, p.endpoints@.skip(j as int), kv),
            decreases p.endpoints.len() - j,
        {
            let ghost eps = p.endpoints@.skip(j as int);
            assert(eps[0] == p.endpoints@[j as int]);
            assert(eps.drop_first() =~= p.endpoints@.skip(j + 1));
            let ghost before = out@.map_values(|t: (String, String, String)| triple_view(t));
            if let Some(f) = &p.endpoints[j].1.fetcher {
                let fc = chars_of(f.as_str());
                if !seq_in(&known_v, &fc) {
                    out.push((p.id.clone(), p.endpoints[j].0.clone(), f.clone()));
                    assert(out@.map_values(|t: (String, String, String)| triple_view(t)) =~= before.push(
                        (p.id@, p.endpoints@[j as int].0@, f@),
                    ));
                    assert(before.push((p.id@, p.endpoints@[j as int].0@, f@)) + refs_from(
                        p.id@,
                        p.endpoints@.skip(j + 1),
                        kv,
                    ) =~= before + refs_from(p.id@, eps, kv));
                } else {
                    assert(before + refs_from(p.id@, p.endpoints@.skip(j + 1), kv) =~= before
                        + refs_from(p.id@, eps, kv));
                }
            } else {
                assert(before + refs_from(p.id@, p.endpoints@.skip(j + 1), kv) =~= before + refs_from(
                    p.id@,
                    eps,
                    kv,
                ));
            }
            j = j + 1;
        }
        assert(p.endpoints@.skip(j as int) =~= Seq::<(String, EndpointSpec)>::empty());
        assert(unknown_refs(presets@.skip(i as int), kv) == preset_unknown_refs(*p, kv) + unknown_refs(
            presets@.skip(i + 1),
            kv,
        ));
        assert(base + (preset_unknown_refs(*p, kv) + unknown_refs(presets@.skip(i + 1), kv)) =~= (
        base + preset_unknown_refs(*p, kv)) + unknown_refs(presets@.skip(i + 1), kv));
        i = i + 1;
    }
    assert(presets@.skip(i as int) =~= Seq::<Preset>::empty());
    assert(out@.map_values(|t: (String, String, String)| triple_view(t)) + Seq::empty() =~= out@.map_values(
        |t: (String, String, String)| triple_view(t),
    ));
    out
}

} // verus!

verus! {

// ------------------------------------------------------------------ preset order

/// `a` sorts before `b` as `str::cmp` orders them: character by character (which
/// is the order of their UTF-8 bytes), a prefix first.
pub open spec fn text_lt(a: Seq<char>, b: Seq<char>) -> bool
    decreases a.len(),
{
    if b.len() == 0 {
        false
    } else if a.len() == 0 {
        true
    } else if a[0] != b[0] {
        a[0] < b[0]
    } else {
        text_lt(a.drop_first(), b.drop_first())
    }
}

pub proof fn lemma_text_lt_irrefl(a: Seq<char>)
    ensures
        !text_lt(a, a),
    decreases a.len(),
{
    if a.len() > 0 {
        lemma_text_lt_irrefl(a.drop_first());
    }
}

pub proof fn lemma_text_lt_total(a: Seq<char>, b: Seq<char>)
    ensures
        a == b || text_lt(a, b) || text_lt(b, a),
    decreases a.len(),
{
    if a.len() > 0 && b.len() > 0 && a[0] == b[0] {
        lemma_text_lt_total(a.drop_first(), b.drop_first());
        if a.drop_first() == b.drop_first() {
            assert(a =~= seq![a[0]] + a.drop_first());
            assert(b =~= seq![b[0]] + b.drop_first());
        }
    } else if a.len() == 0 && b.len() == 0 {
        assert(a =~= b);
    }
}

pub proof fn lemma_text_lt_trans(a: Seq<char>, b: Seq<char>, c: Seq<char>)
    requires
        text_lt(a, b),
        text_lt(b, c),
    ensures
        text_lt(a, c),
    decreases a.len(),
{
    if a.len() > 0 && b.len() > 0 && c.len() > 0 && a[0] == b[0] && b[0] == c[0] {
        lemma_text_lt_trans(a.drop_first(), b.drop_first(), c.drop_first());
    }
}

pub proof fn lemma_text_lt_asym(a: Seq<char>, b: Seq<char>)
    requires
        text_lt(a, b),
    ensures
        !text_lt(b, a),
    decreases a.len(),
{
    if a.len() > 0 && b.len() > 0 && a[0] == b[0] {
        lemma_text_lt_asym(a.drop_first(), b.drop_first());
    }
}

fn text_lt_exec(a: &[char], b: &[char]) -> (r: bool)
    ensures
        r == text_lt(a@, b@),
{
    let mut i: usize = 0;
    assert(a@.skip(0) =~= a@);
    assert(b@.skip(0) =~= b@);
    while i < a.len() && i < b.len() && a[i] == b[i]
        invariant
            i <= a@.len(),
            i <= b@.len(),
            text_lt(a@, b@) == text_lt(a@.skip(i as int), b@.skip(i as int)),
        decreases a.len() - i,
    {
        assert(a@.skip(i as int).drop_first() =~= a@.skip(i + 1));
        assert(b@.skip(i as int).drop_first() =~= b@.skip(i + 1));
        i = i + 1;
    }
    if i >= b.len() {
        false
    } else if i >= a.len() {
        true
    } else {
        a[i] < b[i]
    }
}

/// `ids` ascend strictly.
pub open spec fn ids_ascending(ps: Seq<Preset>) -> bool {
    forall|i: int, j: int| 0 <= i < j < ps.len() ==> text_lt((#[trigger] ps[i]).id@, (#[trigger] ps[j]).id@)
}

/// Preset `k` of `ps` is the first with its id.
pub open spec fn first_of_id(ps: Seq<Preset>, k: int) -> bool {
    forall|j: int| 0 <= j < k ==> (#[trigger] ps[j]).id@ != ps[k].id@
}

/// Some preset of `ps` has id `id`.
pub open spec fn has_id(ps: Seq<Preset>, id: Seq<char>) -> bool {
    exists|i: int| 0 <= i < ps.len() && (#[trigger] ps[i]).id@ == id
}

/// `out[i]` is the loaded preset `k` that is first with its id.
pub open spec fn is_first_loaded(loaded: Seq<Preset>, p: Preset) -> bool {
    exists|k: int| 0 <= k < loaded.len() && first_of_id(loaded, k) && #[trigger] loaded[k] == p
}

/// The presets in use, from those loaded in order: for each id, the first preset
/// with it, in ascending id order.
pub open spec fn presets_in_order(loaded: Seq<Preset>, out: Seq<Preset>) -> bool {
    &&& ids_ascending(out)
    &&& forall|i: int| 0 <= i < out.len() ==> is_first_loaded(loaded, #[trigger] out[i])
    &&& forall|k: int| 0 <= k < loaded.len() ==> has_id(out, (#[trigger] loaded[k]).id@)
}

/// Where a preset with id `pid` goes among `out`: past every smaller id; `true`
/// when that place already holds `pid`.
fn insert_position(out: &Vec<Preset>, pid: &[char]) -> (r: (usize, bool))
    ensures
        r.0 <= out@.len(),
        forall|i: int| 0 <= i < r.0 ==> text_lt((#[trigger] out@[i]).id@, pid@),
        r.1 ==> r.0 < out@.len() && out@[r.0 as int].id@ == pid@,
        !r.1 ==> r.0 == out@.len() || (!text_lt(out@[r.0 as int].id@, pid@) && out@[r.0 as int].id@ != pid@),
{
    let mut pos: usize = 0;
    while pos < out.len()
        invariant
            pos <= out@.len(),
            forall|i: int| 0 <= i < pos ==> text_lt((#[trigger] out@[i]).id@, pid@),
        decreases out.len() - pos,
    {
        let oc = chars_of(out[pos].id.as_str());
        if !text_lt_exec(&oc, pid) {
            let dup = chars_eq(&oc, pid);
            return (pos, dup);
        }
        pos = pos + 1;
    }
    (pos, false)
}

proof fn lemma_insert_sorted(old_out: Seq<Preset>, pos: int, p: Preset)
    requires
        ids_ascending(old_out),
        0 <= pos <= old_out.len(),
        forall|i: int| 0 <= i < pos ==> text_lt((#[trigger] old_out[i]).id@, p.id@),
        pos == old_out.len() || (!text_lt(old_out[pos].id@, p.id@) && old_out[pos].id@ != p.id@),
    ensures
        ids_ascending(old_out.insert(pos, p)),
        forall|i: int| pos <= i < old_out.len() ==> text_lt(p.id@, (#[trigger] old_out[i]).id@),
{
    assert forall|i: int| pos <= i < old_out.len() implies text_lt(p.id@, (#[trigger] old_out[i]).id@) by {
        lemma_text_lt_total(old_out[pos].id@, p.id@);
        if i > pos {
            assert(text_lt(old_out[pos].id@, old_out[i].id@));
            lemma_text_lt_trans(p.id@, old_out[pos].id@, old_out[i].id@);
        }
    }
    let no = old_out.insert(pos, p);
    assert forall|i: int, j: int| 0 <= i < j < no.len() implies text_lt((#[trigger] no[i]).id@, (#[trigger] no[j]).id@) by {
        if j < pos {
            assert(no[i] == old_out[i] && no[j] == old_out[j]);
        } else if j == pos {
            assert(no[i] == old_out[i]);
        } else if i < pos {
            assert(no[i] == old_out[i] && no[j] == old_out[j - 1]);
            lemma_text_lt_trans(old_out[i].id@, p.id@, old_out[j - 1].id@);
        } else if i == pos {
            assert(no[j] == old_out[j - 1]);
        } else {
            assert(no[i] == old_out[i - 1] && no[j] == old_out[j - 1]);
        }
    }
}

proof fn lemma_has_id_insert(out: Seq<Preset>, pos: int, p: Preset, x: Seq<char>)
    requires
        0 <= pos <= out.len(),
        has_id(out, x) || x == p.id@,
    ensures
        has_id(out.insert(pos, p), x),
{
    let no = out.insert(pos, p);
    if x == p.id@ {
        assert(no[pos].id@ == x);
    } else {
        let i = choose|i: int| 0 <= i < out.len() && (#[trigger] out[i]).id@ == x;
        if i < pos {
            assert(no[i] == out[i]);
        } else {
            assert(no[i + 1] == out[i]);
        }
    }
}

/// The loaded preset `n` is the first with its id when no earlier id is in `out`'s
/// ids and `out` holds every earlier id.
proof fn lemma_first_when_new(orig: Seq<Preset>, out: Seq<Preset>, n: int)
    requires
        0 <= n < orig.len(),
        forall|k: int| 0 <= k < n ==> has_id(out, (#[trigger] orig[k]).id@),
        !has_id(out, orig[n].id@),
    ensures
        first_of_id(orig, n),
{
    assert forall|j: int| 0 <= j < n implies (#[trigger] orig[j]).id@ != orig[n].id@ by {
        assert(has_id(out, orig[j].id@));
    }
}

/// Orders loaded presets by id and drops every preset whose id an earlier one has.
pub fn order_presets(loaded: Vec<Preset>) -> (r: Vec<Preset>)
    ensures
        presets_in_order(loaded@, r@),
{
    let ghost orig = loaded@;
    let total = loaded.len();
    let mut rest = loaded;
    let mut out: Vec<Preset> = Vec::new();
    let mut n: usize = 0;
    let ghost mut src: Seq<int> = Seq::empty();
    assert(orig.skip(0) =~= orig);
    while rest.len() > 0
        invariant
            n <= orig.len(),
            orig.len() == total,
            rest@ == orig.skip(n as int),
            ids_ascending(out@),
            src.len() == out@.len(),
            forall|i: int| 0 <= i < out@.len() ==> 0 <= #[trigger] src[i] < n && first_of_id(orig, src[i])
                && out@[i] == orig[src[i]],
            forall|k: int| 0 <= k < n ==> has_id(out@, (#[trigger] orig[k]).id@),
        decreases rest.len(),
    {
        let p = rest.remove(0);
        proof {
            assert(p == orig[n as int]);
            assert(rest@ =~= orig.skip(n + 1));
        }
        let pid = chars_of(p.id.as_str());
        let (pos, dup) = insert_position(&out, &pid);
        let ghost old_out = out@;
        if dup {
            proof {
                assert(old_out[pos as int].id@ == orig[n as int].id@);
                assert(has_id(old_out, orig[n as int].id@));
            }
        } else {
            proof {
                assert(!has_id(old_out, p.id@)) by {
                    if has_id(old_out, p.id@) {
                        let i = choose|i: int| 0 <= i < old_out.len() && (#[trigger] old_out[i]).id@ == p.id@;
                        lemma_insert_sorted(old_out, pos as int, p);
                        lemma_text_lt_irrefl(p.id@);
                    }
                }
                lemma_first_when_new(orig, old_out, n as int);
                lemma_insert_sorted(old_out, pos as int, p);
            }
            out.insert(pos, p);
            proof {
                assert(out@ =~= old_out.insert(pos as int, orig[n as int]));
                let old_src = src;
                src = src.insert(pos as int, n as int);
                assert forall|i: int| 0 <= i < out@.len() implies 0 <= #[trigger] src[i] < n + 1 && first_of_id(orig, src[i])
                    && out@[i] == orig[src[i]] by {
                    if i < pos {
                        assert(src[i] == old_src[i] && out@[i] == old_out[i]);
                    } else if i > pos {
                        assert(src[i] == old_src[i - 1] && out@[i] == old_out[i - 1]);
                    }
                }
                assert forall|k: int| 0 <= k < n + 1 implies has_id(out@, (#[trigger] orig[k]).id@) by {
                    lemma_has_id_insert(old_out, pos as int, p, orig[k].id@);
                }
            }
        }
        n = n + 1;
    }
    assert(n == orig.len());
    assert forall|i: int| 0 <= i < out@.len() implies is_first_loaded(orig, #[trigger] out@[i]) by {
        assert(orig[src[i]] == out@[i]);
    }
    out
}

} // verus!

verus! {

fn names_ascending_exec<T>(m: &Vec<(String, T)>) -> (r: bool)
    ensures
        r == names_ascending(m@),
{
    let n = m.len();
    if n == 0 {
        return true;
    }
    let mut k: usize = 0;
    while k + 1 < n
        invariant
            n == m@.len(),
            n > 0,
            k + 1 <= n,
            forall|i: int, j: int| 0 <= i < j <= k ==> text_lt(#[trigger] m@[i].0@, #[trigger] m@[j].0@),
        decreases n - k,
    {
        let a = chars_of(m[k].0.as_str());
        let b = chars_of(m[k + 1].0.as_str());
        if !text_lt_exec(&a, &b) {
            assert(!names_ascending(m@)) by {
                assert(!text_lt(m@[k as int].0@, m@[k + 1].0@));
            }
            return false;
        }
        proof {
            assert forall|i: int, j: int| 0 <= i < j <= k + 1 implies text_lt(#[trigger] m@[i].0@, #[trigger] m@[j].0@) by {
                if j == k + 1 && i < k {
                    lemma_text_lt_trans(m@[i].0@, m@[k as int].0@, m@[k + 1].0@);
                }
            }
        }
        k = k + 1;
    }
    true
}

impl Preset {
    /// Whether the preset holds its invariant (`wf`): every name-keyed map in
    /// ascending name order, each name once.
    pub fn maps_in_order(&self) -> (r: bool)
        ensures
            r == self.wf(),
    {
        if !names_ascending_exec(&self.balance.extract.extras) || !names_ascending_exec(&self.balance.computed)
            || !names_ascending_exec(&self.endpoints) {
            return false;
        }
        let mut i: usize = 0;
        while i < self.endpoints.len()
            invariant
                i <= self.endpoints@.len(),
                forall|k: int| 0 <= k < i ==> {
                    &&& names_ascending((#[trigger] self.endpoints@[k]).1.extract@)
                    &&& names_ascending(self.endpoints@[k].1.computed@)
                },
            decreases self.endpoints.len() - i,
        {
            if !names_ascending_exec(&self.endpoints[i].1.extract) || !names_ascending_exec(&self.endpoints[i].1.computed) {
                return false;
            }
            i = i + 1;
        }
        true
    }
}

} // verus!
