//! JSON path syntax (`balance_infos[0].total_balance`) and value extraction.

use vstd::prelude::*;
use crate::json::{Json, JsonV, json_view};

verus! {

broadcast use vstd::string::group_string_axioms;

// ------------------------------------------------------------------ tokens

/// One step of a path: a member name or an array index.
pub enum Tok {
    Key(String),
    Index(usize),
}

pub enum TokV {
    Key(Seq<char>),
    Index(nat),
}

impl View for Tok {
    type V = TokV;

    open spec fn view(&self) -> TokV {
        match self {
            Tok::Key(k) => TokV::Key(k@),
            Tok::Index(i) => TokV::Index(*i as nat),
        }
    }
}

pub open spec fn toks_view(t: Seq<Tok>) -> Seq<TokV> {
    t.map_values(|x: Tok| x@)
}

pub open spec fn is_ascii_digit(c: char) -> bool {
    '0' <= c <= '9'
}

pub open spec fn is_ascii_alphanumeric(c: char) -> bool {
    ('a' <= c <= 'z') || ('A' <= c <= 'Z') || ('0' <= c <= '9')
}

/// Characters allowed in a member name of a path.
pub open spec fn is_key_char(c: char) -> bool {
    is_ascii_alphanumeric(c) || c == '_' || c == '-'
}

/// Index just past the run of ASCII digits that starts at `i`.
pub open spec fn digit_run_end(p: Seq<char>, i: int) -> int
    decreases p.len() - i,
{
    if 0 <= i < p.len() && is_ascii_digit(p[i]) {
        digit_run_end(p, i + 1)
    } else {
        i
    }
}

pub proof fn lemma_digit_run_end(p: Seq<char>, i: int)
    requires
        0 <= i,
    ensures
        i <= digit_run_end(p, i),
        i <= p.len() ==> digit_run_end(p, i) <= p.len(),
        forall|k: int| i <= k < digit_run_end(p, i) ==> is_ascii_digit(#[trigger] p[k]),
        digit_run_end(p, i) < p.len() ==> !is_ascii_digit(p[digit_run_end(p, i)]),
    decreases p.len() - i,
{
    if 0 <= i < p.len() && is_ascii_digit(p[i]) {
        lemma_digit_run_end(p, i + 1);
    }
}

/// The value of a run of decimal digits.
pub open spec fn decimal_value(ds: Seq<char>) -> nat
    decreases ds.len(),
{
    if ds.len() == 0 {
        0
    } else {
        decimal_value(ds.drop_last()) * 10 + (ds.last() as nat - 48) as nat
    }
}

/// The path scanner: `key` is the member name being read, `toks` the steps so far.
/// A '.' ends a name; right after an index it is skipped; `[digits]` is an index.
pub open spec fn scan_path(p: Seq<char>, i: int, key: Seq<char>, toks: Seq<TokV>) -> Option<Seq<TokV>>
    decreases p.len() - i,
{
    if i < 0 || i >= p.len() {
        let all = if key.len() > 0 { toks.push(TokV::Key(key)) } else { toks };
        if all.len() == 0 { None } else { Some(all) }
    } else if p[i] == '.' {
        if key.len() == 0 {
            if toks.len() > 0 && toks.last() is Index {
                scan_path(p, i + 1, key, toks)
            } else {
                None
            }
        } else {
            scan_path(p, i + 1, Seq::empty(), toks.push(TokV::Key(key)))
        }
    } else if p[i] == '[' {
        let toks1 = if key.len() > 0 { toks.push(TokV::Key(key)) } else { toks };
        let j = digit_run_end(p, i + 1);
        proof {
            lemma_digit_run_end(p, i + 1);
        }
        if j == i + 1 || j >= p.len() || p[j] != ']' {
            None
        } else if decimal_value(p.subrange(i + 1, j)) > usize::MAX {
            None
        } else {
            scan_path(p, j + 1, Seq::empty(), toks1.push(TokV::Index(decimal_value(p.subrange(i + 1, j)))))
        }
    } else if is_key_char(p[i]) {
        scan_path(p, i + 1, key.push(p[i]), toks)
    } else {
        None
    }
}

/// The steps of a path, or `None` when its syntax is not valid.
pub open spec fn path_tokens(p: Seq<char>) -> Option<Seq<TokV>> {
    scan_path(p, 0, Seq::empty(), Seq::empty())
}

fn is_digit_exec(c: char) -> (r: bool)
    ensures
        r == is_ascii_digit(c),
{
    '0' <= c && c <= '9'
}

pub(crate) fn is_key_char_exec(c: char) -> (r: bool)
    ensures
        r == is_key_char(c),
{
    ('a' <= c && c <= 'z') || ('A' <= c && c <= 'Z') || ('0' <= c && c <= '9') || c == '_' || c
        == '-'
}

proof fn lemma_decimal_push(ds: Seq<char>, c: char)
    ensures
        decimal_value(ds.push(c)) == decimal_value(ds) * 10 + (c as nat - 48) as nat,
{
    assert(ds.push(c).drop_last() =~= ds);
}

/// Splits a path such as `a.b[0][1].c` into its steps; `None` when the syntax is not valid.
pub fn tokenize(path: &str) -> (r: Option<Vec<Tok>>)
    ensures
        match r {
            Some(t) => path_tokens(path@) == Some(toks_view(t@)),
            None => path_tokens(path@) is None,
        },
{
    let b = crate::text::chars_of(path);
    let ghost p = path@;
    let mut toks: Vec<Tok> = Vec::new();
    let mut key = String::new();
    let mut i: usize = 0;
    assert(toks_view(toks@) =~= Seq::<TokV>::empty());
    assert(key@ =~= Seq::<char>::empty());
    while i < b.len()
        invariant
            b@ == p,
            p == path@,
            i <= b.len(),
            path_tokens(p) == scan_path(p, i as int, key@, toks_view(toks@)),
        decreases b.len() - i,
    {
        let c = b[i];
        if c == '.' {
            if key.unicode_len() == 0 {
                let after_index = toks.len() > 0 && match &toks[toks.len() - 1] {
                    Tok::Index(_) => true,
                    Tok::Key(_) => false,
                };
                if toks.len() > 0 {
                    assert(toks_view(toks@).last() == toks@.last()@);
                }
                if after_index {
                    i = i + 1;
                } else {
                    assert(scan_path(p, i as int, key@, toks_view(toks@)) is None);
                    return None;
                }
            } else {
                let mut k = String::new();
                std::mem::swap(&mut k, &mut key);
                let ghost old_toks = toks@;
                toks.push(Tok::Key(k));
                assert(toks_view(toks@) =~= toks_view(old_toks).push(TokV::Key(k@)));
                i = i + 1;
            }
        } else if c == '[' {
            if key.unicode_len() > 0 {
                let mut k = String::new();
                std::mem::swap(&mut k, &mut key);
                let ghost old_toks = toks@;
                toks.push(Tok::Key(k));
                assert(toks_view(toks@) =~= toks_view(old_toks).push(TokV::Key(k@)));
            }
            let ghost toks1 = toks_view(toks@);
            proof {
                lemma_digit_run_end(p, i + 1);
            }
            let start = i + 1;
            let mut j = start;
            let mut n: usize = 0;
            let mut overflow = false;
            while j < b.len() && is_digit_exec(b[j])
                invariant
                    b@ == p,
                    start <= j <= b.len(),
                    forall|k: int| start <= k < j ==> is_ascii_digit(#[trigger] p[k]),
                    digit_run_end(p, start as int) == digit_run_end(p, j as int),
                    !overflow ==> n == decimal_value(p.subrange(start as int, j as int)),
                    overflow ==> decimal_value(p.subrange(start as int, j as int)) > usize::MAX,
                decreases b.len() - j,
            {
                let d = (b[j] as u32 - 48) as usize;
                proof {
                    lemma_decimal_push(p.subrange(start as int, j as int), p[j as int]);
                    assert(p.subrange(start as int, j + 1) =~= p.subrange(start as int, j as int).push(p[j as int]));
                }
                if !overflow {
                    match n.checked_mul(10) {
                        Some(m) => match m.checked_add(d) {
                            Some(v) => {
                                n = v;
                            },
                            None => {
                                overflow = true;
                            },
                        },
                        None => {
                            overflow = true;
                        },
                    }
                }
                j = j + 1;
            }
            if j == start || j >= b.len() || b[j] != ']' {
                return None;
            }
            if overflow {
                return None;
            }
            let ghost old_toks = toks@;
            toks.push(Tok::Index(n));
            assert(toks_view(toks@) =~= toks1.push(TokV::Index(n as nat)));
            assert(key@ =~= Seq::<char>::empty());
            i = j + 1;
        } else if is_key_char_exec(c) {
            crate::text::push_char(&mut key, c);
            i = i + 1;
        } else {
            assert(scan_path(p, i as int, key@, toks_view(toks@)) is None);
            return None;
        }
    }
    if key.unicode_len() > 0 {
        let ghost old_toks = toks@;
        toks.push(Tok::Key(key));
        assert(toks_view(toks@) =~= toks_view(old_toks).push(TokV::Key(key@)));
    }
    if toks.len() == 0 {
        return None;
    }
    Some(toks)
}

} // verus!

verus! {

// ------------------------------------------------------------------ resolving

/// The members of an object, by value.
pub open spec fn entries_view(es: Seq<(String, Json)>) -> Seq<(Seq<char>, JsonV)> {
    Seq::new(es.len(), |i: int| (es[i].0@, json_view(es[i].1)))
}

/// The items of an array, by value.
pub open spec fn items_view(a: Seq<Json>) -> Seq<JsonV> {
    Seq::new(a.len(), |i: int| json_view(a[i]))
}

pub proof fn lemma_container_views(j: Json)
    ensures
        j matches Json::Object(es) ==> json_view(j) == JsonV::Object(entries_view(es@)),
        j matches Json::Array(a) ==> json_view(j) == JsonV::Array(items_view(a@)),
{
    match j {
        Json::Object(es) => {
            assert(json_view(j)->Object_0 =~= entries_view(es@));
        },
        Json::Array(a) => {
            assert(json_view(j)->Array_0 =~= items_view(a@));
        },
        _ => {},
    }
}

/// The first member named `k`.
pub open spec fn object_get(es: Seq<(Seq<char>, JsonV)>, k: Seq<char>) -> Option<JsonV>
    decreases es.len(),
{
    if es.len() == 0 {
        None
    } else if es[0].0 == k {
        Some(es[0].1)
    } else {
        object_get(es.drop_first(), k)
    }
}

/// Follows the steps `toks` from `v`.
pub open spec fn walk(v: JsonV, toks: Seq<TokV>) -> Option<JsonV>
    decreases toks.len(),
{
    if toks.len() == 0 {
        Some(v)
    } else {
        let next = match toks[0] {
            TokV::Key(k) => match v {
                JsonV::Object(es) => object_get(es, k),
                _ => None,
            },
            TokV::Index(i) => match v {
                JsonV::Array(a) => if i < a.len() { Some(a[i as int]) } else { None },
                _ => None,
            },
        };
        match next {
            Some(n) => walk(n, toks.drop_first()),
            None => None,
        }
    }
}

/// The value at `path` in `root`; `None` when the path is not valid or leads nowhere.
pub open spec fn resolve_path(root: JsonV, path: Seq<char>) -> Option<JsonV> {
    match path_tokens(path) {
        Some(t) => walk(root, t),
        None => None,
    }
}

fn object_lookup<'a>(es: &'a Vec<(String, Json)>, k: &String) -> (r: Option<&'a Json>)
    ensures
        match r {
            Some(x) => object_get(entries_view(es@), k@) == Some(x@),
            None => object_get(entries_view(es@), k@) is None,
        },
{
    let ghost ev = entries_view(es@);
    let mut i: usize = 0;
    assert(ev.skip(0) =~= ev);
    while i < es.len()
        invariant
            i <= es.len(),
            ev == entries_view(es@),
            object_get(ev, k@) == object_get(ev.skip(i as int), k@),
        decreases es.len() - i,
    {
        assert(ev.skip(i as int)[0] == ev[i as int]);
        if es[i].0 == *k {
            return Some(&es[i].1);
        }
        assert(ev.skip(i as int).drop_first() =~= ev.skip(i + 1));
        i = i + 1;
    }
    None
}

/// The value at `path` in `root` (e.g. `balance_infos[0].total_balance`); `None` when absent.
pub fn resolve<'a>(root: &'a Json, path: &str) -> (r: Option<&'a Json>)
    ensures
        match r {
            Some(x) => resolve_path(root@, path@) == Some(x@),
            None => resolve_path(root@, path@) is None,
        },
{
    let toks = match tokenize(path) {
        Some(t) => t,
        None => return None,
    };
    let ghost tv = toks_view(toks@);
    let mut cur: &Json = root;
    let mut i: usize = 0;
    assert(tv.skip(0) =~= tv);
    while i < toks.len()
        invariant
            i <= toks.len(),
            tv == toks_view(toks@),
            path_tokens(path@) == Some(tv),
            walk(root@, tv) == walk(cur@, tv.skip(i as int)),
        decreases toks.len() - i,
    {
        let ghost rest = tv.skip(i as int);
        assert(rest[0] == toks@[i as int]@);
        assert(rest.drop_first() =~= tv.skip(i + 1));
        proof {
            lemma_container_views(*cur);
        }
        match &toks[i] {
            Tok::Key(k) => match cur {
                Json::Object(es) => match object_lookup(es, k) {
                    Some(x) => {
                        cur = x;
                    },
                    None => {
                        assert(rest[0] == TokV::Key(k@));
                        assert(walk(root@, tv) is None);
                        return None;
                    },
                },
                _ => return None,
            },
            Tok::Index(n) => match cur {
                Json::Array(a) => {
                    if *n < a.len() {
                        cur = &a[*n];
                    } else {
                        assert(rest[0] == TokV::Index(*n as nat));
                        assert(walk(root@, tv) is None);
                        return None;
                    }
                },
                _ => return None,
            },
        }
        i = i + 1;
    }
    assert(tv.skip(toks.len() as int) =~= Seq::<TokV>::empty());
    Some(cur)
}

// ------------------------------------------------------------------ extraction

/// A path, or candidate paths tried in order (the first non-null hit wins).
#[derive(Clone, Debug)]
pub enum PathSpec {
    One(String),
    Many(Vec<String>),
}

impl PathSpec {
    pub open spec fn path_list(&self) -> Seq<Seq<char>> {
        match self {
            PathSpec::One(p) => seq![p@],
            PathSpec::Many(v) => v@.map_values(|s: String| s@),
        }
    }

    /// The candidate paths in order.
    pub fn paths(&self) -> (r: Vec<&str>)
        ensures
            r@.map_values(|s: &str| s@) == self.path_list(),
    {
        match self {
            PathSpec::One(p) => {
                let mut r: Vec<&str> = Vec::new();
                r.push(p.as_str());
                assert(r@.map_values(|s: &str| s@) =~= self.path_list());
                r
            },
            PathSpec::Many(v) => {
                let mut r: Vec<&str> = Vec::new();
                let mut i: usize = 0;
                while i < v.len()
                    invariant
                        i <= v.len(),
                        r@.len() == i,
                        forall|k: int| 0 <= k < i ==> #[trigger] r@[k]@ == v@[k]@,
                    decreases v.len() - i,
                {
                    r.push(v[i].as_str());
                    i = i + 1;
                }
                assert(r@.map_values(|s: &str| s@) =~= self.path_list());
                r
            },
        }
    }

    /// The candidate paths joined by " | ".
    pub fn display(&self) -> (r: String)
        ensures
            r@ == crate::text::join_seq(self.path_list(), " | "@),
    {
        let ps = self.paths();
        crate::text::join_strs(&ps, " | ")
    }
}

impl Default for PathSpec {
    fn default() -> (r: PathSpec)
        ensures
            r.path_list() == seq![Seq::<char>::empty()],
    {
        PathSpec::One(String::new())
    }
}

/// How one field is taken from a response.
#[derive(Clone, Debug)]
pub struct ExtractSpec {
    /// May be empty: then only `default` supplies the value.
    pub path: PathSpec,
    /// When missing: `None` rather than an error.
    pub optional: bool,
    /// When missing and not optional: this value.
    pub default: Option<Json>,
}

pub open spec fn opt_view(o: Option<Json>) -> Option<JsonV> {
    match o {
        Some(j) => Some(j@),
        None => None,
    }
}

/// The first candidate path that resolves to a non-null value, and that value.
pub open spec fn first_hit(paths: Seq<Seq<char>>, root: JsonV) -> Option<JsonV>
    decreases paths.len(),
{
    if paths.len() == 0 {
        None
    } else {
        match resolve_path(root, paths[0]) {
            Some(v) => if v is Null { first_hit(paths.drop_first(), root) } else { Some(v) },
            None => first_hit(paths.drop_first(), root),
        }
    }
}

pub open spec fn missing_field_text(p: PathSpec) -> Seq<char> {
    "响应缺少字段: "@ + crate::text::join_seq(p.path_list(), " | "@)
}

/// What `extract` gives: a hit, else `None` when optional, else the default, else an error.
pub open spec fn extract_result(spec: ExtractSpec, root: JsonV) -> Result<Option<JsonV>, Seq<char>> {
    match first_hit(spec.path.path_list(), root) {
        Some(v) => Ok(Some(v)),
        None => if spec.optional {
            Ok(None)
        } else {
            match spec.default {
                Some(d) => Ok(Some(d@)),
                None => Err(missing_field_text(spec.path)),
            }
        },
    }
}

/// Takes a field from a response by its extraction spec.
pub fn extract(spec: &ExtractSpec, root: &Json) -> (r: Result<Option<Json>, String>)
    ensures
        match (r, extract_result(*spec, root@)) {
            (Ok(a), Ok(b)) => opt_view(a) == b,
            (Err(e), Err(m)) => e@ == m,
            _ => false,
        },
{
    let paths = spec.path.paths();
    let ghost pl = spec.path.path_list();
    let mut i: usize = 0;
    assert(pl.skip(0) =~= pl);
    while i < paths.len()
        invariant
            i <= paths.len(),
            pl == spec.path.path_list(),
            paths@.map_values(|s: &str| s@) == pl,
            first_hit(pl, root@) == first_hit(pl.skip(i as int), root@),
        decreases paths.len() - i,
    {
        assert(pl.skip(i as int)[0] == paths@[i as int]@);
        assert(pl.skip(i as int).drop_first() =~= pl.skip(i + 1));
        if let Some(v) = resolve(root, paths[i]) {
            let is_null = match v {
                Json::Null => true,
                _ => false,
            };
            if !is_null {
                return Ok(Some(v.deep_clone()));
            }
        }
        i = i + 1;
    }
    assert(pl.skip(paths.len() as int) =~= Seq::<Seq<char>>::empty());
    if spec.optional {
        return Ok(None);
    }
    if let Some(d) = &spec.default {
        return Ok(Some(d.deep_clone()));
    }
    let mut e = "响应缺少字段: ".to_string();
    let shown = spec.path.display();
    e.append(shown.as_str());
    Err(e)
}

} // verus!
