//! Response normalization, the parts that do not compute with numbers: the
//! "not available" test, field extraction, the currency, and the first pass of an
//! endpoint. Derived values (`computed`) are floating point and evaluated outside.

use vstd::prelude::*;
use crate::json::{Json, JsonV};
use crate::path::{ExtractSpec, extract, extract_result, first_hit, opt_view, resolve, resolve_path};
use crate::preset::{EndpointSpec, UnavailableWhen};
use crate::text::{chars_of, trim, trim_chars, string_of};

verus! {

broadcast use vstd::string::group_string_axioms;

/// Some candidate path of `uw` leads to a value equal to `uw.equals`.
pub open spec fn unavailable(uw: UnavailableWhen, body: JsonV) -> bool {
    exists|k: int|
        0 <= k < uw.path.path_list().len() && resolve_path(body, #[trigger] uw.path.path_list()[k])
            == Some(uw.equals@)
}

/// Whether the response says that the data is not available.
pub fn is_unavailable(uw: &UnavailableWhen, body: &Json) -> (r: bool)
    ensures
        r == unavailable(*uw, body@),
{
    let ps = uw.path.paths();
    let ghost pl = uw.path.path_list();
    let mut k: usize = 0;
    while k < ps.len()
        invariant
            k <= ps@.len(),
            pl == uw.path.path_list(),
            ps@.map_values(|s: &str| s@) == pl,
            forall|j: int| 0 <= j < k ==> resolve_path(body@, #[trigger] pl[j]) != Some(uw.equals@),
        decreases ps.len() - k,
    {
        assert(pl[k as int] == ps@[k as int]@);
        match resolve(body, ps[k]) {
            Some(v) => {
                if v.json_eq(&uw.equals) {
                    return true;
                }
            },
            None => {},
        }
        k = k + 1;
    }
    false
}

/// The fields that `specs` extract from `body`, in order; a field that is missing
/// (optional, or an error) is left out.
pub open spec fn extracted(specs: Seq<(String, ExtractSpec)>, body: JsonV) -> Seq<(Seq<char>, JsonV)>
    decreases specs.len(),
{
    if specs.len() == 0 {
        Seq::empty()
    } else {
        let head = match extract_result(specs[0].1, body) {
            Ok(Some(v)) => seq![(specs[0].0@, v)],
            _ => Seq::empty(),
        };
        head + extracted(specs.drop_first(), body)
    }
}

pub open spec fn entries_of(m: Seq<(String, Json)>) -> Seq<(Seq<char>, JsonV)> {
    m.map_values(|e: (String, Json)| (e.0@, e.1@))
}

/// Extracts every named field of `specs` from `body` (the extras of a balance, the
/// first pass of an endpoint).
pub fn extract_all(specs: &Vec<(String, ExtractSpec)>, body: &Json) -> (r: Vec<(String, Json)>)
    ensures
        entries_of(r@) == extracted(specs@, body@),
{
    let mut out: Vec<(String, Json)> = Vec::new();
    let mut i: usize = 0;
    assert(specs@.skip(0) =~= specs@);
    assert(entries_of(out@) =~= Seq::<(Seq<char>, JsonV)>::empty());
    while i < specs.len()
        invariant
            i <= specs@.len(),
            extracted(specs@, body@) == entries_of(out@) + extracted(specs@.skip(i as int), body@),
        decreases specs.len() - i,
    {
        let ghost rest = specs@.skip(i as int);
        assert(rest[0] == specs@[i as int]);
        assert(rest.drop_first() =~= specs@.skip(i + 1));
        let ghost before = entries_of(out@);
        match extract(&specs[i].1, body) {
            Ok(Some(v)) => {
                out.push((specs[i].0.clone(), v));
                assert(entries_of(out@) =~= before.push((specs@[i as int].0@, v@)));
                assert(before.push((specs@[i as int].0@, v@)) + extracted(specs@.skip(i + 1), body@)
                    =~= before + extracted(rest, body@));
            },
            _ => {
                assert(before + extracted(specs@.skip(i + 1), body@) =~= before + extracted(rest, body@));
            },
        }
        i = i + 1;
    }
    assert(specs@.skip(i as int) =~= Seq::<(String, ExtractSpec)>::empty());
    assert(entries_of(out@) + Seq::empty() =~= entries_of(out@));
    out
}

/// The currency of a balance: the extracted text, trimmed, when it is a non-blank
/// string; `CNY` otherwise.
pub open spec fn currency_of(spec: Option<ExtractSpec>, body: JsonV) -> Seq<char> {
    match spec {
        Some(s) => match extract_result(s, body) {
            Ok(Some(JsonV::String(c))) => if trim(c).len() > 0 { trim(c) } else { "CNY"@ },
            _ => "CNY"@,
        },
        None => "CNY"@,
    }
}

pub fn extract_currency(spec: &Option<ExtractSpec>, body: &Json) -> (r: String)
    ensures
        r@ == currency_of(*spec, body@),
{
    if let Some(s) = spec {
        if let Ok(Some(val)) = extract(s, body) {
            if let Json::String(c) = &val {
                let cc = chars_of(c.as_str());
                let t = trim_chars(&cc);
                if t.len() > 0 {
                    return string_of(&t);
                }
            }
        }
    }
    "CNY".to_string()
}

/// The first pass of an endpoint: `None` when the response says "not available";
/// otherwise the extracted fields, or the whole response under `response` when the
/// endpoint extracts nothing and derives nothing.
pub open spec fn endpoint_fields(ep: EndpointSpec, body: JsonV) -> Option<Seq<(Seq<char>, JsonV)>> {
    if ep.unavailable_when matches Some(uw) && unavailable(uw, body) {
        None
    } else {
        let m = extracted(ep.extract@, body);
        if m.len() == 0 && ep.computed@.len() == 0 {
            Some(seq![("response"@, body)])
        } else {
            Some(m)
        }
    }
}

pub fn endpoint_first_pass(ep: &EndpointSpec, body: &Json) -> (r: Option<Vec<(String, Json)>>)
    ensures
        match r {
            Some(m) => endpoint_fields(*ep, body@) == Some(entries_of(m@)),
            None => endpoint_fields(*ep, body@) is None,
        },
{
    if let Some(uw) = &ep.unavailable_when {
        if is_unavailable(uw, body) {
            return None;
        }
    }
    let mut m = extract_all(&ep.extract, body);
    if m.len() == 0 && ep.computed.len() == 0 {
        m.push(("response".to_string(), body.deep_clone()));
        assert(entries_of(m@) =~= seq![("response"@, body@)]);
    }
    Some(m)
}

} // verus!

verus! {

/// The error when a balance has no total: neither extracted nor derived.
pub open spec fn total_missing_text(extract_total: Option<ExtractSpec>) -> Seq<char> {
    "余额总额字段缺失或非数值: "@ + match extract_total {
        Some(t) => crate::text::join_seq(t.path.path_list(), " | "@),
        None => Seq::empty(),
    }
}

pub fn total_missing_message(extract_total: &Option<ExtractSpec>) -> (r: String)
    ensures
        r@ == total_missing_text(*extract_total),
{
    let mut r = "余额总额字段缺失或非数值: ".to_string();
    match extract_total {
        Some(t) => {
            let d = t.path.display();
            r.append(d.as_str());
        },
        None => {},
    }
    r
}

/// The error of a derived value whose expression does not parse.
pub fn computed_error(name: &str, err: &str) -> (r: String)
    ensures
        r@ == "computed."@ + name@ + " 表达式非法: "@ + err@,
{
    let mut r = "computed.".to_string();
    r.append(name);
    r.append(" 表达式非法: ");
    r.append(err);
    r
}

} // verus!

verus! {

// ------------------------------------------------------------------ laws

/// A response is "not available" exactly when one of the candidate paths of
/// `unavailableWhen` leads to a value equal to `equals`: it is so when some path
/// does, and it is never so when every path leads elsewhere or nowhere.
pub proof fn lemma_unavailable_when_equal(uw: UnavailableWhen, body: JsonV)
    ensures
        (exists|k: int| 0 <= k < uw.path.path_list().len()
            && resolve_path(body, #[trigger] uw.path.path_list()[k]) == Some(uw.equals@))
            ==> unavailable(uw, body),
        (forall|k: int| 0 <= k < uw.path.path_list().len()
            ==> resolve_path(body, #[trigger] uw.path.path_list()[k]) != Some(uw.equals@))
            ==> !unavailable(uw, body),
{
}

/// The currency of a balance is the extracted text, trimmed, whenever the currency
/// spec extracts a string that is not blank.
pub proof fn lemma_currency_extracted(s: ExtractSpec, body: JsonV, c: Seq<char>)
    requires
        extract_result(s, body) == Ok::<Option<JsonV>, Seq<char>>(Some(JsonV::String(c))),
        trim(c).len() > 0,
    ensures
        currency_of(Some(s), body) == trim(c),
{
}

/// Only when the currency spec extracts no non-blank string (or there is no spec)
/// is the currency `CNY`.
pub proof fn lemma_currency_default(spec: Option<ExtractSpec>, body: JsonV)
    requires
        spec matches Some(s) ==> !(extract_result(s, body) matches Ok(Some(JsonV::String(c))) && trim(c).len() > 0),
    ensures
        currency_of(spec, body) == "CNY"@,
{
}

} // verus!
