//! Request building for provider fetches: the URL with the credential put in, the
//! auth header's value, the HTTP method, and the hint added to HTTP errors.

use vstd::prelude::*;
use crate::text::{chars_of, append_chars};
use crate::validate::{ascii_upper, upper_chars, starts_with};
use crate::template::lit_eq;

verus! {

broadcast use vstd::string::group_string_axioms;

/// A hint for an HTTP status that is not 200.
pub open spec fn http_hint_of(status: u16) -> Seq<char> {
    if status == 401 {
        "(401 未授权:凭据无效/过期)"@
    } else if status == 402 {
        "(402 余额不足/欠费)"@
    } else if status == 403 {
        "(403 禁止访问:检查凭据权限或 IP)"@
    } else if status == 404 {
        "(404 接口不存在:检查预设 url)"@
    } else if status == 429 {
        "(429 请求过频/限流,稍后重试)"@
    } else if 500 <= status < 600 {
        "(服务端错误,稍后重试)"@
    } else {
        ""@
    }
}

pub fn http_hint(status: u16) -> (r: &'static str)
    ensures
        r@ == http_hint_of(status),
{
    if status == 401 {
        "(401 未授权:凭据无效/过期)"
    } else if status == 402 {
        "(402 余额不足/欠费)"
    } else if status == 403 {
        "(403 禁止访问:检查凭据权限或 IP)"
    } else if status == 404 {
        "(404 接口不存在:检查预设 url)"
    } else if status == 429 {
        "(429 请求过频/限流,稍后重试)"
    } else if 500 <= status && status < 600 {
        "(服务端错误,稍后重试)"
    } else {
        ""
    }
}

/// `s` with every occurrence of `pat` replaced by `rep`, scanning left to right
/// without overlaps, as `str::replace` does.
pub open spec fn replace_all(s: Seq<char>, pat: Seq<char>, rep: Seq<char>) -> Seq<char>
    recommends
        pat.len() > 0,
    decreases s.len(),
{
    if s.len() == 0 || pat.len() == 0 {
        s
    } else if starts_with(s, pat) {
        rep + replace_all(s.skip(pat.len() as int), pat, rep)
    } else {
        seq![s[0]] + replace_all(s.drop_first(), pat, rep)
    }
}

/// The request URL of a template: every `{key}` replaced by the credential.
pub fn request_url(url: &str, credential: &str) -> (r: String)
    ensures
        r@ == replace_all(url@, "{key}"@, credential@),
{
    let s = chars_of(url);
    let p = chars_of("{key}");
    let c = chars_of(credential);
    let n = s.len();
    let mut out = String::new();
    let mut i: usize = 0;
    proof {
        reveal_strlit("{key}");
    }
    assert(s@.skip(0) =~= s@);
    assert(p@ =~= seq!['{', 'k', 'e', 'y', '}']);
    while i < n
        invariant
            i <= n,
            n == s@.len(),
            s@ == url@,
            p@ == "{key}"@,
            p@ == seq!['{', 'k', 'e', 'y', '}'],
            c@ == credential@,
            replace_all(url@, p@, c@) == out@ + replace_all(s@.skip(i as int), p@, c@),
        decreases n - i,
    {
        let ghost rest = s@.skip(i as int);
        let hit = n - i >= 5 && s[i] == '{' && s[i + 1] == 'k' && s[i + 2] == 'e' && s[i + 3]
            == 'y' && s[i + 4] == '}';
        assert(hit == starts_with(rest, p@)) by {
            if n - i >= 5 {
                assert(rest.take(5) =~= seq![s@[i as int], s@[i + 1], s@[i + 2], s@[i + 3], s@[i + 4]]);
            }
        }
        if hit {
            append_chars(&mut out, &c);
            assert(rest.skip(5) =~= s@.skip(i + 5));
            i = i + 5;
        } else {
            crate::text::push_char(&mut out, s[i]);
            assert(rest.drop_first() =~= s@.skip(i + 1));
            assert(rest[0] == s@[i as int]);
            i = i + 1;
        }
    }
    assert(s@.skip(n as int) =~= Seq::<char>::empty());
    out
}

/// The value of the auth header: the preset's prefix, then the credential.
pub fn auth_value(prefix: &str, credential: &str) -> (r: String)
    ensures
        r@ == prefix@ + credential@,
{
    let mut r = prefix.to_string();
    r.append(credential);
    r
}

/// The request methods a preset may name.
#[derive(PartialEq, Eq, Structural, Clone, Copy, Debug)]
pub enum HttpMethod {
    Get,
    Post,
}

pub open spec fn method_of(m: Seq<char>) -> Option<HttpMethod> {
    if ascii_upper(m) == "GET"@ {
        Some(HttpMethod::Get)
    } else if ascii_upper(m) == "POST"@ {
        Some(HttpMethod::Post)
    } else {
        None
    }
}

/// The method a preset names, in any case; `None` for any other method.
pub fn request_method(method: &str) -> (r: Option<HttpMethod>)
    ensures
        r == method_of(method@),
{
    let c = chars_of(method);
    let u = upper_chars(&c);
    if lit_eq(&u, "GET") {
        Some(HttpMethod::Get)
    } else if lit_eq(&u, "POST") {
        Some(HttpMethod::Post)
    } else {
        None
    }
}

} // verus!
