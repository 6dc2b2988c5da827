//! The registry of built-in fetchers ("capabilities") that preset endpoints name
//! with `"fetcher"`, and the request details of the DeepSeek usage export.

use vstd::prelude::*;
use crate::text::{chars_of, copy_range, string_of, join_seq};
use crate::expr::chars_eq;
use crate::fmt::{int_text, push_int};
use crate::usage::TZ_SEC;

verus! {

broadcast use vstd::string::group_string_axioms;

/// Name under which the DeepSeek usage export is registered.
pub const USAGE_EXPORT_NAME: &'static str = "deepseek-usage-export";

/// Its one-line description.
pub const USAGE_EXPORT_ABOUT: &'static str = "DeepSeek 平台用量导出(zip/CSV,近 7 日逐日序列)";

/// The registered fetchers, (name, description), in registration order.
pub open spec fn registry() -> Seq<(Seq<char>, Seq<char>)> {
    seq![(USAGE_EXPORT_NAME@, USAGE_EXPORT_ABOUT@)]
}

pub open spec fn pairs_of(v: Seq<(&'static str, &'static str)>) -> Seq<(Seq<char>, Seq<char>)> {
    v.map_values(|p: (&'static str, &'static str)| (p.0@, p.1@))
}

/// The registered fetchers, (name, description).
pub fn inventory() -> (r: Vec<(&'static str, &'static str)>)
    ensures
        pairs_of(r@) == registry(),
{
    let mut v: Vec<(&'static str, &'static str)> = Vec::new();
    v.push((USAGE_EXPORT_NAME, USAGE_EXPORT_ABOUT));
    assert(pairs_of(v@) =~= registry());
    v
}

/// Index of the registered fetcher named `name`.
pub fn find_capability(name: &str) -> (r: Option<usize>)
    ensures
        match r {
            Some(i) => i < registry().len() && registry()[i as int].0 == name@ && forall|j: int|
                0 <= j < i ==> registry()[j].0 != name@,
            None => forall|j: int| 0 <= j < registry().len() ==> registry()[j].0 != name@,
        },
{
    let inv = inventory();
    let nc = chars_of(name);
    let mut i: usize = 0;
    while i < inv.len()
        invariant
            i <= inv@.len(),
            pairs_of(inv@) == registry(),
            nc@ == name@,
            forall|j: int| 0 <= j < i ==> registry()[j].0 != name@,
        decreases inv.len() - i,
    {
        let c = chars_of(inv[i].0);
        assert(registry()[i as int].0 == inv@[i as int].0@);
        if chars_eq(&c, &nc) {
            return Some(i);
        }
        i = i + 1;
    }
    None
}

/// The registry as the error text lists it: `name(description)` joined with `; `,
/// or `无` when nothing is registered.
pub open spec fn registry_text() -> Seq<char> {
    let items = registry().map_values(|p: (Seq<char>, Seq<char>)| p.0 + "("@ + p.1 + ")"@);
    if items.len() == 0 {
        "无"@
    } else {
        join_seq(items, "; "@)
    }
}

/// The error for a fetcher name that nothing is registered under.
pub open spec fn unregistered_text(name: Seq<char>) -> Seq<char> {
    "未注册的 fetcher: "@ + name + "(已注册: "@ + registry_text() + ";注册方法见 src/capabilities/mod.rs)"@
}

pub fn unregistered_message(name: &str) -> (r: String)
    ensures
        r@ == unregistered_text(name@),
{
    let inv = inventory();
    let ghost items = registry().map_values(|p: (Seq<char>, Seq<char>)| p.0 + "("@ + p.1 + ")"@);
    let mut list = String::new();
    let mut i: usize = 0;
    assert(items.take(0) =~= Seq::<Seq<char>>::empty());
    while i < inv.len()
        invariant
            i <= inv@.len(),
            pairs_of(inv@) == registry(),
            items == registry().map_values(|p: (Seq<char>, Seq<char>)| p.0 + "("@ + p.1 + ")"@),
            list@ == join_seq(items.take(i as int), "; "@),
        decreases inv.len() - i,
    {
        if i > 0 {
            list.append("; ");
        }
        list.append(inv[i].0);
        list.append("(");
        list.append(inv[i].1);
        list.append(")");
        proof {
            assert(items[i as int] == inv@[i as int].0@ + "("@ + inv@[i as int].1@ + ")"@);
            assert(items.take(i + 1).drop_last() =~= items.take(i as int));
        }
        i = i + 1;
    }
    assert(items.take(inv@.len() as int) =~= items);
    let mut r = String::new();
    r.append("未注册的 fetcher: ");
    r.append(name);
    r.append("(已注册: ");
    if inv.len() == 0 {
        r.append("无");
    } else {
        r.append(list.as_str());
    }
    r.append(";注册方法见 src/capabilities/mod.rs)");
    r
}

/// A hint for an HTTP status of the usage export that is not 200.
pub open spec fn export_hint_of(status: u16) -> Seq<char> {
    if status == 401 {
        "(token 无效或已过期,请重新从浏览器 F12 复制)"@
    } else if status == 403 {
        "(访问被拒绝,检查平台 token 权限/网络环境)"@
    } else if status == 429 {
        "(请求过于频繁或触发反爬,稍后重试)"@
    } else if 500 <= status < 600 {
        "(平台服务端错误,稍后重试)"@
    } else {
        ""@
    }
}

pub fn export_hint(status: u16) -> (r: &'static str)
    ensures
        r@ == export_hint_of(status),
{
    if status == 401 {
        "(token 无效或已过期,请重新从浏览器 F12 复制)"
    } else if status == 403 {
        "(访问被拒绝,检查平台 token 权限/网络环境)"
    } else if status == 429 {
        "(请求过于频繁或触发反爬,稍后重试)"
    } else if 500 <= status && status < 600 {
        "(平台服务端错误,稍后重试)"
    } else {
        ""
    }
}

/// `s` without its trailing `/` characters.
pub open spec fn trim_end_slashes(s: Seq<char>) -> Seq<char>
    decreases s.len(),
{
    if s.len() > 0 && s.last() == '/' {
        trim_end_slashes(s.drop_last())
    } else {
        s
    }
}

/// Default address of the usage export.
pub const USAGE_EXPORT_URL: &'static str = "https://platform.deepseek.com/api/v0/usage/export";

/// The export request for the window `[start, end)`:
/// `<base>?start=<start>&end=<end>&tz=28800`, the base without trailing slashes.
pub open spec fn export_url_of(base: Option<Seq<char>>, start: int, end: int) -> Seq<char> {
    let b = match base {
        Some(b) => b,
        None => USAGE_EXPORT_URL@,
    };
    trim_end_slashes(b) + "?start="@ + int_text(start) + "&end="@ + int_text(end) + "&tz="@
        + int_text(TZ_SEC as int)
}

pub fn usage_export_url(base: Option<&str>, start: i64, end: i64) -> (r: String)
    ensures
        r@ == export_url_of(
            match base {
                Some(b) => Some(b@),
                None => None,
            },
            start as int,
            end as int,
        ),
{
    let b = match base {
        Some(b) => b,
        None => USAGE_EXPORT_URL,
    };
    let c = chars_of(b);
    let mut n = c.len();
    assert(c@.take(c@.len() as int) =~= c@);
    while n > 0 && c[n - 1] == '/'
        invariant
            n <= c@.len(),
            trim_end_slashes(c@) == trim_end_slashes(c@.take(n as int)),
        decreases n,
    {
        assert(c@.take(n as int).drop_last() =~= c@.take(n - 1));
        n = n - 1;
    }
    let t = copy_range(&c, 0, n);
    assert(t@ =~= c@.take(n as int));
    assert(c@.take(c@.len() as int) =~= c@);
    let mut r = string_of(&t);
    r.append("?start=");
    push_int(&mut r, start);
    r.append("&end=");
    push_int(&mut r, end);
    r.append("&tz=");
    push_int(&mut r, TZ_SEC);
    r
}

} // verus!
