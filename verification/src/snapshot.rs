//! The snapshot pushed to the band: which providers it lists, each provider's
//! status, and its overall freshness. Widgets and balances are rendered by the
//! caller (their numbers are floating point).

use vstd::prelude::*;
use crate::text::chars_of;
use crate::fmt::{int_text, push_int};
use crate::preset::Preset;
use crate::state::{Settings, credential_of, api_key_field};
use crate::keyed::entry_of;
use crate::state::text_opt;

verus! {

broadcast use vstd::string::group_string_axioms;

/// Version of the snapshot format.
pub const SNAPSHOT_V: u32 = 2;
/// A balance checked at most this many seconds ago is current.
pub const FRESH_SECS: i64 = 300;
/// Most providers a snapshot lists.
pub const MAX_PROVIDERS: usize = 12;

/// An age in words: seconds, minutes, hours or days ago.
pub open spec fn ago_words(secs: int) -> Seq<char> {
    if secs < 60 {
        int_text(secs) + " 秒前"@
    } else if secs < 3600 {
        int_text(secs / 60) + " 分钟前"@
    } else if secs < 86400 {
        int_text(secs / 3600) + " 小时前"@
    } else {
        int_text(secs / 86400) + " 天前"@
    }
}

pub fn fmt_ago(secs: i64) -> (r: String)
    ensures
        r@ == ago_words(secs as int),
{
    let mut r = String::new();
    if secs < 60 {
        push_int(&mut r, secs);
        r.append(" 秒前");
    } else if secs < 3600 {
        push_int(&mut r, secs / 60);
        r.append(" 分钟前");
    } else if secs < 86400 {
        push_int(&mut r, secs / 3600);
        r.append(" 小时前");
    } else {
        push_int(&mut r, secs / 86400);
        r.append(" 天前");
    }
    r
}

/// A provider's status in the snapshot: the status word, its text, and the note
/// shown in place of widgets (`None`: the widgets of its template are shown).
/// The text holds no relative time, so that it does not change from one push to
/// the next; the band works the age out from the balance's check time.
pub open spec fn provider_status_of(
    key_configured: bool,
    has_data: bool,
    checked_at: Option<i64>,
    last_error: Option<Seq<char>>,
    now: i64,
) -> (Seq<char>, Seq<char>, Option<Seq<char>>) {
    if !key_configured {
        ("unconfigured"@, "未配置 API Key"@, Some("未配置 API Key\n请在 AstroBox 插件页面设置"@))
    } else if !has_data {
        ("unconfigured"@, "等待首次查询"@, Some("等待首次查询"@))
    } else {
        match checked_at {
            Some(t) => if now - t <= FRESH_SECS {
                ("ok"@, "已连接"@, None)
            } else {
                ("stale"@, "缓存"@, None)
            },
            None => match last_error {
                Some(e) => ("error"@, "获取失败"@, Some("获取失败\n"@ + e)),
                None => ("unconfigured"@, "尚未获取到数据"@, Some("尚未获取到数据"@)),
            },
        }
    }
}

pub fn provider_status(
    key_configured: bool,
    has_data: bool,
    checked_at: Option<i64>,
    last_error: Option<&str>,
    now: i64,
) -> (r: (String, String, Option<String>))
    ensures
        (r.0@, r.1@, match r.2 {
            Some(n) => Some(n@),
            None => None,
        }) == provider_status_of(
            key_configured,
            has_data,
            checked_at,
            match last_error {
                Some(e) => Some(e@),
                None => None,
            },
            now,
        ),
{
    if !key_configured {
        return (
            "unconfigured".to_string(),
            "未配置 API Key".to_string(),
            Some("未配置 API Key\n请在 AstroBox 插件页面设置".to_string()),
        );
    }
    if !has_data {
        return ("unconfigured".to_string(), "等待首次查询".to_string(), Some("等待首次查询".to_string()));
    }
    match checked_at {
        Some(t) => {
            if (now as i128) - (t as i128) <= FRESH_SECS as i128 {
                ("ok".to_string(), "已连接".to_string(), None)
            } else {
                ("stale".to_string(), "缓存".to_string(), None)
            }
        },
        None => match last_error {
            Some(e) => {
                let mut n = "获取失败\n".to_string();
                n.append(e);
                ("error".to_string(), "获取失败".to_string(), Some(n))
            },
            None => ("unconfigured".to_string(), "尚未获取到数据".to_string(), Some("尚未获取到数据".to_string())),
        },
    }
}

/// The snapshot's freshness: `current` when some balance is current, `cached`
/// when some balance is known, else `unavailable`.
pub open spec fn freshness_of(any_fresh: bool, any_data: bool) -> Seq<char> {
    if any_fresh {
        "current"@
    } else if any_data {
        "cached"@
    } else {
        "unavailable"@
    }
}

pub fn freshness(any_fresh: bool, any_data: bool) -> (r: &'static str)
    ensures
        r@ == freshness_of(any_fresh, any_data),
{
    if any_fresh {
        "current"
    } else if any_data {
        "cached"
    } else {
        "unavailable"
    }
}

/// The providers a snapshot is built from: the enabled presets in order, each
/// with whether its API key is configured.
pub open spec fn listed_providers(ps: Seq<Preset>, s: Settings) -> Seq<(int, bool)>
    decreases ps.len(),
{
    if ps.len() == 0 {
        Seq::empty()
    } else {
        let rest = listed_providers(ps.drop_last(), s);
        let p = ps.last();
        if entry_of(s.enabled@, p.id@) == Some(true) {
            rest.push(((ps.len() - 1) as int, credential_of(s, p.id@, api_key_field()) is Some))
        } else {
            rest
        }
    }
}

pub fn snapshot_providers(presets: &Vec<Preset>, settings: &Settings) -> (r: Vec<(usize, bool)>)
    ensures
        r@.map_values(|e: (usize, bool)| (e.0 as int, e.1)) == listed_providers(presets@, *settings),
{
    let mut out: Vec<(usize, bool)> = Vec::new();
    let mut i: usize = 0;
    assert(presets@.take(0) =~= Seq::<Preset>::empty());
    assert(out@.map_values(|e: (usize, bool)| (e.0 as int, e.1)) =~= Seq::<(int, bool)>::empty());
    while i < presets.len()
        invariant
            i <= presets@.len(),
            out@.map_values(|e: (usize, bool)| (e.0 as int, e.1)) == listed_providers(presets@.take(i as int), *settings),
        decreases presets.len() - i,
    {
        let ghost pre = presets@.take(i + 1);
        assert(pre.drop_last() =~= presets@.take(i as int));
        assert(pre.last() == presets@[i as int]);
        let ghost before = out@.map_values(|e: (usize, bool)| (e.0 as int, e.1));
        let p = &presets[i];
        if settings.is_enabled(p.id.as_str()) {
            let key = settings.api_key(p.id.as_str());
            out.push((i, key.is_some()));
            assert(out@.map_values(|e: (usize, bool)| (e.0 as int, e.1)) =~= before.push((i as int, key is Some)));
        }
        i = i + 1;
    }
    assert(presets@.take(presets@.len() as int) =~= presets@);
    out
}


proof fn lemma_listed_bound(ps: Seq<Preset>, s: Settings)
    ensures
        forall|k: int| 0 <= k < listed_providers(ps, s).len()
            ==> 0 <= (#[trigger] listed_providers(ps, s)[k]).0 < ps.len(),
    decreases ps.len(),
{
    if ps.len() > 0 {
        lemma_listed_bound(ps.drop_last(), s);
        let rest = listed_providers(ps.drop_last(), s);
        let all = listed_providers(ps, s);
        assert forall|k: int| 0 <= k < all.len() implies 0 <= (#[trigger] all[k]).0 < ps.len() by {
            if k < rest.len() {
                assert(all[k] == rest[k]);
            }
        }
    }
}

/// What the snapshot needs of a provider's stored data: whether there is any, when
/// its balance was checked (`None`: no balance), and its last error.
pub struct ProviderFacts {
    pub has_data: bool,
    pub checked_at: Option<i64>,
    pub last_error: Option<String>,
}

/// The status of listed provider `e` (preset index, API key configured).
pub open spec fn listed_status(e: (int, bool), facts: Seq<ProviderFacts>, now: i64) -> (Seq<char>, Seq<char>, Option<Seq<char>>) {
    let f = facts[e.0];
    provider_status_of(e.1, f.has_data, f.checked_at, text_opt(f.last_error), now)
}

/// Whether listed provider `e` shows a balance (and, with `fresh`, a current one).
pub open spec fn shows_balance(e: (int, bool), facts: Seq<ProviderFacts>, now: i64, fresh: bool) -> bool {
    let f = facts[e.0];
    e.1 && f.has_data && match f.checked_at {
        Some(t) => !fresh || now - t <= FRESH_SECS,
        None => false,
    }
}

/// Whether any of the listed providers `ls` shows a balance (a current one, with `fresh`).
pub open spec fn any_balance(ls: Seq<(int, bool)>, facts: Seq<ProviderFacts>, now: i64, fresh: bool) -> bool
    decreases ls.len(),
{
    if ls.len() == 0 {
        false
    } else {
        any_balance(ls.drop_last(), facts, now, fresh) || shows_balance(ls.last(), facts, now, fresh)
    }
}

pub open spec fn plan_view(e: (usize, String, String, Option<String>)) -> (int, (Seq<char>, Seq<char>, Option<Seq<char>>)) {
    (e.0 as int, (e.1@, e.2@, text_opt(e.3)))
}

/// The snapshot's providers and freshness: the first `MAX_PROVIDERS` enabled presets
/// in order, each with its status; the freshness looks at every enabled preset.
pub open spec fn snapshot_plan_of(ps: Seq<Preset>, s: Settings, facts: Seq<ProviderFacts>, now: i64) -> (Seq<(int, (Seq<char>, Seq<char>, Option<Seq<char>>))>, Seq<char>) {
    let ls = listed_providers(ps, s);
    let shown = if ls.len() > MAX_PROVIDERS { ls.take(MAX_PROVIDERS as int) } else { ls };
    (
        shown.map_values(|e: (int, bool)| (e.0, listed_status(e, facts, now))),
        freshness_of(any_balance(ls, facts, now, true), any_balance(ls, facts, now, false)),
    )
}

/// Decides the snapshot (`facts[i]`: the stored data of preset `i`): which providers
/// it lists with which status, and its freshness.
pub fn snapshot_plan(presets: &Vec<Preset>, settings: &Settings, facts: &Vec<ProviderFacts>, now: i64)
    -> (r: (Vec<(usize, String, String, Option<String>)>, &'static str))
    requires
        facts@.len() == presets@.len(),
    ensures
        (r.0@.map_values(|e: (usize, String, String, Option<String>)| plan_view(e)), r.1@)
            == snapshot_plan_of(presets@, *settings, facts@, now),
{
    let listed = snapshot_providers(presets, settings);
    let ghost ls = listed_providers(presets@, *settings);
    proof {
        lemma_listed_bound(presets@, *settings);
    }
    let ghost shown = if ls.len() > MAX_PROVIDERS { ls.take(MAX_PROVIDERS as int) } else { ls };
    let mut out: Vec<(usize, String, String, Option<String>)> = Vec::new();
    let mut any_fresh = false;
    let mut any_data = false;
    let mut k: usize = 0;
    assert(ls.take(0) =~= Seq::<(int, bool)>::empty());
    while k < listed.len()
        invariant
            k <= listed@.len(),
            facts@.len() == presets@.len(),
            ls == listed_providers(presets@, *settings),
            listed@.map_values(|e: (usize, bool)| (e.0 as int, e.1)) == ls,
            forall|j: int| 0 <= j < ls.len() ==> 0 <= (#[trigger] ls[j]).0 < presets@.len(),
            shown == (if ls.len() > MAX_PROVIDERS { ls.take(MAX_PROVIDERS as int) } else { ls }),
            any_fresh == any_balance(ls.take(k as int), facts@, now, true),
            any_data == any_balance(ls.take(k as int), facts@, now, false),
            out@.len() == (if k <= MAX_PROVIDERS { k as int } else { MAX_PROVIDERS as int }),
            out@.map_values(|e: (usize, String, String, Option<String>)| plan_view(e))
                == shown.take(out@.len() as int).map_values(|e: (int, bool)| (e.0, listed_status(e, facts@, now))),
        decreases listed.len() - k,
    {
        let (i, key) = listed[k];
        assert(ls[k as int] == (i as int, key));
        assert(ls.take(k + 1).drop_last() =~= ls.take(k as int));
        assert(ls.take(k + 1).last() == ls[k as int]);
        let f = &facts[i];
        let st = provider_status(key, f.has_data, f.checked_at, match &f.last_error {
            Some(e) => Some(e.as_str()),
            None => None,
        }, now);
        if key && f.has_data {
            match f.checked_at {
                Some(t) => {
                    any_data = true;
                    if (now as i128) - (t as i128) <= FRESH_SECS as i128 {
                        any_fresh = true;
                    }
                },
                None => {},
            }
        }
        if k < MAX_PROVIDERS {
            let ghost before = out@.map_values(|e: (usize, String, String, Option<String>)| plan_view(e));
            let item = (i, st.0, st.1, st.2);
            let ghost iv = plan_view(item);
            out.push(item);
            assert(shown[k as int] == ls[k as int]);
            assert(shown.take(k + 1) =~= shown.take(k as int).push(shown[k as int]));
            assert(out@.map_values(|e: (usize, String, String, Option<String>)| plan_view(e)) =~= before.push(iv));
            assert(iv == (ls[k as int].0, listed_status(ls[k as int], facts@, now)));
        }
        k = k + 1;
    }
    assert(ls.take(listed@.len() as int) =~= ls);
    assert(shown.take(out@.len() as int) =~= shown);
    (out, freshness(any_fresh, any_data))
}

} // verus!
