//! Settings page and device card: element ids, texts, and what a UI event does to
//! the settings. Drawing the elements is the host's.

use vstd::prelude::*;
use crate::text::{chars_of, copy_range, string_of, trim, trim_chars, push_char};
use crate::expr::chars_eq;
use crate::fmt::{int_text, int_text_padded, push_int, push_int_padded};
use crate::validate::{starts_with, starts_with_exec};
use crate::template::lit_eq;
use crate::preset::Preset;
use crate::json::{Json, JsonV};
use crate::template::{map_get, map_lookup};
use crate::state::{Settings, preset_listed, preset_listed_exec, stored_credential, text_opt};
use crate::keyed::entry_of;
use crate::usage::{u64_value, strip_prefix};

verus! {

broadcast use vstd::string::group_string_axioms;

pub const BTN_SAVE_SETTINGS: &'static str = "btn-save-settings";
pub const BTN_POLL_NOW: &'static str = "btn-poll-now";
pub const BTN_PUSH_NOW: &'static str = "btn-push-now";
pub const BTN_HOUSEKEEPING: &'static str = "btn-housekeeping";
pub const BTN_BACKUP: &'static str = "btn-backup";
pub const BTN_RESTORE: &'static str = "btn-restore";
pub const INPUT_BALANCE_INTERVAL: &'static str = "input-balance-interval";
pub const INPUT_PUSH_INTERVAL: &'static str = "input-push-interval";
/// The provider drop-down (its change event).
pub const SELECT_PROVIDER: &'static str = "select-provider";
/// Prefix of a provider's on/off button: `tgl-<preset-id>`.
pub const TGL_PREFIX: &'static str = "tgl-";
/// Prefix of a credential input: `cred-<preset-id>--<field-id>`.
pub const CRED_PREFIX: &'static str = "cred-";

/// Button colours (background, text): orange saves, green fetches, light blue
/// acts on the device.
pub open spec fn button_style_of(event_id: Seq<char>) -> (Seq<char>, Seq<char>) {
    if event_id == BTN_SAVE_SETTINGS@ || event_id == BTN_BACKUP@ || event_id == BTN_RESTORE@ {
        ("#F97316"@, "#FFFFFF"@)
    } else if event_id == BTN_POLL_NOW@ {
        ("#22C55E"@, "#062D1A"@)
    } else if event_id == BTN_PUSH_NOW@ || event_id == BTN_HOUSEKEEPING@ {
        ("#38BDF8"@, "#082F49"@)
    } else {
        ("#11182C"@, "#FFFFFF"@)
    }
}

pub fn button_style(event_id: &str) -> (r: (&'static str, &'static str))
    ensures
        (r.0@, r.1@) == button_style_of(event_id@),
{
    let e = chars_of(event_id);
    if lit_eq(&e, BTN_SAVE_SETTINGS) || lit_eq(&e, BTN_BACKUP) || lit_eq(&e, BTN_RESTORE) {
        ("#F97316", "#FFFFFF")
    } else if lit_eq(&e, BTN_POLL_NOW) {
        ("#22C55E", "#062D1A")
    } else if lit_eq(&e, BTN_PUSH_NOW) || lit_eq(&e, BTN_HOUSEKEEPING) {
        ("#38BDF8", "#082F49")
    } else {
        ("#11182C", "#FFFFFF")
    }
}

/// An age in seconds, short: `42s`, `5m`, `3h`.
pub open spec fn ago_short(secs: int) -> Seq<char> {
    if secs < 60 {
        int_text(secs) + "s"@
    } else if secs < 3600 {
        int_text(secs / 60) + "m"@
    } else {
        int_text(secs / 3600) + "h"@
    }
}

pub fn fmt_ago(secs: i64) -> (r: String)
    ensures
        r@ == ago_short(secs as int),
{
    let mut r = String::new();
    if secs < 60 {
        push_int(&mut r, secs);
        r.append("s");
    } else if secs < 3600 {
        push_int(&mut r, secs / 60);
        r.append("m");
    } else {
        push_int(&mut r, secs / 3600);
        r.append("h");
    }
    r
}

/// The local clock time `HH:MM:SS` of Unix time `epoch` at `tz_offset_min`
/// minutes east of UTC.
pub open spec fn clock_text(epoch: int, tz_offset_min: int) -> Seq<char> {
    let local = epoch + tz_offset_min * 60;
    int_text_padded((local / 3600) % 24, 2) + seq![':'] + int_text_padded((local / 60) % 60, 2)
        + seq![':'] + int_text_padded(local % 60, 2)
}

/// `a` divided by 3600, rounded down.
fn div_floor_3600(a: i128) -> (q: i128)
    ensures
        q == a as int / 3600,
{
    let q = a / 3600;
    if a % 3600 < 0 {
        q - 1
    } else {
        q
    }
}

/// `a` divided by 60, rounded down.
fn div_floor_60(a: i128) -> (q: i128)
    ensures
        q == a as int / 60,
{
    let q = a / 60;
    if a % 60 < 0 {
        q - 1
    } else {
        q
    }
}

/// The remainder of `a` by 60, in `[0, 60)`.
fn mod_floor_60(a: i128) -> (r: i128)
    ensures
        r == a as int % 60,
{
    let r = a % 60;
    if r < 0 {
        r + 60
    } else {
        r
    }
}

/// The remainder of `a` by 24, in `[0, 24)`.
fn mod_floor_24(a: i128) -> (r: i128)
    ensures
        r == a as int % 24,
{
    let r = a % 24;
    if r < 0 {
        r + 24
    } else {
        r
    }
}

pub fn fmt_epoch(epoch: i64, tz_offset_min: i32) -> (r: String)
    ensures
        r@ == clock_text(epoch as int, tz_offset_min as int),
{
    let local: i128 = epoch as i128 + tz_offset_min as i128 * 60;
    let h = mod_floor_24(div_floor_3600(local)) as i64;
    let m = mod_floor_60(div_floor_60(local)) as i64;
    let s = mod_floor_60(local) as i64;
    let mut r = String::new();
    push_int_padded(&mut r, h, 2);
    push_char(&mut r, ':');
    push_int_padded(&mut r, m, 2);
    push_char(&mut r, ':');
    push_int_padded(&mut r, s, 2);
    r
}

pub open spec fn field_view(f: (String, String, String, bool)) -> (Seq<char>, Seq<char>, Seq<char>, bool) {
    (f.0@, f.1@, f.2@, f.3)
}

/// The form fields of a preset, (id, label, hint, secret): its `form.fields`, or a
/// single `apiKey` field labelled by its auth when it declares none.
pub open spec fn preset_fields_of(p: Preset) -> Seq<(Seq<char>, Seq<char>, Seq<char>, bool)> {
    if p.form.fields@.len() > 0 {
        p.form.fields@.map_values(|f: crate::preset::FormField| (f.id@, f.label@, f.hint@, f.secret))
    } else {
        seq![("apiKey"@, p.auth.key_label@, p.auth.key_hint@, true)]
    }
}

pub fn preset_fields(preset: &Preset) -> (r: Vec<(String, String, String, bool)>)
    ensures
        r@.map_values(|f: (String, String, String, bool)| field_view(f)) == preset_fields_of(*preset),
{
    let mut out: Vec<(String, String, String, bool)> = Vec::new();
    let fs = &preset.form.fields;
    if fs.len() == 0 {
        out.push(("apiKey".to_string(), preset.auth.key_label.clone(), preset.auth.key_hint.clone(), true));
        assert(out@.map_values(|f: (String, String, String, bool)| field_view(f)) =~= preset_fields_of(*preset));
        return out;
    }
    let ghost target = fs@.map_values(|f: crate::preset::FormField| (f.id@, f.label@, f.hint@, f.secret));
    let mut i: usize = 0;
    while i < fs.len()
        invariant
            i <= fs@.len(),
            target == fs@.map_values(|f: crate::preset::FormField| (f.id@, f.label@, f.hint@, f.secret)),
            out@.map_values(|f: (String, String, String, bool)| field_view(f)) == target.take(i as int),
        decreases fs.len() - i,
    {
        let f = &fs[i];
        let ghost before = out@.map_values(|f: (String, String, String, bool)| field_view(f));
        out.push((f.id.clone(), f.label.clone(), f.hint.clone(), f.secret));
        assert(out@.map_values(|f: (String, String, String, bool)| field_view(f)) =~= before.push(target[i as int]));
        assert(target.take(i + 1) =~= target.take(i as int).push(target[i as int]));
        i = i + 1;
    }
    assert(target.take(fs@.len() as int) =~= target);
    out
}

/// Index of the preset the settings form shows: the selected provider's, else the first.
pub open spec fn selected_index_of(ids: Seq<Seq<char>>, selected: Option<Seq<char>>) -> Option<int> {
    let hit = match selected {
        Some(s) => first_index(ids, s),
        None => None,
    };
    if hit is Some {
        hit
    } else if ids.len() > 0 {
        Some(0)
    } else {
        None
    }
}

/// Index of the first `x` in `ids`.
pub open spec fn first_index(ids: Seq<Seq<char>>, x: Seq<char>) -> Option<int>
    decreases ids.len(),
{
    if ids.len() == 0 {
        None
    } else if ids[0] == x {
        Some(0)
    } else {
        match first_index(ids.drop_first(), x) {
            Some(i) => Some(i + 1),
            None => None,
        }
    }
}

pub open spec fn preset_ids(ps: Seq<Preset>) -> Seq<Seq<char>> {
    ps.map_values(|p: Preset| p.id@)
}

pub fn selected_preset(presets: &Vec<Preset>, settings: &Settings) -> (r: Option<usize>)
    ensures
        match r {
            Some(i) => selected_index_of(preset_ids(presets@), text_opt(settings.selected_provider))
                == Some(i as int),
            None => selected_index_of(preset_ids(presets@), text_opt(settings.selected_provider)) is None,
        },
{
    let ghost ids = preset_ids(presets@);
    match &settings.selected_provider {
        Some(sel) => {
            let sc = chars_of(sel.as_str());
            let mut i: usize = 0;
            assert(ids.skip(0) =~= ids);
            while i < presets.len()
                invariant
                    i <= presets@.len(),
                    ids == preset_ids(presets@),
                    sc@ == sel@,
                    text_opt(settings.selected_provider) == Some(sel@),
                    first_index(ids, sel@) == match first_index(ids.skip(i as int), sel@) {
                        Some(j) => Some(j + i),
                        None => None,
                    },
                decreases presets.len() - i,
            {
                assert(ids.skip(i as int)[0] == presets@[i as int].id@);
                assert(ids.skip(i as int).drop_first() =~= ids.skip(i + 1));
                let c = chars_of(presets[i].id.as_str());
                if chars_eq(&c, &sc) {
                    assert(first_index(ids.skip(i as int), sel@) == Some(0int));
                    assert(text_opt(settings.selected_provider) == Some(sel@));
                    return Some(i);
                }
                i = i + 1;
            }
        },
        None => {},
    }
    if presets.len() > 0 {
        Some(0)
    } else {
        None
    }
}

/// The index of `pat` in `s` at its first occurrence, or `s.len()` if none.
pub open spec fn find_sub(s: Seq<char>, pat: Seq<char>) -> int
    decreases s.len(),
{
    if starts_with(s, pat) || s.len() == 0 {
        0
    } else {
        1 + find_sub(s.drop_first(), pat)
    }
}

/// `s` split at the first `pat`, as `str::split_once` does.
pub open spec fn split_once_of(s: Seq<char>, pat: Seq<char>) -> Option<(Seq<char>, Seq<char>)> {
    let i = find_sub(s, pat);
    if starts_with(s.skip(i), pat) && pat.len() > 0 {
        Some((s.take(i), s.skip(i + pat.len())))
    } else {
        None
    }
}

proof fn lemma_find_sub_step(s: Seq<char>, pat: Seq<char>, i: int)
    requires
        0 <= i < s.len(),
        !starts_with(s.skip(i), pat),
    ensures
        find_sub(s.skip(i), pat) == 1 + find_sub(s.skip(i + 1), pat),
{
    assert(s.skip(i).drop_first() =~= s.skip(i + 1));
}

/// `s` split at the first `pat` (non-empty).
fn split_once_exec(s: &[char], pat: &str) -> (r: Option<(Vec<char>, Vec<char>)>)
    ensures
        match r {
            Some((a, b)) => split_once_of(s@, pat@) == Some((a@, b@)),
            None => split_once_of(s@, pat@) is None,
        },
{
    let p = chars_of(pat);
    let n = s.len();
    let mut i: usize = 0;
    assert(s@.skip(0) =~= s@);
    while i < n
        invariant
            i <= n,
            n == s@.len(),
            p@ == pat@,
            find_sub(s@, pat@) == i + find_sub(s@.skip(i as int), pat@),
        decreases n - i,
    {
        let rest = copy_range(s, i, n);
        assert(rest@ =~= s@.skip(i as int));
        if starts_with_exec(&rest, pat) {
            if p.len() == 0 {
                return None;
            }
            let a = copy_range(s, 0, i);
            let b = copy_range(s, i + p.len(), n);
            assert(a@ =~= s@.take(i as int));
            assert(b@ =~= s@.skip(i + pat@.len()));
            return Some((a, b));
        }
        proof {
            lemma_find_sub_step(s@, pat@, i as int);
        }
        i = i + 1;
    }
    assert(s@.skip(n as int) =~= Seq::<char>::empty());
    None
}

/// The provider id of a drop-down option `id · name` (the whole text where it has
/// no ` · `), trimmed.
pub open spec fn option_id_of(value: Seq<char>) -> Seq<char> {
    match split_once_of(value, " · "@) {
        Some((id, _)) => trim(id),
        None => trim(value),
    }
}

pub fn parse_option_id(value: &str) -> (r: String)
    ensures
        r@ == option_id_of(value@),
{
    let v = chars_of(value);
    match split_once_exec(&v, " · ") {
        Some((id, _)) => string_of(&trim_chars(&id)),
        None => string_of(&trim_chars(&v)),
    }
}

/// The text of a UI event: the `value` member of its JSON payload when that is a
/// string, else the raw payload.
pub open spec fn payload_value_of(parsed: Option<JsonV>, raw: Seq<char>) -> Seq<char> {
    match parsed {
        Some(JsonV::Object(es)) => match crate::path::object_get(es, "value"@) {
            Some(JsonV::String(s)) => s,
            _ => raw,
        },
        _ => raw,
    }
}

pub fn payload_value(parsed: &Option<Json>, raw: &str) -> (r: String)
    ensures
        r@ == payload_value_of(crate::path::opt_view(*parsed), raw@),
{
    match parsed {
        Some(Json::Object(es)) => {
            let k = chars_of("value");
            proof {
                crate::path::lemma_container_views(Json::Object(*es));
                crate::template::lemma_map_get_entries(es@, k@);
            }
            match map_lookup(es, &k) {
                Some(Json::String(s)) => s.clone(),
                _ => raw.to_string(),
            }
        },
        _ => raw.to_string(),
    }
}

} // verus!

verus! {

// ------------------------------------------------------------------ UI events

/// The kinds of UI event the page reacts to.
#[derive(PartialEq, Eq, Structural, Clone, Copy, Debug)]
pub enum UiEvent {
    Input,
    Change,
    Click,
    Other,
}

/// What is left to do after a UI event: redraw, or an action, each action being
/// followed by a redraw.
#[derive(PartialEq, Eq, Structural, Clone, Copy, Debug)]
pub enum UiEffect {
    Nothing,
    Rerender,
    SaveSettings,
    PollNow,
    PushNow,
    RefreshDevice,
    Backup,
    Restore,
}

/// How a UI event changes the settings.
pub enum UiChange {
    Keep,
    Credential(Seq<char>, Seq<char>, Seq<char>),
    BalanceInterval(u64),
    PushInterval(u64),
    Select(Seq<char>),
    Toggle(Seq<char>),
}

/// The credential input that an event id names: `cred-<id>--<field>`.
pub open spec fn cred_target(event_id: Seq<char>) -> Option<(Seq<char>, Seq<char>)> {
    if starts_with(event_id, CRED_PREFIX@) {
        split_once_of(event_id.skip(CRED_PREFIX@.len() as int), "--"@)
    } else {
        None
    }
}

/// The provider that an on/off button names: `tgl-<id>`.
pub open spec fn toggle_target(event_id: Seq<char>) -> Option<Seq<char>> {
    if starts_with(event_id, TGL_PREFIX@) {
        Some(event_id.skip(TGL_PREFIX@.len() as int))
    } else {
        None
    }
}

pub open spec fn max_u64(a: int, b: int) -> u64 {
    if a >= b { a as u64 } else { b as u64 }
}

/// The change a UI event makes: an input sets a credential of a known preset, or
/// an interval (at least 30 s between balance polls, 10 s between pushes); the
/// drop-down selects a known provider; an on/off button flips a known provider.
pub open spec fn ui_change(event: UiEvent, event_id: Seq<char>, value: Seq<char>, presets: Seq<Preset>) -> UiChange {
    match event {
        UiEvent::Input => if starts_with(event_id, CRED_PREFIX@) {
            match cred_target(event_id) {
                Some((id, field)) => if preset_listed(presets, id) {
                    UiChange::Credential(id, field, value)
                } else {
                    UiChange::Keep
                },
                None => UiChange::Keep,
            }
        } else if event_id == INPUT_BALANCE_INTERVAL@ {
            match u64_value(value) {
                Some(n) => UiChange::BalanceInterval(max_u64(n, 30)),
                None => UiChange::Keep,
            }
        } else if event_id == INPUT_PUSH_INTERVAL@ {
            match u64_value(value) {
                Some(n) => UiChange::PushInterval(max_u64(n, 10)),
                None => UiChange::Keep,
            }
        } else {
            UiChange::Keep
        },
        UiEvent::Change => if event_id == SELECT_PROVIDER@ && preset_listed(presets, option_id_of(value)) {
            UiChange::Select(option_id_of(value))
        } else {
            UiChange::Keep
        },
        UiEvent::Click => match toggle_target(event_id) {
            Some(id) => if preset_listed(presets, id) {
                UiChange::Toggle(id)
            } else {
                UiChange::Keep
            },
            None => UiChange::Keep,
        },
        UiEvent::Other => UiChange::Keep,
    }
}

/// What is left to do after a UI event.
pub open spec fn ui_effect(event: UiEvent, event_id: Seq<char>, value: Seq<char>, presets: Seq<Preset>) -> UiEffect {
    match event {
        UiEvent::Change => if ui_change(event, event_id, value, presets) is Select {
            UiEffect::Rerender
        } else {
            UiEffect::Nothing
        },
        UiEvent::Click => if ui_change(event, event_id, value, presets) is Toggle {
            UiEffect::Rerender
        } else if event_id == BTN_SAVE_SETTINGS@ {
            UiEffect::SaveSettings
        } else if event_id == BTN_POLL_NOW@ {
            UiEffect::PollNow
        } else if event_id == BTN_PUSH_NOW@ {
            UiEffect::PushNow
        } else if event_id == BTN_HOUSEKEEPING@ {
            UiEffect::RefreshDevice
        } else if event_id == BTN_BACKUP@ {
            UiEffect::Backup
        } else if event_id == BTN_RESTORE@ {
            UiEffect::Restore
        } else {
            UiEffect::Nothing
        },
        _ => UiEffect::Nothing,
    }
}

/// The settings `new` are `old` changed by `c`, and otherwise the same.
pub open spec fn changed_by(old: Settings, new: Settings, c: UiChange) -> bool {
    match c {
        UiChange::Keep => new == old,
        UiChange::Credential(id, field, v) => {
            &&& forall|i2: Seq<char>, f2: Seq<char>| #[trigger]
                stored_credential(new, i2, f2) == (if i2 == id && f2 == field {
                    Some(v)
                } else {
                    stored_credential(old, i2, f2)
                })
            &&& new.enabled == old.enabled
            &&& new.api_keys == old.api_keys
            &&& new.push_pkg == old.push_pkg
            &&& new.balance_interval_secs == old.balance_interval_secs
            &&& new.push_interval_secs == old.push_interval_secs
            &&& new.selected_provider == old.selected_provider
        },
        UiChange::BalanceInterval(n) => new == Settings { balance_interval_secs: n, ..old },
        UiChange::PushInterval(n) => new == Settings { push_interval_secs: n, ..old },
        UiChange::Select(id) => {
            &&& text_opt(new.selected_provider) == Some(id)
            &&& new == Settings { selected_provider: new.selected_provider, ..old }
        },
        UiChange::Toggle(id) => {
            &&& forall|k: Seq<char>| #[trigger]
                entry_of(new.enabled@, k) == (if k == id {
                    Some(!(entry_of(old.enabled@, id) == Some(true)))
                } else {
                    entry_of(old.enabled@, k)
                })
            &&& new.credentials == old.credentials
            &&& new.api_keys == old.api_keys
            &&& new.push_pkg == old.push_pkg
            &&& new.balance_interval_secs == old.balance_interval_secs
            &&& new.push_interval_secs == old.push_interval_secs
            &&& new.selected_provider == old.selected_provider
        },
    }
}

/// Applies a UI event (`value`: the event's text) to the settings and says what
/// is left to do.
pub fn ui_event(settings: &mut Settings, presets: &Vec<Preset>, event: UiEvent, event_id: &str, value: &str) -> (r: UiEffect)
    ensures
        r == ui_effect(event, event_id@, value@, presets@),
        changed_by(*old(settings), *final(settings), ui_change(event, event_id@, value@, presets@)),
        old(settings).wf() ==> final(settings).wf(),
{
    let e = chars_of(event_id);
    proof {
        reveal_strlit("cred-");
        reveal_strlit("tgl-");
    }
    match event {
        UiEvent::Input => {
            if starts_with_exec(&e, CRED_PREFIX) {
                let rest = copy_range(&e, 5, e.len());
                assert(rest@ =~= event_id@.skip(CRED_PREFIX@.len() as int));
                match split_once_exec(&rest, "--") {
                    Some((id, field)) => {
                        if preset_listed_exec(presets, &id) {
                            let ids = string_of(&id);
                            let fs = string_of(&field);
                            settings.set_credential(ids.as_str(), fs.as_str(), value.to_string());
                        }
                    },
                    None => {},
                }
            } else if lit_eq(&e, INPUT_BALANCE_INTERVAL) {
                match crate::usage::parse_u64(value) {
                    Some(n) => {
                        settings.balance_interval_secs = if n >= 30 { n } else { 30 };
                    },
                    None => {},
                }
            } else if lit_eq(&e, INPUT_PUSH_INTERVAL) {
                match crate::usage::parse_u64(value) {
                    Some(n) => {
                        settings.push_interval_secs = if n >= 10 { n } else { 10 };
                    },
                    None => {},
                }
            }
            UiEffect::Nothing
        },
        UiEvent::Change => {
            if lit_eq(&e, SELECT_PROVIDER) {
                let id = parse_option_id(value);
                let ic = chars_of(id.as_str());
                if preset_listed_exec(presets, &ic) {
                    settings.selected_provider = Some(id);
                    return UiEffect::Rerender;
                }
            }
            UiEffect::Nothing
        },
        UiEvent::Click => {
            if starts_with_exec(&e, TGL_PREFIX) {
                let id = copy_range(&e, 4, e.len());
                assert(id@ =~= event_id@.skip(TGL_PREFIX@.len() as int));
                if preset_listed_exec(presets, &id) {
                    let ids = string_of(&id);
                    settings.toggle_enabled(ids.as_str());
                    return UiEffect::Rerender;
                }
            }
            if lit_eq(&e, BTN_SAVE_SETTINGS) {
                UiEffect::SaveSettings
            } else if lit_eq(&e, BTN_POLL_NOW) {
                UiEffect::PollNow
            } else if lit_eq(&e, BTN_PUSH_NOW) {
                UiEffect::PushNow
            } else if lit_eq(&e, BTN_HOUSEKEEPING) {
                UiEffect::RefreshDevice
            } else if lit_eq(&e, BTN_BACKUP) {
                UiEffect::Backup
            } else if lit_eq(&e, BTN_RESTORE) {
                UiEffect::Restore
            } else {
                UiEffect::Nothing
            }
        },
        UiEvent::Other => UiEffect::Nothing,
    }
}


// ------------------------------------------------------------------ event-id round trips

/// `pat` occurs in `a + pat` first at the end of `a`: no occurrence starts inside `a`.
pub open spec fn first_at_end(a: Seq<char>, pat: Seq<char>) -> bool {
    forall|i: int| 0 <= i < a.len() ==> !starts_with(#[trigger] (a + pat).skip(i), pat)
}

proof fn lemma_find_sub_at(s: Seq<char>, pat: Seq<char>, k: int)
    requires
        0 <= k <= s.len(),
        starts_with(s.skip(k), pat),
        forall|i: int| 0 <= i < k ==> !starts_with(#[trigger] s.skip(i), pat),
    ensures
        find_sub(s, pat) == k,
    decreases k,
{
    if k > 0 {
        assert(s.skip(0) =~= s);
        assert(!starts_with(s.skip(0), pat));
        let t = s.drop_first();
        assert forall|i: int| 0 <= i < k - 1 implies !starts_with(#[trigger] t.skip(i), pat) by {
            assert(t.skip(i) =~= s.skip(i + 1));
        }
        assert(t.skip(k - 1) =~= s.skip(k));
        lemma_find_sub_at(t, pat, k - 1);
    } else {
        assert(s.skip(0) =~= s);
    }
}

/// Text joined by a separator that first occurs at the join splits back into its parts.
pub proof fn lemma_split_at_join(a: Seq<char>, pat: Seq<char>, b: Seq<char>)
    requires
        pat.len() > 0,
        first_at_end(a, pat),
    ensures
        split_once_of(a + pat + b, pat) == Some((a, b)),
{
    let s = a + pat + b;
    assert forall|i: int| 0 <= i < a.len() implies !starts_with(#[trigger] s.skip(i), pat) by {
        let u = (a + pat).skip(i);
        assert(!starts_with(u, pat));
        assert(s.skip(i).take(pat.len() as int) =~= u.take(pat.len() as int));
    }
    assert(s.skip(a.len() as int).take(pat.len() as int) =~= pat);
    lemma_find_sub_at(s, pat, a.len() as int);
    assert(s.take(a.len() as int) =~= a);
    assert(s.skip((a.len() + pat.len()) as int) =~= b);
}

/// A click on a provider's on/off button (`toggle_event_id`) flips that provider,
/// and the page is drawn again.
pub proof fn lemma_toggle_round_trip(id: Seq<char>, value: Seq<char>, presets: Seq<Preset>)
    requires
        preset_listed(presets, id),
    ensures
        ui_change(UiEvent::Click, TGL_PREFIX@ + id, value, presets) == UiChange::Toggle(id),
        ui_effect(UiEvent::Click, TGL_PREFIX@ + id, value, presets) == UiEffect::Rerender,
{
    let e = TGL_PREFIX@ + id;
    assert(e.take(TGL_PREFIX@.len() as int) =~= TGL_PREFIX@);
    assert(e.skip(TGL_PREFIX@.len() as int) =~= id);
}

/// Input into a credential box (`cred_event_id`) of a listed provider stores the
/// typed value as that provider's field, where `--` first occurs after the id.
pub proof fn lemma_credential_round_trip(
    id: Seq<char>,
    field: Seq<char>,
    value: Seq<char>,
    presets: Seq<Preset>,
)
    requires
        preset_listed(presets, id),
        first_at_end(id, "--"@),
    ensures
        ui_change(UiEvent::Input, CRED_PREFIX@ + id + "--"@ + field, value, presets)
            == UiChange::Credential(id, field, value),
        ui_effect(UiEvent::Input, CRED_PREFIX@ + id + "--"@ + field, value, presets)
            == UiEffect::Nothing,
{
    reveal_strlit("--");
    let e = CRED_PREFIX@ + id + "--"@ + field;
    assert(e.take(CRED_PREFIX@.len() as int) =~= CRED_PREFIX@);
    assert(e.skip(CRED_PREFIX@.len() as int) =~= id + "--"@ + field);
    lemma_split_at_join(id, "--"@, field);
}

/// A provider id as presets may have it: non-empty, of `a-z`, `0-9`, `-` and `_`.
pub open spec fn id_shaped(id: Seq<char>) -> bool {
    id.len() > 0 && forall|k: int| 0 <= k < id.len() ==> crate::validate::is_id_char(#[trigger] id[k])
}

/// Choosing a drop-down option (`option_label`) of a listed provider selects it,
/// and the page is drawn again.
pub proof fn lemma_option_round_trip(id: Seq<char>, name: Seq<char>, presets: Seq<Preset>)
    requires
        id_shaped(id),
        preset_listed(presets, id),
    ensures
        option_id_of(id + " · "@ + name) == id,
        ui_change(UiEvent::Change, SELECT_PROVIDER@, id + " · "@ + name, presets) == UiChange::Select(id),
        ui_effect(UiEvent::Change, SELECT_PROVIDER@, id + " · "@ + name, presets) == UiEffect::Rerender,
{
    reveal_strlit(" · ");
    let sep = " · "@;
    assert forall|i: int| 0 <= i < id.len() implies !starts_with(#[trigger] (id + sep).skip(i), sep) by {
        assert((id + sep).skip(i)[0] == id[i]);
        assert(crate::validate::is_id_char(id[i]));
        if starts_with((id + sep).skip(i), sep) {
            assert((id + sep).skip(i).take(sep.len() as int)[0] == sep[0]);
        }
    }
    lemma_split_at_join(id, sep, name);
    assert(!crate::text::is_whitespace(id[0]));
    assert(crate::text::trim_start(id) == id);
    assert(!crate::text::is_whitespace(id.last()));
    assert(crate::text::trim_end(id) == id);
}

} // verus!

verus! {

// ------------------------------------------------------------------ page texts

/// The drop-down's order: the options of the shown provider first, then the
/// others, each group in preset order (a stable sort on "is not shown").
pub open spec fn option_order_of(ids: Seq<Seq<char>>, shown: Option<Seq<char>>) -> Seq<int> {
    indices_where(ids, shown, true) + indices_where(ids, shown, false)
}

/// Indices of `ids` whose id is (`eq`) or is not (`!eq`) the shown one, ascending.
pub open spec fn indices_where(ids: Seq<Seq<char>>, shown: Option<Seq<char>>, eq: bool) -> Seq<int>
    decreases ids.len(),
{
    if ids.len() == 0 {
        Seq::empty()
    } else {
        let rest = indices_where(ids.drop_last(), shown, eq);
        if (Some(ids.last()) == shown) == eq {
            rest.push(ids.len() - 1)
        } else {
            rest
        }
    }
}

fn indices_where_exec(presets: &Vec<Preset>, shown: &Option<String>, eq: bool) -> (r: Vec<usize>)
    ensures
        r@.map_values(|i: usize| i as int) == indices_where(preset_ids(presets@), text_opt(*shown), eq),
{
    let ghost ids = preset_ids(presets@);
    let mut out: Vec<usize> = Vec::new();
    let mut i: usize = 0;
    assert(ids.take(0) =~= Seq::<Seq<char>>::empty());
    assert(out@.map_values(|i: usize| i as int) =~= Seq::<int>::empty());
    while i < presets.len()
        invariant
            i <= presets@.len(),
            ids == preset_ids(presets@),
            out@.map_values(|i: usize| i as int) == indices_where(ids.take(i as int), text_opt(*shown), eq),
        decreases presets.len() - i,
    {
        let ghost pre = ids.take(i + 1);
        assert(pre.drop_last() =~= ids.take(i as int));
        assert(pre.last() == presets@[i as int].id@);
        let is_shown = match shown {
            Some(sh) => {
                let a = chars_of(presets[i].id.as_str());
                let b = chars_of(sh.as_str());
                chars_eq(&a, &b)
            },
            None => false,
        };
        let ghost before = out@.map_values(|i: usize| i as int);
        if is_shown == eq {
            out.push(i);
            assert(out@.map_values(|i: usize| i as int) =~= before.push(i as int));
        }
        i = i + 1;
    }
    assert(ids.take(presets@.len() as int) =~= ids);
    out
}

/// The order of the drop-down's options, as preset indices.
pub fn option_order(presets: &Vec<Preset>, shown: &Option<String>) -> (r: Vec<usize>)
    ensures
        r@.map_values(|i: usize| i as int) == option_order_of(preset_ids(presets@), text_opt(*shown)),
{
    let mut a = indices_where_exec(presets, shown, true);
    let b = indices_where_exec(presets, shown, false);
    let ghost av = a@.map_values(|i: usize| i as int);
    let ghost bv = b@.map_values(|i: usize| i as int);
    let mut k: usize = 0;
    while k < b.len()
        invariant
            k <= b@.len(),
            bv == b@.map_values(|i: usize| i as int),
            a@.map_values(|i: usize| i as int) == av + bv.take(k as int),
        decreases b.len() - k,
    {
        let ghost before = a@.map_values(|i: usize| i as int);
        a.push(b[k]);
        assert(bv[k as int] == b@[k as int] as int);
        assert(a@.map_values(|i: usize| i as int) =~= before.push(b@[k as int] as int));
        assert(bv.take(k + 1) =~= bv.take(k as int).push(bv[k as int]));
        assert(a@.map_values(|i: usize| i as int) =~= av + bv.take(k + 1));
        k = k + 1;
    }
    assert(bv.take(b@.len() as int) =~= bv);
    a
}

/// A drop-down option: `id · name`.
pub fn option_label(id: &str, name: &str) -> (r: String)
    ensures
        r@ == id@ + " · "@ + name@,
{
    let mut r = id.to_string();
    r.append(" · ");
    r.append(name);
    r
}

/// The status line of a provider row; `None` where its balance is shown instead.
pub open spec fn row_status_of(
    enabled: bool,
    has_key: bool,
    has_balance: bool,
    last_error: Option<Seq<char>>,
) -> Option<Seq<char>> {
    if !enabled {
        Some("未启用"@)
    } else if !has_key {
        Some("未配置 API Key"@)
    } else if has_balance {
        None
    } else {
        match last_error {
            Some(e) => Some("错误: "@ + e),
            None => Some("已配置,等待首次查询"@),
        }
    }
}

pub fn row_status(enabled: bool, has_key: bool, has_balance: bool, last_error: Option<&str>) -> (r: Option<String>)
    ensures
        text_opt(r) == row_status_of(
            enabled,
            has_key,
            has_balance,
            match last_error {
                Some(e) => Some(e@),
                None => None,
            },
        ),
{
    if !enabled {
        Some("未启用".to_string())
    } else if !has_key {
        Some("未配置 API Key".to_string())
    } else if has_balance {
        None
    } else {
        match last_error {
            Some(e) => {
                let mut r = "错误: ".to_string();
                r.append(e);
                Some(r)
            },
            None => Some("已配置,等待首次查询".to_string()),
        }
    }
}

/// The line above the drop-down.
pub fn page_intro(n_presets: usize) -> (r: String)
    ensures
        r@ == "LLMBand · 预设驱动多供应商用量看板(共 "@ + int_text(n_presets as int) + " 个预设)"@,
{
    let mut r = "LLMBand · 预设驱动多供应商用量看板(共 ".to_string();
    crate::fmt::push_digits(&mut r, n_presets as u64);
    r.append(" 个预设)");
    r
}

/// The heading of the shown provider's form.
pub fn provider_heading(name: &str, enabled: bool) -> (r: String)
    ensures
        r@ == name@ + " — "@ + (if enabled {
            "已启用"@
        } else {
            "未启用"@
        }),
{
    let mut r = name.to_string();
    r.append(" — ");
    r.append(if enabled { "已启用" } else { "未启用" });
    r
}

/// The label of a provider's on/off button.
pub fn toggle_label(name: &str, enabled: bool) -> (r: String)
    ensures
        r@ == (if enabled {
            "☑ 关闭"@
        } else {
            "☐ 启用"@
        }) + " "@ + name@,
{
    let mut r = (if enabled { "☑ 关闭" } else { "☐ 启用" }).to_string();
    r.append(" ");
    r.append(name);
    r
}

/// The event id of a provider's on/off button: `tgl-<id>`.
pub fn toggle_event_id(id: &str) -> (r: String)
    ensures
        r@ == TGL_PREFIX@ + id@,
{
    let mut r = TGL_PREFIX.to_string();
    r.append(id);
    r
}

/// The event id of a credential input: `cred-<id>--<field>`.
pub fn cred_event_id(id: &str, field: &str) -> (r: String)
    ensures
        r@ == CRED_PREFIX@ + id@ + "--"@ + field@,
{
    let mut r = CRED_PREFIX.to_string();
    r.append(id);
    r.append("--");
    r.append(field);
    r
}

/// The hint above a credential input: the label, the field's hint in brackets,
/// and a notice for a secret.
pub fn field_hint(label: &str, hint: &str, secret: bool) -> (r: String)
    ensures
        r@ == label@ + (if hint@.len() > 0 {
            "("@ + hint@ + ")"@
        } else {
            Seq::empty()
        }) + (if secret {
            " · 密钥字段"@
        } else {
            Seq::empty()
        }),
{
    let mut r = label.to_string();
    if hint.unicode_len() > 0 {
        r.append("(");
        r.append(hint);
        r.append(")");
    }
    if secret {
        r.append(" · 密钥字段");
    }
    r
}

/// The status line of the page: the status, and the local time it was set
/// (`-` while it was never set).
pub fn status_line(status: &str, status_at: i64, tz_offset_min: i32) -> (r: String)
    ensures
        r@ == "状态: "@ + status@ + " ("@ + (if status_at == 0 {
            "-"@
        } else {
            clock_text(status_at as int, tz_offset_min as int)
        }) + ")"@,
{
    let mut r = "状态: ".to_string();
    r.append(status);
    r.append(" (");
    if status_at == 0 {
        r.append("-");
    } else {
        let t = fmt_epoch(status_at, tz_offset_min);
        r.append(t.as_str());
    }
    r.append(")");
    r
}

/// The badge of the device card: text, background, text colour.
pub open spec fn card_badge_of(connected: bool) -> (Seq<char>, Seq<char>, Seq<char>) {
    if connected {
        ("已连接 · 自动推送中"@, "#163B2C"@, "#87E9C6"@)
    } else {
        ("未连接设备"@, "#3B2A2A"@, "#F0B7B7"@)
    }
}

pub fn card_badge(connected: bool) -> (r: (&'static str, &'static str, &'static str))
    ensures
        (r.0@, r.1@, r.2@) == card_badge_of(connected),
{
    if connected {
        ("已连接 · 自动推送中", "#163B2C", "#87E9C6")
    } else {
        ("未连接设备", "#3B2A2A", "#F0B7B7")
    }
}

/// A provider's line on the device card: `name · status`.
pub fn card_line(name: &str, status: &str) -> (r: String)
    ensures
        r@ == name@ + " · "@ + status@,
{
    option_label(name, status)
}

} // verus!

verus! {

// ------------------------------------------------------------------ the page

/// One element of the plugin page, top to bottom.
#[derive(Debug, PartialEq)]
pub enum PageItem {
    /// A small hint line.
    Hint(String),
    /// The provider drop-down (event `SELECT_PROVIDER`): its option texts, in order.
    Select(Vec<String>),
    /// A line of text, in a colour where one is given.
    Line(String, Option<String>),
    /// A full-width button: its label and event id (its colours: `button_style`).
    Button(String, String),
    /// An input box: its event id and value.
    Input(String, String),
}

pub enum PageItemV {
    Hint(Seq<char>),
    Select(Seq<Seq<char>>),
    Line(Seq<char>, Option<Seq<char>>),
    Button(Seq<char>, Seq<char>),
    Input(Seq<char>, Seq<char>),
}

pub open spec fn page_item_view(i: PageItem) -> PageItemV {
    match i {
        PageItem::Hint(t) => PageItemV::Hint(t@),
        PageItem::Select(os) => PageItemV::Select(os@.map_values(|o: String| o@)),
        PageItem::Line(t, c) => PageItemV::Line(t@, text_opt(c)),
        PageItem::Button(l, e) => PageItemV::Button(l@, e@),
        PageItem::Input(e, v) => PageItemV::Input(e@, v@),
    }
}

pub open spec fn items_view(v: Seq<PageItem>) -> Seq<PageItemV> {
    v.map_values(|i: PageItem| page_item_view(i))
}

/// The hint above a credential input (as `field_hint` writes it).
pub open spec fn field_hint_of(label: Seq<char>, hint: Seq<char>, secret: bool) -> Seq<char> {
    label + (if hint.len() > 0 {
        "("@ + hint + ")"@
    } else {
        Seq::empty()
    }) + (if secret {
        " · 密钥字段"@
    } else {
        Seq::empty()
    })
}

/// A credential's text in its input box: the credential, or nothing.
pub open spec fn or_empty(o: Option<Seq<char>>) -> Seq<char> {
    match o {
        Some(v) => v,
        None => Seq::empty(),
    }
}

/// The hint and input box of each form field of provider `id`, in form order.
pub open spec fn field_items_of(
    id: Seq<char>,
    s: Settings,
    fs: Seq<(Seq<char>, Seq<char>, Seq<char>, bool)>,
) -> Seq<PageItemV>
    decreases fs.len(),
{
    if fs.len() == 0 {
        Seq::empty()
    } else {
        let f = fs.last();
        field_items_of(id, s, fs.drop_last()) + seq![
            PageItemV::Hint(field_hint_of(f.1, f.2, f.3)),
            PageItemV::Input(CRED_PREFIX@ + id + "--"@ + f.0, or_empty(crate::state::credential_of(s, id, f.0))),
        ]
    }
}

proof fn lemma_items_push(v: Seq<PageItem>, i: PageItem)
    ensures
        items_view(v.push(i)) == items_view(v).push(page_item_view(i)),
{
    assert(items_view(v.push(i)) =~= items_view(v).push(page_item_view(i)));
}

proof fn lemma_items_concat(a: Seq<PageItem>, b: Seq<PageItem>)
    ensures
        items_view(a + b) == items_view(a) + items_view(b),
{
    assert(items_view(a + b) =~= items_view(a) + items_view(b));
}

fn push_item(v: &mut Vec<PageItem>, i: PageItem)
    ensures
        items_view(final(v)@) == items_view(old(v)@).push(page_item_view(i)),
{
    let ghost i2 = i;
    v.push(i);
    proof {
        lemma_items_push(old(v)@, i2);
    }
}

fn field_items(preset: &Preset, settings: &Settings) -> (r: Vec<PageItem>)
    ensures
        items_view(r@) == field_items_of(preset.id@, *settings, preset_fields_of(*preset)),
{
    let fields = preset_fields(preset);
    let ghost fv = fields@.map_values(|f: (String, String, String, bool)| field_view(f));
    let mut out: Vec<PageItem> = Vec::new();
    let mut i: usize = 0;
    assert(fv.take(0) =~= Seq::<(Seq<char>, Seq<char>, Seq<char>, bool)>::empty());
    assert(items_view(out@) =~= Seq::<PageItemV>::empty());
    while i < fields.len()
        invariant
            i <= fields@.len(),
            fv == fields@.map_values(|f: (String, String, String, bool)| field_view(f)),
            fv == preset_fields_of(*preset),
            items_view(out@) == field_items_of(preset.id@, *settings, fv.take(i as int)),
        decreases fields.len() - i,
    {
        let f = &fields[i];
        assert(fv.take(i + 1).drop_last() =~= fv.take(i as int));
        assert(fv.take(i + 1).last() == field_view(*f));
        let h = field_hint(f.1.as_str(), f.2.as_str(), f.3);
        push_item(&mut out, PageItem::Hint(h));
        let v = match settings.credential(preset.id.as_str(), f.0.as_str()) {
            Some(v) => v,
            None => String::new(),
        };
        let e = cred_event_id(preset.id.as_str(), f.0.as_str());
        push_item(&mut out, PageItem::Input(e, v));
        i = i + 1;
    }
    assert(fv.take(fields@.len() as int) =~= fv);
    out
}


/// A provider's section of the page: its heading in its accent colour, its on/off
/// button, the hint and input box of each form field, and its status line.
pub open spec fn section_of(p: Preset, s: Settings, line: Seq<char>) -> Seq<PageItemV> {
    let enabled = entry_of(s.enabled@, p.id@) == Some(true);
    seq![
        PageItemV::Line(p.name@ + " — "@ + (if enabled { "已启用"@ } else { "未启用"@ }), Some(p.accent@)),
        PageItemV::Button((if enabled { "☑ 关闭"@ } else { "☐ 启用"@ }) + " "@ + p.name@, TGL_PREFIX@ + p.id@),
    ] + field_items_of(p.id@, s, preset_fields_of(p)) + seq![PageItemV::Line(line, None)]
}

fn section_items(preset: &Preset, settings: &Settings, line: &str) -> (r: Vec<PageItem>)
    ensures
        items_view(r@) == section_of(*preset, *settings, line@),
{
    let enabled = settings.is_enabled(preset.id.as_str());
    let mut out: Vec<PageItem> = Vec::new();
    push_item(&mut out, PageItem::Line(provider_heading(preset.name.as_str(), enabled), Some(preset.accent.clone())));
    push_item(&mut out, PageItem::Button(toggle_label(preset.name.as_str(), enabled), toggle_event_id(preset.id.as_str())));
    let ghost head = out@;
    let mut fields = field_items(preset, settings);
    let ghost fi = fields@;
    out.append(&mut fields);
    proof {
        lemma_items_concat(head, fi);
    }
    push_item(&mut out, PageItem::Line(line.to_string(), None));
    assert(items_view(out@) =~= section_of(*preset, *settings, line@));
    out
}

proof fn lemma_first_index_bound(ids: Seq<Seq<char>>, x: Seq<char>)
    ensures
        first_index(ids, x) matches Some(j) ==> 0 <= j < ids.len(),
    decreases ids.len(),
{
    if ids.len() > 0 && ids[0] != x {
        lemma_first_index_bound(ids.drop_first(), x);
    }
}

proof fn lemma_indices_bound(ids: Seq<Seq<char>>, shown: Option<Seq<char>>, eq: bool)
    ensures
        forall|k: int| 0 <= k < indices_where(ids, shown, eq).len()
            ==> 0 <= #[trigger] indices_where(ids, shown, eq)[k] < ids.len(),
    decreases ids.len(),
{
    if ids.len() > 0 {
        let rest = indices_where(ids.drop_last(), shown, eq);
        lemma_indices_bound(ids.drop_last(), shown, eq);
        let all = indices_where(ids, shown, eq);
        assert forall|k: int| 0 <= k < all.len() implies 0 <= #[trigger] all[k] < ids.len() by {
            if k < rest.len() {
                assert(all[k] == rest[k]);
            }
        }
    }
}

/// The texts of the drop-down's options, in the order `order` gives the presets.
pub open spec fn option_labels_of(ps: Seq<Preset>, order: Seq<int>) -> Seq<Seq<char>> {
    order.map_values(|j: int| ps[j].id@ + " · "@ + ps[j].name@)
}

/// The status line of the page (as `status_line` writes it).
pub open spec fn status_line_of(status: Seq<char>, status_at: i64, tz_offset_min: i32) -> Seq<char> {
    "状态: "@ + status + " ("@ + (if status_at == 0 {
        "-"@
    } else {
        clock_text(status_at as int, tz_offset_min as int)
    }) + ")"@
}

/// The settings and actions at the foot of the page, and the status line.
pub open spec fn page_foot_of(s: Settings, status_text: Seq<char>) -> Seq<PageItemV> {
    seq![
        PageItemV::Hint("余额轮询间隔(秒,默认 120):"@),
        PageItemV::Input(INPUT_BALANCE_INTERVAL@, crate::fmt::digits_of(s.balance_interval_secs as nat)),
        PageItemV::Hint("推送间隔(秒,默认 60):"@),
        PageItemV::Input(INPUT_PUSH_INTERVAL@, crate::fmt::digits_of(s.push_interval_secs as nat)),
        PageItemV::Button("保存设置"@, BTN_SAVE_SETTINGS@),
        PageItemV::Button("立即轮询余额与端点"@, BTN_POLL_NOW@),
        PageItemV::Button("推送手环"@, BTN_PUSH_NOW@),
        PageItemV::Button("检测设备"@, BTN_HOUSEKEEPING@),
        PageItemV::Hint("跨版本持久化(宿主更新插件会清空插件目录,更新前备份、更新后恢复):"@),
        PageItemV::Button("备份配置/数据"@, BTN_BACKUP@),
        PageItemV::Button("从备份恢复"@, BTN_RESTORE@),
        PageItemV::Line(status_text, None),
    ]
}

/// The plugin page: the intro, the drop-down of providers (the shown one first), the
/// shown provider's section (`lines[i]`: the status line of preset `i`), then the
/// settings, actions and status line.
pub open spec fn page_of(
    ps: Seq<Preset>,
    s: Settings,
    lines: Seq<Seq<char>>,
    status: Seq<char>,
    status_at: i64,
    tz_offset_min: i32,
) -> Seq<PageItemV> {
    let ids = preset_ids(ps);
    let sel = selected_index_of(ids, text_opt(s.selected_provider));
    let shown = match sel {
        Some(i) => Some(ids[i]),
        None => None,
    };
    seq![
        PageItemV::Hint("LLMBand · 预设驱动多供应商用量看板(共 "@ + int_text(ps.len() as int) + " 个预设)"@),
        PageItemV::Hint(PAGE_HELP@),
        PageItemV::Select(option_labels_of(ps, option_order_of(ids, shown))),
    ] + (match sel {
        Some(i) => section_of(ps[i], s, lines[i]),
        None => if ps.len() > 0 {
            seq![PageItemV::Line("未选择供应商"@, None)]
        } else {
            Seq::empty()
        },
    }) + page_foot_of(s, status_line_of(status, status_at, tz_offset_min))
}

/// The hint under the intro line.
pub const PAGE_HELP: &'static str = "选择供应商种类,填写对应预设表单。新增供应商只需向 presets/ 目录添加预设文件(见 docs/PRESETS.md)。";

fn digits_string(n: u64) -> (r: String)
    ensures
        r@ == crate::fmt::digits_of(n as nat),
{
    let mut r = String::new();
    crate::fmt::push_digits(&mut r, n);
    assert(r@ =~= crate::fmt::digits_of(n as nat));
    r
}

fn page_foot(settings: &Settings, status: &str, status_at: i64, tz_offset_min: i32) -> (r: Vec<PageItem>)
    ensures
        items_view(r@) == page_foot_of(*settings, status_line_of(status@, status_at, tz_offset_min)),
{
    let mut out: Vec<PageItem> = Vec::new();
    push_item(&mut out, PageItem::Hint("余额轮询间隔(秒,默认 120):".to_string()));
    push_item(&mut out, PageItem::Input(INPUT_BALANCE_INTERVAL.to_string(), digits_string(settings.balance_interval_secs)));
    push_item(&mut out, PageItem::Hint("推送间隔(秒,默认 60):".to_string()));
    push_item(&mut out, PageItem::Input(INPUT_PUSH_INTERVAL.to_string(), digits_string(settings.push_interval_secs)));
    push_item(&mut out, PageItem::Button("保存设置".to_string(), BTN_SAVE_SETTINGS.to_string()));
    push_item(&mut out, PageItem::Button("立即轮询余额与端点".to_string(), BTN_POLL_NOW.to_string()));
    push_item(&mut out, PageItem::Button("推送手环".to_string(), BTN_PUSH_NOW.to_string()));
    push_item(&mut out, PageItem::Button("检测设备".to_string(), BTN_HOUSEKEEPING.to_string()));
    push_item(&mut out, PageItem::Hint("跨版本持久化(宿主更新插件会清空插件目录,更新前备份、更新后恢复):".to_string()));
    push_item(&mut out, PageItem::Button("备份配置/数据".to_string(), BTN_BACKUP.to_string()));
    push_item(&mut out, PageItem::Button("从备份恢复".to_string(), BTN_RESTORE.to_string()));
    push_item(&mut out, PageItem::Line(status_line(status, status_at, tz_offset_min), None));
    assert(items_view(out@) =~= page_foot_of(*settings, status_line_of(status@, status_at, tz_offset_min)));
    out
}

/// The plugin page, top to bottom (`lines[i]`: the status line of preset `i`, as the
/// caller writes it with the balance).
pub fn page_items(
    presets: &Vec<Preset>,
    settings: &Settings,
    lines: &Vec<String>,
    status: &str,
    status_at: i64,
    tz_offset_min: i32,
) -> (r: Vec<PageItem>)
    requires
        lines@.len() == presets@.len(),
    ensures
        items_view(r@) == page_of(
            presets@,
            *settings,
            lines@.map_values(|l: String| l@),
            status@,
            status_at,
            tz_offset_min,
        ),
{
    let ghost ids = preset_ids(presets@);
    let sel = selected_preset(presets, settings);
    proof {
        match text_opt(settings.selected_provider) {
            Some(x) => lemma_first_index_bound(ids, x),
            None => {},
        }
    }
    let shown: Option<String> = match sel {
        Some(i) => Some(presets[i].id.clone()),
        None => None,
    };
    let order = option_order(presets, &shown);
    proof {
        lemma_indices_bound(ids, text_opt(shown), true);
        lemma_indices_bound(ids, text_opt(shown), false);
    }
    let ghost ov = order@.map_values(|i: usize| i as int);
    let mut labels: Vec<String> = Vec::new();
    let mut k: usize = 0;
    while k < order.len()
        invariant
            k <= order@.len(),
            ov == order@.map_values(|i: usize| i as int),
            ov == option_order_of(ids, text_opt(shown)),
            ids == preset_ids(presets@),
            forall|j: int| 0 <= j < ov.len() ==> 0 <= #[trigger] ov[j] < presets@.len(),
            labels@.map_values(|o: String| o@) == option_labels_of(presets@, ov.take(k as int)),
        decreases order.len() - k,
    {
        assert(ov[k as int] == order@[k as int] as int);
        let j = order[k];
        let ghost before = labels@.map_values(|o: String| o@);
        let label = option_label(presets[j].id.as_str(), presets[j].name.as_str());
        let ghost lv = label@;
        labels.push(label);
        assert(ov.take(k + 1) =~= ov.take(k as int).push(ov[k as int]));
        assert(labels@.map_values(|o: String| o@) =~= before.push(lv));
        assert(lv == presets@[ov[k as int]].id@ + " · "@ + presets@[ov[k as int]].name@);
        assert(option_labels_of(presets@, ov.take(k + 1)) =~= option_labels_of(presets@, ov.take(k as int)).push(lv));
        k = k + 1;
    }
    assert(ov.take(order@.len() as int) =~= ov);
    let mut out: Vec<PageItem> = Vec::new();
    push_item(&mut out, PageItem::Hint(page_intro(presets.len())));
    push_item(&mut out, PageItem::Hint(PAGE_HELP.to_string()));
    push_item(&mut out, PageItem::Select(labels));
    let ghost head = out@;
    let mut mid: Vec<PageItem> = match sel {
        Some(i) => section_items(&presets[i], settings, lines[i].as_str()),
        None => {
            let mut m: Vec<PageItem> = Vec::new();
            if presets.len() > 0 {
                push_item(&mut m, PageItem::Line("未选择供应商".to_string(), None));
            }
            m
        },
    };
    let ghost mv = mid@;
    out.append(&mut mid);
    proof {
        lemma_items_concat(head, mv);
    }
    let ghost hm = out@;
    let mut foot = page_foot(settings, status, status_at, tz_offset_min);
    let ghost fv = foot@;
    out.append(&mut foot);
    proof {
        lemma_items_concat(hm, fv);
        assert(items_view(head)[2] == PageItemV::Select(option_labels_of(presets@, ov)));
    }
    assert(items_view(out@) =~= page_of(
        presets@,
        *settings,
        lines@.map_values(|l: String| l@),
        status@,
        status_at,
        tz_offset_min,
    ));
    out
}

} // verus!

verus! {

/// Each action button of the page does the action it names, whatever the presets
/// and the event's text, and a click on it leaves the settings as they are.
pub proof fn lemma_buttons_do_their_actions(value: Seq<char>, presets: Seq<Preset>)
    ensures
        ui_effect(UiEvent::Click, BTN_SAVE_SETTINGS@, value, presets) == UiEffect::SaveSettings,
        ui_effect(UiEvent::Click, BTN_POLL_NOW@, value, presets) == UiEffect::PollNow,
        ui_effect(UiEvent::Click, BTN_PUSH_NOW@, value, presets) == UiEffect::PushNow,
        ui_effect(UiEvent::Click, BTN_HOUSEKEEPING@, value, presets) == UiEffect::RefreshDevice,
        ui_effect(UiEvent::Click, BTN_BACKUP@, value, presets) == UiEffect::Backup,
        ui_effect(UiEvent::Click, BTN_RESTORE@, value, presets) == UiEffect::Restore,
        ui_change(UiEvent::Click, BTN_SAVE_SETTINGS@, value, presets) is Keep,
        ui_change(UiEvent::Click, BTN_POLL_NOW@, value, presets) is Keep,
        ui_change(UiEvent::Click, BTN_PUSH_NOW@, value, presets) is Keep,
        ui_change(UiEvent::Click, BTN_HOUSEKEEPING@, value, presets) is Keep,
        ui_change(UiEvent::Click, BTN_BACKUP@, value, presets) is Keep,
        ui_change(UiEvent::Click, BTN_RESTORE@, value, presets) is Keep,
{
    reveal_strlit("btn-save-settings");
    reveal_strlit("btn-poll-now");
    reveal_strlit("btn-push-now");
    reveal_strlit("btn-housekeeping");
    reveal_strlit("btn-backup");
    reveal_strlit("btn-restore");
    reveal_strlit("tgl-");
    let bs = seq![BTN_SAVE_SETTINGS@, BTN_POLL_NOW@, BTN_PUSH_NOW@, BTN_HOUSEKEEPING@, BTN_BACKUP@, BTN_RESTORE@];
    assert forall|k: int| 0 <= k < 6 implies !starts_with(#[trigger] bs[k], TGL_PREFIX@) by {
        assert(bs[k][0] != TGL_PREFIX@[0]);
        assert(bs[k].take(4)[0] == bs[k][0]);
    }
    assert(bs[0] == BTN_SAVE_SETTINGS@);
    assert(bs[1] == BTN_POLL_NOW@);
    assert(bs[2] == BTN_PUSH_NOW@);
    assert(bs[3] == BTN_HOUSEKEEPING@);
    assert(bs[4] == BTN_BACKUP@);
    assert(bs[5] == BTN_RESTORE@);
    assert(BTN_POLL_NOW@[5] != BTN_PUSH_NOW@[5]);
    assert(BTN_POLL_NOW@ != BTN_SAVE_SETTINGS@);
    assert(BTN_PUSH_NOW@ != BTN_SAVE_SETTINGS@ && BTN_PUSH_NOW@ != BTN_POLL_NOW@);
    assert(BTN_HOUSEKEEPING@[4] != BTN_SAVE_SETTINGS@[4] && BTN_HOUSEKEEPING@[4] != BTN_POLL_NOW@[4]
        && BTN_HOUSEKEEPING@[4] != BTN_PUSH_NOW@[4]);
    assert(BTN_BACKUP@[4] != BTN_SAVE_SETTINGS@[4] && BTN_BACKUP@[4] != BTN_POLL_NOW@[4]
        && BTN_BACKUP@[4] != BTN_PUSH_NOW@[4] && BTN_BACKUP@[4] != BTN_HOUSEKEEPING@[4]);
    assert(BTN_RESTORE@[4] != BTN_SAVE_SETTINGS@[4] && BTN_RESTORE@[4] != BTN_POLL_NOW@[4]
        && BTN_RESTORE@[4] != BTN_PUSH_NOW@[4] && BTN_RESTORE@[4] != BTN_HOUSEKEEPING@[4]
        && BTN_RESTORE@[4] != BTN_BACKUP@[4]);
}

} // verus!
