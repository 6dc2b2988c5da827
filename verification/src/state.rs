//! Persistent settings: which providers are enabled, their form credentials,
//! and the push target. Maps are keyed lists whose keys occur once.

use vstd::prelude::*;
use crate::text::{chars_of, trim, trim_chars, string_of};
use crate::expr::chars_eq;
use crate::validate::text_eq;
use crate::preset::Preset;
use crate::keyed::{entry_of, keys_unique, find_key, lemma_entry_first, lemma_entry_none, lemma_entry_update_other, lemma_entry_push, lemma_unique_update, lemma_unique_push};
use vstd::pervasive::VecAdditionalExecFns;

verus! {

/// Package name of the quick app on the band that receives the pushes.
pub const DEFAULT_PKG: &'static str = "io.github.mcxcc303.llmband";

// ------------------------------------------------------------------ settings

#[derive(Clone, Debug)]
pub struct Settings {
    /// Provider id → whether it is enabled.
    pub enabled: Vec<(String, bool)>,
    /// Provider id → (form field id → value).
    pub credentials: Vec<(String, Vec<(String, String)>)>,
    /// Legacy single API key per provider, folded into `credentials` on load.
    pub api_keys: Vec<(String, String)>,
    pub push_pkg: String,
    pub balance_interval_secs: u64,
    pub push_interval_secs: u64,
    /// The provider shown in the settings form.
    pub selected_provider: Option<String>,
}

impl Settings {
    /// Every map has each key once, the field maps of each provider too.
    pub open spec fn wf(&self) -> bool {
        &&& keys_unique(self.enabled@)
        &&& keys_unique(self.credentials@)
        &&& forall|i: int| 0 <= i < self.credentials@.len() ==> keys_unique(
            (#[trigger] self.credentials@[i]).1@,
        )
        &&& keys_unique(self.api_keys@)
    }
}

impl Default for Settings {
    fn default() -> (r: Settings)
        ensures
            r.enabled@.len() == 0,
            r.credentials@.len() == 0,
            r.api_keys@.len() == 0,
            r.push_pkg@ == DEFAULT_PKG@,
            r.balance_interval_secs == 120,
            r.push_interval_secs == 60,
            r.selected_provider is None,
            r.wf(),
    {
        Settings {
            enabled: Vec::new(),
            credentials: Vec::new(),
            api_keys: Vec::new(),
            push_pkg: DEFAULT_PKG.to_string(),
            balance_interval_secs: 120,
            push_interval_secs: 60,
            selected_provider: None,
        }
    }
}

/// The text of a value, trimmed, when it is not blank.
pub open spec fn nonblank(v: Seq<char>) -> Option<Seq<char>> {
    if trim(v).len() > 0 {
        Some(trim(v))
    } else {
        None
    }
}

/// The name of the primary credential field.
pub open spec fn api_key_field() -> Seq<char> {
    "apiKey"@
}

/// The value stored for form field `field` of provider `id`, as entered.
pub open spec fn stored_credential(s: Settings, id: Seq<char>, field: Seq<char>) -> Option<Seq<char>> {
    match entry_of(s.credentials@, id) {
        Some(fields) => text_opt(entry_of(fields@, field)),
        None => None,
    }
}

/// The credential a request uses: the stored field value, trimmed, unless blank;
/// for `apiKey` the legacy key, trimmed, stands in when that is missing or blank.
pub open spec fn credential_of(s: Settings, id: Seq<char>, field: Seq<char>) -> Option<Seq<char>> {
    let stored = match stored_credential(s, id, field) {
        Some(v) => nonblank(v),
        None => None,
    };
    if stored is Some {
        stored
    } else if field == api_key_field() {
        match entry_of(s.api_keys@, id) {
            Some(k) => nonblank(k@),
            None => None,
        }
    } else {
        None
    }
}

pub open spec fn text_opt(o: Option<String>) -> Option<Seq<char>> {
    match o {
        Some(s) => Some(s@),
        None => None,
    }
}

/// `v` trimmed, unless blank.
fn nonblank_exec(v: &str) -> (r: Option<String>)
    ensures
        text_opt(r) == nonblank(v@),
{
    let c = chars_of(v);
    let t = trim_chars(&c);
    if t.len() > 0 {
        Some(string_of(&t))
    } else {
        None
    }
}

impl Settings {
    pub fn is_enabled(&self, id: &str) -> (r: bool)
        ensures
            r == (entry_of(self.enabled@, id@) == Some(true)),
    {
        let k = chars_of(id);
        match find_key(&self.enabled, &k) {
            Some(i) => {
                proof {
                    lemma_entry_first(self.enabled@, id@, i as int);
                }
                self.enabled[i].1
            },
            None => {
                proof {
                    lemma_entry_none(self.enabled@, id@);
                }
                false
            },
        }
    }

    /// The stored value of a form field, as entered.
    fn stored(&self, id: &str, field: &str) -> (r: Option<&String>)
        ensures
            match r {
                Some(v) => stored_credential(*self, id@, field@) == Some(v@),
                None => stored_credential(*self, id@, field@) is None,
            },
    {
        let k = chars_of(id);
        match find_key(&self.credentials, &k) {
            Some(i) => {
                proof {
                    lemma_entry_first(self.credentials@, id@, i as int);
                }
                let fields = &self.credentials[i].1;
                let f = chars_of(field);
                match find_key(fields, &f) {
                    Some(j) => {
                        proof {
                            lemma_entry_first(fields@, field@, j as int);
                        }
                        Some(&fields[j].1)
                    },
                    None => {
                        proof {
                            lemma_entry_none(fields@, field@);
                        }
                        None
                    },
                }
            },
            None => {
                proof {
                    lemma_entry_none(self.credentials@, id@);
                }
                None
            },
        }
    }

    /// The credential of a form field: the stored value, else (for `apiKey`) the legacy key.
    pub fn credential(&self, id: &str, field: &str) -> (r: Option<String>)
        ensures
            text_opt(r) == credential_of(*self, id@, field@),
    {
        let stored = match self.stored(id, field) {
            Some(v) => nonblank_exec(v.as_str()),
            None => None,
        };
        if stored.is_some() {
            return stored;
        }
        if text_eq(field, "apiKey") {
            let k = chars_of(id);
            match find_key(&self.api_keys, &k) {
                Some(i) => {
                    proof {
                        lemma_entry_first(self.api_keys@, id@, i as int);
                    }
                    nonblank_exec(self.api_keys[i].1.as_str())
                },
                None => {
                    proof {
                        lemma_entry_none(self.api_keys@, id@);
                    }
                    None
                },
            }
        } else {
            None
        }
    }

    /// The primary credential (the `apiKey` field).
    pub fn api_key(&self, id: &str) -> (r: Option<String>)
        ensures
            text_opt(r) == credential_of(*self, id@, api_key_field()),
    {
        self.credential(id, "apiKey")
    }
}

} // verus!

verus! {

/// The new field list of `put_credential`, described by its views.
pub open spec fn put_field(
    inner: Seq<(String, String)>,
    field: Seq<char>,
    value: Seq<char>,
    overwrite: bool,
    f2: Seq<char>,
) -> Option<Seq<char>> {
    if f2 == field && (overwrite || entry_of(inner, field) is None) {
        Some(value)
    } else {
        text_opt(entry_of(inner, f2))
    }
}

/// `fields` with `field` set to `value` (kept where present and `overwrite` fails).
fn put_field_exec(fields: &mut Vec<(String, String)>, field: &str, value: String, overwrite: bool)
    ensures
        forall|f2: Seq<char>| #[trigger]
            text_opt(entry_of(final(fields)@, f2)) == put_field(
                old(fields)@,
                field@,
                value@,
                overwrite,
                f2,
            ),
        keys_unique(old(fields)@) ==> keys_unique(final(fields)@),
{
    let ghost inner = fields@;
    let ghost gv = value@;
    let f = chars_of(field);
    match find_key(fields, &f) {
        Some(j) => {
            proof {
                lemma_entry_first(inner, field@, j as int);
            }
            if overwrite {
                let mut pair: (String, String) = (String::new(), String::new());
                fields.set_and_swap(j, &mut pair);
                let (pk, _) = pair;
                fields.set(j, (pk, value));
                proof {
                    let e = (inner[j as int].0, fields@[j as int].1);
                    assert(fields@ =~= inner.update(j as int, e));
                    lemma_entry_first(fields@, field@, j as int);
                    assert forall|f2: Seq<char>| f2 != field@ implies entry_of(fields@, f2)
                        == entry_of(inner, f2) by {
                        lemma_entry_update_other(inner, j as int, e, f2);
                    }
                    if keys_unique(inner) {
                        lemma_unique_update(inner, j as int, e);
                    }
                }
            }
        },
        None => {
            proof {
                lemma_entry_none(inner, field@);
            }
            fields.push((field.to_string(), value));
            proof {
                let e = fields@.last();
                assert(fields@ =~= inner.push(e));
                assert forall|f2: Seq<char>| #[trigger]
                    text_opt(entry_of(fields@, f2)) == put_field(
                        inner,
                        field@,
                        gv,
                        overwrite,
                        f2,
                    ) by {
                    lemma_entry_push(inner, e, f2);
                }
                if keys_unique(inner) {
                    lemma_unique_push(inner, e);
                }
            }
        },
    }
}

impl Settings {
    /// Stores `value` for form field `field` of provider `id`; where a value is
    /// stored already it is replaced only when `overwrite` holds.
    fn put_credential(&mut self, id: &str, field: &str, value: String, overwrite: bool)
        ensures
            forall|i2: Seq<char>, f2: Seq<char>| #[trigger]
                stored_credential(*final(self), i2, f2) == (if i2 == id@ && f2 == field@ && (
                overwrite || stored_credential(*old(self), i2, f2) is None) {
                    Some(value@)
                } else {
                    stored_credential(*old(self), i2, f2)
                }),
            forall|k: Seq<char>| #[trigger]
                (entry_of(final(self).credentials@, k) is Some) == (entry_of(
                    old(self).credentials@,
                    k,
                ) is Some || k == id@),
            final(self).enabled == old(self).enabled,
            final(self).api_keys == old(self).api_keys,
            final(self).push_pkg == old(self).push_pkg,
            final(self).balance_interval_secs == old(self).balance_interval_secs,
            final(self).push_interval_secs == old(self).push_interval_secs,
            final(self).selected_provider == old(self).selected_provider,
            old(self).wf() ==> final(self).wf(),
    {
        let k = chars_of(id);
        let ghost creds = self.credentials@;
        let ghost gv = value@;
        let ghost was_wf = self.wf();
        match find_key(&self.credentials, &k) {
            Some(i) => {
                let mut entry: (String, Vec<(String, String)>) = (String::new(), Vec::new());
                self.credentials.set_and_swap(i, &mut entry);
                let (ek, mut fields) = entry;
                let ghost inner = fields@;
                put_field_exec(&mut fields, field, value, overwrite);
                let ghost new_inner = fields@;
                self.credentials.set(i, (ek, fields));
                proof {
                    let e = self.credentials@[i as int];
                    assert(self.credentials@ =~= creds.update(i as int, e));
                    lemma_entry_first(creds, id@, i as int);
                    lemma_entry_first(self.credentials@, id@, i as int);
                    assert forall|i2: Seq<char>| i2 != id@ implies entry_of(self.credentials@, i2)
                        == entry_of(creds, i2) by {
                        lemma_entry_update_other(creds, i as int, e, i2);
                    }
                    assert forall|i2: Seq<char>, f2: Seq<char>| #[trigger]
                        stored_credential(*self, i2, f2) == (if i2 == id@ && f2 == field@ && (
                        overwrite || stored_credential(*old(self), i2, f2) is None) {
                            Some(gv)
                        } else {
                            stored_credential(*old(self), i2, f2)
                        }) by {
                        if i2 == id@ {
                            assert(text_opt(entry_of(new_inner, f2)) == put_field(
                                inner,
                                field@,
                                gv,
                                overwrite,
                                f2,
                            ));
                        }
                    }
                    if was_wf {
                        lemma_unique_update(creds, i as int, e);
                        assert forall|a: int| 0 <= a < self.credentials@.len() implies keys_unique(
                            (#[trigger] self.credentials@[a]).1@,
                        ) by {
                            if a != i {
                                assert(self.credentials@[a] == creds[a]);
                            }
                        }
                    }
                }
            },
            None => {
                proof {
                    lemma_entry_none(creds, id@);
                }
                let mut fields: Vec<(String, String)> = Vec::new();
                let ghost empty = fields@;
                put_field_exec(&mut fields, field, value, overwrite);
                self.credentials.push((id.to_string(), fields));
                proof {
                    let e = self.credentials@.last();
                    assert(self.credentials@ =~= creds.push(e));
                    assert forall|i2: Seq<char>| #[trigger]
                        entry_of(self.credentials@, i2) == (if i2 == id@ {
                            Some(e.1)
                        } else {
                            entry_of(creds, i2)
                        }) by {
                        lemma_entry_push(creds, e, i2);
                    }
                    assert forall|f2: Seq<char>| #[trigger] entry_of(empty, f2) is None by {
                        lemma_entry_none(empty, f2);
                    }
                    if was_wf {
                        lemma_unique_push(creds, e);
                        assert forall|a: int| 0 <= a < self.credentials@.len() implies keys_unique(
                            (#[trigger] self.credentials@[a]).1@,
                        ) by {
                            if a < creds.len() {
                                assert(self.credentials@[a] == creds[a]);
                            }
                        }
                    }
                }
            },
        }
    }
}

} // verus!

verus! {

/// The value stored for `(id, field)` once the legacy keys `legacy` are folded in:
/// a legacy key fills the `apiKey` field of its provider where nothing is stored.
pub open spec fn migrated_credential(
    s: Settings,
    legacy: Seq<(String, String)>,
    id: Seq<char>,
    field: Seq<char>,
) -> Option<Seq<char>> {
    if field == api_key_field() && stored_credential(s, id, field) is None {
        text_opt(entry_of(legacy, id))
    } else {
        stored_credential(s, id, field)
    }
}

impl Settings {
    /// Sets the value of form field `field` of provider `id` (not yet saved).
    pub fn set_credential(&mut self, id: &str, field: &str, value: String)
        ensures
            forall|i2: Seq<char>, f2: Seq<char>| #[trigger]
                stored_credential(*final(self), i2, f2) == (if i2 == id@ && f2 == field@ {
                    Some(value@)
                } else {
                    stored_credential(*old(self), i2, f2)
                }),
            final(self).enabled == old(self).enabled,
            final(self).api_keys == old(self).api_keys,
            final(self).push_pkg == old(self).push_pkg,
            final(self).balance_interval_secs == old(self).balance_interval_secs,
            final(self).push_interval_secs == old(self).push_interval_secs,
            final(self).selected_provider == old(self).selected_provider,
            old(self).wf() ==> final(self).wf(),
            credential_of(*final(self), id@, field@) == (match nonblank(value@) {
                Some(t) => Some(t),
                None => if field@ == api_key_field() {
                    match entry_of(old(self).api_keys@, id@) {
                        Some(k) => nonblank(k@),
                        None => None,
                    }
                } else {
                    None
                },
            }),
            forall|i2: Seq<char>, f2: Seq<char>|
                (i2 != id@ || f2 != field@) ==> #[trigger] credential_of(*final(self), i2, f2)
                    == credential_of(*old(self), i2, f2),
    {
        self.put_credential(id, field, value, true);
        proof {
            assert(stored_credential(*self, id@, field@) == Some(value@));
            assert forall|i2: Seq<char>, f2: Seq<char>|
                (i2 != id@ || f2 != field@) implies #[trigger] credential_of(*self, i2, f2)
                == credential_of(*old(self), i2, f2) by {
                assert(stored_credential(*self, i2, f2) == stored_credential(*old(self), i2, f2));
            }
        }
    }

    /// Folds the legacy per-provider API keys into the `apiKey` form field, where
    /// that field holds nothing yet, and empties the legacy map.
    pub fn migrate_legacy_keys(&mut self)
        ensures
            final(self).api_keys@.len() == 0,
            forall|i2: Seq<char>, f2: Seq<char>| #[trigger]
                stored_credential(*final(self), i2, f2) == migrated_credential(
                    *old(self),
                    old(self).api_keys@,
                    i2,
                    f2,
                ),
            forall|k: Seq<char>| #[trigger]
                (entry_of(final(self).credentials@, k) is Some) == (entry_of(
                    old(self).credentials@,
                    k,
                ) is Some || entry_of(old(self).api_keys@, k) is Some),
            final(self).enabled == old(self).enabled,
            final(self).push_pkg == old(self).push_pkg,
            final(self).balance_interval_secs == old(self).balance_interval_secs,
            final(self).push_interval_secs == old(self).push_interval_secs,
            final(self).selected_provider == old(self).selected_provider,
            old(self).wf() ==> final(self).wf(),
            forall|i2: Seq<char>, f2: Seq<char>|
                (match stored_credential(*old(self), i2, f2) {
                    Some(v) => nonblank(v) is Some,
                    None => true,
                }) ==> #[trigger] credential_of(*final(self), i2, f2) == credential_of(
                    *old(self),
                    i2,
                    f2,
                ),
    {
        let ghost start = *self;
        let mut legacy: Vec<(String, String)> = Vec::new();
        std::mem::swap(&mut legacy, &mut self.api_keys);
        let mut n: usize = 0;
        assert(legacy@.take(0) =~= Seq::<(String, String)>::empty());
        while n < legacy.len()
            invariant
                n <= legacy@.len(),
                legacy@ == start.api_keys@,
                self.api_keys@.len() == 0,
                self.enabled == start.enabled,
                self.push_pkg == start.push_pkg,
                self.balance_interval_secs == start.balance_interval_secs,
                self.push_interval_secs == start.push_interval_secs,
                self.selected_provider == start.selected_provider,
                forall|i2: Seq<char>, f2: Seq<char>| #[trigger]
                    stored_credential(*self, i2, f2) == migrated_credential(
                        start,
                        legacy@.take(n as int),
                        i2,
                        f2,
                    ),
                forall|k: Seq<char>| #[trigger]
                    (entry_of(self.credentials@, k) is Some) == (entry_of(start.credentials@, k) is Some
                        || entry_of(legacy@.take(n as int), k) is Some),
                start.wf() ==> self.wf(),
            decreases legacy.len() - n,
        {
            let ghost cur = *self;
            let ghost e = legacy@[n as int];
            let key = legacy[n].1.clone();
            self.put_credential(legacy[n].0.as_str(), "apiKey", key, false);
            proof {
                let pre = legacy@.take(n as int);
                assert(legacy@.take(n + 1) =~= pre.push(e));
                assert forall|i2: Seq<char>, f2: Seq<char>| #[trigger]
                    stored_credential(*self, i2, f2) == migrated_credential(
                        start,
                        legacy@.take(n + 1),
                        i2,
                        f2,
                    ) by {
                    lemma_entry_push(pre, e, i2);
                    assert(stored_credential(cur, i2, f2) == migrated_credential(start, pre, i2, f2));
                }
                assert forall|k: Seq<char>| #[trigger]
                    (entry_of(self.credentials@, k) is Some) == (entry_of(start.credentials@, k) is Some
                        || entry_of(legacy@.take(n + 1), k) is Some) by {
                    lemma_entry_push(pre, e, k);
                    assert((entry_of(cur.credentials@, k) is Some) == (entry_of(start.credentials@, k) is Some
                        || entry_of(pre, k) is Some));
                }
            }
            n = n + 1;
        }
        assert(legacy@.take(legacy@.len() as int) =~= legacy@);
        proof {
            assert forall|i2: Seq<char>, f2: Seq<char>|
                (match stored_credential(start, i2, f2) {
                    Some(v) => nonblank(v) is Some,
                    None => true,
                }) implies #[trigger] credential_of(*self, i2, f2) == credential_of(start, i2, f2) by {
                assert(stored_credential(*self, i2, f2) == migrated_credential(start, legacy@, i2, f2));
                assert(entry_of(self.api_keys@, i2) is None);
            }
        }
    }
}

} // verus!

verus! {

/// Some preset has id `id`.
pub open spec fn preset_listed(presets: Seq<Preset>, id: Seq<char>) -> bool {
    exists|i: int| 0 <= i < presets.len() && (#[trigger] presets[i]).id@ == id
}

pub(crate) fn preset_listed_exec(presets: &Vec<Preset>, id: &[char]) -> (r: bool)
    ensures
        r == preset_listed(presets@, id@),
{
    let mut i: usize = 0;
    while i < presets.len()
        invariant
            i <= presets@.len(),
            forall|j: int| 0 <= j < i ==> (#[trigger] presets@[j]).id@ != id@,
        decreases presets.len() - i,
    {
        let c = chars_of(presets[i].id.as_str());
        if chars_eq(&c, id) {
            return true;
        }
        i = i + 1;
    }
    false
}

/// Keeps the entries whose key is the id of a preset, in order.
pub(crate) fn retain_listed<V>(v: &mut Vec<(String, V)>, presets: &Vec<Preset>)
    ensures
        forall|k: Seq<char>| #[trigger]
            entry_of(final(v)@, k) == (if preset_listed(presets@, k) {
                entry_of(old(v)@, k)
            } else {
                None
            }),
        forall|a: int| 0 <= a < final(v)@.len() ==> old(v)@.contains(#[trigger] final(v)@[a]),
        keys_unique(old(v)@) ==> keys_unique(final(v)@),
{
    let ghost orig = v@;
    let total = v.len();
    let mut rest: Vec<(String, V)> = Vec::new();
    std::mem::swap(&mut rest, v);
    let mut n: usize = 0;
    let ghost mut idx: Seq<int> = Seq::empty();
    assert(orig.skip(0) =~= orig);
    assert forall|k: Seq<char>| #[trigger] entry_of(orig.take(0), k) is None by {
        assert(orig.take(0) =~= Seq::<(String, V)>::empty());
    }
    while rest.len() > 0
        invariant
            n <= orig.len(),
            orig.len() == total,
            rest@ == orig.skip(n as int),
            idx.len() == v@.len(),
            forall|a: int| 0 <= a < idx.len() ==> 0 <= #[trigger] idx[a] < n && v@[a] == orig[idx[a]],
            forall|a: int, b: int| 0 <= a < b < idx.len() ==> #[trigger] idx[a] < #[trigger] idx[b],
            forall|k: Seq<char>| #[trigger]
                entry_of(v@, k) == (if preset_listed(presets@, k) {
                    entry_of(orig.take(n as int), k)
                } else {
                    None
                }),
        decreases rest.len(),
    {
        let ghost out = v@;
        let e = rest.remove(0);
        proof {
            assert(e == orig[n as int]);
            assert(rest@ =~= orig.skip(n + 1));
            assert(orig.take(n + 1) =~= orig.take(n as int).push(e));
        }
        let kc = chars_of(e.0.as_str());
        if preset_listed_exec(presets, &kc) {
            v.push(e);
            proof {
                idx = idx.push(n as int);
                assert forall|k: Seq<char>| #[trigger]
                    entry_of(v@, k) == (if preset_listed(presets@, k) {
                        entry_of(orig.take(n + 1), k)
                    } else {
                        None
                    }) by {
                    lemma_entry_push(out, e, k);
                    lemma_entry_push(orig.take(n as int), e, k);
                }
            }
        } else {
            proof {
                assert forall|k: Seq<char>| #[trigger]
                    entry_of(v@, k) == (if preset_listed(presets@, k) {
                        entry_of(orig.take(n + 1), k)
                    } else {
                        None
                    }) by {
                    lemma_entry_push(orig.take(n as int), e, k);
                }
            }
        }
        n = n + 1;
    }
    proof {
        assert(orig.take(n as int) =~= orig);
        assert forall|a: int| 0 <= a < v@.len() implies orig.contains(#[trigger] v@[a]) by {
            assert(v@[a] == orig[idx[a]]);
        }
        if keys_unique(orig) {
            assert forall|a: int, b: int| 0 <= a < b < v@.len() implies (#[trigger] v@[a]).0@ != (
            #[trigger] v@[b]).0@ by {
                assert(idx[a] < idx[b]);
            }
        }
    }
}

/// The provider selected after pruning: the old one while a preset still has its id,
/// else the first preset's id, else none.
pub open spec fn selection_after(sel: Option<String>, presets: Seq<Preset>) -> Option<Seq<char>> {
    match sel {
        Some(s) => if preset_listed(presets, s@) {
            Some(s@)
        } else if presets.len() > 0 {
            Some(presets[0].id@)
        } else {
            None
        },
        None => if presets.len() > 0 {
            Some(presets[0].id@)
        } else {
            None
        },
    }
}

impl Settings {
    /// Drops the settings of providers that no preset describes any more, and moves
    /// the selection to the first preset when its provider is gone.
    pub fn prune_to_presets(&mut self, presets: &Vec<Preset>)
        ensures
            forall|k: Seq<char>| #[trigger]
                entry_of(final(self).enabled@, k) == (if preset_listed(presets@, k) {
                    entry_of(old(self).enabled@, k)
                } else {
                    None
                }),
            forall|k: Seq<char>| #[trigger]
                entry_of(final(self).credentials@, k) == (if preset_listed(presets@, k) {
                    entry_of(old(self).credentials@, k)
                } else {
                    None
                }),
            forall|k: Seq<char>| #[trigger]
                entry_of(final(self).api_keys@, k) == (if preset_listed(presets@, k) {
                    entry_of(old(self).api_keys@, k)
                } else {
                    None
                }),
            text_opt(final(self).selected_provider) == selection_after(
                old(self).selected_provider,
                presets@,
            ),
            final(self).push_pkg == old(self).push_pkg,
            final(self).balance_interval_secs == old(self).balance_interval_secs,
            final(self).push_interval_secs == old(self).push_interval_secs,
            old(self).wf() ==> final(self).wf(),
    {
        let ghost creds = self.credentials@;
        retain_listed(&mut self.enabled, presets);
        retain_listed(&mut self.credentials, presets);
        retain_listed(&mut self.api_keys, presets);
        let keep = match &self.selected_provider {
            Some(s) => {
                let c = chars_of(s.as_str());
                preset_listed_exec(presets, &c)
            },
            None => false,
        };
        if !keep {
            if presets.len() > 0 {
                self.selected_provider = Some(presets[0].id.clone());
            } else {
                self.selected_provider = None;
            }
        }
        proof {
            assert forall|a: int| 0 <= a < self.credentials@.len() implies creds.contains(
                #[trigger] self.credentials@[a],
            ) by {}
        }
    }
}

/// The first preset with id `id`.
pub open spec fn preset_with_id(presets: Seq<Preset>, id: Seq<char>) -> Option<Preset>
    decreases presets.len(),
{
    if presets.len() == 0 {
        None
    } else if presets[0].id@ == id {
        Some(presets[0])
    } else {
        preset_with_id(presets.drop_first(), id)
    }
}

/// The first preset with id `id`.
pub fn preset_by_id<'a>(presets: &'a Vec<Preset>, id: &str) -> (r: Option<&'a Preset>)
    ensures
        match r {
            Some(p) => preset_with_id(presets@, id@) == Some(*p),
            None => preset_with_id(presets@, id@) is None,
        },
{
    let k = chars_of(id);
    let mut i: usize = 0;
    assert(presets@.skip(0) =~= presets@);
    while i < presets.len()
        invariant
            i <= presets@.len(),
            k@ == id@,
            preset_with_id(presets@, id@) == preset_with_id(presets@.skip(i as int), id@),
        decreases presets.len() - i,
    {
        assert(presets@.skip(i as int)[0] == presets@[i as int]);
        assert(presets@.skip(i as int).drop_first() =~= presets@.skip(i + 1));
        let c = chars_of(presets[i].id.as_str());
        if chars_eq(&c, &k) {
            assert(presets@.skip(i as int)[0].id@ == id@);
            return Some(&presets[i]);
        }
        assert(presets@.skip(i as int)[0].id@ != id@);
        i = i + 1;
    }
    None
}

/// Records `msg` as the status line, stamped with the clock's current time.
pub fn set_status(status: &mut String, status_at: &mut i64, msg: &str)
    ensures
        final(status)@ == msg@,
{
    *status = msg.to_string();
    *status_at = crate::dates::unix_now();
}

} // verus!

verus! {

impl Settings {
    /// Flips provider `id` on or off (a provider without an entry counts as off)
    /// and gives its new state.
    pub fn toggle_enabled(&mut self, id: &str) -> (r: bool)
        ensures
            r == !(entry_of(old(self).enabled@, id@) == Some(true)),
            forall|k: Seq<char>| #[trigger]
                entry_of(final(self).enabled@, k) == (if k == id@ {
                    Some(r)
                } else {
                    entry_of(old(self).enabled@, k)
                }),
            final(self).credentials == old(self).credentials,
            final(self).api_keys == old(self).api_keys,
            final(self).push_pkg == old(self).push_pkg,
            final(self).balance_interval_secs == old(self).balance_interval_secs,
            final(self).push_interval_secs == old(self).push_interval_secs,
            final(self).selected_provider == old(self).selected_provider,
            old(self).wf() ==> final(self).wf(),
    {
        let ghost orig = self.enabled@;
        let k = chars_of(id);
        match find_key(&self.enabled, &k) {
            Some(i) => {
                proof {
                    lemma_entry_first(orig, id@, i as int);
                }
                let mut e: (String, bool) = (String::new(), false);
                self.enabled.set_and_swap(i, &mut e);
                let (ek, b) = e;
                let nb = !b;
                self.enabled.set(i, (ek, nb));
                proof {
                    let e2 = self.enabled@[i as int];
                    assert(self.enabled@ =~= orig.update(i as int, e2));
                    lemma_entry_first(self.enabled@, id@, i as int);
                    assert forall|k2: Seq<char>| k2 != id@ implies #[trigger] entry_of(self.enabled@, k2)
                        == entry_of(orig, k2) by {
                        lemma_entry_update_other(orig, i as int, e2, k2);
                    }
                    if keys_unique(orig) {
                        lemma_unique_update(orig, i as int, e2);
                    }
                }
                nb
            },
            None => {
                proof {
                    lemma_entry_none(orig, id@);
                }
                self.enabled.push((id.to_string(), true));
                proof {
                    let e2 = self.enabled@.last();
                    assert(self.enabled@ =~= orig.push(e2));
                    assert forall|k2: Seq<char>| #[trigger] entry_of(self.enabled@, k2) == (if k2 == id@ {
                        Some(true)
                    } else {
                        entry_of(orig, k2)
                    }) by {
                        lemma_entry_push(orig, e2, k2);
                    }
                    if keys_unique(orig) {
                        lemma_unique_push(orig, e2);
                    }
                }
                true
            },
        }
    }
}

} // verus!
