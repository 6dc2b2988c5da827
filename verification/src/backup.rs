//! Backup files of the settings and data: their header check, what a restore keeps
//! of the backed-up settings, and the texts around them. Reading and writing the
//! JSON is the caller's.

use vstd::prelude::*;
use crate::text::chars_of;
use crate::fmt::{int_text, push_digits, push_int};
use crate::template::lit_eq;
use crate::preset::Preset;
use crate::state::{Settings, preset_listed, retain_listed};
use crate::keyed::entry_of;

verus! {

broadcast use vstd::string::group_string_axioms;

/// The `kind` of a backup file.
pub const BACKUP_KIND: &'static str = "llmboard-backup";
/// The backup format version.
pub const BACKUP_VERSION: u32 = 1;

/// The error a backup header gives, if any: another kind, or another version.
pub open spec fn backup_header_error(kind: Seq<char>, version: u32) -> Option<Seq<char>> {
    if kind != BACKUP_KIND@ {
        Some("不是本插件的备份文件(kind="@ + kind + ")"@)
    } else if version != BACKUP_VERSION {
        Some("备份版本不受支持: "@ + int_text(version as int) + " (当前支持 "@ + int_text(BACKUP_VERSION as int) + ")"@)
    } else {
        None
    }
}

pub fn check_backup_header(kind: &str, version: u32) -> (r: Result<(), String>)
    ensures
        match r {
            Ok(()) => backup_header_error(kind@, version) is None,
            Err(e) => backup_header_error(kind@, version) == Some(e@),
        },
{
    let k = chars_of(kind);
    if !lit_eq(&k, BACKUP_KIND) {
        let mut e = "不是本插件的备份文件(kind=".to_string();
        e.append(kind);
        e.append(")");
        return Err(e);
    }
    if version != BACKUP_VERSION {
        let mut e = "备份版本不受支持: ".to_string();
        push_digits(&mut e, version as u64);
        e.append(" (当前支持 ");
        push_digits(&mut e, BACKUP_VERSION as u64);
        e.append(")");
        return Err(e);
    }
    Ok(())
}

impl Settings {
    /// What a restore keeps of backed-up settings: the enabled flags and legacy keys
    /// of providers that a preset still describes; everything else as backed up.
    pub fn retain_for_restore(&mut self, presets: &Vec<Preset>)
        ensures
            forall|k: Seq<char>| #[trigger]
                entry_of(final(self).enabled@, k) == (if preset_listed(presets@, k) {
                    entry_of(old(self).enabled@, k)
                } else {
                    None
                }),
            forall|k: Seq<char>| #[trigger]
                entry_of(final(self).api_keys@, k) == (if preset_listed(presets@, k) {
                    entry_of(old(self).api_keys@, k)
                } else {
                    None
                }),
            final(self).credentials == old(self).credentials,
            final(self).push_pkg == old(self).push_pkg,
            final(self).balance_interval_secs == old(self).balance_interval_secs,
            final(self).push_interval_secs == old(self).push_interval_secs,
            final(self).selected_provider == old(self).selected_provider,
            old(self).wf() ==> final(self).wf(),
    {
        retain_listed(&mut self.enabled, presets);
        retain_listed(&mut self.api_keys, presets);
    }
}

/// The status after a restore.
pub open spec fn restore_summary_text(providers: int, has_balance: bool) -> Seq<char> {
    "备份已恢复: "@ + int_text(providers) + " 个供应商数据 · 余额"@ + (if has_balance {
        "有"@
    } else {
        "无"@
    })
}

pub fn restore_summary(providers: usize, has_balance: bool) -> (r: String)
    ensures
        r@ == restore_summary_text(providers as int, has_balance),
{
    let mut r = "备份已恢复: ".to_string();
    push_digits(&mut r, providers as u64);
    r.append(" 个供应商数据 · 余额");
    r.append(if has_balance { "有" } else { "无" });
    r
}

/// The file name a backup is saved under.
pub fn backup_file_name(now: i64) -> (r: String)
    ensures
        r@ == "llmboard-backup-"@ + int_text(now as int) + ".json"@,
{
    let mut r = "llmboard-backup-".to_string();
    push_int(&mut r, now);
    r.append(".json");
    r
}

} // verus!
