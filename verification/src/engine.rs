//! The decisions of the engine: timers, timer events, duplicate quick-app
//! messages, the connected device, the poll work list, and whether a push is due.
//! The host calls themselves are made by the caller.

use vstd::prelude::*;
use crate::text::{chars_of, string_of};
use crate::fmt::{int_text, push_digits};
use crate::json::{Json, JsonV};
use crate::path::{object_get, opt_view};
use crate::template::{lit_eq, map_lookup};
use crate::preset::{Preset, FormField};
use crate::state::{Settings, credential_of, text_opt};
use crate::keyed::entry_of;
use crate::expr::chars_eq;

verus! {

broadcast use vstd::string::group_string_axioms;

/// Id of the device-page card.
pub const CARD_ID: &'static str = "llmboard-card";
/// Name of the device-page card.
pub const CARD_NAME: &'static str = "LLMBand 用量";
/// Quick-app messages this close together (seconds) count as one.
pub const INTERCONNECT_DEDUP_SECS: i64 = 3;
/// Period of the housekeeping timer, in milliseconds.
pub const HOUSEKEEPING_MS: u64 = 30_000;

/// The status line after start-up.
pub open spec fn startup_text(n_presets: int, device_connected: bool, recv_registered: bool) -> Seq<char> {
    if !device_connected {
        "插件已启动:已加载 "@ + int_text(n_presets) + " 个预设,未连接设备"@
    } else if !recv_registered {
        "插件已启动:已加载 "@ + int_text(n_presets) + " 个预设;互联接收未注册成功(检查权限,housekeeping 会重试)"@
    } else {
        "插件已启动:已加载 "@ + int_text(n_presets) + " 个预设,等待手环快应用打开并发送消息"@
    }
}

pub fn startup_status(n_presets: usize, device_connected: bool, recv_registered: bool) -> (r: String)
    ensures
        r@ == startup_text(n_presets as int, device_connected, recv_registered),
{
    let mut r = String::new();
    r.append("插件已启动:已加载 ");
    push_digits(&mut r, n_presets as u64);
    if !device_connected {
        r.append(" 个预设,未连接设备");
    } else if !recv_registered {
        r.append(" 个预设;互联接收未注册成功(检查权限,housekeeping 会重试)");
    } else {
        r.append(" 个预设,等待手环快应用打开并发送消息");
    }
    r
}

/// `secs` in milliseconds, held at `u64::MAX`.
pub open spec fn millis_of(secs: u64) -> u64 {
    if secs * 1000 > u64::MAX {
        u64::MAX
    } else {
        (secs * 1000) as u64
    }
}

fn saturating_millis(secs: u64) -> (r: u64)
    ensures
        r == millis_of(secs),
{
    if secs > u64::MAX / 1000 {
        u64::MAX
    } else {
        secs * 1000
    }
}

/// The periods of the balance and push timers, in milliseconds.
pub fn timer_intervals(settings: &Settings) -> (r: (u64, u64))
    ensures
        r == (millis_of(settings.balance_interval_secs), millis_of(settings.push_interval_secs)),
{
    (saturating_millis(settings.balance_interval_secs), saturating_millis(settings.push_interval_secs))
}

/// The timers the engine arms.
#[derive(PartialEq, Eq, Structural, Clone, Copy, Debug)]
pub enum TimerKind {
    Balance,
    Push,
    Housekeeping,
    Unknown,
}

/// The timer a timer event is for: the string `payload` member of its JSON.
pub open spec fn timer_kind_of(event: Option<JsonV>) -> TimerKind {
    match event {
        Some(JsonV::Object(es)) => match object_get(es, "payload"@) {
            Some(JsonV::String(s)) => if s == "balance"@ {
                TimerKind::Balance
            } else if s == "push"@ {
                TimerKind::Push
            } else if s == "housekeeping"@ {
                TimerKind::Housekeeping
            } else {
                TimerKind::Unknown
            },
            _ => TimerKind::Unknown,
        },
        _ => TimerKind::Unknown,
    }
}

pub fn timer_kind(event: &Option<Json>) -> (r: TimerKind)
    ensures
        r == timer_kind_of(opt_view(*event)),
{
    match event {
        Some(Json::Object(es)) => {
            let k = chars_of("payload");
            proof {
                crate::path::lemma_container_views(Json::Object(*es));
                crate::template::lemma_map_get_entries(es@, k@);
            }
            match map_lookup(es, &k) {
                Some(Json::String(s)) => {
                    let c = chars_of(s.as_str());
                    if lit_eq(&c, "balance") {
                        TimerKind::Balance
                    } else if lit_eq(&c, "push") {
                        TimerKind::Push
                    } else if lit_eq(&c, "housekeeping") {
                        TimerKind::Housekeeping
                    } else {
                        TimerKind::Unknown
                    }
                },
                _ => TimerKind::Unknown,
            }
        },
        _ => TimerKind::Unknown,
    }
}

/// `a - b` held to the `i64` range.
pub open spec fn saturating_diff(a: i64, b: i64) -> int {
    if a - b > i64::MAX {
        i64::MAX as int
    } else if a - b < i64::MIN {
        i64::MIN as int
    } else {
        a - b
    }
}

/// A quick-app message at `now` repeats the one at `last` when they are less than
/// `INTERCONNECT_DEDUP_SECS` apart.
pub fn is_duplicate_message(now: i64, last: Option<i64>) -> (r: bool)
    ensures
        r == (match last {
            Some(t) => saturating_diff(now, t) < INTERCONNECT_DEDUP_SECS,
            None => false,
        }),
{
    match last {
        Some(t) => {
            let d: i128 = now as i128 - t as i128;
            let s: i64 = if d > i64::MAX as i128 {
                i64::MAX
            } else if d < i64::MIN as i128 {
                i64::MIN
            } else {
                d as i64
            };
            s < INTERCONNECT_DEDUP_SECS
        },
        None => false,
    }
}

/// After listing the connected devices: whether the quick-app receiver still
/// counts as registered (not once the device changed), and whether to register it.
pub open spec fn device_step(current: Option<Seq<char>>, registered: bool, connected: Option<Seq<char>>) -> (bool, bool) {
    let still = if connected != current {
        false
    } else {
        registered
    };
    (still, !still && connected is Some)
}

fn same_opt_text(a: &Option<String>, b: &Option<String>) -> (r: bool)
    ensures
        r == (text_opt(*a) == text_opt(*b)),
{
    match (a, b) {
        (Some(x), Some(y)) => {
            let xc = chars_of(x.as_str());
            let yc = chars_of(y.as_str());
            chars_eq(&xc, &yc)
        },
        (None, None) => true,
        _ => false,
    }
}

pub fn device_update(current: &Option<String>, registered: bool, connected: &Option<String>) -> (r: (bool, bool))
    ensures
        r == device_step(text_opt(*current), registered, text_opt(*connected)),
{
    let still = if !same_opt_text(connected, current) {
        false
    } else {
        registered
    };
    (still, !still && connected.is_some())
}

// ------------------------------------------------------------------ polling

pub open spec fn pair_view(p: (String, String)) -> (Seq<char>, Seq<char>) {
    (p.0@, p.1@)
}

/// The credentials of a provider's form fields, in form order: each field that
/// has one, with it.
pub open spec fn job_fields(s: Settings, id: Seq<char>, fs: Seq<FormField>) -> Seq<(Seq<char>, Seq<char>)>
    decreases fs.len(),
{
    if fs.len() == 0 {
        Seq::empty()
    } else {
        let rest = job_fields(s, id, fs.drop_last());
        match credential_of(s, id, fs.last().id@) {
            Some(v) => rest.push((fs.last().id@, v)),
            None => rest,
        }
    }
}

/// The credentials a provider is polled with: those of its form fields, or of the
/// one default field `apiKey` when its form declares none.
pub open spec fn preset_job_fields(s: Settings, p: Preset) -> Seq<(Seq<char>, Seq<char>)> {
    if p.form.fields@.len() == 0 {
        match credential_of(s, p.id@, "apiKey"@) {
            Some(v) => seq![("apiKey"@, v)],
            None => Seq::empty(),
        }
    } else {
        job_fields(s, p.id@, p.form.fields@)
    }
}

/// The poll work list: each enabled provider whose form fields have a credential,
/// with those credentials, in preset order.
pub open spec fn poll_jobs_of(ps: Seq<Preset>, s: Settings) -> Seq<(Seq<char>, Seq<(Seq<char>, Seq<char>)>)>
    decreases ps.len(),
{
    if ps.len() == 0 {
        Seq::empty()
    } else {
        let rest = poll_jobs_of(ps.drop_last(), s);
        let p = ps.last();
        let fields = preset_job_fields(s, p);
        if entry_of(s.enabled@, p.id@) == Some(true) && fields.len() > 0 {
            rest.push((p.id@, fields))
        } else {
            rest
        }
    }
}

pub open spec fn job_view(j: (String, Vec<(String, String)>)) -> (Seq<char>, Seq<(Seq<char>, Seq<char>)>) {
    (j.0@, j.1@.map_values(|p: (String, String)| pair_view(p)))
}

fn fields_for(settings: &Settings, id: &str, fs: &Vec<FormField>) -> (r: Vec<(String, String)>)
    ensures
        r@.map_values(|p: (String, String)| pair_view(p)) == job_fields(*settings, id@, fs@),
{
    let mut out: Vec<(String, String)> = Vec::new();
    let mut i: usize = 0;
    assert(fs@.take(0) =~= Seq::<FormField>::empty());
    assert(out@.map_values(|p: (String, String)| pair_view(p)) =~= Seq::<(Seq<char>, Seq<char>)>::empty());
    while i < fs.len()
        invariant
            i <= fs@.len(),
            out@.map_values(|p: (String, String)| pair_view(p)) == job_fields(*settings, id@, fs@.take(i as int)),
        decreases fs.len() - i,
    {
        assert(fs@.take(i + 1).drop_last() =~= fs@.take(i as int));
        let ghost before = out@.map_values(|p: (String, String)| pair_view(p));
        match settings.credential(id, fs[i].id.as_str()) {
            Some(v) => {
                let ghost vv = v@;
                out.push((fs[i].id.clone(), v));
                assert(out@.map_values(|p: (String, String)| pair_view(p)) =~= before.push((fs@[i as int].id@, vv)));
            },
            None => {},
        }
        i = i + 1;
    }
    assert(fs@.take(fs@.len() as int) =~= fs@);
    out
}

/// The poll work list (enabled providers with credentials, and those credentials).
pub fn poll_jobs(presets: &Vec<Preset>, settings: &Settings) -> (r: Vec<(String, Vec<(String, String)>)>)
    ensures
        r@.map_values(|j: (String, Vec<(String, String)>)| job_view(j)) == poll_jobs_of(presets@, *settings),
{
    let mut out: Vec<(String, Vec<(String, String)>)> = Vec::new();
    let mut i: usize = 0;
    assert(presets@.take(0) =~= Seq::<Preset>::empty());
    assert(out@.map_values(|j: (String, Vec<(String, String)>)| job_view(j)) =~= Seq::<(Seq<char>, Seq<(Seq<char>, Seq<char>)>)>::empty());
    while i < presets.len()
        invariant
            i <= presets@.len(),
            out@.map_values(|j: (String, Vec<(String, String)>)| job_view(j)) == poll_jobs_of(presets@.take(i as int), *settings),
        decreases presets.len() - i,
    {
        assert(presets@.take(i + 1).drop_last() =~= presets@.take(i as int));
        let p = &presets[i];
        let ghost before = out@.map_values(|j: (String, Vec<(String, String)>)| job_view(j));
        if settings.is_enabled(p.id.as_str()) {
            let fields = if p.form.fields.len() == 0 {
                let mut d: Vec<(String, String)> = Vec::new();
                match settings.credential(p.id.as_str(), "apiKey") {
                    Some(v) => {
                        let ghost vv = v@;
                        d.push(("apiKey".to_string(), v));
                        assert(d@.map_values(|q: (String, String)| pair_view(q)) =~= seq![("apiKey"@, vv)]);
                    },
                    None => {
                        assert(d@.map_values(|q: (String, String)| pair_view(q)) =~= Seq::<(Seq<char>, Seq<char>)>::empty());
                    },
                }
                d
            } else {
                fields_for(settings, p.id.as_str(), &p.form.fields)
            };
            assert(fields@.map_values(|q: (String, String)| pair_view(q)) == preset_job_fields(*settings, *p));
            if fields.len() > 0 {
                let ghost jv = job_view((p.id, fields));
                out.push((p.id.clone(), fields));
                assert(out@.map_values(|j: (String, Vec<(String, String)>)| job_view(j)) =~= before.push(jv));
            }
        }
        i = i + 1;
    }
    assert(presets@.take(presets@.len() as int) =~= presets@);
    out
}

/// The status line after a poll.
pub open spec fn poll_summary_text(ok: int, unavail: int, fail: int, ep_ok: int, ep_fail: int) -> Seq<char> {
    "轮询完成: 余额 "@ + int_text(ok) + " 成功 · "@ + int_text(unavail) + " 不可用 · "@ + int_text(fail)
        + " 失败 · 端点 "@ + int_text(ep_ok) + " 成功 / "@ + int_text(ep_fail) + " 失败"@
}

pub fn poll_summary(ok: usize, unavail: usize, fail: usize, ep_ok: usize, ep_fail: usize) -> (r: String)
    ensures
        r@ == poll_summary_text(ok as int, unavail as int, fail as int, ep_ok as int, ep_fail as int),
{
    let mut r = String::new();
    r.append("轮询完成: 余额 ");
    push_digits(&mut r, ok as u64);
    r.append(" 成功 · ");
    push_digits(&mut r, unavail as u64);
    r.append(" 不可用 · ");
    push_digits(&mut r, fail as u64);
    r.append(" 失败 · 端点 ");
    push_digits(&mut r, ep_ok as u64);
    r.append(" 成功 / ");
    push_digits(&mut r, ep_fail as u64);
    r.append(" 失败");
    r
}

// ------------------------------------------------------------------ poll outcomes

/// The status line when no enabled provider has credentials to poll with.
pub const NO_JOBS_STATUS: &'static str = "未启用任何供应商或未配置凭据(插件页面选择供应商并保存)";
/// The error noted on a provider whose platform reports its balance unavailable.
pub const UNAVAILABLE_ERROR: &'static str = "接口返回余额不可用(欠费/冻结/无可用额度)";

/// What one fetch of a poll came to: data, a reply that says "unavailable", or an error.
#[derive(PartialEq, Eq, Structural, Clone, Copy, Debug)]
pub enum PollOutcome {
    Data,
    Unavailable,
    Failed,
}

/// How many of `s` are `o`.
pub open spec fn count_outcome(s: Seq<PollOutcome>, o: PollOutcome) -> nat
    decreases s.len(),
{
    if s.len() == 0 {
        0
    } else {
        count_outcome(s.drop_last(), o) + if s.last() == o {
            1nat
        } else {
            0nat
        }
    }
}

fn count_exec(v: &Vec<PollOutcome>, o: PollOutcome) -> (r: usize)
    ensures
        r == count_outcome(v@, o),
{
    let mut r: usize = 0;
    let mut i: usize = 0;
    while i < v.len()
        invariant
            i <= v@.len(),
            r == count_outcome(v@.take(i as int), o),
            r <= i,
        decreases v.len() - i,
    {
        assert(v@.take(i + 1).drop_last() =~= v@.take(i as int));
        if v[i] == o {
            r = r + 1;
        }
        i = i + 1;
    }
    assert(v@.take(v@.len() as int) =~= v@);
    r
}

/// The status line after a poll, from the outcome of each balance fetch and of each
/// endpoint fetch; an endpoint that was unavailable counts as neither success nor failure.
pub fn poll_report(balances: &Vec<PollOutcome>, endpoints: &Vec<PollOutcome>) -> (r: String)
    ensures
        r@ == poll_summary_text(
            count_outcome(balances@, PollOutcome::Data) as int,
            count_outcome(balances@, PollOutcome::Unavailable) as int,
            count_outcome(balances@, PollOutcome::Failed) as int,
            count_outcome(endpoints@, PollOutcome::Data) as int,
            count_outcome(endpoints@, PollOutcome::Failed) as int,
        ),
{
    poll_summary(
        count_exec(balances, PollOutcome::Data),
        count_exec(balances, PollOutcome::Unavailable),
        count_exec(balances, PollOutcome::Failed),
        count_exec(endpoints, PollOutcome::Data),
        count_exec(endpoints, PollOutcome::Failed),
    )
}

/// The error a balance fetch leaves on its provider: none after data, the fixed note
/// when unavailable, the fetch error's text after a failure.
pub fn balance_error(outcome: PollOutcome, err: &str) -> (r: Option<String>)
    ensures
        text_opt(r) == match outcome {
            PollOutcome::Data => None,
            PollOutcome::Unavailable => Some(UNAVAILABLE_ERROR@),
            PollOutcome::Failed => Some(err@),
        },
{
    match outcome {
        PollOutcome::Data => None,
        PollOutcome::Unavailable => Some(UNAVAILABLE_ERROR.to_string()),
        PollOutcome::Failed => Some(err.to_string()),
    }
}

/// The bookkeeping of a provider after its balance fetch (`err`: the fetch error's
/// text): after data the success time is `now` and no error is kept; otherwise the
/// error (`balance_error`) is kept with time `now`, and the last success stays.
pub fn balance_update(
    outcome: PollOutcome,
    now: i64,
    err: &str,
    last_ok_at: &mut Option<i64>,
    last_error: &mut Option<String>,
    error_at: &mut Option<i64>,
)
    ensures
        text_opt(*final(last_error)) == match outcome {
            PollOutcome::Data => None,
            PollOutcome::Unavailable => Some(UNAVAILABLE_ERROR@),
            PollOutcome::Failed => Some(err@),
        },
        outcome == PollOutcome::Data ==> *final(last_ok_at) == Some(now) && *final(error_at) == None::<i64>,
        outcome != PollOutcome::Data ==> *final(last_ok_at) == *old(last_ok_at) && *final(error_at) == Some(now),
{
    *last_error = balance_error(outcome, err);
    if outcome == PollOutcome::Data {
        *last_ok_at = Some(now);
        *error_at = None;
    } else {
        *error_at = Some(now);
    }
}

// ------------------------------------------------------------------ pushing

/// A scheduled push is skipped when the same snapshot went to the same device last.
pub fn push_unchanged(last_device: &Option<String>, last_signature: &Option<String>, addr: &str, signature: &str) -> (r: bool)
    ensures
        r == (text_opt(*last_device) == Some(addr@) && text_opt(*last_signature) == Some(signature@)),
{
    let a = Some(addr.to_string());
    let s = Some(signature.to_string());
    same_opt_text(last_device, &a) && same_opt_text(last_signature, &s)
}

/// Whether a quick app with package name `pkg` is among the installed ones.
pub fn package_installed(apps: &Vec<String>, pkg: &str) -> (r: bool)
    ensures
        r == exists|i: int| 0 <= i < apps@.len() && (#[trigger] apps@[i])@ == pkg@,
{
    let pc = chars_of(pkg);
    let mut i: usize = 0;
    while i < apps.len()
        invariant
            i <= apps@.len(),
            pc@ == pkg@,
            forall|j: int| 0 <= j < i ==> (#[trigger] apps@[j])@ != pkg@,
        decreases apps.len() - i,
    {
        let c = chars_of(apps[i].as_str());
        if chars_eq(&c, &pc) {
            return true;
        }
        i = i + 1;
    }
    false
}

/// The status line when a scheduled push is skipped.
pub fn unchanged_status(bytes: usize) -> (r: String)
    ensures
        r@ == "快照无变化,跳过推送("@ + int_text(bytes as int) + " 字节)"@,
{
    let mut r = String::new();
    r.append("快照无变化,跳过推送(");
    push_digits(&mut r, bytes as u64);
    r.append(" 字节)");
    r
}

/// The status line when the quick app is missing on the band.
pub fn not_installed_status(pkg: &str) -> (r: String)
    ensures
        r@ == "推送失败:手环未安装 "@ + pkg@ + ",请先通过 AstroBox 安装 vela 快应用"@,
{
    let mut r = String::new();
    r.append("推送失败:手环未安装 ");
    r.append(pkg);
    r.append(",请先通过 AstroBox 安装 vela 快应用");
    r
}

/// The status line after a push.
pub fn pushed_status(bytes: usize, pkg: &str) -> (r: String)
    ensures
        r@ == "已推送快照 "@ + int_text(bytes as int) + " 字节 → "@ + pkg@,
{
    let mut r = String::new();
    r.append("已推送快照 ");
    push_digits(&mut r, bytes as u64);
    r.append(" 字节 → ");
    r.append(pkg);
    r
}


// ------------------------------------------------------------------ the push sequence

/// The status line when there is no band to push to.
pub const NO_DEVICE_STATUS: &'static str = "未连接设备,跳过推送(请先在 AstroBox 连接手环)";
/// The status line when sending the snapshot failed.
pub const SEND_FAILED_STATUS: &'static str = "推送失败:设备不在线/未安装快应用/未授权 interconnect";

/// Where a push stops before asking the band anything, with its status line
/// (`None`: go on and check the band's apps): no device; or, unless forced, the
/// same snapshot already went to the same device.
pub open spec fn push_start_of(
    force: bool,
    device: Option<Seq<char>>,
    last_device: Option<Seq<char>>,
    last_signature: Option<Seq<char>>,
    signature: Seq<char>,
    bytes: int,
) -> Option<Seq<char>> {
    match device {
        None => Some(NO_DEVICE_STATUS@),
        Some(addr) => if !force && last_device == Some(addr) && last_signature == Some(signature) {
            Some("快照无变化,跳过推送("@ + int_text(bytes) + " 字节)"@)
        } else {
            None
        },
    }
}

/// The first step of a push (`bytes`: the snapshot's length, `signature`: its stable
/// signature): `Some(status)` where the push stops, `None` where the band's installed
/// apps are to be checked next.
pub fn push_start(
    force: bool,
    device: &Option<String>,
    last_device: &Option<String>,
    last_signature: &Option<String>,
    signature: &str,
    bytes: usize,
) -> (r: Option<String>)
    ensures
        text_opt(r) == push_start_of(
            force,
            text_opt(*device),
            text_opt(*last_device),
            text_opt(*last_signature),
            signature@,
            bytes as int,
        ),
{
    match device {
        None => Some(NO_DEVICE_STATUS.to_string()),
        Some(addr) => {
            if !force && push_unchanged(last_device, last_signature, addr.as_str(), signature) {
                Some(unchanged_status(bytes))
            } else {
                None
            }
        },
    }
}

/// After the band's app list was asked for (`None`: it could not be had): the push
/// stops, with its status, only when the list came and lacks the quick app `pkg`.
pub fn push_precheck(apps: &Option<Vec<String>>, pkg: &str) -> (r: Option<String>)
    ensures
        text_opt(r) == match apps {
            Some(list) => if exists|i: int| 0 <= i < list@.len() && (#[trigger] list@[i])@ == pkg@ {
                None
            } else {
                Some("推送失败:手环未安装 "@ + pkg@ + ",请先通过 AstroBox 安装 vela 快应用"@)
            },
            None => None,
        },
{
    match apps {
        Some(list) => if package_installed(list, pkg) {
            None
        } else {
            Some(not_installed_status(pkg))
        },
        None => None,
    }
}

/// The last step of a push, after sending (`sent`): a sent snapshot is recorded as
/// the last push (at `now`, with its signature and device); a failed send changes
/// nothing of that. Gives the status line.
pub fn push_finish(
    sent: bool,
    now: i64,
    addr: &str,
    signature: &str,
    pkg: &str,
    bytes: usize,
    last_push_at: &mut Option<i64>,
    last_signature: &mut Option<String>,
    last_device: &mut Option<String>,
) -> (r: String)
    ensures
        sent ==> *final(last_push_at) == Some(now),
        sent ==> text_opt(*final(last_signature)) == Some(signature@),
        sent ==> text_opt(*final(last_device)) == Some(addr@),
        sent ==> r@ == "已推送快照 "@ + int_text(bytes as int) + " 字节 → "@ + pkg@,
        !sent ==> *final(last_push_at) == *old(last_push_at),
        !sent ==> *final(last_signature) == *old(last_signature),
        !sent ==> *final(last_device) == *old(last_device),
        !sent ==> r@ == SEND_FAILED_STATUS@,
{
    if sent {
        *last_push_at = Some(now);
        *last_signature = Some(signature.to_string());
        *last_device = Some(addr.to_string());
        pushed_status(bytes, pkg)
    } else {
        SEND_FAILED_STATUS.to_string()
    }
}

/// Once a snapshot was sent to a device, a scheduled (unforced) push of a snapshot
/// with the same signature to that device stops at the first step, and a forced one
/// goes on.
pub proof fn lemma_push_after_send(addr: Seq<char>, signature: Seq<char>, bytes: int)
    ensures
        push_start_of(false, Some(addr), Some(addr), Some(signature), signature, bytes)
            == Some("快照无变化,跳过推送("@ + int_text(bytes) + " 字节)"@),
        push_start_of(true, Some(addr), Some(addr), Some(signature), signature, bytes) is None,
{
}

} // verus!
