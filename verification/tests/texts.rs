use llmboard_core::dates::{days_from_civil, epoch_seconds, local_date_at, today_local, unix_now};
use llmboard_core::usage::{cn_day, cn_window, filter_day_lines, model_display_name, model_short_name, TZ_SEC};
use llmboard_core::engine::{
    balance_error, not_installed_status, poll_report, push_finish, push_precheck, push_start,
    pushed_status, unchanged_status, PollOutcome,
};
use llmboard_core::snapshot;
use llmboard_core::ui::{
    card_badge, card_line, cred_event_id, field_hint, fmt_ago, option_label, page_intro,
    provider_heading, row_status, status_line, toggle_event_id, toggle_label,
};

#[test]
fn row_status_follows_configuration() {
    assert_eq!(row_status(false, true, true, None), Some("未启用".to_string()));
    assert_eq!(row_status(true, false, false, None), Some("未配置 API Key".to_string()));
    assert_eq!(row_status(true, true, true, Some("boom")), None);
    assert_eq!(row_status(true, true, false, Some("boom")), Some("错误: boom".to_string()));
    assert_eq!(row_status(true, true, false, None), Some("已配置,等待首次查询".to_string()));
}

#[test]
fn page_texts() {
    assert_eq!(page_intro(12), "LLMBand · 预设驱动多供应商用量看板(共 12 个预设)");
    assert_eq!(page_intro(0), "LLMBand · 预设驱动多供应商用量看板(共 0 个预设)");
    assert_eq!(provider_heading("DeepSeek", true), "DeepSeek — 已启用");
    assert_eq!(provider_heading("DeepSeek", false), "DeepSeek — 未启用");
    assert_eq!(toggle_label("Kimi", true), "☑ 关闭 Kimi");
    assert_eq!(toggle_label("Kimi", false), "☐ 启用 Kimi");
    assert_eq!(toggle_event_id("kimi"), "tgl-kimi");
    assert_eq!(cred_event_id("kimi", "apiKey"), "cred-kimi--apiKey");
    assert_eq!(field_hint("API Key", "sk-...", true), "API Key(sk-...) · 密钥字段");
    assert_eq!(field_hint("Org", "", false), "Org");
    assert_eq!(option_label("kimi", "Kimi"), "kimi · Kimi");
    assert_eq!(card_line("Kimi", "已连接 · 5 分钟前"), "Kimi · 已连接 · 5 分钟前");
}

#[test]
fn status_line_shows_clock_or_dash() {
    assert_eq!(status_line("就绪", 0, 480), "状态: 就绪 (-)");
    assert_eq!(status_line("就绪", 3661, 0), "状态: 就绪 (01:01:01)");
    assert_eq!(status_line("就绪", 3661, 480), "状态: 就绪 (09:01:01)");
}

#[test]
fn card_badges() {
    assert_eq!(card_badge(true), ("已连接 · 自动推送中", "#163B2C", "#87E9C6"));
    assert_eq!(card_badge(false), ("未连接设备", "#3B2A2A", "#F0B7B7"));
}

#[test]
fn ages_short_and_in_words() {
    assert_eq!(fmt_ago(42), "42s");
    assert_eq!(fmt_ago(300), "5m");
    assert_eq!(fmt_ago(7200), "2h");
    assert_eq!(snapshot::fmt_ago(59), "59 秒前");
    assert_eq!(snapshot::fmt_ago(60), "1 分钟前");
    assert_eq!(snapshot::fmt_ago(3 * 3600 + 5), "3 小时前");
    assert_eq!(snapshot::fmt_ago(2 * 86400), "2 天前");
}

#[test]
fn push_status_lines() {
    assert_eq!(unchanged_status(1024), "快照无变化,跳过推送(1024 字节)");
    assert_eq!(
        not_installed_status("io.github.mcxcc303.llmband"),
        "推送失败:手环未安装 io.github.mcxcc303.llmband,请先通过 AstroBox 安装 vela 快应用"
    );
    assert_eq!(pushed_status(77, "pkg"), "已推送快照 77 字节 → pkg");
}

#[test]
fn local_dates() {
    assert_eq!(local_date_at(0, 0), "1970-01-01");
    assert_eq!(local_date_at(-1, 0), "1969-12-31");
    assert_eq!(local_date_at(1_700_000_000, 480), "2023-11-15");
    assert_eq!(local_date_at(57600, 480), "1970-01-02");
    let now = unix_now();
    assert!(now > 1_600_000_000);
    let today = today_local(0);
    assert_eq!(today.len(), 10);
    assert_eq!(&today[4..5], "-");
}

#[test]
fn poll_reports_count_outcomes() {
    let (data, unavailable, failed) = (PollOutcome::Data, PollOutcome::Unavailable, PollOutcome::Failed);
    assert_eq!(
        poll_report(&vec![data, failed, data, unavailable], &vec![data, unavailable, failed, failed]),
        "轮询完成: 余额 2 成功 · 1 不可用 · 1 失败 · 端点 1 成功 / 2 失败"
    );
    assert_eq!(
        poll_report(&vec![], &vec![]),
        "轮询完成: 余额 0 成功 · 0 不可用 · 0 失败 · 端点 0 成功 / 0 失败"
    );
    assert_eq!(balance_error(data, "x"), None);
    assert_eq!(balance_error(failed, "HTTP 401").as_deref(), Some("HTTP 401"));
    assert_eq!(
        balance_error(unavailable, "").as_deref(),
        Some("接口返回余额不可用(欠费/冻结/无可用额度)")
    );
}

#[test]
fn clock_readings_become_unix_seconds() {
    assert_eq!(epoch_seconds(Some(1_754_000_000)), 1_754_000_000);
    assert_eq!(epoch_seconds(None), 0);
    assert_eq!(epoch_seconds(Some(u64::MAX)), -1);
}

#[test]
fn byte_order_marked_header_stays_in_a_day_filter() {
    let amount = "\u{feff}user_id,start_time_iso,end_time_iso,model\na,2026-07-13T10:00:00+08:00,x,deepseek-chat\nb,2026-07-12T10:00:00+08:00,x,deepseek-chat";
    assert_eq!(
        filter_day_lines(amount, "2026-07-13"),
        "\u{feff}user_id,start_time_iso,end_time_iso,model\na,2026-07-13T10:00:00+08:00,x,deepseek-chat"
    );
}

#[test]
fn clock_windows_and_days() {
    assert_eq!(cn_day(0), 0);
    assert_eq!(cn_day(57_600), 1);
    assert_eq!(cn_day(-28_801), -1);
    assert_eq!(cn_day(i64::MAX), (i64::MAX as i128 + 28_800).div_euclid(86_400) as i64);
    let (a, b) = cn_window(7);
    assert_eq!((a + TZ_SEC).rem_euclid(86_400), 0);
    assert_eq!(b - a, 7 * 86_400);
    let now = unix_now();
    assert!(a <= now && now < b);
    assert_eq!(local_date_at(i64::MAX, 480), "292277026596-12-04");
    assert_eq!(local_date_at(0, -1), "1969-12-31");
}

#[test]
fn far_years_count_their_days() {
    assert_eq!(days_from_civil(20_000_000_000_000_000, 1, 1), 7_304_849_999_999_280_472);
    assert_eq!(days_from_civil(1970, 1, 1), 0);
}

#[test]
fn ascii_model_names_are_title_cased() {
    assert_eq!(model_short_name("deepseek-chat"), "Chat");
    assert_eq!(model_display_name("deepseek-v4-pro"), "Pro");
    assert_eq!(model_display_name("deepseek-reasoner"), "Reasoner");
}

#[test]
fn push_steps() {
    let a = Some("AA:BB".to_string());
    let sig = Some("sig".to_string());
    assert_eq!(push_start(false, &None, &None, &None, "sig", 10).as_deref(), Some("未连接设备,跳过推送(请先在 AstroBox 连接手环)"));
    assert_eq!(push_start(false, &a, &a, &sig, "sig", 10).as_deref(), Some("快照无变化,跳过推送(10 字节)"));
    assert_eq!(push_start(true, &a, &a, &sig, "sig", 10), None);
    assert_eq!(push_start(false, &a, &a, &sig, "sig2", 10), None);
    let pkg = "io.github.mcxcc303.llmband";
    assert_eq!(push_precheck(&None, pkg), None);
    assert_eq!(push_precheck(&Some(vec![pkg.to_string()]), pkg), None);
    assert_eq!(push_precheck(&Some(vec![]), pkg), Some(not_installed_status(pkg)));
    let (mut at, mut ls, mut ld) = (None, None, None);
    let st = push_finish(false, 5, "AA:BB", "sig", pkg, 10, &mut at, &mut ls, &mut ld);
    assert_eq!(st, "推送失败:设备不在线/未安装快应用/未授权 interconnect");
    assert_eq!((at, ls.clone(), ld.clone()), (None, None, None));
    let st = push_finish(true, 5, "AA:BB", "sig", "pkg", 10, &mut at, &mut ls, &mut ld);
    assert_eq!(st, "已推送快照 10 字节 → pkg");
    assert_eq!((at, ls.clone(), ld.clone()), (Some(5), sig.clone(), a.clone()));
    // The next scheduled push of the same snapshot stops; a forced one goes on.
    assert!(push_start(false, &a, &ld, &ls, "sig", 10).is_some());
    assert!(push_start(true, &a, &ld, &ls, "sig", 10).is_none());
}
