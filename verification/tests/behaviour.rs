use std::io::Write;

use llmboard_core::backup::{backup_file_name, check_backup_header, restore_summary};
use llmboard_core::capabilities::{
    export_hint, find_capability, inventory, unregistered_message, usage_export_url,
};
use llmboard_core::dates::{civil_from_days, days_from_civil};
use llmboard_core::engine::{
    device_update, is_duplicate_message, package_installed, poll_jobs, poll_summary,
    push_unchanged, startup_status, timer_intervals, timer_kind, TimerKind,
};
use llmboard_core::export::read_zip_csvs;
use llmboard_core::json::Json;
use llmboard_core::normalize::total_missing_message;
use llmboard_core::path::{ExtractSpec, PathSpec};
use llmboard_core::preset::{
    order_presets, AuthSpec, BalanceExtract, BalanceSpec, FormField, FormSpec, Preset,
    TemplateSpec,
};
use llmboard_core::provider::{auth_value, request_method, request_url, HttpMethod};
use llmboard_core::snapshot::{freshness, provider_status, snapshot_providers};
use llmboard_core::state::Settings;
use llmboard_core::template::{
    fill_template, format_plan, parse_template, percent_source, pick_table_rows,
    resolve_ref_text, resolve_series_labels, scoped_ref_text, widget_shown, FormatPlan,
    PercentSource, RefSource, TableRow,
};
use llmboard_core::ui::{
    button_style, cred_event_id, fmt_epoch, option_label, option_order, payload_value,
    page_items, selected_preset, toggle_event_id, ui_event, PageItem, UiEffect, UiEvent,
    SELECT_PROVIDER,
};
use llmboard_core::usage::{
    cn_window_at, day_cost_rows, day_key, day_token_totals, filter_day_lines,
    model_cost_rows, model_display_name, model_short_name, model_token_totals, series_days,
    DayTokens, TZ_SEC,
};

fn s(x: &str) -> String {
    x.to_string()
}

fn obj(members: Vec<(&str, Json)>) -> Json {
    Json::Object(members.into_iter().map(|(k, v)| (k.to_string(), v)).collect())
}

fn simple_preset(id: &str, fields: &[&str]) -> Preset {
    Preset {
        schema_version: 2,
        id: s(id),
        name: format!("Test {id}"),
        homepage: None,
        accent: s("#4D6BFE"),
        auth: AuthSpec {
            kind: s("bearer"),
            header: s("Authorization"),
            prefix: s("Bearer "),
            key_label: s("API Key"),
            key_hint: String::new(),
        },
        form: FormSpec {
            fields: fields
                .iter()
                .map(|f| FormField { id: s(f), label: s(f), hint: String::new(), secret: true })
                .collect(),
        },
        balance: BalanceSpec {
            method: s("GET"),
            url: s("https://example.com/balance"),
            headers: Vec::new(),
            body: None,
            timeout_secs: 10,
            extract: BalanceExtract {
                total: Some(ExtractSpec {
                    path: PathSpec::One(s("total")),
                    optional: false,
                    default: None,
                }),
                top_up: None,
                granted: None,
                currency: None,
                extras: Vec::new(),
            },
            unavailable_when: None,
            computed: Vec::new(),
        },
        endpoints: Vec::new(),
        template: TemplateSpec { widgets: Vec::new(), band: None },
    }
}

const AMOUNT: &str = "\u{feff}user_id,start_time_iso,end_time_iso,model,api_key_name,api_key,type,price,amount\n00000000-0000-0000-0000-000000000000,2026-07-13T00:00:00+08:00,2026-07-14T00:00:00+08:00,deepseek-v4-pro,key-a,sk-x,output_tokens,0.000006,352921\n00000000-0000-0000-0000-000000000000,2026-07-13T00:00:00+08:00,2026-07-14T00:00:00+08:00,deepseek-v4-pro,key-a,sk-x,input_cache_hit_tokens,0.000000025,105402624\n00000000-0000-0000-0000-000000000000,2026-07-13T00:00:00+08:00,2026-07-14T00:00:00+08:00,deepseek-v4-pro,key-a,sk-x,input_cache_miss_tokens,0.000003,1885620\n00000000-0000-0000-0000-000000000000,2026-07-13T00:00:00+08:00,2026-07-14T00:00:00+08:00,deepseek-v4-pro,key-a,sk-x,request_count,,666\n";

const COST: &str = "\u{feff}user_id,start_time_iso,end_time_iso,model,wallet_type,cost,currency\n00000000-0000-0000-0000-000000000000,2026-07-13T00:00:00+08:00,2026-07-14T00:00:00+08:00,deepseek-v4-pro,Paid,10.4094516000000000,CNY\n";

// ------------------------------------------------------------------ dates

#[test]
fn epoch_days_known_values() {
    assert_eq!(days_from_civil(1970, 1, 1), 0);
    assert_eq!(days_from_civil(2000, 3, 1), 11017);
    assert_eq!(civil_from_days(-1), (1969, 12, 31));
    assert_eq!(civil_from_days(19_723), (2024, 1, 1));
}

#[test]
fn day_key_formats_platform_day() {
    assert_eq!(day_key(0), "1970-01-01");
    let today = days_from_civil(2026, 7, 13);
    assert_eq!(day_key(today), "2026-07-13");
    let days = series_days(today);
    assert_eq!(days.len(), 7);
    assert_eq!(days[0], (s("2026-07-07"), s("7/7")));
    assert_eq!(days[6], (s("2026-07-13"), s("7/13")));
}

#[test]
fn cn_window_at_is_exact() {
    // 2026-07-13T12:00:00+08:00
    let now = days_from_civil(2026, 7, 13) * 86_400 + 4 * 3600;
    let (start, end) = cn_window_at(now, 7);
    assert_eq!(end, days_from_civil(2026, 7, 14) * 86_400 - TZ_SEC);
    assert_eq!(start, days_from_civil(2026, 7, 7) * 86_400 - TZ_SEC);
}

// ------------------------------------------------------------------ settings

#[test]
fn credential_read_after_write() {
    let mut a = Settings::default();
    a.set_credential("x", "apiKey", s("  "));
    a.api_keys.push((s("x"), s(" legacy ")));
    // a blank stored key falls back to the legacy one
    assert_eq!(a.api_key("x").as_deref(), Some("legacy"));
    a.set_credential("x", "apiKey", s(" fresh "));
    assert_eq!(a.api_key("x").as_deref(), Some("fresh"));
    a.set_credential("x", "apiKey", s("second"));
    assert_eq!(a.credential("x", "apiKey").as_deref(), Some("second"));
    assert_eq!(a.credentials.len(), 1);
    assert_eq!(a.credentials[0].1.len(), 1);
}

#[test]
fn migration_keeps_stored_keys() {
    let mut a = Settings::default();
    a.set_credential("a", "apiKey", s("kept"));
    a.api_keys.push((s("a"), s("old-a")));
    a.api_keys.push((s("b"), s("old-b")));
    a.migrate_legacy_keys();
    assert!(a.api_keys.is_empty());
    assert_eq!(a.api_key("a").as_deref(), Some("kept"));
    assert_eq!(a.api_key("b").as_deref(), Some("old-b"));
}

#[test]
fn toggle_flips_and_creates() {
    let mut a = Settings::default();
    assert!(a.toggle_enabled("x"));
    assert!(a.is_enabled("x"));
    assert!(!a.toggle_enabled("x"));
    assert!(!a.is_enabled("x"));
    assert_eq!(a.enabled.len(), 1);
}

#[test]
fn prune_drops_unknown_providers() {
    let presets = vec![simple_preset("b", &["apiKey"]), simple_preset("c", &["apiKey"])];
    let mut a = Settings::default();
    a.enabled.push((s("a"), true));
    a.enabled.push((s("b"), true));
    a.api_keys.push((s("gone"), s("k")));
    a.set_credential("c", "apiKey", s("k"));
    a.selected_provider = Some(s("a"));
    a.prune_to_presets(&presets);
    assert!(!a.is_enabled("a"));
    assert!(a.is_enabled("b"));
    assert!(a.api_keys.is_empty());
    assert_eq!(a.api_key("c").as_deref(), Some("k"));
    assert_eq!(a.selected_provider.as_deref(), Some("b"));
}

#[test]
fn restore_keeps_credentials_of_unknown_providers() {
    let presets = vec![simple_preset("b", &["apiKey"])];
    let mut a = Settings::default();
    a.enabled.push((s("a"), true));
    a.set_credential("a", "apiKey", s("k"));
    a.retain_for_restore(&presets);
    assert!(a.enabled.is_empty());
    assert_eq!(a.api_key("a").as_deref(), Some("k"));
}

// ------------------------------------------------------------------ usage

#[test]
fn model_names() {
    assert_eq!(model_short_name("deepseek-chat"), "Chat");
    assert_eq!(model_short_name("deepseek-reasoner"), "Reasoner");
    assert_eq!(model_short_name("deepseek-v4-pro"), "V4 Pro");
    assert_eq!(model_short_name("-a--b"), " A B");
    assert_eq!(model_display_name("deepseek-v4-flash"), "Flash");
    assert_eq!(model_display_name("deepseek-v4-flash-vision-exp"), "Vision");
    assert_eq!(model_display_name("deepseek-v4-pro"), "Pro");
    assert_eq!(model_display_name("DeepSeek-V4-Flash"), "Flash");
    assert_eq!(model_display_name("v4pro"), "V4pro");
    assert_eq!(model_display_name("deepseek-chat"), "Chat");
}

#[test]
fn day_totals_track_cache_tokens() {
    let days = day_token_totals(AMOUNT).unwrap();
    assert_eq!(days.len(), 1);
    assert_eq!(days[0].0, "2026-07-13");
    assert_eq!(
        days[0].1,
        DayTokens { output_tokens: 352_921, hit_tokens: 105_402_624, miss_tokens: 1_885_620 }
    );
    let costs = day_cost_rows(COST);
    assert_eq!(costs.0, vec![(s("2026-07-13"), s("10.4094516000000000"))]);
    assert_eq!(costs.1, None);
}

#[test]
fn amount_errors_are_reported() {
    let bad = "user_id,start_time_iso,end_time_iso,model,api_key_name,api_key,type,price,amount\na,2026-07-13T00:00:00+08:00,x,m,k,s,output_tokens,1,12x\n";
    assert_eq!(day_token_totals(bad).unwrap_err(), "amount 非数字: 12x");
    let no_date = "user_id,start_time_iso,end_time_iso,model,api_key_name,api_key,type,price,amount\na,2026,x,m,k,s,output_tokens,1,12\n";
    assert_eq!(day_token_totals(no_date).unwrap_err(), "amount CSV 缺少日期");
    let cost_no_date = "user_id,start_time_iso,end_time_iso,model,wallet_type,cost,currency\na,2026,x,m,Paid,1,CNY\n";
    assert_eq!(day_cost_rows(cost_no_date).1.as_deref(), Some("cost CSV 缺少日期"));
    let ragged = "user_id,start_time_iso\na,2026-07-13T00:00:00+08:00,extra\n";
    assert!(day_token_totals(ragged).unwrap_err().starts_with("amount CSV 解析失败: "));
}

#[test]
fn model_totals_count_output_tokens_only() {
    let amount = "\u{feff}user_id,start_time_iso,end_time_iso,model,api_key_name,api_key,type,price,amount\n0,2026-07-13T00:00:00+08:00,2026-07-14T00:00:00+08:00,deepseek-chat,key-a,sk-x,output_tokens,0.000006,352921\n0,2026-07-13T00:00:00+08:00,2026-07-14T00:00:00+08:00,deepseek-reasoner,key-a,sk-x,output_tokens,0.00003,666\n0,2026-07-13T00:00:00+08:00,2026-07-14T00:00:00+08:00,deepseek-chat,key-a,sk-x,input_cache_hit_tokens,0.000000025,105402624\n";
    let models = model_token_totals(amount).unwrap();
    let chat = models.iter().find(|m| m.0 == "deepseek-chat").unwrap();
    let reasoner = models.iter().find(|m| m.0 == "deepseek-reasoner").unwrap();
    assert_eq!(chat.1.output_tokens, 352_921);
    assert_eq!(reasoner.1.output_tokens, 666);
    assert!(model_token_totals("").unwrap().is_empty());
    let costs = model_cost_rows("user_id,start_time_iso,end_time_iso,model,wallet_type,cost,currency\na,t,x,,Paid,1,CNY\na,t,x,m,Paid,2,CNY\n");
    assert_eq!(costs.0, vec![(s("m"), s("2"))]);
}

#[test]
fn day_filter_keeps_header_and_that_day() {
    let amount = "user_id,start_time_iso,end_time_iso,model,api_key_name,api_key,type,price,amount\na,2026-07-13T10:00:00+08:00,x,deepseek-chat,k,sk,output_tokens,1,100\na,2026-07-14T10:00:00+08:00,x,deepseek-chat,k,sk,output_tokens,1,200\r\nno-commas\n";
    let kept = filter_day_lines(amount, "2026-07-13");
    assert_eq!(
        kept,
        "user_id,start_time_iso,end_time_iso,model,api_key_name,api_key,type,price,amount\na,2026-07-13T10:00:00+08:00,x,deepseek-chat,k,sk,output_tokens,1,100\nno-commas"
    );
    let without = amount.replace("\r\nno-commas\n", "\n");
    let models = model_token_totals(&filter_day_lines(&without, "2026-07-13")).unwrap();
    assert_eq!(models.len(), 1);
    assert_eq!(models[0].1.output_tokens, 100);
}

// ------------------------------------------------------------------ templates

#[test]
fn templates_fill_in_order() {
    let pieces = parse_template("a {x:money} b {y} c {open");
    let out = fill_template(&pieces, &vec![s("1"), s("2")]);
    assert_eq!(out, "a 1 b 2 c open");
    assert_eq!(format_plan("12.5", None), FormatPlan::Number);
    assert_eq!(format_plan("abc", None), FormatPlan::Raw);
    assert_eq!(format_plan("abc", Some("money")), FormatPlan::Dash);
    assert_eq!(format_plan("3", Some("compact")), FormatPlan::Compact);
    assert!(matches!(percent_source(" 42 "), PercentSource::Literal(t) if t == "42"));
    assert!(matches!(percent_source("extras.used"), PercentSource::Ref(t) if t == "extras.used"));
    assert!(matches!(percent_source("lonely"), PercentSource::Missing));
}

#[test]
fn widget_visibility_rules() {
    assert!(!widget_shown("balance", true, "--", None, false));
    assert!(widget_shown("balance", false, "--", None, false));
    assert!(!widget_shown("bars", false, "x", None, false));
    assert!(widget_shown("bars", false, "x", Some(1), false));
    assert!(!widget_shown("stack", false, "x", Some(1), false));
    assert!(widget_shown("stack", false, "x", Some(2), false));
    assert!(!widget_shown("bar", false, "--", None, false));
    assert!(widget_shown("ring", false, "--", None, true));
    assert!(!widget_shown("mystery", false, "x", None, true));
    let rows: Vec<TableRow> = (0..10)
        .map(|i| TableRow { name: if i == 1 { s(" ") } else { format!("r{i}") }, cells: vec![] })
        .collect();
    let kept = pick_table_rows(rows).unwrap();
    let names: Vec<&str> = kept.iter().map(|r| r.name.as_str()).collect();
    assert_eq!(names, vec!["r0", "r2", "r3", "r4", "r5", "r6", "r7"]);
    assert!(pick_table_rows(vec![TableRow { name: s("--"), cells: vec![] }]).is_none());
}

#[test]
fn references_resolve_to_text() {
    let extras = vec![(s("used"), Json::Number(s("2.5")))];
    let endpoints = vec![(
        s("usage"),
        obj(vec![("dayLabels", Json::Array(vec![Json::String(s("7/7")), Json::Number(s("1")), Json::String(s("7/8"))]))]),
    )];
    assert!(matches!(resolve_ref_text("meta.name", "Demo", None, &extras, &endpoints), RefSource::Text(t) if t == "Demo"));
    assert!(matches!(resolve_ref_text("balance.currency", "Demo", None, &extras, &endpoints), RefSource::Text(t) if t == "CNY"));
    assert!(matches!(resolve_ref_text("balance.total", "Demo", None, &extras, &endpoints), RefSource::BalanceAmount));
    assert!(matches!(resolve_ref_text("extras.used", "Demo", None, &extras, &endpoints), RefSource::Text(t) if t == "2.5"));
    assert!(matches!(resolve_ref_text("extras.missing", "Demo", None, &extras, &endpoints), RefSource::Unresolved));
    assert!(matches!(resolve_ref_text("usage.dayLabels[2]", "Demo", None, &extras, &endpoints), RefSource::Text(t) if t == "7/8"));
    assert_eq!(resolve_series_labels("usage.dayLabels", &endpoints), Some(vec![s("7/7"), s("7/8")]));
    assert_eq!(resolve_series_labels("usage.none", &endpoints), None);
    let item = obj(vec![("name", Json::String(s("Chat"))), ("gone", Json::Null)]);
    assert_eq!(scoped_ref_text("item.name", &item).as_deref(), Some("Chat"));
    assert_eq!(scoped_ref_text("item.gone", &item), None);
    assert_eq!(scoped_ref_text("extras.used", &item), None);
}

// ------------------------------------------------------------------ requests

#[test]
fn request_building() {
    assert_eq!(request_url("https://x/{key}/y?k={key}", "sk"), "https://x/sk/y?k=sk");
    assert_eq!(request_url("https://x/{ke", "sk"), "https://x/{ke");
    assert_eq!(auth_value("Bearer ", "sk"), "Bearer sk");
    assert_eq!(request_method("get"), Some(HttpMethod::Get));
    assert_eq!(request_method("Post"), Some(HttpMethod::Post));
    assert_eq!(request_method("PUT"), None);
    assert_eq!(total_missing_message(&None), "余额总额字段缺失或非数值: ");
    let many = Some(ExtractSpec { path: PathSpec::Many(vec![s("a"), s("b")]), optional: false, default: None });
    assert_eq!(total_missing_message(&many), "余额总额字段缺失或非数值: a | b");
}

#[test]
fn capability_registry() {
    let inv = inventory();
    assert_eq!(inv.len(), 1);
    assert_eq!(inv[0].0, "deepseek-usage-export");
    assert_eq!(find_capability("deepseek-usage-export"), Some(0));
    assert_eq!(find_capability("ghost"), None);
    assert_eq!(
        unregistered_message("ghost"),
        "未注册的 fetcher: ghost(已注册: deepseek-usage-export(DeepSeek 平台用量导出(zip/CSV,近 7 日逐日序列));注册方法见 src/capabilities/mod.rs)"
    );
    assert_eq!(export_hint(503), "(平台服务端错误,稍后重试)");
    assert_eq!(export_hint(200), "");
    assert_eq!(
        usage_export_url(Some("https://p.example/api//"), -5, 10),
        "https://p.example/api?start=-5&end=10&tz=28800"
    );
    assert!(usage_export_url(None, 1, 2).starts_with("https://platform.deepseek.com/api/v0/usage/export?start=1"));
}

fn zip_of(entries: &[(&str, &[u8])]) -> Vec<u8> {
    let mut w = zip::ZipWriter::new(std::io::Cursor::new(Vec::new()));
    let opts = zip::write::SimpleFileOptions::default()
        .compression_method(zip::CompressionMethod::Stored);
    for (name, data) in entries {
        w.start_file(*name, opts).unwrap();
        w.write_all(data).unwrap();
    }
    w.finish().unwrap().into_inner()
}

#[test]
fn export_archive_reading() {
    let bytes = zip_of(&[
        ("readme.txt", b"x"),
        ("amount-1.csv", b"A1"),
        ("amount-2.csv", b"A2"),
        ("cost-1.csv", b"C1"),
    ]);
    assert_eq!(read_zip_csvs(&bytes).unwrap(), (s("A1"), s("C1")));
    let no_cost = zip_of(&[("amount-1.csv", b"A1")]);
    assert_eq!(read_zip_csvs(&no_cost).unwrap_err(), "zip 缺少 cost-*.csv");
    let bad_text = zip_of(&[("amount-1.csv", &[0xff, 0xfe]), ("cost-1.csv", b"C")]);
    assert_eq!(read_zip_csvs(&bad_text).unwrap_err(), "CSV 编码非 UTF-8");
    let wide = zip_of(&[("amount-1.csv", "模型,é".as_bytes()), ("cost-1.csv", "¥".as_bytes())]);
    assert_eq!(read_zip_csvs(&wide).unwrap(), (s("模型,é"), s("¥")));
    let overlong = zip_of(&[("amount-1.csv", &[0xc0, 0x80]), ("cost-1.csv", b"C")]);
    assert_eq!(read_zip_csvs(&overlong).unwrap_err(), "CSV 编码非 UTF-8");
    assert!(read_zip_csvs(b"not a zip").unwrap_err().starts_with("zip 解析失败: "));
}

// ------------------------------------------------------------------ ui and engine

#[test]
fn ui_events_change_settings() {
    let presets = vec![simple_preset("demo", &["apiKey", "platformToken"])];
    let mut st = Settings::default();
    assert_eq!(ui_event(&mut st, &presets, UiEvent::Input, "cred-demo--platformToken", " t "), UiEffect::Nothing);
    assert_eq!(st.credential("demo", "platformToken").as_deref(), Some("t"));
    ui_event(&mut st, &presets, UiEvent::Input, "cred-ghost--apiKey", "x");
    assert!(st.credential("ghost", "apiKey").is_none());
    ui_event(&mut st, &presets, UiEvent::Input, "input-balance-interval", "5");
    assert_eq!(st.balance_interval_secs, 30);
    ui_event(&mut st, &presets, UiEvent::Input, "input-push-interval", "45");
    assert_eq!(st.push_interval_secs, 45);
    ui_event(&mut st, &presets, UiEvent::Input, "input-push-interval", "-1");
    assert_eq!(st.push_interval_secs, 45);
    assert_eq!(ui_event(&mut st, &presets, UiEvent::Change, "select-provider", "demo · Demo"), UiEffect::Rerender);
    assert_eq!(st.selected_provider.as_deref(), Some("demo"));
    assert_eq!(ui_event(&mut st, &presets, UiEvent::Click, "tgl-demo", ""), UiEffect::Rerender);
    assert!(st.is_enabled("demo"));
    assert_eq!(ui_event(&mut st, &presets, UiEvent::Click, "tgl-ghost", ""), UiEffect::Nothing);
    assert_eq!(ui_event(&mut st, &presets, UiEvent::Click, "btn-poll-now", ""), UiEffect::PollNow);
    assert_eq!(ui_event(&mut st, &presets, UiEvent::Click, "btn-restore", ""), UiEffect::Restore);
    assert_eq!(button_style("btn-backup"), ("#F97316", "#FFFFFF"));
    assert_eq!(button_style("other"), ("#11182C", "#FFFFFF"));
}

#[test]
fn page_event_ids_come_back_to_the_dispatcher() {
    let presets = vec![simple_preset("deep-seek_2", &["apiKey", "org"])];
    let mut st = Settings::default();
    let cred = cred_event_id("deep-seek_2", "org");
    assert_eq!(ui_event(&mut st, &presets, UiEvent::Input, &cred, "o-1"), UiEffect::Nothing);
    assert_eq!(st.credential("deep-seek_2", "org").as_deref(), Some("o-1"));
    let tgl = toggle_event_id("deep-seek_2");
    assert_eq!(ui_event(&mut st, &presets, UiEvent::Click, &tgl, ""), UiEffect::Rerender);
    assert!(st.is_enabled("deep-seek_2"));
    let label = option_label("deep-seek_2", "DeepSeek · CN");
    assert_eq!(ui_event(&mut st, &presets, UiEvent::Change, SELECT_PROVIDER, &label), UiEffect::Rerender);
    assert_eq!(st.selected_provider.as_deref(), Some("deep-seek_2"));
    // An id that ends in '-' runs into the separator: the round trip does not hold.
    let presets = vec![simple_preset("abc-", &[])];
    let cred = cred_event_id("abc-", "apiKey");
    ui_event(&mut st, &presets, UiEvent::Input, &cred, "k");
    assert!(st.credential("abc-", "apiKey").is_none());
}

#[test]
fn page_helpers() {
    let presets = vec![simple_preset("a", &[]), simple_preset("b", &[]), simple_preset("c", &[])];
    let mut st = Settings::default();
    assert_eq!(selected_preset(&presets, &st), Some(0));
    st.selected_provider = Some(s("c"));
    assert_eq!(selected_preset(&presets, &st), Some(2));
    assert_eq!(option_order(&presets, &Some(s("b"))), vec![1, 0, 2]);
    assert_eq!(fmt_epoch(3661, 0), "01:01:01");
    assert_eq!(fmt_epoch(0, 480), "08:00:00");
    assert_eq!(fmt_epoch(-1, 0), "23:59:59");
    let parsed = Some(obj(vec![("type", Json::String(s("input"))), ("value", Json::String(s("sk-abc123")))]));
    assert_eq!(payload_value(&parsed, "raw"), "sk-abc123");
    assert_eq!(payload_value(&None, "plain-text"), "plain-text");
}

#[test]
fn engine_decisions() {
    assert_eq!(startup_status(2, false, false), "插件已启动:已加载 2 个预设,未连接设备");
    let mut st = Settings::default();
    st.balance_interval_secs = u64::MAX;
    assert_eq!(timer_intervals(&st), (u64::MAX, 60_000));
    let ev = Some(obj(vec![("payload", Json::String(s("push")))]));
    assert_eq!(timer_kind(&ev), TimerKind::Push);
    assert_eq!(timer_kind(&None), TimerKind::Unknown);
    assert!(is_duplicate_message(12, Some(10)));
    assert!(!is_duplicate_message(13, Some(10)));
    assert!(!is_duplicate_message(i64::MAX, Some(i64::MIN)));
    assert!(!is_duplicate_message(5, None));
    assert_eq!(device_update(&Some(s("A")), true, &Some(s("A"))), (true, false));
    assert_eq!(device_update(&Some(s("A")), true, &Some(s("B"))), (false, true));
    assert_eq!(device_update(&None, false, &None), (false, false));
    assert!(push_unchanged(&Some(s("A")), &Some(s("sig")), "A", "sig"));
    assert!(!push_unchanged(&Some(s("A")), &Some(s("sig")), "B", "sig"));
    assert!(package_installed(&vec![s("x"), s("io.github.mcxcc303.llmband")], "io.github.mcxcc303.llmband"));
    assert_eq!(
        poll_summary(1, 2, 3, 4, 5),
        "轮询完成: 余额 1 成功 · 2 不可用 · 3 失败 · 端点 4 成功 / 5 失败"
    );
}

#[test]
fn poll_jobs_need_enabled_and_credentials() {
    let presets = vec![
        simple_preset("a", &["apiKey"]),
        simple_preset("b", &["apiKey", "platformToken"]),
        simple_preset("c", &["apiKey"]),
    ];
    let mut st = Settings::default();
    st.enabled.push((s("a"), true));
    st.enabled.push((s("b"), true));
    st.set_credential("b", "platformToken", s(" tok "));
    st.set_credential("c", "apiKey", s("k"));
    let jobs = poll_jobs(&presets, &st);
    assert_eq!(jobs, vec![(s("b"), vec![(s("platformToken"), s("tok"))])]);
}

#[test]
fn snapshot_decisions() {
    let presets = vec![simple_preset("a", &[]), simple_preset("b", &[])];
    let mut st = Settings::default();
    st.enabled.push((s("b"), true));
    st.api_keys.push((s("b"), s("k")));
    assert_eq!(snapshot_providers(&presets, &st), vec![(1, true)]);
    let (status, text, note) = provider_status(true, true, Some(1000), None, 1100);
    assert_eq!((status.as_str(), text.as_str(), note), ("ok", "已连接", None));
    let (status, text, _) = provider_status(true, true, Some(0), None, 90_000);
    assert_eq!((status.as_str(), text.as_str()), ("stale", "缓存"));
    let (status, _, note) = provider_status(true, true, None, Some("boom"), 0);
    assert_eq!((status.as_str(), note.as_deref()), ("error", Some("获取失败\nboom")));
    let (_, _, note) = provider_status(false, true, None, None, 0);
    assert_eq!(note.as_deref(), Some("未配置 API Key\n请在 AstroBox 插件页面设置"));
    assert_eq!(freshness(false, true), "cached");
    assert_eq!(freshness(false, false), "unavailable");
}

#[test]
fn backup_checks() {
    assert!(check_backup_header("llmboard-backup", 1).is_ok());
    assert_eq!(check_backup_header("other", 1).unwrap_err(), "不是本插件的备份文件(kind=other)");
    assert_eq!(check_backup_header("llmboard-backup", 7).unwrap_err(), "备份版本不受支持: 7 (当前支持 1)");
    assert_eq!(restore_summary(2, true), "备份已恢复: 2 个供应商数据 · 余额有");
    assert_eq!(backup_file_name(1_754_000_000), "llmboard-backup-1754000000.json");
}

#[test]
fn presets_ordered_by_id_first_wins() {
    let mut dup = simple_preset("b", &[]);
    dup.name = s("second b");
    let loaded = vec![simple_preset("c", &[]), simple_preset("b", &[]), dup, simple_preset("a", &[])];
    let ordered = order_presets(loaded);
    let ids: Vec<(&str, &str)> = ordered.iter().map(|p| (p.id.as_str(), p.name.as_str())).collect();
    assert_eq!(ids, vec![("a", "Test a"), ("b", "Test b"), ("c", "Test c")]);
}

#[test]
fn page_is_composed_for_the_shown_provider() {
    let presets = vec![simple_preset("a", &[]), simple_preset("b", &["apiKey", "org"])];
    let mut st = Settings::default();
    st.selected_provider = Some(s("b"));
    st.enabled.push((s("b"), true));
    st.set_credential("b", "org", s("o-1"));
    let lines = vec![s("未启用"), s("已配置,等待首次查询")];
    let page = page_items(&presets, &st, &lines, "就绪", 3661, 0);
    let hint = |t: &str| PageItem::Hint(s(t));
    let button = |l: &str, e: &str| PageItem::Button(s(l), s(e));
    let input = |e: &str, v: &str| PageItem::Input(s(e), s(v));
    let expected = vec![
        hint("LLMBand · 预设驱动多供应商用量看板(共 2 个预设)"),
        hint("选择供应商种类,填写对应预设表单。新增供应商只需向 presets/ 目录添加预设文件(见 docs/PRESETS.md)。"),
        PageItem::Select(vec![s("b · Test b"), s("a · Test a")]),
        PageItem::Line(s("Test b — 已启用"), Some(s("#4D6BFE"))),
        button("☑ 关闭 Test b", "tgl-b"),
        hint("apiKey · 密钥字段"),
        input("cred-b--apiKey", ""),
        hint("org · 密钥字段"),
        input("cred-b--org", "o-1"),
        PageItem::Line(s("已配置,等待首次查询"), None),
        hint("余额轮询间隔(秒,默认 120):"),
        input("input-balance-interval", "120"),
        hint("推送间隔(秒,默认 60):"),
        input("input-push-interval", "60"),
        button("保存设置", "btn-save-settings"),
        button("立即轮询余额与端点", "btn-poll-now"),
        button("推送手环", "btn-push-now"),
        button("检测设备", "btn-housekeeping"),
        hint("跨版本持久化(宿主更新插件会清空插件目录,更新前备份、更新后恢复):"),
        button("备份配置/数据", "btn-backup"),
        button("从备份恢复", "btn-restore"),
        PageItem::Line(s("状态: 就绪 (01:01:01)"), None),
    ];
    assert_eq!(page, expected);
    assert_eq!(page_items(&vec![], &Settings::default(), &vec![], "x", 0, 0).len(), 15);
}
