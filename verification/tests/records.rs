use llmboard_core::engine::{balance_update, PollOutcome};
use llmboard_core::path::{ExtractSpec, PathSpec};
use llmboard_core::preset::{
    unknown_fetcher_refs, AuthSpec, BalanceExtract, BalanceSpec, EndpointSpec, FormSpec, Preset,
    TemplateSpec,
};
use llmboard_core::snapshot::{snapshot_plan, ProviderFacts};
use llmboard_core::state::Settings;
use llmboard_core::usage::{cost_record_rows, tally_amount_records, DayTokens};

fn s(x: &str) -> String {
    x.to_string()
}

fn rec(fields: &[&str]) -> Result<Vec<String>, String> {
    Ok(fields.iter().map(|f| s(f)).collect())
}

fn fetcher_endpoint(f: &str) -> EndpointSpec {
    EndpointSpec {
        method: None,
        url: None,
        auth_field: s("apiKey"),
        headers: Vec::new(),
        body: None,
        timeout_secs: 10,
        fetcher: Some(s(f)),
        extract: Vec::new(),
        computed: Vec::new(),
        unavailable_when: None,
    }
}

fn preset(id: &str, endpoints: Vec<(String, EndpointSpec)>) -> Preset {
    Preset {
        schema_version: 2,
        id: s(id),
        name: s(id),
        homepage: None,
        accent: s("#4D6BFE"),
        auth: AuthSpec {
            kind: s("bearer"),
            header: s("Authorization"),
            prefix: s("Bearer "),
            key_label: s("API Key"),
            key_hint: String::new(),
        },
        form: FormSpec { fields: Vec::new() },
        balance: BalanceSpec {
            method: s("GET"),
            url: s("https://e.com/b"),
            headers: Vec::new(),
            body: None,
            timeout_secs: 10,
            extract: BalanceExtract {
                total: Some(ExtractSpec { path: PathSpec::One(s("total")), optional: false, default: None }),
                top_up: None,
                granted: None,
                currency: None,
                extras: Vec::new(),
            },
            unavailable_when: None,
            computed: Vec::new(),
        },
        endpoints,
        template: TemplateSpec { widgets: Vec::new(), band: None },
    }
}

#[test]
fn amount_records_tally_by_day_and_by_model() {
    let recs = vec![
        rec(&["u", "2026-07-13T00:00:00+08:00", "x", "deepseek-chat", "k", "sk", "output_tokens", "1", "10"]),
        rec(&["u", "2026-07-13T09:00:00+08:00", "x", "deepseek-chat", "k", "sk", "input_cache_hit_tokens", "1", "7"]),
        rec(&["u", "2026-07-14T00:00:00+08:00", "x", "deepseek-v4-pro", "k", "sk", "output_tokens", "1", "5"]),
        rec(&["", "", "", "", "", "", "", "", ""]),
    ];
    let by_day = tally_amount_records(&recs, false).unwrap();
    assert_eq!(
        by_day,
        vec![
            (s("2026-07-13"), DayTokens { output_tokens: 10, hit_tokens: 7, miss_tokens: 0 }),
            (s("2026-07-14"), DayTokens { output_tokens: 5, hit_tokens: 0, miss_tokens: 0 }),
        ]
    );
    let by_model = tally_amount_records(&recs, true).unwrap();
    assert_eq!(by_model.len(), 2);
    assert_eq!(by_model[0].0, "deepseek-chat");
    assert_eq!(by_model[0].1.output_tokens, 10);
    let bad = vec![recs[0].clone(), Err(s("boom"))];
    assert_eq!(tally_amount_records(&bad, false).unwrap_err(), "amount CSV 解析失败: boom");
    let nan = vec![rec(&["u", "2026-07-13T00:00:00+08:00", "x", "m", "k", "sk", "output_tokens", "1", "x"])];
    assert_eq!(tally_amount_records(&nan, false).unwrap_err(), "amount 非数字: x");
}

#[test]
fn cost_records_become_rows() {
    let recs = vec![
        rec(&["u", "2026-07-13T00:00:00+08:00", "x", "deepseek-chat", "Paid", "0.5", "CNY"]),
        rec(&["u", "2026-07-14T00:00:00+08:00", "x", "deepseek-chat", "Granted", "1.25", "CNY"]),
        Err(s("bad")),
        rec(&["u", "2026-07-15T00:00:00+08:00", "x", "m", "Paid", "9", "CNY"]),
    ];
    let (rows, err) = cost_record_rows(&recs, false);
    assert_eq!(rows, vec![(s("2026-07-13"), s("0.5")), (s("2026-07-14"), s("1.25"))]);
    assert_eq!(err.as_deref(), Some("cost CSV 解析失败: bad"));
    let (rows, err) = cost_record_rows(&recs[..2].to_vec(), true);
    assert_eq!(rows, vec![(s("deepseek-chat"), s("0.5")), (s("deepseek-chat"), s("1.25"))]);
    assert_eq!(err, None);
}

#[test]
fn balance_bookkeeping_after_a_fetch() {
    let (mut ok_at, mut err, mut err_at) = (Some(1), Some(s("old")), Some(2));
    balance_update(PollOutcome::Data, 100, "", &mut ok_at, &mut err, &mut err_at);
    assert_eq!((ok_at, err.clone(), err_at), (Some(100), None, None));
    balance_update(PollOutcome::Failed, 200, "HTTP 500", &mut ok_at, &mut err, &mut err_at);
    assert_eq!((ok_at, err.clone(), err_at), (Some(100), Some(s("HTTP 500")), Some(200)));
    balance_update(PollOutcome::Unavailable, 300, "", &mut ok_at, &mut err, &mut err_at);
    assert_eq!(err.as_deref(), Some("接口返回余额不可用(欠费/冻结/无可用额度)"));
    assert_eq!((ok_at, err_at), (Some(100), Some(300)));
}

#[test]
fn snapshot_plan_lists_cuts_and_rates_freshness() {
    let presets: Vec<Preset> = (0..14).map(|i| preset(&format!("p{i:02}"), Vec::new())).collect();
    let mut st = Settings::default();
    for p in &presets {
        st.enabled.push((p.id.clone(), true));
        st.api_keys.push((p.id.clone(), s("k")));
    }
    let mut facts: Vec<ProviderFacts> = presets
        .iter()
        .map(|_| ProviderFacts { has_data: false, checked_at: None, last_error: None })
        .collect();
    // Only the 14th preset, which the snapshot leaves out, has a current balance.
    facts[13] = ProviderFacts { has_data: true, checked_at: Some(1_000), last_error: None };
    facts[0] = ProviderFacts { has_data: true, checked_at: None, last_error: Some(s("boom")) };
    let (plan, fresh) = snapshot_plan(&presets, &st, &facts, 1_100);
    assert_eq!(plan.len(), 12);
    assert_eq!(fresh, "current");
    assert_eq!(plan[0], (0, s("error"), s("获取失败"), Some(s("获取失败\nboom"))));
    assert_eq!(plan[1], (1, s("unconfigured"), s("等待首次查询"), Some(s("等待首次查询"))));
    facts[13].checked_at = Some(0);
    assert_eq!(snapshot_plan(&presets, &st, &facts, 1_100).1, "cached");
    st.enabled.clear();
    let (plan, fresh) = snapshot_plan(&presets, &st, &facts, 1_100);
    assert!(plan.is_empty());
    assert_eq!(fresh, "unavailable");
}

#[test]
fn preset_maps_in_name_order() {
    let sorted = preset("demo", vec![(s("extra"), fetcher_endpoint("ghost")), (s("usage"), fetcher_endpoint("other"))]);
    assert!(sorted.maps_in_order());
    let refs = unknown_fetcher_refs(&[sorted], &[]);
    assert_eq!(refs, vec![(s("demo"), s("extra"), s("ghost")), (s("demo"), s("usage"), s("other"))]);
    let unsorted = preset("demo", vec![(s("usage"), fetcher_endpoint("a")), (s("extra"), fetcher_endpoint("b"))]);
    assert!(!unsorted.maps_in_order());
    let twice = preset("demo", vec![(s("usage"), fetcher_endpoint("a")), (s("usage"), fetcher_endpoint("b"))]);
    assert!(!twice.maps_in_order());
}
