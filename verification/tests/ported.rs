use llmboard_core::dates::{civil_from_days, days_from_civil};
use llmboard_core::json::Json;
use llmboard_core::path::{extract, resolve, tokenize, ExtractSpec, PathSpec};
use llmboard_core::preset::{
    unknown_fetcher_refs, AuthSpec, BalanceExtract, BalanceSpec, EndpointSpec, FormField, FormSpec,
    Preset, TableRowSpec, TemplateSpec, WidgetSpec, SCHEMA_VERSION,
};
use llmboard_core::provider::http_hint;
use llmboard_core::state::{Settings, DEFAULT_PKG};
use llmboard_core::template::currency_symbol;
use llmboard_core::ui::{parse_option_id, payload_value, preset_fields, CRED_PREFIX, TGL_PREFIX};
use llmboard_core::usage::{cn_window, TZ_SEC};
use llmboard_core::validate::validate;
use llmboard_core::expr::{parse_expr, parse_ref, Expr, Op};
use llmboard_core::engine::poll_jobs;

fn s(x: &str) -> String {
    x.to_string()
}

fn obj(members: Vec<(&str, Json)>) -> Json {
    Json::Object(members.into_iter().map(|(k, v)| (k.to_string(), v)).collect())
}

fn num(text: &str) -> Json {
    Json::Number(text.to_string())
}

fn text(t: &str) -> Json {
    Json::String(t.to_string())
}

/// A serde_json value as the library holds it.
fn from_serde(v: serde_json::Value) -> Json {
    match v {
        serde_json::Value::Null => Json::Null,
        serde_json::Value::Bool(b) => Json::Bool(b),
        serde_json::Value::Number(n) => Json::Number(n.to_string()),
        serde_json::Value::String(t) => Json::String(t),
        serde_json::Value::Array(a) => Json::Array(a.into_iter().map(from_serde).collect()),
        serde_json::Value::Object(m) => {
            Json::Object(m.into_iter().map(|(k, v)| (k, from_serde(v))).collect())
        }
    }
}

/// The value of an event payload: the payload parsed as JSON where it is JSON.
fn payload_of(payload: &str) -> String {
    let parsed = serde_json::from_str::<serde_json::Value>(payload).ok().map(from_serde);
    payload_value(&parsed, payload)
}

/// The number a JSON value stands for: a number, or a string holding one.
fn as_f64(v: &Json) -> Option<f64> {
    match v {
        Json::Number(n) => n.parse().ok(),
        Json::String(t) => t.trim().parse().ok(),
        _ => None,
    }
}

fn one(p: &str) -> ExtractSpec {
    ExtractSpec { path: PathSpec::One(s(p)), optional: false, default: None }
}

fn widget(kind: &str) -> WidgetSpec {
    WidgetSpec {
        kind: s(kind),
        label: None,
        value: None,
        hint: None,
        percent: None,
        series: None,
        series_labels: None,
        color: None,
        hide_empty: false,
        group: None,
        columns: None,
        rows: None,
        from: None,
        row_name: None,
        row_cells: None,
        colors: None,
    }
}

fn endpoint() -> EndpointSpec {
    EndpointSpec {
        method: None,
        url: None,
        auth_field: s("apiKey"),
        headers: Vec::new(),
        body: None,
        timeout_secs: 10,
        fetcher: None,
        extract: Vec::new(),
        computed: Vec::new(),
        unavailable_when: None,
    }
}

fn field(id: &str, label: &str, secret: bool) -> FormField {
    FormField { id: s(id), label: s(label), hint: String::new(), secret }
}

/// A preset as the JSON form gives it with only the required members and the
/// given auth prefix, form, endpoints and widgets.
fn preset(
    url: &str,
    prefix: &str,
    fields: Vec<FormField>,
    endpoints: Vec<(String, EndpointSpec)>,
    widgets: Vec<WidgetSpec>,
    band: Option<Json>,
) -> Preset {
    Preset {
        schema_version: 2,
        id: s("demo"),
        name: s("Demo"),
        homepage: None,
        accent: s("#4D6BFE"),
        auth: AuthSpec {
            kind: s("bearer"),
            header: s("Authorization"),
            prefix: s(prefix),
            key_label: s("API Key"),
            key_hint: String::new(),
        },
        form: FormSpec { fields },
        balance: BalanceSpec {
            method: s("GET"),
            url: s(url),
            headers: Vec::new(),
            body: None,
            timeout_secs: 10,
            extract: BalanceExtract {
                total: Some(one("total")),
                top_up: None,
                granted: None,
                currency: None,
                extras: Vec::new(),
            },
            unavailable_when: None,
            computed: Vec::new(),
        },
        endpoints,
        template: TemplateSpec { widgets, band },
    }
}

#[test]
fn civil_round_trip() {
    for (y, m, d) in [(1970, 1, 1), (2026, 7, 13), (2000, 2, 29), (2027, 12, 31)] {
        let z = days_from_civil(y, m, d);
        assert_eq!(civil_from_days(z), (y, m, d));
    }
}

#[test]
fn tokenize_rejects_bad_syntax() {
    assert!(tokenize("a[0]").is_some());
    assert!(tokenize("a.b[0][1].c").is_some());
    assert!(tokenize("a[].b").is_none());
    assert!(tokenize(".a").is_none());
    assert!(tokenize("a..b").is_none());
    assert!(tokenize("a[b]").is_none());
}

#[test]
fn defaults() {
    let s = Settings::default();
    assert_eq!(s.push_pkg, DEFAULT_PKG);
    assert_eq!(s.balance_interval_secs, 120);
    assert_eq!(s.push_interval_secs, 60);
    assert!(s.enabled.is_empty());
}

#[test]
fn currency_symbols() {
    assert_eq!(currency_symbol("CNY"), "¥");
    assert_eq!(currency_symbol("USD"), "$");
    assert_eq!(currency_symbol("XXX"), "");
}

#[test]
fn cn_window_aligns_to_midnight() {
    let (start, end) = cn_window(7);
    assert_eq!((start + TZ_SEC).rem_euclid(86_400), 0);
    assert_eq!((end + TZ_SEC).rem_euclid(86_400), 0);
    assert_eq!(end - start, 7 * 86_400);
}

#[test]
fn http_hint_covers_statuses() {
    assert!(http_hint(401).contains("401"));
    assert!(http_hint(429).contains("429"));
    assert_eq!(http_hint(200), "");
}

#[test]
fn payload_value_extracts_input_text() {
    let p = r#"{"type":"input","value":"sk-abc123","checked":false}"#;
    assert_eq!(payload_of(p), "sk-abc123");
}

#[test]
fn payload_value_falls_back_to_raw() {
    assert_eq!(payload_of("plain-text"), "plain-text");
    assert_eq!(payload_of(r#"{"type":"click","clientX":255,"value":""}"#), "");
}

#[test]
fn option_id_parsing() {
    assert_eq!(parse_option_id("deepseek · DeepSeek"), "deepseek");
    assert_eq!(parse_option_id("deepseek"), "deepseek");
}

#[test]
fn prefix_strip() {
    assert_eq!("demo".strip_prefix(TGL_PREFIX), None);
    assert_eq!("tgl-demo".strip_prefix(TGL_PREFIX), Some("demo"));
    assert_eq!("cred-demo--apiKey".strip_prefix(CRED_PREFIX), Some("demo--apiKey"));
    assert_eq!("demo--apiKey".split_once("--"), Some(("demo", "apiKey")));
}

#[test]
fn enable_and_key_accessors() {
    let mut a = Settings::default();
    a.enabled.push((s("x"), true));
    a.set_credential("x", "apiKey", " sk-1 ".into());
    a.set_credential("x", "platformToken", " tok ".into());
    assert!(a.is_enabled("x"));
    assert!(!a.is_enabled("y"));
    assert_eq!(a.api_key("x").as_deref(), Some("sk-1"));
    assert_eq!(a.credential("x", "platformToken").as_deref(), Some("tok"));
    assert_eq!(a.credential("x", "nope"), None);
}

#[test]
fn legacy_api_keys_migrate_to_credentials() {
    let mut a = Settings::default();
    a.api_keys.push((s("demo"), s("sk-legacy")));
    a.migrate_legacy_keys();
    assert_eq!(a.api_key("demo").as_deref(), Some("sk-legacy"));
}

#[test]
fn resolve_walks_objects_and_arrays() {
    let v = obj(vec![(
        "balance_infos",
        Json::Array(vec![obj(vec![("currency", text("CNY")), ("total_balance", text("128.47"))])]),
    )]);
    assert_eq!(resolve(&v, "balance_infos[0].total_balance").and_then(as_f64), Some(128.47));
    assert_eq!(
        resolve(&v, "balance_infos[0].currency").and_then(|j| match j {
            Json::String(t) => Some(t.as_str()),
            _ => None,
        }),
        Some("CNY")
    );
    assert!(resolve(&v, "balance_infos[1].x").is_none());
    assert!(resolve(&v, "nope").is_none());
}

#[test]
fn extract_falls_back_and_errors() {
    let root = obj(vec![("a", num("1"))]);
    let spec = ExtractSpec { path: PathSpec::One(s("missing")), optional: false, default: Some(num("7")) };
    assert_eq!(extract(&spec, &root).unwrap(), Some(num("7")));
    let spec2 = ExtractSpec { path: PathSpec::One(s("missing")), optional: true, default: None };
    assert_eq!(extract(&spec2, &root).unwrap(), None);
    let spec3 = ExtractSpec { path: PathSpec::One(s("missing")), optional: false, default: None };
    assert!(extract(&spec3, &root).is_err());
    let spec4 =
        ExtractSpec { path: PathSpec::Many(vec![s("missing"), s("a")]), optional: false, default: None };
    assert_eq!(extract(&spec4, &root).unwrap(), Some(num("1")));
}

fn v2_preset() -> Preset {
    let mut usage = endpoint();
    usage.fetcher = Some(s("demo-fetcher"));
    usage.auth_field = s("platformToken");
    usage.extract = vec![(s("costSeries"), one("costSeries"))];
    let mut bars = widget("bars");
    bars.label = Some(s("近7日"));
    bars.value = Some(s("{usage.total7d:money}"));
    bars.series = Some(s("usage.costSeries"));
    let band = obj(vec![("widgetStyles", obj(vec![("bars", obj(vec![("height", num("56"))]))]))]);
    preset(
        "https://example.com/balance",
        "Bearer ",
        vec![field("apiKey", "API Key", true), field("platformToken", "Platform Token", true)],
        vec![(s("usage"), usage)],
        vec![bars],
        Some(band),
    )
}

#[test]
fn validate_v2_form_and_endpoints() {
    let p = v2_preset();
    validate(&p).unwrap();
    let mut bad = v2_preset();
    bad.template.widgets[0].series = Some(s("nope.x"));
    assert!(validate(&bad).is_err());
    let mut bad2 = v2_preset();
    bad2.endpoints[0].1.auth_field = s("nope");
    assert!(validate(&bad2).is_err());
}

#[test]
fn unknown_fetcher_refs_reports_only_unregistered() {
    let p = || {
        let mut extra = endpoint();
        extra.fetcher = Some(s("ghost-fetcher"));
        let mut usage = endpoint();
        usage.fetcher = Some(s("demo-fetcher"));
        preset("https://example.com/balance", "", Vec::new(), vec![(s("extra"), extra), (s("usage"), usage)], Vec::new(), None)
    };
    let known = ["demo-fetcher"];
    let bad = unknown_fetcher_refs(&[p()], &known);
    assert_eq!(bad, vec![(s("demo"), s("extra"), s("ghost-fetcher"))]);
    assert!(unknown_fetcher_refs(&[p()], &["demo-fetcher", "ghost-fetcher"]).is_empty());
}

fn table_preset(w: WidgetSpec) -> Preset {
    let mut usage = endpoint();
    usage.fetcher = Some(s("demo-fetcher"));
    preset(
        "https://example.com/b",
        "",
        vec![field("apiKey", "API Key", false)],
        vec![(s("usage"), usage)],
        vec![w],
        None,
    )
}

#[test]
fn validate_table_dynamic_row_modes() {
    let mut ok = widget("table");
    ok.label = Some(s("模型"));
    ok.from = Some(s("usage.models"));
    ok.row_name = Some(s("{item.name}"));
    ok.row_cells = Some(vec![s("{item.cost:money}")]);
    validate(&table_preset(ok)).unwrap();

    let mut bad = widget("table");
    bad.label = Some(s("模型"));
    bad.from = Some(s("usage.models"));
    bad.rows = Some(vec![TableRowSpec { name: s("a"), cells: vec![s("1")] }]);
    assert!(validate(&table_preset(bad)).is_err());

    let mut bad2 = widget("table");
    bad2.label = Some(s("模型"));
    bad2.from = Some(s("usage.models"));
    bad2.row_cells = Some(vec![s("{balance.total:money}")]);
    assert!(validate(&table_preset(bad2)).is_err());

    let mut bad3 = widget("table");
    bad3.label = Some(s("模型"));
    bad3.rows = Some(vec![TableRowSpec { name: s("a"), cells: vec![s("1")] }]);
    bad3.row_cells = Some(vec![s("{item.x}")]);
    assert!(validate(&table_preset(bad3)).is_err());
}

#[test]
fn collect_rows_uses_default_api_key_field() {
    let mut p = preset("https://example.com/b", "Bearer ", Vec::new(), Vec::new(), Vec::new(), None);
    p.schema_version = SCHEMA_VERSION;
    p.id = s("t");
    p.name = s("T");
    p.accent = s("#000000");
    p.auth.key_label = s("Key");
    p.auth.key_hint = s("hint");
    let fields = preset_fields(&p);
    assert_eq!(fields.len(), 1);
    assert_eq!(fields[0].0, "apiKey");
    assert_eq!(fields[0].1, "Key");
}

#[test]
fn preset_without_form_has_the_default_api_key_field() {
    let mut usage = endpoint();
    usage.fetcher = Some(s("f"));
    let p = preset("https://e.com/b", "Bearer ", Vec::new(), vec![(s("usage"), usage)], Vec::new(), None);
    assert_eq!(validate(&p), Ok(()));
    let mut other = endpoint();
    other.fetcher = Some(s("f"));
    other.auth_field = s("platformToken");
    let q = preset("https://e.com/b", "Bearer ", Vec::new(), vec![(s("usage"), other)], Vec::new(), None);
    assert!(validate(&q).is_err());
}

#[test]
fn preset_without_form_is_polled_with_its_api_key() {
    let p = preset("https://e.com/b", "Bearer ", Vec::new(), Vec::new(), Vec::new(), None);
    let mut st = Settings::default();
    st.enabled.push((s("demo"), true));
    assert!(poll_jobs(&vec![p.clone()], &st).is_empty());
    st.set_credential("demo", "apiKey", s(" sk-1 "));
    assert_eq!(poll_jobs(&vec![p], &st), vec![(s("demo"), vec![(s("apiKey"), s("sk-1"))])]);
}

#[test]
fn references_take_only_digit_subscripts() {
    assert_eq!(parse_ref("usage.costSeries[0]"), Some("usage.costSeries[0]"));
    assert_eq!(parse_ref("balance.total"), Some("balance.total"));
    assert_eq!(parse_ref("extras."), None);
    assert_eq!(parse_ref("lonely"), None);
    assert_eq!(parse_ref("a..b"), None);
    assert_eq!(parse_ref("extras.a[b]"), None);
    assert_eq!(parse_ref("extras.a[]"), None);
    assert_eq!(parse_ref("extras.a]"), None);
}

/// The expression syntax half of the original's expression test (evaluation is
/// floating point).
#[test]
fn expr_parse_and_eval() {
    let e = parse_expr("sub(extras.limit, extras.usedCost)").unwrap();
    match e {
        Expr::Call(Op::Sub, a, b) => {
            assert!(matches!(*a, Expr::Ref(ref r) if r == "extras.limit"));
            assert!(matches!(*b, Expr::Ref(ref r) if r == "extras.usedCost"));
        }
        _ => panic!("expected sub(..)"),
    }
    let e2 = parse_expr("mul(div(extras.usedCost, extras.limit), 100)").unwrap();
    match e2 {
        Expr::Call(Op::Mul, a, b) => {
            assert!(matches!(*a, Expr::Call(Op::Div, _, _)));
            assert!(matches!(*b, Expr::Num(ref n) if n == "100"));
        }
        _ => panic!("expected mul(..)"),
    }
    assert!(matches!(parse_expr("div(1, 0)"), Ok(Expr::Call(Op::Div, _, _))));
    assert!(parse_expr("pow(1,2)").is_err());
    assert!(parse_expr("balance.total").is_ok());
    assert!(parse_expr("usage.costSeries").is_ok());
    assert!(parse_expr("extras.").is_err());
    assert!(parse_expr("lonely").is_err());
}
