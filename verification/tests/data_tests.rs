use deepseek_monitor::data::{
    count_tokens, make_report_data, report_counts_fit, report_from, DayUsage, HitRate, ModelUsage,
    RawUsage, ReportData, TokenCounts, UsageEntry,
};
use deepseek_monitor::endpoints::Endpoints;

fn s(t: &str) -> Option<String> {
    Some(t.to_string())
}

fn entry(kind: &str, amount: &str) -> UsageEntry {
    UsageEntry { kind: s(kind), amount: s(amount) }
}

fn tokens(hit: &str, miss: &str, resp: &str) -> Vec<UsageEntry> {
    vec![
        entry("PROMPT_CACHE_HIT_TOKEN", hit),
        entry("PROMPT_CACHE_MISS_TOKEN", miss),
        entry("RESPONSE_TOKEN", resp),
    ]
}

fn costs(hit: &str, miss: &str, resp: &str) -> Vec<UsageEntry> {
    let mut v = tokens(hit, miss, resp);
    v.push(entry("REQUEST", "1"));
    v
}

fn model(name: &str, usage: Vec<UsageEntry>) -> ModelUsage {
    ModelUsage { model: s(name), usage: Some(usage) }
}

fn day(date: &str, data: Vec<ModelUsage>) -> DayUsage {
    DayUsage { date: s(date), data: Some(data) }
}

/// The responses of a month with two models and one day of data.
fn mock_api_data() -> RawUsage {
    RawUsage {
        summary_found: true,
        balance: s("100.50"),
        month_cost: s("12.34"),
        month_tokens: s("500000"),
        amount_found: true,
        amount_total: Some(vec![
            model("deepseek-v4-flash", tokens("100", "200", "50")),
            model("deepseek-v4-pro", tokens("0", "0", "0")),
        ]),
        amount_days: Some(vec![day(
            "2026-06-15",
            vec![model("deepseek-v4-flash", tokens("30", "60", "20"))],
        )]),
        cost_total: Some(vec![model("deepseek-v4-flash", costs("0.0015", "0.0030", "0.0010"))]),
        cost_days: Some(vec![day(
            "2026-06-15",
            vec![model("deepseek-v4-flash", costs("0.0005", "0.0010", "0.0003"))],
        )]),
    }
}

/// The value of a cost: the sum of its amounts.
fn cost_value(parts: &Vec<Vec<String>>) -> f64 {
    let mut total = 0.0;
    for g in parts {
        total += g.iter().map(|t| t.parse::<f64>().unwrap_or_default()).sum::<f64>();
    }
    total
}

/// A hit rate as the report shows it.
fn rate_text(r: HitRate) -> String {
    if r.prompt == 0 {
        "N/A".to_string()
    } else {
        format!("{:.1}%", r.hit as f64 / r.prompt as f64 * 100.0)
    }
}

fn report(raw: &RawUsage, eps: &Endpoints) -> Option<ReportData> {
    report_from(raw, eps, "2030-01-01", "06-15 12:00")
}

#[test]
fn test_parse_basic() {
    let raw = mock_api_data();
    let eps = Endpoints::default();
    let r = make_report_data(&raw, &eps).unwrap();

    assert_eq!(r.balance.parse::<f64>().unwrap(), 100.50);
    assert_eq!(r.month_cost.parse::<f64>().unwrap(), 12.34);
    assert_eq!(r.month_tokens, 500000);
    assert_eq!(r.month_out_tokens, 50);
    assert_eq!(rate_text(r.month_hit), "33.3%");
    assert_eq!(r.today_label, "2026-06-15");
    let today_cost = cost_value(&r.today_cost);
    assert!((today_cost - 0.0018).abs() < 1e-10, "today_cost {} != 0.0018", today_cost);
    assert_eq!(r.today_tokens, 110);
    assert_eq!(rate_text(r.today_hit), "33.3%");
    assert_eq!(r.today_out_tokens, 20);

    assert_eq!(r.models.len(), 2);
    let flash = r.models.iter().find(|m| m.name == "deepseek-v4-flash").unwrap();
    assert_eq!(flash.total_tokens, 350);
    assert_eq!(flash.cache_hit, 100);
    assert_eq!(flash.cache_miss, 200);
    assert_eq!(flash.output_tokens, 50);
    let cost = cost_value(&flash.cost);
    assert!((cost - 0.0055).abs() < 1e-10, "cost {} != 0.0055", cost);
    assert_eq!(flash.today_tokens, 110);
    assert_eq!(flash.today_hit, 30);
    assert_eq!(flash.today_output_tokens, 20);
    let fc = cost_value(&flash.today_cost);
    assert!((fc - 0.0018).abs() < 1e-10, "today_cost {} != 0.0018", fc);

    let pro = r.models.iter().find(|m| m.name == "deepseek-v4-pro").unwrap();
    assert_eq!(pro.total_tokens, 0);
    assert_eq!(cost_value(&pro.cost), 0.0);

    assert_eq!(r.daily.len(), 1);
    assert_eq!(r.daily[0].date, "2026-06-15");
    assert_eq!(r.daily[0].total_tokens, 110);
    assert_eq!(rate_text(r.daily[0].hit_rate), "33.3%");
    let dc = cost_value(&r.daily[0].cost);
    assert!((dc - 0.0018).abs() < 1e-10, "cost {} != 0.0018", dc);
}

#[test]
fn test_whitelist_empty() {
    let raw = mock_api_data();
    let eps = Endpoints::default();
    let r = make_report_data(&raw, &eps).unwrap();
    assert_eq!(r.models.len(), 2);
}

#[test]
fn test_whitelist_matching() {
    let raw = mock_api_data();
    let mut eps = Endpoints::default();
    eps.whitelist = vec!["deepseek-v4-flash".to_string()];
    let r = make_report_data(&raw, &eps).unwrap();
    assert_eq!(r.models.len(), 1);
    assert_eq!(r.models[0].name, "deepseek-v4-flash");
}

#[test]
fn test_whitelist_none_match() {
    let raw = mock_api_data();
    let mut eps = Endpoints::default();
    eps.whitelist = vec!["nonexistent-model".to_string()];
    let r = make_report_data(&raw, &eps).unwrap();
    assert_eq!(r.models.len(), 2);
}

fn empty_raw() -> RawUsage {
    RawUsage {
        summary_found: false,
        balance: None,
        month_cost: None,
        month_tokens: None,
        amount_found: false,
        amount_total: None,
        amount_days: None,
        cost_total: None,
        cost_days: None,
    }
}

#[test]
fn test_no_data() {
    let raw = empty_raw();
    let eps = Endpoints::default();
    assert!(make_report_data(&raw, &eps).is_none());
}

#[test]
fn test_hit_rate_na() {
    let raw = RawUsage {
        summary_found: true,
        balance: s("0"),
        month_cost: s("0"),
        month_tokens: s("0"),
        amount_found: true,
        amount_total: Some(vec![model("test-model", tokens("0", "0", "0"))]),
        amount_days: Some(vec![]),
        cost_total: None,
        cost_days: None,
    };
    let eps = Endpoints::default();
    let r = make_report_data(&raw, &eps).unwrap();
    assert_eq!(rate_text(r.month_hit), "N/A");
    assert_eq!(rate_text(r.today_hit), "N/A");
    assert_eq!(r.month_hit.prompt, 0);
    assert_eq!(r.today_hit.prompt, 0);
}

#[test]
fn report_needs_numeric_balance() {
    let mut raw = mock_api_data();
    raw.balance = s("abc");
    assert!(report(&raw, &Endpoints::default()).is_none());
    let mut raw = mock_api_data();
    raw.month_cost = s("1.2.3");
    assert!(report(&raw, &Endpoints::default()).is_none());
}

#[test]
fn report_missing_balance_reads_zero() {
    let mut raw = mock_api_data();
    raw.balance = None;
    let r = report(&raw, &Endpoints::default()).unwrap();
    assert_eq!(r.balance, "0");
}

#[test]
fn report_needs_amount_list() {
    let mut raw = mock_api_data();
    raw.amount_total = None;
    assert!(report(&raw, &Endpoints::default()).is_none());
    let mut raw = mock_api_data();
    raw.amount_found = false;
    assert!(report(&raw, &Endpoints::default()).is_none());
}

#[test]
fn report_unreadable_month_tokens_are_zero() {
    let mut raw = mock_api_data();
    raw.month_tokens = s("12x");
    assert_eq!(report(&raw, &Endpoints::default()).unwrap().month_tokens, 0);
}

#[test]
fn report_label_is_latest_active_day() {
    let mut raw = mock_api_data();
    raw.amount_days = Some(vec![
        day("2026-06-14", vec![model("deepseek-v4-flash", tokens("1", "2", "3"))]),
        day("2026-06-15", vec![model("deepseek-v4-flash", tokens("0", "0", "0"))]),
    ]);
    let r = report(&raw, &Endpoints::default()).unwrap();
    assert_eq!(r.today_label, "2026-06-14");
    assert_eq!(r.today_tokens, 6);
    assert_eq!(r.today_hit, HitRate { hit: 1, prompt: 3 });
    assert_eq!(r.today_out_tokens, 3);
    assert_eq!(r.daily.len(), 2);
    assert_eq!(r.daily[1].total_tokens, 0);
    // The cost days hold no 2026-06-14.
    assert_eq!(cost_value(&r.today_cost), 0.0);
}

#[test]
fn report_label_defaults_to_today() {
    let mut raw = mock_api_data();
    raw.amount_days = None;
    let r = report(&raw, &Endpoints::default()).unwrap();
    assert_eq!(r.today_label, "2030-01-01");
    assert_eq!(r.today_tokens, 0);
    assert!(r.daily.is_empty());
    assert!(r.today_cost.is_empty());
}

#[test]
fn report_counts_only_known_kinds() {
    let mut raw = mock_api_data();
    let mut usage = tokens("5", "6", "7");
    usage.push(entry("SOMETHING_ELSE", "1000"));
    usage.push(UsageEntry { kind: None, amount: s("1000") });
    usage.push(entry("RESPONSE_TOKEN", "not a number"));
    raw.amount_total = Some(vec![model("m", usage)]);
    let r = report(&raw, &Endpoints::default()).unwrap();
    assert_eq!(r.month_out_tokens, 7);
    assert_eq!(r.month_hit, HitRate { hit: 5, prompt: 11 });
    assert_eq!(r.models[0].total_tokens, 18);
}

#[test]
fn report_cost_terms_skip_requests_and_zero_bad_amounts() {
    let mut raw = mock_api_data();
    raw.cost_total = Some(vec![model(
        "deepseek-v4-flash",
        vec![entry("REQUEST", "5"), entry("RESPONSE_TOKEN", "x"), entry("PROMPT_CACHE_HIT_TOKEN", "1e-3")],
    )]);
    let r = report(&raw, &Endpoints::default()).unwrap();
    let flash = &r.models[0];
    assert_eq!(flash.cost, vec![vec!["0".to_string(), "1e-3".to_string()]]);
}

#[test]
fn report_last_cost_entry_wins() {
    let mut raw = mock_api_data();
    raw.cost_total = Some(vec![
        model("deepseek-v4-flash", vec![entry("RESPONSE_TOKEN", "1")]),
        model("deepseek-v4-flash", vec![entry("RESPONSE_TOKEN", "2")]),
    ]);
    let r = report(&raw, &Endpoints::default()).unwrap();
    assert_eq!(r.models[0].cost, vec![vec!["2".to_string()]]);
}

#[test]
fn report_models_without_name_are_not_shown() {
    let mut raw = mock_api_data();
    raw.amount_total = Some(vec![
        ModelUsage { model: None, usage: Some(tokens("1", "1", "1")) },
        model("a", tokens("1", "0", "0")),
    ]);
    let r = report(&raw, &Endpoints::default()).unwrap();
    assert_eq!(r.models.len(), 1);
    assert_eq!(r.models[0].name, "a");
    assert_eq!(r.month_hit, HitRate { hit: 2, prompt: 3 });
}

#[test]
fn report_is_stamped() {
    let r = report(&mock_api_data(), &Endpoints::default()).unwrap();
    assert_eq!(r.update_time, "06-15 12:00");
    let now = make_report_data(&mock_api_data(), &Endpoints::default()).unwrap();
    assert_eq!(now.update_time.len(), "06-15 12:00".len());
}

const HALF: &str = "9223372036854775808";

/// Responses from which a report can be made, with no models and no days.
fn available_raw() -> RawUsage {
    let mut raw = empty_raw();
    raw.summary_found = true;
    raw.amount_found = true;
    raw.amount_total = Some(vec![]);
    raw
}

#[test]
fn count_tokens_bounds_each_kind_alone() {
    let eps = Endpoints::default();
    let c = count_tokens(&tokens(HALF, "0", HALF), &eps.token_types);
    assert_eq!(c, TokenCounts { hit: 1u64 << 63, miss: 0, resp: 1u64 << 63 });
}

#[test]
fn count_tokens_of_joined_lists_adds_up() {
    let eps = Endpoints::default();
    let a = tokens("5", "7", "11");
    let mut b = costs("1", "2", "3");
    b.push(entry("PROMPT_CACHE_HIT_TOKEN", "40"));
    let mut ab = tokens("5", "7", "11");
    ab.extend(costs("1", "2", "3"));
    ab.push(entry("PROMPT_CACHE_HIT_TOKEN", "40"));
    let ca = count_tokens(&a, &eps.token_types);
    let cb = count_tokens(&b, &eps.token_types);
    let cab = count_tokens(&ab, &eps.token_types);
    assert_eq!(cab, TokenCounts { hit: ca.hit + cb.hit, miss: ca.miss + cb.miss, resp: ca.resp + cb.resp });
    assert_eq!(cab, TokenCounts { hit: 46, miss: 9, resp: 14 });
    assert_eq!(count_tokens(&Vec::new(), &eps.token_types), TokenCounts { hit: 0, miss: 0, resp: 0 });
}

#[test]
fn report_sums_may_reach_each_kind_limit() {
    let eps = Endpoints::default();
    let mut raw = available_raw();
    raw.amount_total = Some(vec![
        model("a", tokens(HALF, "0", "0")),
        model("b", tokens("0", "0", HALF)),
    ]);
    assert!(report_counts_fit(&raw, &eps));
    let r = report(&raw, &eps).unwrap();
    assert_eq!(r.month_hit, HitRate { hit: 1u64 << 63, prompt: 1u64 << 63 });
    assert_eq!(r.month_out_tokens, 1u64 << 63);
    assert_eq!(r.models[0].total_tokens, 1u64 << 63);
    assert_eq!(r.models[1].total_tokens, 1u64 << 63);
}

#[test]
fn report_refuses_overflowing_sums() {
    let eps = Endpoints::default();
    let mut raw = available_raw();
    raw.amount_total = Some(vec![model("a", tokens(HALF, HALF, "0"))]);
    assert!(!report_counts_fit(&raw, &eps));
    raw.amount_total = Some(vec![model("a", tokens(HALF, "0", "0")), model("b", tokens(HALF, "0", "0"))]);
    assert!(!report_counts_fit(&raw, &eps));
    raw.amount_total = Some(vec![model("a", tokens("0", "0", "0"))]);
    raw.amount_days = Some(vec![day("2026-06-15", vec![model("a", tokens("1", "0", "18446744073709551615"))])]);
    assert!(!report_counts_fit(&raw, &eps));
}

#[test]
fn report_unshown_model_may_exceed() {
    let mut eps = Endpoints::default();
    eps.whitelist = vec!["a".to_string()];
    let mut raw = available_raw();
    raw.amount_total = Some(vec![
        model("a", tokens("1", "0", "0")),
        model("b", tokens("0", "0", "0")),
    ]);
    raw.amount_total.as_mut().unwrap()[1] = model("b", vec![
        entry("RESPONSE_TOKEN", "18446744073709551615"),
        entry("PROMPT_CACHE_MISS_TOKEN", "1"),
    ]);
    assert!(report_counts_fit(&raw, &eps));
    eps.whitelist = vec![];
    assert!(!report_counts_fit(&raw, &eps));
}

#[test]
fn report_clock_fields_have_their_shapes() {
    let eps = Endpoints::default();
    let mut raw = available_raw();
    let r = make_report_data(&raw, &eps).unwrap();
    let stamp: Vec<char> = r.update_time.chars().collect();
    assert_eq!(stamp.len(), 11);
    assert_eq!((stamp[2], stamp[5], stamp[8]), ('-', ' ', ':'));
    let label: Vec<char> = r.today_label.chars().collect();
    let n = label.len();
    assert!(n >= 10);
    assert_eq!((label[n - 6], label[n - 3]), ('-', '-'));
}
