use deepseek_monitor::config::Config;
use deepseek_monitor::endpoints::{dedup_preserve_order, Endpoints, TokenTypes};

fn names(v: &[&str]) -> Vec<String> {
    v.iter().map(|s| s.to_string()).collect()
}

#[test]
fn config_defaults() {
    let c = Config::default();
    assert_eq!(c.usage_url, "https://platform.deepseek.com/usage");
    assert_eq!(c.api_base, "https://platform.deepseek.com/api/v0");
    assert_eq!(c.refresh_interval, 120);
}

#[test]
fn endpoint_defaults() {
    let e = Endpoints::default();
    assert_eq!(e.amount_path, "/usage/amount?month={month}&year={year}");
    assert_eq!(e.cost_path, "/usage/cost?month={month}&year={year}");
    assert_eq!(e.summary_path, "/users/get_user_summary");
    assert!(e.whitelist.is_empty());
    let t = TokenTypes::default();
    assert_eq!(t.cache_hit, "PROMPT_CACHE_HIT_TOKEN");
    assert_eq!(t.cache_miss, "PROMPT_CACHE_MISS_TOKEN");
    assert_eq!(t.response, "RESPONSE_TOKEN");
    assert_eq!(t.request, "REQUEST");
    assert_eq!(e.token_types, t);
}

#[test]
fn fill_month_and_year() {
    let e = Endpoints::default();
    assert_eq!(
        e.fill(&e.amount_path, "06", "2026"),
        "/usage/amount?month=06&year=2026"
    );
    assert_eq!(e.fill("/a/{year}/{month}/{year}", "1", "2"), "/a/2/1/2");
}

#[test]
fn fill_leaves_other_placeholders() {
    let e = Endpoints::default();
    assert_eq!(e.fill("/x?d={day}&m={month}", "07", "2025"), "/x?d={day}&m=07");
    assert_eq!(e.fill("/users/get_user_summary", "07", "2025"), "/users/get_user_summary");
    assert_eq!(e.fill("{month", "07", "2025"), "{month");
}

#[test]
fn fill_does_not_rescan_replacements() {
    let e = Endpoints::default();
    // A month that itself reads "{year}" is then filled by the year pass, as
    // two chained `str::replace` calls do.
    assert_eq!(e.fill("{month}", "{year}", "2026"), "2026");
    assert_eq!(e.fill("{year}", "x", "{month}"), "{month}");
    assert_eq!(e.fill("{{month}}", "6", "y"), "{6}");
}

#[test]
fn dedup_keeps_first_occurrences_in_order() {
    let v = names(&["b", "a", "b", "c", "a"]);
    assert_eq!(dedup_preserve_order(&v), names(&["b", "a", "c"]));
    assert!(dedup_preserve_order(&[]).is_empty());
}

#[test]
fn filter_empty_whitelist_shows_all() {
    let e = Endpoints::default();
    let r = names(&["m1", "m2", "m1"]);
    assert_eq!(e.filter_models(&r), names(&["m1", "m2"]));
}

#[test]
fn filter_matching_whitelist_is_exact() {
    let mut e = Endpoints::default();
    e.whitelist = names(&["deepseek-v4-flash", "other"]);
    let r = names(&["deepseek-v4-pro", "deepseek-v4-flash", "deepseek-v4-flash-x", "deepseek-v4-flash"]);
    assert_eq!(e.filter_models(&r), names(&["deepseek-v4-flash"]));
}

#[test]
fn filter_whitelist_order_follows_response() {
    let mut e = Endpoints::default();
    e.whitelist = names(&["b", "a"]);
    let r = names(&["a", "c", "b"]);
    assert_eq!(e.filter_models(&r), names(&["a", "b"]));
}

#[test]
fn filter_unmatched_whitelist_falls_back() {
    let mut e = Endpoints::default();
    e.whitelist = names(&["nothing"]);
    let r = names(&["x", "y", "x"]);
    assert_eq!(e.filter_models(&r), names(&["x", "y"]));
    assert!(e.filter_models(&[]).is_empty());
}

#[test]
fn filter_is_idempotent_on_example() {
    let mut e = Endpoints::default();
    e.whitelist = names(&["a", "c"]);
    let r = names(&["c", "b", "a", "c"]);
    let once = e.filter_models(&r);
    assert_eq!(e.filter_models(&once), once);
}

#[test]
fn incomplete_endpoints_fall_back_to_defaults() {
    let mut e = Endpoints::default();
    e.cost_path = String::new();
    e.whitelist = names(&["kept?"]);
    let r = e.or_default_if_incomplete();
    assert_eq!(r, Endpoints::default());
}

#[test]
fn complete_endpoints_are_kept() {
    let mut e = Endpoints::default();
    e.summary_path = "/s".to_string();
    e.whitelist = names(&["w"]);
    let r = e.or_default_if_incomplete();
    assert_eq!(r.summary_path, "/s");
    assert_eq!(r.whitelist, names(&["w"]));
}

#[test]
fn fetch_paths_fill_month_and_year() {
    let e = Endpoints::default();
    let (a, c, s) = e.fetch_paths("03", "2024");
    assert_eq!(a, "/usage/amount?month=03&year=2024");
    assert_eq!(c, "/usage/cost?month=03&year=2024");
    assert_eq!(s, "/users/get_user_summary");
}

#[test]
fn current_fetch_paths_use_a_month_number() {
    let e = Endpoints::default();
    let (a, _, s) = e.current_fetch_paths();
    let month = &a["/usage/amount?month=".len().."/usage/amount?month=".len() + 2];
    let m: u32 = month.parse().unwrap();
    assert!((1..=12).contains(&m));
    assert!(a.contains("&year="));
    assert!(!a.contains("{"));
    assert_eq!(s, "/users/get_user_summary");
}
