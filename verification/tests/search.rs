use chrono::{DateTime, TimeZone, Utc};
use himitsu::search::{
    collect_stores, fuzzy_filter, humanize_age, is_slug_like, no_results_message, parse_ts,
    render_table, search_results, store_label, SearchResult,
};
use himitsu::secret::Timestamp;

fn mk(store: &str, path: &str, updated_at: Option<&str>) -> SearchResult {
    SearchResult {
        store: store.to_string(),
        store_path: String::new(),
        path: path.to_string(),
        created_at: None,
        updated_at: updated_at.map(String::from),
        description: None,
    }
}

fn ts(dt: DateTime<Utc>) -> Timestamp {
    Timestamp { seconds: dt.timestamp(), nanos: dt.timestamp_subsec_nanos() as i32 }
}

fn now_2026() -> DateTime<Utc> {
    Utc.with_ymd_and_hms(2026, 4, 15, 12, 0, 0).unwrap()
}

fn ymd(t: Timestamp) -> String {
    DateTime::from_timestamp(t.seconds, t.nanos as u32).unwrap().format("%Y-%m-%d").to_string()
}

#[test]
fn test_fuzzy_matches_subsequence() {
    let candidates = vec![
        mk("acme/prod", "DATABASE_URL", None),
        mk("acme/prod", "API_KEY", None),
        mk("acme/staging", "DATABASE_URL", None),
        mk("acme/prod", "STRIPE_KEY", None),
    ];
    let hits = fuzzy_filter(&candidates, "dbu");
    assert!(!hits.is_empty(), "expected fuzzy match for 'dbu'");
    assert!(hits.iter().all(|r| r.path == "DATABASE_URL"));

    let hits = fuzzy_filter(&candidates, "stripe");
    assert_eq!(hits.len(), 1);
    assert_eq!(hits[0].path, "STRIPE_KEY");

    // Slug match: query includes store segment.
    let hits = fuzzy_filter(&candidates, "staging/dburl");
    assert!(hits.iter().any(|r| r.store == "acme/staging"));

    // Non-matching query yields empty.
    let hits = fuzzy_filter(&candidates, "zzzzz_nope");
    assert!(hits.is_empty());
}

#[test]
fn test_humanize_age_buckets() {
    let now = now_2026();
    let h = |d: chrono::Duration| humanize_age(ts(now), ts(now - d));

    assert_eq!(h(chrono::Duration::seconds(10)), "just now");
    assert_eq!(h(chrono::Duration::seconds(59)), "just now");
    assert_eq!(humanize_age(ts(now), ts(now + chrono::Duration::minutes(3))), "just now");
    assert_eq!(h(chrono::Duration::minutes(1)), "1 minute ago");
    assert_eq!(h(chrono::Duration::minutes(5)), "5 minutes ago");
    assert_eq!(h(chrono::Duration::minutes(59)), "59 minutes ago");
    assert_eq!(h(chrono::Duration::hours(1)), "1 hour ago");
    assert_eq!(h(chrono::Duration::hours(2)), "2 hours ago");
    assert_eq!(h(chrono::Duration::hours(23)), "23 hours ago");
    assert_eq!(h(chrono::Duration::days(1)), "1 day ago");
    assert_eq!(h(chrono::Duration::days(3)), "3 days ago");
    assert_eq!(h(chrono::Duration::days(29)), "29 days ago");
    assert_eq!(h(chrono::Duration::days(30)), "1 month ago");
    assert_eq!(h(chrono::Duration::days(90)), "3 months ago");
    assert_eq!(h(chrono::Duration::days(364)), "12 months ago");
    assert_eq!(h(chrono::Duration::days(365)), "1 year ago");
    assert_eq!(h(chrono::Duration::days(365 * 2 + 5)), "2 years ago");
}

#[test]
fn test_parse_ts_accepts_rfc3339_and_date_only() {
    let t = parse_ts("2026-04-15T12:00:00Z").unwrap();
    assert_eq!(ymd(t), "2026-04-15");

    let t = parse_ts("2026-04-15").unwrap();
    assert_eq!(ymd(t), "2026-04-15");

    assert!(parse_ts("not a date").is_none());
}

#[test]
fn test_gh_style_table_output() {
    let now = now_2026();
    let two_hours_ago = (now - chrono::Duration::hours(2)).to_rfc3339();
    let three_days_ago = (now - chrono::Duration::days(3)).to_rfc3339();

    let results = vec![
        SearchResult {
            store: "acme/prod".into(),
            store_path: String::new(),
            path: "DATABASE_URL".into(),
            created_at: None,
            updated_at: Some(two_hours_ago),
            description: Some("prod postgres primary".into()),
        },
        SearchResult {
            store: "acme/staging".into(),
            store_path: String::new(),
            path: "API_KEY".into(),
            created_at: None,
            updated_at: Some(three_days_ago),
            description: None,
        },
    ];

    let out = render_table(&results, false, ts(now));
    let mut lines = out.lines();

    let header = lines.next().unwrap();
    assert!(header.starts_with("PATH"), "header: {header}");
    assert!(header.contains("UPDATED"), "header: {header}");
    assert!(header.contains("DESCRIPTION"), "header: {header}");
    assert!(header.trim_end().ends_with("STORE"), "header: {header}");

    let p = header.find("PATH").unwrap();
    let u = header.find("UPDATED").unwrap();
    let d = header.find("DESCRIPTION").unwrap();
    let s = header.find("STORE").unwrap();
    assert!(p < u && u < d && d < s, "column order wrong: {header}");

    let row1 = lines.next().unwrap();
    assert!(row1.contains("DATABASE_URL"));
    assert!(row1.contains("2 hours ago"));
    assert!(row1.contains("prod postgres primary"));
    assert!(row1.trim_end().ends_with("acme/prod"));

    let row2 = lines.next().unwrap();
    assert!(row2.contains("API_KEY"));
    assert!(row2.contains("3 days ago"));
    assert!(row2.trim_end().ends_with("acme/staging"));

    assert!(!out.contains("----"));
    assert!(!out.contains("\x1b["));
}

#[test]
fn test_render_table_falls_back_to_em_dash_when_no_timestamps() {
    let now = now_2026();
    let results = vec![SearchResult {
        store: "acme/prod".into(),
        store_path: String::new(),
        path: "ORPHAN".into(),
        created_at: None,
        updated_at: None,
        description: None,
    }];

    let out = render_table(&results, false, ts(now));
    let row = out.lines().nth(1).unwrap();
    assert!(row.contains("—"), "expected em-dash fallback in: {row}");
}

#[test]
fn test_render_table_prefers_updated_then_created_at() {
    let now = now_2026();
    let results = vec![SearchResult {
        store: "acme/prod".into(),
        store_path: String::new(),
        path: "LEGACY".into(),
        created_at: Some("2026-04-12".into()),
        updated_at: None,
        description: None,
    }];

    let out = render_table(&results, false, ts(now));
    assert!(out.contains("3 days ago"), "output: {out}");
}

#[test]
fn render_table_exact_layout() {
    let now = now_2026();
    let results = vec![mk("acme/prod", "ORPHAN", None)];
    let out = render_table(&results, false, ts(now));
    assert_eq!(
        out,
        format!("PATH    UPDATED  DESCRIPTION  STORE\nORPHAN  —        {}  acme/prod\n", " ".repeat(11))
    );
    let colored = render_table(&results, true, ts(now));
    assert_eq!(
        colored,
        format!(
            "PATH    UPDATED  DESCRIPTION  STORE\n\x1b[36mORPHAN\x1b[39m  \x1b[2m—      \x1b[0m  {}  acme/prod\n",
            " ".repeat(11)
        )
    );
}

#[test]
fn render_table_of_nothing_is_the_heading() {
    let out = render_table(&[], false, ts(now_2026()));
    assert_eq!(out, "PATH  UPDATED  DESCRIPTION  STORE\n");
}

#[test]
fn unparsable_update_time_shows_a_dash_even_with_a_creation_time() {
    let mut r = mk("acme/prod", "X", Some("garbage"));
    r.created_at = Some("2026-04-12".into());
    let out = render_table(&[r], false, ts(now_2026()));
    assert!(out.lines().nth(1).unwrap().contains("—"));
    assert!(!out.contains("days ago"));
}

#[test]
fn blank_query_lists_everything_by_store_then_path() {
    let candidates = vec![
        mk("b/x", "Z", None),
        mk("a/x", "Y", None),
        mk("b/x", "A", None),
        mk("a/x", "B", None),
    ];
    let hits = search_results(candidates, "   ");
    let got: Vec<(String, String)> = hits.iter().map(|r| (r.store.clone(), r.path.clone())).collect();
    assert_eq!(
        got,
        vec![
            ("a/x".to_string(), "B".to_string()),
            ("a/x".to_string(), "Y".to_string()),
            ("b/x".to_string(), "A".to_string()),
            ("b/x".to_string(), "Z".to_string()),
        ]
    );
}

#[test]
fn equal_scores_break_ties_by_store_then_path() {
    let candidates = vec![
        mk("/tmp/z", "KEY", None),
        mk("/tmp/a", "KEY", None),
        mk("/tmp/a", "KEY", None),
    ];
    let hits = fuzzy_filter(&candidates, "key");
    assert_eq!(hits.len(), 3);
    assert_eq!(hits[0].store, "/tmp/a");
    assert_eq!(hits[1].store, "/tmp/a");
    assert_eq!(hits[2].store, "/tmp/z");
}

#[test]
fn slug_like_labels() {
    assert!(is_slug_like("acme/prod"));
    assert!(!is_slug_like(""));
    assert!(!is_slug_like("/tmp/store"));
    assert!(!is_slug_like("C:\\stores"));
}

#[test]
fn filesystem_store_labels_do_not_join_the_haystack() {
    // "tmp" only occurs in the store label, which is not slug-like.
    let candidates = vec![mk("/tmp/store", "API_KEY", None)];
    assert!(fuzzy_filter(&candidates, "tmpapi").is_empty());
    let candidates = vec![mk("tmp/store", "API_KEY", None)];
    assert_eq!(fuzzy_filter(&candidates, "tmpapi").len(), 1);
}

#[test]
fn store_labels() {
    assert_eq!(store_label("/home/u/.himitsu/stores/acme/prod", "/home/u/.himitsu/stores"), "acme/prod");
    assert_eq!(store_label("/elsewhere/store", "/home/u/.himitsu/stores"), "/elsewhere/store");
    assert_eq!(store_label("/home/u/.himitsu/stores", "/home/u/.himitsu/stores"), "/home/u/.himitsu/stores");
}

#[test]
fn collected_stores_put_the_explicit_one_first_and_skip_its_checkout() {
    let checkouts = vec![
        ("acme".to_string(), "prod".to_string(), "/s/acme/prod".to_string()),
        ("acme".to_string(), "dev".to_string(), "/s/acme/dev".to_string()),
    ];
    let got = collect_stores("/s/acme/prod", true, "/s", &checkouts);
    assert_eq!(
        got,
        vec![
            ("acme/prod".to_string(), "/s/acme/prod".to_string()),
            ("acme/dev".to_string(), "/s/acme/dev".to_string()),
        ]
    );
    let got = collect_stores("", false, "/s", &checkouts);
    assert_eq!(got.len(), 2);
    assert_eq!(got[0].0, "acme/prod");
    let got = collect_stores("/s/acme/prod", false, "/s", &checkouts);
    assert_eq!(got, vec![("acme/dev".to_string(), "/s/acme/dev".to_string())]);
}

#[test]
fn no_results_names_the_query() {
    assert_eq!(
        no_results_message("db\"x"),
        "No results for \"db\\\"x\".\nTip: run `himitsu remote add <org/repo>` to register stores.\n"
    );
}
