use route_doctor::history::{history_query, samples_query, SqlParam, DEFAULT_HISTORY_LIMIT};

fn texts_and_ints(params: &[SqlParam]) -> Vec<String> {
    params
        .iter()
        .map(|p| match p {
            SqlParam::Text(s) => format!("t:{}", s),
            SqlParam::Int(i) => format!("i:{}", i),
        })
        .collect()
}

#[test]
fn history_query_filters_by_target_and_type() {
    let q = history_query(Some("8.8.8.8".to_string()), Some("ping".to_string()), Some(5));
    assert!(q.sql.contains("WHERE target = ?1 AND test_type = ?2"));
    assert!(q.sql.ends_with("LIMIT ?3"));
    assert_eq!(texts_and_ints(&q.params), vec!["t:8.8.8.8", "t:ping", "i:5"]);
}

#[test]
fn history_query_by_target_only() {
    let q = history_query(Some("example.com".to_string()), None, Some(7));
    assert!(q.sql.contains("WHERE target = ?1 ORDER BY"));
    assert_eq!(texts_and_ints(&q.params), vec!["t:example.com", "i:7"]);
}

#[test]
fn history_query_by_type_only() {
    let q = history_query(None, Some("traceroute".to_string()), None);
    assert!(q.sql.contains("WHERE test_type = ?1 ORDER BY"));
    assert_eq!(texts_and_ints(&q.params), vec!["t:traceroute", "i:100"]);
}

#[test]
fn history_query_default_limit() {
    let q = history_query(None, None, None);
    assert!(!q.sql.contains("WHERE"));
    assert!(q.sql.contains("ORDER BY start_time DESC LIMIT ?1"));
    assert_eq!(DEFAULT_HISTORY_LIMIT, 100);
    assert_eq!(texts_and_ints(&q.params), vec!["i:100"]);
}

#[test]
fn samples_query_since_and_last() {
    let q = samples_query(42, Some(1_700_000_000_000), 5000);
    assert!(q.sql.contains("timestamp >= ?2"));
    assert_eq!(texts_and_ints(&q.params), vec!["i:42", "i:1700000000000", "i:5000"]);
    let q = samples_query(42, None, 20);
    assert!(q.sql.contains("ORDER BY timestamp DESC LIMIT ?2) ORDER BY timestamp ASC"));
    assert_eq!(texts_and_ints(&q.params), vec!["i:42", "i:20"]);
}
