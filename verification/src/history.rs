//! The queries on the stored history: which statement and which parameters
//! a listing with optional filters runs.
use vstd::prelude::*;

verus! {

/// A parameter bound to a statement.
#[derive(Debug, Clone)]
pub enum SqlParam {
    Text(String),
    Int(i64),
}

/// A statement and its parameters, in the order of their placeholders.
#[derive(Debug, Clone)]
pub struct SqlQuery {
    pub sql: String,
    pub params: Vec<SqlParam>,
}

/// The listing limit when none is given.
pub const DEFAULT_HISTORY_LIMIT: u32 = 100;

/// The stored sessions of one target and one kind of test, newest first.
pub open spec fn history_by_both_sql() -> Seq<char> {
    "SELECT id, target, test_type, start_time, end_time, data FROM ping_history WHERE target = ?1 AND test_type = ?2 ORDER BY start_time DESC LIMIT ?3"@
}

/// The stored sessions of one target, newest first.
pub open spec fn history_by_target_sql() -> Seq<char> {
    "SELECT id, target, test_type, start_time, end_time, data FROM ping_history WHERE target = ?1 ORDER BY start_time DESC LIMIT ?2"@
}

/// The stored sessions of one kind of test, newest first.
pub open spec fn history_by_type_sql() -> Seq<char> {
    "SELECT id, target, test_type, start_time, end_time, data FROM ping_history WHERE test_type = ?1 ORDER BY start_time DESC LIMIT ?2"@
}

/// All stored sessions, newest first.
pub open spec fn history_all_sql() -> Seq<char> {
    "SELECT id, target, test_type, start_time, end_time, data FROM ping_history ORDER BY start_time DESC LIMIT ?1"@
}

/// The samples of a session from a time on, oldest first.
pub open spec fn samples_since_sql() -> Seq<char> {
    "SELECT hop_number, seq, latency_ms, is_timeout, timestamp FROM trace_hop_sample WHERE session_id = ?1 AND timestamp >= ?2 ORDER BY timestamp ASC LIMIT ?3"@
}

/// The last samples of a session, oldest first.
pub open spec fn samples_last_sql() -> Seq<char> {
    "SELECT hop_number, seq, latency_ms, is_timeout, timestamp FROM (SELECT hop_number, seq, latency_ms, is_timeout, timestamp FROM trace_hop_sample WHERE session_id = ?1 ORDER BY timestamp DESC LIMIT ?2) ORDER BY timestamp ASC"@
}

/// The columns and table of a history listing.
pub open spec fn history_select() -> Seq<char> {
    "SELECT id, target, test_type, start_time, end_time, data FROM ping_history"@
}

/// Newest first, at most the number bound to the `n`-th placeholder.
pub open spec fn newest_first_limit(n: Seq<char>) -> Seq<char> {
    " ORDER BY start_time DESC LIMIT ?"@ + n
}

/// Every history listing reads the same columns, lists the newest sessions
/// first and is limited by its last placeholder; the listings differ only by
/// their filter: none, the target, the kind of test, or both.
pub proof fn lemma_history_listings_newest_first()
    ensures
        history_all_sql() == history_select() + newest_first_limit("1"@),
        history_by_target_sql() == history_select() + " WHERE target = ?1"@ + newest_first_limit("2"@),
        history_by_type_sql() == history_select() + " WHERE test_type = ?1"@ + newest_first_limit("2"@),
        history_by_both_sql() == history_select() + " WHERE target = ?1 AND test_type = ?2"@ + newest_first_limit(
            "3"@,
        ),
{
    reveal_strlit("SELECT id, target, test_type, start_time, end_time, data FROM ping_history");
    reveal_strlit(" ORDER BY start_time DESC LIMIT ?");
    reveal_strlit("1");
    reveal_strlit("2");
    reveal_strlit("3");
    reveal_strlit(" WHERE target = ?1");
    reveal_strlit(" WHERE test_type = ?1");
    reveal_strlit(" WHERE target = ?1 AND test_type = ?2");
    reveal_strlit(
        "SELECT id, target, test_type, start_time, end_time, data FROM ping_history ORDER BY start_time DESC LIMIT ?1",
    );
    reveal_strlit(
        "SELECT id, target, test_type, start_time, end_time, data FROM ping_history WHERE target = ?1 ORDER BY start_time DESC LIMIT ?2",
    );
    reveal_strlit(
        "SELECT id, target, test_type, start_time, end_time, data FROM ping_history WHERE test_type = ?1 ORDER BY start_time DESC LIMIT ?2",
    );
    reveal_strlit(
        "SELECT id, target, test_type, start_time, end_time, data FROM ping_history WHERE target = ?1 AND test_type = ?2 ORDER BY start_time DESC LIMIT ?3",
    );
    assert(history_all_sql() =~= history_select() + newest_first_limit("1"@));
    assert(history_by_target_sql() =~= history_select() + " WHERE target = ?1"@ + newest_first_limit("2"@));
    assert(history_by_type_sql() =~= history_select() + " WHERE test_type = ?1"@ + newest_first_limit("2"@));
    assert(history_by_both_sql() =~= history_select() + " WHERE target = ?1 AND test_type = ?2"@
        + newest_first_limit("3"@));
}

/// A parameter as plain values: a text or an integer.
pub open spec fn param_view(p: SqlParam) -> (Option<Seq<char>>, int) {
    match p {
        SqlParam::Text(s) => (Some(s@), 0),
        SqlParam::Int(i) => (None, i as int),
    }
}

/// The parameters of a query as plain values.
pub open spec fn params_view(v: Seq<SqlParam>) -> Seq<(Option<Seq<char>>, int)> {
    v.map_values(|p: SqlParam| param_view(p))
}

/// A text parameter as plain values.
pub open spec fn text_param(s: Seq<char>) -> (Option<Seq<char>>, int) {
    (Some(s), 0)
}

/// An integer parameter as plain values.
pub open spec fn int_param(i: int) -> (Option<Seq<char>>, int) {
    (None, i)
}

/// The listing of the stored sessions: filtered by target and by kind of
/// test where they are given, newest first, at most `limit` rows (100 when
/// no limit is given).
pub fn history_query(target: Option<String>, test_type: Option<String>, limit: Option<u32>) -> (r: SqlQuery)
    ensures
        ({
            let n = match limit {
                Some(l) => l as int,
                None => DEFAULT_HISTORY_LIMIT as int,
            };
            match (target, test_type) {
                (Some(t), Some(tt)) => r.sql@ == history_by_both_sql() && params_view(r.params@) == seq![
                    text_param(t@),
                    text_param(tt@),
                    int_param(n),
                ],
                (Some(t), None) => r.sql@ == history_by_target_sql() && params_view(r.params@) == seq![
                    text_param(t@),
                    int_param(n),
                ],
                (None, Some(tt)) => r.sql@ == history_by_type_sql() && params_view(r.params@) == seq![
                    text_param(tt@),
                    int_param(n),
                ],
                (None, None) => r.sql@ == history_all_sql() && params_view(r.params@) == seq![int_param(n)],
            }
        }),
{
    let n: u32 = match limit {
        Some(l) => l,
        None => DEFAULT_HISTORY_LIMIT,
    };
    let mut params: Vec<SqlParam> = Vec::new();
    let sql = match (target, test_type) {
        (Some(t), Some(tt)) => {
            params.push(SqlParam::Text(t));
            params.push(SqlParam::Text(tt));
            String::from_str(
                "SELECT id, target, test_type, start_time, end_time, data FROM ping_history WHERE target = ?1 AND test_type = ?2 ORDER BY start_time DESC LIMIT ?3",
            )
        },
        (Some(t), None) => {
            params.push(SqlParam::Text(t));
            String::from_str(
                "SELECT id, target, test_type, start_time, end_time, data FROM ping_history WHERE target = ?1 ORDER BY start_time DESC LIMIT ?2",
            )
        },
        (None, Some(tt)) => {
            params.push(SqlParam::Text(tt));
            String::from_str(
                "SELECT id, target, test_type, start_time, end_time, data FROM ping_history WHERE test_type = ?1 ORDER BY start_time DESC LIMIT ?2",
            )
        },
        (None, None) => String::from_str(
            "SELECT id, target, test_type, start_time, end_time, data FROM ping_history ORDER BY start_time DESC LIMIT ?1",
        ),
    };
    params.push(SqlParam::Int(n as i64));
    let r = SqlQuery { sql, params };
    assert(params_view(r.params@) =~= r.params@.map_values(|p: SqlParam| param_view(p)));
    r
}

/// The samples of a session, oldest first: those from `since` on, at most
/// `limit`; without `since`, the last `limit` samples.
pub fn samples_query(session_id: i64, since: Option<i64>, limit: u32) -> (r: SqlQuery)
    ensures
        match since {
            Some(s) => r.sql@ == samples_since_sql() && params_view(r.params@) == seq![
                int_param(session_id as int),
                int_param(s as int),
                int_param(limit as int),
            ],
            None => r.sql@ == samples_last_sql() && params_view(r.params@) == seq![
                int_param(session_id as int),
                int_param(limit as int),
            ],
        },
{
    let mut params: Vec<SqlParam> = Vec::new();
    params.push(SqlParam::Int(session_id));
    let sql = match since {
        Some(s) => {
            params.push(SqlParam::Int(s));
            String::from_str(
                "SELECT hop_number, seq, latency_ms, is_timeout, timestamp FROM trace_hop_sample WHERE session_id = ?1 AND timestamp >= ?2 ORDER BY timestamp ASC LIMIT ?3",
            )
        },
        None => String::from_str(
            "SELECT hop_number, seq, latency_ms, is_timeout, timestamp FROM (SELECT hop_number, seq, latency_ms, is_timeout, timestamp FROM trace_hop_sample WHERE session_id = ?1 ORDER BY timestamp DESC LIMIT ?2) ORDER BY timestamp ASC",
        ),
    };
    params.push(SqlParam::Int(limit as i64));
    SqlQuery { sql, params }
}

} // verus!
