//! Audit records and the pure parts of the audit store: text truncation and
//! the construction of filtered queries.
use vstd::prelude::*;
use crate::text::{chars_of, copy_range, push_str, string_from_chars};

verus! {

broadcast use vstd::string::group_string_axioms;

/// One audit event as stored and listed.
pub struct AuditEvent {
    pub id: i64,
    pub ts: String,
    /// tool_call | gate_decision | approval | chat | config_change | system
    pub event_type: String,
    pub tool: String,
    pub args: String,
    pub result_summary: String,
    /// ok | denied | error | pending
    pub status: String,
    pub session_id: String,
    pub duration_ms: i64,
}

/// `s` cut to its first `max` characters, with "..." appended when anything was cut.
pub open spec fn truncated(s: Seq<char>, max: nat) -> Seq<char> {
    if s.len() <= max {
        s
    } else {
        s.take(max as int) + "..."@
    }
}

/// Cuts `s` to at most `max` characters, marking a cut with "...".
pub fn truncate(s: &str, max: usize) -> (r: String)
    ensures
        r@ == truncated(s@, max as nat),
{
    let v = chars_of(s);
    if v.len() <= max {
        string_from_chars(v.as_slice())
    } else {
        let mut out = copy_range(&v, 0, max);
        push_str(&mut out, "...");
        assert(v@.subrange(0, max as int) =~= v@.take(max as int));
        string_from_chars(out.as_slice())
    }
}


/// The columns and table every audit query reads.
pub const QUERY_BASE: &'static str = "SELECT id, ts, type, tool, args, result_summary, status, session_id, duration_ms FROM events WHERE 1=1";

/// The ordering and paging every audit query ends with (two placeholders: limit, offset).
pub const QUERY_TAIL: &'static str = " ORDER BY id DESC LIMIT ? OFFSET ?";

/// A filtered audit query: its SQL text and the values bound to its filter
/// placeholders, in order (the limit and offset are bound after them).
pub struct AuditQuery {
    pub sql: String,
    pub binds: Vec<String>,
}

/// The SQL of a query with the given filters (an empty filter adds no condition).
pub open spec fn query_sql(filter_type: Seq<char>, filter_tool: Seq<char>, filter_status: Seq<char>) -> Seq<char> {
    QUERY_BASE@ + (if filter_type.len() > 0 { " AND type = ?"@ } else { Seq::empty() }) + (if filter_tool.len()
        > 0 {
        " AND tool LIKE ?"@
    } else {
        Seq::empty()
    }) + (if filter_status.len() > 0 { " AND status = ?"@ } else { Seq::empty() }) + QUERY_TAIL@
}

/// The values bound to the filter placeholders: the type, the tool as a
/// substring pattern, the status — each only when given.
pub open spec fn query_binds(filter_type: Seq<char>, filter_tool: Seq<char>, filter_status: Seq<char>) -> Seq<
    Seq<char>,
> {
    (if filter_type.len() > 0 { seq![filter_type] } else { Seq::empty() }) + (if filter_tool.len() > 0 {
        seq!["%"@ + filter_tool + "%"@]
    } else {
        Seq::empty()
    }) + (if filter_status.len() > 0 { seq![filter_status] } else { Seq::empty() })
}

/// Builds the query for the given filters (empty means no filter).
pub fn build_query(filter_type: &str, filter_tool: &str, filter_status: &str) -> (r: AuditQuery)
    ensures
        r.sql@ == query_sql(filter_type@, filter_tool@, filter_status@),
        r.binds@.map_values(|b: String| b@) == query_binds(filter_type@, filter_tool@, filter_status@),
{
    let mut sql = chars_of(QUERY_BASE);
    let mut binds: Vec<String> = Vec::new();
    let ghost s0 = sql@;
    if !filter_type.is_empty() {
        push_str(&mut sql, " AND type = ?");
        binds.push(string_from_chars(chars_of(filter_type).as_slice()));
    }
    let ghost s1 = sql@;
    let ghost b1 = binds@.map_values(|b: String| b@);
    if !filter_tool.is_empty() {
        push_str(&mut sql, " AND tool LIKE ?");
        let mut pat = chars_of("%");
        push_str(&mut pat, filter_tool);
        push_str(&mut pat, "%");
        binds.push(string_from_chars(pat.as_slice()));
        assert(binds@.map_values(|b: String| b@) =~= b1.push(pat@));
    }
    let ghost b2 = binds@.map_values(|b: String| b@);
    if !filter_status.is_empty() {
        push_str(&mut sql, " AND status = ?");
        binds.push(string_from_chars(chars_of(filter_status).as_slice()));
        assert(binds@.map_values(|b: String| b@) =~= b2.push(filter_status@));
    }
    push_str(&mut sql, QUERY_TAIL);
    assert(sql@ =~= query_sql(filter_type@, filter_tool@, filter_status@));
    assert(binds@.map_values(|b: String| b@) =~= query_binds(filter_type@, filter_tool@, filter_status@));
    AuditQuery { sql: string_from_chars(sql.as_slice()), binds }
}

/// The number of '?' placeholders in a text.
pub open spec fn placeholders(s: Seq<char>) -> nat
    decreases s.len(),
{
    if s.len() == 0 {
        0
    } else {
        placeholders(s.drop_last()) + if s.last() == '?' {
            1nat
        } else {
            0nat
        }
    }
}

pub proof fn lemma_placeholders_add(a: Seq<char>, b: Seq<char>)
    ensures
        placeholders(a + b) == placeholders(a) + placeholders(b),
    decreases b.len(),
{
    if b.len() == 0 {
        assert(a + b =~= a);
    } else {
        lemma_placeholders_add(a, b.drop_last());
        assert((a + b).drop_last() =~= a + b.drop_last());
        assert((a + b).last() == b.last());
    }
}

proof fn lemma_base_placeholders()
    ensures
        placeholders(QUERY_BASE@) == 0,
{
    reveal_strlit("SELECT id, ts, type, tool, args, result_summary, status, session_id, duration_ms FROM events WHERE 1=1");
    reveal_strlit("SELECT id, ts, type, ");
    reveal_strlit("tool, args, result_su");
    reveal_strlit("mmary, status, sessio");
    reveal_strlit("n_id, duration_ms FRO");
    reveal_strlit("M events WHERE 1=1");
    assert(QUERY_BASE@ =~= "SELECT id, ts, type, "@ + "tool, args, result_su"@ + "mmary, status, sessio"@ + "n_id, duration_ms FRO"@ + "M events WHERE 1=1"@);
    assert(placeholders("SELECT id, ts, type, "@) == 0) by { reveal_with_fuel(placeholders, 22); }
    assert(placeholders("tool, args, result_su"@) == 0) by { reveal_with_fuel(placeholders, 22); }
    assert(placeholders("mmary, status, sessio"@) == 0) by { reveal_with_fuel(placeholders, 22); }
    assert(placeholders("n_id, duration_ms FRO"@) == 0) by { reveal_with_fuel(placeholders, 22); }
    assert(placeholders("M events WHERE 1=1"@) == 0) by { reveal_with_fuel(placeholders, 22); }
    lemma_placeholders_add("SELECT id, ts, type, "@, "tool, args, result_su"@);
    lemma_placeholders_add("SELECT id, ts, type, "@ + "tool, args, result_su"@, "mmary, status, sessio"@);
    lemma_placeholders_add("SELECT id, ts, type, "@ + "tool, args, result_su"@ + "mmary, status, sessio"@, "n_id, duration_ms FRO"@);
    lemma_placeholders_add("SELECT id, ts, type, "@ + "tool, args, result_su"@ + "mmary, status, sessio"@ + "n_id, duration_ms FRO"@, "M events WHERE 1=1"@);
}

proof fn lemma_clause_placeholders()
    ensures
        placeholders(" AND type = ?"@) == 1,
        placeholders(" AND tool LIKE ?"@) == 1,
        placeholders(" AND status = ?"@) == 1,
        placeholders(QUERY_TAIL@) == 2,
        placeholders(Seq::<char>::empty()) == 0,
{
    reveal_strlit(" AND type = ?");
    reveal_strlit(" AND tool LIKE ?");
    reveal_strlit(" AND status = ?");
    reveal_strlit(" ORDER BY id DESC LIMIT ? OFFSET ?");
    assert(placeholders(" AND type = ?"@) == 1) by {
        reveal_with_fuel(placeholders, 14);
    }
    assert(placeholders(" AND tool LIKE ?"@) == 1) by {
        reveal_with_fuel(placeholders, 17);
    }
    assert(placeholders(" AND status = ?"@) == 1) by {
        reveal_with_fuel(placeholders, 16);
    }
    assert(placeholders(QUERY_TAIL@) == 2) by {
        reveal_with_fuel(placeholders, 35);
    }
}

/// Law of audit queries: the SQL holds exactly one placeholder per bound filter
/// value plus the two for limit and offset, so the values always line up with it.
pub proof fn law_query_placeholders_match_binds(
    filter_type: Seq<char>,
    filter_tool: Seq<char>,
    filter_status: Seq<char>,
)
    ensures
        placeholders(query_sql(filter_type, filter_tool, filter_status)) == query_binds(
            filter_type,
            filter_tool,
            filter_status,
        ).len() + 2,
{
    lemma_base_placeholders();
    lemma_clause_placeholders();
    let t = if filter_type.len() > 0 { " AND type = ?"@ } else { Seq::<char>::empty() };
    let o = if filter_tool.len() > 0 { " AND tool LIKE ?"@ } else { Seq::<char>::empty() };
    let st = if filter_status.len() > 0 { " AND status = ?"@ } else { Seq::<char>::empty() };
    lemma_placeholders_add(QUERY_BASE@, t);
    lemma_placeholders_add(QUERY_BASE@ + t, o);
    lemma_placeholders_add(QUERY_BASE@ + t + o, st);
    lemma_placeholders_add(QUERY_BASE@ + t + o + st, QUERY_TAIL@);
}


/// The page of a listing: the requested limit (100 when not given) kept within
/// 1..=1000, and the requested offset (0 when not given), never negative.
pub fn audit_page(limit: Option<i64>, offset: Option<i64>) -> (r: (i64, i64))
    ensures
        r.0 == match limit {
            Some(l) => if l < 1 { 1 } else if l > 1000 { 1000 } else { l },
            None => 100,
        },
        r.1 == match offset {
            Some(o) => if o < 0 { 0 } else { o },
            None => 0,
        },
{
    let l = match limit {
        Some(l) => if l < 1 {
            1
        } else if l > 1000 {
            1000
        } else {
            l
        },
        None => 100,
    };
    let o = match offset {
        Some(o) => if o < 0 {
            0
        } else {
            o
        },
        None => 0,
    };
    (l, o)
}

} // verus!
