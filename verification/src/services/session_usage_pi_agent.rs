//! Token usage of pi-agent sessions, read from the JSONL session logs under
//! `~/.pi/agent/sessions/`.
//!
//! A log holds one JSON value per line: a session header
//! (`{"type":"session","id":...}`) and entries such as
//! `{"type":"message","id":...,"message":{"role":"assistant","usage":{...}}}`.
//! Lines are read incrementally from the offset reached by the previous sync; the
//! assistant messages with token usage are kept, one per message id, and each becomes
//! a row of the request log.

use vstd::prelude::*;
use vstd::string::*;
use crate::json::{get_str, get_u64, opt_view, text_eq, view_get, JsonValue, JsonView};

verus! {

/// The usage of one assistant message of a session log.
#[derive(Debug)]
pub struct PiAgentAssistantUsage {
    pub message_id: String,
    pub model: String,
    pub provider: Option<String>,
    pub input_tokens: u32,
    pub output_tokens: u32,
    pub cache_read_tokens: u32,
    pub cache_creation_tokens: u32,
    pub stop_reason: Option<String>,
    pub timestamp: Option<String>,
    pub session_id: Option<String>,
}

/// The mathematical form of an assistant message's usage.
pub struct UsageRecord {
    pub message_id: Seq<char>,
    pub model: Seq<char>,
    pub provider: Option<Seq<char>>,
    pub input_tokens: u32,
    pub output_tokens: u32,
    pub cache_read_tokens: u32,
    pub cache_creation_tokens: u32,
    pub stop_reason: Option<Seq<char>>,
    pub timestamp: Option<Seq<char>>,
    pub session_id: Option<Seq<char>>,
}

/// The view of an optional string.
pub open spec fn opt_str(s: Option<String>) -> Option<Seq<char>> {
    match s {
        Some(t) => Some(t@),
        None => None,
    }
}

impl PiAgentAssistantUsage {
    pub open spec fn view(&self) -> UsageRecord {
        UsageRecord {
            message_id: self.message_id@,
            model: self.model@,
            provider: opt_str(self.provider),
            input_tokens: self.input_tokens,
            output_tokens: self.output_tokens,
            cache_read_tokens: self.cache_read_tokens,
            cache_creation_tokens: self.cache_creation_tokens,
            stop_reason: opt_str(self.stop_reason),
            timestamp: opt_str(self.timestamp),
            session_id: opt_str(self.session_id),
        }
    }
}

/// A token count of a usage object: the number under `key` cut to 32 bits, 0 when
/// there is no non-negative integer there.
pub open spec fn token_count(usage: JsonView, key: Seq<char>) -> u32 {
    match get_u64(usage, key) {
        Some(n) => n as u32,
        None => 0,
    }
}

/// Whether a usage counts any token.
pub open spec fn has_tokens(u: UsageRecord) -> bool {
    u.input_tokens > 0 || u.output_tokens > 0 || u.cache_read_tokens > 0 || u.cache_creation_tokens > 0
}

/// The session id a line sets: that of a session header with a string id.
pub open spec fn session_header(line: JsonView) -> Option<Seq<char>> {
    if get_str(line, "type"@) == Some("session"@) {
        get_str(line, "id"@)
    } else {
        None
    }
}

/// The usage that a line of the log reports: an entry of type "message" whose message
/// has the role "assistant", with a string id and a usage object.
pub open spec fn line_usage(line: JsonView, session_id: Option<Seq<char>>) -> Option<UsageRecord> {
    if get_str(line, "type"@) != Some("message"@) {
        None
    } else {
        match view_get(line, "message"@) {
            None => None,
            Some(message) => if get_str(message, "role"@) != Some("assistant"@) {
                None
            } else {
                match (get_str(line, "id"@), view_get(message, "usage"@)) {
                    (Some(id), Some(usage)) => Some(UsageRecord {
                        message_id: id,
                        model: match get_str(message, "model"@) {
                            Some(m) => m,
                            None => "unknown"@,
                        },
                        provider: get_str(message, "provider"@),
                        input_tokens: token_count(usage, "input_tokens"@),
                        output_tokens: token_count(usage, "output_tokens"@),
                        cache_read_tokens: token_count(usage, "cache_read_input_tokens"@),
                        cache_creation_tokens: token_count(usage, "cache_creation_input_tokens"@),
                        stop_reason: get_str(message, "stopReason"@),
                        timestamp: get_str(line, "timestamp"@),
                        session_id: session_id,
                    }),
                    _ => None,
                }
            },
        }
    }
}

/// A line reports a usage exactly when it is an entry of type "message" with a string
/// id whose message has the role "assistant" and a usage; the usage read carries that
/// id, the session given, the message's model ("unknown" without one), provider and
/// stop reason, the entry's timestamp, and each token count from the usage member of
/// the same meaning: `input_tokens`, `output_tokens`, `cache_read_input_tokens` and
/// `cache_creation_input_tokens`.
pub proof fn law_line_usage_reads_its_fields(line: JsonView, session_id: Option<Seq<char>>, message: JsonView, usage: JsonView)
    requires
        view_get(line, "message"@) == Some(message),
        view_get(message, "usage"@) == Some(usage),
    ensures
        line_usage(line, session_id) is Some <==> (get_str(line, "type"@) == Some("message"@)
            && get_str(message, "role"@) == Some("assistant"@) && get_str(line, "id"@) is Some),
        line_usage(line, session_id) matches Some(u) ==> {
            &&& Some(u.message_id) == get_str(line, "id"@)
            &&& u.session_id == session_id
            &&& u.model == match get_str(message, "model"@) { Some(m) => m, None => "unknown"@ }
            &&& u.provider == get_str(message, "provider"@)
            &&& u.stop_reason == get_str(message, "stopReason"@)
            &&& u.timestamp == get_str(line, "timestamp"@)
            &&& u.input_tokens == token_count(usage, "input_tokens"@)
            &&& u.output_tokens == token_count(usage, "output_tokens"@)
            &&& u.cache_read_tokens == token_count(usage, "cache_read_input_tokens"@)
            &&& u.cache_creation_tokens == token_count(usage, "cache_creation_input_tokens"@)
        },
{
}

/// What one line of a log is.
#[derive(Debug)]
pub enum LineEvent {
    /// A session header with its id.
    Session(String),
    /// An assistant message with its usage.
    Usage(PiAgentAssistantUsage),
    /// Anything else.
    Skip,
}

/// Reads one parsed line of a log; `session_id` is the id of the last session header.
pub fn parse_line(line: &JsonValue, session_id: &Option<String>) -> (event: LineEvent)
    ensures
        match event {
            LineEvent::Session(id) => session_header(line.view()) == Some(id@),
            LineEvent::Usage(u) => session_header(line.view()) is None
                && line_usage(line.view(), opt_str(*session_id)) == Some(u.view()),
            LineEvent::Skip => session_header(line.view()) is None
                && line_usage(line.view(), opt_str(*session_id)) is None,
        },
{
    let entry_type = match line.get("type") {
        Some(t) => match t.as_str() {
            Some(s) => s,
            None => return LineEvent::Skip,
        },
        None => return LineEvent::Skip,
    };
    proof {
        reveal_strlit("session");
        reveal_strlit("message");
    }
    if text_eq(entry_type, "session") {
        if let Some(id) = line.get("id") {
            if let Some(sid) = id.as_str() {
                return LineEvent::Session(String::from_str(sid));
            }
        }
        return LineEvent::Skip;
    }
    if !text_eq(entry_type, "message") {
        return LineEvent::Skip;
    }
    let message = match line.get("message") {
        Some(m) => m,
        None => return LineEvent::Skip,
    };
    let role = match message.get("role") {
        Some(r) => match r.as_str() {
            Some(s) => s,
            None => return LineEvent::Skip,
        },
        None => return LineEvent::Skip,
    };
    if !text_eq(role, "assistant") {
        return LineEvent::Skip;
    }
    let msg_id = match line.get("id") {
        Some(i) => match i.as_str() {
            Some(s) => s,
            None => return LineEvent::Skip,
        },
        None => return LineEvent::Skip,
    };
    let usage = match message.get("usage") {
        Some(u) => u,
        None => return LineEvent::Skip,
    };
    let model = match message.get("model") {
        Some(m) => match m.as_str() {
            Some(s) => String::from_str(s),
            None => String::from_str("unknown"),
        },
        None => String::from_str("unknown"),
    };
    let parsed = PiAgentAssistantUsage {
        message_id: String::from_str(msg_id),
        model,
        provider: optional_text(message, "provider"),
        input_tokens: tokens_of(usage, "input_tokens"),
        output_tokens: tokens_of(usage, "output_tokens"),
        cache_read_tokens: tokens_of(usage, "cache_read_input_tokens"),
        cache_creation_tokens: tokens_of(usage, "cache_creation_input_tokens"),
        stop_reason: optional_text(message, "stopReason"),
        timestamp: optional_text(line, "timestamp"),
        session_id: match session_id {
            Some(s) => Some(s.clone()),
            None => None,
        },
    };
    LineEvent::Usage(parsed)
}

/// The string under `key`, as an owned string.
pub fn optional_text(value: &JsonValue, key: &str) -> (text: Option<String>)
    ensures
        opt_str(text) == get_str(value.view(), key@),
{
    match value.get(key) {
        Some(v) => match v.as_str() {
            Some(s) => Some(String::from_str(s)),
            None => None,
        },
        None => None,
    }
}

/// The token count under `key`, as `token_count` describes.
pub fn tokens_of(usage: &JsonValue, key: &str) -> (n: u32)
    ensures
        n == token_count(usage.view(), key@),
{
    let raw: u64 = match usage.get(key) {
        Some(v) => match v.as_u64() {
            Some(n) => n,
            None => 0,
        },
        None => 0,
    };
    raw as u32
}

/// Whether a new usage of a message id takes the place of the one kept so far: a usage
/// with a stop reason beats one without; between two that both have one or both lack
/// one, the one with more output tokens wins; the first of an id is always kept.
pub open spec fn should_replace_spec(existing: Option<UsageRecord>, parsed: UsageRecord) -> bool {
    match existing {
        None => true,
        Some(e) => if parsed.stop_reason is Some && e.stop_reason is None {
            true
        } else if (parsed.stop_reason is Some) == (e.stop_reason is Some) {
            parsed.output_tokens > e.output_tokens
        } else {
            false
        },
    }
}

/// Which usage of a message id is kept: the first one seen always is; a usage with a
/// stop reason takes the place of one without, never the other way round; between two
/// of the same kind the one with more output tokens wins, and a tie keeps the earlier.
/// So of two usages at most one would replace the other.
pub proof fn law_replace_prefers_final_then_more_output(existing: UsageRecord, parsed: UsageRecord)
    ensures
        should_replace_spec(None, parsed),
        parsed.stop_reason is Some && existing.stop_reason is None ==> should_replace_spec(Some(existing), parsed),
        parsed.stop_reason is None && existing.stop_reason is Some ==> !should_replace_spec(Some(existing), parsed),
        (parsed.stop_reason is Some) == (existing.stop_reason is Some) ==> (should_replace_spec(Some(existing), parsed)
            <==> parsed.output_tokens > existing.output_tokens),
        should_replace_spec(Some(existing), parsed) ==> !should_replace_spec(Some(parsed), existing),
{
}

/// The usage kept for a message id.
pub open spec fn kept_usage(table: Seq<UsageRecord>, id: Seq<char>) -> Option<UsageRecord>
    decreases table.len(),
{
    if table.len() == 0 {
        None
    } else if table[0].message_id == id {
        Some(table[0])
    } else {
        kept_usage(table.drop_first(), id)
    }
}

/// The table after a usage is offered to it: kept in place of the usage of the same
/// message id when it should replace it, appended when the id is new.
pub open spec fn record_usage_spec(table: Seq<UsageRecord>, u: UsageRecord) -> Seq<UsageRecord>
    decreases table.len(),
{
    if table.len() == 0 {
        seq![u]
    } else if table[0].message_id == u.message_id {
        if should_replace_spec(Some(table[0]), u) {
            table.update(0, u)
        } else {
            table
        }
    } else {
        seq![table[0]] + record_usage_spec(table.drop_first(), u)
    }
}

/// The state of a scan, its table and the id of the last session header, after one
/// more line; `None` stands for a line that could not be read or parsed.
pub open spec fn scan_step(state: (Seq<UsageRecord>, Option<Seq<char>>), line: Option<JsonView>) -> (Seq<UsageRecord>, Option<Seq<char>>) {
    match line {
        None => state,
        Some(v) => match session_header(v) {
            Some(id) => (state.0, Some(id)),
            None => match line_usage(v, state.1) {
                Some(u) => if has_tokens(u) { (record_usage_spec(state.0, u), state.1) } else { state },
                None => state,
            },
        },
    }
}

/// The state of a scan of a log after its lines, the first `skip` of them passed over.
pub open spec fn scan_lines(lines: Seq<Option<JsonView>>, skip: int) -> (Seq<UsageRecord>, Option<Seq<char>>)
    decreases lines.len(),
{
    if lines.len() == 0 {
        (Seq::empty(), None)
    } else {
        let prev = scan_lines(lines.drop_last(), skip);
        if lines.len() <= skip {
            prev
        } else {
            scan_step(prev, lines.last())
        }
    }
}

/// Whether each message id occurs at most once in a table.
pub open spec fn unique_ids(table: Seq<UsageRecord>) -> bool {
    forall|i: int, j: int| 0 <= i < j < table.len() ==> table[i].message_id != table[j].message_id
}

/// Whether every usage of a table counts a token.
pub open spec fn all_billable(table: Seq<UsageRecord>) -> bool {
    forall|i: int| 0 <= i < table.len() ==> has_tokens(#[trigger] table[i])
}

/// Offering a usage either leaves the table as it was, puts the usage in place of the
/// one with its id, or appends it when its id is new.
pub proof fn lemma_record_shape(table: Seq<UsageRecord>, u: UsageRecord)
    ensures
        record_usage_spec(table, u) == table
            || (exists|i: int| 0 <= i < table.len() && table[i].message_id == u.message_id
                && record_usage_spec(table, u) == table.update(i, u))
            || ((forall|j: int| 0 <= j < table.len() ==> table[j].message_id != u.message_id)
                && record_usage_spec(table, u) == table.push(u)),
    decreases table.len(),
{
    if table.len() == 0 {
        assert(seq![u] =~= table.push(u));
    } else if table[0].message_id == u.message_id {
        if should_replace_spec(Some(table[0]), u) {
            assert(table[0].message_id == u.message_id && record_usage_spec(table, u) == table.update(0, u));
        }
    } else {
        let rest = table.drop_first();
        lemma_record_shape(rest, u);
        let r = record_usage_spec(table, u);
        if record_usage_spec(rest, u) == rest {
            assert(r =~= table);
        } else if exists|i: int| 0 <= i < rest.len() && rest[i].message_id == u.message_id
                && record_usage_spec(rest, u) == rest.update(i, u) {
            let i = choose|i: int| 0 <= i < rest.len() && rest[i].message_id == u.message_id
                && record_usage_spec(rest, u) == rest.update(i, u);
            assert(r =~= table.update(i + 1, u));
            assert(table[i + 1].message_id == u.message_id);
        } else {
            assert(r =~= table.push(u));
            assert forall|j: int| 0 <= j < table.len() implies table[j].message_id != u.message_id by {
                if j > 0 {
                    assert(table[j] == rest[j - 1]);
                }
            }
        }
    }
}

/// Deduplication by message id: after a usage is offered, its id keeps the usage that
/// `should_replace_spec` prefers, every other id keeps what it had, each id still
/// occurs once, and a table of usages with tokens stays so when the new one has some.
pub proof fn law_record_usage(table: Seq<UsageRecord>, u: UsageRecord, other: Seq<char>)
    ensures
        kept_usage(record_usage_spec(table, u), u.message_id) == if should_replace_spec(kept_usage(table, u.message_id), u) {
            Some(u)
        } else {
            kept_usage(table, u.message_id)
        },
        other != u.message_id ==> kept_usage(record_usage_spec(table, u), other) == kept_usage(table, other),
        unique_ids(table) ==> unique_ids(record_usage_spec(table, u)),
        all_billable(table) && has_tokens(u) ==> all_billable(record_usage_spec(table, u)),
    decreases table.len(),
{
    let r = record_usage_spec(table, u);
    if table.len() == 0 {
        assert(r.drop_first() =~= Seq::<UsageRecord>::empty());
        if other != u.message_id {
            assert(kept_usage(r, other) == kept_usage(r.drop_first(), other));
        }
    } else if table[0].message_id == u.message_id {
        assert(r.drop_first() =~= table.drop_first());
        if other != u.message_id {
            assert(kept_usage(r, other) == kept_usage(r.drop_first(), other));
            assert(kept_usage(table, other) == kept_usage(table.drop_first(), other));
        }
        if unique_ids(table) {
            assert forall|i: int, j: int| 0 <= i < j < r.len() implies r[i].message_id != r[j].message_id by {
                assert(r[i].message_id == table[i].message_id);
                assert(r[j].message_id == table[j].message_id);
            }
        }
    } else {
        let rest = table.drop_first();
        law_record_usage(rest, u, other);
        assert(r[0] == table[0]);
        assert(r.drop_first() =~= record_usage_spec(rest, u));
        assert(kept_usage(r, u.message_id) == kept_usage(r.drop_first(), u.message_id));
        if other != u.message_id && table[0].message_id != other {
            assert(kept_usage(r, other) == kept_usage(r.drop_first(), other));
        }
        if unique_ids(table) {
            assert(unique_ids(rest)) by {
                assert forall|i: int, j: int| 0 <= i < j < rest.len() implies rest[i].message_id != rest[j].message_id by {
                    assert(rest[i] == table[i + 1]);
                    assert(rest[j] == table[j + 1]);
                }
            }
            lemma_record_shape(rest, u);
            assert forall|i: int, j: int| 0 <= i < j < r.len() implies r[i].message_id != r[j].message_id by {
                if i == 0 {
                    let rr = record_usage_spec(rest, u);
                    assert(r[j] == rr[j - 1]);
                    if rr == rest {
                        assert(rest[j - 1] == table[j]);
                    } else if exists|k: int| 0 <= k < rest.len() && rest[k].message_id == u.message_id
                            && rr == rest.update(k, u) {
                        let k = choose|k: int| 0 <= k < rest.len() && rest[k].message_id == u.message_id
                            && rr == rest.update(k, u);
                        if j - 1 == k {
                            assert(rest[k] == table[k + 1]);
                        } else {
                            assert(rest[j - 1] == table[j]);
                        }
                    } else {
                        if j - 1 < rest.len() {
                            assert(rest[j - 1] == table[j]);
                        }
                    }
                } else {
                    assert(r[i] == record_usage_spec(rest, u)[i - 1]);
                    assert(r[j] == record_usage_spec(rest, u)[j - 1]);
                }
            }
        }
        if all_billable(table) && has_tokens(u) {
            assert(all_billable(rest)) by {
                assert forall|i: int| 0 <= i < rest.len() implies has_tokens(#[trigger] rest[i]) by {
                    assert(rest[i] == table[i + 1]);
                }
            }
            assert forall|i: int| 0 <= i < r.len() implies has_tokens(#[trigger] r[i]) by {
                if i > 0 {
                    assert(r[i] == record_usage_spec(rest, u)[i - 1]);
                }
            }
        }
    }
}

/// A scan keeps at most one usage per message id and only usages that count tokens.
pub proof fn law_scan_dedup(lines: Seq<Option<JsonView>>, skip: int)
    ensures
        unique_ids(scan_lines(lines, skip).0),
        all_billable(scan_lines(lines, skip).0),
    decreases lines.len(),
{
    if lines.len() > 0 {
        law_scan_dedup(lines.drop_last(), skip);
        let prev = scan_lines(lines.drop_last(), skip);
        match lines.last() {
            Some(v) => match line_usage(v, prev.1) {
                Some(u) => {
                    law_record_usage(prev.0, u, u.message_id);
                },
                None => {},
            },
            None => {},
        }
    }
}

/// Lines that an earlier sync has read contribute nothing: a scan that passes over
/// every line keeps no usage.
pub proof fn law_scan_skips_read_lines(lines: Seq<Option<JsonView>>, skip: int)
    requires
        skip >= lines.len(),
    ensures
        scan_lines(lines, skip).0.len() == 0,
        scan_lines(lines, skip).1 is None,
    decreases lines.len(),
{
    if lines.len() > 0 {
        law_scan_skips_read_lines(lines.drop_last(), skip);
    }
}

/// The message ids of a table.
pub open spec fn table_ids(table: Seq<UsageRecord>) -> Set<Seq<char>> {
    table.map_values(|u: UsageRecord| u.message_id).to_set()
}

/// The ids of the assistant messages with a usage that counts tokens on the lines of a
/// log after the first `skip`.
pub open spec fn counted_ids(lines: Seq<Option<JsonView>>, skip: int) -> Set<Seq<char>>
    decreases lines.len(),
{
    if lines.len() == 0 {
        Set::empty()
    } else {
        let prev = counted_ids(lines.drop_last(), skip);
        if lines.len() <= skip {
            prev
        } else {
            match lines.last() {
                None => prev,
                Some(v) => if session_header(v) is Some {
                    prev
                } else {
                    match line_usage(v, scan_lines(lines.drop_last(), skip).1) {
                        Some(u) => if has_tokens(u) { prev.insert(u.message_id) } else { prev },
                        None => prev,
                    }
                },
            }
        }
    }
}

/// Offering a usage adds its id to the ids of the table.
pub proof fn lemma_record_ids(table: Seq<UsageRecord>, u: UsageRecord)
    ensures
        table_ids(record_usage_spec(table, u)) == table_ids(table).insert(u.message_id),
    decreases table.len(),
{
    let r = record_usage_spec(table, u);
    let f = |x: UsageRecord| x.message_id;
    if table.len() == 0 {
        assert(r.map_values(f) =~= seq![u.message_id]);
        assert(table.map_values(f) =~= Seq::<Seq<char>>::empty());
        assert(r.map_values(f)[0] == u.message_id);
        assert(table_ids(r) =~= table_ids(table).insert(u.message_id));
    } else if table[0].message_id == u.message_id {
        assert(r.map_values(f) =~= table.map_values(f));
        assert(table.map_values(f)[0] == u.message_id);
        assert(table_ids(r) =~= table_ids(table).insert(u.message_id));
    } else {
        let rest = table.drop_first();
        lemma_record_ids(rest, u);
        let rr = record_usage_spec(rest, u);
        assert(r.map_values(f) =~= seq![table[0].message_id] + rr.map_values(f));
        assert(table.map_values(f) =~= seq![table[0].message_id] + rest.map_values(f));
        assert forall|id: Seq<char>| table_ids(r).contains(id) <==> table_ids(table).insert(u.message_id).contains(id) by {
            let a = seq![table[0].message_id];
            if table_ids(r).contains(id) {
                let i = choose|i: int| 0 <= i < r.map_values(f).len() && r.map_values(f)[i] == id;
                if i > 0 {
                    assert(rr.map_values(f)[i - 1] == id);
                    assert(table_ids(rr).contains(id));
                    if id != u.message_id {
                        assert(table_ids(rest).contains(id));
                        let j = choose|j: int| 0 <= j < rest.map_values(f).len() && rest.map_values(f)[j] == id;
                        assert(table.map_values(f)[j + 1] == id);
                    }
                } else {
                    assert(table.map_values(f)[0] == id);
                }
            }
            if table_ids(table).insert(u.message_id).contains(id) {
                if id == u.message_id {
                    assert(table_ids(rr).contains(id));
                    let j = choose|j: int| 0 <= j < rr.map_values(f).len() && rr.map_values(f)[j] == id;
                    assert(r.map_values(f)[j + 1] == id);
                } else {
                    let i = choose|i: int| 0 <= i < table.map_values(f).len() && table.map_values(f)[i] == id;
                    if i > 0 {
                        assert(rest.map_values(f)[i - 1] == id);
                        assert(table_ids(rest).contains(id));
                        assert(table_ids(rr).contains(id));
                        let j = choose|j: int| 0 <= j < rr.map_values(f).len() && rr.map_values(f)[j] == id;
                        assert(r.map_values(f)[j + 1] == id);
                    } else {
                        assert(r.map_values(f)[0] == id);
                    }
                }
            }
        }
        assert(table_ids(r) =~= table_ids(table).insert(u.message_id));
    }
}

/// A scan keeps one usage for each id of an assistant message with a usage that counts
/// tokens on the new lines, and no other: the usages kept are as many as those ids.
pub proof fn law_scan_counts_distinct_ids(lines: Seq<Option<JsonView>>, skip: int)
    ensures
        table_ids(scan_lines(lines, skip).0) == counted_ids(lines, skip),
        scan_lines(lines, skip).0.len() == counted_ids(lines, skip).len(),
    decreases lines.len(),
{
    let table = scan_lines(lines, skip).0;
    if lines.len() == 0 {
        assert(table_ids(table) =~= Set::<Seq<char>>::empty());
    } else {
        law_scan_counts_distinct_ids(lines.drop_last(), skip);
        let prev = scan_lines(lines.drop_last(), skip);
        if lines.len() > skip {
            match lines.last() {
                Some(v) => if session_header(v) is None {
                    match line_usage(v, prev.1) {
                        Some(u) => if has_tokens(u) {
                            lemma_record_ids(prev.0, u);
                        },
                        None => {},
                    }
                },
                None => {},
            }
        }
    }
    law_scan_dedup(lines, skip);
    let ids = table.map_values(|u: UsageRecord| u.message_id);
    assert(ids.no_duplicates()) by {
        assert forall|i: int, j: int| 0 <= i < ids.len() && 0 <= j < ids.len() && i != j implies ids[i] != ids[j] by {
            if i < j {
                assert(table[i].message_id != table[j].message_id);
            } else {
                assert(table[j].message_id != table[i].message_id);
            }
        }
    }
    ids.unique_seq_to_set();
}

/// The views of the usages of a table.
pub open spec fn table_view(table: Seq<PiAgentAssistantUsage>) -> Seq<UsageRecord> {
    Seq::new(table.len(), |i: int| table[i].view())
}

/// The views of the parsed lines of a log.
pub open spec fn lines_view(lines: Seq<Option<JsonValue>>) -> Seq<Option<JsonView>> {
    Seq::new(lines.len(), |i: int| match lines[i] {
        Some(v) => Some(v.view()),
        None => None,
    })
}

/// Whether a new usage takes the place of the one kept so far, as `should_replace_spec`
/// describes.
pub fn should_replace(existing: Option<&PiAgentAssistantUsage>, parsed: &PiAgentAssistantUsage) -> (replace: bool)
    ensures
        replace == should_replace_spec(
            match existing { Some(e) => Some(e.view()), None => None },
            parsed.view(),
        ),
{
    match existing {
        None => true,
        Some(e) => {
            if parsed.stop_reason.is_some() && e.stop_reason.is_none() {
                true
            } else if parsed.stop_reason.is_some() == e.stop_reason.is_some() {
                parsed.output_tokens > e.output_tokens
            } else {
                false
            }
        },
    }
}

/// Whether a usage counts any token.
pub fn has_billable_tokens(msg: &PiAgentAssistantUsage) -> (billable: bool)
    ensures
        billable == has_tokens(msg.view()),
{
    msg.input_tokens > 0 || msg.output_tokens > 0 || msg.cache_read_tokens > 0 || msg.cache_creation_tokens > 0
}

/// Offers a usage to the table of kept usages, one per message id.
pub fn record_usage(table: &mut Vec<PiAgentAssistantUsage>, parsed: PiAgentAssistantUsage)
    ensures
        table_view(final(table)@) == record_usage_spec(table_view(old(table)@), parsed.view()),
{
    let ghost before = table_view(table@);
    let ghost u = parsed.view();
    let mut i: usize = 0;
    assert(before.skip(0) =~= before);
    assert(before.take(0) =~= Seq::<UsageRecord>::empty());
    while i < table.len()
        invariant
            i <= table@.len(),
            before == table_view(table@),
            table@ == old(table)@,
            u == parsed.view(),
            record_usage_spec(before, u) == before.take(i as int) + record_usage_spec(before.skip(i as int), u),
        decreases table@.len() - i,
    {
        let ghost rest = before.skip(i as int);
        assert(rest[0] == table@[i as int].view());
        if table[i].message_id == parsed.message_id {
            assert(rest.len() > 0 && rest[0].message_id == u.message_id);
            if should_replace(Some(&table[i]), &parsed) {
                assert(record_usage_spec(rest, u) == rest.update(0, u));
                table.set(i, parsed);
                proof {
                    assert(table_view(table@) =~= before.take(i as int) + rest.update(0, u));
                }
            } else {
                assert(record_usage_spec(rest, u) == rest);
                proof {
                    assert(before =~= before.take(i as int) + rest);
                }
            }
            return;
        }
        proof {
            assert(rest.drop_first() =~= before.skip(i + 1));
            assert(before.take(i + 1) =~= before.take(i as int) + seq![rest[0]]);
        }
        i = i + 1;
    }
    table.push(parsed);
    proof {
        assert(before.skip(i as int) =~= Seq::<UsageRecord>::empty());
        assert(before.take(i as int) =~= before);
        assert(table_view(table@) =~= before.push(u));
    }
}

/// The outcome of scanning a log: the kept usages and the number of lines read.
#[derive(Debug)]
pub struct SessionScan {
    pub messages: Vec<PiAgentAssistantUsage>,
    pub line_offset: i64,
}

/// Scans the lines of a log (`None` for a line that could not be read or parsed),
/// passing over the first `last_offset` lines, which an earlier sync has read.
pub fn scan_session_lines(lines: &Vec<Option<JsonValue>>, last_offset: i64) -> (scan: SessionScan)
    requires
        lines@.len() < i64::MAX,
    ensures
        table_view(scan.messages@) == scan_lines(lines_view(lines@), last_offset as int).0,
        scan.line_offset == lines@.len(),
{
    let ghost all = lines_view(lines@);
    let mut messages: Vec<PiAgentAssistantUsage> = Vec::new();
    let mut current_session_id: Option<String> = None;
    let mut line_offset: i64 = 0;
    let mut i: usize = 0;
    proof {
        assert(all.take(0) =~= Seq::<Option<JsonView>>::empty());
        assert(table_view(messages@) =~= Seq::<UsageRecord>::empty());
    }
    while i < lines.len()
        invariant
            i <= lines@.len(),
            lines@.len() < i64::MAX,
            all == lines_view(lines@),
            line_offset == i,
            (table_view(messages@), opt_str(current_session_id)) == scan_lines(all.take(i as int), last_offset as int),
        decreases lines@.len() - i,
    {
        proof {
            assert(all.take(i + 1).drop_last() =~= all.take(i as int));
            assert(all.take(i + 1).last() == all[i as int]);
        }
        line_offset = line_offset + 1;
        if line_offset > last_offset {
            match &lines[i] {
                None => {},
                Some(value) => {
                    match parse_line(value, &current_session_id) {
                        LineEvent::Session(id) => {
                            current_session_id = Some(id);
                        },
                        LineEvent::Usage(parsed) => {
                            if has_billable_tokens(&parsed) {
                                record_usage(&mut messages, parsed);
                            }
                        },
                        LineEvent::Skip => {},
                    }
                },
            }
        }
        i = i + 1;
    }
    proof {
        assert(all.take(i as int) =~= all);
    }
    SessionScan { messages, line_offset }
}

/// What a sync of one log keeps: nothing to do (`None`) when the file has not changed
/// since the last sync, else the usages a scan of its lines keeps from the offset
/// reached last time.
pub open spec fn sync_file_spec(
    file_modified: i64,
    last_modified: i64,
    last_offset: i64,
    lines: Seq<Option<JsonView>>,
) -> Option<Seq<UsageRecord>> {
    if file_modified <= last_modified {
        None
    } else {
        Some(scan_lines(lines, last_offset as int).0)
    }
}

/// A sync leaves as its state the file's modification time and the number of lines
/// it read. Syncing the same lines again from that state keeps no usage: the file is
/// not scanned while its time is unchanged, and when it is scanned, the lines already
/// read are passed over.
pub proof fn law_resync_keeps_nothing(file_modified: i64, later_modified: i64, lines: Seq<Option<JsonView>>)
    requires
        lines.len() < i64::MAX,
    ensures
        later_modified <= file_modified ==> sync_file_spec(later_modified, file_modified, lines.len() as i64, lines) is None,
        sync_file_spec(later_modified, file_modified, lines.len() as i64, lines) matches Some(t) ==> t.len() == 0,
{
    law_scan_skips_read_lines(lines, lines.len() as int);
}

/// Syncs one log: nothing to do when the file has not changed since the last sync
/// (`None`); otherwise the scan of its lines from the offset reached last time.
pub fn sync_single_file(file_modified: i64, last_modified: i64, last_offset: i64, lines: &Vec<Option<JsonValue>>) -> (scan: Option<SessionScan>)
    requires
        lines@.len() < i64::MAX,
    ensures
        match scan {
            None => sync_file_spec(file_modified, last_modified, last_offset, lines_view(lines@)) is None,
            Some(s) => sync_file_spec(file_modified, last_modified, last_offset, lines_view(lines@))
                == Some(table_view(s.messages@)),
        },
        file_modified <= last_modified ==> scan is None,
        file_modified > last_modified ==> scan is Some
            && table_view(scan->0.messages@) == scan_lines(lines_view(lines@), last_offset as int).0
            && scan->0.line_offset == lines@.len(),
{
    if file_modified <= last_modified {
        return None;
    }
    Some(scan_session_lines(lines, last_offset))
}

/// The seconds since the Unix epoch of an RFC 3339 timestamp, as chrono's
/// `DateTime::parse_from_rfc3339(..).timestamp()` gives it; nothing for text that is
/// not such a timestamp.
pub uninterp spec fn rfc3339_timestamp(text: Seq<char>) -> Option<i64>;

/// chrono's `DateTime::<FixedOffset>::parse_from_rfc3339`, then `timestamp`. Claimed:
/// the result is `rfc3339_timestamp` of the text, a function of the text alone;
/// which texts parse and to what is not stated.
#[verifier::external_body]
fn parse_rfc3339_timestamp(text: &str) -> (seconds: Option<i64>)
    ensures
        seconds == rfc3339_timestamp(text@),
{
    chrono::DateTime::parse_from_rfc3339(text).ok().map(|dt| dt.timestamp())
}

/// The creation time of a log row: the message's timestamp when it parses, else `now`.
pub open spec fn created_at_spec(timestamp: Option<Seq<char>>, now: i64) -> i64 {
    match timestamp {
        Some(t) => match rfc3339_timestamp(t) {
            Some(s) => s,
            None => now,
        },
        None => now,
    }
}

/// A log row is dated by its message's timestamp when that parses as RFC 3339, and by
/// the current time otherwise: the current time plays no part when the timestamp
/// parses, and two messages whose timestamps parse to the same second are dated alike.
pub proof fn law_created_at_prefers_timestamp(timestamp: Seq<char>, now: i64, later: i64)
    ensures
        rfc3339_timestamp(timestamp) matches Some(t) ==> created_at_spec(Some(timestamp), now) == t,
        rfc3339_timestamp(timestamp) is Some ==> created_at_spec(Some(timestamp), now) == created_at_spec(Some(timestamp), later),
        rfc3339_timestamp(timestamp) is None ==> created_at_spec(Some(timestamp), now) == now,
        created_at_spec(None, now) == now,
{
}

/// The creation time of a log row from the parsed timestamp, `now` when there is none.
pub fn created_at_from(parsed: Option<i64>, now: i64) -> (created_at: i64)
    ensures
        created_at == match parsed {
            Some(s) => s,
            None => now,
        },
{
    match parsed {
        Some(s) => s,
        None => now,
    }
}

/// The creation time of the log row of a message; `now` is the current Unix time.
pub fn created_at_for(timestamp: &Option<String>, now: i64) -> (created_at: i64)
    ensures
        created_at == created_at_spec(opt_str(*timestamp), now),
{
    match timestamp {
        Some(t) => created_at_from(parse_rfc3339_timestamp(t.as_str()), now),
        None => now,
    }
}

/// The request id of the log row of a message: `pi_agent_session:` and the message id.
pub fn session_request_id(message_id: &str) -> (request_id: String)
    ensures
        request_id@ == "pi_agent_session:"@ + message_id@,
{
    let mut request_id = String::from_str("pi_agent_session:");
    request_id.append(message_id);
    request_id
}

/// The costs of a message in US dollars, as decimal text, from the model's pricing.
#[derive(Debug)]
pub struct UsageCosts {
    pub input_cost: String,
    pub output_cost: String,
    pub cache_read_cost: String,
    pub cache_creation_cost: String,
    pub total_cost: String,
}

/// A row of the `proxy_request_logs` table for one message of a session log.
#[derive(Debug)]
pub struct SessionLogRow {
    pub request_id: String,
    pub provider_id: String,
    pub app_type: String,
    pub model: String,
    pub request_model: String,
    pub input_tokens: u32,
    pub output_tokens: u32,
    pub cache_read_tokens: u32,
    pub cache_creation_tokens: u32,
    pub input_cost_usd: String,
    pub output_cost_usd: String,
    pub cache_read_cost_usd: String,
    pub cache_creation_cost_usd: String,
    pub total_cost_usd: String,
    pub latency_ms: i64,
    pub first_token_ms: Option<i64>,
    pub status_code: i64,
    pub error_message: Option<String>,
    pub session_id: Option<String>,
    pub provider_type: Option<String>,
    pub is_streaming: i64,
    pub cost_multiplier: String,
    pub created_at: i64,
    pub data_source: String,
}

/// Whether `row` is the log row of a message: the request id; its provider, or
/// `_pi_agent_session` when it names none; app type `pi-agent`; its model as model and
/// request model; its token counts; the costs, all `0` when the model has no pricing;
/// latency 0, status 200, no error; its session; provider type and data source
/// `pi_agent_session`; streaming; multiplier `1.0`; and the creation time.
pub open spec fn is_log_row_of(
    row: SessionLogRow,
    request_id: Seq<char>,
    msg: PiAgentAssistantUsage,
    created_at: i64,
    costs: Option<UsageCosts>,
) -> bool {
    &&& row.request_id@ == request_id
    &&& row.provider_id@ == match msg.provider {
        Some(p) => p@,
        None => "_pi_agent_session"@,
    }
    &&& row.app_type@ == "pi-agent"@
    &&& row.model@ == msg.model@
    &&& row.request_model@ == msg.model@
    &&& row.input_tokens == msg.input_tokens
    &&& row.output_tokens == msg.output_tokens
    &&& row.cache_read_tokens == msg.cache_read_tokens
    &&& row.cache_creation_tokens == msg.cache_creation_tokens
    &&& match costs {
        Some(c) => row.input_cost_usd@ == c.input_cost@ && row.output_cost_usd@ == c.output_cost@
            && row.cache_read_cost_usd@ == c.cache_read_cost@ && row.cache_creation_cost_usd@ == c.cache_creation_cost@
            && row.total_cost_usd@ == c.total_cost@,
        None => row.input_cost_usd@ == "0"@ && row.output_cost_usd@ == "0"@ && row.cache_read_cost_usd@ == "0"@
            && row.cache_creation_cost_usd@ == "0"@ && row.total_cost_usd@ == "0"@,
    }
    &&& row.latency_ms == 0
    &&& row.first_token_ms is None
    &&& row.status_code == 200
    &&& row.error_message is None
    &&& opt_str(row.session_id) == opt_str(msg.session_id)
    &&& opt_str(row.provider_type) == Some("pi_agent_session"@)
    &&& row.is_streaming == 1
    &&& row.cost_multiplier@ == "1.0"@
    &&& row.created_at == created_at
    &&& row.data_source@ == "pi_agent_session"@
}

/// A log row records the message it is built from: each token column holds the
/// same-named count of the message, the model column its model, the session column its
/// session, and the request id and creation time are those given.
pub proof fn law_log_row_records_message(
    row: SessionLogRow,
    request_id: Seq<char>,
    msg: PiAgentAssistantUsage,
    created_at: i64,
    costs: Option<UsageCosts>,
)
    requires
        is_log_row_of(row, request_id, msg, created_at, costs),
    ensures
        row.input_tokens == msg.input_tokens,
        row.output_tokens == msg.output_tokens,
        row.cache_read_tokens == msg.cache_read_tokens,
        row.cache_creation_tokens == msg.cache_creation_tokens,
        row.model@ == msg.model@,
        row.request_model@ == msg.model@,
        opt_str(row.session_id) == opt_str(msg.session_id),
        row.request_id@ == request_id,
        row.created_at == created_at,
{
}

/// The log row of a message, as `is_log_row_of` describes it.
pub fn session_log_row(request_id: &str, msg: &PiAgentAssistantUsage, created_at: i64, costs: Option<UsageCosts>) -> (row: SessionLogRow)
    ensures
        is_log_row_of(row, request_id@, *msg, created_at, costs),
        row.request_id@ == request_id@,
        row.model@ == msg.model@,
        row.input_tokens == msg.input_tokens,
        row.output_tokens == msg.output_tokens,
        row.cache_read_tokens == msg.cache_read_tokens,
        row.cache_creation_tokens == msg.cache_creation_tokens,
        row.created_at == created_at,
{
    let provider_id = match &msg.provider {
        Some(p) => p.clone(),
        None => String::from_str("_pi_agent_session"),
    };
    let (input_cost, output_cost, cache_read_cost, cache_creation_cost, total_cost) = match costs {
        Some(c) => (c.input_cost, c.output_cost, c.cache_read_cost, c.cache_creation_cost, c.total_cost),
        None => (String::from_str("0"), String::from_str("0"), String::from_str("0"), String::from_str("0"), String::from_str("0")),
    };
    SessionLogRow {
        request_id: String::from_str(request_id),
        provider_id,
        app_type: String::from_str("pi-agent"),
        model: msg.model.clone(),
        request_model: msg.model.clone(),
        input_tokens: msg.input_tokens,
        output_tokens: msg.output_tokens,
        cache_read_tokens: msg.cache_read_tokens,
        cache_creation_tokens: msg.cache_creation_tokens,
        input_cost_usd: input_cost,
        output_cost_usd: output_cost,
        cache_read_cost_usd: cache_read_cost,
        cache_creation_cost_usd: cache_creation_cost,
        total_cost_usd: total_cost,
        latency_ms: 0,
        first_token_ms: None,
        status_code: 200,
        error_message: None,
        session_id: match &msg.session_id {
            Some(s) => Some(s.clone()),
            None => None,
        },
        provider_type: Some(String::from_str("pi_agent_session")),
        is_streaming: 1,
        cost_multiplier: String::from_str("1.0"),
        created_at,
        data_source: String::from_str("pi_agent_session"),
    }
}

/// The positions, in order, of the usages of a table that count a token.
pub open spec fn billable_positions(table: Seq<UsageRecord>) -> Seq<int>
    decreases table.len(),
{
    if table.len() == 0 {
        Seq::empty()
    } else {
        let prev = billable_positions(table.drop_last());
        if has_tokens(table.last()) { prev.push(table.len() - 1) } else { prev }
    }
}

/// Positions are in range and point at usages that count a token.
proof fn lemma_billable_positions(table: Seq<UsageRecord>)
    ensures
        billable_positions(table).len() <= table.len(),
        forall|j: int| 0 <= j < billable_positions(table).len() ==> {
            let p = #[trigger] billable_positions(table)[j];
            0 <= p < table.len() && has_tokens(table[p])
        },
        all_billable(table) ==> billable_positions(table) == Seq::new(table.len(), |j: int| j),
    decreases table.len(),
{
    if table.len() > 0 {
        let t = table.drop_last();
        lemma_billable_positions(t);
        if all_billable(table) {
            assert(all_billable(t)) by {
                assert forall|i: int| 0 <= i < t.len() implies has_tokens(#[trigger] t[i]) by {
                    assert(t[i] == table[i]);
                }
            }
            assert(has_tokens(table[table.len() - 1]));
            assert(billable_positions(table) =~= Seq::new(table.len(), |j: int| j));
        }
    }
}

/// A scan yields one log row for each id of an assistant message with a usage that
/// counts tokens on the new lines: every usage it keeps counts a token, so the rows
/// are as many as those ids, the j-th row for the j-th usage kept.
pub proof fn law_one_row_per_counted_id(lines: Seq<Option<JsonView>>, skip: int)
    ensures
        billable_positions(scan_lines(lines, skip).0) == Seq::new(scan_lines(lines, skip).0.len(), |j: int| j),
        billable_positions(scan_lines(lines, skip).0).len() == counted_ids(lines, skip).len(),
{
    law_scan_dedup(lines, skip);
    law_scan_counts_distinct_ids(lines, skip);
    lemma_billable_positions(scan_lines(lines, skip).0);
}

/// The log rows of the usages kept by a scan: one for each usage that counts a token,
/// in order, with request id `pi_agent_session:` and its message id, the creation time
/// of its timestamp (`now` when it has none that parses), and the costs computed for
/// it (`costs[i]` for the i-th usage).
pub fn session_log_rows(messages: &Vec<PiAgentAssistantUsage>, now: i64, costs: Vec<Option<UsageCosts>>) -> (rows: Vec<SessionLogRow>)
    requires
        costs@.len() == messages@.len(),
    ensures
        rows@.len() == billable_positions(table_view(messages@)).len(),
        forall|j: int| #![trigger rows@[j]] 0 <= j < rows@.len() ==> {
            let i = billable_positions(table_view(messages@))[j];
            is_log_row_of(rows@[j], "pi_agent_session:"@ + messages@[i].message_id@, messages@[i],
                created_at_spec(opt_str(messages@[i].timestamp), now), costs@[i])
        },
{
    let ghost all_costs = costs@;
    let ghost table = table_view(messages@);
    let mut costs = costs;
    let mut rows: Vec<SessionLogRow> = Vec::new();
    let mut i: usize = 0;
    while i < messages.len()
        invariant
            i <= messages@.len(),
            all_costs.len() == messages@.len(),
            table == table_view(messages@),
            costs@ == all_costs.skip(i as int),
            rows@.len() == billable_positions(table.take(i as int)).len(),
            forall|j: int| #![trigger rows@[j]] 0 <= j < rows@.len() ==> {
                let k = billable_positions(table.take(i as int))[j];
                is_log_row_of(rows@[j], "pi_agent_session:"@ + messages@[k].message_id@, messages@[k],
                    created_at_spec(opt_str(messages@[k].timestamp), now), all_costs[k])
            },
        decreases messages@.len() - i,
    {
        proof {
            assert(table.take(i + 1).drop_last() =~= table.take(i as int));
            assert(table.take(i + 1).last() == messages@[i as int].view());
        }
        let cost = costs.remove(0);
        proof {
            assert(costs@ =~= all_costs.skip(i + 1));
        }
        let msg = &messages[i];
        if has_billable_tokens(msg) {
            let request_id = session_request_id(msg.message_id.as_str());
            let row = session_log_row(request_id.as_str(), msg, created_at_for(&msg.timestamp, now), cost);
            rows.push(row);
        }
        i = i + 1;
    }
    proof {
        assert(table.take(i as int) =~= table);
    }
    rows
}

/// What became of the insertion of one log row.
#[derive(Debug)]
pub enum InsertOutcome {
    /// The row was inserted (or an identical request id was already there).
    Inserted,
    /// A matching row from the proxy log was found, so the row was not inserted.
    Duplicate,
    /// The insertion failed with this error.
    Failed(String),
}

/// The number of rows inserted among the outcomes.
pub open spec fn inserted_count(outcomes: Seq<InsertOutcome>) -> nat
    decreases outcomes.len(),
{
    if outcomes.len() == 0 {
        0
    } else {
        inserted_count(outcomes.drop_last()) + if outcomes.last() is Inserted { 1nat } else { 0nat }
    }
}

/// Counts the rows imported and skipped: a failed insertion counts as skipped.
pub fn count_insert_outcomes(outcomes: &Vec<InsertOutcome>) -> (counts: (u32, u32))
    requires
        outcomes@.len() <= u32::MAX,
    ensures
        counts.0 == inserted_count(outcomes@),
        counts.0 + counts.1 == outcomes@.len(),
{
    let mut imported: u32 = 0;
    let mut skipped: u32 = 0;
    let mut i: usize = 0;
    while i < outcomes.len()
        invariant
            i <= outcomes@.len(),
            outcomes@.len() <= u32::MAX,
            imported == inserted_count(outcomes@.take(i as int)),
            imported + skipped == i,
        decreases outcomes@.len() - i,
    {
        proof {
            assert(outcomes@.take(i + 1).drop_last() =~= outcomes@.take(i as int));
        }
        match &outcomes[i] {
            InsertOutcome::Inserted => {
                imported = imported + 1;
            },
            _ => {
                skipped = skipped + 1;
            },
        }
        i = i + 1;
    }
    proof {
        assert(outcomes@.take(i as int) =~= outcomes@);
    }
    (imported, skipped)
}

/// The totals of a sync of all session logs.
#[derive(Debug)]
pub struct SessionSyncResult {
    pub imported: u32,
    pub skipped: u32,
    pub files_scanned: u32,
    pub errors: Vec<String>,
}

/// The rows imported over the logs that synced.
pub open spec fn imported_total(outcomes: Seq<Result<(u32, u32), String>>) -> int
    decreases outcomes.len(),
{
    if outcomes.len() == 0 {
        0
    } else {
        imported_total(outcomes.drop_last()) + match outcomes.last() {
            Ok(counts) => counts.0 as int,
            Err(_) => 0,
        }
    }
}

/// The rows skipped over the logs that synced.
pub open spec fn skipped_total(outcomes: Seq<Result<(u32, u32), String>>) -> int
    decreases outcomes.len(),
{
    if outcomes.len() == 0 {
        0
    } else {
        skipped_total(outcomes.drop_last()) + match outcomes.last() {
            Ok(counts) => counts.1 as int,
            Err(_) => 0,
        }
    }
}

/// The errors of the logs that did not sync, in order.
pub open spec fn error_messages(outcomes: Seq<Result<(u32, u32), String>>) -> Seq<Seq<char>>
    decreases outcomes.len(),
{
    if outcomes.len() == 0 {
        Seq::empty()
    } else {
        let prev = error_messages(outcomes.drop_last());
        match outcomes.last() {
            Ok(_) => prev,
            Err(e) => prev.push(e@),
        }
    }
}

/// A sync in which no log had anything new (each log synced with nothing imported
/// or skipped) reports nothing: no row imported or skipped and no error.
pub proof fn law_nothing_new_imports_nothing(outcomes: Seq<Result<(u32, u32), String>>)
    requires
        forall|i: int| 0 <= i < outcomes.len() ==> #[trigger] outcomes[i] == Ok::<(u32, u32), String>((0u32, 0u32)),
    ensures
        imported_total(outcomes) == 0,
        skipped_total(outcomes) == 0,
        error_messages(outcomes).len() == 0,
    decreases outcomes.len(),
{
    if outcomes.len() > 0 {
        let init = outcomes.drop_last();
        assert forall|i: int| 0 <= i < init.len() implies #[trigger] init[i] == Ok::<(u32, u32), String>((0u32, 0u32)) by {
            assert(init[i] == outcomes[i]);
        }
        law_nothing_new_imports_nothing(init);
        assert(outcomes.last() == outcomes[outcomes.len() - 1]);
    }
}

/// The views of a list of strings.
pub open spec fn strings_view(strings: Seq<String>) -> Seq<Seq<char>> {
    Seq::new(strings.len(), |i: int| strings[i]@)
}

/// Adds up the per-log outcomes of a sync: each log is counted as scanned; a log that
/// synced adds its imported and skipped rows, one that failed adds its error.
pub fn sync_pi_agent_usage(file_outcomes: &Vec<Result<(u32, u32), String>>) -> (result: SessionSyncResult)
    requires
        file_outcomes@.len() <= u32::MAX,
        forall|k: int| 0 <= k <= file_outcomes@.len() ==> #[trigger] imported_total(file_outcomes@.take(k)) <= u32::MAX,
        forall|k: int| 0 <= k <= file_outcomes@.len() ==> #[trigger] skipped_total(file_outcomes@.take(k)) <= u32::MAX,
    ensures
        result.imported == imported_total(file_outcomes@),
        result.skipped == skipped_total(file_outcomes@),
        result.files_scanned == file_outcomes@.len(),
        strings_view(result.errors@) == error_messages(file_outcomes@),
{
    let mut result = SessionSyncResult { imported: 0, skipped: 0, files_scanned: 0, errors: Vec::new() };
    let mut i: usize = 0;
    proof {
        assert(file_outcomes@.take(0) =~= Seq::<Result<(u32, u32), String>>::empty());
        assert(strings_view(result.errors@) =~= Seq::<Seq<char>>::empty());
    }
    while i < file_outcomes.len()
        invariant
            i <= file_outcomes@.len(),
            file_outcomes@.len() <= u32::MAX,
            forall|k: int| 0 <= k <= file_outcomes@.len() ==> #[trigger] imported_total(file_outcomes@.take(k)) <= u32::MAX,
            forall|k: int| 0 <= k <= file_outcomes@.len() ==> #[trigger] skipped_total(file_outcomes@.take(k)) <= u32::MAX,
            result.imported == imported_total(file_outcomes@.take(i as int)),
            result.skipped == skipped_total(file_outcomes@.take(i as int)),
            result.files_scanned == i,
            strings_view(result.errors@) == error_messages(file_outcomes@.take(i as int)),
        decreases file_outcomes@.len() - i,
    {
        proof {
            assert(file_outcomes@.take(i + 1).drop_last() =~= file_outcomes@.take(i as int));
            assert(imported_total(file_outcomes@.take(i + 1)) <= u32::MAX);
            assert(skipped_total(file_outcomes@.take(i + 1)) <= u32::MAX);
        }
        result.files_scanned = result.files_scanned + 1;
        match &file_outcomes[i] {
            Ok((imported, skipped)) => {
                result.imported = result.imported + *imported;
                result.skipped = result.skipped + *skipped;
            },
            Err(e) => {
                let ghost before = result.errors@;
                result.errors.push(e.clone());
                proof {
                    assert(strings_view(result.errors@) =~= strings_view(before).push(e@));
                }
            },
        }
        i = i + 1;
    }
    proof {
        assert(file_outcomes@.take(i as int) =~= file_outcomes@);
    }
    result
}

} // verus!
