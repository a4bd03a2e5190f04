//! The MCP server table that pi reads from its `mcp.json`: conversion of cc-switch's
//! unified server specs to the standard MCP format, and what each sync operation
//! writes.

use vstd::prelude::*;
use vstd::string::*;
use crate::paths::{join_path, join_spec};
use crate::json::{
    lemma_collect_unique, lemma_insert_unique, lemma_remove_unique, law_lookup_after_insert, law_lookup_after_remove,
    unique_keys, well_formed,
    clone_value, view_get, remove_member, remove_members, find_member, insert_member, lemma_object_view, lookup, members_view, opt_view, set_member,
    text_eq, JsonValue, JsonView,
};

verus! {

/// A server spec that cannot be converted.
#[derive(Debug)]
pub enum McpError {
    McpValidation(String),
}

impl McpError {
    /// The error's text.
    pub fn message(&self) -> (text: String)
        ensures
            match self {
                McpError::McpValidation(m) => text@ == m@,
            },
    {
        match self {
            McpError::McpValidation(m) => m.clone(),
        }
    }
}

/// What is to become of pi's `mcp.json` after an operation.
#[derive(Debug)]
pub enum McpFileAction {
    /// Leave the file as it is.
    Unchanged,
    /// Remove the file if it exists.
    Delete,
    /// Write this document to the file.
    Write(JsonValue),
}

/// `mcp.json` in pi's configuration directory.
pub fn get_mcp_config_path(pi_dir: &str) -> (path: String)
    ensures
        path@ == join_spec(pi_dir@, "mcp.json"@),
{
    proof { reveal_strlit("mcp.json"); }
    join_path(pi_dir, "mcp.json")
}

/// The members of a converted spec, built by setting each of `pairs` in turn.
pub open spec fn collect_members(pairs: Seq<(Seq<char>, JsonView)>) -> Seq<(Seq<char>, JsonView)> {
    pairs.fold_left(Seq::<(Seq<char>, JsonView)>::empty(), |acc: Seq<(Seq<char>, JsonView)>, m: (Seq<char>, JsonView)| insert_member(acc, m.0, m.1))
}

/// The transport a spec names in "type", "stdio" when it names none.
pub open spec fn transport_of(members: Seq<(Seq<char>, JsonView)>) -> Seq<char> {
    match lookup(members, "type"@) {
        Some(JsonView::Str(t)) => t,
        _ => "stdio"@,
    }
}

/// Sets `key` when the spec holds a string under it.
pub open spec fn keep_str(acc: Seq<(Seq<char>, JsonView)>, members: Seq<(Seq<char>, JsonView)>, key: Seq<char>) -> Seq<(Seq<char>, JsonView)> {
    match lookup(members, key) {
        Some(JsonView::Str(s)) => insert_member(acc, key, JsonView::Str(s)),
        _ => acc,
    }
}

/// Sets `key` when the spec holds a non-empty object under it.
pub open spec fn keep_nonempty_object(acc: Seq<(Seq<char>, JsonView)>, members: Seq<(Seq<char>, JsonView)>, key: Seq<char>) -> Seq<(Seq<char>, JsonView)> {
    match lookup(members, key) {
        Some(JsonView::Object(o)) => if o.len() > 0 { insert_member(acc, key, JsonView::Object(o)) } else { acc },
        _ => acc,
    }
}

/// The standard MCP members for the members of a unified spec.
pub open spec fn standard_members(members: Seq<(Seq<char>, JsonView)>) -> Seq<(Seq<char>, JsonView)> {
    let t = transport_of(members);
    if t == "stdio"@ {
        let with_command = keep_str(Seq::empty(), members, "command"@);
        let with_args = match lookup(members, "args"@) {
            Some(JsonView::Array(a)) => insert_member(with_command, "args"@, JsonView::Array(a)),
            _ => with_command,
        };
        keep_nonempty_object(with_args, members, "env"@)
    } else if t == "sse"@ || t == "http"@ {
        keep_nonempty_object(keep_str(Seq::empty(), members, "url"@), members, "headers"@)
    } else {
        collect_members(members)
    }
}

/// The standard MCP spec for a unified spec; nothing when the spec is not an object.
pub open spec fn standard_spec(spec: JsonView) -> Option<JsonView> {
    match spec {
        JsonView::Object(members) => Some(JsonView::Object(standard_members(members))),
        _ => None,
    }
}

/// The value of the first member with the key.
pub fn member_value<'a>(members: &'a Vec<(String, JsonValue)>, key: &str) -> (value: Option<&'a JsonValue>)
    ensures
        opt_view(value) == lookup(members_view(members@), key@),
{
    match find_member(members, key) {
        Some(i) => Some(&members[i].1),
        None => None,
    }
}

/// Converts a cc-switch unified MCP server spec to the standard MCP format: a stdio
/// server keeps its command, args and non-empty env; an sse or http server keeps its
/// url and non-empty headers; a spec of any other type is kept whole.
pub fn convert_to_standard_mcp_format(spec: &JsonValue) -> (result: Result<JsonValue, McpError>)
    ensures
        match result {
            Ok(v) => standard_spec(spec.view()) == Some(v.view()),
            Err(e) => standard_spec(spec.view()) is None
                && e->McpValidation_0@ == "MCP spec must be a JSON object"@,
        },
{
    let members = match spec {
        JsonValue::Object(members) => members,
        _ => {
            return Err(McpError::McpValidation(String::from_str("MCP spec must be a JSON object")));
        },
    };
    proof { lemma_object_view(*members); }
    let ghost ms = members_view(members@);
    let typ: &str = match member_value(members, "type") {
        Some(JsonValue::String(t)) => t.as_str(),
        _ => "stdio",
    };
    let mut result: Vec<(String, JsonValue)> = Vec::new();
    assert(members_view(result@) =~= Seq::<(Seq<char>, JsonView)>::empty());
    if text_eq(typ, "stdio") {
        if let Some(JsonValue::String(cmd)) = member_value(members, "command") {
            set_member(&mut result, String::from_str("command"), JsonValue::String(cmd.clone()));
        }
        if let Some(args) = member_value(members, "args") {
            if let JsonValue::Array(_) = args {
                set_member(&mut result, String::from_str("args"), clone_value(args));
            }
        }
        if let Some(env) = member_value(members, "env") {
            if let JsonValue::Object(env_members) = env {
                proof { lemma_object_view(*env_members); }
                if env_members.len() > 0 {
                    set_member(&mut result, String::from_str("env"), clone_value(env));
                }
            }
        }
        proof {
            reveal_strlit("command");
            reveal_strlit("args");
            reveal_strlit("env");
        }
    } else if text_eq(typ, "sse") || text_eq(typ, "http") {
        if let Some(JsonValue::String(url)) = member_value(members, "url") {
            set_member(&mut result, String::from_str("url"), JsonValue::String(url.clone()));
        }
        if let Some(headers) = member_value(members, "headers") {
            if let JsonValue::Object(header_members) = headers {
                proof { lemma_object_view(*header_members); }
                if header_members.len() > 0 {
                    set_member(&mut result, String::from_str("headers"), clone_value(headers));
                }
            }
        }
    } else {
        let mut i: usize = 0;
        while i < members.len()
            invariant
                i <= members@.len(),
                ms == members_view(members@),
                members_view(result@) == collect_members(ms.take(i as int)),
            decreases members@.len() - i,
        {
            proof {
                assert(ms.take(i + 1).drop_last() =~= ms.take(i as int));
            }
            set_member(&mut result, members[i].0.clone(), clone_value(&members[i].1));
            i = i + 1;
        }
        proof {
            assert(ms.take(i as int) =~= ms);
        }
    }
    let converted = JsonValue::Object(result);
    proof { lemma_object_view(result); }
    Ok(converted)
}

/// The servers that pi's `mcp.json` lists under "mcpServers", nothing when it lists none.
pub open spec fn document_servers(doc: JsonView) -> Seq<(Seq<char>, JsonView)> {
    match view_get(doc, "mcpServers"@) {
        Some(JsonView::Object(servers)) => servers,
        _ => Seq::empty(),
    }
}

/// The `mcp.json` document that lists the given servers.
pub open spec fn servers_document_view(servers: Seq<(Seq<char>, JsonView)>) -> JsonView {
    JsonView::Object(seq![("mcpServers"@, JsonView::Object(collect_members(servers)))])
}

/// The server table written for a set of enabled servers: each converted entry, the
/// entries that cannot be converted left out.
pub open spec fn enabled_servers(enabled: Seq<(Seq<char>, JsonView)>) -> Seq<(Seq<char>, JsonView)> {
    enabled.fold_left(Seq::<(Seq<char>, JsonView)>::empty(), |acc: Seq<(Seq<char>, JsonView)>, m: (Seq<char>, JsonView)|
        match standard_spec(m.1) {
            Some(c) => insert_member(acc, m.0, c),
            None => acc,
        })
}

/// Whether an action writes a document with the given view.
pub open spec fn writes(action: McpFileAction, doc: JsonView) -> bool {
    match action {
        McpFileAction::Write(d) => d.view() == doc,
        _ => false,
    }
}

/// A copy of a member list, built by setting each member in turn.
pub fn collect_copy(members: &Vec<(String, JsonValue)>) -> (copy: Vec<(String, JsonValue)>)
    ensures
        members_view(copy@) == collect_members(members_view(members@)),
{
    let ghost ms = members_view(members@);
    let mut copy: Vec<(String, JsonValue)> = Vec::new();
    assert(members_view(copy@) =~= Seq::<(Seq<char>, JsonView)>::empty());
    let mut i: usize = 0;
    while i < members.len()
        invariant
            i <= members@.len(),
            ms == members_view(members@),
            members_view(copy@) == collect_members(ms.take(i as int)),
        decreases members@.len() - i,
    {
        proof {
            assert(ms.take(i + 1).drop_last() =~= ms.take(i as int));
            assert(ms.take(0) =~= Seq::<(Seq<char>, JsonView)>::empty());
        }
        set_member(&mut copy, members[i].0.clone(), clone_value(&members[i].1));
        i = i + 1;
    }
    proof {
        assert(ms.take(i as int) =~= ms);
    }
    copy
}

/// The server table of a parsed `mcp.json`.
pub fn servers_from_document(doc: &JsonValue) -> (servers: Vec<(String, JsonValue)>)
    ensures
        members_view(servers@) == collect_members(document_servers(doc.view())),
{
    match doc.get("mcpServers") {
        Some(JsonValue::Object(servers)) => {
            proof { lemma_object_view(*servers); }
            collect_copy(servers)
        },
        _ => {
            let servers: Vec<(String, JsonValue)> = Vec::new();
            proof {
                assert(members_view(servers@) =~= Seq::<(Seq<char>, JsonView)>::empty());
                assert(Seq::<(Seq<char>, JsonView)>::empty().take(0) =~= Seq::<(Seq<char>, JsonView)>::empty());
            }
            servers
        },
    }
}

/// The `mcp.json` document for a server table.
pub fn servers_document(servers: &Vec<(String, JsonValue)>) -> (doc: JsonValue)
    ensures
        doc.view() == servers_document_view(members_view(servers@)),
{
    let copy = collect_copy(servers);
    proof { lemma_object_view(copy); }
    let table = JsonValue::Object(copy);
    let mut top: Vec<(String, JsonValue)> = Vec::new();
    assert(members_view(top@) =~= Seq::<(Seq<char>, JsonView)>::empty());
    set_member(&mut top, String::from_str("mcpServers"), table);
    proof {
        lemma_object_view(top);
        reveal_strlit("mcpServers");
        assert(members_view(top@) =~= seq![("mcpServers"@, JsonView::Object(collect_members(members_view(servers@))))]);
    }
    JsonValue::Object(top)
}

/// Adds one server to pi's table, converted to the standard format; a spec that cannot
/// be converted leaves the table as it was. The file is written in either case.
pub fn sync_single_server_to_pi(servers: &mut Vec<(String, JsonValue)>, server_id: &str, server_spec: &JsonValue) -> (action: McpFileAction)
    ensures
        members_view(final(servers)@) == match standard_spec(server_spec.view()) {
            Some(c) => insert_member(members_view(old(servers)@), server_id@, c),
            None => members_view(old(servers)@),
        },
        writes(action, servers_document_view(members_view(final(servers)@))),
{
    if let Ok(spec) = convert_to_standard_mcp_format(server_spec) {
        set_member(servers, String::from_str(server_id), spec);
    }
    McpFileAction::Write(servers_document(servers))
}

/// Removes one server from pi's table: the file is deleted when the table becomes
/// empty, rewritten when a server was removed, and left alone when there was none.
pub fn remove_server_from_pi(servers: &mut Vec<(String, JsonValue)>, server_id: &str) -> (action: McpFileAction)
    ensures
        members_view(final(servers)@) == remove_member(members_view(old(servers)@), server_id@),
        lookup(members_view(old(servers)@), server_id@) is None ==> action is Unchanged,
        lookup(members_view(old(servers)@), server_id@) is Some && final(servers)@.len() == 0 ==> action is Delete,
        lookup(members_view(old(servers)@), server_id@) is Some && final(servers)@.len() > 0
            ==> writes(action, servers_document_view(members_view(final(servers)@))),
{
    if remove_members(servers, server_id) {
        if servers.len() == 0 {
            McpFileAction::Delete
        } else {
            McpFileAction::Write(servers_document(servers))
        }
    } else {
        McpFileAction::Unchanged
    }
}

/// Writes the whole table of enabled servers: no enabled server deletes the file;
/// otherwise each entry that converts is written, the others are skipped.
pub fn sync_enabled_to_pi(enabled: &Vec<(String, JsonValue)>) -> (action: McpFileAction)
    ensures
        enabled@.len() == 0 ==> action is Delete,
        enabled@.len() > 0 ==> writes(action, servers_document_view(enabled_servers(members_view(enabled@)))),
{
    if enabled.len() == 0 {
        return McpFileAction::Delete;
    }
    let ghost es = members_view(enabled@);
    let mut servers: Vec<(String, JsonValue)> = Vec::new();
    assert(members_view(servers@) =~= Seq::<(Seq<char>, JsonView)>::empty());
    let mut i: usize = 0;
    while i < enabled.len()
        invariant
            i <= enabled@.len(),
            es == members_view(enabled@),
            members_view(servers@) == enabled_servers(es.take(i as int)),
        decreases enabled@.len() - i,
    {
        proof {
            assert(es.take(i + 1).drop_last() =~= es.take(i as int));
            assert(es.take(0) =~= Seq::<(Seq<char>, JsonView)>::empty());
        }
        match convert_to_standard_mcp_format(&enabled[i].1) {
            Ok(spec) => {
                set_member(&mut servers, enabled[i].0.clone(), spec);
            },
            Err(_) => {},
        }
        i = i + 1;
    }
    proof {
        assert(es.take(i as int) =~= es);
    }
    McpFileAction::Write(servers_document(&servers))
}

/// Writing a table whose ids are unique and reading the document back gives the
/// same table.
pub proof fn law_document_roundtrip(servers: Seq<(Seq<char>, JsonView)>)
    requires
        unique_keys(servers),
    ensures
        collect_members(document_servers(servers_document_view(servers))) == servers,
{
    reveal_strlit("mcpServers");
    let doc = seq![("mcpServers"@, JsonView::Object(collect_members(servers)))];
    assert(doc.drop_first() =~= Seq::<(Seq<char>, JsonView)>::empty());
    lemma_collect_unique(servers);
}

/// The table read from any document has unique ids, so the laws above apply to it.
pub proof fn law_read_table_unique(pairs: Seq<(Seq<char>, JsonView)>)
    ensures
        unique_keys(collect_members(pairs)),
    decreases pairs.len(),
{
    if pairs.len() > 0 {
        law_read_table_unique(pairs.drop_last());
        lemma_insert_unique(collect_members(pairs.drop_last()), pairs.last().0, pairs.last().1);
    }
}

/// After a server is synced into a table with unique ids, the document written lists
/// it with its converted spec, lists the other servers as before, and its ids stay
/// unique; after a server is removed, the document written no longer lists it.
pub proof fn law_sync_then_read(servers: Seq<(Seq<char>, JsonView)>, id: Seq<char>, spec: JsonView, other: Seq<char>)
    requires
        unique_keys(servers),
    ensures
        standard_spec(spec) matches Some(c) ==> {
            let after = insert_member(servers, id, c);
            &&& unique_keys(after)
            &&& document_servers(servers_document_view(after)) == after
            &&& lookup(document_servers(servers_document_view(after)), id) == Some(c)
            &&& (other != id ==> lookup(document_servers(servers_document_view(after)), other) == lookup(servers, other))
        },
        lookup(document_servers(servers_document_view(remove_member(servers, id))), id) is None,
        other != id ==> lookup(document_servers(servers_document_view(remove_member(servers, id))), other)
            == lookup(servers, other),
{
    reveal_strlit("mcpServers");
    if let Some(c) = standard_spec(spec) {
        let after = insert_member(servers, id, c);
        lemma_insert_unique(servers, id, c);
        lemma_collect_unique(after);
        law_lookup_after_insert(servers, id, c, other);
        let doc = seq![("mcpServers"@, JsonView::Object(collect_members(after)))];
        assert(lookup(doc, "mcpServers"@) == Some(JsonView::Object(collect_members(after))));
    }
    let removed = remove_member(servers, id);
    lemma_remove_unique(servers, id);
    lemma_collect_unique(removed);
    law_lookup_after_remove(servers, id, other);
    let doc = seq![("mcpServers"@, JsonView::Object(collect_members(removed)))];
    assert(lookup(doc, "mcpServers"@) == Some(JsonView::Object(collect_members(removed))));
}

/// A spec whose type is none of stdio, sse and http, and whose keys are unique (as
/// those of any parsed document are), is kept whole, "type" included.
pub proof fn law_other_type_kept_whole(members: Seq<(Seq<char>, JsonView)>)
    requires
        well_formed(JsonView::Object(members)),
        transport_of(members) != "stdio"@,
        transport_of(members) != "sse"@,
        transport_of(members) != "http"@,
    ensures
        standard_spec(JsonView::Object(members)) == Some(JsonView::Object(members)),
{
    lemma_collect_unique(members);
}

/// Looking up a key after a member is appended: the earlier members win.
proof fn lemma_lookup_push(init: Seq<(Seq<char>, JsonView)>, last: (Seq<char>, JsonView), key: Seq<char>)
    ensures
        lookup(init.push(last), key) == match lookup(init, key) {
            Some(v) => Some(v),
            None => if last.0 == key { Some(last.1) } else { None },
        },
    decreases init.len(),
{
    if init.len() == 0 {
        assert(init.push(last).drop_first() =~= Seq::<(Seq<char>, JsonView)>::empty());
    } else {
        assert(init.push(last).drop_first() =~= init.drop_first().push(last));
        lemma_lookup_push(init.drop_first(), last, key);
    }
}

/// A key that is found is the key of some member.
proof fn lemma_lookup_found(members: Seq<(Seq<char>, JsonView)>, key: Seq<char>)
    ensures
        lookup(members, key) is Some ==> exists|i: int| 0 <= i < members.len() && #[trigger] members[i].0 == key,
    decreases members.len(),
{
    if members.len() > 0 && members[0].0 != key {
        lemma_lookup_found(members.drop_first(), key);
        if lookup(members, key) is Some {
            let i = choose|i: int| 0 <= i < members.drop_first().len() && #[trigger] members.drop_first()[i].0 == key;
            assert(members[i + 1].0 == key);
        }
    }
}

/// The table of enabled servers has unique ids.
proof fn lemma_enabled_servers_unique(enabled: Seq<(Seq<char>, JsonView)>)
    ensures
        unique_keys(enabled_servers(enabled)),
    decreases enabled.len(),
{
    if enabled.len() > 0 {
        lemma_enabled_servers_unique(enabled.drop_last());
        let acc = enabled_servers(enabled.drop_last());
        if let Some(c) = standard_spec(enabled.last().1) {
            lemma_insert_unique(acc, enabled.last().0, c);
        }
    }
}

/// What the table of enabled servers lists under an id: the converted spec of the
/// enabled server with that id when its spec converts, nothing when it does not or
/// when no enabled server has the id.
proof fn lemma_enabled_servers_lookup(enabled: Seq<(Seq<char>, JsonView)>, id: Seq<char>)
    requires
        unique_keys(enabled),
    ensures
        lookup(enabled_servers(enabled), id) == match lookup(enabled, id) {
            Some(spec) => standard_spec(spec),
            None => None,
        },
    decreases enabled.len(),
{
    if enabled.len() == 0 {
    } else {
        let init = enabled.drop_last();
        let last = enabled.last();
        assert(unique_keys(init)) by {
            assert forall|i: int, j: int| 0 <= i < j < init.len() implies init[i].0 != init[j].0 by {
                assert(init[i] == enabled[i]);
                assert(init[j] == enabled[j]);
            }
        }
        lemma_enabled_servers_lookup(init, id);
        assert(init.push(last) =~= enabled);
        lemma_lookup_push(init, last, id);
        let acc = enabled_servers(init);
        if last.0 == id {
            lemma_lookup_found(init, id);
            if lookup(init, id) is Some {
                let i = choose|i: int| 0 <= i < init.len() && #[trigger] init[i].0 == id;
                assert(enabled[i].0 == enabled[enabled.len() - 1].0);
            }
        }
        if let Some(c) = standard_spec(last.1) {
            law_lookup_after_insert(acc, last.0, c, id);
        }
    }
}

/// Syncing the enabled servers (ids unique, as the keys of the stored table are)
/// writes a document that lists, under each id, the converted spec of the enabled
/// server with that id when its spec converts, and nothing when it does not or when no
/// enabled server has the id: every convertible enabled server is written, and no
/// other.
pub proof fn law_sync_enabled_lists_each_server(enabled: Seq<(Seq<char>, JsonView)>, id: Seq<char>)
    requires
        unique_keys(enabled),
    ensures
        lookup(document_servers(servers_document_view(enabled_servers(enabled))), id) == match lookup(enabled, id) {
            Some(spec) => standard_spec(spec),
            None => None,
        },
        unique_keys(document_servers(servers_document_view(enabled_servers(enabled)))),
{
    reveal_strlit("mcpServers");
    let table = enabled_servers(enabled);
    lemma_enabled_servers_unique(enabled);
    lemma_collect_unique(table);
    let doc = seq![("mcpServers"@, JsonView::Object(collect_members(table)))];
    assert(lookup(doc, "mcpServers"@) == Some(JsonView::Object(collect_members(table))));
    lemma_enabled_servers_lookup(enabled, id);
}

/// The members of the standard spec of an object spec.
pub open spec fn converted_members(members: Seq<(Seq<char>, JsonView)>) -> Seq<(Seq<char>, JsonView)> {
    match standard_spec(JsonView::Object(members)) {
        Some(JsonView::Object(out)) => out,
        _ => Seq::empty(),
    }
}

/// A stdio spec (type "stdio", or no string type) converts to an object that holds
/// exactly its command when that is a string, its args when they are an array, and its
/// env when that is a non-empty object, each with the value it has in the spec; and no
/// other member.
pub proof fn law_stdio_spec_keeps_command_args_env(members: Seq<(Seq<char>, JsonView)>, key: Seq<char>)
    requires
        !(lookup(members, "type"@) matches Some(JsonView::Str(t)) && t != "stdio"@),
    ensures
        standard_spec(JsonView::Object(members)) == Some(JsonView::Object(converted_members(members))),
        lookup(members, "command"@) matches Some(JsonView::Str(_))
            ==> lookup(converted_members(members), "command"@) == lookup(members, "command"@),
        !(lookup(members, "command"@) matches Some(JsonView::Str(_)))
            ==> lookup(converted_members(members), "command"@) is None,
        lookup(members, "args"@) matches Some(JsonView::Array(_))
            ==> lookup(converted_members(members), "args"@) == lookup(members, "args"@),
        !(lookup(members, "args"@) matches Some(JsonView::Array(_)))
            ==> lookup(converted_members(members), "args"@) is None,
        lookup(members, "env"@) matches Some(JsonView::Object(o)) && o.len() > 0
            ==> lookup(converted_members(members), "env"@) == lookup(members, "env"@),
        !(lookup(members, "env"@) matches Some(JsonView::Object(o)) && o.len() > 0)
            ==> lookup(converted_members(members), "env"@) is None,
        key != "command"@ && key != "args"@ && key != "env"@ ==> lookup(converted_members(members), key) is None,
{
    reveal_strlit("command");
    reveal_strlit("args");
    reveal_strlit("env");
    reveal_strlit("stdio");
    reveal_strlit("type");
    assert("command"@ != "args"@) by { assert("command"@[0] != "args"@[0]); }
    assert("command"@ != "env"@) by { assert("command"@[0] != "env"@[0]); }
    assert("args"@ != "env"@) by { assert("args"@[0] != "env"@[0]); }
    assert(transport_of(members) == "stdio"@);
    let empty = Seq::<(Seq<char>, JsonView)>::empty();
    let with_command = keep_str(empty, members, "command"@);
    let with_args = match lookup(members, "args"@) {
        Some(JsonView::Array(a)) => insert_member(with_command, "args"@, JsonView::Array(a)),
        _ => with_command,
    };
    let out = keep_nonempty_object(with_args, members, "env"@);
    assert(converted_members(members) == out);
    // each step sets one key and leaves the others as they were
    let ks = seq!["command"@, "args"@, "env"@, key];
    assert forall|k: Seq<char>| #[trigger] ks.contains(k) implies
        lookup(with_command, k) == (if k == "command"@ { match lookup(members, k) {
            Some(JsonView::Str(s)) => Some(JsonView::Str(s)), _ => None } } else { None }) by {
        if let Some(JsonView::Str(s)) = lookup(members, "command"@) {
            law_lookup_after_insert(empty, "command"@, JsonView::Str(s), k);
        }
    }
    assert forall|k: Seq<char>| #[trigger] ks.contains(k) implies
        lookup(with_args, k) == (if k == "args"@ { match lookup(members, k) {
            Some(JsonView::Array(a)) => Some(JsonView::Array(a)), _ => None } } else { lookup(with_command, k) }) by {
        if let Some(JsonView::Array(a)) = lookup(members, "args"@) {
            law_lookup_after_insert(with_command, "args"@, JsonView::Array(a), k);
        }
    }
    assert forall|k: Seq<char>| #[trigger] ks.contains(k) implies
        lookup(out, k) == (if k == "env"@ { match lookup(members, k) {
            Some(JsonView::Object(o)) => if o.len() > 0 { Some(JsonView::Object(o)) } else { None }, _ => None } } else { lookup(with_args, k) }) by {
        if let Some(JsonView::Object(o)) = lookup(members, "env"@) {
            if o.len() > 0 {
                law_lookup_after_insert(with_args, "env"@, JsonView::Object(o), k);
            }
        }
    }
    assert(ks.contains("command"@)) by { assert(ks[0] == "command"@); }
    assert(ks.contains("args"@)) by { assert(ks[1] == "args"@); }
    assert(ks.contains("env"@)) by { assert(ks[2] == "env"@); }
    assert(ks.contains(key)) by { assert(ks[3] == key); }
}

/// An sse or http spec converts to an object that holds exactly its url when that is
/// a string and its headers when they are a non-empty object, each with the value it
/// has in the spec; and no other member.
pub proof fn law_remote_spec_keeps_url_headers(members: Seq<(Seq<char>, JsonView)>, key: Seq<char>)
    requires
        lookup(members, "type"@) == Some(JsonView::Str("sse"@)) || lookup(members, "type"@) == Some(JsonView::Str("http"@)),
    ensures
        standard_spec(JsonView::Object(members)) == Some(JsonView::Object(converted_members(members))),
        lookup(members, "url"@) matches Some(JsonView::Str(_))
            ==> lookup(converted_members(members), "url"@) == lookup(members, "url"@),
        !(lookup(members, "url"@) matches Some(JsonView::Str(_)))
            ==> lookup(converted_members(members), "url"@) is None,
        lookup(members, "headers"@) matches Some(JsonView::Object(o)) && o.len() > 0
            ==> lookup(converted_members(members), "headers"@) == lookup(members, "headers"@),
        !(lookup(members, "headers"@) matches Some(JsonView::Object(o)) && o.len() > 0)
            ==> lookup(converted_members(members), "headers"@) is None,
        key != "url"@ && key != "headers"@ ==> lookup(converted_members(members), key) is None,
{
    reveal_strlit("url");
    reveal_strlit("headers");
    reveal_strlit("stdio");
    reveal_strlit("sse");
    reveal_strlit("http");
    assert("url"@ != "headers"@) by { assert("url"@[0] != "headers"@[0]); }
    assert("sse"@ != "stdio"@) by { assert("sse"@[1] != "stdio"@[1]); }
    assert("http"@ != "stdio"@) by { assert("http"@[0] != "stdio"@[0]); }
    let empty = Seq::<(Seq<char>, JsonView)>::empty();
    let with_url = keep_str(empty, members, "url"@);
    let out = keep_nonempty_object(with_url, members, "headers"@);
    assert(converted_members(members) == out);
    let ks = seq!["url"@, "headers"@, key];
    assert forall|k: Seq<char>| #[trigger] ks.contains(k) implies
        lookup(with_url, k) == (if k == "url"@ { match lookup(members, k) {
            Some(JsonView::Str(s)) => Some(JsonView::Str(s)), _ => None } } else { None }) by {
        if let Some(JsonView::Str(s)) = lookup(members, "url"@) {
            law_lookup_after_insert(empty, "url"@, JsonView::Str(s), k);
        }
    }
    assert forall|k: Seq<char>| #[trigger] ks.contains(k) implies
        lookup(out, k) == (if k == "headers"@ { match lookup(members, k) {
            Some(JsonView::Object(o)) => if o.len() > 0 { Some(JsonView::Object(o)) } else { None }, _ => None } } else { lookup(with_url, k) }) by {
        if let Some(JsonView::Object(o)) = lookup(members, "headers"@) {
            if o.len() > 0 {
                law_lookup_after_insert(with_url, "headers"@, JsonView::Object(o), k);
            }
        }
    }
    assert(ks.contains("url"@)) by { assert(ks[0] == "url"@); }
    assert(ks.contains("headers"@)) by { assert(ks[1] == "headers"@); }
    assert(ks.contains(key)) by { assert(ks[2] == key); }
}

} // verus!
