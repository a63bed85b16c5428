//! Configuring a worktree for a session: the MCP server entry written into
//! the worktree's tool configuration, and the settings that pre-approve the
//! session-notification tools. The files are read and written outside; the
//! JSON updates are verified here.

use vstd::prelude::*;
use vstd::string::StringExecFns;
use crate::json::{
    JsonValue, JsonV, jv_of, jv_seq, jv_fields, field_of, fields_without, lemma_jv_fields,
    lemma_jv_seq, lemma_field_of_push, lemma_jv_fields_push, lemma_jv_seq_push, str_eq,
};

verus! {

broadcast use vstd::prelude::Seq::lemma_filter_push;

/// Filtering out a key leaves every other key's first value alone.
pub proof fn lemma_filter_key_other(f: Seq<(Seq<char>, JsonV)>, key: Seq<char>, k: Seq<char>)
    requires
        k != key,
    ensures
        field_of(fields_without(f, seq![key]), k) == field_of(f, k),
    decreases f.len(),
{
    assert(seq![key][0] == key);
    if f.len() == 0 {
        assert(fields_without(f, seq![key]) =~= f);
    } else {
        let d = f.drop_last();
        let e = f.last();
        assert(f =~= d.push(e));
        lemma_filter_key_other(d, key, k);
        lemma_field_of_push(d, e, k);
        if !seq![key].contains(e.0) {
            lemma_field_of_push(fields_without(d, seq![key]), e, k);
        } else {
            assert(e.0 == key);
        }
    }
}

/// Filtering out a key removes every occurrence of it.
pub proof fn lemma_filter_key_gone(f: Seq<(Seq<char>, JsonV)>, key: Seq<char>)
    ensures
        field_of(fields_without(f, seq![key]), key) is None,
    decreases f.len(),
{
    assert(seq![key][0] == key);
    if f.len() == 0 {
        assert(fields_without(f, seq![key]) =~= f);
    } else {
        let d = f.drop_last();
        let e = f.last();
        assert(f =~= d.push(e));
        lemma_filter_key_gone(d, key);
        if !seq![key].contains(e.0) {
            lemma_field_of_push(fields_without(d, seq![key]), e, key);
        }
    }
}

/// The fields with `key` bound to `value` and every other key's first value
/// unchanged: occurrences of `key` are dropped and the new binding appended.
#[verifier::loop_isolation(false)]
pub fn obj_set(fields: &Vec<(String, JsonValue)>, key: &str, value: JsonValue) -> (r: Vec<
    (String, JsonValue),
>)
    ensures
        field_of(jv_fields(r@), key@) == Some(jv_of(value)),
        forall|k: Seq<char>|
            k != key@ ==> #[trigger] field_of(jv_fields(r@), k) == field_of(
                jv_fields(fields@),
                k,
            ),
{
    let ghost fv = jv_fields(fields@);
    proof {
        lemma_jv_fields(fields@);
        assert(fv.take(0) =~= Seq::<(Seq<char>, JsonV)>::empty());
    }
    let mut out: Vec<(String, JsonValue)> = Vec::new();
    let mut i: usize = 0;
    while i < fields.len()
        invariant
            i <= fv.len(),
            jv_fields(out@) == fields_without(fv.take(i as int), seq![key@]),
        decreases fv.len() - i,
    {
        let ghost cur = fv[i as int];
        proof {
            assert(fv.take(i as int + 1) =~= fv.take(i as int).push(cur));
        }
        if !str_eq(fields[i].0.as_str(), key) {
            let k = fields[i].0.clone();
            let dup = fields[i].1.duplicate();
            proof {
                assert(!seq![key@].contains(cur.0)) by {
                    assert(forall|j: int| 0 <= j < seq![key@].len() ==> seq![key@][j] == key@);
                }
                lemma_jv_fields_push(out@, (k, dup));
            }
            out.push((k, dup));
        } else {
            proof {
                assert(seq![key@][0] == key@);
                assert(seq![key@].contains(cur.0));
            }
        }
        i += 1;
    }
    proof {
        assert(fv.take(fv.len() as int) =~= fv);
    }
    let ghost filtered = jv_fields(out@);
    let new_key = String::from_str(key);
    proof {
        lemma_jv_fields_push(out@, (new_key, value));
    }
    out.push((new_key, value));
    proof {
        lemma_field_of_push(filtered, (key@, jv_of(value)), key@);
        lemma_filter_key_gone(fv, key@);
        assert forall|k: Seq<char>| k != key@ implies #[trigger] field_of(jv_fields(out@), k)
            == field_of(fv, k) by {
            lemma_field_of_push(filtered, (key@, jv_of(value)), k);
            lemma_filter_key_other(fv, key@, k);
        }
    }
    out
}

/// The server entry written for a session into a worktree's MCP
/// configuration: the bridge script run under the session's identifier.
pub open spec fn mcp_server_entry_v(bridge_path: Seq<char>, session_id: Seq<char>) -> JsonV {
    JsonV::Obj(
        seq![
            ("command"@, JsonV::Str("node"@)),
            ("args"@, JsonV::Arr(seq![JsonV::Str(bridge_path)])),
            ("env"@, JsonV::Obj(seq![("CLAUDE_SESSIONS_ID"@, JsonV::Str(session_id))])),
        ],
    )
}

/// Builds the server entry for a session.
pub fn mcp_server_entry(bridge_path: &str, session_id: &str) -> (r: JsonValue)
    ensures
        r@ == mcp_server_entry_v(bridge_path@, session_id@),
{
    let mut args: Vec<JsonValue> = Vec::new();
    args.push(JsonValue::Str(String::from_str(bridge_path)));
    let mut env: Vec<(String, JsonValue)> = Vec::new();
    env.push(
        (String::from_str("CLAUDE_SESSIONS_ID"), JsonValue::Str(String::from_str(session_id))),
    );
    let mut fields: Vec<(String, JsonValue)> = Vec::new();
    fields.push((String::from_str("command"), JsonValue::Str(String::from_str("node"))));
    fields.push((String::from_str("args"), JsonValue::Arr(args)));
    fields.push((String::from_str("env"), JsonValue::Obj(env)));
    let r = JsonValue::Obj(fields);
    proof {
        lemma_jv_fields(fields@);
        lemma_jv_seq(args@);
        lemma_jv_fields(env@);
        assert(jv_seq(args@) =~= seq![JsonV::Str(bridge_path@)]);
        assert(jv_fields(env@) =~= seq![("CLAUDE_SESSIONS_ID"@, JsonV::Str(session_id@))]);
        assert(jv_fields(fields@) =~= seq![
            ("command"@, JsonV::Str("node"@)),
            ("args"@, JsonV::Arr(seq![JsonV::Str(bridge_path@)])),
            ("env"@, JsonV::Obj(seq![("CLAUDE_SESSIONS_ID"@, JsonV::Str(session_id@))])),
        ]);
    }
    r
}

/// The empty MCP configuration written where a worktree has none.
pub fn default_mcp_config() -> (r: JsonValue)
    ensures
        r@ == JsonV::Obj(seq![("mcpServers"@, JsonV::Obj(Seq::empty()))]),
{
    let mut servers: Vec<(String, JsonValue)> = Vec::new();
    let mut fields: Vec<(String, JsonValue)> = Vec::new();
    fields.push((String::from_str("mcpServers"), JsonValue::Obj(servers)));
    proof {
        lemma_jv_fields(fields@);
        assert(jv_fields(fields@) =~= seq![("mcpServers"@, JsonV::Obj(Seq::empty()))]) by {
            assert(jv_fields(Seq::<(String, JsonValue)>::empty()) =~= Seq::<
                (Seq<char>, JsonV),
            >::empty());
        }
    }
    JsonValue::Obj(fields)
}

/// Installs the session's server entry in an MCP configuration: where the
/// configuration is an object whose `mcpServers` is an object or null, the
/// entry is bound under the given server name and everything else is kept;
/// any other shape comes back unchanged. The server name itself is
/// deployment configuration.
pub fn configure_mcp_config(config: &JsonValue, server_name: &str, entry: JsonValue) -> (r:
    JsonValue)
    ensures
        jv_of(*config) matches JsonV::Obj(fields) ==> (match field_of(
            fields,
            "mcpServers"@,
        ) {
            Some(JsonV::Obj(srv)) => jv_of(r) matches JsonV::Obj(nf) && field_of(
                nf,
                "mcpServers"@,
            ) matches Some(JsonV::Obj(ns)) && field_of(ns, server_name@) == Some(
                jv_of(entry),
            ) && (forall|k: Seq<char>|
                k != server_name@ ==> #[trigger] field_of(ns, k) == field_of(srv, k))
                && (forall|k: Seq<char>|
                k != "mcpServers"@ ==> #[trigger] field_of(nf, k) == field_of(fields, k)),
            Some(JsonV::Null) => jv_of(r) matches JsonV::Obj(nf) && field_of(
                nf,
                "mcpServers"@,
            ) matches Some(JsonV::Obj(ns)) && field_of(ns, server_name@) == Some(
                jv_of(entry),
            ) && (forall|k: Seq<char>|
                k != "mcpServers"@ ==> #[trigger] field_of(nf, k) == field_of(fields, k)),
            Some(_) => r@ == config@,
            None => r@ == config@,
        }),
        !(jv_of(*config) is Obj) ==> r@ == config@,
{
    match config {
        JsonValue::Obj(fields) => {
            match crate::json::obj_field(fields, "mcpServers") {
                Some(sv) => match sv {
                    JsonValue::Obj(servers) => {
                        let ns = obj_set(servers, server_name, entry);
                        let nf = obj_set(fields, "mcpServers", JsonValue::Obj(ns));
                        JsonValue::Obj(nf)
                    },
                    JsonValue::Null => {
                        let empty_servers: Vec<(String, JsonValue)> = Vec::new();
                        proof {
                            assert(jv_fields(empty_servers@) =~= Seq::<
                                (Seq<char>, JsonV),
                            >::empty());
                        }
                        let ns = obj_set(&empty_servers, server_name, entry);
                        let nf = obj_set(fields, "mcpServers", JsonValue::Obj(ns));
                        JsonValue::Obj(nf)
                    },
                    JsonValue::Bool(_) => config.duplicate(),
                    JsonValue::Num(_) => config.duplicate(),
                    JsonValue::Str(_) => config.duplicate(),
                    JsonValue::Arr(_) => config.duplicate(),
                },
                None => config.duplicate(),
            }
        },
        JsonValue::Null => config.duplicate(),
        JsonValue::Bool(_) => config.duplicate(),
        JsonValue::Num(_) => config.duplicate(),
        JsonValue::Str(_) => config.duplicate(),
        JsonValue::Arr(_) => config.duplicate(),
    }
}

/// The elements with every listed text appended where it was missing, in
/// listed order.
pub open spec fn add_missing(items: Seq<JsonV>, strs: Seq<Seq<char>>) -> Seq<JsonV>
    decreases strs,
{
    if strs.len() == 0 {
        items
    } else {
        let sofar = add_missing(items, strs.drop_last());
        if sofar.contains(JsonV::Str(strs.last())) {
            sofar
        } else {
            sofar.push(JsonV::Str(strs.last()))
        }
    }
}

/// Whether an array holds a given text.
#[verifier::loop_isolation(false)]
pub fn arr_contains_str(items: &Vec<JsonValue>, s: &str) -> (r: bool)
    ensures
        r == jv_seq(items@).contains(JsonV::Str(s@)),
{
    let ghost sv = jv_seq(items@);
    proof {
        lemma_jv_seq(items@);
    }
    let mut i: usize = 0;
    while i < items.len()
        invariant
            i <= sv.len(),
            forall|j: int| 0 <= j < i ==> sv[j] != JsonV::Str(s@),
        decreases sv.len() - i,
    {
        match &items[i] {
            JsonValue::Str(t) => {
                if str_eq(t.as_str(), s) {
                    proof {
                        assert(sv[i as int] == JsonV::Str(s@));
                        assert(sv.contains(JsonV::Str(s@)));
                    }
                    return true;
                }
            },
            _ => {},
        }
        i += 1;
    }
    proof {
        if sv.contains(JsonV::Str(s@)) {
            let j = choose|j: int| 0 <= j < sv.len() && sv[j] == JsonV::Str(s@);
        }
    }
    false
}

/// Appends each listed text that the array does not already hold, in order.
#[verifier::loop_isolation(false)]
pub fn arr_add_missing(items: Vec<JsonValue>, strs: &Vec<String>) -> (r: Vec<JsonValue>)
    ensures
        jv_seq(r@) == add_missing(jv_seq(items@), crate::dispatch::line_views(strs@)),
{
    let ghost base = jv_seq(items@);
    let ghost tv = crate::dispatch::line_views(strs@);
    proof {
        assert(tv.take(0) =~= Seq::<Seq<char>>::empty());
    }
    let mut out = items;
    let mut i: usize = 0;
    while i < strs.len()
        invariant
            i <= tv.len(),
            jv_seq(out@) == add_missing(base, tv.take(i as int)),
        decreases tv.len() - i,
    {
        proof {
            assert(tv.take(i as int + 1).drop_last() =~= tv.take(i as int));
            assert(tv.take(i as int + 1).last() == tv[i as int]);
        }
        if !arr_contains_str(&out, strs[i].as_str()) {
            let v = JsonValue::Str(strs[i].clone());
            proof {
                lemma_jv_seq_push(out@, v);
            }
            out.push(v);
        }
        i += 1;
    }
    proof {
        assert(tv.take(tv.len() as int) =~= tv);
    }
    out
}

/// The tool permissions granted to a configured worktree: the two
/// session-notification tools of the given bridge server.
pub fn notify_permissions(server_name: &str) -> (r: Vec<String>)
    ensures
        r@.len() == 2,
        r@[0]@ == "mcp__"@ + server_name@ + "__notify_ready"@,
        r@[1]@ == "mcp__"@ + server_name@ + "__notify_busy"@,
{
    let ready = String::from_str("mcp__").concat(server_name).concat("__notify_ready");
    let busy = String::from_str("mcp__").concat(server_name).concat("__notify_busy");
    let mut out: Vec<String> = Vec::new();
    out.push(ready);
    out.push(busy);
    out
}

} // verus!
