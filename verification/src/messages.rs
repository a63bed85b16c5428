//! The structured messages that the agent process streams on stdout, and
//! their decoding from JSON values.
//!
//! One line of output is one tagged message object. Unknown top-level fields
//! are preserved in an `extra` bag rather than dropped, and a content block
//! with an unrecognized tag decodes to `Unknown` rather than failing the
//! whole message.

use vstd::prelude::*;
use vstd::string::StringExecFns;
use crate::json::{
    JsonValue, JsonV, jv_of, jv_seq, jv_fields, field_of, fields_without, lemma_jv_fields,
    lemma_jv_seq, lemma_field_of_push, lemma_field_of_concat, lemma_jv_fields_push,
    append_dup_fields, str_eq,
};

verus! {

broadcast use vstd::prelude::Seq::lemma_filter_push;

/// A message from the agent's stream output.
pub enum ClaudeMessage {
    System {
        subtype: String,
        session_id: Option<String>,
        tools: Option<JsonValue>,
        mcp_servers: Option<JsonValue>,
        extra: Vec<(String, JsonValue)>,
    },
    User { message: JsonValue, extra: Vec<(String, JsonValue)> },
    Assistant { message: AssistantMessage, extra: Vec<(String, JsonValue)> },
    Result {
        subtype: String,
        result: Option<String>,
        total_cost_usd: Option<String>,
        duration_ms: Option<String>,
        duration_api_ms: Option<String>,
        extra: Vec<(String, JsonValue)>,
    },
}

/// An assistant message: an ordered list of content blocks plus metadata.
pub struct AssistantMessage {
    pub id: Option<String>,
    pub role: Option<String>,
    pub model: Option<String>,
    pub content: Vec<ContentBlock>,
    pub stop_reason: Option<String>,
    pub extra: Vec<(String, JsonValue)>,
}

/// One content block of an assistant message.
pub enum ContentBlock {
    Text { text: String, extra: Vec<(String, JsonValue)> },
    ToolUse {
        id: String,
        name: String,
        input: JsonValue,
        extra: Vec<(String, JsonValue)>,
    },
    ToolResult {
        tool_use_id: String,
        content: Option<JsonValue>,
        is_error: Option<bool>,
        extra: Vec<(String, JsonValue)>,
    },
    Unknown,
}

/// The mathematical model of a message.
pub enum MessageV {
    System {
        subtype: Seq<char>,
        session_id: Option<Seq<char>>,
        tools: Option<JsonV>,
        mcp_servers: Option<JsonV>,
        extra: Seq<(Seq<char>, JsonV)>,
    },
    User { message: JsonV, extra: Seq<(Seq<char>, JsonV)> },
    Assistant { message: AssistantV, extra: Seq<(Seq<char>, JsonV)> },
    Result {
        subtype: Seq<char>,
        result: Option<Seq<char>>,
        total_cost_usd: Option<Seq<char>>,
        duration_ms: Option<Seq<char>>,
        duration_api_ms: Option<Seq<char>>,
        extra: Seq<(Seq<char>, JsonV)>,
    },
}

/// The mathematical model of an assistant message.
pub struct AssistantV {
    pub id: Option<Seq<char>>,
    pub role: Option<Seq<char>>,
    pub model: Option<Seq<char>>,
    pub content: Seq<BlockV>,
    pub stop_reason: Option<Seq<char>>,
    pub extra: Seq<(Seq<char>, JsonV)>,
}

/// The mathematical model of a content block.
pub enum BlockV {
    Text { text: Seq<char>, extra: Seq<(Seq<char>, JsonV)> },
    ToolUse { id: Seq<char>, name: Seq<char>, input: JsonV, extra: Seq<(Seq<char>, JsonV)> },
    ToolResult {
        tool_use_id: Seq<char>,
        content: Option<JsonV>,
        is_error: Option<bool>,
        extra: Seq<(Seq<char>, JsonV)>,
    },
    Unknown,
}

/// The model of an optional string field.
pub open spec fn opt_str_view(s: Option<String>) -> Option<Seq<char>> {
    match s {
        Some(t) => Some(t@),
        None => None,
    }
}

/// The model of an optional carried-through value field.
pub open spec fn opt_val_view(v: Option<JsonValue>) -> Option<JsonV> {
    match v {
        Some(x) => Some(jv_of(x)),
        None => None,
    }
}

impl View for ContentBlock {
    type V = BlockV;

    open spec fn view(&self) -> BlockV {
        match self {
            ContentBlock::Text { text, extra } => BlockV::Text {
                text: text@,
                extra: jv_fields(extra@),
            },
            ContentBlock::ToolUse { id, name, input, extra } => BlockV::ToolUse {
                id: id@,
                name: name@,
                input: input@,
                extra: jv_fields(extra@),
            },
            ContentBlock::ToolResult { tool_use_id, content, is_error, extra } => {
                BlockV::ToolResult {
                    tool_use_id: tool_use_id@,
                    content: opt_val_view(*content),
                    is_error: *is_error,
                    extra: jv_fields(extra@),
                }
            },
            ContentBlock::Unknown => BlockV::Unknown,
        }
    }
}

/// The models of a list of blocks.
pub open spec fn blocks_view(s: Seq<ContentBlock>) -> Seq<BlockV> {
    Seq::new(s.len(), |i: int| s[i]@)
}

impl View for AssistantMessage {
    type V = AssistantV;

    open spec fn view(&self) -> AssistantV {
        AssistantV {
            id: opt_str_view(self.id),
            role: opt_str_view(self.role),
            model: opt_str_view(self.model),
            content: blocks_view(self.content@),
            stop_reason: opt_str_view(self.stop_reason),
            extra: jv_fields(self.extra@),
        }
    }
}

impl View for ClaudeMessage {
    type V = MessageV;

    open spec fn view(&self) -> MessageV {
        match self {
            ClaudeMessage::System { subtype, session_id, tools, mcp_servers, extra } => {
                MessageV::System {
                    subtype: subtype@,
                    session_id: opt_str_view(*session_id),
                    tools: opt_val_view(*tools),
                    mcp_servers: opt_val_view(*mcp_servers),
                    extra: jv_fields(extra@),
                }
            },
            ClaudeMessage::User { message, extra } => MessageV::User {
                message: message@,
                extra: jv_fields(extra@),
            },
            ClaudeMessage::Assistant { message, extra } => MessageV::Assistant {
                message: message@,
                extra: jv_fields(extra@),
            },
            ClaudeMessage::Result {
                subtype,
                result,
                total_cost_usd,
                duration_ms,
                duration_api_ms,
                extra,
            } => MessageV::Result {
                subtype: subtype@,
                result: opt_str_view(*result),
                total_cost_usd: opt_str_view(*total_cost_usd),
                duration_ms: opt_str_view(*duration_ms),
                duration_api_ms: opt_str_view(*duration_api_ms),
                extra: jv_fields(extra@),
            },
        }
    }
}

/// What an optional string field decodes to: absent or null is `None`, a
/// string is kept, anything else fails.
pub open spec fn decode_opt_str(f: Option<JsonV>) -> Option<Option<Seq<char>>> {
    match f {
        None => Some(None),
        Some(JsonV::Null) => Some(None),
        Some(JsonV::Str(s)) => Some(Some(s)),
        Some(_) => None,
    }
}

/// What an optional numeric field decodes to, the number kept as its text.
pub open spec fn decode_opt_num(f: Option<JsonV>) -> Option<Option<Seq<char>>> {
    match f {
        None => Some(None),
        Some(JsonV::Null) => Some(None),
        Some(JsonV::Num(t)) => Some(Some(t)),
        Some(_) => None,
    }
}

/// What an optional boolean field decodes to.
pub open spec fn decode_opt_bool(f: Option<JsonV>) -> Option<Option<bool>> {
    match f {
        None => Some(None),
        Some(JsonV::Null) => Some(None),
        Some(JsonV::Bool(b)) => Some(Some(b)),
        Some(_) => None,
    }
}

/// What an optional carried-through value field decodes to: absent or null is
/// `None`, any other value is kept whole.
pub open spec fn decode_opt_val(f: Option<JsonV>) -> Option<JsonV> {
    match f {
        None => None,
        Some(JsonV::Null) => None,
        Some(v) => Some(v),
    }
}

/// The tag of a block or message object: the string under its `type` field.
pub open spec fn tag_of(fields: Seq<(Seq<char>, JsonV)>) -> Option<Seq<char>> {
    match field_of(fields, "type"@) {
        Some(JsonV::Str(t)) => Some(t),
        _ => None,
    }
}

/// What a `text` block's fields decode to.
pub open spec fn decode_text_v(fields: Seq<(Seq<char>, JsonV)>) -> Option<BlockV> {
    match field_of(fields, "text"@) {
        Some(JsonV::Str(t)) => Some(BlockV::Text {
            text: t,
            extra: fields_without(fields, seq!["type"@, "text"@]),
        }),
        _ => None,
    }
}

/// What a `tool_use` block's fields decode to.
pub open spec fn decode_tool_use_v(fields: Seq<(Seq<char>, JsonV)>) -> Option<BlockV> {
    match (field_of(fields, "id"@), field_of(fields, "name"@), field_of(fields, "input"@)) {
        (Some(JsonV::Str(id)), Some(JsonV::Str(name)), Some(input)) => Some(BlockV::ToolUse {
            id: id,
            name: name,
            input: input,
            extra: fields_without(fields, seq!["type"@, "id"@, "name"@, "input"@]),
        }),
        _ => None,
    }
}

/// What a `tool_result` block's fields decode to.
pub open spec fn decode_tool_result_v(fields: Seq<(Seq<char>, JsonV)>) -> Option<BlockV> {
    match (
        field_of(fields, "tool_use_id"@),
        decode_opt_bool(field_of(fields, "is_error"@)),
    ) {
        (Some(JsonV::Str(tid)), Some(is_error)) => Some(BlockV::ToolResult {
            tool_use_id: tid,
            content: decode_opt_val(field_of(fields, "content"@)),
            is_error: is_error,
            extra: fields_without(
                fields,
                seq!["type"@, "tool_use_id"@, "content"@, "is_error"@],
            ),
        }),
        _ => None,
    }
}

/// What one content block decodes to: an object with a known tag decodes as
/// that block, an object with any other string tag decodes to `Unknown`, and
/// anything else fails.
pub open spec fn decode_block_v(j: JsonV) -> Option<BlockV> {
    match j {
        JsonV::Obj(fields) => match tag_of(fields) {
            Some(t) => if t == "text"@ {
                decode_text_v(fields)
            } else if t == "tool_use"@ {
                decode_tool_use_v(fields)
            } else if t == "tool_result"@ {
                decode_tool_result_v(fields)
            } else {
                Some(BlockV::Unknown)
            },
            None => None,
        },
        _ => None,
    }
}

/// What a list of content blocks decodes to: every element must decode.
pub open spec fn decode_blocks_v(s: Seq<JsonV>) -> Option<Seq<BlockV>>
    decreases s,
{
    if s.len() == 0 {
        Some(Seq::empty())
    } else {
        match decode_block_v(s[0]) {
            None => None,
            Some(b) => match decode_blocks_v(s.subrange(1, s.len() as int)) {
                None => None,
                Some(t) => Some(seq![b] + t),
            },
        }
    }
}

/// What an assistant message decodes to: an object whose `content` field is a
/// list of content blocks, each of which decodes.
pub open spec fn decode_assistant_v(j: JsonV) -> Option<AssistantV> {
    match j {
        JsonV::Obj(fields) => match (
            decode_opt_str(field_of(fields, "id"@)),
            decode_opt_str(field_of(fields, "role"@)),
            decode_opt_str(field_of(fields, "model"@)),
            decode_opt_str(field_of(fields, "stop_reason"@)),
        ) {
            (Some(id), Some(role), Some(model), Some(stop_reason)) => match field_of(
                fields,
                "content"@,
            ) {
                Some(JsonV::Arr(items)) => match decode_blocks_v(items) {
                    Some(content) => Some(AssistantV {
                        id: id,
                        role: role,
                        model: model,
                        content: content,
                        stop_reason: stop_reason,
                        extra: fields_without(
                            fields,
                            seq!["id"@, "role"@, "model"@, "content"@, "stop_reason"@],
                        ),
                    }),
                    None => None,
                },
                _ => None,
            },
            _ => None,
        },
        _ => None,
    }
}

/// What a `system` message's fields decode to.
pub open spec fn decode_system_v(fields: Seq<(Seq<char>, JsonV)>) -> Option<MessageV> {
    match (
        field_of(fields, "subtype"@),
        decode_opt_str(field_of(fields, "session_id"@)),
    ) {
        (Some(JsonV::Str(subtype)), Some(session_id)) => Some(MessageV::System {
            subtype: subtype,
            session_id: session_id,
            tools: decode_opt_val(field_of(fields, "tools"@)),
            mcp_servers: decode_opt_val(field_of(fields, "mcp_servers"@)),
            extra: fields_without(
                fields,
                seq!["type"@, "subtype"@, "session_id"@, "tools"@, "mcp_servers"@],
            ),
        }),
        _ => None,
    }
}

/// What a `user` message's fields decode to.
pub open spec fn decode_user_v(fields: Seq<(Seq<char>, JsonV)>) -> Option<MessageV> {
    match field_of(fields, "message"@) {
        Some(message) => Some(MessageV::User {
            message: message,
            extra: fields_without(fields, seq!["type"@, "message"@]),
        }),
        None => None,
    }
}

/// What an `assistant` message's fields decode to.
pub open spec fn decode_assistant_msg_v(fields: Seq<(Seq<char>, JsonV)>) -> Option<MessageV> {
    match field_of(fields, "message"@) {
        Some(m) => match decode_assistant_v(m) {
            Some(message) => Some(MessageV::Assistant {
                message: message,
                extra: fields_without(fields, seq!["type"@, "message"@]),
            }),
            None => None,
        },
        None => None,
    }
}

/// What a `result` message's fields decode to.
pub open spec fn decode_result_v(fields: Seq<(Seq<char>, JsonV)>) -> Option<MessageV> {
    match (
        field_of(fields, "subtype"@),
        decode_opt_str(field_of(fields, "result"@)),
        decode_opt_num(field_of(fields, "total_cost_usd"@)),
        decode_opt_num(field_of(fields, "duration_ms"@)),
        decode_opt_num(field_of(fields, "duration_api_ms"@)),
    ) {
        (
            Some(JsonV::Str(subtype)),
            Some(result),
            Some(total_cost_usd),
            Some(duration_ms),
            Some(duration_api_ms),
        ) => Some(MessageV::Result {
            subtype: subtype,
            result: result,
            total_cost_usd: total_cost_usd,
            duration_ms: duration_ms,
            duration_api_ms: duration_api_ms,
            extra: fields_without(
                fields,
                seq![
                    "type"@,
                    "subtype"@,
                    "result"@,
                    "total_cost_usd"@,
                    "duration_ms"@,
                    "duration_api_ms"@,
                ],
            ),
        }),
        _ => None,
    }
}

/// What one streamed message decodes to: an object tagged `system`, `user`,
/// `assistant` or `result`; any other shape fails.
pub open spec fn decode_msg_v(j: JsonV) -> Option<MessageV> {
    match j {
        JsonV::Obj(fields) => match tag_of(fields) {
            Some(t) => if t == "system"@ {
                decode_system_v(fields)
            } else if t == "user"@ {
                decode_user_v(fields)
            } else if t == "assistant"@ {
                decode_assistant_msg_v(fields)
            } else if t == "result"@ {
                decode_result_v(fields)
            } else {
                None
            },
            None => None,
        },
        _ => None,
    }
}

/// Clones the payload of a string value; fails on any other shape.
pub(crate) fn as_str_value(v: &JsonValue) -> (r: Option<String>)
    ensures
        match r {
            Some(s) => jv_of(*v) == JsonV::Str(s@),
            None => !(jv_of(*v) is Str),
        },
{
    match v {
        JsonValue::Str(s) => Some(s.clone()),
        JsonValue::Null => None,
        JsonValue::Bool(_) => None,
        JsonValue::Num(_) => None,
        JsonValue::Arr(_) => None,
        JsonValue::Obj(_) => None,
    }
}

/// Decodes a present optional-string field value.
pub(crate) fn opt_str_of(v: &JsonValue) -> (r: Option<Option<String>>)
    ensures
        match r {
            Some(os) => decode_opt_str(Some(jv_of(*v))) == Some(opt_str_view(os)),
            None => decode_opt_str(Some(jv_of(*v))) is None,
        },
{
    match v {
        JsonValue::Null => Some(None),
        JsonValue::Str(s) => Some(Some(s.clone())),
        JsonValue::Bool(_) => None,
        JsonValue::Num(_) => None,
        JsonValue::Arr(_) => None,
        JsonValue::Obj(_) => None,
    }
}

/// Decodes a present optional-number field value, keeping the number's text.
pub(crate) fn opt_num_of(v: &JsonValue) -> (r: Option<Option<String>>)
    ensures
        match r {
            Some(os) => decode_opt_num(Some(jv_of(*v))) == Some(opt_str_view(os)),
            None => decode_opt_num(Some(jv_of(*v))) is None,
        },
{
    match v {
        JsonValue::Null => Some(None),
        JsonValue::Num(t) => Some(Some(t.clone())),
        JsonValue::Bool(_) => None,
        JsonValue::Str(_) => None,
        JsonValue::Arr(_) => None,
        JsonValue::Obj(_) => None,
    }
}

/// Decodes a present optional-boolean field value.
pub(crate) fn opt_bool_of(v: &JsonValue) -> (r: Option<Option<bool>>)
    ensures
        match r {
            Some(ob) => decode_opt_bool(Some(jv_of(*v))) == Some(ob),
            None => decode_opt_bool(Some(jv_of(*v))) is None,
        },
{
    match v {
        JsonValue::Null => Some(None),
        JsonValue::Bool(b) => Some(Some(*b)),
        JsonValue::Num(_) => None,
        JsonValue::Str(_) => None,
        JsonValue::Arr(_) => None,
        JsonValue::Obj(_) => None,
    }
}

/// Decodes a present carried-through value field: null is absent, anything
/// else is kept whole.
pub(crate) fn opt_val_of(v: &JsonValue) -> (r: Option<JsonValue>)
    ensures
        opt_val_view(r) == decode_opt_val(Some(jv_of(*v))),
{
    match v {
        JsonValue::Null => None,
        other => Some(other.duplicate()),
    }
}

/// Decodes the fields of a `text` block, the first occurrence of each known
/// key winning, the rest preserved in order as `extra`.
#[verifier::loop_isolation(false)]
fn decode_text_block(fields: &Vec<(String, JsonValue)>) -> (r: Option<ContentBlock>)
    ensures
        r is Some <==> decode_text_v(jv_fields(fields@)) is Some,
        r matches Some(b) ==> decode_text_v(jv_fields(fields@)) == Some(b@),
{
    let ghost fv = jv_fields(fields@);
    let ghost keys: Seq<Seq<char>> = seq!["type"@, "text"@];
    proof {
        lemma_jv_fields(fields@);
        reveal_strlit("type");
        reveal_strlit("text");
        assert("type"@ != "text"@) by {
            assert("type"@[1] == 'y');
            assert("text"@[1] == 'e');
        }
        assert(fv.take(0) =~= Seq::<(Seq<char>, JsonV)>::empty());
    }
    let mut text: Option<String> = None;
    let mut extra: Vec<(String, JsonValue)> = Vec::new();
    let mut i: usize = 0;
    while i < fields.len()
        invariant
            i <= fv.len(),
            match text {
                Some(t) => field_of(fv.take(i as int), "text"@) == Some(JsonV::Str(t@)),
                None => field_of(fv.take(i as int), "text"@) is None,
            },
            jv_fields(extra@) == fields_without(fv.take(i as int), keys),
        decreases fv.len() - i,
    {
        let ghost cur = fv[i as int];
        proof {
            assert(fv.take(i as int + 1) =~= fv.take(i as int).push(cur));
            lemma_field_of_push(fv.take(i as int), cur, "text"@);
        }
        let k: &String = &fields[i].0;
        if str_eq(k.as_str(), "type") {
            proof {
                assert(keys.contains(cur.0)) by {
                    assert(keys[0] == "type"@);
                }
            }
        } else if str_eq(k.as_str(), "text") {
            proof {
                assert(keys.contains(cur.0)) by {
                    assert(keys[1] == "text"@);
                }
            }
            if text.is_none() {
                match as_str_value(&fields[i].1) {
                    Some(s) => {
                        text = Some(s);
                    },
                    None => {
                        proof {
                            assert(fv =~= fv.take(i as int + 1) + fv.skip(i as int + 1));
                            lemma_field_of_concat(
                                fv.take(i as int + 1),
                                fv.skip(i as int + 1),
                                "text"@,
                            );
                            assert(field_of(fv, "text"@) == Some(cur.1));
                        }
                        return None;
                    },
                }
            }
        } else {
            let key = k.clone();
            let dup = fields[i].1.duplicate();
            proof {
                assert(!keys.contains(cur.0)) by {
                    assert(forall|j: int| 0 <= j < keys.len() ==> keys[j] != cur.0);
                }
                lemma_jv_fields_push(extra@, (key, dup));
            }
            extra.push((key, dup));
        }
        i += 1;
    }
    proof {
        assert(fv.take(fv.len() as int) =~= fv);
    }
    match text {
        Some(t) => Some(ContentBlock::Text { text: t, extra }),
        None => None,
    }
}

/// Decodes the fields of a `tool_use` block.
#[verifier::loop_isolation(false)]
fn decode_tool_use_block(fields: &Vec<(String, JsonValue)>) -> (r: Option<ContentBlock>)
    ensures
        r is Some <==> decode_tool_use_v(jv_fields(fields@)) is Some,
        r matches Some(b) ==> decode_tool_use_v(jv_fields(fields@)) == Some(b@),
{
    let ghost fv = jv_fields(fields@);
    let ghost keys: Seq<Seq<char>> = seq!["type"@, "id"@, "name"@, "input"@];
    proof {
        lemma_jv_fields(fields@);
        reveal_strlit("type");
        reveal_strlit("id");
        reveal_strlit("name");
        reveal_strlit("input");
        assert("type"@ != "name"@) by {
            assert("type"@[0] == 't');
            assert("name"@[0] == 'n');
        }
        assert("type"@ != "id"@ && "type"@ != "input"@ && "id"@ != "name"@ && "id"@
            != "input"@ && "name"@ != "input"@) by {
            assert("type"@.len() == 4);
            assert("id"@.len() == 2);
            assert("name"@.len() == 4);
            assert("input"@.len() == 5);
            assert("name"@[0] == 'n');
            assert("type"@[0] == 't');
        }
        assert(fv.take(0) =~= Seq::<(Seq<char>, JsonV)>::empty());
    }
    let mut id: Option<String> = None;
    let mut name: Option<String> = None;
    let mut input: Option<JsonValue> = None;
    let mut extra: Vec<(String, JsonValue)> = Vec::new();
    let mut i: usize = 0;
    while i < fields.len()
        invariant
            i <= fv.len(),
            match id {
                Some(t) => field_of(fv.take(i as int), "id"@) == Some(JsonV::Str(t@)),
                None => field_of(fv.take(i as int), "id"@) is None,
            },
            match name {
                Some(t) => field_of(fv.take(i as int), "name"@) == Some(JsonV::Str(t@)),
                None => field_of(fv.take(i as int), "name"@) is None,
            },
            match input {
                Some(x) => field_of(fv.take(i as int), "input"@) == Some(jv_of(x)),
                None => field_of(fv.take(i as int), "input"@) is None,
            },
            jv_fields(extra@) == fields_without(fv.take(i as int), keys),
        decreases fv.len() - i,
    {
        let ghost cur = fv[i as int];
        proof {
            assert(fv.take(i as int + 1) =~= fv.take(i as int).push(cur));
            lemma_field_of_push(fv.take(i as int), cur, "id"@);
            lemma_field_of_push(fv.take(i as int), cur, "name"@);
            lemma_field_of_push(fv.take(i as int), cur, "input"@);
        }
        let k: &String = &fields[i].0;
        if str_eq(k.as_str(), "type") {
            proof {
                assert(keys.contains(cur.0)) by {
                    assert(keys[0] == "type"@);
                }
            }
        } else if str_eq(k.as_str(), "id") {
            proof {
                assert(keys.contains(cur.0)) by {
                    assert(keys[1] == "id"@);
                }
            }
            if id.is_none() {
                match as_str_value(&fields[i].1) {
                    Some(s) => {
                        id = Some(s);
                    },
                    None => {
                        proof {
                            assert(fv =~= fv.take(i as int + 1) + fv.skip(i as int + 1));
                            lemma_field_of_concat(
                                fv.take(i as int + 1),
                                fv.skip(i as int + 1),
                                "id"@,
                            );
                            assert(field_of(fv, "id"@) == Some(cur.1));
                        }
                        return None;
                    },
                }
            }
        } else if str_eq(k.as_str(), "name") {
            proof {
                assert(keys.contains(cur.0)) by {
                    assert(keys[2] == "name"@);
                }
            }
            if name.is_none() {
                match as_str_value(&fields[i].1) {
                    Some(s) => {
                        name = Some(s);
                    },
                    None => {
                        proof {
                            assert(fv =~= fv.take(i as int + 1) + fv.skip(i as int + 1));
                            lemma_field_of_concat(
                                fv.take(i as int + 1),
                                fv.skip(i as int + 1),
                                "name"@,
                            );
                            assert(field_of(fv, "name"@) == Some(cur.1));
                        }
                        return None;
                    },
                }
            }
        } else if str_eq(k.as_str(), "input") {
            proof {
                assert(keys.contains(cur.0)) by {
                    assert(keys[3] == "input"@);
                }
            }
            if input.is_none() {
                input = Some(fields[i].1.duplicate());
            }
        } else {
            let key = k.clone();
            let dup = fields[i].1.duplicate();
            proof {
                assert(!keys.contains(cur.0)) by {
                    assert(forall|j: int| 0 <= j < keys.len() ==> keys[j] != cur.0);
                }
                lemma_jv_fields_push(extra@, (key, dup));
            }
            extra.push((key, dup));
        }
        i += 1;
    }
    proof {
        assert(fv.take(fv.len() as int) =~= fv);
    }
    match (id, name, input) {
        (Some(id), Some(name), Some(input)) => Some(
            ContentBlock::ToolUse { id, name, input, extra },
        ),
        _ => None,
    }
}

/// Decodes the fields of a `tool_result` block.
#[verifier::loop_isolation(false)]
fn decode_tool_result_block(fields: &Vec<(String, JsonValue)>) -> (r: Option<ContentBlock>)
    ensures
        r is Some <==> decode_tool_result_v(jv_fields(fields@)) is Some,
        r matches Some(b) ==> decode_tool_result_v(jv_fields(fields@)) == Some(b@),
{
    let ghost fv = jv_fields(fields@);
    let ghost keys: Seq<Seq<char>> = seq!["type"@, "tool_use_id"@, "content"@, "is_error"@];
    proof {
        lemma_jv_fields(fields@);
        reveal_strlit("type");
        reveal_strlit("tool_use_id");
        reveal_strlit("content");
        reveal_strlit("is_error");
        assert("type"@ != "tool_use_id"@ && "type"@ != "content"@ && "type"@ != "is_error"@
            && "tool_use_id"@ != "content"@ && "tool_use_id"@ != "is_error"@ && "content"@
            != "is_error"@) by {
            assert("type"@.len() == 4);
            assert("tool_use_id"@.len() == 11);
            assert("content"@.len() == 7);
            assert("is_error"@.len() == 8);
        }
        assert(fv.take(0) =~= Seq::<(Seq<char>, JsonV)>::empty());
    }
    let mut tool_use_id: Option<String> = None;
    let mut content: Option<Option<JsonValue>> = None;
    let mut is_error: Option<Option<bool>> = None;
    let mut extra: Vec<(String, JsonValue)> = Vec::new();
    let mut i: usize = 0;
    while i < fields.len()
        invariant
            i <= fv.len(),
            match tool_use_id {
                Some(t) => field_of(fv.take(i as int), "tool_use_id"@) == Some(JsonV::Str(t@)),
                None => field_of(fv.take(i as int), "tool_use_id"@) is None,
            },
            match content {
                Some(ov) => field_of(fv.take(i as int), "content"@) is Some && decode_opt_val(
                    field_of(fv.take(i as int), "content"@),
                ) == opt_val_view(ov),
                None => field_of(fv.take(i as int), "content"@) is None,
            },
            match is_error {
                Some(ob) => decode_opt_bool(field_of(fv.take(i as int), "is_error"@)) == Some(
                    ob,
                ) && field_of(fv.take(i as int), "is_error"@) is Some,
                None => field_of(fv.take(i as int), "is_error"@) is None,
            },
            jv_fields(extra@) == fields_without(fv.take(i as int), keys),
        decreases fv.len() - i,
    {
        let ghost cur = fv[i as int];
        proof {
            assert(fv.take(i as int + 1) =~= fv.take(i as int).push(cur));
            lemma_field_of_push(fv.take(i as int), cur, "tool_use_id"@);
            lemma_field_of_push(fv.take(i as int), cur, "content"@);
            lemma_field_of_push(fv.take(i as int), cur, "is_error"@);
        }
        let k: &String = &fields[i].0;
        if str_eq(k.as_str(), "type") {
            proof {
                assert(keys.contains(cur.0)) by {
                    assert(keys[0] == "type"@);
                }
            }
        } else if str_eq(k.as_str(), "tool_use_id") {
            proof {
                assert(keys.contains(cur.0)) by {
                    assert(keys[1] == "tool_use_id"@);
                }
            }
            if tool_use_id.is_none() {
                match as_str_value(&fields[i].1) {
                    Some(s) => {
                        tool_use_id = Some(s);
                    },
                    None => {
                        proof {
                            assert(fv =~= fv.take(i as int + 1) + fv.skip(i as int + 1));
                            lemma_field_of_concat(
                                fv.take(i as int + 1),
                                fv.skip(i as int + 1),
                                "tool_use_id"@,
                            );
                            assert(field_of(fv, "tool_use_id"@) == Some(cur.1));
                        }
                        return None;
                    },
                }
            }
        } else if str_eq(k.as_str(), "content") {
            proof {
                assert(keys.contains(cur.0)) by {
                    assert(keys[2] == "content"@);
                }
            }
            if content.is_none() {
                content = Some(opt_val_of(&fields[i].1));
            }
        } else if str_eq(k.as_str(), "is_error") {
            proof {
                assert(keys.contains(cur.0)) by {
                    assert(keys[3] == "is_error"@);
                }
            }
            if is_error.is_none() {
                match opt_bool_of(&fields[i].1) {
                    Some(ob) => {
                        is_error = Some(ob);
                    },
                    None => {
                        proof {
                            assert(fv =~= fv.take(i as int + 1) + fv.skip(i as int + 1));
                            lemma_field_of_concat(
                                fv.take(i as int + 1),
                                fv.skip(i as int + 1),
                                "is_error"@,
                            );
                            assert(field_of(fv, "is_error"@) == Some(cur.1));
                        }
                        return None;
                    },
                }
            }
        } else {
            let key = k.clone();
            let dup = fields[i].1.duplicate();
            proof {
                assert(!keys.contains(cur.0)) by {
                    assert(forall|j: int| 0 <= j < keys.len() ==> keys[j] != cur.0);
                }
                lemma_jv_fields_push(extra@, (key, dup));
            }
            extra.push((key, dup));
        }
        i += 1;
    }
    proof {
        assert(fv.take(fv.len() as int) =~= fv);
    }
    match tool_use_id {
        Some(tid) => {
            let content_val: Option<JsonValue> = match content {
                Some(ov) => ov,
                None => None,
            };
            let is_error_val: Option<bool> = match is_error {
                Some(ob) => ob,
                None => None,
            };
            Some(
                ContentBlock::ToolResult {
                    tool_use_id: tid,
                    content: content_val,
                    is_error: is_error_val,
                    extra,
                },
            )
        },
        None => None,
    }
}

/// Decodes one content block: a known tag decodes as that block, any other
/// string tag yields `Unknown`, anything else fails.
pub fn decode_block(v: &JsonValue) -> (r: Option<ContentBlock>)
    ensures
        r is Some <==> decode_block_v(jv_of(*v)) is Some,
        r matches Some(b) ==> decode_block_v(jv_of(*v)) == Some(b@),
{
    match v {
        JsonValue::Obj(fields) => {
            match crate::json::obj_field(fields, "type") {
                Some(tv) => match tv {
                    JsonValue::Str(t) => {
                        proof {
                            assert(tag_of(jv_fields(fields@)) == Some(t@));
                        }
                        if str_eq(t.as_str(), "text") {
                            decode_text_block(fields)
                        } else if str_eq(t.as_str(), "tool_use") {
                            decode_tool_use_block(fields)
                        } else if str_eq(t.as_str(), "tool_result") {
                            decode_tool_result_block(fields)
                        } else {
                            Some(ContentBlock::Unknown)
                        }
                    },
                    JsonValue::Null => None,
                    JsonValue::Bool(_) => None,
                    JsonValue::Num(_) => None,
                    JsonValue::Arr(_) => None,
                    JsonValue::Obj(_) => None,
                },
                None => None,
            }
        },
        JsonValue::Null => None,
        JsonValue::Bool(_) => None,
        JsonValue::Num(_) => None,
        JsonValue::Str(_) => None,
        JsonValue::Arr(_) => None,
    }
}

/// Elementwise decoding splits across a concatenation.
pub proof fn lemma_decode_blocks_concat(a: Seq<JsonV>, b: Seq<JsonV>)
    ensures
        decode_blocks_v(a + b) == (match decode_blocks_v(a) {
            None => None::<Seq<BlockV>>,
            Some(x) => match decode_blocks_v(b) {
                None => None::<Seq<BlockV>>,
                Some(y) => Some(x + y),
            },
        }),
    decreases a,
{
    if a.len() == 0 {
        assert(a + b =~= b);
        match decode_blocks_v(b) {
            Some(y) => {
                assert(decode_blocks_v(a) == Some(Seq::<BlockV>::empty()));
                assert(Seq::<BlockV>::empty() + y =~= y);
            },
            None => {},
        }
    } else {
        assert((a + b)[0] == a[0]);
        assert((a + b).subrange(1, (a + b).len() as int) =~= a.subrange(1, a.len() as int) + b);
        lemma_decode_blocks_concat(a.subrange(1, a.len() as int), b);
        match decode_block_v(a[0]) {
            Some(h) => {
                match (decode_blocks_v(a.subrange(1, a.len() as int)), decode_blocks_v(b)) {
                    (Some(x), Some(y)) => {
                        assert(seq![h] + (x + y) =~= (seq![h] + x) + y);
                    },
                    _ => {},
                }
            },
            None => {},
        }
    }
}

/// Decodes a list of content blocks; every element must decode.
#[verifier::loop_isolation(false)]
fn decode_blocks(items: &Vec<JsonValue>) -> (r: Option<Vec<ContentBlock>>)
    ensures
        r is Some <==> decode_blocks_v(jv_seq(items@)) is Some,
        r matches Some(bs) ==> decode_blocks_v(jv_seq(items@)) == Some(blocks_view(bs@)),
{
    let ghost sv = jv_seq(items@);
    proof {
        lemma_jv_seq(items@);
        assert(sv.take(0) =~= Seq::<JsonV>::empty());
        assert(blocks_view(Seq::<ContentBlock>::empty()) =~= Seq::<BlockV>::empty());
    }
    let mut out: Vec<ContentBlock> = Vec::new();
    let mut i: usize = 0;
    while i < items.len()
        invariant
            i <= sv.len(),
            decode_blocks_v(sv.take(i as int)) == Some(blocks_view(out@)),
        decreases sv.len() - i,
    {
        let ghost cur = sv[i as int];
        proof {
            assert(sv.take(i as int + 1) =~= sv.take(i as int) + seq![cur]);
            lemma_decode_blocks_concat(sv.take(i as int), seq![cur]);
            assert(seq![cur][0] == cur);
            assert(seq![cur].subrange(1, 1) =~= Seq::<JsonV>::empty());
        }
        match decode_block(&items[i]) {
            Some(b) => {
                proof {
                    assert(decode_blocks_v(seq![cur]) == Some(seq![b@]));
                    assert(blocks_view(out@.push(b)) =~= blocks_view(out@).push(b@));
                    assert(blocks_view(out@) + seq![b@] =~= blocks_view(out@).push(b@));
                }
                out.push(b);
            },
            None => {
                proof {
                    assert(decode_blocks_v(seq![cur]) is None);
                    assert(decode_blocks_v(sv.take(i as int + 1)) is None);
                    assert(sv =~= sv.take(i as int + 1) + sv.skip(i as int + 1));
                    lemma_decode_blocks_concat(sv.take(i as int + 1), sv.skip(i as int + 1));
                }
                return None;
            },
        }
        i += 1;
    }
    proof {
        assert(sv.take(sv.len() as int) =~= sv);
    }
    Some(out)
}

/// Decodes a value that must be a list of content blocks.
fn as_blocks(v: &JsonValue) -> (r: Option<Vec<ContentBlock>>)
    ensures
        r is Some <==> (jv_of(*v) matches JsonV::Arr(iv) && decode_blocks_v(iv) is Some),
        r matches Some(bs) ==> (jv_of(*v) matches JsonV::Arr(iv) && decode_blocks_v(iv) == Some(
            blocks_view(bs@),
        )),
{
    match v {
        JsonValue::Arr(items) => decode_blocks(items),
        JsonValue::Null => None,
        JsonValue::Bool(_) => None,
        JsonValue::Num(_) => None,
        JsonValue::Str(_) => None,
        JsonValue::Obj(_) => None,
    }
}

/// Decodes an assistant message from its JSON value.
#[verifier::loop_isolation(false)]
pub fn decode_assistant(v: &JsonValue) -> (r: Option<AssistantMessage>)
    ensures
        r is Some <==> decode_assistant_v(jv_of(*v)) is Some,
        r matches Some(m) ==> decode_assistant_v(jv_of(*v)) == Some(m@),
{
    let fields = match v {
        JsonValue::Obj(fields) => fields,
        JsonValue::Null => {
            return None;
        },
        JsonValue::Bool(_) => {
            return None;
        },
        JsonValue::Num(_) => {
            return None;
        },
        JsonValue::Str(_) => {
            return None;
        },
        JsonValue::Arr(_) => {
            return None;
        },
    };
    let ghost fv = jv_fields(fields@);
    let ghost keys: Seq<Seq<char>> = seq!["id"@, "role"@, "model"@, "content"@, "stop_reason"@];
    proof {
        lemma_jv_fields(fields@);
        reveal_strlit("id");
        reveal_strlit("role");
        reveal_strlit("model");
        reveal_strlit("content");
        reveal_strlit("stop_reason");
        assert("id"@ != "role"@ && "id"@ != "model"@ && "id"@ != "content"@ && "id"@
            != "stop_reason"@ && "role"@ != "model"@ && "role"@ != "content"@ && "role"@
            != "stop_reason"@ && "model"@ != "content"@ && "model"@ != "stop_reason"@
            && "content"@ != "stop_reason"@) by {
            assert("id"@.len() == 2);
            assert("role"@.len() == 4);
            assert("model"@.len() == 5);
            assert("content"@.len() == 7);
            assert("stop_reason"@.len() == 11);
        }
        assert(fv.take(0) =~= Seq::<(Seq<char>, JsonV)>::empty());
    }
    let mut id: Option<Option<String>> = None;
    let mut role: Option<Option<String>> = None;
    let mut model: Option<Option<String>> = None;
    let mut stop_reason: Option<Option<String>> = None;
    let mut content: Option<Vec<ContentBlock>> = None;
    let mut extra: Vec<(String, JsonValue)> = Vec::new();
    let mut i: usize = 0;
    while i < fields.len()
        invariant
            i <= fv.len(),
            match id {
                Some(os) => field_of(fv.take(i as int), "id"@) is Some && decode_opt_str(
                    field_of(fv.take(i as int), "id"@),
                ) == Some(opt_str_view(os)),
                None => field_of(fv.take(i as int), "id"@) is None,
            },
            match role {
                Some(os) => field_of(fv.take(i as int), "role"@) is Some && decode_opt_str(
                    field_of(fv.take(i as int), "role"@),
                ) == Some(opt_str_view(os)),
                None => field_of(fv.take(i as int), "role"@) is None,
            },
            match model {
                Some(os) => field_of(fv.take(i as int), "model"@) is Some && decode_opt_str(
                    field_of(fv.take(i as int), "model"@),
                ) == Some(opt_str_view(os)),
                None => field_of(fv.take(i as int), "model"@) is None,
            },
            match stop_reason {
                Some(os) => field_of(fv.take(i as int), "stop_reason"@) is Some
                    && decode_opt_str(field_of(fv.take(i as int), "stop_reason"@)) == Some(
                    opt_str_view(os),
                ),
                None => field_of(fv.take(i as int), "stop_reason"@) is None,
            },
            match content {
                Some(bs) => field_of(fv.take(i as int), "content"@) matches Some(
                    JsonV::Arr(iv),
                ) && decode_blocks_v(iv) == Some(blocks_view(bs@)),
                None => field_of(fv.take(i as int), "content"@) is None,
            },
            jv_fields(extra@) == fields_without(fv.take(i as int), keys),
        decreases fv.len() - i,
    {
        let ghost cur = fv[i as int];
        proof {
            assert(fv.take(i as int + 1) =~= fv.take(i as int).push(cur));
            lemma_field_of_push(fv.take(i as int), cur, "id"@);
            lemma_field_of_push(fv.take(i as int), cur, "role"@);
            lemma_field_of_push(fv.take(i as int), cur, "model"@);
            lemma_field_of_push(fv.take(i as int), cur, "stop_reason"@);
            lemma_field_of_push(fv.take(i as int), cur, "content"@);
        }
        let k: &String = &fields[i].0;
        if str_eq(k.as_str(), "id") {
            proof {
                assert(keys.contains(cur.0)) by {
                    assert(keys[0] == "id"@);
                }
            }
            if id.is_none() {
                match opt_str_of(&fields[i].1) {
                    Some(os) => {
                        id = Some(os);
                    },
                    None => {
                        proof {
                            assert(fv =~= fv.take(i as int + 1) + fv.skip(i as int + 1));
                            lemma_field_of_concat(
                                fv.take(i as int + 1),
                                fv.skip(i as int + 1),
                                "id"@,
                            );
                            assert(field_of(fv, "id"@) == Some(cur.1));
                        }
                        return None;
                    },
                }
            }
        } else if str_eq(k.as_str(), "role") {
            proof {
                assert(keys.contains(cur.0)) by {
                    assert(keys[1] == "role"@);
                }
            }
            if role.is_none() {
                match opt_str_of(&fields[i].1) {
                    Some(os) => {
                        role = Some(os);
                    },
                    None => {
                        proof {
                            assert(fv =~= fv.take(i as int + 1) + fv.skip(i as int + 1));
                            lemma_field_of_concat(
                                fv.take(i as int + 1),
                                fv.skip(i as int + 1),
                                "role"@,
                            );
                            assert(field_of(fv, "role"@) == Some(cur.1));
                        }
                        return None;
                    },
                }
            }
        } else if str_eq(k.as_str(), "model") {
            proof {
                assert(keys.contains(cur.0)) by {
                    assert(keys[2] == "model"@);
                }
            }
            if model.is_none() {
                match opt_str_of(&fields[i].1) {
                    Some(os) => {
                        model = Some(os);
                    },
                    None => {
                        proof {
                            assert(fv =~= fv.take(i as int + 1) + fv.skip(i as int + 1));
                            lemma_field_of_concat(
                                fv.take(i as int + 1),
                                fv.skip(i as int + 1),
                                "model"@,
                            );
                            assert(field_of(fv, "model"@) == Some(cur.1));
                        }
                        return None;
                    },
                }
            }
        } else if str_eq(k.as_str(), "stop_reason") {
            proof {
                assert(keys.contains(cur.0)) by {
                    assert(keys[4] == "stop_reason"@);
                }
            }
            if stop_reason.is_none() {
                match opt_str_of(&fields[i].1) {
                    Some(os) => {
                        stop_reason = Some(os);
                    },
                    None => {
                        proof {
                            assert(fv =~= fv.take(i as int + 1) + fv.skip(i as int + 1));
                            lemma_field_of_concat(
                                fv.take(i as int + 1),
                                fv.skip(i as int + 1),
                                "stop_reason"@,
                            );
                            assert(field_of(fv, "stop_reason"@) == Some(cur.1));
                        }
                        return None;
                    },
                }
            }
        } else if str_eq(k.as_str(), "content") {
            proof {
                assert(keys.contains(cur.0)) by {
                    assert(keys[3] == "content"@);
                }
            }
            if content.is_none() {
                match as_blocks(&fields[i].1) {
                    Some(bs) => {
                        content = Some(bs);
                    },
                    None => {
                        proof {
                            assert(fv =~= fv.take(i as int + 1) + fv.skip(i as int + 1));
                            lemma_field_of_concat(
                                fv.take(i as int + 1),
                                fv.skip(i as int + 1),
                                "content"@,
                            );
                            assert(field_of(fv, "content"@) == Some(cur.1));
                        }
                        return None;
                    },
                }
            }
        } else {
            let key = k.clone();
            let dup = fields[i].1.duplicate();
            proof {
                assert(!keys.contains(cur.0)) by {
                    assert(forall|j: int| 0 <= j < keys.len() ==> keys[j] != cur.0);
                }
                lemma_jv_fields_push(extra@, (key, dup));
            }
            extra.push((key, dup));
        }
        i += 1;
    }
    proof {
        assert(fv.take(fv.len() as int) =~= fv);
    }
    match content {
        Some(content) => {
            let id_val: Option<String> = match id {
                Some(os) => os,
                None => None,
            };
            let role_val: Option<String> = match role {
                Some(os) => os,
                None => None,
            };
            let model_val: Option<String> = match model {
                Some(os) => os,
                None => None,
            };
            let stop_val: Option<String> = match stop_reason {
                Some(os) => os,
                None => None,
            };
            Some(
                AssistantMessage {
                    id: id_val,
                    role: role_val,
                    model: model_val,
                    content,
                    stop_reason: stop_val,
                    extra,
                },
            )
        },
        None => None,
    }
}

/// A content block whose tag is a string other than the known three decodes
/// successfully to `Unknown`, rather than failing the whole message.
pub proof fn lemma_unknown_block_decodes(fields: Seq<(Seq<char>, JsonV)>, t: Seq<char>)
    requires
        tag_of(fields) == Some(t),
        t != "text"@,
        t != "tool_use"@,
        t != "tool_result"@,
    ensures
        decode_block_v(JsonV::Obj(fields)) == Some(BlockV::Unknown),
{
}

/// Decodes the fields of a `system` message.
#[verifier::loop_isolation(false)]
fn decode_system_fields(fields: &Vec<(String, JsonValue)>) -> (r: Option<ClaudeMessage>)
    ensures
        r is Some <==> decode_system_v(jv_fields(fields@)) is Some,
        r matches Some(m) ==> decode_system_v(jv_fields(fields@)) == Some(m@),
{
    let ghost fv = jv_fields(fields@);
    let ghost keys: Seq<Seq<char>> = seq![
        "type"@,
        "subtype"@,
        "session_id"@,
        "tools"@,
        "mcp_servers"@,
    ];
    proof {
        lemma_jv_fields(fields@);
        reveal_strlit("type");
        reveal_strlit("subtype");
        reveal_strlit("session_id");
        reveal_strlit("tools");
        reveal_strlit("mcp_servers");
        assert("type"@ != "subtype"@ && "type"@ != "session_id"@ && "type"@ != "tools"@
            && "type"@ != "mcp_servers"@ && "subtype"@ != "session_id"@ && "subtype"@
            != "tools"@ && "subtype"@ != "mcp_servers"@ && "session_id"@ != "tools"@
            && "session_id"@ != "mcp_servers"@ && "tools"@ != "mcp_servers"@) by {
            assert("type"@.len() == 4);
            assert("subtype"@.len() == 7);
            assert("session_id"@.len() == 10);
            assert("tools"@.len() == 5);
            assert("mcp_servers"@.len() == 11);
        }
        assert(fv.take(0) =~= Seq::<(Seq<char>, JsonV)>::empty());
    }
    let mut subtype: Option<String> = None;
    let mut session_id: Option<Option<String>> = None;
    let mut tools: Option<Option<JsonValue>> = None;
    let mut mcp_servers: Option<Option<JsonValue>> = None;
    let mut extra: Vec<(String, JsonValue)> = Vec::new();
    let mut i: usize = 0;
    while i < fields.len()
        invariant
            i <= fv.len(),
            match subtype {
                Some(t) => field_of(fv.take(i as int), "subtype"@) == Some(JsonV::Str(t@)),
                None => field_of(fv.take(i as int), "subtype"@) is None,
            },
            match session_id {
                Some(os) => field_of(fv.take(i as int), "session_id"@) is Some
                    && decode_opt_str(field_of(fv.take(i as int), "session_id"@)) == Some(
                    opt_str_view(os),
                ),
                None => field_of(fv.take(i as int), "session_id"@) is None,
            },
            match tools {
                Some(ov) => field_of(fv.take(i as int), "tools"@) is Some && decode_opt_val(
                    field_of(fv.take(i as int), "tools"@),
                ) == opt_val_view(ov),
                None => field_of(fv.take(i as int), "tools"@) is None,
            },
            match mcp_servers {
                Some(ov) => field_of(fv.take(i as int), "mcp_servers"@) is Some
                    && decode_opt_val(field_of(fv.take(i as int), "mcp_servers"@))
                    == opt_val_view(ov),
                None => field_of(fv.take(i as int), "mcp_servers"@) is None,
            },
            jv_fields(extra@) == fields_without(fv.take(i as int), keys),
        decreases fv.len() - i,
    {
        let ghost cur = fv[i as int];
        proof {
            assert(fv.take(i as int + 1) =~= fv.take(i as int).push(cur));
            lemma_field_of_push(fv.take(i as int), cur, "subtype"@);
            lemma_field_of_push(fv.take(i as int), cur, "session_id"@);
            lemma_field_of_push(fv.take(i as int), cur, "tools"@);
            lemma_field_of_push(fv.take(i as int), cur, "mcp_servers"@);
        }
        let k: &String = &fields[i].0;
        if str_eq(k.as_str(), "type") {
            proof {
                assert(keys.contains(cur.0)) by {
                    assert(keys[0] == "type"@);
                }
            }
        } else if str_eq(k.as_str(), "subtype") {
            proof {
                assert(keys.contains(cur.0)) by {
                    assert(keys[1] == "subtype"@);
                }
            }
            if subtype.is_none() {
                match as_str_value(&fields[i].1) {
                    Some(s) => {
                        subtype = Some(s);
                    },
                    None => {
                        proof {
                            assert(fv =~= fv.take(i as int + 1) + fv.skip(i as int + 1));
                            lemma_field_of_concat(
                                fv.take(i as int + 1),
                                fv.skip(i as int + 1),
                                "subtype"@,
                            );
                            assert(field_of(fv, "subtype"@) == Some(cur.1));
                        }
                        return None;
                    },
                }
            }
        } else if str_eq(k.as_str(), "session_id") {
            proof {
                assert(keys.contains(cur.0)) by {
                    assert(keys[2] == "session_id"@);
                }
            }
            if session_id.is_none() {
                match opt_str_of(&fields[i].1) {
                    Some(os) => {
                        session_id = Some(os);
                    },
                    None => {
                        proof {
                            assert(fv =~= fv.take(i as int + 1) + fv.skip(i as int + 1));
                            lemma_field_of_concat(
                                fv.take(i as int + 1),
                                fv.skip(i as int + 1),
                                "session_id"@,
                            );
                            assert(field_of(fv, "session_id"@) == Some(cur.1));
                        }
                        return None;
                    },
                }
            }
        } else if str_eq(k.as_str(), "tools") {
            proof {
                assert(keys.contains(cur.0)) by {
                    assert(keys[3] == "tools"@);
                }
            }
            if tools.is_none() {
                tools = Some(opt_val_of(&fields[i].1));
            }
        } else if str_eq(k.as_str(), "mcp_servers") {
            proof {
                assert(keys.contains(cur.0)) by {
                    assert(keys[4] == "mcp_servers"@);
                }
            }
            if mcp_servers.is_none() {
                mcp_servers = Some(opt_val_of(&fields[i].1));
            }
        } else {
            let key = k.clone();
            let dup = fields[i].1.duplicate();
            proof {
                assert(!keys.contains(cur.0)) by {
                    assert(forall|j: int| 0 <= j < keys.len() ==> keys[j] != cur.0);
                }
                lemma_jv_fields_push(extra@, (key, dup));
            }
            extra.push((key, dup));
        }
        i += 1;
    }
    proof {
        assert(fv.take(fv.len() as int) =~= fv);
    }
    match subtype {
        Some(subtype) => {
            let session_id_val: Option<String> = match session_id {
                Some(os) => os,
                None => None,
            };
            let tools_val: Option<JsonValue> = match tools {
                Some(ov) => ov,
                None => None,
            };
            let mcp_val: Option<JsonValue> = match mcp_servers {
                Some(ov) => ov,
                None => None,
            };
            Some(
                ClaudeMessage::System {
                    subtype,
                    session_id: session_id_val,
                    tools: tools_val,
                    mcp_servers: mcp_val,
                    extra,
                },
            )
        },
        None => None,
    }
}

/// Decodes the fields of a `user` message.
#[verifier::loop_isolation(false)]
fn decode_user_fields(fields: &Vec<(String, JsonValue)>) -> (r: Option<ClaudeMessage>)
    ensures
        r is Some <==> decode_user_v(jv_fields(fields@)) is Some,
        r matches Some(m) ==> decode_user_v(jv_fields(fields@)) == Some(m@),
{
    let ghost fv = jv_fields(fields@);
    let ghost keys: Seq<Seq<char>> = seq!["type"@, "message"@];
    proof {
        lemma_jv_fields(fields@);
        reveal_strlit("type");
        reveal_strlit("message");
        assert("type"@ != "message"@) by {
            assert("type"@.len() == 4);
            assert("message"@.len() == 7);
        }
        assert(fv.take(0) =~= Seq::<(Seq<char>, JsonV)>::empty());
    }
    let mut message: Option<JsonValue> = None;
    let mut extra: Vec<(String, JsonValue)> = Vec::new();
    let mut i: usize = 0;
    while i < fields.len()
        invariant
            i <= fv.len(),
            match message {
                Some(x) => field_of(fv.take(i as int), "message"@) == Some(jv_of(x)),
                None => field_of(fv.take(i as int), "message"@) is None,
            },
            jv_fields(extra@) == fields_without(fv.take(i as int), keys),
        decreases fv.len() - i,
    {
        let ghost cur = fv[i as int];
        proof {
            assert(fv.take(i as int + 1) =~= fv.take(i as int).push(cur));
            lemma_field_of_push(fv.take(i as int), cur, "message"@);
        }
        let k: &String = &fields[i].0;
        if str_eq(k.as_str(), "type") {
            proof {
                assert(keys.contains(cur.0)) by {
                    assert(keys[0] == "type"@);
                }
            }
        } else if str_eq(k.as_str(), "message") {
            proof {
                assert(keys.contains(cur.0)) by {
                    assert(keys[1] == "message"@);
                }
            }
            if message.is_none() {
                message = Some(fields[i].1.duplicate());
            }
        } else {
            let key = k.clone();
            let dup = fields[i].1.duplicate();
            proof {
                assert(!keys.contains(cur.0)) by {
                    assert(forall|j: int| 0 <= j < keys.len() ==> keys[j] != cur.0);
                }
                lemma_jv_fields_push(extra@, (key, dup));
            }
            extra.push((key, dup));
        }
        i += 1;
    }
    proof {
        assert(fv.take(fv.len() as int) =~= fv);
    }
    match message {
        Some(message) => Some(ClaudeMessage::User { message, extra }),
        None => None,
    }
}

/// Decodes the fields of an `assistant` message.
#[verifier::loop_isolation(false)]
fn decode_assistant_fields(fields: &Vec<(String, JsonValue)>) -> (r: Option<ClaudeMessage>)
    ensures
        r is Some <==> decode_assistant_msg_v(jv_fields(fields@)) is Some,
        r matches Some(m) ==> decode_assistant_msg_v(jv_fields(fields@)) == Some(m@),
{
    let ghost fv = jv_fields(fields@);
    let ghost keys: Seq<Seq<char>> = seq!["type"@, "message"@];
    proof {
        lemma_jv_fields(fields@);
        reveal_strlit("type");
        reveal_strlit("message");
        assert("type"@ != "message"@) by {
            assert("type"@.len() == 4);
            assert("message"@.len() == 7);
        }
        assert(fv.take(0) =~= Seq::<(Seq<char>, JsonV)>::empty());
    }
    let mut message: Option<AssistantMessage> = None;
    let mut extra: Vec<(String, JsonValue)> = Vec::new();
    let mut i: usize = 0;
    while i < fields.len()
        invariant
            i <= fv.len(),
            match message {
                Some(am) => field_of(fv.take(i as int), "message"@) matches Some(mv)
                    && decode_assistant_v(mv) == Some(am@),
                None => field_of(fv.take(i as int), "message"@) is None,
            },
            jv_fields(extra@) == fields_without(fv.take(i as int), keys),
        decreases fv.len() - i,
    {
        let ghost cur = fv[i as int];
        proof {
            assert(fv.take(i as int + 1) =~= fv.take(i as int).push(cur));
            lemma_field_of_push(fv.take(i as int), cur, "message"@);
        }
        let k: &String = &fields[i].0;
        if str_eq(k.as_str(), "type") {
            proof {
                assert(keys.contains(cur.0)) by {
                    assert(keys[0] == "type"@);
                }
            }
        } else if str_eq(k.as_str(), "message") {
            proof {
                assert(keys.contains(cur.0)) by {
                    assert(keys[1] == "message"@);
                }
            }
            if message.is_none() {
                match decode_assistant(&fields[i].1) {
                    Some(am) => {
                        message = Some(am);
                    },
                    None => {
                        proof {
                            assert(fv =~= fv.take(i as int + 1) + fv.skip(i as int + 1));
                            lemma_field_of_concat(
                                fv.take(i as int + 1),
                                fv.skip(i as int + 1),
                                "message"@,
                            );
                            assert(field_of(fv, "message"@) == Some(cur.1));
                        }
                        return None;
                    },
                }
            }
        } else {
            let key = k.clone();
            let dup = fields[i].1.duplicate();
            proof {
                assert(!keys.contains(cur.0)) by {
                    assert(forall|j: int| 0 <= j < keys.len() ==> keys[j] != cur.0);
                }
                lemma_jv_fields_push(extra@, (key, dup));
            }
            extra.push((key, dup));
        }
        i += 1;
    }
    proof {
        assert(fv.take(fv.len() as int) =~= fv);
    }
    match message {
        Some(message) => Some(ClaudeMessage::Assistant { message, extra }),
        None => None,
    }
}

/// Decodes the fields of a `result` message.
#[verifier::loop_isolation(false)]
fn decode_result_fields(fields: &Vec<(String, JsonValue)>) -> (r: Option<ClaudeMessage>)
    ensures
        r is Some <==> decode_result_v(jv_fields(fields@)) is Some,
        r matches Some(m) ==> decode_result_v(jv_fields(fields@)) == Some(m@),
{
    let ghost fv = jv_fields(fields@);
    let ghost keys: Seq<Seq<char>> = seq![
        "type"@,
        "subtype"@,
        "result"@,
        "total_cost_usd"@,
        "duration_ms"@,
        "duration_api_ms"@,
    ];
    proof {
        lemma_jv_fields(fields@);
        reveal_strlit("type");
        reveal_strlit("subtype");
        reveal_strlit("result");
        reveal_strlit("total_cost_usd");
        reveal_strlit("duration_ms");
        reveal_strlit("duration_api_ms");
        assert("type"@ != "subtype"@ && "type"@ != "result"@ && "type"@ != "total_cost_usd"@
            && "type"@ != "duration_ms"@ && "type"@ != "duration_api_ms"@ && "subtype"@
            != "result"@ && "subtype"@ != "total_cost_usd"@ && "subtype"@ != "duration_ms"@
            && "subtype"@ != "duration_api_ms"@ && "result"@ != "total_cost_usd"@ && "result"@
            != "duration_ms"@ && "result"@ != "duration_api_ms"@ && "total_cost_usd"@
            != "duration_ms"@ && "total_cost_usd"@ != "duration_api_ms"@ && "duration_ms"@
            != "duration_api_ms"@) by {
            assert("type"@.len() == 4);
            assert("subtype"@.len() == 7);
            assert("result"@.len() == 6);
            assert("total_cost_usd"@.len() == 14);
            assert("duration_ms"@.len() == 11);
            assert("duration_api_ms"@.len() == 15);
        }
        assert(fv.take(0) =~= Seq::<(Seq<char>, JsonV)>::empty());
    }
    let mut subtype: Option<String> = None;
    let mut result: Option<Option<String>> = None;
    let mut total_cost_usd: Option<Option<String>> = None;
    let mut duration_ms: Option<Option<String>> = None;
    let mut duration_api_ms: Option<Option<String>> = None;
    let mut extra: Vec<(String, JsonValue)> = Vec::new();
    let mut i: usize = 0;
    while i < fields.len()
        invariant
            i <= fv.len(),
            match subtype {
                Some(t) => field_of(fv.take(i as int), "subtype"@) == Some(JsonV::Str(t@)),
                None => field_of(fv.take(i as int), "subtype"@) is None,
            },
            match result {
                Some(os) => field_of(fv.take(i as int), "result"@) is Some && decode_opt_str(
                    field_of(fv.take(i as int), "result"@),
                ) == Some(opt_str_view(os)),
                None => field_of(fv.take(i as int), "result"@) is None,
            },
            match total_cost_usd {
                Some(os) => field_of(fv.take(i as int), "total_cost_usd"@) is Some
                    && decode_opt_num(field_of(fv.take(i as int), "total_cost_usd"@)) == Some(
                    opt_str_view(os),
                ),
                None => field_of(fv.take(i as int), "total_cost_usd"@) is None,
            },
            match duration_ms {
                Some(os) => field_of(fv.take(i as int), "duration_ms"@) is Some
                    && decode_opt_num(field_of(fv.take(i as int), "duration_ms"@)) == Some(
                    opt_str_view(os),
                ),
                None => field_of(fv.take(i as int), "duration_ms"@) is None,
            },
            match duration_api_ms {
                Some(os) => field_of(fv.take(i as int), "duration_api_ms"@) is Some
                    && decode_opt_num(field_of(fv.take(i as int), "duration_api_ms"@)) == Some(
                    opt_str_view(os),
                ),
                None => field_of(fv.take(i as int), "duration_api_ms"@) is None,
            },
            jv_fields(extra@) == fields_without(fv.take(i as int), keys),
        decreases fv.len() - i,
    {
        let ghost cur = fv[i as int];
        proof {
            assert(fv.take(i as int + 1) =~= fv.take(i as int).push(cur));
            lemma_field_of_push(fv.take(i as int), cur, "subtype"@);
            lemma_field_of_push(fv.take(i as int), cur, "result"@);
            lemma_field_of_push(fv.take(i as int), cur, "total_cost_usd"@);
            lemma_field_of_push(fv.take(i as int), cur, "duration_ms"@);
            lemma_field_of_push(fv.take(i as int), cur, "duration_api_ms"@);
        }
        let k: &String = &fields[i].0;
        if str_eq(k.as_str(), "type") {
            proof {
                assert(keys.contains(cur.0)) by {
                    assert(keys[0] == "type"@);
                }
            }
        } else if str_eq(k.as_str(), "subtype") {
            proof {
                assert(keys.contains(cur.0)) by {
                    assert(keys[1] == "subtype"@);
                }
            }
            if subtype.is_none() {
                match as_str_value(&fields[i].1) {
                    Some(s) => {
                        subtype = Some(s);
                    },
                    None => {
                        proof {
                            assert(fv =~= fv.take(i as int + 1) + fv.skip(i as int + 1));
                            lemma_field_of_concat(
                                fv.take(i as int + 1),
                                fv.skip(i as int + 1),
                                "subtype"@,
                            );
                            assert(field_of(fv, "subtype"@) == Some(cur.1));
                        }
                        return None;
                    },
                }
            }
        } else if str_eq(k.as_str(), "result") {
            proof {
                assert(keys.contains(cur.0)) by {
                    assert(keys[2] == "result"@);
                }
            }
            if result.is_none() {
                match opt_str_of(&fields[i].1) {
                    Some(os) => {
                        result = Some(os);
                    },
                    None => {
                        proof {
                            assert(fv =~= fv.take(i as int + 1) + fv.skip(i as int + 1));
                            lemma_field_of_concat(
                                fv.take(i as int + 1),
                                fv.skip(i as int + 1),
                                "result"@,
                            );
                            assert(field_of(fv, "result"@) == Some(cur.1));
                        }
                        return None;
                    },
                }
            }
        } else if str_eq(k.as_str(), "total_cost_usd") {
            proof {
                assert(keys.contains(cur.0)) by {
                    assert(keys[3] == "total_cost_usd"@);
                }
            }
            if total_cost_usd.is_none() {
                match opt_num_of(&fields[i].1) {
                    Some(os) => {
                        total_cost_usd = Some(os);
                    },
                    None => {
                        proof {
                            assert(fv =~= fv.take(i as int + 1) + fv.skip(i as int + 1));
                            lemma_field_of_concat(
                                fv.take(i as int + 1),
                                fv.skip(i as int + 1),
                                "total_cost_usd"@,
                            );
                            assert(field_of(fv, "total_cost_usd"@) == Some(cur.1));
                        }
                        return None;
                    },
                }
            }
        } else if str_eq(k.as_str(), "duration_ms") {
            proof {
                assert(keys.contains(cur.0)) by {
                    assert(keys[4] == "duration_ms"@);
                }
            }
            if duration_ms.is_none() {
                match opt_num_of(&fields[i].1) {
                    Some(os) => {
                        duration_ms = Some(os);
                    },
                    None => {
                        proof {
                            assert(fv =~= fv.take(i as int + 1) + fv.skip(i as int + 1));
                            lemma_field_of_concat(
                                fv.take(i as int + 1),
                                fv.skip(i as int + 1),
                                "duration_ms"@,
                            );
                            assert(field_of(fv, "duration_ms"@) == Some(cur.1));
                        }
                        return None;
                    },
                }
            }
        } else if str_eq(k.as_str(), "duration_api_ms") {
            proof {
                assert(keys.contains(cur.0)) by {
                    assert(keys[5] == "duration_api_ms"@);
                }
            }
            if duration_api_ms.is_none() {
                match opt_num_of(&fields[i].1) {
                    Some(os) => {
                        duration_api_ms = Some(os);
                    },
                    None => {
                        proof {
                            assert(fv =~= fv.take(i as int + 1) + fv.skip(i as int + 1));
                            lemma_field_of_concat(
                                fv.take(i as int + 1),
                                fv.skip(i as int + 1),
                                "duration_api_ms"@,
                            );
                            assert(field_of(fv, "duration_api_ms"@) == Some(cur.1));
                        }
                        return None;
                    },
                }
            }
        } else {
            let key = k.clone();
            let dup = fields[i].1.duplicate();
            proof {
                assert(!keys.contains(cur.0)) by {
                    assert(forall|j: int| 0 <= j < keys.len() ==> keys[j] != cur.0);
                }
                lemma_jv_fields_push(extra@, (key, dup));
            }
            extra.push((key, dup));
        }
        i += 1;
    }
    proof {
        assert(fv.take(fv.len() as int) =~= fv);
    }
    match subtype {
        Some(subtype) => {
            let result_val: Option<String> = match result {
                Some(os) => os,
                None => None,
            };
            let cost_val: Option<String> = match total_cost_usd {
                Some(os) => os,
                None => None,
            };
            let dur_val: Option<String> = match duration_ms {
                Some(os) => os,
                None => None,
            };
            let dur_api_val: Option<String> = match duration_api_ms {
                Some(os) => os,
                None => None,
            };
            Some(
                ClaudeMessage::Result {
                    subtype,
                    result: result_val,
                    total_cost_usd: cost_val,
                    duration_ms: dur_val,
                    duration_api_ms: dur_api_val,
                    extra,
                },
            )
        },
        None => None,
    }
}

/// Decodes one streamed message: an object tagged `system`, `user`,
/// `assistant` or `result`; any other shape fails.
pub fn decode_message(v: &JsonValue) -> (r: Option<ClaudeMessage>)
    ensures
        r is Some <==> decode_msg_v(jv_of(*v)) is Some,
        r matches Some(m) ==> decode_msg_v(jv_of(*v)) == Some(m@),
{
    match v {
        JsonValue::Obj(fields) => {
            match crate::json::obj_field(fields, "type") {
                Some(tv) => match tv {
                    JsonValue::Str(t) => {
                        proof {
                            assert(tag_of(jv_fields(fields@)) == Some(t@));
                        }
                        if str_eq(t.as_str(), "system") {
                            decode_system_fields(fields)
                        } else if str_eq(t.as_str(), "user") {
                            decode_user_fields(fields)
                        } else if str_eq(t.as_str(), "assistant") {
                            decode_assistant_fields(fields)
                        } else if str_eq(t.as_str(), "result") {
                            decode_result_fields(fields)
                        } else {
                            None
                        }
                    },
                    JsonValue::Null => None,
                    JsonValue::Bool(_) => None,
                    JsonValue::Num(_) => None,
                    JsonValue::Arr(_) => None,
                    JsonValue::Obj(_) => None,
                },
                None => None,
            }
        },
        JsonValue::Null => None,
        JsonValue::Bool(_) => None,
        JsonValue::Num(_) => None,
        JsonValue::Str(_) => None,
        JsonValue::Arr(_) => None,
    }
}

/// What one line of stdout text decodes to: the parsed JSON value's message,
/// if the line is valid JSON and a well-formed message.
pub open spec fn message_of_line(s: Seq<char>) -> Option<MessageV> {
    match crate::json::json_of(s) {
        None => None,
        Some(j) => decode_msg_v(j),
    }
}

/// Parses and decodes one line of the agent's stdout.
pub fn decode_stdout_line(line: &str) -> (r: Option<ClaudeMessage>)
    ensures
        r is Some <==> message_of_line(line@) is Some,
        r matches Some(m) ==> message_of_line(line@) == Some(m@),
{
    match crate::json::parse_json(line) {
        Some(v) => decode_message(&v),
        None => None,
    }
}


/// The encoded form of an optional string field: one binding, or nothing.
pub open spec fn enc_opt_str(key: Seq<char>, v: Option<Seq<char>>) -> Seq<(Seq<char>, JsonV)> {
    match v {
        Some(s) => seq![(key, JsonV::Str(s))],
        None => Seq::empty(),
    }
}

/// The encoded form of an optional numeric field, from its text.
pub open spec fn enc_opt_num(key: Seq<char>, v: Option<Seq<char>>) -> Seq<(Seq<char>, JsonV)> {
    match v {
        Some(t) => seq![(key, JsonV::Num(t))],
        None => Seq::empty(),
    }
}

/// The encoded form of an optional boolean field.
pub open spec fn enc_opt_bool(key: Seq<char>, v: Option<bool>) -> Seq<(Seq<char>, JsonV)> {
    match v {
        Some(b) => seq![(key, JsonV::Bool(b))],
        None => Seq::empty(),
    }
}

/// The encoded form of an optional carried-through value field.
pub open spec fn enc_opt_val(key: Seq<char>, v: Option<JsonV>) -> Seq<(Seq<char>, JsonV)> {
    match v {
        Some(x) => seq![(key, x)],
        None => Seq::empty(),
    }
}

/// What one content block encodes to: its tag, its declared fields, and its
/// preserved extra fields, in that order.
pub open spec fn enc_block_v(b: BlockV) -> JsonV {
    match b {
        BlockV::Text { text, extra } => JsonV::Obj(
            seq![("type"@, JsonV::Str("text"@)), ("text"@, JsonV::Str(text))] + extra,
        ),
        BlockV::ToolUse { id, name, input, extra } => JsonV::Obj(
            seq![
                ("type"@, JsonV::Str("tool_use"@)),
                ("id"@, JsonV::Str(id)),
                ("name"@, JsonV::Str(name)),
                ("input"@, input),
            ] + extra,
        ),
        BlockV::ToolResult { tool_use_id, content, is_error, extra } => JsonV::Obj(
            seq![
                ("type"@, JsonV::Str("tool_result"@)),
                ("tool_use_id"@, JsonV::Str(tool_use_id)),
            ] + enc_opt_val("content"@, content) + enc_opt_bool("is_error"@, is_error) + extra,
        ),
        BlockV::Unknown => JsonV::Obj(seq![("type"@, JsonV::Str("unknown"@))]),
    }
}

/// The encoded forms of a list of blocks.
pub open spec fn enc_blocks_v(s: Seq<BlockV>) -> Seq<JsonV> {
    Seq::new(s.len(), |i: int| enc_block_v(s[i]))
}

/// What an assistant message encodes to.
pub open spec fn enc_assistant_v(m: AssistantV) -> JsonV {
    JsonV::Obj(
        enc_opt_str("id"@, m.id) + enc_opt_str("role"@, m.role) + enc_opt_str("model"@, m.model)
            + seq![("content"@, JsonV::Arr(enc_blocks_v(m.content)))] + enc_opt_str(
            "stop_reason"@,
            m.stop_reason,
        ) + m.extra,
    )
}

/// What one streamed message encodes to: its tag, its declared fields, and
/// its preserved extra fields, in that order.
pub open spec fn enc_msg_v(m: MessageV) -> JsonV {
    match m {
        MessageV::System { subtype, session_id, tools, mcp_servers, extra } => JsonV::Obj(
            seq![("type"@, JsonV::Str("system"@)), ("subtype"@, JsonV::Str(subtype))]
                + enc_opt_str("session_id"@, session_id) + enc_opt_val("tools"@, tools)
                + enc_opt_val("mcp_servers"@, mcp_servers) + extra,
        ),
        MessageV::User { message, extra } => JsonV::Obj(
            seq![("type"@, JsonV::Str("user"@)), ("message"@, message)] + extra,
        ),
        MessageV::Assistant { message, extra } => JsonV::Obj(
            seq![("type"@, JsonV::Str("assistant"@)), ("message"@, enc_assistant_v(message))]
                + extra,
        ),
        MessageV::Result {
            subtype,
            result,
            total_cost_usd,
            duration_ms,
            duration_api_ms,
            extra,
        } => JsonV::Obj(
            seq![("type"@, JsonV::Str("result"@)), ("subtype"@, JsonV::Str(subtype))]
                + enc_opt_str("result"@, result) + enc_opt_num("total_cost_usd"@, total_cost_usd)
                + enc_opt_num("duration_ms"@, duration_ms) + enc_opt_num(
                "duration_api_ms"@,
                duration_api_ms,
            ) + extra,
        ),
    }
}

impl ContentBlock {
    /// Encodes this block back into a JSON value.
    pub fn to_json(&self) -> (r: JsonValue)
        ensures
            r@ == enc_block_v(self@),
    {
        match self {
            ContentBlock::Text { text, extra } => {
                let mut fields: Vec<(String, JsonValue)> = Vec::new();
                fields.push(
                    (String::from_str("type"), JsonValue::Str(String::from_str("text"))),
                );
                fields.push((String::from_str("text"), JsonValue::Str(text.clone())));
                proof {
                    lemma_jv_fields(fields@);
                    assert(jv_fields(fields@) =~= seq![
                        ("type"@, JsonV::Str("text"@)),
                        ("text"@, JsonV::Str(text@)),
                    ]);
                }
                append_dup_fields(&mut fields, extra);
                JsonValue::Obj(fields)
            },
            ContentBlock::ToolUse { id, name, input, extra } => {
                let mut fields: Vec<(String, JsonValue)> = Vec::new();
                fields.push(
                    (String::from_str("type"), JsonValue::Str(String::from_str("tool_use"))),
                );
                fields.push((String::from_str("id"), JsonValue::Str(id.clone())));
                fields.push((String::from_str("name"), JsonValue::Str(name.clone())));
                fields.push((String::from_str("input"), input.duplicate()));
                proof {
                    lemma_jv_fields(fields@);
                    assert(jv_fields(fields@) =~= seq![
                        ("type"@, JsonV::Str("tool_use"@)),
                        ("id"@, JsonV::Str(id@)),
                        ("name"@, JsonV::Str(name@)),
                        ("input"@, jv_of(*input)),
                    ]);
                }
                append_dup_fields(&mut fields, extra);
                JsonValue::Obj(fields)
            },
            ContentBlock::ToolResult { tool_use_id, content, is_error, extra } => {
                let ghost s0: Seq<(Seq<char>, JsonV)> = seq![
                    ("type"@, JsonV::Str("tool_result"@)),
                    ("tool_use_id"@, JsonV::Str(tool_use_id@)),
                ];
                let mut fields: Vec<(String, JsonValue)> = Vec::new();
                fields.push(
                    (
                        String::from_str("type"),
                        JsonValue::Str(String::from_str("tool_result")),
                    ),
                );
                fields.push(
                    (String::from_str("tool_use_id"), JsonValue::Str(tool_use_id.clone())),
                );
                proof {
                    lemma_jv_fields(fields@);
                    assert(jv_fields(fields@) =~= s0);
                }
                let ghost s1 = s0 + enc_opt_val("content"@, opt_val_view(*content));
                match content {
                    Some(c) => {
                        let entry = (String::from_str("content"), c.duplicate());
                        proof {
                            lemma_jv_fields_push(fields@, entry);
                        }
                        fields.push(entry);
                        proof {
                            assert(jv_fields(fields@) =~= s1);
                        }
                    },
                    None => {
                        proof {
                            assert(jv_fields(fields@) =~= s1);
                        }
                    },
                }
                let ghost s2 = s1 + enc_opt_bool("is_error"@, *is_error);
                match is_error {
                    Some(b) => {
                        fields.push((String::from_str("is_error"), JsonValue::Bool(*b)));
                        proof {
                            lemma_jv_fields(fields@);
                            assert(jv_fields(fields@) =~= s2);
                        }
                    },
                    None => {
                        proof {
                            assert(jv_fields(fields@) =~= s2);
                        }
                    },
                }
                append_dup_fields(&mut fields, extra);
                proof {
                    assert(jv_fields(fields@) =~= (s0 + enc_opt_val(
                        "content"@,
                        opt_val_view(*content),
                    ) + enc_opt_bool("is_error"@, *is_error)) + jv_fields(extra@));
                }
                JsonValue::Obj(fields)
            },
            ContentBlock::Unknown => {
                let mut fields: Vec<(String, JsonValue)> = Vec::new();
                fields.push(
                    (String::from_str("type"), JsonValue::Str(String::from_str("unknown"))),
                );
                proof {
                    lemma_jv_fields(fields@);
                    assert(jv_fields(fields@) =~= seq![("type"@, JsonV::Str("unknown"@))]);
                }
                JsonValue::Obj(fields)
            },
        }
    }
}

/// Encodes a list of blocks, in order.
#[verifier::loop_isolation(false)]
fn blocks_to_json(blocks: &Vec<ContentBlock>) -> (r: Vec<JsonValue>)
    ensures
        jv_seq(r@) == enc_blocks_v(blocks_view(blocks@)),
{
    let mut out: Vec<JsonValue> = Vec::new();
    proof {
        lemma_jv_seq(out@);
        assert(jv_seq(out@) =~= enc_blocks_v(blocks_view(blocks@)).take(0));
    }
    let mut i: usize = 0;
    while i < blocks.len()
        invariant
            i <= blocks@.len(),
            jv_seq(out@) == enc_blocks_v(blocks_view(blocks@)).take(i as int),
        decreases blocks@.len() - i,
    {
        let b = blocks[i].to_json();
        proof {
            crate::json::lemma_jv_seq_push(out@, b);
            assert(enc_blocks_v(blocks_view(blocks@)).take(i as int + 1) =~= enc_blocks_v(
                blocks_view(blocks@),
            ).take(i as int).push(enc_block_v(blocks@[i as int]@)));
        }
        out.push(b);
        i += 1;
    }
    proof {
        assert(enc_blocks_v(blocks_view(blocks@)).take(blocks@.len() as int) =~= enc_blocks_v(
            blocks_view(blocks@),
        ));
    }
    out
}

impl AssistantMessage {
    /// Encodes this assistant message back into a JSON value.
    pub fn to_json(&self) -> (r: JsonValue)
        ensures
            r@ == enc_assistant_v(self@),
    {
        let mut fields: Vec<(String, JsonValue)> = Vec::new();
        proof {
            lemma_jv_fields(fields@);
            assert(jv_fields(fields@) =~= Seq::<(Seq<char>, JsonV)>::empty());
        }
        let ghost s1 = enc_opt_str("id"@, opt_str_view(self.id));
        match &self.id {
            Some(v) => {
                fields.push((String::from_str("id"), JsonValue::Str(v.clone())));
                proof {
                    lemma_jv_fields(fields@);
                    assert(jv_fields(fields@) =~= s1);
                }
            },
            None => {
                proof {
                    assert(jv_fields(fields@) =~= s1);
                }
            },
        }
        let ghost s2 = s1 + enc_opt_str("role"@, opt_str_view(self.role));
        match &self.role {
            Some(v) => {
                let entry = (String::from_str("role"), JsonValue::Str(v.clone()));
                proof {
                    lemma_jv_fields_push(fields@, entry);
                }
                fields.push(entry);
                proof {
                    assert(jv_fields(fields@) =~= s2);
                }
            },
            None => {
                proof {
                    assert(jv_fields(fields@) =~= s2);
                }
            },
        }
        let ghost s3 = s2 + enc_opt_str("model"@, opt_str_view(self.model));
        match &self.model {
            Some(v) => {
                let entry = (String::from_str("model"), JsonValue::Str(v.clone()));
                proof {
                    lemma_jv_fields_push(fields@, entry);
                }
                fields.push(entry);
                proof {
                    assert(jv_fields(fields@) =~= s3);
                }
            },
            None => {
                proof {
                    assert(jv_fields(fields@) =~= s3);
                }
            },
        }
        let content = blocks_to_json(&self.content);
        let entry = (String::from_str("content"), JsonValue::Arr(content));
        proof {
            lemma_jv_fields_push(fields@, entry);
        }
        fields.push(entry);
        let ghost s4 = s3 + seq![("content"@, JsonV::Arr(enc_blocks_v(blocks_view(self.content@))))];
        proof {
            assert(jv_fields(fields@) =~= s4);
        }
        let ghost s5 = s4 + enc_opt_str("stop_reason"@, opt_str_view(self.stop_reason));
        match &self.stop_reason {
            Some(v) => {
                let entry = (String::from_str("stop_reason"), JsonValue::Str(v.clone()));
                proof {
                    lemma_jv_fields_push(fields@, entry);
                }
                fields.push(entry);
                proof {
                    assert(jv_fields(fields@) =~= s5);
                }
            },
            None => {
                proof {
                    assert(jv_fields(fields@) =~= s5);
                }
            },
        }
        append_dup_fields(&mut fields, &self.extra);
        proof {
            assert(jv_fields(fields@) =~= (enc_opt_str("id"@, opt_str_view(self.id))
                + enc_opt_str("role"@, opt_str_view(self.role)) + enc_opt_str(
                "model"@,
                opt_str_view(self.model),
            ) + seq![("content"@, JsonV::Arr(enc_blocks_v(blocks_view(self.content@))))]
                + enc_opt_str("stop_reason"@, opt_str_view(self.stop_reason))) + jv_fields(
                self.extra@,
            ));
        }
        JsonValue::Obj(fields)
    }
}


impl ClaudeMessage {
    /// Encodes this message back into a JSON value: its tag, its declared
    /// fields, and its preserved extra fields, in that order. Re-encoding a
    /// decoded message keeps every undeclared field verbatim, but may
    /// reorder declared fields ahead of the rest, and a declared optional
    /// field that arrived as an explicit null was read as absent and is not
    /// re-emitted.
    pub fn to_json(&self) -> (r: JsonValue)
        ensures
            r@ == enc_msg_v(self@),
    {
        match self {
            ClaudeMessage::System { subtype, session_id, tools, mcp_servers, extra } => {
                let ghost s0: Seq<(Seq<char>, JsonV)> = seq![
                    ("type"@, JsonV::Str("system"@)),
                    ("subtype"@, JsonV::Str(subtype@)),
                ];
                let mut fields: Vec<(String, JsonValue)> = Vec::new();
                fields.push(
                    (String::from_str("type"), JsonValue::Str(String::from_str("system"))),
                );
                fields.push((String::from_str("subtype"), JsonValue::Str(subtype.clone())));
                proof {
                    lemma_jv_fields(fields@);
                    assert(jv_fields(fields@) =~= s0);
                }
                let ghost s1 = s0 + enc_opt_str("session_id"@, opt_str_view(*session_id));
                match session_id {
                    Some(v) => {
                        let entry = (String::from_str("session_id"), JsonValue::Str(v.clone()));
                        proof {
                            lemma_jv_fields_push(fields@, entry);
                        }
                        fields.push(entry);
                        proof {
                            assert(jv_fields(fields@) =~= s1);
                        }
                    },
                    None => {
                        proof {
                            assert(jv_fields(fields@) =~= s1);
                        }
                    },
                }
                let ghost s2 = s1 + enc_opt_val("tools"@, opt_val_view(*tools));
                match tools {
                    Some(v) => {
                        let entry = (String::from_str("tools"), v.duplicate());
                        proof {
                            lemma_jv_fields_push(fields@, entry);
                        }
                        fields.push(entry);
                        proof {
                            assert(jv_fields(fields@) =~= s2);
                        }
                    },
                    None => {
                        proof {
                            assert(jv_fields(fields@) =~= s2);
                        }
                    },
                }
                let ghost s3 = s2 + enc_opt_val("mcp_servers"@, opt_val_view(*mcp_servers));
                match mcp_servers {
                    Some(v) => {
                        let entry = (String::from_str("mcp_servers"), v.duplicate());
                        proof {
                            lemma_jv_fields_push(fields@, entry);
                        }
                        fields.push(entry);
                        proof {
                            assert(jv_fields(fields@) =~= s3);
                        }
                    },
                    None => {
                        proof {
                            assert(jv_fields(fields@) =~= s3);
                        }
                    },
                }
                append_dup_fields(&mut fields, extra);
                proof {
                    assert(jv_fields(fields@) =~= (s0 + enc_opt_str(
                        "session_id"@,
                        opt_str_view(*session_id),
                    ) + enc_opt_val("tools"@, opt_val_view(*tools)) + enc_opt_val(
                        "mcp_servers"@,
                        opt_val_view(*mcp_servers),
                    )) + jv_fields(extra@));
                }
                JsonValue::Obj(fields)
            },
            ClaudeMessage::User { message, extra } => {
                let mut fields: Vec<(String, JsonValue)> = Vec::new();
                fields.push(
                    (String::from_str("type"), JsonValue::Str(String::from_str("user"))),
                );
                fields.push((String::from_str("message"), message.duplicate()));
                proof {
                    lemma_jv_fields(fields@);
                    assert(jv_fields(fields@) =~= seq![
                        ("type"@, JsonV::Str("user"@)),
                        ("message"@, jv_of(*message)),
                    ]);
                }
                append_dup_fields(&mut fields, extra);
                JsonValue::Obj(fields)
            },
            ClaudeMessage::Assistant { message, extra } => {
                let mut fields: Vec<(String, JsonValue)> = Vec::new();
                fields.push(
                    (String::from_str("type"), JsonValue::Str(String::from_str("assistant"))),
                );
                fields.push((String::from_str("message"), message.to_json()));
                proof {
                    lemma_jv_fields(fields@);
                    assert(jv_fields(fields@) =~= seq![
                        ("type"@, JsonV::Str("assistant"@)),
                        ("message"@, enc_assistant_v(message@)),
                    ]);
                }
                append_dup_fields(&mut fields, extra);
                JsonValue::Obj(fields)
            },
            ClaudeMessage::Result {
                subtype,
                result,
                total_cost_usd,
                duration_ms,
                duration_api_ms,
                extra,
            } => {
                let ghost s0: Seq<(Seq<char>, JsonV)> = seq![
                    ("type"@, JsonV::Str("result"@)),
                    ("subtype"@, JsonV::Str(subtype@)),
                ];
                let mut fields: Vec<(String, JsonValue)> = Vec::new();
                fields.push(
                    (String::from_str("type"), JsonValue::Str(String::from_str("result"))),
                );
                fields.push((String::from_str("subtype"), JsonValue::Str(subtype.clone())));
                proof {
                    lemma_jv_fields(fields@);
                    assert(jv_fields(fields@) =~= s0);
                }
                let ghost s1 = s0 + enc_opt_str("result"@, opt_str_view(*result));
                match result {
                    Some(v) => {
                        let entry = (String::from_str("result"), JsonValue::Str(v.clone()));
                        proof {
                            lemma_jv_fields_push(fields@, entry);
                        }
                        fields.push(entry);
                        proof {
                            assert(jv_fields(fields@) =~= s1);
                        }
                    },
                    None => {
                        proof {
                            assert(jv_fields(fields@) =~= s1);
                        }
                    },
                }
                let ghost s2 = s1 + enc_opt_num("total_cost_usd"@, opt_str_view(*total_cost_usd));
                match total_cost_usd {
                    Some(v) => {
                        let entry = (
                            String::from_str("total_cost_usd"),
                            JsonValue::Num(v.clone()),
                        );
                        proof {
                            lemma_jv_fields_push(fields@, entry);
                        }
                        fields.push(entry);
                        proof {
                            assert(jv_fields(fields@) =~= s2);
                        }
                    },
                    None => {
                        proof {
                            assert(jv_fields(fields@) =~= s2);
                        }
                    },
                }
                let ghost s3 = s2 + enc_opt_num("duration_ms"@, opt_str_view(*duration_ms));
                match duration_ms {
                    Some(v) => {
                        let entry = (String::from_str("duration_ms"), JsonValue::Num(v.clone()));
                        proof {
                            lemma_jv_fields_push(fields@, entry);
                        }
                        fields.push(entry);
                        proof {
                            assert(jv_fields(fields@) =~= s3);
                        }
                    },
                    None => {
                        proof {
                            assert(jv_fields(fields@) =~= s3);
                        }
                    },
                }
                let ghost s4 = s3 + enc_opt_num("duration_api_ms"@, opt_str_view(*duration_api_ms));
                match duration_api_ms {
                    Some(v) => {
                        let entry = (
                            String::from_str("duration_api_ms"),
                            JsonValue::Num(v.clone()),
                        );
                        proof {
                            lemma_jv_fields_push(fields@, entry);
                        }
                        fields.push(entry);
                        proof {
                            assert(jv_fields(fields@) =~= s4);
                        }
                    },
                    None => {
                        proof {
                            assert(jv_fields(fields@) =~= s4);
                        }
                    },
                }
                append_dup_fields(&mut fields, extra);
                proof {
                    assert(jv_fields(fields@) =~= (s0 + enc_opt_str(
                        "result"@,
                        opt_str_view(*result),
                    ) + enc_opt_num("total_cost_usd"@, opt_str_view(*total_cost_usd))
                        + enc_opt_num("duration_ms"@, opt_str_view(*duration_ms)) + enc_opt_num(
                        "duration_api_ms"@,
                        opt_str_view(*duration_api_ms),
                    )) + jv_fields(extra@));
                }
                JsonValue::Obj(fields)
            },
        }
    }
}


/// A lookup on a list with a named head: the head answers for its own key,
/// the tail for every other.
pub proof fn lemma_field_of_cons(
    head: (Seq<char>, JsonV),
    tail: Seq<(Seq<char>, JsonV)>,
    key: Seq<char>,
)
    ensures
        field_of(seq![head] + tail, key) == (if head.0 == key {
            Some(head.1)
        } else {
            field_of(tail, key)
        }),
{
    assert((seq![head] + tail)[0] == head);
    assert((seq![head] + tail).subrange(1, (seq![head] + tail).len() as int) =~= tail);
}

/// What a lookup finds in an encoded optional string field.
pub proof fn lemma_field_of_opt_str(key: Seq<char>, v: Option<Seq<char>>, k: Seq<char>)
    ensures
        field_of(enc_opt_str(key, v), k) == (match v {
            Some(t) => if key == k {
                Some(JsonV::Str(t))
            } else {
                None
            },
            None => None::<JsonV>,
        }),
{
    match v {
        Some(t) => {
            assert(enc_opt_str(key, v) =~= seq![(key, JsonV::Str(t))] + Seq::empty());
            lemma_field_of_cons((key, JsonV::Str(t)), Seq::empty(), k);
        },
        None => {},
    }
}

/// What a lookup finds in an encoded optional numeric field.
pub proof fn lemma_field_of_opt_num(key: Seq<char>, v: Option<Seq<char>>, k: Seq<char>)
    ensures
        field_of(enc_opt_num(key, v), k) == (match v {
            Some(t) => if key == k {
                Some(JsonV::Num(t))
            } else {
                None
            },
            None => None::<JsonV>,
        }),
{
    match v {
        Some(t) => {
            assert(enc_opt_num(key, v) =~= seq![(key, JsonV::Num(t))] + Seq::empty());
            lemma_field_of_cons((key, JsonV::Num(t)), Seq::empty(), k);
        },
        None => {},
    }
}

/// What a lookup finds in an encoded optional boolean field.
pub proof fn lemma_field_of_opt_bool(key: Seq<char>, v: Option<bool>, k: Seq<char>)
    ensures
        field_of(enc_opt_bool(key, v), k) == (match v {
            Some(b) => if key == k {
                Some(JsonV::Bool(b))
            } else {
                None
            },
            None => None::<JsonV>,
        }),
{
    match v {
        Some(b) => {
            assert(enc_opt_bool(key, v) =~= seq![(key, JsonV::Bool(b))] + Seq::empty());
            lemma_field_of_cons((key, JsonV::Bool(b)), Seq::empty(), k);
        },
        None => {},
    }
}

/// What a lookup finds in an encoded optional carried-through field.
pub proof fn lemma_field_of_opt_val(key: Seq<char>, v: Option<JsonV>, k: Seq<char>)
    ensures
        field_of(enc_opt_val(key, v), k) == (match v {
            Some(x) => if key == k {
                Some(x)
            } else {
                None
            },
            None => None::<JsonV>,
        }),
{
    match v {
        Some(x) => {
            assert(enc_opt_val(key, v) =~= seq![(key, x)] + Seq::empty());
            lemma_field_of_cons((key, x), Seq::empty(), k);
        },
        None => {},
    }
}

/// A list whose keys all avoid `k` answers no lookup for `k`.
pub proof fn lemma_field_of_none(e: Seq<(Seq<char>, JsonV)>, k: Seq<char>)
    requires
        forall|i: int| 0 <= i < e.len() ==> (#[trigger] e[i]).0 != k,
    ensures
        field_of(e, k) is None,
    decreases e.len(),
{
    if e.len() > 0 {
        assert(e =~= seq![e[0]] + e.subrange(1, e.len() as int));
        lemma_field_of_cons(e[0], e.subrange(1, e.len() as int), k);
        lemma_field_of_none(e.subrange(1, e.len() as int), k);
    }
}

/// Dropping keys distributes over concatenation.
pub proof fn lemma_without_concat(
    a: Seq<(Seq<char>, JsonV)>,
    b: Seq<(Seq<char>, JsonV)>,
    keys: Seq<Seq<char>>,
)
    ensures
        fields_without(a + b, keys) == fields_without(a, keys) + fields_without(b, keys),
    decreases b.len(),
{
    if b.len() == 0 {
        assert(a + b =~= a);
        assert(fields_without(b, keys) =~= Seq::<(Seq<char>, JsonV)>::empty());
        assert(fields_without(a, keys) + fields_without(b, keys) =~= fields_without(a, keys));
    } else {
        let d = b.drop_last();
        let e = b.last();
        assert(a + b =~= (a + d).push(e));
        assert(b =~= d.push(e));
        lemma_without_concat(a, d, keys);
        if !keys.contains(e.0) {
            assert(fields_without(a, keys) + fields_without(d, keys).push(e)
                =~= (fields_without(a, keys) + fields_without(d, keys)).push(e));
        }
    }
}

/// A list whose keys are all dropped leaves nothing.
pub proof fn lemma_without_dropped(p: Seq<(Seq<char>, JsonV)>, keys: Seq<Seq<char>>)
    requires
        forall|i: int| 0 <= i < p.len() ==> keys.contains((#[trigger] p[i]).0),
    ensures
        fields_without(p, keys) == Seq::<(Seq<char>, JsonV)>::empty(),
    decreases p.len(),
{
    if p.len() == 0 {
        assert(fields_without(p, keys) =~= Seq::<(Seq<char>, JsonV)>::empty());
    } else {
        let d = p.drop_last();
        assert(p =~= d.push(p.last()));
        lemma_without_dropped(d, keys);
    }
}

/// A list whose keys all avoid the dropped ones comes through whole.
pub proof fn lemma_without_kept(e: Seq<(Seq<char>, JsonV)>, keys: Seq<Seq<char>>)
    requires
        forall|i: int| 0 <= i < e.len() ==> !keys.contains((#[trigger] e[i]).0),
    ensures
        fields_without(e, keys) == e,
    decreases e.len(),
{
    if e.len() == 0 {
        assert(fields_without(e, keys) =~= e);
    } else {
        let d = e.drop_last();
        assert(e =~= d.push(e.last()));
        lemma_without_kept(d, keys);
        assert(fields_without(e, keys) =~= e);
    }
}

/// The extra fields of a record claim none of its declared keys.
pub open spec fn extra_wf(extra: Seq<(Seq<char>, JsonV)>, keys: Seq<Seq<char>>) -> bool {
    forall|i: int| 0 <= i < extra.len() ==> !keys.contains((#[trigger] extra[i]).0)
}

/// A content block whose extra fields avoid its declared keys.
pub open spec fn block_wf(b: BlockV) -> bool {
    match b {
        BlockV::Text { extra, .. } => extra_wf(extra, seq!["type"@, "text"@]),
        BlockV::ToolUse { extra, .. } => extra_wf(
            extra,
            seq!["type"@, "id"@, "name"@, "input"@],
        ),
        BlockV::ToolResult { content, extra, .. } => extra_wf(
            extra,
            seq!["type"@, "tool_use_id"@, "content"@, "is_error"@],
        )
        // A stored null reads back as an absent value, so a round-tripping
        // block never holds one; decoding never produces one either.
         && content != Some(JsonV::Null),
        BlockV::Unknown => true,
    }
}

/// Every block of a list is well formed.
pub open spec fn blocks_wf(s: Seq<BlockV>) -> bool {
    forall|i: int| 0 <= i < s.len() ==> block_wf(#[trigger] s[i])
}

/// An assistant message whose extra fields avoid its declared keys, with
/// well-formed blocks.
pub open spec fn assistant_wf(m: AssistantV) -> bool {
    extra_wf(m.extra, seq!["id"@, "role"@, "model"@, "content"@, "stop_reason"@]) && blocks_wf(
        m.content,
    )
}

/// A message whose extra fields avoid its declared keys, throughout.
pub open spec fn msg_wf(m: MessageV) -> bool {
    match m {
        MessageV::System { tools, mcp_servers, extra, .. } => extra_wf(
            extra,
            seq!["type"@, "subtype"@, "session_id"@, "tools"@, "mcp_servers"@],
        )
        // A stored null reads back as an absent value, so a round-tripping
        // message never holds one; decoding never produces one either.
         && tools != Some(JsonV::Null) && mcp_servers != Some(JsonV::Null),
        MessageV::User { extra, .. } => extra_wf(extra, seq!["type"@, "message"@]),
        MessageV::Assistant { message, extra } => extra_wf(extra, seq!["type"@, "message"@])
            && assistant_wf(message),
        MessageV::Result { extra, .. } => extra_wf(
            extra,
            seq![
                "type"@,
                "subtype"@,
                "result"@,
                "total_cost_usd"@,
                "duration_ms"@,
                "duration_api_ms"@,
            ],
        ),
    }
}


/// Encoding a well-formed content block and decoding it gives the block
/// back: every preserved field, the unknown tag included, survives the
/// round trip.
pub proof fn lemma_block_round_trip(b: BlockV)
    requires
        block_wf(b),
    ensures
        decode_block_v(enc_block_v(b)) == Some(b),
{
    reveal_strlit("type");
    reveal_strlit("text");
    reveal_strlit("tool_use");
    reveal_strlit("tool_result");
    reveal_strlit("unknown");
    reveal_strlit("id");
    reveal_strlit("name");
    reveal_strlit("input");
    reveal_strlit("tool_use_id");
    reveal_strlit("content");
    reveal_strlit("is_error");
    assert("text"@ != "tool_use"@ && "text"@ != "tool_result"@ && "tool_use"@
        != "tool_result"@ && "unknown"@ != "text"@ && "unknown"@ != "tool_use"@ && "unknown"@
        != "tool_result"@) by {
        assert("text"@.len() == 4);
        assert("tool_use"@.len() == 8);
        assert("tool_result"@.len() == 11);
        assert("unknown"@.len() == 7);
    }
    match b {
        BlockV::Text { text, extra } => {
            let keys: Seq<Seq<char>> = seq!["type"@, "text"@];
            let h0: (Seq<char>, JsonV) = ("type"@, JsonV::Str("text"@));
            let h1: (Seq<char>, JsonV) = ("text"@, JsonV::Str(text));
            let fields = seq![h0, h1] + extra;
            assert("type"@ != "text"@) by {
                assert("type"@[1] == 'y');
                assert("text"@[1] == 'e');
            }
            assert(fields =~= seq![h0] + (seq![h1] + extra));
            lemma_field_of_cons(h0, seq![h1] + extra, "type"@);
            lemma_field_of_cons(h0, seq![h1] + extra, "text"@);
            lemma_field_of_cons(h1, extra, "text"@);
            assert(field_of(fields, "type"@) == Some(JsonV::Str("text"@)));
            assert(field_of(fields, "text"@) == Some(JsonV::Str(text)));
            lemma_without_concat(seq![h0, h1], extra, keys);
            lemma_without_dropped(seq![h0, h1], keys) ;
            lemma_without_kept(extra, keys);
            assert(fields_without(fields, keys) =~= extra);
        },
        BlockV::ToolUse { id, name, input, extra } => {
            let keys: Seq<Seq<char>> = seq!["type"@, "id"@, "name"@, "input"@];
            let h0: (Seq<char>, JsonV) = ("type"@, JsonV::Str("tool_use"@));
            let h1: (Seq<char>, JsonV) = ("id"@, JsonV::Str(id));
            let h2: (Seq<char>, JsonV) = ("name"@, JsonV::Str(name));
            let h3: (Seq<char>, JsonV) = ("input"@, input);
            let fields = seq![h0, h1, h2, h3] + extra;
            assert("type"@ != "id"@ && "type"@ != "input"@ && "id"@ != "name"@ && "id"@
                != "input"@ && "name"@ != "input"@) by {
                assert("type"@.len() == 4);
                assert("id"@.len() == 2);
                assert("name"@.len() == 4);
                assert("input"@.len() == 5);
            }
            assert("type"@ != "name"@) by {
                assert("type"@[0] == 't');
                assert("name"@[0] == 'n');
            }
            assert(fields =~= seq![h0] + (seq![h1] + (seq![h2] + (seq![h3] + extra))));
            lemma_field_of_cons(h0, seq![h1] + (seq![h2] + (seq![h3] + extra)), "type"@);
            lemma_field_of_cons(h0, seq![h1] + (seq![h2] + (seq![h3] + extra)), "id"@);
            lemma_field_of_cons(h1, seq![h2] + (seq![h3] + extra), "id"@);
            lemma_field_of_cons(h0, seq![h1] + (seq![h2] + (seq![h3] + extra)), "name"@);
            lemma_field_of_cons(h1, seq![h2] + (seq![h3] + extra), "name"@);
            lemma_field_of_cons(h2, seq![h3] + extra, "name"@);
            lemma_field_of_cons(h0, seq![h1] + (seq![h2] + (seq![h3] + extra)), "input"@);
            lemma_field_of_cons(h1, seq![h2] + (seq![h3] + extra), "input"@);
            lemma_field_of_cons(h2, seq![h3] + extra, "input"@);
            lemma_field_of_cons(h3, extra, "input"@);
            assert(field_of(fields, "type"@) == Some(JsonV::Str("tool_use"@)));
            assert(field_of(fields, "id"@) == Some(JsonV::Str(id)));
            assert(field_of(fields, "name"@) == Some(JsonV::Str(name)));
            assert(field_of(fields, "input"@) == Some(input));
            lemma_without_concat(seq![h0, h1, h2, h3], extra, keys);
            lemma_without_dropped(seq![h0, h1, h2, h3], keys);
            lemma_without_kept(extra, keys);
            assert(fields_without(fields, keys) =~= extra);
        },
        BlockV::ToolResult { tool_use_id, content, is_error, extra } => {
            let keys: Seq<Seq<char>> = seq!["type"@, "tool_use_id"@, "content"@, "is_error"@];
            let h0: (Seq<char>, JsonV) = ("type"@, JsonV::Str("tool_result"@));
            let h1: (Seq<char>, JsonV) = ("tool_use_id"@, JsonV::Str(tool_use_id));
            let segc = enc_opt_val("content"@, content);
            let segb = enc_opt_bool("is_error"@, is_error);
            let fields = seq![h0, h1] + segc + segb + extra;
            assert("type"@ != "tool_use_id"@ && "type"@ != "content"@ && "type"@
                != "is_error"@ && "tool_use_id"@ != "content"@ && "tool_use_id"@
                != "is_error"@ && "content"@ != "is_error"@) by {
                assert("type"@.len() == 4);
                assert("tool_use_id"@.len() == 11);
                assert("content"@.len() == 7);
                assert("is_error"@.len() == 8);
            }
            assert(fields =~= seq![h0] + (seq![h1] + (segc + (segb + extra))));
            let tail0 = seq![h1] + (segc + (segb + extra));
            let tail1 = segc + (segb + extra);
            lemma_field_of_cons(h0, tail0, "type"@);
            lemma_field_of_cons(h0, tail0, "tool_use_id"@);
            lemma_field_of_cons(h1, tail1, "tool_use_id"@);
            assert(field_of(fields, "type"@) == Some(JsonV::Str("tool_result"@)));
            assert(field_of(fields, "tool_use_id"@) == Some(JsonV::Str(tool_use_id)));
            // content
            lemma_field_of_cons(h0, tail0, "content"@);
            lemma_field_of_cons(h1, tail1, "content"@);
            lemma_field_of_concat(segc, segb + extra, "content"@);
            lemma_field_of_opt_val("content"@, content, "content"@);
            lemma_field_of_concat(segb, extra, "content"@);
            lemma_field_of_opt_bool("is_error"@, is_error, "content"@);
            assert(forall|i: int| 0 <= i < extra.len() ==> (#[trigger] extra[i]).0
                != "content"@) by {
                assert(keys[2] == "content"@);
            }
            lemma_field_of_none(extra, "content"@);
            assert(field_of(fields, "content"@) == (match content {
                Some(x) => Some(x),
                None => None::<JsonV>,
            }));
            // is_error
            lemma_field_of_cons(h0, tail0, "is_error"@);
            lemma_field_of_cons(h1, tail1, "is_error"@);
            lemma_field_of_concat(segc, segb + extra, "is_error"@);
            lemma_field_of_opt_val("content"@, content, "is_error"@);
            lemma_field_of_concat(segb, extra, "is_error"@);
            lemma_field_of_opt_bool("is_error"@, is_error, "is_error"@);
            assert(forall|i: int| 0 <= i < extra.len() ==> (#[trigger] extra[i]).0
                != "is_error"@) by {
                assert(keys[3] == "is_error"@);
            }
            lemma_field_of_none(extra, "is_error"@);
            assert(decode_opt_bool(field_of(fields, "is_error"@)) == Some(is_error));
            // extras
            lemma_without_concat(seq![h0, h1] + segc + segb, extra, keys);
            lemma_without_concat(seq![h0, h1] + segc, segb, keys);
            lemma_without_concat(seq![h0, h1], segc, keys);
            lemma_without_dropped(seq![h0, h1], keys);
            lemma_without_dropped(segc, keys) ;
            lemma_without_dropped(segb, keys);
            lemma_without_kept(extra, keys);
            assert(fields_without(fields, keys) =~= extra) by {
                assert((seq![h0, h1] + segc + segb) + extra =~= fields);
            }
            assert(decode_opt_val(field_of(fields, "content"@)) == content);
        },
        BlockV::Unknown => {
            let h0: (Seq<char>, JsonV) = ("type"@, JsonV::Str("unknown"@));
            assert(seq![h0] =~= seq![h0] + Seq::<(Seq<char>, JsonV)>::empty());
            lemma_field_of_cons(h0, Seq::empty(), "type"@);
        },
    }
}


/// Encoding then decoding a list of well-formed blocks gives the list back.
pub proof fn lemma_blocks_round_trip(s: Seq<BlockV>)
    requires
        blocks_wf(s),
    ensures
        decode_blocks_v(enc_blocks_v(s)) == Some(s),
    decreases s.len(),
{
    if s.len() == 0 {
        assert(enc_blocks_v(s) =~= Seq::<JsonV>::empty());
        assert(s =~= Seq::<BlockV>::empty());
    } else {
        let e = enc_blocks_v(s);
        let rest = s.subrange(1, s.len() as int);
        assert(e[0] == enc_block_v(s[0]));
        assert(e.subrange(1, e.len() as int) =~= enc_blocks_v(rest));
        lemma_block_round_trip(s[0]);
        assert(blocks_wf(rest)) by {
            assert(forall|i: int| 0 <= i < rest.len() ==> rest[i] == s[i + 1]);
        }
        lemma_blocks_round_trip(rest);
        assert(seq![s[0]] + rest =~= s);
    }
}

/// Encoding then decoding a well-formed assistant message gives it back.
#[verifier::rlimit(50)]
pub proof fn lemma_assistant_round_trip(m: AssistantV)
    requires
        assistant_wf(m),
    ensures
        decode_assistant_v(enc_assistant_v(m)) == Some(m),
{
    reveal_strlit("id");
    reveal_strlit("role");
    reveal_strlit("model");
    reveal_strlit("content");
    reveal_strlit("stop_reason");
    assert("id"@ != "role"@ && "id"@ != "model"@ && "id"@ != "content"@ && "id"@
        != "stop_reason"@ && "role"@ != "model"@ && "role"@ != "content"@ && "role"@
        != "stop_reason"@ && "model"@ != "content"@ && "model"@ != "stop_reason"@
        && "content"@ != "stop_reason"@) by {
        assert("id"@.len() == 2);
        assert("role"@.len() == 4);
        assert("model"@.len() == 5);
        assert("content"@.len() == 7);
        assert("stop_reason"@.len() == 11);
    }
    let keys: Seq<Seq<char>> = seq!["id"@, "role"@, "model"@, "content"@, "stop_reason"@];
    let seg_id = enc_opt_str("id"@, m.id);
    let seg_role = enc_opt_str("role"@, m.role);
    let seg_model = enc_opt_str("model"@, m.model);
    let segc: Seq<(Seq<char>, JsonV)> = seq![("content"@, JsonV::Arr(enc_blocks_v(m.content)))];
    let seg_stop = enc_opt_str("stop_reason"@, m.stop_reason);
    let fields = seg_id + seg_role + seg_model + segc + seg_stop + m.extra;
    assert(segc =~= seq![("content"@, JsonV::Arr(enc_blocks_v(m.content)))] + Seq::empty());
            lemma_field_of_opt_str("id"@, m.id, "id"@);
            lemma_field_of_opt_str("role"@, m.role, "id"@);
            lemma_field_of_opt_str("model"@, m.model, "id"@);
            lemma_field_of_cons(("content"@, JsonV::Arr(enc_blocks_v(m.content))), Seq::empty(), "id"@);
            lemma_field_of_opt_str("stop_reason"@, m.stop_reason, "id"@);
            assert(forall|i: int| 0 <= i < m.extra.len() ==> (#[trigger] m.extra[i]).0 != "id"@) by {
                assert(keys[0] == "id"@);
            }
            lemma_field_of_none(m.extra, "id"@);
            lemma_field_of_concat(((((seg_id + seg_role) + seg_model) + segc) + seg_stop), m.extra, "id"@);
            lemma_field_of_concat((((seg_id + seg_role) + seg_model) + segc), seg_stop, "id"@);
            lemma_field_of_concat(((seg_id + seg_role) + seg_model), segc, "id"@);
            lemma_field_of_concat((seg_id + seg_role), seg_model, "id"@);
            lemma_field_of_concat(seg_id, seg_role, "id"@);
            lemma_field_of_opt_str("id"@, m.id, "role"@);
            lemma_field_of_opt_str("role"@, m.role, "role"@);
            lemma_field_of_opt_str("model"@, m.model, "role"@);
            lemma_field_of_cons(("content"@, JsonV::Arr(enc_blocks_v(m.content))), Seq::empty(), "role"@);
            lemma_field_of_opt_str("stop_reason"@, m.stop_reason, "role"@);
            assert(forall|i: int| 0 <= i < m.extra.len() ==> (#[trigger] m.extra[i]).0 != "role"@) by {
                assert(keys[1] == "role"@);
            }
            lemma_field_of_none(m.extra, "role"@);
            lemma_field_of_concat(((((seg_id + seg_role) + seg_model) + segc) + seg_stop), m.extra, "role"@);
            lemma_field_of_concat((((seg_id + seg_role) + seg_model) + segc), seg_stop, "role"@);
            lemma_field_of_concat(((seg_id + seg_role) + seg_model), segc, "role"@);
            lemma_field_of_concat((seg_id + seg_role), seg_model, "role"@);
            lemma_field_of_concat(seg_id, seg_role, "role"@);
            lemma_field_of_opt_str("id"@, m.id, "model"@);
            lemma_field_of_opt_str("role"@, m.role, "model"@);
            lemma_field_of_opt_str("model"@, m.model, "model"@);
            lemma_field_of_cons(("content"@, JsonV::Arr(enc_blocks_v(m.content))), Seq::empty(), "model"@);
            lemma_field_of_opt_str("stop_reason"@, m.stop_reason, "model"@);
            assert(forall|i: int| 0 <= i < m.extra.len() ==> (#[trigger] m.extra[i]).0 != "model"@) by {
                assert(keys[2] == "model"@);
            }
            lemma_field_of_none(m.extra, "model"@);
            lemma_field_of_concat(((((seg_id + seg_role) + seg_model) + segc) + seg_stop), m.extra, "model"@);
            lemma_field_of_concat((((seg_id + seg_role) + seg_model) + segc), seg_stop, "model"@);
            lemma_field_of_concat(((seg_id + seg_role) + seg_model), segc, "model"@);
            lemma_field_of_concat((seg_id + seg_role), seg_model, "model"@);
            lemma_field_of_concat(seg_id, seg_role, "model"@);
            lemma_field_of_opt_str("id"@, m.id, "content"@);
            lemma_field_of_opt_str("role"@, m.role, "content"@);
            lemma_field_of_opt_str("model"@, m.model, "content"@);
            lemma_field_of_cons(("content"@, JsonV::Arr(enc_blocks_v(m.content))), Seq::empty(), "content"@);
            lemma_field_of_opt_str("stop_reason"@, m.stop_reason, "content"@);
            assert(forall|i: int| 0 <= i < m.extra.len() ==> (#[trigger] m.extra[i]).0 != "content"@) by {
                assert(keys[3] == "content"@);
            }
            lemma_field_of_none(m.extra, "content"@);
            lemma_field_of_concat(((((seg_id + seg_role) + seg_model) + segc) + seg_stop), m.extra, "content"@);
            lemma_field_of_concat((((seg_id + seg_role) + seg_model) + segc), seg_stop, "content"@);
            lemma_field_of_concat(((seg_id + seg_role) + seg_model), segc, "content"@);
            lemma_field_of_concat((seg_id + seg_role), seg_model, "content"@);
            lemma_field_of_concat(seg_id, seg_role, "content"@);
            lemma_field_of_opt_str("id"@, m.id, "stop_reason"@);
            lemma_field_of_opt_str("role"@, m.role, "stop_reason"@);
            lemma_field_of_opt_str("model"@, m.model, "stop_reason"@);
            lemma_field_of_cons(("content"@, JsonV::Arr(enc_blocks_v(m.content))), Seq::empty(), "stop_reason"@);
            lemma_field_of_opt_str("stop_reason"@, m.stop_reason, "stop_reason"@);
            assert(forall|i: int| 0 <= i < m.extra.len() ==> (#[trigger] m.extra[i]).0 != "stop_reason"@) by {
                assert(keys[4] == "stop_reason"@);
            }
            lemma_field_of_none(m.extra, "stop_reason"@);
            lemma_field_of_concat(((((seg_id + seg_role) + seg_model) + segc) + seg_stop), m.extra, "stop_reason"@);
            lemma_field_of_concat((((seg_id + seg_role) + seg_model) + segc), seg_stop, "stop_reason"@);
            lemma_field_of_concat(((seg_id + seg_role) + seg_model), segc, "stop_reason"@);
            lemma_field_of_concat((seg_id + seg_role), seg_model, "stop_reason"@);
            lemma_field_of_concat(seg_id, seg_role, "stop_reason"@);
    assert(decode_opt_str(field_of(fields, "id"@)) == Some(m.id));
    assert(decode_opt_str(field_of(fields, "role"@)) == Some(m.role));
    assert(decode_opt_str(field_of(fields, "model"@)) == Some(m.model));
    assert(decode_opt_str(field_of(fields, "stop_reason"@)) == Some(m.stop_reason));
    assert(field_of(fields, "content"@) == Some(JsonV::Arr(enc_blocks_v(m.content))));
    lemma_blocks_round_trip(m.content);
    lemma_without_concat(seg_id + seg_role + seg_model + segc + seg_stop, m.extra, keys);
    lemma_without_concat(seg_id + seg_role + seg_model + segc, seg_stop, keys);
    lemma_without_concat(seg_id + seg_role + seg_model, segc, keys);
    lemma_without_concat(seg_id + seg_role, seg_model, keys);
    lemma_without_concat(seg_id, seg_role, keys);
    lemma_without_dropped(seg_id, keys);
    lemma_without_dropped(seg_role, keys);
    lemma_without_dropped(seg_model, keys);
    lemma_without_dropped(segc, keys);
    lemma_without_dropped(seg_stop, keys);
    lemma_without_kept(m.extra, keys);
    assert(fields_without(fields, keys) =~= m.extra);
}


/// The round trip of one encoded `system` message.
#[verifier::rlimit(100)]
proof fn lemma_msg_round_trip_system(
    subtype: Seq<char>,
    session_id: Option<Seq<char>>,
    tools: Option<JsonV>,
    mcp_servers: Option<JsonV>,
    extra: Seq<(Seq<char>, JsonV)>,
)
    requires
        msg_wf(MessageV::System { subtype, session_id, tools, mcp_servers, extra }),
    ensures
        decode_msg_v(enc_msg_v(MessageV::System { subtype, session_id, tools, mcp_servers, extra }))
            == Some(MessageV::System { subtype, session_id, tools, mcp_servers, extra }),
{
    reveal_strlit("type");
    reveal_strlit("system");
    reveal_strlit("user");
    reveal_strlit("assistant");
    reveal_strlit("result");
    assert("system"@ != "user"@ && "system"@ != "assistant"@ && "user"@ != "assistant"@
        && "user"@ != "result"@ && "assistant"@ != "result"@) by {
        assert("system"@.len() == 6);
        assert("user"@.len() == 4);
        assert("assistant"@.len() == 9);
        assert("result"@.len() == 6);
    }
    assert("system"@ != "result"@) by {
        assert("system"@[0] == 's');
        assert("result"@[0] == 'r');
    }

    reveal_strlit("subtype");
    reveal_strlit("session_id");
    reveal_strlit("tools");
    reveal_strlit("mcp_servers");
    {

            let keys: Seq<Seq<char>> = seq![
                "type"@,
                "subtype"@,
                "session_id"@,
                "tools"@,
                "mcp_servers"@,
            ];
            assert("type"@ != "subtype"@ && "type"@ != "session_id"@ && "type"@ != "tools"@
                && "type"@ != "mcp_servers"@ && "subtype"@ != "session_id"@ && "subtype"@
                != "tools"@ && "subtype"@ != "mcp_servers"@ && "session_id"@ != "tools"@
                && "session_id"@ != "mcp_servers"@ && "tools"@ != "mcp_servers"@) by {
                assert("type"@.len() == 4);
                assert("subtype"@.len() == 7);
                assert("session_id"@.len() == 10);
                assert("tools"@.len() == 5);
                assert("mcp_servers"@.len() == 11);
            }
            let h0: (Seq<char>, JsonV) = ("type"@, JsonV::Str("system"@));
            let h1: (Seq<char>, JsonV) = ("subtype"@, JsonV::Str(subtype));
            let s0: Seq<(Seq<char>, JsonV)> = seq![h0, h1];
            let seg_sess = enc_opt_str("session_id"@, session_id);
            let seg_tools = enc_opt_val("tools"@, tools);
            let seg_mcp = enc_opt_val("mcp_servers"@, mcp_servers);
            let fields = s0 + seg_sess + seg_tools + seg_mcp + extra;
            assert(s0 =~= seq![h0] + seq![h1]);
            assert(seq![h1] =~= seq![h1] + Seq::<(Seq<char>, JsonV)>::empty());
            lemma_field_of_concat((((s0 + seg_sess) + seg_tools) + seg_mcp), extra, "type"@);
            lemma_field_of_concat(((s0 + seg_sess) + seg_tools), seg_mcp, "type"@);
            lemma_field_of_concat((s0 + seg_sess), seg_tools, "type"@);
            lemma_field_of_concat(s0, seg_sess, "type"@);
            lemma_field_of_cons(h0, seq![h1], "type"@);
            lemma_field_of_cons(h1, Seq::empty(), "type"@);
            lemma_field_of_opt_str("session_id"@, session_id, "type"@);
            lemma_field_of_opt_val("tools"@, tools, "type"@);
            lemma_field_of_opt_val("mcp_servers"@, mcp_servers, "type"@);
            assert(forall|i: int| 0 <= i < extra.len() ==> (#[trigger] extra[i]).0 != "type"@) by {
        assert(keys[0] == "type"@);
    }
            lemma_field_of_none(extra, "type"@);
            lemma_field_of_concat((((s0 + seg_sess) + seg_tools) + seg_mcp), extra, "subtype"@);
            lemma_field_of_concat(((s0 + seg_sess) + seg_tools), seg_mcp, "subtype"@);
            lemma_field_of_concat((s0 + seg_sess), seg_tools, "subtype"@);
            lemma_field_of_concat(s0, seg_sess, "subtype"@);
            lemma_field_of_cons(h0, seq![h1], "subtype"@);
            lemma_field_of_cons(h1, Seq::empty(), "subtype"@);
            lemma_field_of_opt_str("session_id"@, session_id, "subtype"@);
            lemma_field_of_opt_val("tools"@, tools, "subtype"@);
            lemma_field_of_opt_val("mcp_servers"@, mcp_servers, "subtype"@);
            assert(forall|i: int| 0 <= i < extra.len() ==> (#[trigger] extra[i]).0 != "subtype"@) by {
        assert(keys[1] == "subtype"@);
    }
            lemma_field_of_none(extra, "subtype"@);
            lemma_field_of_concat((((s0 + seg_sess) + seg_tools) + seg_mcp), extra, "session_id"@);
            lemma_field_of_concat(((s0 + seg_sess) + seg_tools), seg_mcp, "session_id"@);
            lemma_field_of_concat((s0 + seg_sess), seg_tools, "session_id"@);
            lemma_field_of_concat(s0, seg_sess, "session_id"@);
            lemma_field_of_cons(h0, seq![h1], "session_id"@);
            lemma_field_of_cons(h1, Seq::empty(), "session_id"@);
            lemma_field_of_opt_str("session_id"@, session_id, "session_id"@);
            lemma_field_of_opt_val("tools"@, tools, "session_id"@);
            lemma_field_of_opt_val("mcp_servers"@, mcp_servers, "session_id"@);
            assert(forall|i: int| 0 <= i < extra.len() ==> (#[trigger] extra[i]).0 != "session_id"@) by {
        assert(keys[2] == "session_id"@);
    }
            lemma_field_of_none(extra, "session_id"@);
            lemma_field_of_concat((((s0 + seg_sess) + seg_tools) + seg_mcp), extra, "tools"@);
            lemma_field_of_concat(((s0 + seg_sess) + seg_tools), seg_mcp, "tools"@);
            lemma_field_of_concat((s0 + seg_sess), seg_tools, "tools"@);
            lemma_field_of_concat(s0, seg_sess, "tools"@);
            lemma_field_of_cons(h0, seq![h1], "tools"@);
            lemma_field_of_cons(h1, Seq::empty(), "tools"@);
            lemma_field_of_opt_str("session_id"@, session_id, "tools"@);
            lemma_field_of_opt_val("tools"@, tools, "tools"@);
            lemma_field_of_opt_val("mcp_servers"@, mcp_servers, "tools"@);
            assert(forall|i: int| 0 <= i < extra.len() ==> (#[trigger] extra[i]).0 != "tools"@) by {
        assert(keys[3] == "tools"@);
    }
            lemma_field_of_none(extra, "tools"@);
            lemma_field_of_concat((((s0 + seg_sess) + seg_tools) + seg_mcp), extra, "mcp_servers"@);
            lemma_field_of_concat(((s0 + seg_sess) + seg_tools), seg_mcp, "mcp_servers"@);
            lemma_field_of_concat((s0 + seg_sess), seg_tools, "mcp_servers"@);
            lemma_field_of_concat(s0, seg_sess, "mcp_servers"@);
            lemma_field_of_cons(h0, seq![h1], "mcp_servers"@);
            lemma_field_of_cons(h1, Seq::empty(), "mcp_servers"@);
            lemma_field_of_opt_str("session_id"@, session_id, "mcp_servers"@);
            lemma_field_of_opt_val("tools"@, tools, "mcp_servers"@);
            lemma_field_of_opt_val("mcp_servers"@, mcp_servers, "mcp_servers"@);
            assert(forall|i: int| 0 <= i < extra.len() ==> (#[trigger] extra[i]).0 != "mcp_servers"@) by {
        assert(keys[4] == "mcp_servers"@);
    }
            lemma_field_of_none(extra, "mcp_servers"@);
            assert(field_of(fields, "type"@) == Some(JsonV::Str("system"@)));
            assert(field_of(fields, "subtype"@) == Some(JsonV::Str(subtype)));
            assert(decode_opt_str(field_of(fields, "session_id"@)) == Some(session_id));
            assert(decode_opt_val(field_of(fields, "tools"@)) == tools);
            assert(decode_opt_val(field_of(fields, "mcp_servers"@)) == mcp_servers);
            lemma_without_concat(s0 + seg_sess + seg_tools + seg_mcp, extra, keys);
            lemma_without_concat(s0 + seg_sess + seg_tools, seg_mcp, keys);
            lemma_without_concat(s0 + seg_sess, seg_tools, keys);
            lemma_without_concat(s0, seg_sess, keys);
            lemma_without_dropped(s0, keys);
            lemma_without_dropped(seg_sess, keys);
            lemma_without_dropped(seg_tools, keys);
            lemma_without_dropped(seg_mcp, keys);
            lemma_without_kept(extra, keys);
            assert(fields_without(fields, keys) =~= extra);
        
    }
}

/// The round trip of one encoded `user` message.
#[verifier::rlimit(100)]
proof fn lemma_msg_round_trip_user(message: JsonV, extra: Seq<(Seq<char>, JsonV)>)
    requires
        msg_wf(MessageV::User { message, extra }),
    ensures
        decode_msg_v(enc_msg_v(MessageV::User { message, extra })) == Some(
            MessageV::User { message, extra },
        ),
{
    reveal_strlit("type");
    reveal_strlit("system");
    reveal_strlit("user");
    reveal_strlit("assistant");
    reveal_strlit("result");
    assert("system"@ != "user"@ && "system"@ != "assistant"@ && "user"@ != "assistant"@
        && "user"@ != "result"@ && "assistant"@ != "result"@) by {
        assert("system"@.len() == 6);
        assert("user"@.len() == 4);
        assert("assistant"@.len() == 9);
        assert("result"@.len() == 6);
    }
    assert("system"@ != "result"@) by {
        assert("system"@[0] == 's');
        assert("result"@[0] == 'r');
    }

    reveal_strlit("message");
    {

            let keys: Seq<Seq<char>> = seq!["type"@, "message"@];
            assert("type"@ != "message"@) by {
                assert("type"@.len() == 4);
                assert("message"@.len() == 7);
            }
            let h0: (Seq<char>, JsonV) = ("type"@, JsonV::Str("user"@));
            let h1: (Seq<char>, JsonV) = ("message"@, message);
            let fields = seq![h0, h1] + extra;
            assert(fields =~= seq![h0] + (seq![h1] + extra));
            lemma_field_of_cons(h0, seq![h1] + extra, "type"@);
            lemma_field_of_cons(h0, seq![h1] + extra, "message"@);
            lemma_field_of_cons(h1, extra, "message"@);
            lemma_without_concat(seq![h0, h1], extra, keys);
            lemma_without_dropped(seq![h0, h1], keys);
            lemma_without_kept(extra, keys);
            assert(fields_without(fields, keys) =~= extra);
        
    }
}

/// Decoding an encoded `assistant` envelope around any payload value whose
/// own decoding is known.
proof fn lemma_assistant_envelope(message: AssistantV, mv: JsonV, extra: Seq<(Seq<char>, JsonV)>)
    requires
        extra_wf(extra, seq!["type"@, "message"@]),
        decode_assistant_v(mv) == Some(message),
    ensures
        decode_msg_v(
            JsonV::Obj(seq![("type"@, JsonV::Str("assistant"@)), ("message"@, mv)] + extra),
        ) == Some(MessageV::Assistant { message, extra }),
{
    reveal_strlit("type");
    reveal_strlit("system");
    reveal_strlit("user");
    reveal_strlit("assistant");
    reveal_strlit("message");
    assert("assistant"@ != "system"@ && "assistant"@ != "user"@) by {
        assert("assistant"@.len() == 9);
        assert("system"@.len() == 6);
        assert("user"@.len() == 4);
    }
    let keys: Seq<Seq<char>> = seq!["type"@, "message"@];
    assert("type"@ != "message"@) by {
        assert("type"@.len() == 4);
        assert("message"@.len() == 7);
    }
    let h0: (Seq<char>, JsonV) = ("type"@, JsonV::Str("assistant"@));
    let h1: (Seq<char>, JsonV) = ("message"@, mv);
    let fields = seq![h0, h1] + extra;
    assert(fields =~= seq![h0] + (seq![h1] + extra));
    lemma_field_of_cons(h0, seq![h1] + extra, "type"@);
    lemma_field_of_cons(h0, seq![h1] + extra, "message"@);
    lemma_field_of_cons(h1, extra, "message"@);
    lemma_without_concat(seq![h0, h1], extra, keys);
    lemma_without_dropped(seq![h0, h1], keys);
    lemma_without_kept(extra, keys);
    assert(fields_without(fields, keys) =~= extra);
}

/// The round trip of one encoded `assistant` message.
#[verifier::rlimit(100)]
#[verifier::spinoff_prover]
proof fn lemma_msg_round_trip_assistant(message: AssistantV, extra: Seq<(Seq<char>, JsonV)>)
    requires
        msg_wf(MessageV::Assistant { message, extra }),
    ensures
        decode_msg_v(enc_msg_v(MessageV::Assistant { message, extra })) == Some(
            MessageV::Assistant { message, extra },
        ),
{
    lemma_assistant_round_trip(message);
    lemma_assistant_envelope(message, enc_assistant_v(message), extra);
}

/// The round trip of one encoded `result` message.
#[verifier::rlimit(100)]
proof fn lemma_msg_round_trip_result(
    subtype: Seq<char>,
    result: Option<Seq<char>>,
    total_cost_usd: Option<Seq<char>>,
    duration_ms: Option<Seq<char>>,
    duration_api_ms: Option<Seq<char>>,
    extra: Seq<(Seq<char>, JsonV)>,
)
    requires
        msg_wf(
            MessageV::Result {
                subtype,
                result,
                total_cost_usd,
                duration_ms,
                duration_api_ms,
                extra,
            },
        ),
    ensures
        decode_msg_v(
            enc_msg_v(
                MessageV::Result {
                    subtype,
                    result,
                    total_cost_usd,
                    duration_ms,
                    duration_api_ms,
                    extra,
                },
            ),
        ) == Some(
            MessageV::Result {
                subtype,
                result,
                total_cost_usd,
                duration_ms,
                duration_api_ms,
                extra,
            },
        ),
{
    reveal_strlit("type");
    reveal_strlit("system");
    reveal_strlit("user");
    reveal_strlit("assistant");
    reveal_strlit("result");
    assert("system"@ != "user"@ && "system"@ != "assistant"@ && "user"@ != "assistant"@
        && "user"@ != "result"@ && "assistant"@ != "result"@) by {
        assert("system"@.len() == 6);
        assert("user"@.len() == 4);
        assert("assistant"@.len() == 9);
        assert("result"@.len() == 6);
    }
    assert("system"@ != "result"@) by {
        assert("system"@[0] == 's');
        assert("result"@[0] == 'r');
    }

    reveal_strlit("subtype");
    reveal_strlit("total_cost_usd");
    reveal_strlit("duration_ms");
    reveal_strlit("duration_api_ms");
    {

            let keys: Seq<Seq<char>> = seq![
                "type"@,
                "subtype"@,
                "result"@,
                "total_cost_usd"@,
                "duration_ms"@,
                "duration_api_ms"@,
            ];
            assert("type"@ != "subtype"@ && "type"@ != "result"@ && "type"@
                != "total_cost_usd"@ && "type"@ != "duration_ms"@ && "type"@
                != "duration_api_ms"@ && "subtype"@ != "result"@ && "subtype"@
                != "total_cost_usd"@ && "subtype"@ != "duration_ms"@ && "subtype"@
                != "duration_api_ms"@ && "result"@ != "total_cost_usd"@ && "result"@
                != "duration_ms"@ && "result"@ != "duration_api_ms"@ && "total_cost_usd"@
                != "duration_ms"@ && "total_cost_usd"@ != "duration_api_ms"@ && "duration_ms"@
                != "duration_api_ms"@) by {
                assert("type"@.len() == 4);
                assert("subtype"@.len() == 7);
                assert("result"@.len() == 6);
                assert("total_cost_usd"@.len() == 14);
                assert("duration_ms"@.len() == 11);
                assert("duration_api_ms"@.len() == 15);
            }
            let h0: (Seq<char>, JsonV) = ("type"@, JsonV::Str("result"@));
            let h1: (Seq<char>, JsonV) = ("subtype"@, JsonV::Str(subtype));
            let s0: Seq<(Seq<char>, JsonV)> = seq![h0, h1];
            let seg_res = enc_opt_str("result"@, result);
            let seg_cost = enc_opt_num("total_cost_usd"@, total_cost_usd);
            let seg_dur = enc_opt_num("duration_ms"@, duration_ms);
            let seg_durapi = enc_opt_num("duration_api_ms"@, duration_api_ms);
            let fields = s0 + seg_res + seg_cost + seg_dur + seg_durapi + extra;
            assert(s0 =~= seq![h0] + seq![h1]);
            assert(seq![h1] =~= seq![h1] + Seq::<(Seq<char>, JsonV)>::empty());
            lemma_field_of_concat(((((s0 + seg_res) + seg_cost) + seg_dur) + seg_durapi), extra, "type"@);
            lemma_field_of_concat((((s0 + seg_res) + seg_cost) + seg_dur), seg_durapi, "type"@);
            lemma_field_of_concat(((s0 + seg_res) + seg_cost), seg_dur, "type"@);
            lemma_field_of_concat((s0 + seg_res), seg_cost, "type"@);
            lemma_field_of_concat(s0, seg_res, "type"@);
            lemma_field_of_cons(h0, seq![h1], "type"@);
            lemma_field_of_cons(h1, Seq::empty(), "type"@);
            lemma_field_of_opt_str("result"@, result, "type"@);
            lemma_field_of_opt_num("total_cost_usd"@, total_cost_usd, "type"@);
            lemma_field_of_opt_num("duration_ms"@, duration_ms, "type"@);
            lemma_field_of_opt_num("duration_api_ms"@, duration_api_ms, "type"@);
            assert(forall|i: int| 0 <= i < extra.len() ==> (#[trigger] extra[i]).0 != "type"@) by {
        assert(keys[0] == "type"@);
    }
            lemma_field_of_none(extra, "type"@);
            lemma_field_of_concat(((((s0 + seg_res) + seg_cost) + seg_dur) + seg_durapi), extra, "subtype"@);
            lemma_field_of_concat((((s0 + seg_res) + seg_cost) + seg_dur), seg_durapi, "subtype"@);
            lemma_field_of_concat(((s0 + seg_res) + seg_cost), seg_dur, "subtype"@);
            lemma_field_of_concat((s0 + seg_res), seg_cost, "subtype"@);
            lemma_field_of_concat(s0, seg_res, "subtype"@);
            lemma_field_of_cons(h0, seq![h1], "subtype"@);
            lemma_field_of_cons(h1, Seq::empty(), "subtype"@);
            lemma_field_of_opt_str("result"@, result, "subtype"@);
            lemma_field_of_opt_num("total_cost_usd"@, total_cost_usd, "subtype"@);
            lemma_field_of_opt_num("duration_ms"@, duration_ms, "subtype"@);
            lemma_field_of_opt_num("duration_api_ms"@, duration_api_ms, "subtype"@);
            assert(forall|i: int| 0 <= i < extra.len() ==> (#[trigger] extra[i]).0 != "subtype"@) by {
        assert(keys[1] == "subtype"@);
    }
            lemma_field_of_none(extra, "subtype"@);
            lemma_field_of_concat(((((s0 + seg_res) + seg_cost) + seg_dur) + seg_durapi), extra, "result"@);
            lemma_field_of_concat((((s0 + seg_res) + seg_cost) + seg_dur), seg_durapi, "result"@);
            lemma_field_of_concat(((s0 + seg_res) + seg_cost), seg_dur, "result"@);
            lemma_field_of_concat((s0 + seg_res), seg_cost, "result"@);
            lemma_field_of_concat(s0, seg_res, "result"@);
            lemma_field_of_cons(h0, seq![h1], "result"@);
            lemma_field_of_cons(h1, Seq::empty(), "result"@);
            lemma_field_of_opt_str("result"@, result, "result"@);
            lemma_field_of_opt_num("total_cost_usd"@, total_cost_usd, "result"@);
            lemma_field_of_opt_num("duration_ms"@, duration_ms, "result"@);
            lemma_field_of_opt_num("duration_api_ms"@, duration_api_ms, "result"@);
            assert(forall|i: int| 0 <= i < extra.len() ==> (#[trigger] extra[i]).0 != "result"@) by {
        assert(keys[2] == "result"@);
    }
            lemma_field_of_none(extra, "result"@);
            lemma_field_of_concat(((((s0 + seg_res) + seg_cost) + seg_dur) + seg_durapi), extra, "total_cost_usd"@);
            lemma_field_of_concat((((s0 + seg_res) + seg_cost) + seg_dur), seg_durapi, "total_cost_usd"@);
            lemma_field_of_concat(((s0 + seg_res) + seg_cost), seg_dur, "total_cost_usd"@);
            lemma_field_of_concat((s0 + seg_res), seg_cost, "total_cost_usd"@);
            lemma_field_of_concat(s0, seg_res, "total_cost_usd"@);
            lemma_field_of_cons(h0, seq![h1], "total_cost_usd"@);
            lemma_field_of_cons(h1, Seq::empty(), "total_cost_usd"@);
            lemma_field_of_opt_str("result"@, result, "total_cost_usd"@);
            lemma_field_of_opt_num("total_cost_usd"@, total_cost_usd, "total_cost_usd"@);
            lemma_field_of_opt_num("duration_ms"@, duration_ms, "total_cost_usd"@);
            lemma_field_of_opt_num("duration_api_ms"@, duration_api_ms, "total_cost_usd"@);
            assert(forall|i: int| 0 <= i < extra.len() ==> (#[trigger] extra[i]).0 != "total_cost_usd"@) by {
        assert(keys[3] == "total_cost_usd"@);
    }
            lemma_field_of_none(extra, "total_cost_usd"@);
            lemma_field_of_concat(((((s0 + seg_res) + seg_cost) + seg_dur) + seg_durapi), extra, "duration_ms"@);
            lemma_field_of_concat((((s0 + seg_res) + seg_cost) + seg_dur), seg_durapi, "duration_ms"@);
            lemma_field_of_concat(((s0 + seg_res) + seg_cost), seg_dur, "duration_ms"@);
            lemma_field_of_concat((s0 + seg_res), seg_cost, "duration_ms"@);
            lemma_field_of_concat(s0, seg_res, "duration_ms"@);
            lemma_field_of_cons(h0, seq![h1], "duration_ms"@);
            lemma_field_of_cons(h1, Seq::empty(), "duration_ms"@);
            lemma_field_of_opt_str("result"@, result, "duration_ms"@);
            lemma_field_of_opt_num("total_cost_usd"@, total_cost_usd, "duration_ms"@);
            lemma_field_of_opt_num("duration_ms"@, duration_ms, "duration_ms"@);
            lemma_field_of_opt_num("duration_api_ms"@, duration_api_ms, "duration_ms"@);
            assert(forall|i: int| 0 <= i < extra.len() ==> (#[trigger] extra[i]).0 != "duration_ms"@) by {
        assert(keys[4] == "duration_ms"@);
    }
            lemma_field_of_none(extra, "duration_ms"@);
            lemma_field_of_concat(((((s0 + seg_res) + seg_cost) + seg_dur) + seg_durapi), extra, "duration_api_ms"@);
            lemma_field_of_concat((((s0 + seg_res) + seg_cost) + seg_dur), seg_durapi, "duration_api_ms"@);
            lemma_field_of_concat(((s0 + seg_res) + seg_cost), seg_dur, "duration_api_ms"@);
            lemma_field_of_concat((s0 + seg_res), seg_cost, "duration_api_ms"@);
            lemma_field_of_concat(s0, seg_res, "duration_api_ms"@);
            lemma_field_of_cons(h0, seq![h1], "duration_api_ms"@);
            lemma_field_of_cons(h1, Seq::empty(), "duration_api_ms"@);
            lemma_field_of_opt_str("result"@, result, "duration_api_ms"@);
            lemma_field_of_opt_num("total_cost_usd"@, total_cost_usd, "duration_api_ms"@);
            lemma_field_of_opt_num("duration_ms"@, duration_ms, "duration_api_ms"@);
            lemma_field_of_opt_num("duration_api_ms"@, duration_api_ms, "duration_api_ms"@);
            assert(forall|i: int| 0 <= i < extra.len() ==> (#[trigger] extra[i]).0 != "duration_api_ms"@) by {
        assert(keys[5] == "duration_api_ms"@);
    }
            lemma_field_of_none(extra, "duration_api_ms"@);
            assert(field_of(fields, "type"@) == Some(JsonV::Str("result"@)));
            assert(field_of(fields, "subtype"@) == Some(JsonV::Str(subtype)));
            assert(decode_opt_str(field_of(fields, "result"@)) == Some(result));
            assert(decode_opt_num(field_of(fields, "total_cost_usd"@)) == Some(total_cost_usd));
            assert(decode_opt_num(field_of(fields, "duration_ms"@)) == Some(duration_ms));
            assert(decode_opt_num(field_of(fields, "duration_api_ms"@)) == Some(
                duration_api_ms,
            ));
            lemma_without_concat(s0 + seg_res + seg_cost + seg_dur + seg_durapi, extra, keys);
            lemma_without_concat(s0 + seg_res + seg_cost + seg_dur, seg_durapi, keys);
            lemma_without_concat(s0 + seg_res + seg_cost, seg_dur, keys);
            lemma_without_concat(s0 + seg_res, seg_cost, keys);
            lemma_without_concat(s0, seg_res, keys);
            lemma_without_dropped(s0, keys);
            lemma_without_dropped(seg_res, keys);
            lemma_without_dropped(seg_cost, keys);
            lemma_without_dropped(seg_dur, keys);
            lemma_without_dropped(seg_durapi, keys);
            lemma_without_kept(extra, keys);
            assert(fields_without(fields, keys) =~= extra);
        
    }
}

/// Encoding then decoding a well-formed message gives it back: declared
/// fields and preserved unknown fields alike survive the round trip. In
/// the other direction, re-encoding a decoded object rebuilds it up to the
/// order of its declared fields and up to declared optional fields that
/// arrived as explicit nulls, which decode as absent.
#[verifier::rlimit(100)]
pub proof fn lemma_msg_round_trip(m: MessageV)
    requires
        msg_wf(m),
    ensures
        decode_msg_v(enc_msg_v(m)) == Some(m),
{
    match m {
        MessageV::System { subtype, session_id, tools, mcp_servers, extra } => {
            lemma_msg_round_trip_system(subtype, session_id, tools, mcp_servers, extra);
        },
        MessageV::User { message, extra } => {
            lemma_msg_round_trip_user(message, extra);
        },
        MessageV::Assistant { message, extra } => {
            lemma_msg_round_trip_assistant(message, extra);
        },
        MessageV::Result {
            subtype,
            result,
            total_cost_usd,
            duration_ms,
            duration_api_ms,
            extra,
        } => {
            lemma_msg_round_trip_result(
                subtype,
                result,
                total_cost_usd,
                duration_ms,
                duration_api_ms,
                extra,
            );
        },
    }
}


/// Whatever keys are dropped, the kept fields avoid them.
pub proof fn lemma_without_wf(f: Seq<(Seq<char>, JsonV)>, keys: Seq<Seq<char>>)
    ensures
        extra_wf(fields_without(f, keys), keys),
{
    broadcast use vstd::prelude::Seq::lemma_filter_pred;

    assert forall|i: int|
        0 <= i < fields_without(f, keys).len() implies !keys.contains(
        (#[trigger] fields_without(f, keys)[i]).0,
    ) by {
        assert(fields_without(f, keys)[i] == f.filter(
            |kv: (Seq<char>, JsonV)| !keys.contains(kv.0),
        )[i]);
    }
}

/// A present optional value never decodes to a stored null.
pub proof fn lemma_opt_val_not_null(x: Option<JsonV>)
    ensures
        decode_opt_val(x) != Some(JsonV::Null),
{
}

/// A decoded content block is well formed.
pub proof fn lemma_decode_block_wf(j: JsonV, b: BlockV)
    requires
        decode_block_v(j) == Some(b),
    ensures
        block_wf(b),
{
    match j {
        JsonV::Obj(fields) => {
            lemma_without_wf(fields, seq!["type"@, "text"@]);
            lemma_without_wf(fields, seq!["type"@, "id"@, "name"@, "input"@]);
            lemma_without_wf(fields, seq!["type"@, "tool_use_id"@, "content"@, "is_error"@]);
            lemma_opt_val_not_null(field_of(fields, "content"@));
        },
        _ => {},
    }
}

/// Every block of a decoded list is well formed.
pub proof fn lemma_decode_blocks_wf(s: Seq<JsonV>, bs: Seq<BlockV>)
    requires
        decode_blocks_v(s) == Some(bs),
    ensures
        blocks_wf(bs),
    decreases s.len(),
{
    if s.len() == 0 {
    } else {
        let rest = s.subrange(1, s.len() as int);
        match decode_block_v(s[0]) {
            Some(b0) => {
                match decode_blocks_v(rest) {
                    Some(tail) => {
                        lemma_decode_block_wf(s[0], b0);
                        lemma_decode_blocks_wf(rest, tail);
                        assert(bs == seq![b0] + tail);
                        assert forall|i: int| 0 <= i < bs.len() implies block_wf(
                            #[trigger] bs[i],
                        ) by {
                            if i == 0 {
                                assert(bs[0] == b0);
                            } else {
                                assert(bs[i] == tail[i - 1]);
                            }
                        }
                    },
                    None => {},
                }
            },
            None => {},
        }
    }
}

/// A decoded assistant message is well formed.
pub proof fn lemma_decode_assistant_wf(j: JsonV, m: AssistantV)
    requires
        decode_assistant_v(j) == Some(m),
    ensures
        assistant_wf(m),
{
    match j {
        JsonV::Obj(fields) => {
            lemma_without_wf(fields, seq!["id"@, "role"@, "model"@, "content"@, "stop_reason"@]);
            match field_of(fields, "content"@) {
                Some(JsonV::Arr(items)) => {
                    lemma_decode_blocks_wf(items, m.content);
                },
                _ => {},
            }
        },
        _ => {},
    }
}

/// A decoded message is well formed: decoding and encoding compose, so any
/// decoded message re-encodes to a value that decodes back to it.
pub proof fn lemma_decode_msg_wf(j: JsonV, m: MessageV)
    requires
        decode_msg_v(j) == Some(m),
    ensures
        msg_wf(m),
{
    match j {
        JsonV::Obj(fields) => {
            lemma_without_wf(
                fields,
                seq!["type"@, "subtype"@, "session_id"@, "tools"@, "mcp_servers"@],
            );
            lemma_without_wf(fields, seq!["type"@, "message"@]);
            lemma_without_wf(
                fields,
                seq![
                    "type"@,
                    "subtype"@,
                    "result"@,
                    "total_cost_usd"@,
                    "duration_ms"@,
                    "duration_api_ms"@,
                ],
            );
            lemma_opt_val_not_null(field_of(fields, "tools"@));
            lemma_opt_val_not_null(field_of(fields, "mcp_servers"@));
            match m {
                MessageV::Assistant { message, .. } => {
                    match field_of(fields, "message"@) {
                        Some(mv) => {
                            if decode_assistant_v(mv) == Some(message) {
                                lemma_decode_assistant_wf(mv, message);
                            }
                        },
                        None => {},
                    }
                },
                _ => {},
            }
        },
        _ => {},
    }
}

} // verus!
