//! Reading the agent's on-disk session storage: one directory per encoded
//! project path, one line-delimited JSON file per session. The file reading
//! itself happens outside; the path encoding, the record decoding and the
//! message extraction are verified here.

use vstd::prelude::*;
use vstd::string::{StrSliceExecFns, StringExecFns};
use crate::json::{
    JsonValue, JsonV, jv_of, jv_fields, field_of, fields_without, lemma_jv_fields,
    lemma_field_of_push, lemma_field_of_concat, lemma_jv_fields_push, str_eq, json_of,
};
use crate::messages::{opt_str_view, opt_str_of, as_str_value};
use crate::diff::{chars_of, string_from_range, starts_with_at};

verus! {

broadcast use vstd::prelude::Seq::lemma_filter_push;

/// A record of the agent's session storage.
pub struct ClaudeSessionMessage {
    pub msg_type: String,
    pub uuid: Option<String>,
    pub timestamp: Option<String>,
    pub session_id: Option<String>,
    pub message: Option<MessageContent>,
    pub extra: Vec<(String, JsonValue)>,
}

/// The message payload of a stored record.
pub struct MessageContent {
    pub role: Option<String>,
    pub content: JsonValue,
    pub model: Option<String>,
    pub extra: Vec<(String, JsonValue)>,
}

/// A message handed to the presentation layer.
pub struct SessionMessage {
    pub id: String,
    pub msg_type: String,
    pub content: JsonValue,
    pub timestamp: Option<String>,
    pub model: Option<String>,
}

/// The model of a stored record.
pub struct SessMsgV {
    pub msg_type: Seq<char>,
    pub uuid: Option<Seq<char>>,
    pub timestamp: Option<Seq<char>>,
    pub session_id: Option<Seq<char>>,
    pub message: Option<MsgContentV>,
    pub extra: Seq<(Seq<char>, JsonV)>,
}

/// The model of a message payload.
pub struct MsgContentV {
    pub role: Option<Seq<char>>,
    pub content: JsonV,
    pub model: Option<Seq<char>>,
    pub extra: Seq<(Seq<char>, JsonV)>,
}

/// The model of a handed-out message.
pub struct SessionMessageV {
    pub id: Seq<char>,
    pub msg_type: Seq<char>,
    pub content: JsonV,
    pub timestamp: Option<Seq<char>>,
    pub model: Option<Seq<char>>,
}

impl View for MessageContent {
    type V = MsgContentV;

    open spec fn view(&self) -> MsgContentV {
        MsgContentV {
            role: opt_str_view(self.role),
            content: self.content@,
            model: opt_str_view(self.model),
            extra: jv_fields(self.extra@),
        }
    }
}

impl View for ClaudeSessionMessage {
    type V = SessMsgV;

    open spec fn view(&self) -> SessMsgV {
        SessMsgV {
            msg_type: self.msg_type@,
            uuid: opt_str_view(self.uuid),
            timestamp: opt_str_view(self.timestamp),
            session_id: opt_str_view(self.session_id),
            message: match self.message {
                Some(m) => Some(m@),
                None => None,
            },
            extra: jv_fields(self.extra@),
        }
    }
}

impl View for SessionMessage {
    type V = SessionMessageV;

    open spec fn view(&self) -> SessionMessageV {
        SessionMessageV {
            id: self.id@,
            msg_type: self.msg_type@,
            content: self.content@,
            timestamp: opt_str_view(self.timestamp),
            model: opt_str_view(self.model),
        }
    }
}

/// Encodes a project path as the storage directory name: every slash
/// becomes a dash.
#[verifier::loop_isolation(false)]
pub fn encode_project_path(path: &str) -> (r: String)
    ensures
        r@ == path@.map_values(
            (|c: char|
                if c == '/' {
                    '-'
                } else {
                    c
                }),
        ),
{
    let v = chars_of(path);
    let mut out = String::new();
    let mut i: usize = 0;
    while i < v.len()
        invariant
            i <= v@.len(),
            out@.len() == i,
            forall|j: int|
                0 <= j < i ==> out@[j] == (if v@[j] == '/' {
                    '-'
                } else {
                    v@[j]
                }),
        decreases v@.len() - i,
    {
        let c = v[i];
        if c == '/' {
            out.push('-');
        } else {
            out.push(c);
        }
        i += 1;
    }
    proof {
        assert(out@ =~= path@.map_values(
            (|c: char|
                if c == '/' {
                    '-'
                } else {
                    c
                }),
        ));
    }
    out
}

/// The file name of one stored session.
pub fn session_file_name(session_id: &str) -> (r: String)
    ensures
        r@ == session_id@ + ".jsonl"@,
{
    let base = String::from_str(session_id);
    base.concat(".jsonl")
}

/// What a message payload decodes to.
pub open spec fn decode_content_v(j: JsonV) -> Option<MsgContentV> {
    match j {
        JsonV::Obj(fields) => match (
            crate::messages::decode_opt_str(field_of(fields, "role"@)),
            crate::messages::decode_opt_str(field_of(fields, "model"@)),
        ) {
            (Some(role), Some(model)) => Some(
                MsgContentV {
                    role: role,
                    content: match field_of(fields, "content"@) {
                        Some(v) => v,
                        None => JsonV::Null,
                    },
                    model: model,
                    extra: fields_without(fields, seq!["role"@, "content"@, "model"@]),
                },
            ),
            _ => None,
        },
        _ => None,
    }
}

/// What a stored record decodes to: an object with a string `type` and an
/// optional `message` payload; unknown fields are preserved.
pub open spec fn decode_sess_v(j: JsonV) -> Option<SessMsgV> {
    match j {
        JsonV::Obj(fields) => match (
            field_of(fields, "type"@),
            crate::messages::decode_opt_str(field_of(fields, "uuid"@)),
            crate::messages::decode_opt_str(field_of(fields, "timestamp"@)),
            crate::messages::decode_opt_str(field_of(fields, "sessionId"@)),
        ) {
            (Some(JsonV::Str(t)), Some(uuid), Some(timestamp), Some(session_id)) => {
                match field_of(fields, "message"@) {
                    None => Some(
                        SessMsgV {
                            msg_type: t,
                            uuid,
                            timestamp,
                            session_id,
                            message: None,
                            extra: fields_without(
                                fields,
                                seq!["type"@, "uuid"@, "timestamp"@, "sessionId"@, "message"@],
                            ),
                        },
                    ),
                    Some(JsonV::Null) => Some(
                        SessMsgV {
                            msg_type: t,
                            uuid,
                            timestamp,
                            session_id,
                            message: None,
                            extra: fields_without(
                                fields,
                                seq!["type"@, "uuid"@, "timestamp"@, "sessionId"@, "message"@],
                            ),
                        },
                    ),
                    Some(mv) => match decode_content_v(mv) {
                        Some(mc) => Some(
                            SessMsgV {
                                msg_type: t,
                                uuid,
                                timestamp,
                                session_id,
                                message: Some(mc),
                                extra: fields_without(
                                    fields,
                                    seq![
                                        "type"@,
                                        "uuid"@,
                                        "timestamp"@,
                                        "sessionId"@,
                                        "message"@,
                                    ],
                                ),
                            },
                        ),
                        None => None,
                    },
                }
            },
            _ => None,
        },
        _ => None,
    }
}

/// Decodes a message payload from its JSON value.
#[verifier::loop_isolation(false)]
pub fn decode_message_content(v: &JsonValue) -> (r: Option<MessageContent>)
    ensures
        r is Some <==> decode_content_v(jv_of(*v)) is Some,
        r matches Some(m) ==> decode_content_v(jv_of(*v)) == Some(m@),
{
    let fields = match v {
        JsonValue::Obj(fields) => fields,
        JsonValue::Null => {
            return None;
        },
        JsonValue::Bool(_) => {
            return None;
        },
        JsonValue::Num(_) => {
            return None;
        },
        JsonValue::Str(_) => {
            return None;
        },
        JsonValue::Arr(_) => {
            return None;
        },
    };
    let ghost fv = jv_fields(fields@);
    let ghost keys: Seq<Seq<char>> = seq!["role"@, "content"@, "model"@];
    proof {
        lemma_jv_fields(fields@);
        reveal_strlit("role");
        reveal_strlit("content");
        reveal_strlit("model");
        assert("role"@ != "content"@ && "role"@ != "model"@ && "content"@ != "model"@) by {
            assert("role"@.len() == 4);
            assert("content"@.len() == 7);
            assert("model"@.len() == 5);
        }
        assert(fv.take(0) =~= Seq::<(Seq<char>, JsonV)>::empty());
    }
    let mut role: Option<Option<String>> = None;
    let mut model: Option<Option<String>> = None;
    let mut content: Option<JsonValue> = None;
    let mut extra: Vec<(String, JsonValue)> = Vec::new();
    let mut i: usize = 0;
    while i < fields.len()
        invariant
            i <= fv.len(),
            match role {
                Some(os) => field_of(fv.take(i as int), "role"@) is Some
                    && crate::messages::decode_opt_str(field_of(fv.take(i as int), "role"@))
                    == Some(opt_str_view(os)),
                None => field_of(fv.take(i as int), "role"@) is None,
            },
            match model {
                Some(os) => field_of(fv.take(i as int), "model"@) is Some
                    && crate::messages::decode_opt_str(field_of(fv.take(i as int), "model"@))
                    == Some(opt_str_view(os)),
                None => field_of(fv.take(i as int), "model"@) is None,
            },
            match content {
                Some(x) => field_of(fv.take(i as int), "content"@) == Some(jv_of(x)),
                None => field_of(fv.take(i as int), "content"@) is None,
            },
            jv_fields(extra@) == fields_without(fv.take(i as int), keys),
        decreases fv.len() - i,
    {
        let ghost cur = fv[i as int];
        proof {
            assert(fv.take(i as int + 1) =~= fv.take(i as int).push(cur));
            lemma_field_of_push(fv.take(i as int), cur, "role"@);
            lemma_field_of_push(fv.take(i as int), cur, "model"@);
            lemma_field_of_push(fv.take(i as int), cur, "content"@);
        }
        let k: &String = &fields[i].0;
        if str_eq(k.as_str(), "role") {
            proof {
                assert(keys.contains(cur.0)) by {
                    assert(keys[0] == "role"@);
                }
            }
            if role.is_none() {
                match opt_str_of(&fields[i].1) {
                    Some(os) => {
                        role = Some(os);
                    },
                    None => {
                        proof {
                            assert(fv =~= fv.take(i as int + 1) + fv.skip(i as int + 1));
                            lemma_field_of_concat(
                                fv.take(i as int + 1),
                                fv.skip(i as int + 1),
                                "role"@,
                            );
                            assert(field_of(fv, "role"@) == Some(cur.1));
                        }
                        return None;
                    },
                }
            }
        } else if str_eq(k.as_str(), "model") {
            proof {
                assert(keys.contains(cur.0)) by {
                    assert(keys[2] == "model"@);
                }
            }
            if model.is_none() {
                match opt_str_of(&fields[i].1) {
                    Some(os) => {
                        model = Some(os);
                    },
                    None => {
                        proof {
                            assert(fv =~= fv.take(i as int + 1) + fv.skip(i as int + 1));
                            lemma_field_of_concat(
                                fv.take(i as int + 1),
                                fv.skip(i as int + 1),
                                "model"@,
                            );
                            assert(field_of(fv, "model"@) == Some(cur.1));
                        }
                        return None;
                    },
                }
            }
        } else if str_eq(k.as_str(), "content") {
            proof {
                assert(keys.contains(cur.0)) by {
                    assert(keys[1] == "content"@);
                }
            }
            if content.is_none() {
                content = Some(fields[i].1.duplicate());
            }
        } else {
            let key = k.clone();
            let dup = fields[i].1.duplicate();
            proof {
                assert(!keys.contains(cur.0)) by {
                    assert(forall|j: int| 0 <= j < keys.len() ==> keys[j] != cur.0);
                }
                lemma_jv_fields_push(extra@, (key, dup));
            }
            extra.push((key, dup));
        }
        i += 1;
    }
    proof {
        assert(fv.take(fv.len() as int) =~= fv);
    }
    let role_val: Option<String> = match role {
        Some(os) => os,
        None => None,
    };
    let model_val: Option<String> = match model {
        Some(os) => os,
        None => None,
    };
    let content_val: JsonValue = match content {
        Some(x) => x,
        None => JsonValue::Null,
    };
    Some(MessageContent { role: role_val, content: content_val, model: model_val, extra })
}

/// Decodes a stored record from its JSON value.
#[verifier::loop_isolation(false)]
pub fn decode_session_record(v: &JsonValue) -> (r: Option<ClaudeSessionMessage>)
    ensures
        r is Some <==> decode_sess_v(jv_of(*v)) is Some,
        r matches Some(m) ==> decode_sess_v(jv_of(*v)) == Some(m@),
{
    let fields = match v {
        JsonValue::Obj(fields) => fields,
        JsonValue::Null => {
            return None;
        },
        JsonValue::Bool(_) => {
            return None;
        },
        JsonValue::Num(_) => {
            return None;
        },
        JsonValue::Str(_) => {
            return None;
        },
        JsonValue::Arr(_) => {
            return None;
        },
    };
    let ghost fv = jv_fields(fields@);
    let ghost keys: Seq<Seq<char>> = seq![
        "type"@,
        "uuid"@,
        "timestamp"@,
        "sessionId"@,
        "message"@,
    ];
    proof {
        lemma_jv_fields(fields@);
        reveal_strlit("type");
        reveal_strlit("uuid");
        reveal_strlit("timestamp");
        reveal_strlit("sessionId");
        reveal_strlit("message");
        assert("type"@ != "uuid"@) by {
            assert("type"@[0] == 't');
            assert("uuid"@[0] == 'u');
        }
        assert("timestamp"@ != "sessionId"@) by {
            assert("timestamp"@[0] == 't');
            assert("sessionId"@[0] == 's');
        }
        assert("type"@ != "timestamp"@ && "type"@ != "sessionId"@ && "type"@ != "message"@
            && "uuid"@ != "timestamp"@ && "uuid"@ != "sessionId"@ && "uuid"@ != "message"@
            && "timestamp"@ != "message"@ && "sessionId"@ != "message"@) by {
            assert("type"@.len() == 4);
            assert("uuid"@.len() == 4);
            assert("timestamp"@.len() == 9);
            assert("sessionId"@.len() == 9);
            assert("message"@.len() == 7);
            assert("type"@[0] == 't');
            assert("uuid"@[0] == 'u');
            assert("timestamp"@[0] == 't');
            assert("sessionId"@[0] == 's');
        }
        assert(fv.take(0) =~= Seq::<(Seq<char>, JsonV)>::empty());
    }
    let mut msg_type: Option<String> = None;
    let mut uuid: Option<Option<String>> = None;
    let mut timestamp: Option<Option<String>> = None;
    let mut session_id: Option<Option<String>> = None;
    let mut message: Option<Option<MessageContent>> = None;
    let mut extra: Vec<(String, JsonValue)> = Vec::new();
    let mut i: usize = 0;
    while i < fields.len()
        invariant
            i <= fv.len(),
            match msg_type {
                Some(t) => field_of(fv.take(i as int), "type"@) == Some(JsonV::Str(t@)),
                None => field_of(fv.take(i as int), "type"@) is None,
            },
            match uuid {
                Some(os) => field_of(fv.take(i as int), "uuid"@) is Some
                    && crate::messages::decode_opt_str(field_of(fv.take(i as int), "uuid"@))
                    == Some(opt_str_view(os)),
                None => field_of(fv.take(i as int), "uuid"@) is None,
            },
            match timestamp {
                Some(os) => field_of(fv.take(i as int), "timestamp"@) is Some
                    && crate::messages::decode_opt_str(
                    field_of(fv.take(i as int), "timestamp"@),
                ) == Some(opt_str_view(os)),
                None => field_of(fv.take(i as int), "timestamp"@) is None,
            },
            match session_id {
                Some(os) => field_of(fv.take(i as int), "sessionId"@) is Some
                    && crate::messages::decode_opt_str(
                    field_of(fv.take(i as int), "sessionId"@),
                ) == Some(opt_str_view(os)),
                None => field_of(fv.take(i as int), "sessionId"@) is None,
            },
            match message {
                Some(None) => field_of(fv.take(i as int), "message"@) == Some(JsonV::Null),
                Some(Some(mc)) => field_of(fv.take(i as int), "message"@) matches Some(mv)
                    && !(mv is Null) && decode_content_v(mv) == Some(mc@),
                None => field_of(fv.take(i as int), "message"@) is None,
            },
            jv_fields(extra@) == fields_without(fv.take(i as int), keys),
        decreases fv.len() - i,
    {
        let ghost cur = fv[i as int];
        proof {
            assert(fv.take(i as int + 1) =~= fv.take(i as int).push(cur));
            lemma_field_of_push(fv.take(i as int), cur, "type"@);
            lemma_field_of_push(fv.take(i as int), cur, "uuid"@);
            lemma_field_of_push(fv.take(i as int), cur, "timestamp"@);
            lemma_field_of_push(fv.take(i as int), cur, "sessionId"@);
            lemma_field_of_push(fv.take(i as int), cur, "message"@);
        }
        let k: &String = &fields[i].0;
        if str_eq(k.as_str(), "type") {
            proof {
                assert(keys.contains(cur.0)) by {
                    assert(keys[0] == "type"@);
                }
            }
            if msg_type.is_none() {
                match as_str_value(&fields[i].1) {
                    Some(s) => {
                        msg_type = Some(s);
                    },
                    None => {
                        proof {
                            assert(fv =~= fv.take(i as int + 1) + fv.skip(i as int + 1));
                            lemma_field_of_concat(
                                fv.take(i as int + 1),
                                fv.skip(i as int + 1),
                                "type"@,
                            );
                            assert(field_of(fv, "type"@) == Some(cur.1));
                        }
                        return None;
                    },
                }
            }
        } else if str_eq(k.as_str(), "uuid") {
            proof {
                assert(keys.contains(cur.0)) by {
                    assert(keys[1] == "uuid"@);
                }
            }
            if uuid.is_none() {
                match opt_str_of(&fields[i].1) {
                    Some(os) => {
                        uuid = Some(os);
                    },
                    None => {
                        proof {
                            assert(fv =~= fv.take(i as int + 1) + fv.skip(i as int + 1));
                            lemma_field_of_concat(
                                fv.take(i as int + 1),
                                fv.skip(i as int + 1),
                                "uuid"@,
                            );
                            assert(field_of(fv, "uuid"@) == Some(cur.1));
                        }
                        return None;
                    },
                }
            }
        } else if str_eq(k.as_str(), "timestamp") {
            proof {
                assert(keys.contains(cur.0)) by {
                    assert(keys[2] == "timestamp"@);
                }
            }
            if timestamp.is_none() {
                match opt_str_of(&fields[i].1) {
                    Some(os) => {
                        timestamp = Some(os);
                    },
                    None => {
                        proof {
                            assert(fv =~= fv.take(i as int + 1) + fv.skip(i as int + 1));
                            lemma_field_of_concat(
                                fv.take(i as int + 1),
                                fv.skip(i as int + 1),
                                "timestamp"@,
                            );
                            assert(field_of(fv, "timestamp"@) == Some(cur.1));
                        }
                        return None;
                    },
                }
            }
        } else if str_eq(k.as_str(), "sessionId") {
            proof {
                assert(keys.contains(cur.0)) by {
                    assert(keys[3] == "sessionId"@);
                }
            }
            if session_id.is_none() {
                match opt_str_of(&fields[i].1) {
                    Some(os) => {
                        session_id = Some(os);
                    },
                    None => {
                        proof {
                            assert(fv =~= fv.take(i as int + 1) + fv.skip(i as int + 1));
                            lemma_field_of_concat(
                                fv.take(i as int + 1),
                                fv.skip(i as int + 1),
                                "sessionId"@,
                            );
                            assert(field_of(fv, "sessionId"@) == Some(cur.1));
                        }
                        return None;
                    },
                }
            }
        } else if str_eq(k.as_str(), "message") {
            proof {
                assert(keys.contains(cur.0)) by {
                    assert(keys[4] == "message"@);
                }
            }
            if message.is_none() {
                match &fields[i].1 {
                    JsonValue::Null => {
                        message = Some(None);
                    },
                    other => {
                        proof {
                            assert(!(jv_of(fields@[i as int].1) is Null)) by {
                                match other {
                                    JsonValue::Null => {
                                        assert(false);
                                    },
                                    _ => {},
                                }
                            }
                        }
                        match decode_message_content(other) {
                            Some(mc) => {
                                message = Some(Some(mc));
                            },
                            None => {
                                proof {
                                    assert(fv =~= fv.take(i as int + 1) + fv.skip(
                                        i as int + 1,
                                    ));
                                    lemma_field_of_concat(
                                        fv.take(i as int + 1),
                                        fv.skip(i as int + 1),
                                        "message"@,
                                    );
                                    assert(field_of(fv, "message"@) == Some(cur.1));
                                }
                                return None;
                            },
                        }
                    },
                }
            }
        } else {
            let key = k.clone();
            let dup = fields[i].1.duplicate();
            proof {
                assert(!keys.contains(cur.0)) by {
                    assert(forall|j: int| 0 <= j < keys.len() ==> keys[j] != cur.0);
                }
                lemma_jv_fields_push(extra@, (key, dup));
            }
            extra.push((key, dup));
        }
        i += 1;
    }
    proof {
        assert(fv.take(fv.len() as int) =~= fv);
    }
    match msg_type {
        Some(msg_type) => {
            let uuid_val: Option<String> = match uuid {
                Some(os) => os,
                None => None,
            };
            let ts_val: Option<String> = match timestamp {
                Some(os) => os,
                None => None,
            };
            let sid_val: Option<String> = match session_id {
                Some(os) => os,
                None => None,
            };
            let msg_val: Option<MessageContent> = match message {
                Some(om) => om,
                None => None,
            };
            Some(
                ClaudeSessionMessage {
                    msg_type,
                    uuid: uuid_val,
                    timestamp: ts_val,
                    session_id: sid_val,
                    message: msg_val,
                    extra,
                },
            )
        },
        None => None,
    }
}

/// The character of one decimal digit.
pub open spec fn digit_char(d: int) -> char {
    if d == 0 {
        '0'
    } else if d == 1 {
        '1'
    } else if d == 2 {
        '2'
    } else if d == 3 {
        '3'
    } else if d == 4 {
        '4'
    } else if d == 5 {
        '5'
    } else if d == 6 {
        '6'
    } else if d == 7 {
        '7'
    } else if d == 8 {
        '8'
    } else {
        '9'
    }
}

/// The decimal text of a number.
pub open spec fn dec_seq(n: int) -> Seq<char>
    decreases n,
{
    if n < 10 {
        seq![digit_char(if n < 0 {
            0
        } else {
            n
        })]
    } else {
        dec_seq(n / 10).push(digit_char(n % 10))
    }
}

/// The decimal text of a number, as a string.
pub fn usize_dec(n: usize) -> (r: String)
    ensures
        r@ == dec_seq(n as int),
    decreases n,
{
    let d = (n % 10) as u8;
    let c = (48 + d) as char;
    proof {
        assert(c == digit_char(n as int % 10));
    }
    if n < 10 {
        let mut out = String::new();
        out.push(c);
        proof {
            assert(out@ =~= seq![digit_char(n as int)]);
        }
        out
    } else {
        let mut out = usize_dec(n / 10);
        out.push(c);
        out
    }
}

/// What one line of a session file contributes, given how many messages
/// came before it: nothing for an empty, malformed or non-conversation
/// line; otherwise the record's payload, under its own identifier or a
/// fallback built from the type and the running count.
pub open spec fn line_session_msg(line: Seq<char>, n: int) -> Option<SessionMessageV> {
    if line.len() == 0 {
        None
    } else {
        match json_of(line) {
            None => None,
            Some(j) => match decode_sess_v(j) {
                None => None,
                Some(m) => if m.msg_type == "user"@ || m.msg_type == "assistant"@ {
                    match m.message {
                        None => None,
                        Some(mc) => Some(
                            SessionMessageV {
                                id: match m.uuid {
                                    Some(u) => u,
                                    None => m.msg_type + "-"@ + dec_seq(n),
                                },
                                msg_type: m.msg_type,
                                content: mc.content,
                                timestamp: m.timestamp,
                                model: mc.model,
                            },
                        ),
                    }
                } else {
                    None
                },
            },
        }
    }
}

/// The messages that the lines of a session file yield, in order.
pub open spec fn session_msgs(lines: Seq<Seq<char>>) -> Seq<SessionMessageV>
    decreases lines,
{
    if lines.len() == 0 {
        Seq::empty()
    } else {
        let rest = session_msgs(lines.drop_last());
        match line_session_msg(lines.last(), rest.len() as int) {
            Some(m) => rest.push(m),
            None => rest,
        }
    }
}

/// Extracts the conversation from the lines of a session file: empty,
/// malformed and non-conversation lines are skipped, user and assistant
/// records with a payload are kept in order.
#[verifier::loop_isolation(false)]
pub fn extract_session_messages(lines: &Vec<String>) -> (r: Vec<SessionMessage>)
    ensures
        r@.len() == session_msgs(crate::dispatch::line_views(lines@)).len(),
        forall|k: int|
            0 <= k < r@.len() ==> (#[trigger] r@[k])@ == session_msgs(
                crate::dispatch::line_views(lines@),
            )[k],
{
    let ghost lv = crate::dispatch::line_views(lines@);
    proof {
        assert(lv.take(0) =~= Seq::<Seq<char>>::empty());
    }
    let mut out: Vec<SessionMessage> = Vec::new();
    let mut i: usize = 0;
    while i < lines.len()
        invariant
            i <= lv.len(),
            out@.len() == session_msgs(lv.take(i as int)).len(),
            forall|k: int|
                0 <= k < out@.len() ==> (#[trigger] out@[k])@ == session_msgs(
                    lv.take(i as int),
                )[k],
        decreases lv.len() - i,
    {
        proof {
            assert(lv.take(i as int + 1).drop_last() =~= lv.take(i as int));
            assert(lv.take(i as int + 1).last() == lv[i as int]);
        }
        let line = &lines[i];
        if line.as_str().unicode_len() > 0 {
            match crate::json::parse_json(line.as_str()) {
                Some(v) => {
                    match decode_session_record(&v) {
                        Some(m) => {
                            let keep = str_eq(m.msg_type.as_str(), "user") || str_eq(
                                m.msg_type.as_str(),
                                "assistant",
                            );
                            if keep {
                                match m.message {
                                    Some(mc) => {
                                        let id = match m.uuid {
                                            Some(u) => u,
                                            None => {
                                                let base = m.msg_type.clone();
                                                let count = usize_dec(out.len());
                                                base.concat("-").concat(count.as_str())
                                            },
                                        };
                                        out.push(
                                            SessionMessage {
                                                id,
                                                msg_type: m.msg_type,
                                                content: mc.content,
                                                timestamp: m.timestamp,
                                                model: mc.model,
                                            },
                                        );
                                    },
                                    None => {},
                                }
                            }
                        },
                        None => {},
                    }
                },
                None => {},
            }
        }
        i += 1;
    }
    proof {
        assert(lv.take(lv.len() as int) =~= lv);
    }
    out
}

/// The position of the last dot in a name, or minus one.
pub open spec fn last_dot(s: Seq<char>) -> int
    decreases s.len(),
{
    if s.len() == 0 {
        -1
    } else if s.last() == '.' {
        s.len() - 1
    } else {
        last_dot(s.drop_last())
    }
}

/// The last dot is within bounds, holds a dot, and nothing later does.
pub proof fn lemma_last_dot(s: Seq<char>)
    ensures
        -1 <= last_dot(s) < s.len(),
        last_dot(s) >= 0 ==> s[last_dot(s)] == '.',
        forall|j: int| last_dot(s) < j < s.len() ==> s[j] != '.',
    decreases s.len(),
{
    if s.len() > 0 && s.last() != '.' {
        lemma_last_dot(s.drop_last());
        assert forall|j: int| last_dot(s) < j < s.len() implies s[j] != '.' by {
            if j < s.len() - 1 {
                assert(s.drop_last()[j] == s[j]);
            }
        }
    }
}

/// The session identifier a stored file name denotes: the name before the
/// final dot, for a name whose extension is the session-file one; a name
/// whose only dot leads it has no extension.
pub open spec fn jsonl_stem(s: Seq<char>) -> Option<Seq<char>> {
    if last_dot(s) > 0 && s.skip(last_dot(s) + 1) == "jsonl"@ {
        Some(s.take(last_dot(s)))
    } else {
        None
    }
}

/// The session identifiers among a directory's file names, in order.
pub open spec fn jsonl_stems_spec(names: Seq<Seq<char>>) -> Seq<Seq<char>>
    decreases names,
{
    if names.len() == 0 {
        Seq::empty()
    } else {
        let rest = jsonl_stems_spec(names.drop_last());
        match jsonl_stem(names.last()) {
            Some(stem) => rest.push(stem),
            None => rest,
        }
    }
}

/// The session identifiers among a directory's file names: the stems of
/// the names carrying the session-file extension.
#[verifier::loop_isolation(false)]
pub fn jsonl_stems(names: &Vec<String>) -> (r: Vec<String>)
    ensures
        crate::dispatch::line_views(r@) == jsonl_stems_spec(
            crate::dispatch::line_views(names@),
        ),
{
    let ghost nv = crate::dispatch::line_views(names@);
    proof {
        assert(nv.take(0) =~= Seq::<Seq<char>>::empty());
        assert(crate::dispatch::line_views(Seq::<String>::empty()) =~= Seq::<Seq<char>>::empty());
    }
    let mut out: Vec<String> = Vec::new();
    let mut i: usize = 0;
    while i < names.len()
        invariant
            i <= nv.len(),
            crate::dispatch::line_views(out@) == jsonl_stems_spec(nv.take(i as int)),
        decreases nv.len() - i,
    {
        proof {
            assert(nv.take(i as int + 1).drop_last() =~= nv.take(i as int));
            assert(nv.take(i as int + 1).last() == nv[i as int]);
        }
        let v = chars_of(names[i].as_str());
        let ghost name = nv[i as int];
        proof {
            lemma_last_dot(name);
        }
        let mut dot: Option<usize> = None;
        let mut j: usize = v.len();
        while j > 0
            invariant
                j <= v@.len(),
                v@ == name,
                match dot {
                    Some(d) => d < v@.len() && v@[d as int] == '.' && (forall|l: int|
                        d < l < v@.len() ==> v@[l] != '.') && last_dot(name) == d,
                    None => forall|l: int| j <= l < v@.len() ==> v@[l] != '.',
                },
                dot is Some ==> j == 0,
            decreases j,
        {
            if v[j - 1] == '.' {
                dot = Some(j - 1);
                proof {
                    assert(last_dot(name) == j - 1) by {
                        if last_dot(name) > j - 1 {
                            assert(name[last_dot(name)] == '.');
                        }
                        if last_dot(name) < j - 1 {
                            assert(name[j - 1] != '.');
                        }
                    }
                }
                j = 0;
            } else {
                j -= 1;
            }
        }
        proof {
            if dot is None {
                assert(last_dot(name) < 0) by {
                    if last_dot(name) >= 0 {
                        assert(name[last_dot(name)] == '.');
                    }
                }
            }
        }
        match dot {
            Some(d) => {
                if d > 0 && starts_with_at(&v, d + 1, "jsonl") && v.len() - (d + 1) == 5 {
                    proof {
                        reveal_strlit("jsonl");
                        assert(name.skip(d as int + 1) =~= "jsonl"@) by {
                            assert("jsonl"@.is_prefix_of(name.skip(d as int + 1)));
                            assert(name.skip(d as int + 1).len() == 5);
                        }
                    }
                    let stem = string_from_range(&v, 0, d);
                    let ghost pre_out = out@;
                    out.push(stem);
                    proof {
                        assert(out@.drop_last() =~= pre_out);
                        assert(name.take(d as int) =~= v@.subrange(0, d as int));
                        assert(crate::dispatch::line_views(out@) =~= crate::dispatch::line_views(
                            pre_out,
                        ).push(name.take(d as int)));
                    }
                } else {
                    proof {
                        reveal_strlit("jsonl");
                        if last_dot(name) > 0 && name.skip(last_dot(name) + 1) == "jsonl"@ {
                            assert("jsonl"@.is_prefix_of(name.skip(d as int + 1)));
                            assert(name.skip(d as int + 1).len() == 5);
                        }
                    }
                }
            },
            None => {},
        }
        i += 1;
    }
    proof {
        assert(nv.take(nv.len() as int) =~= nv);
    }
    out
}

} // verus!
