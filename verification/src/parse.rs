//! Decoding envelopes from their wire form. The spec functions below
//! define, character by character, which lines parse and to what; the
//! executable parser is proved to return exactly that. A line that does
//! not fit the envelope grammar yields nothing, and the reading duty
//! skips it.
//!
//! The grammar is the protocol's own: an object of `src`, `dest` and
//! `body` members in any order, whitespace between tokens, strings with
//! the common escapes, unsigned decimal numbers, and the body tagged by
//! its `type` member. A member outside the protocol is refused.

use vstd::prelude::*;
use crate::message::{Body, Message};

verus! {

/// The ghost mirror of an envelope: what a parsed line denotes.
pub struct MessageModel {
    pub src: Seq<char>,
    pub dest: Seq<char>,
    pub body: BodyModel,
}

/// The ghost mirror of a body.
pub enum BodyModel {
    Error { in_reply_to: u64, code: u64, text: Seq<char> },
    Init { msg_id: u64, node_id: Seq<char>, node_ids: Seq<Seq<char>> },
    InitOk { in_reply_to: u64 },
    Broadcast { msg_id: u64, message: u64 },
    BroadcastOk { msg_id: u64, in_reply_to: u64 },
    Read { msg_id: u64 },
    ReadOk { msg_id: u64, in_reply_to: u64, messages: Seq<u64> },
    Topology { msg_id: u64, topology: Seq<(Seq<char>, Seq<Seq<char>>)> },
    TopologyOk { msg_id: u64, in_reply_to: u64 },
    Gossip { messages: Seq<u64> },
    GossipOk { messages: Seq<u64> },
}

/// The denotation of a topology list.
pub open spec fn topo_model(t: Seq<(String, Vec<String>)>) -> Seq<(Seq<char>, Seq<Seq<char>>)> {
    t.map_values(|e: (String, Vec<String>)| (e.0@, e.1.deep_view()))
}

/// The denotation of a body value.
pub open spec fn body_model(b: Body) -> BodyModel {
    match b {
        Body::Error { in_reply_to, code, text } => BodyModel::Error {
            in_reply_to,
            code,
            text: text@,
        },
        Body::Init { msg_id, node_id, node_ids } => BodyModel::Init {
            msg_id,
            node_id: node_id@,
            node_ids: node_ids.deep_view(),
        },
        Body::InitOk { in_reply_to } => BodyModel::InitOk { in_reply_to },
        Body::Broadcast { msg_id, message } => BodyModel::Broadcast { msg_id, message },
        Body::BroadcastOk { msg_id, in_reply_to } => BodyModel::BroadcastOk { msg_id, in_reply_to },
        Body::Read { msg_id } => BodyModel::Read { msg_id },
        Body::ReadOk { msg_id, in_reply_to, messages } => BodyModel::ReadOk {
            msg_id,
            in_reply_to,
            messages: messages@,
        },
        Body::Topology { msg_id, topology } => BodyModel::Topology {
            msg_id,
            topology: topo_model(topology@),
        },
        Body::TopologyOk { msg_id, in_reply_to } => BodyModel::TopologyOk { msg_id, in_reply_to },
        Body::Gossip { messages } => BodyModel::Gossip { messages: messages@ },
        Body::GossipOk { messages } => BodyModel::GossipOk { messages: messages@ },
    }
}

/// The denotation of an envelope value.
pub open spec fn message_model(m: Message) -> MessageModel {
    MessageModel { src: m.src@, dest: m.dest@, body: body_model(m.body) }
}

/// JSON whitespace.
pub open spec fn is_ws(c: char) -> bool {
    c == ' ' || c == '\t' || c == '\n' || c == '\r'
}

/// The first position at or after `i` that is not whitespace.
pub open spec fn spec_ws(s: Seq<char>, i: int) -> int
    decreases s.len() - i,
{
    if 0 <= i < s.len() && is_ws(s[i]) {
        spec_ws(s, i + 1)
    } else {
        i
    }
}

/// The contents of a string literal read from inside its quotes, with
/// the accumulated prefix; yields the contents and the position after
/// the closing quote.
pub open spec fn spec_str_tail(s: Seq<char>, i: int, acc: Seq<char>) -> Option<(Seq<char>, int)>
    decreases s.len() - i,
{
    if i < 0 || i >= s.len() {
        None
    } else if s[i] == '"' {
        Some((acc, i + 1))
    } else if s[i] == '\\' {
        if i + 1 < s.len() {
            let c = s[i + 1];
            if c == '"' {
                spec_str_tail(s, i + 2, acc.push('"'))
            } else if c == '\\' {
                spec_str_tail(s, i + 2, acc.push('\\'))
            } else if c == '/' {
                spec_str_tail(s, i + 2, acc.push('/'))
            } else if c == 'n' {
                spec_str_tail(s, i + 2, acc.push('\n'))
            } else if c == 'r' {
                spec_str_tail(s, i + 2, acc.push('\r'))
            } else if c == 't' {
                spec_str_tail(s, i + 2, acc.push('\t'))
            } else {
                None
            }
        } else {
            None
        }
    } else {
        spec_str_tail(s, i + 1, acc.push(s[i]))
    }
}

/// A string literal starting at `i`.
pub open spec fn spec_parse_string(s: Seq<char>, i: int) -> Option<(Seq<char>, int)> {
    if 0 <= i < s.len() && s[i] == '"' {
        spec_str_tail(s, i + 1, Seq::empty())
    } else {
        None
    }
}

/// True of a decimal digit.
pub open spec fn is_digit(c: char) -> bool {
    c == '0' || c == '1' || c == '2' || c == '3' || c == '4' || c == '5' || c == '6' || c == '7'
        || c == '8' || c == '9'
}

/// The value of a decimal digit.
pub open spec fn digit_value(c: char) -> u64 {
    if c == '0' {
        0
    } else if c == '1' {
        1
    } else if c == '2' {
        2
    } else if c == '3' {
        3
    } else if c == '4' {
        4
    } else if c == '5' {
        5
    } else if c == '6' {
        6
    } else if c == '7' {
        7
    } else if c == '8' {
        8
    } else {
        9
    }
}

/// The run of digits from `i` accumulated onto `acc`; a number beyond
/// the 64-bit range is refused.
pub open spec fn spec_digits(s: Seq<char>, i: int, acc: u64) -> Option<(u64, int)>
    decreases s.len() - i,
{
    if 0 <= i < s.len() && is_digit(s[i]) {
        let next = acc * 10 + digit_value(s[i]);
        if next > u64::MAX {
            None
        } else {
            spec_digits(s, i + 1, next as u64)
        }
    } else {
        Some((acc, i))
    }
}

/// An unsigned decimal number starting at `i`.
pub open spec fn spec_parse_u64(s: Seq<char>, i: int) -> Option<(u64, int)> {
    if 0 <= i < s.len() && is_digit(s[i]) {
        spec_digits(s, i, 0)
    } else {
        None
    }
}

/// The remaining elements of a number array, after one element: either
/// the closing bracket or a comma and a further element.
pub open spec fn spec_nums_rest(s: Seq<char>, i: int, acc: Seq<u64>, fuel: nat) -> Option<
    (Seq<u64>, int),
>
    decreases fuel,
{
    let j = spec_ws(s, i);
    if 0 <= j < s.len() {
        if s[j] == ']' {
            Some((acc, j + 1))
        } else if s[j] == ',' && fuel > 0 {
            let k = spec_ws(s, j + 1);
            match spec_parse_u64(s, k) {
                Some((v, m)) => spec_nums_rest(s, m, acc.push(v), (fuel - 1) as nat),
                None => None,
            }
        } else {
            None
        }
    } else {
        None
    }
}

/// A JSON array of numbers starting at `i`.
pub open spec fn spec_parse_nums(s: Seq<char>, i: int) -> Option<(Seq<u64>, int)> {
    if 0 <= i < s.len() && s[i] == '[' {
        let j = spec_ws(s, i + 1);
        if 0 <= j < s.len() && s[j] == ']' {
            Some((Seq::empty(), j + 1))
        } else {
            match spec_parse_u64(s, j) {
                Some((v, m)) => spec_nums_rest(s, m, seq![v], s.len() as nat),
                None => None,
            }
        }
    } else {
        None
    }
}

/// The remaining elements of a string array, after one element.
pub open spec fn spec_strs_rest(s: Seq<char>, i: int, acc: Seq<Seq<char>>, fuel: nat) -> Option<
    (Seq<Seq<char>>, int),
>
    decreases fuel,
{
    let j = spec_ws(s, i);
    if 0 <= j < s.len() {
        if s[j] == ']' {
            Some((acc, j + 1))
        } else if s[j] == ',' && fuel > 0 {
            let k = spec_ws(s, j + 1);
            match spec_parse_string(s, k) {
                Some((v, m)) => spec_strs_rest(s, m, acc.push(v), (fuel - 1) as nat),
                None => None,
            }
        } else {
            None
        }
    } else {
        None
    }
}

/// A JSON array of strings starting at `i`.
pub open spec fn spec_parse_strs(s: Seq<char>, i: int) -> Option<(Seq<Seq<char>>, int)> {
    if 0 <= i < s.len() && s[i] == '[' {
        let j = spec_ws(s, i + 1);
        if 0 <= j < s.len() && s[j] == ']' {
            Some((Seq::empty(), j + 1))
        } else {
            match spec_parse_string(s, j) {
                Some((v, m)) => spec_strs_rest(s, m, seq![v], s.len() as nat),
                None => None,
            }
        }
    } else {
        None
    }
}

/// One `"node":[ids]` member of a topology object: the key, a colon,
/// and the neighbour list.
pub open spec fn spec_topo_entry(s: Seq<char>, i: int) -> Option<
    ((Seq<char>, Seq<Seq<char>>), int),
> {
    match spec_parse_string(s, i) {
        Some((key, j)) => {
            let k = spec_ws(s, j);
            if 0 <= k < s.len() && s[k] == ':' {
                let m = spec_ws(s, k + 1);
                match spec_parse_strs(s, m) {
                    Some((ids, e)) => Some(((key, ids), e)),
                    None => None,
                }
            } else {
                None
            }
        },
        None => None,
    }
}

/// The remaining members of a topology object, after one member.
pub open spec fn spec_topo_rest(
    s: Seq<char>,
    i: int,
    acc: Seq<(Seq<char>, Seq<Seq<char>>)>,
    fuel: nat,
) -> Option<(Seq<(Seq<char>, Seq<Seq<char>>)>, int)>
    decreases fuel,
{
    let j = spec_ws(s, i);
    if 0 <= j < s.len() {
        if s[j] == '}' {
            Some((acc, j + 1))
        } else if s[j] == ',' && fuel > 0 {
            let k = spec_ws(s, j + 1);
            match spec_topo_entry(s, k) {
                Some((e, m)) => spec_topo_rest(s, m, acc.push(e), (fuel - 1) as nat),
                None => None,
            }
        } else {
            None
        }
    } else {
        None
    }
}

/// A topology object starting at `i`.
pub open spec fn spec_parse_topology(s: Seq<char>, i: int) -> Option<
    (Seq<(Seq<char>, Seq<Seq<char>>)>, int),
> {
    if 0 <= i < s.len() && s[i] == '{' {
        let j = spec_ws(s, i + 1);
        if 0 <= j < s.len() && s[j] == '}' {
            Some((Seq::empty(), j + 1))
        } else {
            match spec_topo_entry(s, j) {
                Some((e, m)) => spec_topo_rest(s, m, seq![e], s.len() as nat),
                None => None,
            }
        }
    } else {
        None
    }
}

/// The body members collected so far, each at most once.
pub struct FieldsModel {
    pub tag: Option<Seq<char>>,
    pub msg_id: Option<u64>,
    pub in_reply_to: Option<u64>,
    pub code: Option<u64>,
    pub message: Option<u64>,
    pub node_id: Option<Seq<char>>,
    pub text: Option<Seq<char>>,
    pub node_ids: Option<Seq<Seq<char>>>,
    pub messages: Option<Seq<u64>>,
    pub topology: Option<Seq<(Seq<char>, Seq<Seq<char>>)>>,
}

/// No body member seen yet.
pub open spec fn empty_fields() -> FieldsModel {
    FieldsModel {
        tag: None,
        msg_id: None,
        in_reply_to: None,
        code: None,
        message: None,
        node_id: None,
        text: None,
        node_ids: None,
        messages: None,
        topology: None,
    }
}

/// One body member at `i`: a known key, a colon, and a value of the
/// type that key carries. A repeated or unknown key is refused.
pub open spec fn spec_body_member(s: Seq<char>, i: int, f: FieldsModel) -> Option<
    (FieldsModel, int),
> {
    match spec_parse_string(s, i) {
        Some((key, j)) => {
            let k = spec_ws(s, j);
            if 0 <= k < s.len() && s[k] == ':' {
                let m = spec_ws(s, k + 1);
                if key == "type"@ {
                    if f.tag is Some {
                        None
                    } else {
                        match spec_parse_string(s, m) {
                            Some((v, e)) => Some((FieldsModel { tag: Some(v), ..f }, e)),
                            None => None,
                        }
                    }
                } else if key == "msg_id"@ {
                    if f.msg_id is Some {
                        None
                    } else {
                        match spec_parse_u64(s, m) {
                            Some((v, e)) => Some((FieldsModel { msg_id: Some(v), ..f }, e)),
                            None => None,
                        }
                    }
                } else if key == "in_reply_to"@ {
                    if f.in_reply_to is Some {
                        None
                    } else {
                        match spec_parse_u64(s, m) {
                            Some((v, e)) => Some((FieldsModel { in_reply_to: Some(v), ..f }, e)),
                            None => None,
                        }
                    }
                } else if key == "code"@ {
                    if f.code is Some {
                        None
                    } else {
                        match spec_parse_u64(s, m) {
                            Some((v, e)) => Some((FieldsModel { code: Some(v), ..f }, e)),
                            None => None,
                        }
                    }
                } else if key == "message"@ {
                    if f.message is Some {
                        None
                    } else {
                        match spec_parse_u64(s, m) {
                            Some((v, e)) => Some((FieldsModel { message: Some(v), ..f }, e)),
                            None => None,
                        }
                    }
                } else if key == "node_id"@ {
                    if f.node_id is Some {
                        None
                    } else {
                        match spec_parse_string(s, m) {
                            Some((v, e)) => Some((FieldsModel { node_id: Some(v), ..f }, e)),
                            None => None,
                        }
                    }
                } else if key == "text"@ {
                    if f.text is Some {
                        None
                    } else {
                        match spec_parse_string(s, m) {
                            Some((v, e)) => Some((FieldsModel { text: Some(v), ..f }, e)),
                            None => None,
                        }
                    }
                } else if key == "node_ids"@ {
                    if f.node_ids is Some {
                        None
                    } else {
                        match spec_parse_strs(s, m) {
                            Some((v, e)) => Some((FieldsModel { node_ids: Some(v), ..f }, e)),
                            None => None,
                        }
                    }
                } else if key == "messages"@ {
                    if f.messages is Some {
                        None
                    } else {
                        match spec_parse_nums(s, m) {
                            Some((v, e)) => Some((FieldsModel { messages: Some(v), ..f }, e)),
                            None => None,
                        }
                    }
                } else if key == "topology"@ {
                    if f.topology is Some {
                        None
                    } else {
                        match spec_parse_topology(s, m) {
                            Some((v, e)) => Some((FieldsModel { topology: Some(v), ..f }, e)),
                            None => None,
                        }
                    }
                } else {
                    None
                }
            } else {
                None
            }
        },
        None => None,
    }
}

/// The remaining members of a body object, after one member.
pub open spec fn spec_body_rest(s: Seq<char>, i: int, f: FieldsModel, fuel: nat) -> Option<
    (FieldsModel, int),
>
    decreases fuel,
{
    let j = spec_ws(s, i);
    if 0 <= j < s.len() {
        if s[j] == '}' {
            Some((f, j + 1))
        } else if s[j] == ',' && fuel > 0 {
            let k = spec_ws(s, j + 1);
            match spec_body_member(s, k, f) {
                Some((f2, m)) => spec_body_rest(s, m, f2, (fuel - 1) as nat),
                None => None,
            }
        } else {
            None
        }
    } else {
        None
    }
}

/// The body the collected members denote: the tag picks the variant and
/// its members must all be present; members the variant does not use
/// are allowed and ignored.
pub open spec fn spec_assemble_body(f: FieldsModel) -> Option<BodyModel> {
    match f.tag {
        Some(tag) => {
            if tag == "error"@ {
                match (f.in_reply_to, f.code, f.text) {
                    (Some(in_reply_to), Some(code), Some(text)) => Some(
                        BodyModel::Error { in_reply_to, code, text },
                    ),
                    _ => None,
                }
            } else if tag == "init"@ {
                match (f.msg_id, f.node_id, f.node_ids) {
                    (Some(msg_id), Some(node_id), Some(node_ids)) => Some(
                        BodyModel::Init { msg_id, node_id, node_ids },
                    ),
                    _ => None,
                }
            } else if tag == "init_ok"@ {
                match f.in_reply_to {
                    Some(in_reply_to) => Some(BodyModel::InitOk { in_reply_to }),
                    _ => None,
                }
            } else if tag == "broadcast"@ {
                match (f.msg_id, f.message) {
                    (Some(msg_id), Some(message)) => Some(BodyModel::Broadcast { msg_id, message }),
                    _ => None,
                }
            } else if tag == "broadcast_ok"@ {
                match (f.msg_id, f.in_reply_to) {
                    (Some(msg_id), Some(in_reply_to)) => Some(
                        BodyModel::BroadcastOk { msg_id, in_reply_to },
                    ),
                    _ => None,
                }
            } else if tag == "read"@ {
                match f.msg_id {
                    Some(msg_id) => Some(BodyModel::Read { msg_id }),
                    _ => None,
                }
            } else if tag == "read_ok"@ {
                match (f.msg_id, f.in_reply_to, f.messages) {
                    (Some(msg_id), Some(in_reply_to), Some(messages)) => Some(
                        BodyModel::ReadOk { msg_id, in_reply_to, messages },
                    ),
                    _ => None,
                }
            } else if tag == "topology"@ {
                match (f.msg_id, f.topology) {
                    (Some(msg_id), Some(topology)) => Some(
                        BodyModel::Topology { msg_id, topology },
                    ),
                    _ => None,
                }
            } else if tag == "topology_ok"@ {
                match (f.msg_id, f.in_reply_to) {
                    (Some(msg_id), Some(in_reply_to)) => Some(
                        BodyModel::TopologyOk { msg_id, in_reply_to },
                    ),
                    _ => None,
                }
            } else if tag == "gossip"@ {
                match f.messages {
                    Some(messages) => Some(BodyModel::Gossip { messages }),
                    _ => None,
                }
            } else if tag == "gossip_ok"@ {
                match f.messages {
                    Some(messages) => Some(BodyModel::GossipOk { messages }),
                    _ => None,
                }
            } else {
                None
            }
        },
        None => None,
    }
}

/// The members of a body object starting at `i`, collected.
pub open spec fn spec_body_fields(s: Seq<char>, i: int) -> Option<(FieldsModel, int)> {
    if 0 <= i < s.len() && s[i] == '{' {
        let j = spec_ws(s, i + 1);
        if 0 <= j < s.len() && s[j] == '}' {
            Some((empty_fields(), j + 1))
        } else {
            match spec_body_member(s, j, empty_fields()) {
                Some((f, m)) => spec_body_rest(s, m, f, s.len() as nat),
                None => None,
            }
        }
    } else {
        None
    }
}

/// A body object starting at `i`.
pub open spec fn spec_parse_body(s: Seq<char>, i: int) -> Option<(BodyModel, int)> {
    match spec_body_fields(s, i) {
        Some((f, e)) => match spec_assemble_body(f) {
            Some(b) => Some((b, e)),
            None => None,
        },
        None => None,
    }
}

/// The envelope members collected so far, each at most once.
pub struct EnvFieldsModel {
    pub src: Option<Seq<char>>,
    pub dest: Option<Seq<char>>,
    pub body: Option<BodyModel>,
}

/// No envelope member seen yet.
pub open spec fn empty_env_fields() -> EnvFieldsModel {
    EnvFieldsModel { src: None, dest: None, body: None }
}

/// One envelope member at `i`: `src`, `dest` or `body`.
pub open spec fn spec_env_member(s: Seq<char>, i: int, f: EnvFieldsModel) -> Option<
    (EnvFieldsModel, int),
> {
    match spec_parse_string(s, i) {
        Some((key, j)) => {
            let k = spec_ws(s, j);
            if 0 <= k < s.len() && s[k] == ':' {
                let m = spec_ws(s, k + 1);
                if key == "src"@ {
                    if f.src is Some {
                        None
                    } else {
                        match spec_parse_string(s, m) {
                            Some((v, e)) => Some((EnvFieldsModel { src: Some(v), ..f }, e)),
                            None => None,
                        }
                    }
                } else if key == "dest"@ {
                    if f.dest is Some {
                        None
                    } else {
                        match spec_parse_string(s, m) {
                            Some((v, e)) => Some((EnvFieldsModel { dest: Some(v), ..f }, e)),
                            None => None,
                        }
                    }
                } else if key == "body"@ {
                    if f.body is Some {
                        None
                    } else {
                        match spec_parse_body(s, m) {
                            Some((v, e)) => Some((EnvFieldsModel { body: Some(v), ..f }, e)),
                            None => None,
                        }
                    }
                } else {
                    None
                }
            } else {
                None
            }
        },
        None => None,
    }
}

/// The remaining members of the envelope object, after one member.
pub open spec fn spec_env_rest(s: Seq<char>, i: int, f: EnvFieldsModel, fuel: nat) -> Option<
    (EnvFieldsModel, int),
>
    decreases fuel,
{
    let j = spec_ws(s, i);
    if 0 <= j < s.len() {
        if s[j] == '}' {
            Some((f, j + 1))
        } else if s[j] == ',' && fuel > 0 {
            let k = spec_ws(s, j + 1);
            match spec_env_member(s, k, f) {
                Some((f2, m)) => spec_env_rest(s, m, f2, (fuel - 1) as nat),
                None => None,
            }
        } else {
            None
        }
    } else {
        None
    }
}

/// The members of the envelope object, collected: `src`, `dest` and
/// `body`, each at most once, with whitespace allowed around tokens.
pub open spec fn spec_env_collect(s: Seq<char>) -> Option<(EnvFieldsModel, int)> {
    let i = spec_ws(s, 0);
    if 0 <= i < s.len() && s[i] == '{' {
        let j = spec_ws(s, i + 1);
        if 0 <= j < s.len() && s[j] == '}' {
            Some((empty_env_fields(), j + 1))
        } else {
            match spec_env_member(s, j, empty_env_fields()) {
                Some((f, m)) => spec_env_rest(s, m, f, s.len() as nat),
                None => None,
            }
        }
    } else {
        None
    }
}

/// What one line of the bus denotes, assembled from the collected
/// members.
pub open spec fn spec_parse_envelope(s: Seq<char>) -> Option<MessageModel> {
    match spec_env_collect(s) {
        Some((f, e)) => {
            if spec_ws(s, e) == s.len() {
                match (f.src, f.dest, f.body) {
                    (Some(src), Some(dest), Some(body)) => Some(MessageModel { src, dest, body }),
                    _ => None,
                }
            } else {
                None
            }
        },
        None => None,
    }
}

/// The denotation of an executable string parse result.
pub open spec fn str_res(r: Option<(String, usize)>) -> Option<(Seq<char>, int)> {
    match r {
        Some((v, j)) => Some((v@, j as int)),
        None => None,
    }
}

/// The denotation of an executable number parse result.
pub open spec fn num_res(r: Option<(u64, usize)>) -> Option<(u64, int)> {
    match r {
        Some((v, j)) => Some((v, j as int)),
        None => None,
    }
}

/// The denotation of an executable number-array parse result.
pub open spec fn nums_res(r: Option<(Vec<u64>, usize)>) -> Option<(Seq<u64>, int)> {
    match r {
        Some((v, j)) => Some((v@, j as int)),
        None => None,
    }
}

/// The denotation of an executable string-array parse result.
pub open spec fn strs_res(r: Option<(Vec<String>, usize)>) -> Option<(Seq<Seq<char>>, int)> {
    match r {
        Some((v, j)) => Some((v.deep_view(), j as int)),
        None => None,
    }
}

/// The denotation of an executable topology parse result.
pub open spec fn topo_res(r: Option<(Vec<(String, Vec<String>)>, usize)>) -> Option<
    (Seq<(Seq<char>, Seq<Seq<char>>)>, int),
> {
    match r {
        Some((v, j)) => Some((topo_model(v@), j as int)),
        None => None,
    }
}

/// The first position at or after `i` that is not whitespace.
fn skip_ws(s: &str, i: usize) -> (r: usize)
    requires
        i <= s@.len(),
    ensures
        r as int == spec_ws(s@, i as int),
        i <= r <= s@.len(),
{
    let len = s.unicode_len();
    let mut cur = i;
    loop
        invariant
            i <= cur <= len,
            len == s@.len(),
            spec_ws(s@, i as int) == spec_ws(s@, cur as int),
        decreases len - cur,
    {
        if !(cur < len) {
            return cur;
        }
        let c = s.get_char(cur);
        if c == ' ' || c == '\t' || c == '\n' || c == '\r' {
            cur = cur + 1;
        } else {
            return cur;
        }
    }
}

/// True exactly when two string slices hold the same characters.
fn str_content_eq(a: &str, b: &str) -> (r: bool)
    ensures
        r == (a@ == b@),
{
    let la = a.unicode_len();
    let lb = b.unicode_len();
    if la != lb {
        return false;
    }
    let mut i: usize = 0;
    while i < la
        invariant
            0 <= i <= la,
            la == a@.len(),
            la == b@.len(),
            forall|j: int| 0 <= j < i ==> a@[j] == b@[j],
        decreases la - i,
    {
        if char_differs(a.get_char(i), b.get_char(i)) {
            return false;
        }
        i = i + 1;
    }
    proof {
        assert(a@ =~= b@);
    }
    true
}

/// True when two characters differ.
fn char_differs(a: char, b: char) -> (r: bool)
    ensures
        r == (a != b),
{
    a != b
}

/// A string literal starting at `i`, as `spec_parse_string` reads it.
fn parse_string_at(s: &str, i: usize) -> (r: Option<(String, usize)>)
    requires
        i <= s@.len(),
    ensures
        str_res(r) == spec_parse_string(s@, i as int),
        r matches Some(p) ==> p.1 <= s@.len(),
{
    let len = s.unicode_len();
    if !(i < len) || char_differs(s.get_char(i), '"') {
        return None;
    }
    proof {
        assert(spec_parse_string(s@, i as int) == spec_str_tail(
            s@,
            i + 1 as int,
            Seq::<char>::empty(),
        ));
    }
    let mut acc = String::new();
    let mut cur = i + 1;
    loop
        invariant
            i + 1 <= cur <= len,
            len == s@.len(),
            spec_parse_string(s@, i as int) == spec_str_tail(s@, cur as int, acc@),
        decreases len - cur,
    {
        if !(cur < len) {
            return None;
        }
        let c = s.get_char(cur);
        if c == '"' {
            proof {
                assert(spec_str_tail(s@, cur as int, acc@) == Some((acc@, cur + 1 as int)));
            }
            return Some((acc, cur + 1));
        } else if c == '\\' {
            if !(cur + 1 < len) {
                proof {
                    assert(spec_str_tail(s@, cur as int, acc@) is None);
                }
                return None;
            }
            let e = s.get_char(cur + 1);
            if e == '"' {
                crate::codec::push_char(&mut acc, '"');
            } else if e == '\\' {
                crate::codec::push_char(&mut acc, '\\');
            } else if e == '/' {
                crate::codec::push_char(&mut acc, '/');
            } else if e == 'n' {
                crate::codec::push_char(&mut acc, '\n');
            } else if e == 'r' {
                crate::codec::push_char(&mut acc, '\r');
            } else if e == 't' {
                crate::codec::push_char(&mut acc, '\t');
            } else {
                proof {
                    assert(spec_str_tail(s@, cur as int, acc@) is None);
                }
                return None;
            }
            cur = cur + 2;
        } else {
            crate::codec::push_char(&mut acc, c);
            cur = cur + 1;
        }
    }
}

/// An unsigned decimal number starting at `i`, as `spec_parse_u64`
/// reads it.
fn parse_u64_at(s: &str, i: usize) -> (r: Option<(u64, usize)>)
    requires
        i <= s@.len(),
    ensures
        num_res(r) == spec_parse_u64(s@, i as int),
        r matches Some(p) ==> p.1 <= s@.len(),
{
    let len = s.unicode_len();
    if !(i < len) || !is_digit_exec(s.get_char(i)) {
        return None;
    }
    proof {
        assert(spec_parse_u64(s@, i as int) == spec_digits(s@, i as int, 0));
    }
    let mut acc: u64 = 0;
    let mut cur = i;
    loop
        invariant
            i <= cur <= len,
            len == s@.len(),
            spec_parse_u64(s@, i as int) == spec_digits(s@, cur as int, acc),
        decreases len - cur,
    {
        if !(cur < len) {
            proof {
                assert(spec_digits(s@, cur as int, acc) == Some((acc, cur as int)));
            }
            return Some((acc, cur));
        }
        let c = s.get_char(cur);
        if !is_digit_exec(c) {
            proof {
                assert(spec_digits(s@, cur as int, acc) == Some((acc, cur as int)));
            }
            return Some((acc, cur));
        }
        let d = digit_value_exec(c);
        let next = match acc.checked_mul(10) {
            Some(x) => x.checked_add(d),
            None => None,
        };
        match next {
            Some(v) => {
                proof {
                    assert(v == acc * 10 + digit_value(c));
                }
                acc = v;
                cur = cur + 1;
            },
            None => {
                proof {
                    assert(acc * 10 + digit_value(c) > u64::MAX);
                    assert(spec_digits(s@, cur as int, acc) is None);
                }
                return None;
            },
        }
    }
}

/// True of a decimal digit.
fn is_digit_exec(c: char) -> (r: bool)
    ensures
        r == is_digit(c),
{
    c == '0' || c == '1' || c == '2' || c == '3' || c == '4' || c == '5' || c == '6' || c == '7'
        || c == '8' || c == '9'
}

/// The value of a decimal digit.
fn digit_value_exec(c: char) -> (r: u64)
    ensures
        r == digit_value(c),
{
    if c == '0' {
        0
    } else if c == '1' {
        1
    } else if c == '2' {
        2
    } else if c == '3' {
        3
    } else if c == '4' {
        4
    } else if c == '5' {
        5
    } else if c == '6' {
        6
    } else if c == '7' {
        7
    } else if c == '8' {
        8
    } else {
        9
    }
}

/// A JSON array of numbers starting at `i`, as `spec_parse_nums` reads
/// it.
fn parse_nums_at(s: &str, i: usize) -> (r: Option<(Vec<u64>, usize)>)
    requires
        i <= s@.len(),
    ensures
        nums_res(r) == spec_parse_nums(s@, i as int),
        r matches Some(p) ==> p.1 <= s@.len(),
{
    let len = s.unicode_len();
    if !(i < len) || char_differs(s.get_char(i), '[') {
        return None;
    }
    let j = skip_ws(s, i + 1);
    if j < len && !char_differs(s.get_char(j), ']') {
        return Some((Vec::new(), j + 1));
    }
    let mut acc: Vec<u64> = Vec::new();
    let mut cur: usize;
    match parse_u64_at(s, j) {
        Some((v, m)) => {
            acc.push(v);
            cur = m;
        },
        None => {
            return None;
        },
    }
    let mut fuel = len;
    let ghost fuel0 = s@.len() as nat;
    loop
        invariant
            cur <= len,
            len == s@.len(),
            fuel <= len,
            spec_nums_rest(s@, cur as int, acc@, fuel as nat) == spec_parse_nums(s@, i as int),
        decreases fuel,
    {
        let j2 = skip_ws(s, cur);
        if !(j2 < len) {
            return None;
        }
        let c = s.get_char(j2);
        if c == ']' {
            return Some((acc, j2 + 1));
        } else if c == ',' && fuel > 0 {
            let k = skip_ws(s, j2 + 1);
            match parse_u64_at(s, k) {
                Some((v, m)) => {
                    acc.push(v);
                    cur = m;
                    fuel = fuel - 1;
                },
                None => {
                    return None;
                },
            }
        } else {
            return None;
        }
    }
}

/// A JSON array of strings starting at `i`, as `spec_parse_strs` reads
/// it.
fn parse_strs_at(s: &str, i: usize) -> (r: Option<(Vec<String>, usize)>)
    requires
        i <= s@.len(),
    ensures
        strs_res(r) == spec_parse_strs(s@, i as int),
        r matches Some(p) ==> p.1 <= s@.len(),
{
    let len = s.unicode_len();
    if !(i < len) || char_differs(s.get_char(i), '[') {
        return None;
    }
    let j = skip_ws(s, i + 1);
    if j < len && !char_differs(s.get_char(j), ']') {
        let empty: Vec<String> = Vec::new();
        proof {
            assert(empty.deep_view() =~= Seq::<Seq<char>>::empty());
        }
        return Some((empty, j + 1));
    }
    let mut acc: Vec<String> = Vec::new();
    let mut cur: usize;
    match parse_string_at(s, j) {
        Some((v, m)) => {
            let ghost gv = v@;
            acc.push(v);
            proof {
                assert(acc.deep_view() =~= seq![gv]);
            }
            cur = m;
        },
        None => {
            return None;
        },
    }
    let mut fuel = len;
    loop
        invariant
            cur <= len,
            len == s@.len(),
            fuel <= len,
            spec_strs_rest(s@, cur as int, acc.deep_view(), fuel as nat) == spec_parse_strs(
                s@,
                i as int,
            ),
        decreases fuel,
    {
        let j2 = skip_ws(s, cur);
        if !(j2 < len) {
            return None;
        }
        let c = s.get_char(j2);
        if c == ']' {
            return Some((acc, j2 + 1));
        } else if c == ',' && fuel > 0 {
            let k = skip_ws(s, j2 + 1);
            match parse_string_at(s, k) {
                Some((v, m)) => {
                    let ghost pre = acc.deep_view();
                    let ghost gv = v@;
                    acc.push(v);
                    proof {
                        assert(acc.deep_view() =~= pre.push(gv));
                    }
                    cur = m;
                    fuel = fuel - 1;
                },
                None => {
                    return None;
                },
            }
        } else {
            return None;
        }
    }
}

/// One topology member starting at `i`, as `spec_topo_entry` reads it.
fn parse_topo_entry_at(s: &str, i: usize) -> (r: Option<((String, Vec<String>), usize)>)
    requires
        i <= s@.len(),
    ensures
        (match r {
            Some((e, j)) => spec_topo_entry(s@, i as int) == Some(
                ((e.0@, e.1.deep_view()), j as int),
            ) && j <= s@.len(),
            None => spec_topo_entry(s@, i as int) is None,
        }),
{
    let len = s.unicode_len();
    match parse_string_at(s, i) {
        Some((key, j)) => {
            let k = skip_ws(s, j);
            if k < len && !char_differs(s.get_char(k), ':') {
                let m = skip_ws(s, k + 1);
                match parse_strs_at(s, m) {
                    Some((ids, e)) => Some(((key, ids), e)),
                    None => None,
                }
            } else {
                None
            }
        },
        None => None,
    }
}

/// A topology object starting at `i`, as `spec_parse_topology` reads
/// it.
fn parse_topology_at(s: &str, i: usize) -> (r: Option<(Vec<(String, Vec<String>)>, usize)>)
    requires
        i <= s@.len(),
    ensures
        topo_res(r) == spec_parse_topology(s@, i as int),
        r matches Some(p) ==> p.1 <= s@.len(),
{
    let len = s.unicode_len();
    if !(i < len) || char_differs(s.get_char(i), '{') {
        return None;
    }
    let j = skip_ws(s, i + 1);
    if j < len && !char_differs(s.get_char(j), '}') {
        let empty: Vec<(String, Vec<String>)> = Vec::new();
        proof {
            assert(topo_model(empty@) =~= Seq::<(Seq<char>, Seq<Seq<char>>)>::empty());
        }
        return Some((empty, j + 1));
    }
    let mut acc: Vec<(String, Vec<String>)> = Vec::new();
    let mut cur: usize;
    match parse_topo_entry_at(s, j) {
        Some((e, m)) => {
            let ghost ge = (e.0@, e.1.deep_view());
            acc.push(e);
            proof {
                assert(topo_model(acc@) =~= seq![ge]);
            }
            cur = m;
        },
        None => {
            return None;
        },
    }
    let mut fuel = len;
    loop
        invariant
            cur <= len,
            len == s@.len(),
            fuel <= len,
            spec_topo_rest(s@, cur as int, topo_model(acc@), fuel as nat) == spec_parse_topology(
                s@,
                i as int,
            ),
        decreases fuel,
    {
        let j2 = skip_ws(s, cur);
        if !(j2 < len) {
            return None;
        }
        let c = s.get_char(j2);
        if c == '}' {
            return Some((acc, j2 + 1));
        } else if c == ',' && fuel > 0 {
            let k = skip_ws(s, j2 + 1);
            match parse_topo_entry_at(s, k) {
                Some((e, m)) => {
                    let ghost pre = topo_model(acc@);
                    let ghost ge = (e.0@, e.1.deep_view());
                    acc.push(e);
                    proof {
                        assert(topo_model(acc@) =~= pre.push(ge));
                    }
                    cur = m;
                    fuel = fuel - 1;
                },
                None => {
                    return None;
                },
            }
        } else {
            return None;
        }
    }
}

/// The body members collected so far by the executable parser.
struct Fields {
    tag: Option<String>,
    msg_id: Option<u64>,
    in_reply_to: Option<u64>,
    code: Option<u64>,
    message: Option<u64>,
    node_id: Option<String>,
    text: Option<String>,
    node_ids: Option<Vec<String>>,
    messages: Option<Vec<u64>>,
    topology: Option<Vec<(String, Vec<String>)>>,
}

/// The denotation of the collected body members.
spec fn fields_model(f: Fields) -> FieldsModel {
    FieldsModel {
        tag: match f.tag {
            Some(v) => Some(v@),
            None => None,
        },
        msg_id: f.msg_id,
        in_reply_to: f.in_reply_to,
        code: f.code,
        message: f.message,
        node_id: match f.node_id {
            Some(v) => Some(v@),
            None => None,
        },
        text: match f.text {
            Some(v) => Some(v@),
            None => None,
        },
        node_ids: match f.node_ids {
            Some(v) => Some(v.deep_view()),
            None => None,
        },
        messages: match f.messages {
            Some(v) => Some(v@),
            None => None,
        },
        topology: match f.topology {
            Some(v) => Some(topo_model(v@)),
            None => None,
        },
    }
}

/// One body member at `i`, as `spec_body_member` reads it.
fn parse_body_member_at(s: &str, i: usize, f: Fields) -> (r: Option<(Fields, usize)>)
    requires
        i <= s@.len(),
    ensures
        (match r {
            Some(p) => spec_body_member(s@, i as int, fields_model(f)) == Some(
                (fields_model(p.0), p.1 as int),
            ) && p.1 <= s@.len(),
            None => spec_body_member(s@, i as int, fields_model(f)) is None,
        }),
{
    let len = s.unicode_len();
    let key = match parse_string_at(s, i) {
        Some((key, j)) => (key, j),
        None => {
            return None;
        },
    };
    let j = key.1;
    let key = key.0;
    let k = skip_ws(s, j);
    if !(k < len) || char_differs(s.get_char(k), ':') {
        return None;
    }
    let m = skip_ws(s, k + 1);
    if str_content_eq(key.as_str(), "type") {
        if f.tag.is_some() {
            return None;
        }
        match parse_string_at(s, m) {
            Some((v, e)) => Some((Fields { tag: Some(v), ..f }, e)),
            None => None,
        }
    } else if str_content_eq(key.as_str(), "msg_id") {
        if f.msg_id.is_some() {
            return None;
        }
        match parse_u64_at(s, m) {
            Some((v, e)) => Some((Fields { msg_id: Some(v), ..f }, e)),
            None => None,
        }
    } else if str_content_eq(key.as_str(), "in_reply_to") {
        if f.in_reply_to.is_some() {
            return None;
        }
        match parse_u64_at(s, m) {
            Some((v, e)) => Some((Fields { in_reply_to: Some(v), ..f }, e)),
            None => None,
        }
    } else if str_content_eq(key.as_str(), "code") {
        if f.code.is_some() {
            return None;
        }
        match parse_u64_at(s, m) {
            Some((v, e)) => Some((Fields { code: Some(v), ..f }, e)),
            None => None,
        }
    } else if str_content_eq(key.as_str(), "message") {
        if f.message.is_some() {
            return None;
        }
        match parse_u64_at(s, m) {
            Some((v, e)) => Some((Fields { message: Some(v), ..f }, e)),
            None => None,
        }
    } else if str_content_eq(key.as_str(), "node_id") {
        if f.node_id.is_some() {
            return None;
        }
        match parse_string_at(s, m) {
            Some((v, e)) => Some((Fields { node_id: Some(v), ..f }, e)),
            None => None,
        }
    } else if str_content_eq(key.as_str(), "text") {
        if f.text.is_some() {
            return None;
        }
        match parse_string_at(s, m) {
            Some((v, e)) => Some((Fields { text: Some(v), ..f }, e)),
            None => None,
        }
    } else if str_content_eq(key.as_str(), "node_ids") {
        if f.node_ids.is_some() {
            return None;
        }
        match parse_strs_at(s, m) {
            Some((v, e)) => Some((Fields { node_ids: Some(v), ..f }, e)),
            None => None,
        }
    } else if str_content_eq(key.as_str(), "messages") {
        if f.messages.is_some() {
            return None;
        }
        match parse_nums_at(s, m) {
            Some((v, e)) => Some((Fields { messages: Some(v), ..f }, e)),
            None => None,
        }
    } else if str_content_eq(key.as_str(), "topology") {
        if f.topology.is_some() {
            return None;
        }
        match parse_topology_at(s, m) {
            Some((v, e)) => Some((Fields { topology: Some(v), ..f }, e)),
            None => None,
        }
    } else {
        None
    }
}

/// The body the collected members denote, as `spec_assemble_body`
/// assembles it.
fn assemble_body(f: Fields) -> (r: Option<Body>)
    ensures
        (match r {
            Some(b) => spec_assemble_body(fields_model(f)) == Some(body_model(b)),
            None => spec_assemble_body(fields_model(f)) is None,
        }),
{
    let Fields { tag, msg_id, in_reply_to, code, message, node_id, text, node_ids, messages,
        topology } = f;
    let tag = match tag {
        Some(tag) => tag,
        None => {
            return None;
        },
    };
    if str_content_eq(tag.as_str(), "error") {
        match (in_reply_to, code, text) {
            (Some(in_reply_to), Some(code), Some(text)) => Some(
                Body::Error { in_reply_to, code, text },
            ),
            _ => None,
        }
    } else if str_content_eq(tag.as_str(), "init") {
        match (msg_id, node_id, node_ids) {
            (Some(msg_id), Some(node_id), Some(node_ids)) => Some(
                Body::Init { msg_id, node_id, node_ids },
            ),
            _ => None,
        }
    } else if str_content_eq(tag.as_str(), "init_ok") {
        match in_reply_to {
            Some(in_reply_to) => Some(Body::InitOk { in_reply_to }),
            _ => None,
        }
    } else if str_content_eq(tag.as_str(), "broadcast") {
        match (msg_id, message) {
            (Some(msg_id), Some(message)) => Some(Body::Broadcast { msg_id, message }),
            _ => None,
        }
    } else if str_content_eq(tag.as_str(), "broadcast_ok") {
        match (msg_id, in_reply_to) {
            (Some(msg_id), Some(in_reply_to)) => Some(Body::BroadcastOk { msg_id, in_reply_to }),
            _ => None,
        }
    } else if str_content_eq(tag.as_str(), "read") {
        match msg_id {
            Some(msg_id) => Some(Body::Read { msg_id }),
            _ => None,
        }
    } else if str_content_eq(tag.as_str(), "read_ok") {
        match (msg_id, in_reply_to, messages) {
            (Some(msg_id), Some(in_reply_to), Some(messages)) => Some(
                Body::ReadOk { msg_id, in_reply_to, messages },
            ),
            _ => None,
        }
    } else if str_content_eq(tag.as_str(), "topology") {
        match (msg_id, topology) {
            (Some(msg_id), Some(topology)) => Some(Body::Topology { msg_id, topology }),
            _ => None,
        }
    } else if str_content_eq(tag.as_str(), "topology_ok") {
        match (msg_id, in_reply_to) {
            (Some(msg_id), Some(in_reply_to)) => Some(Body::TopologyOk { msg_id, in_reply_to }),
            _ => None,
        }
    } else if str_content_eq(tag.as_str(), "gossip") {
        match messages {
            Some(messages) => Some(Body::Gossip { messages }),
            _ => None,
        }
    } else if str_content_eq(tag.as_str(), "gossip_ok") {
        match messages {
            Some(messages) => Some(Body::GossipOk { messages }),
            _ => None,
        }
    } else {
        None
    }
}

/// A body object starting at `i`, as `spec_parse_body` reads it.
fn parse_body_at(s: &str, i: usize) -> (r: Option<(Body, usize)>)
    requires
        i <= s@.len(),
    ensures
        (match r {
            Some((b, j)) => spec_parse_body(s@, i as int) == Some((body_model(b), j as int)) && j
                <= s@.len(),
            None => spec_parse_body(s@, i as int) is None,
        }),
{
    let len = s.unicode_len();
    if !(i < len) || char_differs(s.get_char(i), '{') {
        return None;
    }
    let j = skip_ws(s, i + 1);
    let mut f = Fields {
        tag: None,
        msg_id: None,
        in_reply_to: None,
        code: None,
        message: None,
        node_id: None,
        text: None,
        node_ids: None,
        messages: None,
        topology: None,
    };
    proof {
        assert(fields_model(f) == empty_fields());
    }
    let mut cur: usize;
    if j < len && !char_differs(s.get_char(j), '}') {
        match assemble_body(f) {
            Some(b) => {
                return Some((b, j + 1));
            },
            None => {
                return None;
            },
        }
    }
    match parse_body_member_at(s, j, f) {
        Some((f2, m)) => {
            f = f2;
            cur = m;
        },
        None => {
            return None;
        },
    }
    let mut fuel = len;
    loop
        invariant
            cur <= len,
            len == s@.len(),
            fuel <= len,
            spec_body_rest(s@, cur as int, fields_model(f), fuel as nat) == spec_body_fields(
                s@,
                i as int,
            ),
        decreases fuel,
    {
        let j2 = skip_ws(s, cur);
        if !(j2 < len) {
            return None;
        }
        let c = s.get_char(j2);
        if c == '}' {
            match assemble_body(f) {
                Some(b) => {
                    return Some((b, j2 + 1));
                },
                None => {
                    return None;
                },
            }
        } else if c == ',' && fuel > 0 {
            let k = skip_ws(s, j2 + 1);
            match parse_body_member_at(s, k, f) {
                Some((f2, m)) => {
                    f = f2;
                    cur = m;
                    fuel = fuel - 1;
                },
                None => {
                    return None;
                },
            }
        } else {
            return None;
        }
    }
}

/// The envelope members collected so far by the executable parser.
struct EnvFields {
    src: Option<String>,
    dest: Option<String>,
    body: Option<Body>,
}

/// The denotation of the collected envelope members.
spec fn env_fields_model(f: EnvFields) -> EnvFieldsModel {
    EnvFieldsModel {
        src: match f.src {
            Some(v) => Some(v@),
            None => None,
        },
        dest: match f.dest {
            Some(v) => Some(v@),
            None => None,
        },
        body: match f.body {
            Some(b) => Some(body_model(b)),
            None => None,
        },
    }
}

/// One envelope member at `i`, as `spec_env_member` reads it.
fn parse_env_member_at(s: &str, i: usize, f: EnvFields) -> (r: Option<(EnvFields, usize)>)
    requires
        i <= s@.len(),
    ensures
        (match r {
            Some(p) => spec_env_member(s@, i as int, env_fields_model(f)) == Some(
                (env_fields_model(p.0), p.1 as int),
            ) && p.1 <= s@.len(),
            None => spec_env_member(s@, i as int, env_fields_model(f)) is None,
        }),
{
    let len = s.unicode_len();
    let key = match parse_string_at(s, i) {
        Some((key, j)) => (key, j),
        None => {
            return None;
        },
    };
    let j = key.1;
    let key = key.0;
    let k = skip_ws(s, j);
    if !(k < len) || char_differs(s.get_char(k), ':') {
        return None;
    }
    let m = skip_ws(s, k + 1);
    if str_content_eq(key.as_str(), "src") {
        if f.src.is_some() {
            return None;
        }
        match parse_string_at(s, m) {
            Some((v, e)) => Some((EnvFields { src: Some(v), ..f }, e)),
            None => None,
        }
    } else if str_content_eq(key.as_str(), "dest") {
        if f.dest.is_some() {
            return None;
        }
        match parse_string_at(s, m) {
            Some((v, e)) => Some((EnvFields { dest: Some(v), ..f }, e)),
            None => None,
        }
    } else if str_content_eq(key.as_str(), "body") {
        if f.body.is_some() {
            return None;
        }
        match parse_body_at(s, m) {
            Some((v, e)) => Some((EnvFields { body: Some(v), ..f }, e)),
            None => None,
        }
    } else {
        None
    }
}

impl crate::codec::Connection {
    /// Decodes one line of the bus. A line outside the envelope grammar
    /// denotes nothing, and the reading duty skips it and goes on.
    pub fn read_one(line: &str) -> (r: Option<Message>)
        ensures
            (match r {
                Some(m) => spec_parse_envelope(line@) == Some(message_model(m)),
                None => spec_parse_envelope(line@) is None,
            }),
    {
        let s = line;
        let len = s.unicode_len();
        let i = skip_ws(s, 0);
        if !(i < len) || char_differs(s.get_char(i), '{') {
            return None;
        }
        let j = skip_ws(s, i + 1);
        let mut f = EnvFields { src: None, dest: None, body: None };
        proof {
            assert(env_fields_model(f) == empty_env_fields());
        }
        let mut cur: usize;
        if j < len && !char_differs(s.get_char(j), '}') {
            proof {
                assert(spec_env_collect(s@) == Some((empty_env_fields(), j + 1 as int)));
            }
            return finish_envelope(s, f, j + 1);
        }
        match parse_env_member_at(s, j, f) {
            Some((f2, m)) => {
                f = f2;
                cur = m;
            },
            None => {
                return None;
            },
        }
        let mut fuel = len;
        loop
            invariant
                s@ == line@,
                cur <= len,
                len == s@.len(),
                fuel <= len,
                spec_env_rest(s@, cur as int, env_fields_model(f), fuel as nat)
                    == spec_env_collect(s@),
            decreases fuel,
        {
            let j2 = skip_ws(s, cur);
            if !(j2 < len) {
                return None;
            }
            let c = s.get_char(j2);
            if c == '}' {
                proof {
                    assert(spec_env_collect(s@) == Some((env_fields_model(f), j2 + 1 as int)));
                }
                return finish_envelope(s, f, j2 + 1);
            } else if c == ',' && fuel > 0 {
                let k = skip_ws(s, j2 + 1);
                match parse_env_member_at(s, k, f) {
                    Some((f2, m)) => {
                        f = f2;
                        cur = m;
                        fuel = fuel - 1;
                    },
                    None => {
                        return None;
                    },
                }
            } else {
                return None;
            }
        }
    }
}

/// The tail of an envelope parse: nothing but whitespace may follow the
/// object, and the three members must all have appeared.
fn finish_envelope(s: &str, f: EnvFields, done: usize) -> (r: Option<Message>)
    requires
        done <= s@.len(),
        spec_env_collect(s@) == Some((env_fields_model(f), done as int)),
    ensures
        (match r {
            Some(m) => spec_parse_envelope(s@) == Some(message_model(m)),
            None => spec_parse_envelope(s@) is None,
        }),
{
    let len = s.unicode_len();
    if skip_ws(s, done) != len {
        return None;
    }
    match (f.src, f.dest, f.body) {
        (Some(src), Some(dest), Some(body)) => Some(Message { src, dest, body }),
        _ => None,
    }
}

impl Message {
    /// Decodes an owned line, as `read_one` does.
    pub fn parse_message(message: String) -> (r: Option<Message>)
        ensures
            (match r {
                Some(m) => spec_parse_envelope(message@) == Some(message_model(m)),
                None => spec_parse_envelope(message@) is None,
            }),
    {
        crate::codec::Connection::read_one(message.as_str())
    }
}

} // verus!
