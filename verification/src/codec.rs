//! Encoding envelopes into their wire form: one JSON object per line.
//! The spec functions below define the exact character sequence of an
//! encoded envelope, and `format_message` is proved to produce it.

use vstd::prelude::*;
use vstd::string::{StrSliceExecFns, StringExecFns};
use crate::message::{Body, Message};
use crate::storage::lemma_take_step;

verus! {

/// The wire form of one character inside a JSON string.
pub open spec fn escaped_char(c: char) -> Seq<char> {
    if c == '"' {
        seq!['\\', '"']
    } else if c == '\\' {
        seq!['\\', '\\']
    } else if c == '\n' {
        seq!['\\', 'n']
    } else if c == '\r' {
        seq!['\\', 'r']
    } else if c == '\t' {
        seq!['\\', 't']
    } else {
        seq![c]
    }
}

/// The wire form of the contents of a JSON string.
pub open spec fn escape_chars(s: Seq<char>) -> Seq<char>
    decreases s.len(),
{
    if s.len() == 0 {
        Seq::empty()
    } else {
        escape_chars(s.drop_last()) + escaped_char(s.last())
    }
}

/// A JSON string: the escaped contents between double quotes.
pub open spec fn json_string_chars(s: Seq<char>) -> Seq<char> {
    seq!['"'] + escape_chars(s) + seq!['"']
}

/// The character of one decimal digit.
pub open spec fn dec_digit(d: u64) -> char {
    if d == 0 {
        '0'
    } else if d == 1 {
        '1'
    } else if d == 2 {
        '2'
    } else if d == 3 {
        '3'
    } else if d == 4 {
        '4'
    } else if d == 5 {
        '5'
    } else if d == 6 {
        '6'
    } else if d == 7 {
        '7'
    } else if d == 8 {
        '8'
    } else {
        '9'
    }
}

/// The decimal notation of a value, most significant digit first.
pub open spec fn u64_chars(n: u64) -> Seq<char>
    decreases n,
{
    if n < 10 {
        seq![dec_digit(n)]
    } else {
        u64_chars(n / 10).push(dec_digit(n % 10))
    }
}

/// The comma-separated items of a JSON array of values.
pub open spec fn u64_list_items(vals: Seq<u64>) -> Seq<char>
    decreases vals.len(),
{
    if vals.len() == 0 {
        Seq::empty()
    } else if vals.len() == 1 {
        u64_chars(vals[0])
    } else {
        u64_list_items(vals.drop_last()) + seq![','] + u64_chars(vals.last())
    }
}

/// A JSON array of values.
pub open spec fn u64_list_chars(vals: Seq<u64>) -> Seq<char> {
    seq!['['] + u64_list_items(vals) + seq![']']
}

/// The comma-separated items of a JSON array of node ids.
pub open spec fn id_list_items(ids: Seq<String>) -> Seq<char>
    decreases ids.len(),
{
    if ids.len() == 0 {
        Seq::empty()
    } else if ids.len() == 1 {
        json_string_chars(ids[0]@)
    } else {
        id_list_items(ids.drop_last()) + seq![','] + json_string_chars(ids.last()@)
    }
}

/// A JSON array of node ids.
pub open spec fn id_list_chars(ids: Seq<String>) -> Seq<char> {
    seq!['['] + id_list_items(ids) + seq![']']
}

/// One `"node":[ids]` member of a topology object.
pub open spec fn topology_entry_chars(key: Seq<char>, ids: Seq<String>) -> Seq<char> {
    json_string_chars(key) + seq![':'] + id_list_chars(ids)
}

/// The comma-separated members of a topology object.
pub open spec fn topology_items(entries: Seq<(String, Vec<String>)>) -> Seq<char>
    decreases entries.len(),
{
    if entries.len() == 0 {
        Seq::empty()
    } else if entries.len() == 1 {
        topology_entry_chars(entries[0].0@, entries[0].1@)
    } else {
        topology_items(entries.drop_last()) + seq![','] + topology_entry_chars(
            entries.last().0@,
            entries.last().1@,
        )
    }
}

/// A topology as a JSON object from node id to neighbour list.
pub open spec fn topology_chars(entries: Seq<(String, Vec<String>)>) -> Seq<char> {
    seq!['{'] + topology_items(entries) + seq!['}']
}

/// The wire form of an envelope body, tagged by its `type` member.
pub open spec fn body_chars(b: Body) -> Seq<char> {
    match b {
        Body::Error { in_reply_to, code, text } => "{\"type\":\"error\",\"in_reply_to\":"@
            + u64_chars(in_reply_to) + ",\"code\":"@ + u64_chars(code) + ",\"text\":"@
            + json_string_chars(text@) + "}"@,
        Body::Init { msg_id, node_id, node_ids } => "{\"type\":\"init\",\"msg_id\":"@
            + u64_chars(msg_id) + ",\"node_id\":"@ + json_string_chars(node_id@)
            + ",\"node_ids\":"@ + id_list_chars(node_ids@) + "}"@,
        Body::InitOk { in_reply_to } => "{\"type\":\"init_ok\",\"in_reply_to\":"@
            + u64_chars(in_reply_to) + "}"@,
        Body::Broadcast { msg_id, message } => "{\"type\":\"broadcast\",\"msg_id\":"@
            + u64_chars(msg_id) + ",\"message\":"@ + u64_chars(message) + "}"@,
        Body::BroadcastOk { msg_id, in_reply_to } => "{\"type\":\"broadcast_ok\",\"msg_id\":"@
            + u64_chars(msg_id) + ",\"in_reply_to\":"@ + u64_chars(in_reply_to) + "}"@,
        Body::Read { msg_id } => "{\"type\":\"read\",\"msg_id\":"@ + u64_chars(msg_id) + "}"@,
        Body::ReadOk { msg_id, in_reply_to, messages } => "{\"type\":\"read_ok\",\"msg_id\":"@
            + u64_chars(msg_id) + ",\"in_reply_to\":"@ + u64_chars(in_reply_to) + ",\"messages\":"@
            + u64_list_chars(messages@) + "}"@,
        Body::Topology { msg_id, topology } => "{\"type\":\"topology\",\"msg_id\":"@
            + u64_chars(msg_id) + ",\"topology\":"@ + topology_chars(topology@) + "}"@,
        Body::TopologyOk { msg_id, in_reply_to } => "{\"type\":\"topology_ok\",\"msg_id\":"@
            + u64_chars(msg_id) + ",\"in_reply_to\":"@ + u64_chars(in_reply_to) + "}"@,
        Body::Gossip { messages } => "{\"type\":\"gossip\",\"messages\":"@
            + u64_list_chars(messages@) + "}"@,
        Body::GossipOk { messages } => "{\"type\":\"gossip_ok\",\"messages\":"@
            + u64_list_chars(messages@) + "}"@,
    }
}

/// The wire form of a whole envelope: one line of the bus.
pub open spec fn message_chars(m: Message) -> Seq<char> {
    "{\"src\":"@ + json_string_chars(m.src@) + ",\"dest\":"@ + json_string_chars(m.dest@)
        + ",\"body\":"@ + body_chars(m.body) + "}"@
}

/// Relies on std's `String::push`: it appends exactly the given
/// character to the end of the string.
#[verifier::external_body]
pub(crate) fn push_char(out: &mut String, c: char)
    ensures
        final(out)@ == old(out)@.push(c),
{
    out.push(c);
}

/// Appends the escaped contents of a JSON string.
fn append_escaped(out: &mut String, s: &str)
    ensures
        final(out)@ == old(out)@ + escape_chars(s@),
{
    let len = s.unicode_len();
    let mut i: usize = 0;
    while i < len
        invariant
            0 <= i <= len,
            len == s@.len(),
            out@ == old(out)@ + escape_chars(s@.take(i as int)),
        decreases len - i,
    {
        let c = s.get_char(i);
        proof {
            lemma_take_step(s@, i as int);
            assert(s@.take(i + 1 as int).drop_last() =~= s@.take(i as int));
            assert(s@.take(i + 1 as int).last() == c);
        }
        if c == '"' {
            push_char(out, '\\');
            push_char(out, '"');
        } else if c == '\\' {
            push_char(out, '\\');
            push_char(out, '\\');
        } else if c == '\n' {
            push_char(out, '\\');
            push_char(out, 'n');
        } else if c == '\r' {
            push_char(out, '\\');
            push_char(out, 'r');
        } else if c == '\t' {
            push_char(out, '\\');
            push_char(out, 't');
        } else {
            push_char(out, c);
        }
        proof {
            assert(out@ =~= old(out)@ + escape_chars(s@.take(i + 1 as int)));
        }
        i = i + 1;
    }
    proof {
        assert(s@.take(len as int) =~= s@);
    }
}

/// Appends a JSON string.
fn append_json_string(out: &mut String, s: &str)
    ensures
        final(out)@ == old(out)@ + json_string_chars(s@),
{
    push_char(out, '"');
    append_escaped(out, s);
    push_char(out, '"');
    proof {
        assert(out@ =~= old(out)@ + json_string_chars(s@));
    }
}

/// Appends the decimal notation of a value.
fn append_u64(out: &mut String, n: u64)
    ensures
        final(out)@ == old(out)@ + u64_chars(n),
    decreases n,
{
    if n >= 10 {
        append_u64(out, n / 10);
    }
    let d = n % 10;
    let c = if d == 0 {
        '0'
    } else if d == 1 {
        '1'
    } else if d == 2 {
        '2'
    } else if d == 3 {
        '3'
    } else if d == 4 {
        '4'
    } else if d == 5 {
        '5'
    } else if d == 6 {
        '6'
    } else if d == 7 {
        '7'
    } else if d == 8 {
        '8'
    } else {
        '9'
    };
    proof {
        assert(c == dec_digit(d));
    }
    push_char(out, c);
    proof {
        assert(out@ =~= old(out)@ + u64_chars(n));
    }
}

/// Appends a JSON array of values.
fn append_u64_list(out: &mut String, vals: &Vec<u64>)
    ensures
        final(out)@ == old(out)@ + u64_list_chars(vals@),
{
    push_char(out, '[');
    let mut i: usize = 0;
    while i < vals.len()
        invariant
            0 <= i <= vals@.len(),
            out@ == old(out)@ + seq!['['] + u64_list_items(vals@.take(i as int)),
        decreases vals@.len() - i,
    {
        if i > 0 {
            push_char(out, ',');
        }
        append_u64(out, vals[i]);
        proof {
            assert(vals@.take(i + 1 as int).drop_last() =~= vals@.take(i as int));
            assert(vals@.take(i + 1 as int).last() == vals@[i as int]);
            assert(out@ =~= old(out)@ + seq!['['] + u64_list_items(vals@.take(i + 1 as int)));
        }
        i = i + 1;
    }
    push_char(out, ']');
    proof {
        assert(vals@.take(vals@.len() as int) =~= vals@);
        assert(out@ =~= old(out)@ + u64_list_chars(vals@));
    }
}

/// Appends a JSON array of node ids.
fn append_id_list(out: &mut String, ids: &Vec<String>)
    ensures
        final(out)@ == old(out)@ + id_list_chars(ids@),
{
    push_char(out, '[');
    let mut i: usize = 0;
    while i < ids.len()
        invariant
            0 <= i <= ids@.len(),
            out@ == old(out)@ + seq!['['] + id_list_items(ids@.take(i as int)),
        decreases ids@.len() - i,
    {
        if i > 0 {
            push_char(out, ',');
        }
        append_json_string(out, ids[i].as_str());
        proof {
            assert(ids@.take(i + 1 as int).drop_last() =~= ids@.take(i as int));
            assert(ids@.take(i + 1 as int).last() == ids@[i as int]);
            assert(out@ =~= old(out)@ + seq!['['] + id_list_items(ids@.take(i + 1 as int)));
        }
        i = i + 1;
    }
    push_char(out, ']');
    proof {
        assert(ids@.take(ids@.len() as int) =~= ids@);
        assert(out@ =~= old(out)@ + id_list_chars(ids@));
    }
}

/// Appends a topology object.
fn append_topology(out: &mut String, entries: &Vec<(String, Vec<String>)>)
    ensures
        final(out)@ == old(out)@ + topology_chars(entries@),
{
    push_char(out, '{');
    let mut i: usize = 0;
    while i < entries.len()
        invariant
            0 <= i <= entries@.len(),
            out@ == old(out)@ + seq!['{'] + topology_items(entries@.take(i as int)),
        decreases entries@.len() - i,
    {
        if i > 0 {
            push_char(out, ',');
        }
        append_json_string(out, entries[i].0.as_str());
        push_char(out, ':');
        append_id_list(out, &entries[i].1);
        proof {
            assert(entries@.take(i + 1 as int).drop_last() =~= entries@.take(i as int));
            assert(entries@.take(i + 1 as int).last() == entries@[i as int]);
            assert(out@ =~= old(out)@ + seq!['{'] + topology_items(entries@.take(i + 1 as int)));
        }
        i = i + 1;
    }
    push_char(out, '}');
    proof {
        assert(entries@.take(entries@.len() as int) =~= entries@);
        assert(out@ =~= old(out)@ + topology_chars(entries@));
    }
}

/// Appends the wire form of a body.
fn append_body(out: &mut String, body: &Body)
    ensures
        final(out)@ == old(out)@ + body_chars(*body),
{
    match body {
        Body::Error { in_reply_to, code, text } => {
            out.append("{\"type\":\"error\",\"in_reply_to\":");
            append_u64(out, *in_reply_to);
            out.append(",\"code\":");
            append_u64(out, *code);
            out.append(",\"text\":");
            append_json_string(out, text.as_str());
            out.append("}");
            proof {
                assert(out@ =~= old(out)@ + body_chars(*body));
            }
        },
        Body::Init { msg_id, node_id, node_ids } => {
            out.append("{\"type\":\"init\",\"msg_id\":");
            append_u64(out, *msg_id);
            out.append(",\"node_id\":");
            append_json_string(out, node_id.as_str());
            out.append(",\"node_ids\":");
            append_id_list(out, node_ids);
            out.append("}");
            proof {
                assert(out@ =~= old(out)@ + body_chars(*body));
            }
        },
        Body::InitOk { in_reply_to } => {
            out.append("{\"type\":\"init_ok\",\"in_reply_to\":");
            append_u64(out, *in_reply_to);
            out.append("}");
            proof {
                assert(out@ =~= old(out)@ + body_chars(*body));
            }
        },
        Body::Broadcast { msg_id, message } => {
            out.append("{\"type\":\"broadcast\",\"msg_id\":");
            append_u64(out, *msg_id);
            out.append(",\"message\":");
            append_u64(out, *message);
            out.append("}");
            proof {
                assert(out@ =~= old(out)@ + body_chars(*body));
            }
        },
        Body::BroadcastOk { msg_id, in_reply_to } => {
            out.append("{\"type\":\"broadcast_ok\",\"msg_id\":");
            append_u64(out, *msg_id);
            out.append(",\"in_reply_to\":");
            append_u64(out, *in_reply_to);
            out.append("}");
            proof {
                assert(out@ =~= old(out)@ + body_chars(*body));
            }
        },
        Body::Read { msg_id } => {
            out.append("{\"type\":\"read\",\"msg_id\":");
            append_u64(out, *msg_id);
            out.append("}");
            proof {
                assert(out@ =~= old(out)@ + body_chars(*body));
            }
        },
        Body::ReadOk { msg_id, in_reply_to, messages } => {
            out.append("{\"type\":\"read_ok\",\"msg_id\":");
            append_u64(out, *msg_id);
            out.append(",\"in_reply_to\":");
            append_u64(out, *in_reply_to);
            out.append(",\"messages\":");
            append_u64_list(out, messages);
            out.append("}");
            proof {
                assert(out@ =~= old(out)@ + body_chars(*body));
            }
        },
        Body::Topology { msg_id, topology } => {
            out.append("{\"type\":\"topology\",\"msg_id\":");
            append_u64(out, *msg_id);
            out.append(",\"topology\":");
            append_topology(out, topology);
            out.append("}");
            proof {
                assert(out@ =~= old(out)@ + body_chars(*body));
            }
        },
        Body::TopologyOk { msg_id, in_reply_to } => {
            out.append("{\"type\":\"topology_ok\",\"msg_id\":");
            append_u64(out, *msg_id);
            out.append(",\"in_reply_to\":");
            append_u64(out, *in_reply_to);
            out.append("}");
            proof {
                assert(out@ =~= old(out)@ + body_chars(*body));
            }
        },
        Body::Gossip { messages } => {
            out.append("{\"type\":\"gossip\",\"messages\":");
            append_u64_list(out, messages);
            out.append("}");
            proof {
                assert(out@ =~= old(out)@ + body_chars(*body));
            }
        },
        Body::GossipOk { messages } => {
            out.append("{\"type\":\"gossip_ok\",\"messages\":");
            append_u64_list(out, messages);
            out.append("}");
            proof {
                assert(out@ =~= old(out)@ + body_chars(*body));
            }
        },
    }
}

impl Message {
    /// The one-line wire form of an envelope.
    pub fn format_message(message: Message) -> (r: String)
        ensures
            r@ == message_chars(message),
    {
        let mut out = String::new();
        out.append("{\"src\":");
        append_json_string(&mut out, message.src.as_str());
        out.append(",\"dest\":");
        append_json_string(&mut out, message.dest.as_str());
        out.append(",\"body\":");
        append_body(&mut out, &message.body);
        out.append("}");
        proof {
            assert(out@ =~= message_chars(message));
        }
        out
    }
}

/// The outbound half of the node's bus connection: envelopes written
/// here are framed into lines, which the transport drains in order.
pub struct Connection {
    /// The encoded lines, oldest first.
    pub lines: Vec<String>,
}

impl Connection {
    /// A connection with nothing pending.
    pub fn new() -> (r: Connection)
        ensures
            r.lines@.len() == 0,
    {
        Connection { lines: Vec::new() }
    }

    /// Frames one envelope and queues its line for the transport.
    pub fn write(&mut self, message: Message)
        ensures
            final(self).lines@.len() == old(self).lines@.len() + 1,
            final(self).lines@[old(self).lines@.len() as int]@ == message_chars(message),
            forall|i: int| 0 <= i < old(self).lines@.len()
                ==> final(self).lines@[i] == #[trigger] old(self).lines@[i],
    {
        let line = Message::format_message(message);
        self.lines.push(line);
    }
}

} // verus!
