//! The encoder: serializes an envelope to its canonical JSON field layout,
//! followed by a single newline. The exact output is pinned down, character
//! by character, by the `enc_*` spec functions.

use vstd::prelude::*;
use vstd::string::*;

use crate::msg::{Body, Message, Payload};

verus! {

/// The character standing for a value below sixteen, lower case.
pub open spec fn digit_char(d: int) -> char {
    if d == 0 {
        '0'
    } else if d == 1 {
        '1'
    } else if d == 2 {
        '2'
    } else if d == 3 {
        '3'
    } else if d == 4 {
        '4'
    } else if d == 5 {
        '5'
    } else if d == 6 {
        '6'
    } else if d == 7 {
        '7'
    } else if d == 8 {
        '8'
    } else if d == 9 {
        '9'
    } else if d == 10 {
        'a'
    } else if d == 11 {
        'b'
    } else if d == 12 {
        'c'
    } else if d == 13 {
        'd'
    } else if d == 14 {
        'e'
    } else {
        'f'
    }
}

/// The decimal digits of `n`, most significant first.
pub open spec fn dec_nat(n: nat) -> Seq<char>
    decreases n,
{
    if n < 10 {
        seq![digit_char(n as int)]
    } else {
        dec_nat(n / 10).push(digit_char((n % 10) as int))
    }
}

/// The decimal form of a signed value: a leading minus sign when negative.
pub open spec fn dec_int(v: int) -> Seq<char> {
    if v < 0 {
        seq!['-'] + dec_nat((-v) as nat)
    } else {
        dec_nat(v as nat)
    }
}

/// How one character is written inside a JSON string: quote and backslash
/// get a backslash escape, the named control characters their short forms,
/// any other control character a `\u00..` escape, and everything else
/// stands as itself.
pub open spec fn esc_char(c: char) -> Seq<char> {
    if c == '"' {
        seq!['\\', '"']
    } else if c == '\\' {
        seq!['\\', '\\']
    } else if c == '\u{0008}' {
        seq!['\\', 'b']
    } else if c == '\u{000c}' {
        seq!['\\', 'f']
    } else if c == '\n' {
        seq!['\\', 'n']
    } else if c == '\r' {
        seq!['\\', 'r']
    } else if c == '\t' {
        seq!['\\', 't']
    } else if (c as u32) < 0x20 {
        seq!['\\', 'u', '0', '0', digit_char((c as u32) as int / 16), digit_char((c as u32) as int % 16)]
    } else {
        seq![c]
    }
}

/// A whole character sequence, escaped.
pub open spec fn escaped(s: Seq<char>) -> Seq<char>
    decreases s.len(),
{
    if s.len() == 0 {
        Seq::empty()
    } else {
        escaped(s.drop_last()) + esc_char(s.last())
    }
}

/// A JSON string: the escaped text between double quotes.
pub open spec fn json_str(s: Seq<char>) -> Seq<char> {
    seq!['"'] + escaped(s) + seq!['"']
}

/// The elements of a JSON array of integers, comma separated.
pub open spec fn enc_i32_items(vs: Seq<i32>) -> Seq<char>
    decreases vs.len(),
{
    if vs.len() == 0 {
        Seq::empty()
    } else if vs.len() == 1 {
        dec_int(vs[0] as int)
    } else {
        enc_i32_items(vs.drop_last()) + ","@ + dec_int(vs.last() as int)
    }
}

/// A JSON array of integers.
pub open spec fn enc_i32_array(vs: Seq<i32>) -> Seq<char> {
    "["@ + enc_i32_items(vs) + "]"@
}

/// The elements of a JSON array of strings, comma separated.
pub open spec fn enc_str_items(ss: Seq<Seq<char>>) -> Seq<char>
    decreases ss.len(),
{
    if ss.len() == 0 {
        Seq::empty()
    } else if ss.len() == 1 {
        json_str(ss[0])
    } else {
        enc_str_items(ss.drop_last()) + ","@ + json_str(ss.last())
    }
}

/// A JSON array of strings.
pub open spec fn enc_str_array(ss: Seq<Seq<char>>) -> Seq<char> {
    "["@ + enc_str_items(ss) + "]"@
}

/// One adjacency entry: a node id mapped to its neighbour list.
pub open spec fn enc_topo_pair(p: (Seq<char>, Seq<Seq<char>>)) -> Seq<char> {
    json_str(p.0) + ":"@ + enc_str_array(p.1)
}

/// The entries of the adjacency object, comma separated.
pub open spec fn enc_topo_items(ps: Seq<(Seq<char>, Seq<Seq<char>>)>) -> Seq<char>
    decreases ps.len(),
{
    if ps.len() == 0 {
        Seq::empty()
    } else if ps.len() == 1 {
        enc_topo_pair(ps[0])
    } else {
        enc_topo_items(ps.drop_last()) + ","@ + enc_topo_pair(ps.last())
    }
}

/// The adjacency mapping as a JSON object.
pub open spec fn enc_topology(ps: Seq<(Seq<char>, Seq<Seq<char>>)>) -> Seq<char> {
    "{"@ + enc_topo_items(ps) + "}"@
}

/// The `type` tag and the variant-specific fields of a payload, as they
/// stand in a body object after the `"type":` key.
pub open spec fn enc_payload(p: Payload) -> Seq<char> {
    match p {
        Payload::Echo { echo } => "\"echo\",\"echo\":"@ + json_str(echo@),
        Payload::EchoOk { echo } => "\"echo_ok\",\"echo\":"@ + json_str(echo@),
        Payload::Init { node_id, node_ids } => "\"init\",\"node_id\":"@ + json_str(node_id@)
            + ",\"node_ids\":"@ + enc_str_array(node_ids.deep_view()),
        Payload::InitOk => "\"init_ok\""@,
        Payload::Generate => "\"generate\""@,
        Payload::GenerateOk { guid } => "\"generate_ok\",\"id\":"@ + json_str(guid@),
        Payload::Broadcast { message } => "\"broadcast\",\"message\":"@ + dec_int(message as int),
        Payload::BroadcastOk => "\"broadcast_ok\""@,
        Payload::Read => "\"read\""@,
        Payload::ReadOk { messages } => "\"read_ok\",\"messages\":"@ + enc_i32_array(messages@),
        Payload::Topology { topology } => "\"topology\",\"topology\":"@ + enc_topology(
            topology.deep_view(),
        ),
        Payload::TopologyOk => "\"topology_ok\""@,
    }
}

/// A body object: the correlation ids that are present, then the payload.
pub open spec fn enc_body(b: Body) -> Seq<char> {
    "{"@ + (match b.msg_id {
        Some(n) => "\"msg_id\":"@ + dec_nat(n as nat) + ","@,
        None => Seq::<char>::empty(),
    }) + (match b.in_reply_to {
        Some(n) => "\"in_reply_to\":"@ + dec_nat(n as nat) + ","@,
        None => Seq::<char>::empty(),
    }) + "\"type\":"@ + enc_payload(b.payload) + "}"@
}

/// A whole envelope as one JSON object.
pub open spec fn enc_message(m: Message) -> Seq<char> {
    "{\"src\":"@ + json_str(m.src@) + ",\"dest\":"@ + json_str(m.dst@) + ",\"body\":"@ + enc_body(
        m.body,
    ) + "}"@
}

/// A wire line: the envelope followed by a single newline terminator.
pub open spec fn enc_line(m: Message) -> Seq<char> {
    enc_message(m) + "\n"@
}

/// Appends the character standing for `d`.
fn append_digit(out: &mut String, d: u8)
    requires
        d < 16,
    ensures
        final(out)@ == old(out)@ + seq![digit_char(d as int)],
{
    match d {
        0 => {
            out.append("0");
            proof {
                reveal_strlit("0");
                assert(final(out)@ =~= old(out)@ + seq![digit_char(d as int)]);
            }
        },
        1 => {
            out.append("1");
            proof {
                reveal_strlit("1");
                assert(final(out)@ =~= old(out)@ + seq![digit_char(d as int)]);
            }
        },
        2 => {
            out.append("2");
            proof {
                reveal_strlit("2");
                assert(final(out)@ =~= old(out)@ + seq![digit_char(d as int)]);
            }
        },
        3 => {
            out.append("3");
            proof {
                reveal_strlit("3");
                assert(final(out)@ =~= old(out)@ + seq![digit_char(d as int)]);
            }
        },
        4 => {
            out.append("4");
            proof {
                reveal_strlit("4");
                assert(final(out)@ =~= old(out)@ + seq![digit_char(d as int)]);
            }
        },
        5 => {
            out.append("5");
            proof {
                reveal_strlit("5");
                assert(final(out)@ =~= old(out)@ + seq![digit_char(d as int)]);
            }
        },
        6 => {
            out.append("6");
            proof {
                reveal_strlit("6");
                assert(final(out)@ =~= old(out)@ + seq![digit_char(d as int)]);
            }
        },
        7 => {
            out.append("7");
            proof {
                reveal_strlit("7");
                assert(final(out)@ =~= old(out)@ + seq![digit_char(d as int)]);
            }
        },
        8 => {
            out.append("8");
            proof {
                reveal_strlit("8");
                assert(final(out)@ =~= old(out)@ + seq![digit_char(d as int)]);
            }
        },
        9 => {
            out.append("9");
            proof {
                reveal_strlit("9");
                assert(final(out)@ =~= old(out)@ + seq![digit_char(d as int)]);
            }
        },
        10 => {
            out.append("a");
            proof {
                reveal_strlit("a");
                assert(final(out)@ =~= old(out)@ + seq![digit_char(d as int)]);
            }
        },
        11 => {
            out.append("b");
            proof {
                reveal_strlit("b");
                assert(final(out)@ =~= old(out)@ + seq![digit_char(d as int)]);
            }
        },
        12 => {
            out.append("c");
            proof {
                reveal_strlit("c");
                assert(final(out)@ =~= old(out)@ + seq![digit_char(d as int)]);
            }
        },
        13 => {
            out.append("d");
            proof {
                reveal_strlit("d");
                assert(final(out)@ =~= old(out)@ + seq![digit_char(d as int)]);
            }
        },
        14 => {
            out.append("e");
            proof {
                reveal_strlit("e");
                assert(final(out)@ =~= old(out)@ + seq![digit_char(d as int)]);
            }
        },
        _ => {
            out.append("f");
            proof {
                reveal_strlit("f");
                assert(final(out)@ =~= old(out)@ + seq![digit_char(d as int)]);
            }
        },
    }
}

/// Appends the decimal digits of `v`.
fn append_dec_u64(out: &mut String, v: u64)
    ensures
        final(out)@ == old(out)@ + dec_nat(v as nat),
    decreases v,
{
    if v < 10 {
        append_digit(out, v as u8);
    } else {
        append_dec_u64(out, v / 10);
        append_digit(out, (v % 10) as u8);
        proof {
            assert(final(out)@ =~= old(out)@ + dec_nat(v as nat));
        }
    }
}

/// Appends the decimal digits of a message id.
fn append_dec_usize(out: &mut String, v: usize)
    ensures
        final(out)@ == old(out)@ + dec_nat(v as nat),
{
    append_dec_u64(out, v as u64);
}

/// Appends the decimal form of a broadcast value.
fn append_dec_i32(out: &mut String, v: i32)
    ensures
        final(out)@ == old(out)@ + dec_int(v as int),
{
    if v < 0 {
        out.append("-");
        proof {
            reveal_strlit("-");
            assert("-"@ =~= seq!['-']);
        }
        let m = -(v as i64);
        append_dec_u64(out, m as u64);
        proof {
            assert(final(out)@ =~= old(out)@ + dec_int(v as int));
        }
    } else {
        append_dec_u64(out, v as u64);
    }
}

/// Appends `s` as a JSON string: quoted and escaped.
fn append_json_string(out: &mut String, s: &str)
    ensures
        final(out)@ == old(out)@ + json_str(s@),
{
    out.append("\"");
    proof {
        reveal_strlit("\"");
        assert("\""@ =~= seq!['"']);
    }
    let n = s.unicode_len();
    let mut i: usize = 0;
    while i < n
        invariant
            i <= n,
            n == s@.len(),
            out@ == old(out)@ + seq!['"'] + escaped(s@.take(i as int)),
        decreases n - i,
    {
        let c = s.get_char(i);
        if c == '"' {
            out.append("\\\"");
            proof {
                reveal_strlit("\\\"");
                assert("\\\""@ =~= seq!['\\', '"']);
            }
        } else if c == '\\' {
            out.append("\\\\");
            proof {
                reveal_strlit("\\\\");
                assert("\\\\"@ =~= seq!['\\', '\\']);
            }
        } else if c == '\u{0008}' {
            out.append("\\b");
            proof {
                reveal_strlit("\\b");
                assert("\\b"@ =~= seq!['\\', 'b']);
            }
        } else if c == '\u{000c}' {
            out.append("\\f");
            proof {
                reveal_strlit("\\f");
                assert("\\f"@ =~= seq!['\\', 'f']);
            }
        } else if c == '\n' {
            out.append("\\n");
            proof {
                reveal_strlit("\\n");
                assert("\\n"@ =~= seq!['\\', 'n']);
            }
        } else if c == '\r' {
            out.append("\\r");
            proof {
                reveal_strlit("\\r");
                assert("\\r"@ =~= seq!['\\', 'r']);
            }
        } else if c == '\t' {
            out.append("\\t");
            proof {
                reveal_strlit("\\t");
                assert("\\t"@ =~= seq!['\\', 't']);
            }
        } else if (c as u32) < 0x20 {
            out.append("\\u00");
            proof {
                reveal_strlit("\\u00");
                assert("\\u00"@ =~= seq!['\\', 'u', '0', '0']);
            }
            let cv = c as u32;
            append_digit(out, (cv / 16) as u8);
            append_digit(out, (cv % 16) as u8);
        } else {
            let piece = s.substring_char(i, i + 1);
            out.append(piece);
            proof {
                assert(piece@ =~= seq![s@[i as int]]);
            }
        }
        proof {
            assert(s@.take(i as int + 1).drop_last() =~= s@.take(i as int));
            assert(s@.take(i as int + 1).last() == s@[i as int]);
            assert(out@ =~= old(out)@ + seq!['"'] + escaped(s@.take(i as int + 1)));
        }
        i += 1;
    }
    proof {
        assert(s@.take(n as int) =~= s@);
    }
    out.append("\"");
    proof {
        assert(final(out)@ =~= old(out)@ + json_str(s@));
    }
}

/// Appends a JSON array holding the values of `vs` in order.
fn append_i32_array(out: &mut String, vs: &Vec<i32>)
    ensures
        final(out)@ == old(out)@ + enc_i32_array(vs@),
{
    out.append("[");
    let n = vs.len();
    let mut i: usize = 0;
    while i < n
        invariant
            i <= n,
            n == vs@.len(),
            out@ == old(out)@ + "["@ + enc_i32_items(vs@.take(i as int)),
        decreases n - i,
    {
        if i > 0 {
            out.append(",");
        }
        append_dec_i32(out, vs[i]);
        proof {
            assert(vs@.take(i as int + 1).drop_last() =~= vs@.take(i as int));
            assert(out@ =~= old(out)@ + "["@ + enc_i32_items(vs@.take(i as int + 1)));
        }
        i += 1;
    }
    out.append("]");
    proof {
        assert(vs@.take(n as int) =~= vs@);
        assert(final(out)@ =~= old(out)@ + enc_i32_array(vs@));
    }
}

/// Appends a JSON array holding the strings of `vs` in order.
fn append_str_array(out: &mut String, vs: &Vec<String>)
    ensures
        final(out)@ == old(out)@ + enc_str_array(vs.deep_view()),
{
    out.append("[");
    let n = vs.len();
    let mut i: usize = 0;
    while i < n
        invariant
            i <= n,
            n == vs@.len(),
            out@ == old(out)@ + "["@ + enc_str_items(vs.deep_view().take(i as int)),
        decreases n - i,
    {
        if i > 0 {
            out.append(",");
        }
        append_json_string(out, vs[i].as_str());
        proof {
            let dv = vs.deep_view();
            assert(dv[i as int] == vs@[i as int]@);
            assert(dv.take(i as int + 1).drop_last() =~= dv.take(i as int));
            assert(out@ =~= old(out)@ + "["@ + enc_str_items(dv.take(i as int + 1)));
        }
        i += 1;
    }
    out.append("]");
    proof {
        assert(vs.deep_view().take(n as int) =~= vs.deep_view());
        assert(final(out)@ =~= old(out)@ + enc_str_array(vs.deep_view()));
    }
}

/// Appends the adjacency mapping as a JSON object, entries in order.
fn append_topology(out: &mut String, t: &Vec<(String, Vec<String>)>)
    ensures
        final(out)@ == old(out)@ + enc_topology(t.deep_view()),
{
    out.append("{");
    let n = t.len();
    let mut i: usize = 0;
    while i < n
        invariant
            i <= n,
            n == t@.len(),
            out@ == old(out)@ + "{"@ + enc_topo_items(t.deep_view().take(i as int)),
        decreases n - i,
    {
        if i > 0 {
            out.append(",");
        }
        let pair = &t[i];
        append_json_string(out, pair.0.as_str());
        out.append(":");
        append_str_array(out, &pair.1);
        proof {
            let dv = t.deep_view();
            assert(dv[i as int] == (t@[i as int].0@, t@[i as int].1.deep_view()));
            assert(dv.take(i as int + 1).drop_last() =~= dv.take(i as int));
            assert(out@ =~= old(out)@ + "{"@ + enc_topo_items(dv.take(i as int + 1)));
        }
        i += 1;
    }
    out.append("}");
    proof {
        assert(t.deep_view().take(n as int) =~= t.deep_view());
        assert(final(out)@ =~= old(out)@ + enc_topology(t.deep_view()));
    }
}

/// Appends the `type` tag and the variant-specific fields of `p`.
fn append_payload(out: &mut String, p: &Payload)
    ensures
        final(out)@ == old(out)@ + enc_payload(*p),
{
    match p {
        Payload::Echo { echo } => {
            out.append("\"echo\",\"echo\":");
            append_json_string(out, echo.as_str());
            proof {
                assert(final(out)@ =~= old(out)@ + enc_payload(*p));
            }
        },
        Payload::EchoOk { echo } => {
            out.append("\"echo_ok\",\"echo\":");
            append_json_string(out, echo.as_str());
            proof {
                assert(final(out)@ =~= old(out)@ + enc_payload(*p));
            }
        },
        Payload::Init { node_id, node_ids } => {
            out.append("\"init\",\"node_id\":");
            append_json_string(out, node_id.as_str());
            out.append(",\"node_ids\":");
            append_str_array(out, node_ids);
            proof {
                assert(final(out)@ =~= old(out)@ + enc_payload(*p));
            }
        },
        Payload::InitOk => {
            out.append("\"init_ok\"");
        },
        Payload::Generate => {
            out.append("\"generate\"");
        },
        Payload::GenerateOk { guid } => {
            out.append("\"generate_ok\",\"id\":");
            append_json_string(out, guid.as_str());
            proof {
                assert(final(out)@ =~= old(out)@ + enc_payload(*p));
            }
        },
        Payload::Broadcast { message } => {
            out.append("\"broadcast\",\"message\":");
            append_dec_i32(out, *message);
            proof {
                assert(final(out)@ =~= old(out)@ + enc_payload(*p));
            }
        },
        Payload::BroadcastOk => {
            out.append("\"broadcast_ok\"");
        },
        Payload::Read => {
            out.append("\"read\"");
        },
        Payload::ReadOk { messages } => {
            out.append("\"read_ok\",\"messages\":");
            append_i32_array(out, messages);
            proof {
                assert(final(out)@ =~= old(out)@ + enc_payload(*p));
            }
        },
        Payload::Topology { topology } => {
            out.append("\"topology\",\"topology\":");
            append_topology(out, topology);
            proof {
                assert(final(out)@ =~= old(out)@ + enc_payload(*p));
            }
        },
        Payload::TopologyOk => {
            out.append("\"topology_ok\"");
        },
    }
}

/// Appends the body object of `b`.
fn append_body(out: &mut String, b: &Body)
    ensures
        final(out)@ == old(out)@ + enc_body(*b),
{
    out.append("{");
    if let Some(n) = b.msg_id {
        out.append("\"msg_id\":");
        append_dec_usize(out, n);
        out.append(",");
    }
    if let Some(n) = b.in_reply_to {
        out.append("\"in_reply_to\":");
        append_dec_usize(out, n);
        out.append(",");
    }
    out.append("\"type\":");
    append_payload(out, &b.payload);
    out.append("}");
    proof {
        assert(final(out)@ =~= old(out)@ + enc_body(*b));
    }
}

/// Serializes a whole envelope to its canonical JSON object.
pub fn encode_message(m: &Message) -> (r: String)
    ensures
        r@ == enc_message(*m),
{
    let mut out = String::new();
    out.append("{\"src\":");
    append_json_string(&mut out, m.src.as_str());
    out.append(",\"dest\":");
    append_json_string(&mut out, m.dst.as_str());
    out.append(",\"body\":");
    append_body(&mut out, &m.body);
    out.append("}");
    proof {
        assert(out@ =~= enc_message(*m));
    }
    out
}

/// Serializes a whole envelope and terminates it with a single newline, as
/// it is written to the output stream.
pub fn encode_line(m: &Message) -> (r: String)
    ensures
        r@ == enc_line(*m),
{
    let mut out = encode_message(m);
    out.append("\n");
    proof {
        assert(out@ =~= enc_line(*m));
    }
    out
}

} // verus!
