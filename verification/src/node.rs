//! The node itself: its message-id counter, the locally accumulated set of
//! broadcast values, and the dispatch step that turns one inbound envelope
//! into at most one reply.

use vstd::prelude::*;

use crate::msg::{int_set_of, Body, Message, MessageView, Payload, PayloadView};

verus! {

proof fn lemma_int_set_of_member(s: Seq<i32>, i: int)
    requires
        0 <= i < s.len(),
    ensures
        int_set_of(s).contains(s[i] as int),
{
    let m = s.map_values(|v: i32| v as int);
    assert(m[i] == s[i] as int);
    assert(m.contains(s[i] as int));
}

proof fn lemma_int_set_of_witness(s: Seq<i32>, x: int) -> (i: int)
    requires
        int_set_of(s).contains(x),
    ensures
        0 <= i < s.len() && s[i] as int == x,
{
    let m = s.map_values(|v: i32| v as int);
    let i = choose|i: int| 0 <= i < m.len() && m[i] == x;
    assert(s[i] as int == x);
    i
}

/// The locally accumulated broadcast values: a set of integers, stored
/// without duplicates in insertion order. It grows monotonically and is
/// never persisted.
pub struct SeenValues {
    values: Vec<i32>,
}

impl View for SeenValues {
    type V = Set<int>;

    closed spec fn view(&self) -> Set<int> {
        int_set_of(self.values@)
    }
}

impl SeenValues {
    /// The stored values in insertion order.
    pub closed spec fn order(&self) -> Seq<i32> {
        self.values@
    }

    /// Well-formed: no value is stored twice.
    pub open spec fn wf(&self) -> bool {
        forall|i: int, j: int|
            0 <= i < j < self.order().len() ==> self.order()[i] != self.order()[j]
    }

    pub fn new() -> (s: SeenValues)
        ensures
            s@ == Set::<int>::empty(),
            s.order() == Seq::<i32>::empty(),
            s.wf(),
    {
        let s = SeenValues { values: Vec::new() };
        proof {
            assert forall|x: int| !s@.contains(x) by {
                if s@.contains(x) {
                    let i = lemma_int_set_of_witness(s.values@, x);
                }
            }
            assert(s@ =~= Set::<int>::empty());
        }
        s
    }

    pub fn contains(&self, v: i32) -> (r: bool)
        ensures
            r == self@.contains(v as int),
    {
        let n = self.values.len();
        let mut i: usize = 0;
        while i < n
            invariant
                i <= n,
                n == self.values@.len(),
                forall|j: int| 0 <= j < i ==> self.values@[j] != v,
            decreases n - i,
        {
            if self.values[i] == v {
                proof {
                    lemma_int_set_of_member(self.values@, i as int);
                }
                return true;
            }
            i += 1;
        }
        proof {
            if self@.contains(v as int) {
                let k = lemma_int_set_of_witness(self.values@, v as int);
                assert(self.values@[k] == v);
            }
        }
        false
    }

    /// Adds a value; a value already present leaves the set unchanged.
    pub fn insert(&mut self, v: i32)
        requires
            old(self).wf(),
        ensures
            final(self).wf(),
            final(self)@ == old(self)@.insert(v as int),
            final(self).order() == (if old(self)@.contains(v as int) {
                old(self).order()
            } else {
                old(self).order().push(v)
            }),
    {
        let present = self.contains(v);
        if !present {
            self.values.push(v);
            proof {
                let s0 = old(self).values@;
                let s1 = self.values@;
                assert forall|x: int| self@.contains(x) <==> old(self)@.insert(v as int).contains(
                    x,
                ) by {
                    if self@.contains(x) {
                        let i = lemma_int_set_of_witness(s1, x);
                        if i < s0.len() {
                            lemma_int_set_of_member(s0, i);
                        }
                    }
                    if old(self)@.contains(x) {
                        let i = lemma_int_set_of_witness(s0, x);
                        assert(s1[i] == s0[i]);
                        lemma_int_set_of_member(s1, i);
                    }
                    if x == v as int {
                        lemma_int_set_of_member(s1, s1.len() - 1);
                    }
                }
                assert(final(self)@ =~= old(self)@.insert(v as int));
                assert forall|i: int, j: int| 0 <= i < j < s1.len() implies s1[i] != s1[j] by {
                    if j < s1.len() - 1 {
                        assert(old(self).order()[i] != old(self).order()[j]);
                        assert(s1[i] == s0[i] && s1[j] == s0[j]);
                    } else {
                        assert(s1[j] == v && s1[i] == s0[i]);
                        if s0[i] == v {
                            lemma_int_set_of_member(s0, i);
                            assert(false);
                        }
                    }
                }
            }
        } else {
            proof {
                assert(old(self)@.insert(v as int) =~= old(self)@);
            }
        }
    }

    /// A copy of the stored values, in insertion order.
    pub fn snapshot(&self) -> (r: Vec<i32>)
        ensures
            r@ == self.order(),
    {
        let n = self.values.len();
        let mut r: Vec<i32> = Vec::new();
        let mut i: usize = 0;
        while i < n
            invariant
                i <= n,
                n == self.values@.len(),
                r@ == self.values@.take(i as int),
            decreases n - i,
        {
            r.push(self.values[i]);
            proof {
                assert(r@ =~= self.values@.take(i as int + 1));
            }
            i += 1;
        }
        proof {
            assert(r@ =~= self.values@);
        }
        r
    }
}

/// A peer sent a reply-only payload as if it were a request; this is fatal.
#[derive(Clone, Copy, Debug, PartialEq, Eq, Structural)]
pub enum ProtocolViolation {
    UnexpectedInitOk,
    UnexpectedGenerateOk,
    UnexpectedReadOk,
    UnexpectedTopologyOk,
}

/// Reply-only payloads that a peer must never send as a request.
pub open spec fn is_fatal(p: PayloadView) -> bool {
    p is InitOk || p is GenerateOk || p is ReadOk || p is TopologyOk
}

/// Payloads whose handling emits a reply (and so advances the counter).
pub open spec fn emits_reply(p: PayloadView) -> bool {
    p is Echo || p is Init || p is Generate || p is Broadcast || p is Read || p is Topology
}

/// Which violation a fatal payload is reported as.
pub open spec fn violation_for(p: PayloadView) -> ProtocolViolation {
    if p is InitOk {
        ProtocolViolation::UnexpectedInitOk
    } else if p is GenerateOk {
        ProtocolViolation::UnexpectedGenerateOk
    } else if p is ReadOk {
        ProtocolViolation::UnexpectedReadOk
    } else {
        ProtocolViolation::UnexpectedTopologyOk
    }
}

/// The seen set after one payload is handled: a broadcast inserts its value,
/// every other payload leaves the set alone.
pub open spec fn seen_after(p: PayloadView, seen: Set<int>) -> Set<int> {
    match p {
        PayloadView::Broadcast { message } => seen.insert(message),
        _ => seen,
    }
}

/// The counter after one payload is handled: each emitted reply consumes
/// exactly one message id, so ids of successive replies increase by one;
/// a payload answered with no reply leaves the counter alone.
pub open spec fn id_after(p: PayloadView, id: int) -> int {
    if emits_reply(p) {
        id + 1
    } else {
        id
    }
}

/// The counter after a whole sequence of payloads is handled, oldest first.
pub open spec fn id_after_all(ps: Seq<PayloadView>, id: int) -> int
    decreases ps.len(),
{
    if ps.len() == 0 {
        id
    } else {
        id_after(ps.last(), id_after_all(ps.drop_last(), id))
    }
}

/// How many of the payloads `ps` are answered with a reply.
pub open spec fn replies_emitted(ps: Seq<PayloadView>) -> int
    decreases ps.len(),
{
    if ps.len() == 0 {
        0
    } else {
        replies_emitted(ps.drop_last()) + (if emits_reply(ps.last()) {
            1int
        } else {
            0int
        })
    }
}

/// Law: handling a sequence of payloads advances the counter by exactly the
/// number of replies emitted — one per reply, none for a payload answered
/// with no reply — so ids assigned to successive replies increase by one.
pub proof fn lemma_counter_counts_replies(ps: Seq<PayloadView>, id: int)
    ensures
        id_after_all(ps, id) == id + replies_emitted(ps),
    decreases ps.len(),
{
    if ps.len() > 0 {
        lemma_counter_counts_replies(ps.drop_last(), id);
    }
}

/// The stored value order after one payload is handled: a broadcast of an
/// unseen value appends it, everything else leaves the order alone.
pub open spec fn order_after(p: Payload, seen: Set<int>, o: Seq<i32>) -> Seq<i32> {
    match p {
        Payload::Broadcast { message } => if seen.contains(message as int) {
            o
        } else {
            o.push(message)
        },
        _ => o,
    }
}

/// The payload of the reply to a request payload. `seen_now` is the seen set
/// after the request's own effect; `guid` is the identifier a generate reply
/// carries. Meaningful only for payloads with `emits_reply`.
pub open spec fn reply_payload(p: PayloadView, seen_now: Set<int>, guid: Seq<char>) -> PayloadView {
    match p {
        PayloadView::Echo { echo } => PayloadView::EchoOk { echo },
        PayloadView::Init { .. } => PayloadView::InitOk,
        PayloadView::Generate => PayloadView::GenerateOk { guid },
        PayloadView::Broadcast { .. } => PayloadView::BroadcastOk,
        PayloadView::Read => PayloadView::ReadOk { messages: seen_now },
        PayloadView::Topology { .. } => PayloadView::TopologyOk,
        _ => p,
    }
}

/// The envelope of a reply: source and destination swapped, the assigned
/// message id, and `in_reply_to` echoing the request's message id.
pub open spec fn reply_view(request: MessageView, id: usize, p: PayloadView) -> MessageView {
    MessageView {
        src: request.dst,
        dst: request.src,
        body: crate::msg::BodyView { msg_id: Some(id), in_reply_to: request.body.msg_id, payload: p },
    }
}

/// Law: the reply to an echo request carries the request's text unchanged.
pub proof fn lemma_echo_reply(echo: Seq<char>, seen: Set<int>, guid: Seq<char>)
    ensures
        reply_payload(PayloadView::Echo { echo }, seen, guid) == (PayloadView::EchoOk { echo }),
{
}

/// Law: every reply answers exactly the request that triggered it: source and
/// destination are swapped, `msg_id` is the id the node assigned, and
/// `in_reply_to` equals the request's `msg_id`.
pub proof fn lemma_reply_correlation(request: MessageView, id: usize, p: PayloadView)
    ensures
        reply_view(request, id, p).body.in_reply_to == request.body.msg_id,
        reply_view(request, id, p).body.msg_id == Some(id),
        reply_view(request, id, p).src == request.dst,
        reply_view(request, id, p).dst == request.src,
{
}

/// The seen set after broadcasts of the values `vs`, oldest first.
pub open spec fn seen_after_broadcasts(seen: Set<int>, vs: Seq<int>) -> Set<int>
    decreases vs.len(),
{
    if vs.len() == 0 {
        seen
    } else {
        seen_after(
            PayloadView::Broadcast { message: vs.last() },
            seen_after_broadcasts(seen, vs.drop_last()),
        )
    }
}

/// Law: after broadcasts of the values `vs`, the seen set is the starting set
/// joined with exactly the values of `vs` — duplicates collapsed, order
/// forgotten — and a read then replies with that set.
pub proof fn lemma_broadcasts_then_read(seen: Set<int>, vs: Seq<int>, guid: Seq<char>)
    ensures
        seen_after_broadcasts(seen, vs) == seen + vs.to_set(),
        reply_payload(PayloadView::Read, seen_after_broadcasts(seen, vs), guid)
            == (PayloadView::ReadOk { messages: seen + vs.to_set() }),
    decreases vs.len(),
{
    if vs.len() == 0 {
        assert(seen_after_broadcasts(seen, vs) =~= seen + vs.to_set());
    } else {
        lemma_broadcasts_then_read(seen, vs.drop_last(), guid);
        assert forall|x: int| vs.to_set().contains(x)
            <==> (vs.drop_last().to_set().contains(x) || x == vs.last()) by {
            if vs.to_set().contains(x) {
                let i = choose|i: int| 0 <= i < vs.len() && vs[i] == x;
                if i < vs.len() - 1 {
                    assert(vs.drop_last()[i] == x);
                    assert(vs.drop_last().contains(x));
                }
            }
            if vs.drop_last().to_set().contains(x) {
                let i = choose|i: int| 0 <= i < vs.drop_last().len() && vs.drop_last()[i] == x;
                assert(vs[i] == x);
            }
            if x == vs.last() {
                assert(vs[vs.len() - 1] == x);
            }
        }
        assert(seen_after_broadcasts(seen, vs) =~= seen + vs.to_set());
    }
}

/// The node: nothing but the strictly increasing counter of message ids it
/// has assigned to its replies. It starts at zero.
#[derive(Clone, Copy, Debug)]
pub struct EchoNode {
    pub id: usize,
}

/// Relies on `ulid::Ulid::new` and `ulid::Ulid::to_string`: a fresh
/// identifier built from the clock and a random source, rendered as 26
/// characters of Crockford base32. The result depends on time and chance, so
/// nothing is claimed of its value beyond its length.
#[verifier::external_body]
fn fresh_ulid() -> (r: String)
    ensures
        r@.len() == 26,
{
    ulid::Ulid::new().to_string()
}

impl EchoNode {
    /// Handles one inbound envelope with the reply identifier given by the
    /// caller: the deterministic core of the dispatch. At most one reply is
    /// produced; a reply consumes one message id. `guid` is used only when
    /// the request is a generate.
    pub fn step_with_guid(&mut self, input: Message, guid: String, rpc: &mut SeenValues) -> (r:
        Result<Option<Message>, ProtocolViolation>)
        requires
            old(self).id < usize::MAX,
            old(rpc).wf(),
        ensures
            final(rpc).wf(),
            (r is Err) == is_fatal(input@.body.payload),
            final(self).id == id_after(input@.body.payload, old(self).id as int),
            final(rpc).order() == order_after(input.body.payload, old(rpc)@, old(rpc).order()),
            match r {
                Err(e) => {
                    &&& e == violation_for(input@.body.payload)
                    &&& final(rpc)@ == old(rpc)@
                },
                Ok(o) => {
                    &&& final(rpc)@ == seen_after(input@.body.payload, old(rpc)@)
                    &&& match o {
                        Some(reply) => {
                            &&& emits_reply(input@.body.payload)
                            &&& reply@ == reply_view(
                                input@,
                                old(self).id,
                                reply_payload(
                                    input@.body.payload,
                                    seen_after(input@.body.payload, old(rpc)@),
                                    guid@,
                                ),
                            )
                            &&& (input.body.payload is Read ==> (reply.body.payload matches
                            Payload::ReadOk { messages } && messages@ == old(rpc).order()))
                        },
                        None => !emits_reply(input@.body.payload),
                    }
                },
            },
    {
        let Message { src, dst, body } = input;
        let Body { msg_id, in_reply_to: _, payload } = body;
        match payload {
            Payload::Echo { echo } => {
                let reply = Message {
                    src: dst,
                    dst: src,
                    body: Body {
                        msg_id: Some(self.id),
                        in_reply_to: msg_id,
                        payload: Payload::EchoOk { echo },
                    },
                };
                self.id = self.id + 1;
                Ok(Some(reply))
            },
            Payload::EchoOk { echo: _ } => Ok(None),
            Payload::Init { node_id: _, node_ids: _ } => {
                let reply = Message {
                    src: dst,
                    dst: src,
                    body: Body {
                        msg_id: Some(self.id),
                        in_reply_to: msg_id,
                        payload: Payload::InitOk,
                    },
                };
                self.id = self.id + 1;
                Ok(Some(reply))
            },
            Payload::InitOk => Err(ProtocolViolation::UnexpectedInitOk),
            Payload::Generate => {
                let reply = Message {
                    src: dst,
                    dst: src,
                    body: Body {
                        msg_id: Some(self.id),
                        in_reply_to: msg_id,
                        payload: Payload::GenerateOk { guid },
                    },
                };
                self.id = self.id + 1;
                Ok(Some(reply))
            },
            Payload::GenerateOk { guid: _ } => Err(ProtocolViolation::UnexpectedGenerateOk),
            Payload::Broadcast { message } => {
                rpc.insert(message);
                let reply = Message {
                    src: dst,
                    dst: src,
                    body: Body {
                        msg_id: Some(self.id),
                        in_reply_to: msg_id,
                        payload: Payload::BroadcastOk,
                    },
                };
                self.id = self.id + 1;
                Ok(Some(reply))
            },
            // This node never sends broadcast requests of its own, so an
            // inbound acknowledgment answers nothing; it is ignored without
            // effect, like an inbound echo_ok.
            Payload::BroadcastOk => Ok(None),
            Payload::Read => {
                let messages = rpc.snapshot();
                let reply = Message {
                    src: dst,
                    dst: src,
                    body: Body {
                        msg_id: Some(self.id),
                        in_reply_to: msg_id,
                        payload: Payload::ReadOk { messages },
                    },
                };
                self.id = self.id + 1;
                Ok(Some(reply))
            },
            Payload::ReadOk { messages: _ } => Err(ProtocolViolation::UnexpectedReadOk),
            Payload::Topology { topology: _ } => {
                let reply = Message {
                    src: dst,
                    dst: src,
                    body: Body {
                        msg_id: Some(self.id),
                        in_reply_to: msg_id,
                        payload: Payload::TopologyOk,
                    },
                };
                self.id = self.id + 1;
                Ok(Some(reply))
            },
            Payload::TopologyOk => Err(ProtocolViolation::UnexpectedTopologyOk),
        }
    }

    /// Handles one inbound envelope and produces at most one reply. A generate
    /// request is answered with a freshly generated identifier, so two calls
    /// on equal inputs may differ in that identifier alone; everything else is
    /// pinned down exactly.
    pub fn step(&mut self, input: Message, rpc: &mut SeenValues) -> (r: Result<
        Option<Message>,
        ProtocolViolation,
    >)
        requires
            old(self).id < usize::MAX,
            old(rpc).wf(),
        ensures
            final(rpc).wf(),
            (r is Err) == is_fatal(input@.body.payload),
            final(self).id == id_after(input@.body.payload, old(self).id as int),
            final(rpc).order() == order_after(input.body.payload, old(rpc)@, old(rpc).order()),
            match r {
                Err(e) => {
                    &&& e == violation_for(input@.body.payload)
                    &&& final(rpc)@ == old(rpc)@
                },
                Ok(o) => {
                    &&& final(rpc)@ == seen_after(input@.body.payload, old(rpc)@)
                    &&& match o {
                        Some(reply) => {
                            &&& emits_reply(input@.body.payload)
                            &&& (input.body.payload is Read ==> (reply.body.payload matches
                            Payload::ReadOk { messages } && messages@ == old(rpc).order()))
                            &&& if input@.body.payload is Generate {
                                exists|g: Seq<char>|
                                    #![auto]
                                    g.len() == 26 && reply@ == reply_view(
                                        input@,
                                        old(self).id,
                                        PayloadView::GenerateOk { guid: g },
                                    )
                            } else {
                                reply@ == reply_view(
                                    input@,
                                    old(self).id,
                                    reply_payload(
                                        input@.body.payload,
                                        seen_after(input@.body.payload, old(rpc)@),
                                        Seq::<char>::empty(),
                                    ),
                                )
                            }
                        },
                        None => !emits_reply(input@.body.payload),
                    }
                },
            },
    {
        let ghost iv = input@;
        let guid = if matches!(input.body.payload, Payload::Generate) {
            fresh_ulid()
        } else {
            String::new()
        };
        let ghost g = guid@;
        let r = self.step_with_guid(input, guid, rpc);
        proof {
            if iv.body.payload is Generate && r is Ok {
                if let Ok(Some(ref reply)) = r {
                    assert(g.len() == 26 && reply@ == reply_view(
                        iv,
                        old(self).id,
                        PayloadView::GenerateOk { guid: g },
                    ));
                }
            }
        }
        r
    }
}

} // verus!
