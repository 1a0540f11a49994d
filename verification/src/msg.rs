//! The wire-level data model: an envelope (`Message`) carrying a `Body`,
//! which in turn carries one `Payload` variant, discriminated on the wire
//! by its `type` tag.

use vstd::prelude::*;

verus! {

/// The set of integers a value sequence holds, duplicates collapsed.
pub open spec fn int_set_of(s: Seq<i32>) -> Set<int> {
    s.map_values(|v: i32| v as int).to_set()
}

/// The request/response kind carried in a message body.
#[derive(Clone, Debug)]
pub enum Payload {
    Echo { echo: String },
    EchoOk { echo: String },
    Init { node_id: String, node_ids: Vec<String> },
    InitOk,
    Generate,
    GenerateOk { guid: String },
    Broadcast { message: i32 },
    BroadcastOk,
    Read,
    ReadOk { messages: Vec<i32> },
    Topology { topology: Vec<(String, Vec<String>)> },
    TopologyOk,
}

/// Mathematical model of a payload: strings become character sequences and
/// the collection returned by a read becomes a set of integers, so that two
/// read replies listing the same values in different orders have one model.
pub ghost enum PayloadView {
    Echo { echo: Seq<char> },
    EchoOk { echo: Seq<char> },
    Init { node_id: Seq<char>, node_ids: Seq<Seq<char>> },
    InitOk,
    Generate,
    GenerateOk { guid: Seq<char> },
    Broadcast { message: int },
    BroadcastOk,
    Read,
    ReadOk { messages: Set<int> },
    Topology { topology: Seq<(Seq<char>, Seq<Seq<char>>)> },
    TopologyOk,
}

impl View for Payload {
    type V = PayloadView;

    open spec fn view(&self) -> PayloadView {
        match self {
            Payload::Echo { echo } => PayloadView::Echo { echo: echo@ },
            Payload::EchoOk { echo } => PayloadView::EchoOk { echo: echo@ },
            Payload::Init { node_id, node_ids } => PayloadView::Init {
                node_id: node_id@,
                node_ids: node_ids.deep_view(),
            },
            Payload::InitOk => PayloadView::InitOk,
            Payload::Generate => PayloadView::Generate,
            Payload::GenerateOk { guid } => PayloadView::GenerateOk { guid: guid@ },
            Payload::Broadcast { message } => PayloadView::Broadcast { message: *message as int },
            Payload::BroadcastOk => PayloadView::BroadcastOk,
            Payload::Read => PayloadView::Read,
            Payload::ReadOk { messages } => PayloadView::ReadOk {
                messages: int_set_of(messages@),
            },
            Payload::Topology { topology } => PayloadView::Topology {
                topology: topology.deep_view(),
            },
            Payload::TopologyOk => PayloadView::TopologyOk,
        }
    }
}

/// One message body: the correlation ids and the payload. `msg_id` is set on
/// messages the sender expects a reply to; a reply's `in_reply_to` echoes the
/// `msg_id` of the request it answers.
#[derive(Clone, Debug)]
pub struct Body {
    pub msg_id: Option<usize>,
    pub in_reply_to: Option<usize>,
    pub payload: Payload,
}

pub ghost struct BodyView {
    pub msg_id: Option<usize>,
    pub in_reply_to: Option<usize>,
    pub payload: PayloadView,
}

impl View for Body {
    type V = BodyView;

    open spec fn view(&self) -> BodyView {
        BodyView { msg_id: self.msg_id, in_reply_to: self.in_reply_to, payload: self.payload@ }
    }
}

/// One directed message: where it came from, where it goes, and its body.
#[derive(Clone, Debug)]
pub struct Message {
    pub src: String,
    pub dst: String,
    pub body: Body,
}

pub ghost struct MessageView {
    pub src: Seq<char>,
    pub dst: Seq<char>,
    pub body: BodyView,
}

impl View for Message {
    type V = MessageView;

    open spec fn view(&self) -> MessageView {
        MessageView { src: self.src@, dst: self.dst@, body: self.body@ }
    }
}

} // verus!
