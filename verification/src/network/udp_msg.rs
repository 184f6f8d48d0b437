//! The messages that peers exchange.
//!
//! Every datagram is one [`UdpMessage`]: a header with the sender's magic
//! number and one body out of [`MessageBody`].
use vstd::prelude::*;

use crate::{Frame, NULL_FRAME};

verus! {

/// What a peer knows of one player slot: whether the player has left, and the
/// last frame for which their input is known.
#[derive(Copy, Clone, Debug, PartialEq, Eq, Structural)]
pub struct ConnectionStatus {
    pub disconnected: bool,
    pub last_frame: Frame,
}

impl Default for ConnectionStatus {
    /// A connected player of whom no frame is known yet.
    fn default() -> (status: Self)
        ensures
            status == (ConnectionStatus { disconnected: false, last_frame: NULL_FRAME }),
    {
        Self { disconnected: false, last_frame: NULL_FRAME }
    }
}

/// Handshake: asks the peer to send `random_request` back.
#[derive(Copy, Clone, Debug, PartialEq, Eq, Structural)]
pub struct SyncRequest {
    pub random_request: u32,
}

impl Default for SyncRequest {
    fn default() -> (request: Self)
        ensures
            request == (SyncRequest { random_request: 0 }),
    {
        Self { random_request: 0 }
    }
}

/// Handshake: carries the number of a [`SyncRequest`] back to its sender.
#[derive(Copy, Clone, Debug, PartialEq, Eq, Structural)]
pub struct SyncReply {
    pub random_reply: u32,
}

impl Default for SyncReply {
    fn default() -> (reply: Self)
        ensures
            reply == (SyncReply { random_reply: 0 }),
    {
        Self { random_reply: 0 }
    }
}

/// A batch of compressed inputs. `bytes` holds the inputs from `start_frame`
/// on; `ack_frame` is the last frame the sender has received from the peer.
#[derive(Clone, Debug, PartialEq, Eq)]
pub struct Input {
    pub peer_connect_status: Vec<ConnectionStatus>,
    pub disconnect_requested: bool,
    pub start_frame: Frame,
    pub ack_frame: Frame,
    pub bytes: Vec<u8>,
}

/// The mathematical value of an [`Input`] message.
pub struct InputBody {
    pub peer_connect_status: Seq<ConnectionStatus>,
    pub disconnect_requested: bool,
    pub start_frame: Frame,
    pub ack_frame: Frame,
    pub bytes: Seq<u8>,
}

impl View for Input {
    type V = InputBody;

    open spec fn view(&self) -> InputBody {
        InputBody {
            peer_connect_status: self.peer_connect_status@,
            disconnect_requested: self.disconnect_requested,
            start_frame: self.start_frame,
            ack_frame: self.ack_frame,
            bytes: self.bytes@,
        }
    }
}

impl Default for Input {
    /// An empty batch that names no frame.
    fn default() -> (input: Self)
        ensures
            input@ == (InputBody {
                peer_connect_status: Seq::empty(),
                disconnect_requested: false,
                start_frame: NULL_FRAME,
                ack_frame: NULL_FRAME,
                bytes: Seq::empty(),
            }),
    {
        Self {
            peer_connect_status: Vec::new(),
            disconnect_requested: false,
            start_frame: NULL_FRAME,
            ack_frame: NULL_FRAME,
            bytes: Vec::new(),
        }
    }
}

/// Acknowledges the inputs up to `ack_frame` without sending any back.
#[derive(Copy, Clone, Debug, PartialEq, Eq, Structural)]
pub struct InputAck {
    pub ack_frame: Frame,
}

impl Default for InputAck {
    /// Acknowledges nothing.
    fn default() -> (ack: Self)
        ensures
            ack == (InputAck { ack_frame: NULL_FRAME }),
    {
        Self { ack_frame: NULL_FRAME }
    }
}

/// The sender's frame advantage and its clock, to be echoed in a [`QualityReply`].
#[derive(Copy, Clone, Debug, PartialEq, Eq, Structural)]
pub struct QualityReport {
    /// How many frames the sender is ahead of the receiver.
    pub frame_advantage: i8,
    /// The sender's clock, in milliseconds.
    pub ping: u128,
}

impl Default for QualityReport {
    fn default() -> (report: Self)
        ensures
            report == (QualityReport { frame_advantage: 0, ping: 0 }),
    {
        Self { frame_advantage: 0, ping: 0 }
    }
}

/// Echoes the `ping` of a [`QualityReport`], from which the sender measures the round trip.
#[derive(Copy, Clone, Debug, PartialEq, Eq, Structural)]
pub struct QualityReply {
    pub pong: u128,
}

impl Default for QualityReply {
    fn default() -> (reply: Self)
        ensures
            reply == (QualityReply { pong: 0 }),
    {
        Self { pong: 0 }
    }
}

/// Stamped on every datagram: the magic number of the endpoint that sent it.
#[derive(Copy, Clone, Debug, PartialEq, Eq, Structural)]
pub struct MessageHeader {
    pub magic: u16,
}

impl Default for MessageHeader {
    fn default() -> (header: Self)
        ensures
            header == (MessageHeader { magic: 0 }),
    {
        Self { magic: 0 }
    }
}

/// The kinds of message.
#[derive(Clone, Debug, PartialEq, Eq)]
pub enum MessageBody {
    SyncRequest(SyncRequest),
    SyncReply(SyncReply),
    Input(Input),
    InputAck(InputAck),
    QualityReport(QualityReport),
    QualityReply(QualityReply),
    /// Carries nothing; keeps an idle connection from timing out.
    KeepAlive,
}

/// The mathematical value of a [`MessageBody`].
pub enum BodyView {
    SyncRequest(SyncRequest),
    SyncReply(SyncReply),
    Input(InputBody),
    InputAck(InputAck),
    QualityReport(QualityReport),
    QualityReply(QualityReply),
    KeepAlive,
}

impl View for MessageBody {
    type V = BodyView;

    open spec fn view(&self) -> BodyView {
        match *self {
            MessageBody::SyncRequest(body) => BodyView::SyncRequest(body),
            MessageBody::SyncReply(body) => BodyView::SyncReply(body),
            MessageBody::Input(body) => BodyView::Input(body@),
            MessageBody::InputAck(body) => BodyView::InputAck(body),
            MessageBody::QualityReport(body) => BodyView::QualityReport(body),
            MessageBody::QualityReply(body) => BodyView::QualityReply(body),
            MessageBody::KeepAlive => BodyView::KeepAlive,
        }
    }
}

/// The mathematical value of a [`UdpMessage`].
pub struct MessageView {
    pub magic: u16,
    pub body: BodyView,
}

/// One datagram.
#[derive(Clone, Debug, PartialEq, Eq)]
pub struct UdpMessage {
    pub header: MessageHeader,
    pub body: MessageBody,
}

impl View for UdpMessage {
    type V = MessageView;

    open spec fn view(&self) -> MessageView {
        MessageView { magic: self.header.magic, body: self.body@ }
    }
}

/// The views of a sequence of messages, one for one.
pub open spec fn message_views(messages: Seq<UdpMessage>) -> Seq<MessageView> {
    Seq::new(messages.len(), |i: int| messages[i]@)
}

impl UdpMessage {
    /// A keep-alive with the magic number 123, for callers that need some message.
    pub fn dummy() -> (message: Self)
        ensures
            message@ == (MessageView { magic: 123, body: BodyView::KeepAlive }),
    {
        Self { header: MessageHeader { magic: 123 }, body: MessageBody::KeepAlive }
    }
}

} // verus!
