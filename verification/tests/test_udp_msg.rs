use ggrs::network::udp_msg::{
    ConnectionStatus, Input, InputAck, MessageBody, MessageHeader, QualityReply, QualityReport,
    SyncReply, SyncRequest, UdpMessage,
};
use ggrs::NULL_FRAME;

#[test]
fn test_dummy_message() {
    let message = UdpMessage::dummy();
    assert_eq!(message.header, MessageHeader { magic: 123 });
    assert_eq!(message.body, MessageBody::KeepAlive);
}

#[test]
fn test_message_defaults() {
    assert_eq!(
        ConnectionStatus::default(),
        ConnectionStatus { disconnected: false, last_frame: NULL_FRAME }
    );
    assert_eq!(NULL_FRAME, -1);
    let input = Input::default();
    assert!(input.peer_connect_status.is_empty());
    assert!(!input.disconnect_requested);
    assert_eq!(input.start_frame, NULL_FRAME);
    assert_eq!(input.ack_frame, NULL_FRAME);
    assert!(input.bytes.is_empty());
    assert_eq!(InputAck::default(), InputAck { ack_frame: NULL_FRAME });
    assert_eq!(SyncRequest::default(), SyncRequest { random_request: 0 });
    assert_eq!(SyncReply::default(), SyncReply { random_reply: 0 });
    assert_eq!(QualityReport::default(), QualityReport { frame_advantage: 0, ping: 0 });
    assert_eq!(QualityReply::default(), QualityReply { pong: 0 });
    assert_eq!(MessageHeader::default(), MessageHeader { magic: 0 });
}
