//! Raw-socket framing and handshake byte checks.

use wamp_async::rawsock::{HandshakeCtx, MsgPrefix, TcpMsg};
use wamp_async::error::TransportError;
use wamp_async::serializer::SerializerType;
use wamp_async::websock::{on_ws_frame, subprotocol_list, uses_binary_frames, WsAction, WsFrameKind};

#[test]
fn frame_kinds_round_trip() {
    for (k, id) in [(TcpMsg::Regular, 0u8), (TcpMsg::Ping, 1), (TcpMsg::Pong, 2)] {
        assert_eq!(k.to_id(), id);
        assert!(matches!(TcpMsg::from_id(id), Some(x) if x == k));
    }
    assert!(TcpMsg::from_id(3).is_none());
    assert!(TcpMsg::from_id(7).is_none());
}

#[test]
fn prefix_carries_length_big_endian() {
    let h = MsgPrefix::new_from(&TcpMsg::Regular, Some(0x01_02_03));
    assert_eq!(h.bytes, [0, 0x01, 0x02, 0x03]);
    assert_eq!(h.payload_len(), 0x01_02_03);
    assert!(matches!(h.msg_type(), Some(TcpMsg::Regular)));

    let mut p = MsgPrefix::new();
    p.set_msg_len(512);
    assert_eq!(p.bytes, [0, 0, 2, 0]);
    assert_eq!(p.payload_len(), 512);
}

#[test]
fn prefix_rejects_reserved_bits() {
    let mut p = MsgPrefix::new();
    p.bytes[0] = 0x08;
    assert!(p.msg_type().is_none());
}

#[test]
fn handshake_proposal_bytes() {
    let mut hs = HandshakeCtx::new();
    assert_eq!(hs.client[0], 0x7F);
    hs.set_msg_size(1 << 24);
    hs.set_serializer(SerializerType::Json);
    // high nibble: 24 - 9 = 15; low nibble: JSON = 1
    assert_eq!(hs.client[1], 0xF1);

    hs.set_msg_size(300); // rounds up to 512 = 2^9
    assert_eq!(hs.client[1] >> 4, 0);
    hs.set_serializer(SerializerType::MsgPack);
    assert_eq!(hs.client[1] & 0x0F, 2);
    hs.set_serializer(SerializerType::Cbor);
    assert_eq!(hs.client[1] & 0x0F, 0);
}

#[test]
fn handshake_validation() {
    let mut hs = HandshakeCtx::new();
    hs.set_msg_size(1 << 24);
    hs.set_serializer(SerializerType::Json);
    let proposal = hs.client[1];

    hs.set_server_reply([0x7F, proposal, 0, 0]);
    assert!(hs.validate().is_ok());

    hs.set_server_reply([0x00, proposal, 0, 0]);
    assert!(matches!(hs.validate(), Err(TransportError::UnexpectedResponse)));

    hs.set_server_reply([0x7F, 0x10, 0, 0]);
    assert!(matches!(hs.validate(), Err(TransportError::SerializerNotSupported(_))));

    hs.set_server_reply([0x7F, 0x20, 0, 0]);
    assert!(matches!(hs.validate(), Err(TransportError::InvalidMaximumMsgSize(_))));

    hs.set_server_reply([0x7F, 0x40, 0, 0]);
    assert!(matches!(hs.validate(), Err(TransportError::MaximumServerConn)));

    hs.set_server_reply([0x7F, 0x30, 0, 0]);
    assert!(matches!(hs.validate(), Err(TransportError::UnexpectedResponse)));
}

#[test]
fn websocket_subprotocol_offer() {
    let offer = subprotocol_list(&vec![
        SerializerType::Json,
        SerializerType::MsgPack,
        SerializerType::Cbor,
    ]);
    assert_eq!(offer, "wamp.2.json,wamp.2.msgpack,wamp.2.cbor");
    assert_eq!(subprotocol_list(&vec![SerializerType::Cbor]), "wamp.2.cbor");
    assert_eq!(subprotocol_list(&vec![]), "");
}

#[test]
fn websocket_frame_decisions() {
    assert!(!uses_binary_frames(SerializerType::Json));
    assert!(uses_binary_frames(SerializerType::MsgPack));
    assert!(uses_binary_frames(SerializerType::Cbor));
    assert!(matches!(on_ws_frame(false, WsFrameKind::Text), WsAction::Deliver));
    assert!(matches!(on_ws_frame(true, WsFrameKind::Text), WsAction::Reject));
    assert!(matches!(on_ws_frame(true, WsFrameKind::Binary), WsAction::Deliver));
    assert!(matches!(on_ws_frame(false, WsFrameKind::Binary), WsAction::Reject));
    assert!(matches!(on_ws_frame(true, WsFrameKind::Ping), WsAction::ReplyPong));
    assert!(matches!(on_ws_frame(false, WsFrameKind::Other), WsAction::Reject));
}

#[test]
fn handshake_proposes_the_least_sufficient_power_of_two() {
    let mut hs = HandshakeCtx::new();
    hs.set_msg_size(513);
    assert_eq!(hs.client[1] >> 4, 1); // 1024 = 2^10
    hs.set_msg_size(1024);
    assert_eq!(hs.client[1] >> 4, 1);
    hs.set_msg_size(0);
    assert_eq!(hs.client[1] >> 4, 0); // clamped to the 512-byte floor
}
