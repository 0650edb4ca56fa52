//! Binary codec tests: exact CBOR and MsgPack frames, round trips, and
//! cross-checks against independent implementations.

use wamp_async::msg::Msg;
use wamp_async::serializer::{CborSerializer, JsonSerializer, MsgPackSerializer};
use wamp_async::types::{Arg, PayloadValue, WampId};

fn sample_msgs() -> Vec<Msg> {
    let d = || vec![("k".to_string(), Arg::Uri("v".to_string()))];
    let args = || Some(vec![PayloadValue::Uint(12), PayloadValue::Text("x".to_string())]);
    let kw = || Some(vec![("a".to_string(), PayloadValue::Bool(true))]);
    vec![
        Msg::Hello { realm: "r".to_string(), details: d() },
        Msg::Welcome { session: WampId(42), details: d() },
        Msg::Goodbye { details: d(), reason: "x.y".to_string() },
        Msg::Publish {
            request: WampId(2),
            options: d(),
            topic: "t".to_string(),
            arguments: args(),
            arguments_kw: kw(),
        },
        Msg::Event {
            subscription: WampId(300),
            publication: WampId(70000),
            details: d(),
            arguments: Some(vec![
                PayloadValue::Null,
                PayloadValue::Uint(u64::MAX),
                PayloadValue::Uint(200),
                PayloadValue::Uint(40000),
                PayloadValue::Text("h\u{e9}llo".to_string()),
                PayloadValue::List(vec![PayloadValue::Bool(false)]),
            ]),
            arguments_kw: None,
        },
        Msg::CallResult { request: WampId(14), details: d(), arguments: args(), arguments_kw: kw() },
        Msg::Yield { request: WampId(23), options: d(), arguments: args(), arguments_kw: kw() },
    ]
}

#[test]
fn cbor_publish_frame_exact() {
    let m = Msg::Publish {
        request: WampId(25),
        options: vec![],
        topic: "a.b".to_string(),
        arguments: None,
        arguments_kw: None,
    };
    let b = CborSerializer {}.pack(&m).unwrap();
    assert_eq!(b, vec![0x84, 0x10, 0x18, 0x19, 0xA0, 0x63, 0x61, 0x2E, 0x62]);
}

#[test]
fn msgpack_publish_frame_exact() {
    let m = Msg::Publish {
        request: WampId(25),
        options: vec![],
        topic: "a.b".to_string(),
        arguments: None,
        arguments_kw: None,
    };
    let b = MsgPackSerializer {}.pack(&m).unwrap();
    assert_eq!(b, vec![0x94, 0x10, 0x19, 0x80, 0xA3, 0x61, 0x2E, 0x62]);
}

#[test]
fn cbor_round_trips() {
    let c = CborSerializer {};
    for m in &sample_msgs() {
        let b = c.pack(m).unwrap();
        let m2 = c.unpack(&b).unwrap();
        let b2 = c.pack(&m2).unwrap();
        assert_eq!(b, b2);
    }
}

#[test]
fn msgpack_round_trips() {
    let c = MsgPackSerializer {};
    for m in &sample_msgs() {
        let b = c.pack(m).unwrap();
        let m2 = c.unpack(&b).unwrap();
        let b2 = c.pack(&m2).unwrap();
        assert_eq!(b, b2);
    }
}

#[test]
fn binary_codecs_agree_with_independent_decoders() {
    let j = JsonSerializer {};
    let c = CborSerializer {};
    let p = MsgPackSerializer {};
    for m in &sample_msgs() {
        let reference: serde_json::Value = serde_json::from_slice(&j.pack(m).unwrap()).unwrap();
        let from_cbor: serde_json::Value = serde_cbor::from_slice(&c.pack(m).unwrap()).unwrap();
        let from_mp: serde_json::Value = rmp_serde::from_slice(&p.pack(m).unwrap()).unwrap();
        assert_eq!(reference, from_cbor);
        assert_eq!(reference, from_mp);
    }
}

#[test]
fn binary_codecs_reject_lexical_numbers() {
    let m = Msg::CallResult {
        request: WampId(1),
        details: vec![],
        arguments: Some(vec![PayloadValue::Num("1.5".to_string())]),
        arguments_kw: None,
    };
    assert!(CborSerializer {}.pack(&m).is_err());
    assert!(MsgPackSerializer {}.pack(&m).is_err());
    // JSON carries the lexical form through unchanged
    assert_eq!(JsonSerializer {}.pack(&m).unwrap(), b"[50,1,{},[1.5]]".to_vec());
}

#[test]
fn binary_codecs_reject_noncanonical_heads() {
    // a 4-element array holding 16 as a two-byte CBOR count: legal CBOR,
    // but not the canonical form this codec emits
    let noncanonical_cbor = vec![0x84, 0x18, 0x10, 0x18, 0x19, 0xA0, 0x63, 0x61, 0x2E, 0x62];
    assert!(CborSerializer {}.unpack(&noncanonical_cbor).is_err());
    // 16 as a msgpack uint8 instead of a fixint
    let noncanonical_mp = vec![0x94, 0xCC, 0x10, 0x19, 0x80, 0xA3, 0x61, 0x2E, 0x62];
    assert!(MsgPackSerializer {}.unpack(&noncanonical_mp).is_err());
}
