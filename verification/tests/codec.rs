//! Byte-level codec tests: exact frames, round trips, and a cross-check
//! against an independent JSON implementation.

use wamp_async::msg::Msg;
use wamp_async::serializer::JsonSerializer;
use wamp_async::types::{Arg, PayloadValue, WampId};

fn pack(m: &Msg) -> Vec<u8> {
    JsonSerializer {}.pack(m).unwrap()
}

fn unpack(b: &[u8]) -> Msg {
    JsonSerializer {}.unpack(b).unwrap()
}

fn roundtrip(m: &Msg) -> Vec<u8> {
    let b = pack(m);
    let m2 = unpack(&b);
    let b2 = pack(&m2);
    assert_eq!(b, b2);
    b
}

#[test]
fn hello_frame_exact() {
    let m = Msg::Hello {
        realm: "realm1".to_string(),
        details: vec![("roles".to_string(), Arg::Dict(vec![]))],
    };
    assert_eq!(pack(&m), b"[1,\"realm1\",{\"roles\":{}}]".to_vec());
    roundtrip(&m);
}

#[test]
fn goodbye_frame_exact() {
    let m = Msg::Goodbye {
        details: vec![],
        reason: "wamp.close.close_realm".to_string(),
    };
    assert_eq!(pack(&m), b"[6,{},\"wamp.close.close_realm\"]".to_vec());
    roundtrip(&m);
}

#[test]
fn publish_frame_without_payload() {
    let m = Msg::Publish {
        request: WampId(25),
        options: vec![],
        topic: "a.b".to_string(),
        arguments: None,
        arguments_kw: None,
    };
    assert_eq!(pack(&m), b"[16,25,{},\"a.b\"]".to_vec());
    roundtrip(&m);
}

#[test]
fn kwargs_force_an_empty_args_array() {
    let m = Msg::Publish {
        request: WampId(3),
        options: vec![],
        topic: "a.b".to_string(),
        arguments: None,
        arguments_kw: Some(vec![("k".to_string(), PayloadValue::Uint(1))]),
    };
    assert_eq!(pack(&m), b"[16,3,{},\"a.b\",[],{\"k\":1}]".to_vec());
    // Decoding gives the normalized form: an explicit empty args array.
    let m2 = unpack(&pack(&m));
    match m2 {
        Msg::Publish { arguments, arguments_kw, .. } => {
            assert_eq!(arguments.unwrap().len(), 0);
            assert_eq!(arguments_kw.unwrap().len(), 1);
        }
        _ => panic!("wrong kind"),
    }
}

#[test]
fn yield_frame_exact() {
    let m = Msg::Yield {
        request: WampId(9),
        options: vec![],
        arguments: Some(vec![PayloadValue::Uint(5)]),
        arguments_kw: None,
    };
    assert_eq!(pack(&m), b"[70,9,{},[5]]".to_vec());
    roundtrip(&m);
}

#[test]
fn every_message_kind_round_trips() {
    let d = || vec![("k".to_string(), Arg::Uri("v".to_string()))];
    let args = || Some(vec![PayloadValue::Uint(12), PayloadValue::Text("x".to_string())]);
    let kw = || Some(vec![("a".to_string(), PayloadValue::Bool(true))]);
    let msgs = vec![
        Msg::Hello { realm: "r".to_string(), details: d() },
        Msg::Welcome { session: WampId(42), details: d() },
        Msg::Abort { details: d(), reason: "x.y".to_string() },
        Msg::Challenge {
            authentication_method: wamp_async::types::AuthenticationMethod::CryptoSign,
            extra: d(),
        },
        Msg::Authenticate { signature: "s".to_string(), extra: d() },
        Msg::Goodbye { details: d(), reason: "x.y".to_string() },
        Msg::Error {
            typ: 48,
            request: WampId(1),
            details: d(),
            error: "e.f".to_string(),
            arguments: args(),
            arguments_kw: kw(),
        },
        Msg::Publish {
            request: WampId(2),
            options: d(),
            topic: "t".to_string(),
            arguments: args(),
            arguments_kw: None,
        },
        Msg::Published { request: WampId(3), publication: WampId(4) },
        Msg::Subscribe { request: WampId(5), options: d(), topic: "t".to_string() },
        Msg::Subscribed { request: WampId(6), subscription: WampId(7) },
        Msg::Unsubscribe { request: WampId(8), subscription: WampId(9) },
        Msg::Unsubscribed { request: WampId(10) },
        Msg::Event {
            subscription: WampId(11),
            publication: WampId(12),
            details: d(),
            arguments: args(),
            arguments_kw: kw(),
        },
        Msg::Call {
            request: WampId(13),
            options: d(),
            procedure: "p".to_string(),
            arguments: args(),
            arguments_kw: None,
        },
        Msg::CallResult {
            request: WampId(14),
            details: d(),
            arguments: args(),
            arguments_kw: kw(),
        },
        Msg::Register { request: WampId(15), options: d(), procedure: "p".to_string() },
        Msg::Registered { request: WampId(16), registration: WampId(17) },
        Msg::Unregister { request: WampId(18), registration: WampId(19) },
        Msg::Unregistered { request: WampId(20) },
        Msg::Invocation {
            request: WampId(21),
            registration: WampId(22),
            details: d(),
            arguments: args(),
            arguments_kw: kw(),
        },
        Msg::Yield { request: WampId(23), options: d(), arguments: args(), arguments_kw: kw() },
    ];
    for m in &msgs {
        roundtrip(m);
    }
}

#[test]
fn string_escapes_round_trip() {
    let m = Msg::CallResult {
        request: WampId(1),
        details: vec![],
        arguments: Some(vec![
            PayloadValue::Text("a\"b\\c\nd\te\u{1}".to_string()),
            PayloadValue::Text("h\u{e9}llo \u{3ba}\u{1f600}".to_string()),
        ]),
        arguments_kw: None,
    };
    roundtrip(&m);
}

#[test]
fn parser_accepts_standard_escapes() {
    let b = b"[50,1,{},[\"a\\nb\\u0041\\u00e9\\t\"]]".to_vec();
    let m = unpack(&b);
    match m {
        Msg::CallResult { arguments, .. } => match &arguments.unwrap()[0] {
            PayloadValue::Text(s) => assert_eq!(s, "a\nbA\u{e9}\t"),
            _ => panic!("wrong value"),
        },
        _ => panic!("wrong kind"),
    }
}

#[test]
fn numbers_stay_lexical_when_not_plain_integers() {
    let b = b"[50,1,{},[1.5,-7,1e3,18446744073709551616,0,7]]".to_vec();
    let m = unpack(&b);
    match m {
        Msg::CallResult { arguments, .. } => {
            let a = arguments.unwrap();
            assert!(matches!(&a[0], PayloadValue::Num(s) if s == "1.5"));
            assert!(matches!(&a[1], PayloadValue::Num(s) if s == "-7"));
            assert!(matches!(&a[2], PayloadValue::Num(s) if s == "1e3"));
            assert!(matches!(&a[3], PayloadValue::Num(s) if s == "18446744073709551616"));
            assert!(matches!(&a[4], PayloadValue::Uint(0)));
            assert!(matches!(&a[5], PayloadValue::Uint(7)));
        }
        _ => panic!("wrong kind"),
    }
    // the lexical forms survive re-encoding
    let b2 = pack(&unpack(&b));
    assert_eq!(b, b2);
}

#[test]
fn malformed_frames_are_rejected() {
    for bad in [
        &b"[99,1]"[..],
        &b"[1,\"r\"]"[..],
        &b"[16,0,{},\"t\"]"[..],
        &b"{}"[..],
        &b"[1,\"r\",{}]x"[..],
        &b"[6,{},\"x\",]"[..],
        &b""[..],
    ] {
        assert!(JsonSerializer {}.unpack(bad).is_err());
    }
}

#[test]
fn emitted_json_parses_with_an_independent_parser() {
    let m = Msg::Event {
        subscription: WampId(7),
        publication: WampId(100),
        details: vec![("x".to_string(), Arg::Integer(0))],
        arguments: Some(vec![
            PayloadValue::Text("hi\n\"there\"".to_string()),
            PayloadValue::Uint(18446744073709551615),
            PayloadValue::List(vec![PayloadValue::Null, PayloadValue::Bool(false)]),
        ]),
        arguments_kw: None,
    };
    let b = pack(&m);
    let v: serde_json::Value = serde_json::from_slice(&b).unwrap();
    let arr = v.as_array().unwrap();
    assert_eq!(arr[0], serde_json::Value::from(36u64));
    assert_eq!(arr[1], serde_json::Value::from(7u64));
    assert_eq!(arr[2], serde_json::Value::from(100u64));
    assert_eq!(arr[4][0], serde_json::Value::from("hi\n\"there\""));
    assert_eq!(arr[4][1], serde_json::Value::from(u64::MAX));
    assert!(arr[4][2][0].is_null());
}
