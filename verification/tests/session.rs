//! End-to-end session scenarios, driven against the engine as a scripted
//! peer would see them. Reply tokens, event queues and handlers are plain
//! integers here; a real event loop wires them to channels.

use wamp_async::auth::CryptoSign;
use wamp_async::options::{OptionBuilder, SubscriptionOptionItem};
use wamp_async::engine::{
    self, Core, Effect, Phase, Request, Status,
};
use wamp_async::error::{TransportError, WampError};
use wamp_async::msg::Msg;
use wamp_async::serializer::JsonSerializer;
use wamp_async::types::{Arg, AuthenticationMethod, ClientRole, PayloadValue, WampId};

type TestCore = Core<u32, u32, u32>;

fn new_core() -> TestCore {
    Core::new()
}

fn pack(m: &Msg) -> Vec<u8> {
    JsonSerializer {}.pack(m).unwrap()
}

/// Drives a join up to WELCOME and returns the session core.
fn joined_core() -> TestCore {
    let mut core = new_core();
    let (effects, st) = engine::join_realm(
        &mut core,
        "realm1".to_string(),
        vec![ClientRole::Publisher, ClientRole::Subscriber],
        None,
        vec![],
        None,
        None,
        false,
        1,
    );
    assert!(matches!(st, Status::Alive));
    assert!(matches!(&effects[0], Effect::Send(Msg::Hello { .. })));
    let (effects, st) = engine::handle_peer_msg(
        &mut core,
        Msg::Welcome { session: WampId(42), details: vec![] },
    );
    assert!(matches!(st, Status::Alive));
    assert!(matches!(effects[0], Effect::JoinOk(1, WampId(42), _)));
    core
}

#[test]
fn anonymous_join_publish_no_ack_and_leave() {
    let mut core = joined_core();

    // publish with acknowledge = false: the reply completes at once with
    // no publication ID, and exactly one PUBLISH goes out
    let (effects, _) = engine::publish(
        &mut core,
        "a.b".to_string(),
        vec![],
        None,
        None,
        7,
    );
    assert_eq!(effects.len(), 2);
    let req = match &effects[0] {
        Effect::Send(m @ Msg::Publish { request, arguments: None, arguments_kw: None, .. }) => {
            let bytes = pack(m);
            assert_eq!(bytes, format!("[16,{},{{}},\"a.b\"]", request.0).into_bytes());
            *request
        }
        other => panic!("expected a PUBLISH send, got {:?}", discriminant_name(other)),
    };
    assert!(req.0 >= 1);
    assert!(matches!(effects[1], Effect::TransOk(7, None)));

    // leave: GOODBYE with the close-realm reason, completed at once
    let (effects, st) = engine::leave_realm(&mut core, 8);
    assert!(matches!(st, Status::Alive));
    match &effects[0] {
        Effect::Send(m @ Msg::Goodbye { .. }) => {
            assert_eq!(pack(m), b"[6,{},\"wamp.close.close_realm\"]".to_vec());
        }
        _ => panic!("expected a GOODBYE send"),
    }
    assert!(matches!(effects[1], Effect::UnitOk(8)));

    // the peer acknowledges with goodbye-and-out: the engine stays alive
    let (effects, st) = engine::handle_peer_msg(
        &mut core,
        Msg::Goodbye { details: vec![], reason: "wamp.close.goodbye_and_out".to_string() },
    );
    assert!(matches!(st, Status::Alive));
    assert!(effects.is_empty());
}

fn discriminant_name(e: &Effect<u32>) -> &'static str {
    match e {
        Effect::Send(_) => "Send",
        Effect::JoinOk(..) => "JoinOk",
        Effect::JoinErr(..) => "JoinErr",
        Effect::UnitOk(_) => "UnitOk",
        Effect::UnitErr(..) => "UnitErr",
        Effect::TransOk(..) => "TransOk",
        Effect::TransErr(..) => "TransErr",
        Effect::SubOk(..) => "SubOk",
        Effect::SubErr(..) => "SubErr",
        Effect::RegOk(..) => "RegOk",
        Effect::RegErr(..) => "RegErr",
        Effect::CallOk(..) => "CallOk",
        Effect::CallErr(..) => "CallErr",
        Effect::Challenge(..) => "Challenge",
        Effect::Fatal(..) => "Fatal",
        Effect::Deliver { .. } => "Deliver",
        Effect::Invoke { .. } => "Invoke",
    }
}

#[test]
fn publish_with_acknowledge_waits_for_published() {
    let mut core = joined_core();
    let (effects, _) = engine::publish(
        &mut core,
        "a.b".to_string(),
        vec![("acknowledge".to_string(), Arg::Bool(true))],
        None,
        None,
        7,
    );
    assert_eq!(effects.len(), 1);
    let req = match &effects[0] {
        Effect::Send(Msg::Publish { request, .. }) => *request,
        _ => panic!("expected a PUBLISH send"),
    };
    // PUBLISHED arrives: the reply completes with the publication ID
    let (effects, _) = engine::handle_peer_msg(
        &mut core,
        Msg::Published { request: req, publication: WampId(900) },
    );
    assert!(matches!(effects[0], Effect::TransOk(7, Some(WampId(900)))));
    // a second PUBLISHED for the same request is spurious and dropped
    let (effects, _) = engine::handle_peer_msg(
        &mut core,
        Msg::Published { request: req, publication: WampId(901) },
    );
    assert!(effects.is_empty());
}

#[test]
fn subscribe_event_unsubscribe() {
    let mut core = joined_core();

    let (effects, _) = engine::subscribe(&mut core, "x.y".to_string(), vec![], 77, 5);
    let req = match &effects[0] {
        Effect::Send(Msg::Subscribe { request, .. }) => *request,
        _ => panic!("expected a SUBSCRIBE send"),
    };
    let (effects, _) = engine::handle_peer_msg(
        &mut core,
        Msg::Subscribed { request: req, subscription: WampId(7) },
    );
    assert!(matches!(effects[0], Effect::SubOk(5, WampId(7))));
    assert_eq!(core.get_subscription(WampId(7)), Some(&77));

    // two events arrive in order and are delivered in order, args intact
    let mut pubs = Vec::new();
    for pub_id in [100u64, 101u64] {
        let (effects, _) = engine::handle_peer_msg(
            &mut core,
            Msg::Event {
                subscription: WampId(7),
                publication: WampId(pub_id),
                details: vec![],
                arguments: Some(vec![PayloadValue::Uint(pub_id)]),
                arguments_kw: None,
            },
        );
        match &effects[0] {
            Effect::Deliver { subscription, publication, arguments, .. } => {
                assert_eq!(*subscription, WampId(7));
                assert!(matches!(arguments.as_deref().unwrap()[0], PayloadValue::Uint(p) if p == pub_id));
                pubs.push(publication.0);
            }
            _ => panic!("expected a delivery"),
        }
    }
    assert_eq!(pubs, vec![100, 101]);

    // unsubscribe: the table entry goes at once, then UNSUBSCRIBE goes out
    let (effects, _) = engine::unsubscribe(&mut core, WampId(7), 6);
    let req = match &effects[0] {
        Effect::Send(m @ Msg::Unsubscribe { request, .. }) => {
            assert_eq!(pack(m), format!("[34,{},7]", request.0).into_bytes());
            *request
        }
        _ => panic!("expected an UNSUBSCRIBE send"),
    };
    // a late event for the dropped subscription is not delivered
    let (effects, _) = engine::handle_peer_msg(
        &mut core,
        Msg::Event {
            subscription: WampId(7),
            publication: WampId(102),
            details: vec![],
            arguments: None,
            arguments_kw: None,
        },
    );
    assert!(effects.is_empty());
    let (effects, _) = engine::handle_peer_msg(&mut core, Msg::Unsubscribed { request: req });
    assert!(matches!(effects[0], Effect::TransOk(6, None)));
}

#[test]
fn call_success_and_error() {
    let mut core = joined_core();

    let (effects, _) = engine::call(
        &mut core,
        "m.echo".to_string(),
        vec![],
        Some(vec![PayloadValue::Uint(12)]),
        None,
        31,
    );
    let req = match &effects[0] {
        Effect::Send(Msg::Call { request, .. }) => *request,
        _ => panic!("expected a CALL send"),
    };
    let (effects, _) = engine::handle_peer_msg(
        &mut core,
        Msg::CallResult {
            request: req,
            details: vec![],
            arguments: Some(vec![PayloadValue::Uint(12)]),
            arguments_kw: Some(vec![]),
        },
    );
    match &effects[0] {
        Effect::CallOk(31, Some(args), Some(kw)) => {
            assert!(matches!(args[0], PayloadValue::Uint(12)));
            assert!(kw.is_empty());
        }
        _ => panic!("expected a call result"),
    }

    let (effects, _) = engine::call(&mut core, "m.missing".to_string(), vec![], None, None, 32);
    let req = match &effects[0] {
        Effect::Send(Msg::Call { request, .. }) => *request,
        _ => panic!("expected a CALL send"),
    };
    let (effects, _) = engine::handle_peer_msg(
        &mut core,
        Msg::Error {
            typ: wamp_async::msg::CALL_ID,
            request: req,
            details: vec![],
            error: "wamp.error.no_such_procedure".to_string(),
            arguments: None,
            arguments_kw: None,
        },
    );
    match &effects[0] {
        Effect::CallErr(32, WampError::ServerError(uri, details)) => {
            assert_eq!(uri, "wamp.error.no_such_procedure");
            assert!(details.is_empty());
        }
        _ => panic!("expected a server error"),
    }
}

#[test]
fn register_invocation_yield() {
    let mut core = joined_core();

    let (effects, _) = engine::register(&mut core, "m.add".to_string(), 400, 41);
    let req = match &effects[0] {
        Effect::Send(Msg::Register { request, .. }) => *request,
        _ => panic!("expected a REGISTER send"),
    };
    let (effects, _) = engine::handle_peer_msg(
        &mut core,
        Msg::Registered { request: req, registration: WampId(55) },
    );
    assert!(matches!(effects[0], Effect::RegOk(41, WampId(55))));
    assert_eq!(core.get_registration(WampId(55)), Some(&400));

    // the dealer invokes: the engine hands the work out
    let (effects, _) = engine::handle_peer_msg(
        &mut core,
        Msg::Invocation {
            request: WampId(9),
            registration: WampId(55),
            details: vec![],
            arguments: Some(vec![PayloadValue::Uint(2), PayloadValue::Uint(3)]),
            arguments_kw: None,
        },
    );
    let (request, a, b) = match &effects[0] {
        Effect::Invoke { request, arguments, .. } => {
            let args = arguments.as_deref().unwrap();
            match (&args[0], &args[1]) {
                (PayloadValue::Uint(a), PayloadValue::Uint(b)) => (*request, *a, *b),
                _ => panic!("wrong args"),
            }
        }
        _ => panic!("expected an invocation"),
    };

    // the application drove the handler: 2 + 3 = 5; the yield goes out
    let (effects, _) = engine::invoke_yield(
        &mut core,
        request,
        Ok((Some(vec![PayloadValue::Uint(a + b)]), None)),
    );
    match &effects[0] {
        Effect::Send(m @ Msg::Yield { .. }) => {
            assert_eq!(pack(m), b"[70,9,{},[5]]".to_vec());
        }
        _ => panic!("expected a YIELD send"),
    }

    // a failing handler outcome becomes an ERROR against the invocation
    let (effects, _) = engine::invoke_yield(&mut core, WampId(9), Err("lost".to_string()));
    match &effects[0] {
        Effect::Send(Msg::Error { typ, request, error, .. }) => {
            assert_eq!(*typ, wamp_async::msg::INVOCATION_ID);
            assert_eq!(*request, WampId(9));
            assert_eq!(error, "wamp.async.rs.rpc.failed");
        }
        _ => panic!("expected an ERROR send"),
    }
}

#[test]
fn cryptosign_join() {
    let seed_hex = "4e1714c5c6d79e1a44b8b8bc1e5e8431bdbd1fc2dffe17a2d607a3a8d2a2fc2d".to_string();
    let pubkey = "e5e8431bdbd1fc2dffe17a2d607a3a8d".to_string();

    let mut core = new_core();
    let (effects, _) = engine::join_realm(
        &mut core,
        "realm1".to_string(),
        vec![ClientRole::Caller],
        None,
        vec![AuthenticationMethod::CryptoSign],
        Some(vec![("pubkey".to_string(), pubkey.clone())]),
        Some("alice".to_string()),
        true,
        1,
    );
    // HELLO advertises the method and the public key, in schema order
    match &effects[0] {
        Effect::Send(m @ Msg::Hello { .. }) => {
            let expected = format!(
                "[1,\"realm1\",{{\"roles\":{{\"caller\":{{}}}},\"authmethods\":[\"cryptosign\"],\"authextra\":{{\"pubkey\":\"{}\"}},\"authid\":\"alice\"}}]",
                pubkey
            );
            assert_eq!(pack(m), expected.into_bytes());
        }
        _ => panic!("expected a HELLO send"),
    }

    // the router challenges; the engine hands the challenge out
    let challenge_hex = "aa".repeat(32);
    let (effects, st) = engine::handle_peer_msg(
        &mut core,
        Msg::Challenge {
            authentication_method: AuthenticationMethod::CryptoSign,
            extra: vec![("challenge".to_string(), Arg::Uri(challenge_hex.clone()))],
        },
    );
    assert!(matches!(st, Status::Alive));
    let extra = match &effects[0] {
        Effect::Challenge(AuthenticationMethod::CryptoSign, extra) => extra,
        _ => panic!("expected a challenge"),
    };

    // the configured handler signs the hex challenge with the secret key
    let signer = CryptoSign::new(seed_hex.clone());
    let signature = signer.generate_signature(extra);

    // the signature is the hex of the Ed25519 signed message, exactly as
    // the underlying primitive computes it
    let seed = hex::decode(&seed_hex).unwrap();
    let skey = nacl::sign::generate_keypair(&seed).skey;
    let signed = nacl::sign::sign(&hex::decode(&challenge_hex).unwrap(), &skey).unwrap();
    assert_eq!(signature, hex::encode(&signed));
    assert_eq!(signature.len(), 192);

    // the reply goes out as AUTHENTICATE, then WELCOME completes the join
    let (effects, _) = engine::handle_local_request(
        &mut core,
        Request::ChallengeReply {
            response: wamp_async::types::AuthenticationChallengeResponse::with_signature(
                signature.clone(),
            ),
        },
    );
    match &effects[0] {
        Effect::Send(Msg::Authenticate { signature: s, extra }) => {
            assert_eq!(*s, signature);
            assert!(extra.is_empty());
        }
        _ => panic!("expected an AUTHENTICATE send"),
    }
    let (effects, _) = engine::handle_peer_msg(
        &mut core,
        Msg::Welcome { session: WampId(42), details: vec![] },
    );
    assert!(matches!(effects[0], Effect::JoinOk(1, WampId(42), _)));
}

#[test]
fn join_without_handler_fails_on_challenge() {
    let mut core = new_core();
    let _ = engine::join_realm(
        &mut core,
        "realm1".to_string(),
        vec![ClientRole::Caller],
        None,
        vec![AuthenticationMethod::Ticket],
        None,
        None,
        false,
        1,
    );
    let (effects, st) = engine::handle_peer_msg(
        &mut core,
        Msg::Challenge { authentication_method: AuthenticationMethod::Ticket, extra: vec![] },
    );
    assert!(matches!(st, Status::Shutdown));
    assert!(matches!(effects[0], Effect::JoinErr(1, WampError::UnknownError(_))));
}

#[test]
fn graceful_disconnect_on_peer_goodbye() {
    let mut core = joined_core();

    // an in-flight call will be failed by the drain
    let (effects, _) = engine::call(&mut core, "m.slow".to_string(), vec![], None, None, 90);
    assert!(matches!(effects[0], Effect::Send(Msg::Call { .. })));

    // the peer says goodbye while we are joined: echo and shut down
    let (effects, st) = engine::handle_peer_msg(
        &mut core,
        Msg::Goodbye { details: vec![], reason: "wamp.close.system_shutdown".to_string() },
    );
    assert!(matches!(st, Status::Shutdown));
    match &effects[0] {
        Effect::Send(m @ Msg::Goodbye { .. }) => {
            assert_eq!(pack(m), b"[6,{},\"wamp.close.goodbye_and_out\"]".to_vec());
        }
        _ => panic!("expected a GOODBYE send"),
    }

    // the drain fails every pending reply with a disconnect error
    let effects = engine::drain(&mut core);
    assert_eq!(effects.len(), 1);
    assert!(matches!(
        effects[0],
        Effect::CallErr(90, WampError::ConnectionError(TransportError::ConnectionFailed))
    ));
    assert!(matches!(core.phase, Phase::Terminated));
}

#[test]
fn commands_fail_when_not_joined() {
    let mut core = new_core();
    let (effects, _) = engine::subscribe(&mut core, "x".to_string(), vec![], 1, 2);
    assert!(matches!(effects[0], Effect::SubErr(2, WampError::UnknownError(_))));
    let (effects, _) = engine::publish(&mut core, "x".to_string(), vec![], None, None, 3);
    assert!(matches!(effects[0], Effect::TransErr(3, WampError::UnknownError(_))));
    let (effects, _) = engine::leave_realm(&mut core, 4);
    assert!(matches!(effects[0], Effect::UnitErr(4, WampError::UnknownError(_))));
}

#[test]
fn spurious_replies_are_dropped() {
    let mut core = joined_core();
    let (effects, _) = engine::handle_peer_msg(
        &mut core,
        Msg::Subscribed { request: WampId(999), subscription: WampId(5) },
    );
    assert!(effects.is_empty());
    let (effects, _) = engine::handle_peer_msg(
        &mut core,
        Msg::CallResult { request: WampId(998), details: vec![], arguments: None, arguments_kw: None },
    );
    assert!(effects.is_empty());
}

#[test]
fn abort_surfaces_a_protocol_error() {
    let mut core = new_core();
    let _ = engine::join_realm(
        &mut core,
        "realm1".to_string(),
        vec![ClientRole::Caller],
        None,
        vec![],
        None,
        None,
        false,
        1,
    );
    let (_, _) = engine::handle_peer_msg(
        &mut core,
        Msg::Welcome { session: WampId(42), details: vec![] },
    );
    let (effects, st) = engine::handle_peer_msg(
        &mut core,
        Msg::Abort { details: vec![], reason: "wamp.error.no_such_realm".to_string() },
    );
    assert!(matches!(st, Status::Shutdown));
    match &effects[0] {
        Effect::Fatal(WampError::ProtocolError(s)) => {
            assert_eq!(s, "the router aborted the session: wamp.error.no_such_realm");
        }
        _ => panic!("expected a fatal protocol error"),
    }
    assert!(matches!(core.phase, Phase::Terminated));
}

#[test]
fn subscribe_carries_the_match_option() {
    let mut core = joined_core();
    let opts = SubscriptionOptionItem::empty().with_match("prefix");
    let dict = opts.get_dict().unwrap();
    let (effects, _) = engine::subscribe(&mut core, "x".to_string(), dict, 1, 2);
    match &effects[0] {
        Effect::Send(m @ Msg::Subscribe { request, .. }) => {
            let expected = format!("[32,{},{{\"match\":\"prefix\"}},\"x\"]", request.0);
            assert_eq!(pack(m), expected.into_bytes());
        }
        _ => panic!("expected a SUBSCRIBE send"),
    }
}

#[test]
fn option_builder_overwrites_an_existing_key() {
    let b = SubscriptionOptionItem::empty().with_match("prefix").with_match("wildcard");
    let dict = b.get_dict().unwrap();
    assert_eq!(dict.len(), 1);
    match wamp_async::value::dict_get(&dict, "match") {
        Some(Arg::Text(s)) => assert_eq!(s, "wildcard"),
        _ => panic!("expected the overwritten match option"),
    }
}
