//! Conversion between messages and their positional wire tuples.
//!
//! Each message kind encodes as a tuple whose first element is the numeric
//! message code, followed by its fields in schema order. Optional trailing
//! payload fields follow the WAMP rule: when keyword arguments are present,
//! positional arguments are present too (an empty array stands in); when
//! neither is present, both are omitted.

use vstd::prelude::*;
use crate::msg::{
    view_args, view_kwargs, Msg, MsgView, ABORT_ID, AUTHENTICATE_ID, CALL_ID,
    CHALLENGE_ID, ERROR_ID, EVENT_ID, GOODBYE_ID, HELLO_ID, INVOCATION_ID, PUBLISHED_ID,
    PUBLISH_ID, REGISTERED_ID, REGISTER_ID, RESULT_ID, SUBSCRIBED_ID, SUBSCRIBE_ID,
    UNREGISTERED_ID, UNREGISTER_ID, UNSUBSCRIBED_ID, UNSUBSCRIBE_ID, WELCOME_ID, YIELD_ID,
};
use crate::types::{
    AuthenticationMethod, PayloadValue, WampArgs, WampDict, WampId, WampKwArgs,
};
use crate::value::{
    clone_val_list, clone_val_obj, lemma_view_arg_dict, lemma_view_val_obj, lemma_view_val_seq,
    view_dict, view_val, view_val_obj, view_val_seq, ArgView, ValView,
};
use crate::wire::{
    dict_norm, dict_of_wire, dict_to_wire, lemma_dict_of_wire_char, lemma_dict_wire_roundtrip,
    lemma_wire_dict_roundtrip, lemma_wire_of_dict_char, wire_obj_to_dict, wire_of_dict,
};

verus! {

/// The trailing payload elements of a tuple: both, one, or none.
pub open spec fn payload_tail(
    a: Option<Seq<ValView>>,
    k: Option<Seq<(Seq<char>, ValView)>>,
) -> Seq<ValView> {
    match k {
        Option::Some(kw) => seq![
            ValView::List(
                match a {
                    Option::Some(l) => l,
                    Option::None => Seq::empty(),
                },
            ),
            ValView::Object(kw),
        ],
        Option::None => match a {
            Option::Some(l) => seq![ValView::List(l)],
            Option::None => Seq::empty(),
        },
    }
}

/// The wire tuple of a message.
pub open spec fn wire_of_msg(m: MsgView) -> Seq<ValView> {
    match m {
        MsgView::Hello { realm, details } => seq![
            ValView::Uint(HELLO_ID),
            ValView::Text(realm),
            ValView::Object(wire_of_dict(details)),
        ],
        MsgView::Welcome { session, details } => seq![
            ValView::Uint(WELCOME_ID),
            ValView::Uint(session),
            ValView::Object(wire_of_dict(details)),
        ],
        MsgView::Abort { details, reason } => seq![
            ValView::Uint(ABORT_ID),
            ValView::Object(wire_of_dict(details)),
            ValView::Text(reason),
        ],
        MsgView::Challenge { authentication_method, extra } => seq![
            ValView::Uint(CHALLENGE_ID),
            ValView::Text(authentication_method.spec_str()),
            ValView::Object(wire_of_dict(extra)),
        ],
        MsgView::Authenticate { signature, extra } => seq![
            ValView::Uint(AUTHENTICATE_ID),
            ValView::Text(signature),
            ValView::Object(wire_of_dict(extra)),
        ],
        MsgView::Goodbye { details, reason } => seq![
            ValView::Uint(GOODBYE_ID),
            ValView::Object(wire_of_dict(details)),
            ValView::Text(reason),
        ],
        MsgView::Error { typ, request, details, error, arguments, arguments_kw } => seq![
            ValView::Uint(ERROR_ID),
            ValView::Uint(typ),
            ValView::Uint(request),
            ValView::Object(wire_of_dict(details)),
            ValView::Text(error),
        ] + payload_tail(arguments, arguments_kw),
        MsgView::Publish { request, options, topic, arguments, arguments_kw } => seq![
            ValView::Uint(PUBLISH_ID),
            ValView::Uint(request),
            ValView::Object(wire_of_dict(options)),
            ValView::Text(topic),
        ] + payload_tail(arguments, arguments_kw),
        MsgView::Published { request, publication } => seq![
            ValView::Uint(PUBLISHED_ID),
            ValView::Uint(request),
            ValView::Uint(publication),
        ],
        MsgView::Subscribe { request, options, topic } => seq![
            ValView::Uint(SUBSCRIBE_ID),
            ValView::Uint(request),
            ValView::Object(wire_of_dict(options)),
            ValView::Text(topic),
        ],
        MsgView::Subscribed { request, subscription } => seq![
            ValView::Uint(SUBSCRIBED_ID),
            ValView::Uint(request),
            ValView::Uint(subscription),
        ],
        MsgView::Unsubscribe { request, subscription } => seq![
            ValView::Uint(UNSUBSCRIBE_ID),
            ValView::Uint(request),
            ValView::Uint(subscription),
        ],
        MsgView::Unsubscribed { request } => seq![
            ValView::Uint(UNSUBSCRIBED_ID),
            ValView::Uint(request),
        ],
        MsgView::Event { subscription, publication, details, arguments, arguments_kw } => seq![
            ValView::Uint(EVENT_ID),
            ValView::Uint(subscription),
            ValView::Uint(publication),
            ValView::Object(wire_of_dict(details)),
        ] + payload_tail(arguments, arguments_kw),
        MsgView::Call { request, options, procedure, arguments, arguments_kw } => seq![
            ValView::Uint(CALL_ID),
            ValView::Uint(request),
            ValView::Object(wire_of_dict(options)),
            ValView::Text(procedure),
        ] + payload_tail(arguments, arguments_kw),
        MsgView::CallResult { request, details, arguments, arguments_kw } => seq![
            ValView::Uint(RESULT_ID),
            ValView::Uint(request),
            ValView::Object(wire_of_dict(details)),
        ] + payload_tail(arguments, arguments_kw),
        MsgView::Register { request, options, procedure } => seq![
            ValView::Uint(REGISTER_ID),
            ValView::Uint(request),
            ValView::Object(wire_of_dict(options)),
            ValView::Text(procedure),
        ],
        MsgView::Registered { request, registration } => seq![
            ValView::Uint(REGISTERED_ID),
            ValView::Uint(request),
            ValView::Uint(registration),
        ],
        MsgView::Unregister { request, registration } => seq![
            ValView::Uint(UNREGISTER_ID),
            ValView::Uint(request),
            ValView::Uint(registration),
        ],
        MsgView::Unregistered { request } => seq![
            ValView::Uint(UNREGISTERED_ID),
            ValView::Uint(request),
        ],
        MsgView::Invocation { request, registration, details, arguments, arguments_kw } => seq![
            ValView::Uint(INVOCATION_ID),
            ValView::Uint(request),
            ValView::Uint(registration),
            ValView::Object(wire_of_dict(details)),
        ] + payload_tail(arguments, arguments_kw),
        MsgView::Yield { request, options, arguments, arguments_kw } => seq![
            ValView::Uint(YIELD_ID),
            ValView::Uint(request),
            ValView::Object(wire_of_dict(options)),
        ] + payload_tail(arguments, arguments_kw),
    }
}

/// A request or resource ID on the wire: a positive integer.
pub open spec fn as_id(v: ValView) -> Option<u64> {
    match v {
        ValView::Uint(n) => if n >= 1 {
            Option::Some(n)
        } else {
            Option::None
        },
        _ => Option::None,
    }
}

/// A plain non-negative integer on the wire.
pub open spec fn as_u64(v: ValView) -> Option<u64> {
    match v {
        ValView::Uint(n) => Option::Some(n),
        _ => Option::None,
    }
}

/// A string on the wire.
pub open spec fn as_text(v: ValView) -> Option<Seq<char>> {
    match v {
        ValView::Text(s) => Option::Some(s),
        _ => Option::None,
    }
}

/// A protocol dictionary on the wire: an object whose values all decode.
pub open spec fn as_dict(v: ValView) -> Option<Seq<(Seq<char>, ArgView)>> {
    match v {
        ValView::Object(o) => dict_of_wire(o),
        _ => Option::None,
    }
}

/// The authentication method a wire tag names, if any.
pub open spec fn authmethod_of_text(s: Seq<char>) -> Option<AuthenticationMethod> {
    if s == "anonymous"@ {
        Option::Some(AuthenticationMethod::Anonymous)
    } else if s == "wampcra"@ {
        Option::Some(AuthenticationMethod::WampCra)
    } else if s == "ticket"@ {
        Option::Some(AuthenticationMethod::Ticket)
    } else if s == "cryptosign"@ {
        Option::Some(AuthenticationMethod::CryptoSign)
    } else {
        Option::None
    }
}

/// The trailing payload of a tuple whose fixed fields end at `base`: none,
/// an argument list, or an argument list followed by a keyword map.
pub open spec fn tail_of(t: Seq<ValView>, base: int) -> Option<
    (Option<Seq<ValView>>, Option<Seq<(Seq<char>, ValView)>>),
> {
    if t.len() == base {
        Option::Some((Option::None, Option::None))
    } else if t.len() == base + 1 {
        match t[base] {
            ValView::List(l) => Option::Some((Option::Some(l), Option::None)),
            _ => Option::None,
        }
    } else if t.len() == base + 2 {
        match (t[base], t[base + 1]) {
            (ValView::List(l), ValView::Object(o)) => Option::Some(
                (Option::Some(l), Option::Some(o)),
            ),
            _ => Option::None,
        }
    } else {
        Option::None
    }
}

/// The message a wire tuple decodes to, if it is well formed.
pub open spec fn msg_of_wire(t: Seq<ValView>) -> Option<MsgView> {
    if t.len() < 2 {
        Option::None
    } else {
        match as_u64(t[0]) {
            Option::None => Option::None,
            Option::Some(code) => if code == HELLO_ID {
                if t.len() == 3 {
                    match (as_text(t[1]), as_dict(t[2])) {
                        (Option::Some(realm), Option::Some(details)) => Option::Some(
                            MsgView::Hello { realm, details },
                        ),
                        _ => Option::None,
                    }
                } else {
                    Option::None
                }
            } else if code == WELCOME_ID {
                if t.len() == 3 {
                    match (as_id(t[1]), as_dict(t[2])) {
                        (Option::Some(session), Option::Some(details)) => Option::Some(
                            MsgView::Welcome { session, details },
                        ),
                        _ => Option::None,
                    }
                } else {
                    Option::None
                }
            } else if code == ABORT_ID {
                if t.len() == 3 {
                    match (as_dict(t[1]), as_text(t[2])) {
                        (Option::Some(details), Option::Some(reason)) => Option::Some(
                            MsgView::Abort { details, reason },
                        ),
                        _ => Option::None,
                    }
                } else {
                    Option::None
                }
            } else if code == CHALLENGE_ID {
                if t.len() == 3 {
                    match (as_text(t[1]), as_dict(t[2])) {
                        (Option::Some(method), Option::Some(extra)) => match authmethod_of_text(
                            method,
                        ) {
                            Option::Some(authentication_method) => Option::Some(
                                MsgView::Challenge { authentication_method, extra },
                            ),
                            Option::None => Option::None,
                        },
                        _ => Option::None,
                    }
                } else {
                    Option::None
                }
            } else if code == AUTHENTICATE_ID {
                if t.len() == 3 {
                    match (as_text(t[1]), as_dict(t[2])) {
                        (Option::Some(signature), Option::Some(extra)) => Option::Some(
                            MsgView::Authenticate { signature, extra },
                        ),
                        _ => Option::None,
                    }
                } else {
                    Option::None
                }
            } else if code == GOODBYE_ID {
                if t.len() == 3 {
                    match (as_dict(t[1]), as_text(t[2])) {
                        (Option::Some(details), Option::Some(reason)) => Option::Some(
                            MsgView::Goodbye { details, reason },
                        ),
                        _ => Option::None,
                    }
                } else {
                    Option::None
                }
            } else if code == ERROR_ID {
                if t.len() >= 5 {
                    match (as_u64(t[1]), as_id(t[2]), as_dict(t[3]), as_text(t[4]), tail_of(t, 5)) {
                        (
                            Option::Some(typ),
                            Option::Some(request),
                            Option::Some(details),
                            Option::Some(error),
                            Option::Some((arguments, arguments_kw)),
                        ) => Option::Some(
                            MsgView::Error { typ, request, details, error, arguments, arguments_kw },
                        ),
                        _ => Option::None,
                    }
                } else {
                    Option::None
                }
            } else if code == PUBLISH_ID {
                if t.len() >= 4 {
                    match (as_id(t[1]), as_dict(t[2]), as_text(t[3]), tail_of(t, 4)) {
                        (
                            Option::Some(request),
                            Option::Some(options),
                            Option::Some(topic),
                            Option::Some((arguments, arguments_kw)),
                        ) => Option::Some(
                            MsgView::Publish { request, options, topic, arguments, arguments_kw },
                        ),
                        _ => Option::None,
                    }
                } else {
                    Option::None
                }
            } else if code == PUBLISHED_ID {
                if t.len() == 3 {
                    match (as_id(t[1]), as_id(t[2])) {
                        (Option::Some(request), Option::Some(publication)) => Option::Some(
                            MsgView::Published { request, publication },
                        ),
                        _ => Option::None,
                    }
                } else {
                    Option::None
                }
            } else if code == SUBSCRIBE_ID {
                if t.len() == 4 {
                    match (as_id(t[1]), as_dict(t[2]), as_text(t[3])) {
                        (
                            Option::Some(request),
                            Option::Some(options),
                            Option::Some(topic),
                        ) => Option::Some(MsgView::Subscribe { request, options, topic }),
                        _ => Option::None,
                    }
                } else {
                    Option::None
                }
            } else if code == SUBSCRIBED_ID {
                if t.len() == 3 {
                    match (as_id(t[1]), as_id(t[2])) {
                        (Option::Some(request), Option::Some(subscription)) => Option::Some(
                            MsgView::Subscribed { request, subscription },
                        ),
                        _ => Option::None,
                    }
                } else {
                    Option::None
                }
            } else if code == UNSUBSCRIBE_ID {
                if t.len() == 3 {
                    match (as_id(t[1]), as_id(t[2])) {
                        (Option::Some(request), Option::Some(subscription)) => Option::Some(
                            MsgView::Unsubscribe { request, subscription },
                        ),
                        _ => Option::None,
                    }
                } else {
                    Option::None
                }
            } else if code == UNSUBSCRIBED_ID {
                if t.len() == 2 {
                    match as_id(t[1]) {
                        Option::Some(request) => Option::Some(MsgView::Unsubscribed { request }),
                        _ => Option::None,
                    }
                } else {
                    Option::None
                }
            } else if code == EVENT_ID {
                if t.len() >= 4 {
                    match (as_id(t[1]), as_id(t[2]), as_dict(t[3]), tail_of(t, 4)) {
                        (
                            Option::Some(subscription),
                            Option::Some(publication),
                            Option::Some(details),
                            Option::Some((arguments, arguments_kw)),
                        ) => Option::Some(
                            MsgView::Event {
                                subscription,
                                publication,
                                details,
                                arguments,
                                arguments_kw,
                            },
                        ),
                        _ => Option::None,
                    }
                } else {
                    Option::None
                }
            } else if code == CALL_ID {
                if t.len() >= 4 {
                    match (as_id(t[1]), as_dict(t[2]), as_text(t[3]), tail_of(t, 4)) {
                        (
                            Option::Some(request),
                            Option::Some(options),
                            Option::Some(procedure),
                            Option::Some((arguments, arguments_kw)),
                        ) => Option::Some(
                            MsgView::Call { request, options, procedure, arguments, arguments_kw },
                        ),
                        _ => Option::None,
                    }
                } else {
                    Option::None
                }
            } else if code == RESULT_ID {
                if t.len() >= 3 {
                    match (as_id(t[1]), as_dict(t[2]), tail_of(t, 3)) {
                        (
                            Option::Some(request),
                            Option::Some(details),
                            Option::Some((arguments, arguments_kw)),
                        ) => Option::Some(
                            MsgView::CallResult { request, details, arguments, arguments_kw },
                        ),
                        _ => Option::None,
                    }
                } else {
                    Option::None
                }
            } else if code == REGISTER_ID {
                if t.len() == 4 {
                    match (as_id(t[1]), as_dict(t[2]), as_text(t[3])) {
                        (
                            Option::Some(request),
                            Option::Some(options),
                            Option::Some(procedure),
                        ) => Option::Some(MsgView::Register { request, options, procedure }),
                        _ => Option::None,
                    }
                } else {
                    Option::None
                }
            } else if code == REGISTERED_ID {
                if t.len() == 3 {
                    match (as_id(t[1]), as_id(t[2])) {
                        (Option::Some(request), Option::Some(registration)) => Option::Some(
                            MsgView::Registered { request, registration },
                        ),
                        _ => Option::None,
                    }
                } else {
                    Option::None
                }
            } else if code == UNREGISTER_ID {
                if t.len() == 3 {
                    match (as_id(t[1]), as_id(t[2])) {
                        (Option::Some(request), Option::Some(registration)) => Option::Some(
                            MsgView::Unregister { request, registration },
                        ),
                        _ => Option::None,
                    }
                } else {
                    Option::None
                }
            } else if code == UNREGISTERED_ID {
                if t.len() == 2 {
                    match as_id(t[1]) {
                        Option::Some(request) => Option::Some(MsgView::Unregistered { request }),
                        _ => Option::None,
                    }
                } else {
                    Option::None
                }
            } else if code == INVOCATION_ID {
                if t.len() >= 4 {
                    match (as_id(t[1]), as_id(t[2]), as_dict(t[3]), tail_of(t, 4)) {
                        (
                            Option::Some(request),
                            Option::Some(registration),
                            Option::Some(details),
                            Option::Some((arguments, arguments_kw)),
                        ) => Option::Some(
                            MsgView::Invocation {
                                request,
                                registration,
                                details,
                                arguments,
                                arguments_kw,
                            },
                        ),
                        _ => Option::None,
                    }
                } else {
                    Option::None
                }
            } else if code == YIELD_ID {
                if t.len() >= 3 {
                    match (as_id(t[1]), as_dict(t[2]), tail_of(t, 3)) {
                        (
                            Option::Some(request),
                            Option::Some(options),
                            Option::Some((arguments, arguments_kw)),
                        ) => Option::Some(
                            MsgView::Yield { request, options, arguments, arguments_kw },
                        ),
                        _ => Option::None,
                    }
                } else {
                    Option::None
                }
            } else {
                Option::None
            },
        }
    }
}

/// Wraps a string as a wire value.
fn text_val(s: &String) -> (v: PayloadValue)
    ensures
        v@ == ValView::Text(s@),
{
    PayloadValue::Text(s.clone())
}

/// Encodes a protocol dictionary as a wire object.
fn dict_val(d: &WampDict) -> (v: PayloadValue)
    ensures
        v@ == ValView::Object(wire_of_dict(view_dict(*d))),
{
    let o = dict_to_wire(d);
    proof {
        lemma_view_arg_dict(d@);
        lemma_wire_of_dict_char(view_dict(*d));
        lemma_view_val_obj(o@);
        assert(view_val_obj(o@) =~= wire_of_dict(view_dict(*d)));
    }
    PayloadValue::Object(o)
}

/// Copies an argument list into a wire list.
fn args_val(a: &WampArgs) -> (v: PayloadValue)
    ensures
        v@ == ValView::List(view_val_seq(a@)),
{
    let l = clone_val_list(a);
    proof {
        lemma_view_val_seq(l@);
        lemma_view_val_seq(a@);
        assert(view_val_seq(l@) =~= view_val_seq(a@));
    }
    PayloadValue::List(l)
}

/// Copies a keyword-argument map into a wire object.
fn kwargs_val(k: &WampKwArgs) -> (v: PayloadValue)
    ensures
        v@ == ValView::Object(view_val_obj(k@)),
{
    let o = clone_val_obj(k);
    proof {
        lemma_view_val_obj(o@);
        lemma_view_val_obj(k@);
        assert(view_val_obj(o@) =~= view_val_obj(k@));
    }
    PayloadValue::Object(o)
}

/// Appends the trailing payload elements: when keyword arguments are
/// present an argument list always precedes them, an empty one standing in
/// when none was given.
fn push_payload(t: &mut Vec<PayloadValue>, a: &Option<WampArgs>, k: &Option<WampKwArgs>)
    ensures
        view_val_seq(final(t)@) == view_val_seq(old(t)@) + payload_tail(
            view_args(*a),
            view_kwargs(*k),
        ),
{
    proof {
        lemma_view_val_seq(t@);
    }
    let ghost head = view_val_seq(t@);
    match k {
        Option::Some(kw) => {
            match a {
                Option::Some(l) => {
                    t.push(args_val(l));
                },
                Option::None => {
                    t.push(PayloadValue::List(Vec::new()));
                },
            }
            t.push(kwargs_val(kw));
        },
        Option::None => {
            match a {
                Option::Some(l) => {
                    t.push(args_val(l));
                },
                Option::None => {},
            }
        },
    }
    proof {
        lemma_view_val_seq(t@);
        assert(view_val_seq(t@) =~= head + payload_tail(view_args(*a), view_kwargs(*k)));
    }
}

/// Encodes a message into its positional wire tuple.
#[verifier::rlimit(50)]
pub fn msg_to_wire(m: &Msg) -> (t: Vec<PayloadValue>)
    ensures
        view_val_seq(t@) == wire_of_msg(m@),
{
    let mut t: Vec<PayloadValue> = Vec::new();
    match m {
        Msg::Hello { realm, details } => {
            t.push(PayloadValue::Uint(HELLO_ID));
            t.push(text_val(realm));
            t.push(dict_val(details));
        },
        Msg::Welcome { session, details } => {
            t.push(PayloadValue::Uint(WELCOME_ID));
            t.push(PayloadValue::Uint(session.0));
            t.push(dict_val(details));
        },
        Msg::Abort { details, reason } => {
            t.push(PayloadValue::Uint(ABORT_ID));
            t.push(dict_val(details));
            t.push(text_val(reason));
        },
        Msg::Challenge { authentication_method, extra } => {
            t.push(PayloadValue::Uint(CHALLENGE_ID));
            t.push(PayloadValue::Text(String::from_str(authentication_method.to_str())));
            t.push(dict_val(extra));
        },
        Msg::Authenticate { signature, extra } => {
            t.push(PayloadValue::Uint(AUTHENTICATE_ID));
            t.push(text_val(signature));
            t.push(dict_val(extra));
        },
        Msg::Goodbye { details, reason } => {
            t.push(PayloadValue::Uint(GOODBYE_ID));
            t.push(dict_val(details));
            t.push(text_val(reason));
        },
        Msg::Error { typ, request, details, error, arguments, arguments_kw } => {
            t.push(PayloadValue::Uint(ERROR_ID));
            t.push(PayloadValue::Uint(*typ));
            t.push(PayloadValue::Uint(request.0));
            t.push(dict_val(details));
            t.push(text_val(error));
            proof {
                lemma_view_val_seq(t@);
            }
            push_payload(&mut t, arguments, arguments_kw);
        },
        Msg::Publish { request, options, topic, arguments, arguments_kw } => {
            t.push(PayloadValue::Uint(PUBLISH_ID));
            t.push(PayloadValue::Uint(request.0));
            t.push(dict_val(options));
            t.push(text_val(topic));
            proof {
                lemma_view_val_seq(t@);
            }
            push_payload(&mut t, arguments, arguments_kw);
        },
        Msg::Published { request, publication } => {
            t.push(PayloadValue::Uint(PUBLISHED_ID));
            t.push(PayloadValue::Uint(request.0));
            t.push(PayloadValue::Uint(publication.0));
        },
        Msg::Subscribe { request, options, topic } => {
            t.push(PayloadValue::Uint(SUBSCRIBE_ID));
            t.push(PayloadValue::Uint(request.0));
            t.push(dict_val(options));
            t.push(text_val(topic));
        },
        Msg::Subscribed { request, subscription } => {
            t.push(PayloadValue::Uint(SUBSCRIBED_ID));
            t.push(PayloadValue::Uint(request.0));
            t.push(PayloadValue::Uint(subscription.0));
        },
        Msg::Unsubscribe { request, subscription } => {
            t.push(PayloadValue::Uint(UNSUBSCRIBE_ID));
            t.push(PayloadValue::Uint(request.0));
            t.push(PayloadValue::Uint(subscription.0));
        },
        Msg::Unsubscribed { request } => {
            t.push(PayloadValue::Uint(UNSUBSCRIBED_ID));
            t.push(PayloadValue::Uint(request.0));
        },
        Msg::Event { subscription, publication, details, arguments, arguments_kw } => {
            t.push(PayloadValue::Uint(EVENT_ID));
            t.push(PayloadValue::Uint(subscription.0));
            t.push(PayloadValue::Uint(publication.0));
            t.push(dict_val(details));
            proof {
                lemma_view_val_seq(t@);
            }
            push_payload(&mut t, arguments, arguments_kw);
        },
        Msg::Call { request, options, procedure, arguments, arguments_kw } => {
            t.push(PayloadValue::Uint(CALL_ID));
            t.push(PayloadValue::Uint(request.0));
            t.push(dict_val(options));
            t.push(text_val(procedure));
            proof {
                lemma_view_val_seq(t@);
            }
            push_payload(&mut t, arguments, arguments_kw);
        },
        Msg::CallResult { request, details, arguments, arguments_kw } => {
            t.push(PayloadValue::Uint(RESULT_ID));
            t.push(PayloadValue::Uint(request.0));
            t.push(dict_val(details));
            proof {
                lemma_view_val_seq(t@);
            }
            push_payload(&mut t, arguments, arguments_kw);
        },
        Msg::Register { request, options, procedure } => {
            t.push(PayloadValue::Uint(REGISTER_ID));
            t.push(PayloadValue::Uint(request.0));
            t.push(dict_val(options));
            t.push(text_val(procedure));
        },
        Msg::Registered { request, registration } => {
            t.push(PayloadValue::Uint(REGISTERED_ID));
            t.push(PayloadValue::Uint(request.0));
            t.push(PayloadValue::Uint(registration.0));
        },
        Msg::Unregister { request, registration } => {
            t.push(PayloadValue::Uint(UNREGISTER_ID));
            t.push(PayloadValue::Uint(request.0));
            t.push(PayloadValue::Uint(registration.0));
        },
        Msg::Unregistered { request } => {
            t.push(PayloadValue::Uint(UNREGISTERED_ID));
            t.push(PayloadValue::Uint(request.0));
        },
        Msg::Invocation { request, registration, details, arguments, arguments_kw } => {
            t.push(PayloadValue::Uint(INVOCATION_ID));
            t.push(PayloadValue::Uint(request.0));
            t.push(PayloadValue::Uint(registration.0));
            t.push(dict_val(details));
            proof {
                lemma_view_val_seq(t@);
            }
            push_payload(&mut t, arguments, arguments_kw);
        },
        Msg::Yield { request, options, arguments, arguments_kw } => {
            t.push(PayloadValue::Uint(YIELD_ID));
            t.push(PayloadValue::Uint(request.0));
            t.push(dict_val(options));
            proof {
                lemma_view_val_seq(t@);
            }
            push_payload(&mut t, arguments, arguments_kw);
        },
    }
    proof {
        lemma_view_val_seq(t@);
        assert(view_val_seq(t@) =~= wire_of_msg(m@));
    }
    t
}

/// Reads a wire value as an ID.
fn get_id(v: &PayloadValue) -> (r: Option<WampId>)
    ensures
        match r {
            Option::Some(id) => as_id(v@) == Option::Some(id.0),
            Option::None => as_id(v@) is None,
        },
{
    match v {
        PayloadValue::Uint(n) => if *n >= 1 {
            Option::Some(WampId(*n))
        } else {
            Option::None
        },
        _ => Option::None,
    }
}

/// Reads a wire value as a plain integer.
fn get_u64(v: &PayloadValue) -> (r: Option<u64>)
    ensures
        match r {
            Option::Some(n) => as_u64(v@) == Option::Some(n),
            Option::None => as_u64(v@) is None,
        },
{
    match v {
        PayloadValue::Uint(n) => Option::Some(*n),
        _ => Option::None,
    }
}

/// Reads a wire value as a string.
fn get_text(v: &PayloadValue) -> (r: Option<String>)
    ensures
        match r {
            Option::Some(s) => as_text(v@) == Option::Some(s@),
            Option::None => as_text(v@) is None,
        },
{
    match v {
        PayloadValue::Text(s) => Option::Some(s.clone()),
        _ => Option::None,
    }
}

/// Reads a wire value as a protocol dictionary.
fn get_dict(v: &PayloadValue) -> (r: Option<WampDict>)
    ensures
        match r {
            Option::Some(d) => as_dict(v@) == Option::Some(view_dict(d)),
            Option::None => as_dict(v@) is None,
        },
{
    match v {
        PayloadValue::Object(o) => {
            proof {
                lemma_view_val_obj(o@);
                lemma_dict_of_wire_char(view_val_obj(o@));
            }
            match wire_obj_to_dict(o) {
                Option::Some(d) => {
                    proof {
                        lemma_view_arg_dict(d@);
                        let w = view_val_obj(o@);
                        assert forall|i: int| 0 <= i < w.len() implies (#[trigger] crate::wire::arg_of_wire(
                            w[i].1,
                        )) is Some by {
                            assert(w[i] == (o@[i].0@, view_val(o@[i].1)));
                        }
                        assert(dict_of_wire(w) is Some);
                        assert forall|i: int| 0 <= i < w.len() implies #[trigger] dict_of_wire(
                            w,
                        )->Some_0[i] == view_dict(d)[i] by {
                            assert(w[i] == (o@[i].0@, view_val(o@[i].1)));
                            assert(dict_of_wire(w)->Some_0[i] == (w[i].0, crate::wire::arg_of_wire(
                                w[i].1,
                            )->Some_0));
                        }
                        assert(view_dict(d) =~= dict_of_wire(w)->Some_0);
                    }
                    Option::Some(d)
                },
                Option::None => {
                    proof {
                        let w = view_val_obj(o@);
                        let i = choose|i: int|
                            0 <= i < o@.len() && (#[trigger] crate::wire::arg_of_wire(
                                view_val(o@[i].1),
                            )) is None;
                        assert(w[i] == (o@[i].0@, view_val(o@[i].1)));
                        if dict_of_wire(w) is Some {
                            assert(crate::wire::arg_of_wire(w[i].1) is Some);
                            assert(false);
                        }
                    }
                    Option::None
                },
            }
        },
        _ => Option::None,
    }
}

/// Reads the wire tag of an authentication method.
fn get_authmethod(s: &String) -> (r: Option<AuthenticationMethod>)
    ensures
        r == authmethod_of_text(s@),
{
    if crate::value::str_eq(s.as_str(), "anonymous") {
        Option::Some(AuthenticationMethod::Anonymous)
    } else if crate::value::str_eq(s.as_str(), "wampcra") {
        Option::Some(AuthenticationMethod::WampCra)
    } else if crate::value::str_eq(s.as_str(), "ticket") {
        Option::Some(AuthenticationMethod::Ticket)
    } else if crate::value::str_eq(s.as_str(), "cryptosign") {
        Option::Some(AuthenticationMethod::CryptoSign)
    } else {
        Option::None
    }
}

/// Reads the trailing payload of a tuple whose fixed fields end at `base`.
fn parse_tail(t: &Vec<PayloadValue>, base: usize) -> (r: Option<
    (Option<WampArgs>, Option<WampKwArgs>),
>)
    requires
        base <= t@.len(),
    ensures
        match r {
            Option::Some(p) => tail_of(view_val_seq(t@), base as int) == Option::Some(
                (view_args(p.0), view_kwargs(p.1)),
            ),
            Option::None => tail_of(view_val_seq(t@), base as int) is None,
        },
{
    proof {
        lemma_view_val_seq(t@);
    }
    let n = t.len();
    if n == base {
        Option::Some((Option::None, Option::None))
    } else if n == base + 1 {
        match &t[base] {
            PayloadValue::List(l) => {
                let a = clone_val_list(l);
                proof {
                    lemma_view_val_seq(a@);
                    lemma_view_val_seq(l@);
                    assert(view_val_seq(a@) =~= view_val_seq(l@));
                }
                Option::Some((Option::Some(a), Option::None))
            },
            _ => Option::None,
        }
    } else if n == base + 2 {
        match (&t[base], &t[base + 1]) {
            (PayloadValue::List(l), PayloadValue::Object(o)) => {
                let a = clone_val_list(l);
                let k = clone_val_obj(o);
                proof {
                    lemma_view_val_seq(a@);
                    lemma_view_val_seq(l@);
                    assert(view_val_seq(a@) =~= view_val_seq(l@));
                    lemma_view_val_obj(k@);
                    lemma_view_val_obj(o@);
                    assert(view_val_obj(k@) =~= view_val_obj(o@));
                }
                Option::Some((Option::Some(a), Option::Some(k)))
            },
            _ => Option::None,
        }
    } else {
        Option::None
    }
}

/// Decodes a positional wire tuple into a message. Malformed tuples are
/// rejected: an unknown message code, a wrong element count, a field of
/// the wrong shape, or a dictionary value without a protocol form.
#[verifier::rlimit(100)]
pub fn wire_to_msg(t: &Vec<PayloadValue>) -> (r: Result<Msg, crate::error::SerializerError>)
    ensures
        match r {
            Result::Ok(m) => msg_of_wire(view_val_seq(t@)) == Option::Some(m@),
            Result::Err(e) => msg_of_wire(view_val_seq(t@)) is None && e matches
                crate::error::SerializerError::Deserialization(_),
        },
{
    proof {
        lemma_view_val_seq(t@);
    }
    let bad = || -> (e: crate::error::SerializerError)
        ensures
            e matches crate::error::SerializerError::Deserialization(_),
        {
            crate::error::SerializerError::Deserialization(
                String::from_str("malformed message tuple"),
            )
        };
    let n = t.len();
    if n < 2 {
        return Result::Err(bad());
    }
    let code = match get_u64(&t[0]) {
        Option::Some(c) => c,
        Option::None => {
            return Result::Err(bad());
        },
    };
    if code == HELLO_ID {
        if n != 3 {
            return Result::Err(bad());
        }
        match (get_text(&t[1]), get_dict(&t[2])) {
            (Option::Some(realm), Option::Some(details)) => Result::Ok(
                Msg::Hello { realm, details },
            ),
            _ => Result::Err(bad()),
        }
    } else if code == WELCOME_ID {
        if n != 3 {
            return Result::Err(bad());
        }
        match (get_id(&t[1]), get_dict(&t[2])) {
            (Option::Some(session), Option::Some(details)) => Result::Ok(
                Msg::Welcome { session, details },
            ),
            _ => Result::Err(bad()),
        }
    } else if code == ABORT_ID {
        if n != 3 {
            return Result::Err(bad());
        }
        match (get_dict(&t[1]), get_text(&t[2])) {
            (Option::Some(details), Option::Some(reason)) => Result::Ok(
                Msg::Abort { details, reason },
            ),
            _ => Result::Err(bad()),
        }
    } else if code == CHALLENGE_ID {
        if n != 3 {
            return Result::Err(bad());
        }
        match (get_text(&t[1]), get_dict(&t[2])) {
            (Option::Some(method), Option::Some(extra)) => match get_authmethod(&method) {
                Option::Some(authentication_method) => Result::Ok(
                    Msg::Challenge { authentication_method, extra },
                ),
                Option::None => Result::Err(bad()),
            },
            _ => Result::Err(bad()),
        }
    } else if code == AUTHENTICATE_ID {
        if n != 3 {
            return Result::Err(bad());
        }
        match (get_text(&t[1]), get_dict(&t[2])) {
            (Option::Some(signature), Option::Some(extra)) => Result::Ok(
                Msg::Authenticate { signature, extra },
            ),
            _ => Result::Err(bad()),
        }
    } else if code == GOODBYE_ID {
        if n != 3 {
            return Result::Err(bad());
        }
        match (get_dict(&t[1]), get_text(&t[2])) {
            (Option::Some(details), Option::Some(reason)) => Result::Ok(
                Msg::Goodbye { details, reason },
            ),
            _ => Result::Err(bad()),
        }
    } else if code == ERROR_ID {
        if n < 5 {
            return Result::Err(bad());
        }
        match (get_u64(&t[1]), get_id(&t[2]), get_dict(&t[3]), get_text(&t[4]), parse_tail(t, 5)) {
            (
                Option::Some(typ),
                Option::Some(request),
                Option::Some(details),
                Option::Some(error),
                Option::Some(p),
            ) => Result::Ok(
                Msg::Error {
                    typ,
                    request,
                    details,
                    error,
                    arguments: p.0,
                    arguments_kw: p.1,
                },
            ),
            _ => Result::Err(bad()),
        }
    } else if code == PUBLISH_ID {
        if n < 4 {
            return Result::Err(bad());
        }
        match (get_id(&t[1]), get_dict(&t[2]), get_text(&t[3]), parse_tail(t, 4)) {
            (
                Option::Some(request),
                Option::Some(options),
                Option::Some(topic),
                Option::Some(p),
            ) => Result::Ok(
                Msg::Publish { request, options, topic, arguments: p.0, arguments_kw: p.1 },
            ),
            _ => Result::Err(bad()),
        }
    } else if code == PUBLISHED_ID {
        if n != 3 {
            return Result::Err(bad());
        }
        match (get_id(&t[1]), get_id(&t[2])) {
            (Option::Some(request), Option::Some(publication)) => Result::Ok(
                Msg::Published { request, publication },
            ),
            _ => Result::Err(bad()),
        }
    } else if code == SUBSCRIBE_ID {
        if n != 4 {
            return Result::Err(bad());
        }
        match (get_id(&t[1]), get_dict(&t[2]), get_text(&t[3])) {
            (Option::Some(request), Option::Some(options), Option::Some(topic)) => Result::Ok(
                Msg::Subscribe { request, options, topic },
            ),
            _ => Result::Err(bad()),
        }
    } else if code == SUBSCRIBED_ID {
        if n != 3 {
            return Result::Err(bad());
        }
        match (get_id(&t[1]), get_id(&t[2])) {
            (Option::Some(request), Option::Some(subscription)) => Result::Ok(
                Msg::Subscribed { request, subscription },
            ),
            _ => Result::Err(bad()),
        }
    } else if code == UNSUBSCRIBE_ID {
        if n != 3 {
            return Result::Err(bad());
        }
        match (get_id(&t[1]), get_id(&t[2])) {
            (Option::Some(request), Option::Some(subscription)) => Result::Ok(
                Msg::Unsubscribe { request, subscription },
            ),
            _ => Result::Err(bad()),
        }
    } else if code == UNSUBSCRIBED_ID {
        if n != 2 {
            return Result::Err(bad());
        }
        match get_id(&t[1]) {
            Option::Some(request) => Result::Ok(Msg::Unsubscribed { request }),
            _ => Result::Err(bad()),
        }
    } else if code == EVENT_ID {
        if n < 4 {
            return Result::Err(bad());
        }
        match (get_id(&t[1]), get_id(&t[2]), get_dict(&t[3]), parse_tail(t, 4)) {
            (
                Option::Some(subscription),
                Option::Some(publication),
                Option::Some(details),
                Option::Some(p),
            ) => Result::Ok(
                Msg::Event {
                    subscription,
                    publication,
                    details,
                    arguments: p.0,
                    arguments_kw: p.1,
                },
            ),
            _ => Result::Err(bad()),
        }
    } else if code == CALL_ID {
        if n < 4 {
            return Result::Err(bad());
        }
        match (get_id(&t[1]), get_dict(&t[2]), get_text(&t[3]), parse_tail(t, 4)) {
            (
                Option::Some(request),
                Option::Some(options),
                Option::Some(procedure),
                Option::Some(p),
            ) => Result::Ok(
                Msg::Call { request, options, procedure, arguments: p.0, arguments_kw: p.1 },
            ),
            _ => Result::Err(bad()),
        }
    } else if code == RESULT_ID {
        if n < 3 {
            return Result::Err(bad());
        }
        match (get_id(&t[1]), get_dict(&t[2]), parse_tail(t, 3)) {
            (Option::Some(request), Option::Some(details), Option::Some(p)) => Result::Ok(
                Msg::CallResult { request, details, arguments: p.0, arguments_kw: p.1 },
            ),
            _ => Result::Err(bad()),
        }
    } else if code == REGISTER_ID {
        if n != 4 {
            return Result::Err(bad());
        }
        match (get_id(&t[1]), get_dict(&t[2]), get_text(&t[3])) {
            (Option::Some(request), Option::Some(options), Option::Some(procedure)) => Result::Ok(
                Msg::Register { request, options, procedure },
            ),
            _ => Result::Err(bad()),
        }
    } else if code == REGISTERED_ID {
        if n != 3 {
            return Result::Err(bad());
        }
        match (get_id(&t[1]), get_id(&t[2])) {
            (Option::Some(request), Option::Some(registration)) => Result::Ok(
                Msg::Registered { request, registration },
            ),
            _ => Result::Err(bad()),
        }
    } else if code == UNREGISTER_ID {
        if n != 3 {
            return Result::Err(bad());
        }
        match (get_id(&t[1]), get_id(&t[2])) {
            (Option::Some(request), Option::Some(registration)) => Result::Ok(
                Msg::Unregister { request, registration },
            ),
            _ => Result::Err(bad()),
        }
    } else if code == UNREGISTERED_ID {
        if n != 2 {
            return Result::Err(bad());
        }
        match get_id(&t[1]) {
            Option::Some(request) => Result::Ok(Msg::Unregistered { request }),
            _ => Result::Err(bad()),
        }
    } else if code == INVOCATION_ID {
        if n < 4 {
            return Result::Err(bad());
        }
        match (get_id(&t[1]), get_id(&t[2]), get_dict(&t[3]), parse_tail(t, 4)) {
            (
                Option::Some(request),
                Option::Some(registration),
                Option::Some(details),
                Option::Some(p),
            ) => Result::Ok(
                Msg::Invocation {
                    request,
                    registration,
                    details,
                    arguments: p.0,
                    arguments_kw: p.1,
                },
            ),
            _ => Result::Err(bad()),
        }
    } else if code == YIELD_ID {
        if n < 3 {
            return Result::Err(bad());
        }
        match (get_id(&t[1]), get_dict(&t[2]), parse_tail(t, 3)) {
            (Option::Some(request), Option::Some(options), Option::Some(p)) => Result::Ok(
                Msg::Yield { request, options, arguments: p.0, arguments_kw: p.1 },
            ),
            _ => Result::Err(bad()),
        }
    } else {
        Result::Err(bad())
    }
}

/// A message is in wire-normal form when decoding its wire tuple gives it
/// back: resource and request IDs are positive, dictionary values are wire
/// normal, and an argument list accompanies any keyword-argument map.
pub open spec fn msg_norm(m: MsgView) -> bool {
    match m {
        MsgView::Hello { realm, details } => dict_norm(details),
        MsgView::Welcome { session, details } => session >= 1 && dict_norm(details),
        MsgView::Abort { details, reason } => dict_norm(details),
        MsgView::Challenge { authentication_method, extra } => dict_norm(extra),
        MsgView::Authenticate { signature, extra } => dict_norm(extra),
        MsgView::Goodbye { details, reason } => dict_norm(details),
        MsgView::Error { typ, request, details, error, arguments, arguments_kw } => request >= 1
            && dict_norm(details) && (arguments_kw is Some ==> arguments is Some),
        MsgView::Publish { request, options, topic, arguments, arguments_kw } => request >= 1
            && dict_norm(options) && (arguments_kw is Some ==> arguments is Some),
        MsgView::Published { request, publication } => request >= 1 && publication >= 1,
        MsgView::Subscribe { request, options, topic } => request >= 1 && dict_norm(options),
        MsgView::Subscribed { request, subscription } => request >= 1 && subscription >= 1,
        MsgView::Unsubscribe { request, subscription } => request >= 1 && subscription >= 1,
        MsgView::Unsubscribed { request } => request >= 1,
        MsgView::Event { subscription, publication, details, arguments, arguments_kw } =>
            subscription >= 1 && publication >= 1 && dict_norm(details) && (arguments_kw is Some
                ==> arguments is Some),
        MsgView::Call { request, options, procedure, arguments, arguments_kw } => request >= 1
            && dict_norm(options) && (arguments_kw is Some ==> arguments is Some),
        MsgView::CallResult { request, details, arguments, arguments_kw } => request >= 1
            && dict_norm(details) && (arguments_kw is Some ==> arguments is Some),
        MsgView::Register { request, options, procedure } => request >= 1 && dict_norm(options),
        MsgView::Registered { request, registration } => request >= 1 && registration >= 1,
        MsgView::Unregister { request, registration } => request >= 1 && registration >= 1,
        MsgView::Unregistered { request } => request >= 1,
        MsgView::Invocation { request, registration, details, arguments, arguments_kw } => request
            >= 1 && registration >= 1 && dict_norm(details) && (arguments_kw is Some ==> arguments
            is Some),
        MsgView::Yield { request, options, arguments, arguments_kw } => request >= 1 && dict_norm(
            options,
        ) && (arguments_kw is Some ==> arguments is Some),
    }
}

/// Each authentication method decodes from its own wire tag.
pub proof fn lemma_authmethod_roundtrip(m: AuthenticationMethod)
    ensures
        authmethod_of_text(m.spec_str()) == Option::Some(m),
{
    broadcast use vstd::string::group_string_axioms;

    reveal_strlit("anonymous");
    reveal_strlit("wampcra");
    reveal_strlit("ticket");
    reveal_strlit("cryptosign");
    assert("anonymous"@.len() == 9);
    assert("wampcra"@.len() == 7);
    assert("ticket"@.len() == 6);
    assert("cryptosign"@.len() == 10);
}

/// The trailing payload of an encoded tuple decodes to the payload that
/// was encoded, when an argument list accompanies any keyword map.
proof fn lemma_tail_roundtrip(
    head: Seq<ValView>,
    a: Option<Seq<ValView>>,
    k: Option<Seq<(Seq<char>, ValView)>>,
)
    requires
        k is Some ==> a is Some,
    ensures
        tail_of(head + payload_tail(a, k), head.len() as int) == Option::Some((a, k)),
{
    let t = head + payload_tail(a, k);
    let base = head.len() as int;
    match k {
        Option::Some(kw) => {
            assert(t.len() == base + 2);
            assert(t[base] == payload_tail(a, k)[0]);
            assert(t[base + 1] == payload_tail(a, k)[1]);
        },
        Option::None => {
            match a {
                Option::Some(l) => {
                    assert(t.len() == base + 1);
                    assert(t[base] == payload_tail(a, k)[0]);
                },
                Option::None => {
                    assert(t.len() == base);
                },
            }
        },
    }
}

/// Decoding the wire tuple of a wire-normal message gives the message
/// back: the tuple codec loses nothing.
#[verifier::rlimit(100)]
pub proof fn lemma_msg_wire_roundtrip(m: MsgView)
    requires
        msg_norm(m),
    ensures
        msg_of_wire(wire_of_msg(m)) == Option::Some(m),
{
    let t = wire_of_msg(m);
    match m {
        MsgView::Hello { realm, details } => {
            lemma_dict_wire_roundtrip(details);
        },
        MsgView::Welcome { session, details } => {
            lemma_dict_wire_roundtrip(details);
        },
        MsgView::Abort { details, reason } => {
            lemma_dict_wire_roundtrip(details);
        },
        MsgView::Challenge { authentication_method, extra } => {
            lemma_dict_wire_roundtrip(extra);
            lemma_authmethod_roundtrip(authentication_method);
        },
        MsgView::Authenticate { signature, extra } => {
            lemma_dict_wire_roundtrip(extra);
        },
        MsgView::Goodbye { details, reason } => {
            lemma_dict_wire_roundtrip(details);
        },
        MsgView::Error { typ, request, details, error, arguments, arguments_kw } => {
            lemma_dict_wire_roundtrip(details);
            let head = seq![
                ValView::Uint(ERROR_ID),
                ValView::Uint(typ),
                ValView::Uint(request),
                ValView::Object(wire_of_dict(details)),
                ValView::Text(error),
            ];
            lemma_tail_roundtrip(head, arguments, arguments_kw);
            assert(t[0] == head[0] && t[1] == head[1] && t[2] == head[2] && t[3] == head[3] && t[4]
                == head[4]);
        },
        MsgView::Publish { request, options, topic, arguments, arguments_kw } => {
            lemma_dict_wire_roundtrip(options);
            let head = seq![
                ValView::Uint(PUBLISH_ID),
                ValView::Uint(request),
                ValView::Object(wire_of_dict(options)),
                ValView::Text(topic),
            ];
            lemma_tail_roundtrip(head, arguments, arguments_kw);
            assert(t[0] == head[0] && t[1] == head[1] && t[2] == head[2] && t[3] == head[3]);
        },
        MsgView::Published { request, publication } => {},
        MsgView::Subscribe { request, options, topic } => {
            lemma_dict_wire_roundtrip(options);
        },
        MsgView::Subscribed { request, subscription } => {},
        MsgView::Unsubscribe { request, subscription } => {},
        MsgView::Unsubscribed { request } => {},
        MsgView::Event { subscription, publication, details, arguments, arguments_kw } => {
            lemma_dict_wire_roundtrip(details);
            let head = seq![
                ValView::Uint(EVENT_ID),
                ValView::Uint(subscription),
                ValView::Uint(publication),
                ValView::Object(wire_of_dict(details)),
            ];
            lemma_tail_roundtrip(head, arguments, arguments_kw);
            assert(t[0] == head[0] && t[1] == head[1] && t[2] == head[2] && t[3] == head[3]);
        },
        MsgView::Call { request, options, procedure, arguments, arguments_kw } => {
            lemma_dict_wire_roundtrip(options);
            let head = seq![
                ValView::Uint(CALL_ID),
                ValView::Uint(request),
                ValView::Object(wire_of_dict(options)),
                ValView::Text(procedure),
            ];
            lemma_tail_roundtrip(head, arguments, arguments_kw);
            assert(t[0] == head[0] && t[1] == head[1] && t[2] == head[2] && t[3] == head[3]);
        },
        MsgView::CallResult { request, details, arguments, arguments_kw } => {
            lemma_dict_wire_roundtrip(details);
            let head = seq![
                ValView::Uint(RESULT_ID),
                ValView::Uint(request),
                ValView::Object(wire_of_dict(details)),
            ];
            lemma_tail_roundtrip(head, arguments, arguments_kw);
            assert(t[0] == head[0] && t[1] == head[1] && t[2] == head[2]);
        },
        MsgView::Register { request, options, procedure } => {
            lemma_dict_wire_roundtrip(options);
        },
        MsgView::Registered { request, registration } => {},
        MsgView::Unregister { request, registration } => {},
        MsgView::Unregistered { request } => {},
        MsgView::Invocation { request, registration, details, arguments, arguments_kw } => {
            lemma_dict_wire_roundtrip(details);
            let head = seq![
                ValView::Uint(INVOCATION_ID),
                ValView::Uint(request),
                ValView::Uint(registration),
                ValView::Object(wire_of_dict(details)),
            ];
            lemma_tail_roundtrip(head, arguments, arguments_kw);
            assert(t[0] == head[0] && t[1] == head[1] && t[2] == head[2] && t[3] == head[3]);
        },
        MsgView::Yield { request, options, arguments, arguments_kw } => {
            lemma_dict_wire_roundtrip(options);
            let head = seq![
                ValView::Uint(YIELD_ID),
                ValView::Uint(request),
                ValView::Object(wire_of_dict(options)),
            ];
            lemma_tail_roundtrip(head, arguments, arguments_kw);
            assert(t[0] == head[0] && t[1] == head[1] && t[2] == head[2]);
        },
    }
}

/// Re-encoding a decoded wire tuple gives the same tuple back, and the
/// decoded message is wire normal: the tuple codec adds nothing.
#[verifier::rlimit(100)]
pub proof fn lemma_wire_msg_roundtrip(t: Seq<ValView>)
    requires
        msg_of_wire(t) is Some,
    ensures
        msg_norm(msg_of_wire(t)->Some_0),
        wire_of_msg(msg_of_wire(t)->Some_0) == t,
{
    let m = msg_of_wire(t)->Some_0;
    let code = as_u64(t[0])->Some_0;
    if code == HELLO_ID || code == WELCOME_ID || code == AUTHENTICATE_ID {
        lemma_wire_dict_roundtrip(t[2]->Object_0);
        assert(wire_of_msg(m) =~= t);
    } else if code == ABORT_ID || code == GOODBYE_ID {
        lemma_wire_dict_roundtrip(t[1]->Object_0);
        assert(wire_of_msg(m) =~= t);
    } else if code == CHALLENGE_ID {
        lemma_wire_dict_roundtrip(t[2]->Object_0);
        assert(wire_of_msg(m) =~= t);
    } else if code == ERROR_ID {
        lemma_wire_dict_roundtrip(t[3]->Object_0);
        assert(wire_of_msg(m) =~= t);
    } else if code == PUBLISH_ID || code == CALL_ID {
        lemma_wire_dict_roundtrip(t[2]->Object_0);
        assert(wire_of_msg(m) =~= t);
    } else if code == EVENT_ID || code == INVOCATION_ID {
        lemma_wire_dict_roundtrip(t[3]->Object_0);
        assert(wire_of_msg(m) =~= t);
    } else if code == RESULT_ID || code == YIELD_ID {
        lemma_wire_dict_roundtrip(t[2]->Object_0);
        assert(wire_of_msg(m) =~= t);
    } else if code == SUBSCRIBE_ID || code == REGISTER_ID {
        lemma_wire_dict_roundtrip(t[2]->Object_0);
        assert(wire_of_msg(m) =~= t);
    } else {
        assert(wire_of_msg(m) =~= t);
    }
}

} // verus!
