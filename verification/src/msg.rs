//! The WAMP message taxonomy: each message kind, its numeric wire code, and
//! the mathematical model of a message.

use vstd::prelude::*;
use crate::types::{
    AuthenticationMethod, WampArgs, WampDict, WampId, WampInteger, WampKwArgs, WampString, WampUri,
};
use crate::value::{view_dict, view_val_obj, view_val_seq, ArgView, ValView};

verus! {

pub const HELLO_ID: WampInteger = 1;

pub const WELCOME_ID: WampInteger = 2;

pub const ABORT_ID: WampInteger = 3;

pub const CHALLENGE_ID: WampInteger = 4;

pub const AUTHENTICATE_ID: WampInteger = 5;

pub const GOODBYE_ID: WampInteger = 6;

pub const ERROR_ID: WampInteger = 8;

pub const PUBLISH_ID: WampInteger = 16;

pub const PUBLISHED_ID: WampInteger = 17;

pub const SUBSCRIBE_ID: WampInteger = 32;

pub const SUBSCRIBED_ID: WampInteger = 33;

pub const UNSUBSCRIBE_ID: WampInteger = 34;

pub const UNSUBSCRIBED_ID: WampInteger = 35;

pub const EVENT_ID: WampInteger = 36;

pub const CALL_ID: WampInteger = 48;

pub const RESULT_ID: WampInteger = 50;

pub const REGISTER_ID: WampInteger = 64;

pub const REGISTERED_ID: WampInteger = 65;

pub const UNREGISTER_ID: WampInteger = 66;

pub const UNREGISTERED_ID: WampInteger = 67;

pub const INVOCATION_ID: WampInteger = 68;

pub const YIELD_ID: WampInteger = 70;

/// WAMP message
#[derive(Debug)]
pub enum Msg {
    /// Sent by a Client to initiate opening of a WAMP session to a Router attaching to a Realm.
    Hello { realm: WampUri, details: WampDict },
    /// Sent by a Router to accept a Client. The WAMP session is now open.
    Welcome { session: WampId, details: WampDict },
    /// Sent by a Peer to abort the opening of a WAMP session. No response is expected.
    Abort { details: WampDict, reason: WampUri },
    /// Sent by a Router to challenge a Client for authentication. An Authenticate reply is expected.
    Challenge { authentication_method: AuthenticationMethod, extra: WampDict },
    /// Sent by a Peer to authenticate a Client in response to a Challenge from the Router.
    Authenticate { signature: WampString, extra: WampDict },
    /// Sent by a Peer to close a previously opened WAMP session. Must be echoed by the receiving Peer.
    Goodbye { details: WampDict, reason: WampUri },
    /// Error reply sent by a Peer as an error response to different kinds of requests.
    Error {
        typ: WampInteger,
        request: WampId,
        details: WampDict,
        error: WampUri,
        arguments: Option<WampArgs>,
        arguments_kw: Option<WampKwArgs>,
    },
    /// Sent by a Publisher to a Broker to publish an event.
    Publish {
        request: WampId,
        options: WampDict,
        topic: WampUri,
        arguments: Option<WampArgs>,
        arguments_kw: Option<WampKwArgs>,
    },
    /// Acknowledge sent by a Broker to a Publisher for acknowledged publications.
    Published { request: WampId, publication: WampId },
    /// Subscribe request sent by a Subscriber to a Broker to subscribe to a topic.
    Subscribe { request: WampId, options: WampDict, topic: WampUri },
    /// Acknowledge sent by a Broker to a Subscriber to acknowledge a subscription.
    Subscribed { request: WampId, subscription: WampId },
    /// Unsubscribe request sent by a Subscriber to a Broker to unsubscribe a subscription.
    Unsubscribe { request: WampId, subscription: WampId },
    /// Acknowledge sent by a Broker to a Subscriber to acknowledge unsubscription.
    Unsubscribed { request: WampId },
    /// Event dispatched by a Broker to Subscribers for subscriptions the event is matching.
    Event {
        subscription: WampId,
        publication: WampId,
        details: WampDict,
        arguments: Option<WampArgs>,
        arguments_kw: Option<WampKwArgs>,
    },
    /// Call as originally issued by the Caller to the Dealer.
    Call {
        request: WampId,
        options: WampDict,
        procedure: WampUri,
        arguments: Option<WampArgs>,
        arguments_kw: Option<WampKwArgs>,
    },
    /// Result of a call as returned by the Dealer to the Caller.
    CallResult {
        request: WampId,
        details: WampDict,
        arguments: Option<WampArgs>,
        arguments_kw: Option<WampKwArgs>,
    },
    /// A Callee's request to register an endpoint at a Dealer.
    Register { request: WampId, options: WampDict, procedure: WampUri },
    /// Acknowledge sent by a Dealer to a Callee for successful registration.
    Registered { request: WampId, registration: WampId },
    /// A Callee's request to unregister a previously established registration.
    Unregister { request: WampId, registration: WampId },
    /// Acknowledge sent by a Dealer to a Callee for successful unregistration.
    Unregistered { request: WampId },
    /// Actual invocation of an endpoint sent by a Dealer to a Callee.
    Invocation {
        request: WampId,
        registration: WampId,
        details: WampDict,
        arguments: Option<WampArgs>,
        arguments_kw: Option<WampKwArgs>,
    },
    /// Actual yield from an endpoint sent by a Callee to a Dealer.
    Yield {
        request: WampId,
        options: WampDict,
        arguments: Option<WampArgs>,
        arguments_kw: Option<WampKwArgs>,
    },
}

/// Model of a WAMP message, over character sequences and value models.
pub enum MsgView {
    Hello { realm: Seq<char>, details: Seq<(Seq<char>, ArgView)> },
    Welcome { session: u64, details: Seq<(Seq<char>, ArgView)> },
    Abort { details: Seq<(Seq<char>, ArgView)>, reason: Seq<char> },
    Challenge { authentication_method: AuthenticationMethod, extra: Seq<(Seq<char>, ArgView)> },
    Authenticate { signature: Seq<char>, extra: Seq<(Seq<char>, ArgView)> },
    Goodbye { details: Seq<(Seq<char>, ArgView)>, reason: Seq<char> },
    Error {
        typ: u64,
        request: u64,
        details: Seq<(Seq<char>, ArgView)>,
        error: Seq<char>,
        arguments: Option<Seq<ValView>>,
        arguments_kw: Option<Seq<(Seq<char>, ValView)>>,
    },
    Publish {
        request: u64,
        options: Seq<(Seq<char>, ArgView)>,
        topic: Seq<char>,
        arguments: Option<Seq<ValView>>,
        arguments_kw: Option<Seq<(Seq<char>, ValView)>>,
    },
    Published { request: u64, publication: u64 },
    Subscribe { request: u64, options: Seq<(Seq<char>, ArgView)>, topic: Seq<char> },
    Subscribed { request: u64, subscription: u64 },
    Unsubscribe { request: u64, subscription: u64 },
    Unsubscribed { request: u64 },
    Event {
        subscription: u64,
        publication: u64,
        details: Seq<(Seq<char>, ArgView)>,
        arguments: Option<Seq<ValView>>,
        arguments_kw: Option<Seq<(Seq<char>, ValView)>>,
    },
    Call {
        request: u64,
        options: Seq<(Seq<char>, ArgView)>,
        procedure: Seq<char>,
        arguments: Option<Seq<ValView>>,
        arguments_kw: Option<Seq<(Seq<char>, ValView)>>,
    },
    CallResult {
        request: u64,
        details: Seq<(Seq<char>, ArgView)>,
        arguments: Option<Seq<ValView>>,
        arguments_kw: Option<Seq<(Seq<char>, ValView)>>,
    },
    Register { request: u64, options: Seq<(Seq<char>, ArgView)>, procedure: Seq<char> },
    Registered { request: u64, registration: u64 },
    Unregister { request: u64, registration: u64 },
    Unregistered { request: u64 },
    Invocation {
        request: u64,
        registration: u64,
        details: Seq<(Seq<char>, ArgView)>,
        arguments: Option<Seq<ValView>>,
        arguments_kw: Option<Seq<(Seq<char>, ValView)>>,
    },
    Yield {
        request: u64,
        options: Seq<(Seq<char>, ArgView)>,
        arguments: Option<Seq<ValView>>,
        arguments_kw: Option<Seq<(Seq<char>, ValView)>>,
    },
}

/// The model of an optional argument list.
pub open spec fn view_args(a: Option<WampArgs>) -> Option<Seq<ValView>> {
    match a {
        Option::Some(l) => Option::Some(view_val_seq(l@)),
        Option::None => Option::None,
    }
}

/// The model of an optional keyword-argument map.
pub open spec fn view_kwargs(k: Option<WampKwArgs>) -> Option<Seq<(Seq<char>, ValView)>> {
    match k {
        Option::Some(o) => Option::Some(view_val_obj(o@)),
        Option::None => Option::None,
    }
}

impl View for Msg {
    type V = MsgView;

    open spec fn view(&self) -> MsgView {
        match *self {
            Msg::Hello { realm, details } => MsgView::Hello {
                realm: realm@,
                details: view_dict(details),
            },
            Msg::Welcome { session, details } => MsgView::Welcome {
                session: session.0,
                details: view_dict(details),
            },
            Msg::Abort { details, reason } => MsgView::Abort {
                details: view_dict(details),
                reason: reason@,
            },
            Msg::Challenge { authentication_method, extra } => MsgView::Challenge {
                authentication_method,
                extra: view_dict(extra),
            },
            Msg::Authenticate { signature, extra } => MsgView::Authenticate {
                signature: signature@,
                extra: view_dict(extra),
            },
            Msg::Goodbye { details, reason } => MsgView::Goodbye {
                details: view_dict(details),
                reason: reason@,
            },
            Msg::Error { typ, request, details, error, arguments, arguments_kw } => MsgView::Error {
                typ,
                request: request.0,
                details: view_dict(details),
                error: error@,
                arguments: view_args(arguments),
                arguments_kw: view_kwargs(arguments_kw),
            },
            Msg::Publish { request, options, topic, arguments, arguments_kw } => MsgView::Publish {
                request: request.0,
                options: view_dict(options),
                topic: topic@,
                arguments: view_args(arguments),
                arguments_kw: view_kwargs(arguments_kw),
            },
            Msg::Published { request, publication } => MsgView::Published {
                request: request.0,
                publication: publication.0,
            },
            Msg::Subscribe { request, options, topic } => MsgView::Subscribe {
                request: request.0,
                options: view_dict(options),
                topic: topic@,
            },
            Msg::Subscribed { request, subscription } => MsgView::Subscribed {
                request: request.0,
                subscription: subscription.0,
            },
            Msg::Unsubscribe { request, subscription } => MsgView::Unsubscribe {
                request: request.0,
                subscription: subscription.0,
            },
            Msg::Unsubscribed { request } => MsgView::Unsubscribed { request: request.0 },
            Msg::Event { subscription, publication, details, arguments, arguments_kw } => {
                MsgView::Event {
                    subscription: subscription.0,
                    publication: publication.0,
                    details: view_dict(details),
                    arguments: view_args(arguments),
                    arguments_kw: view_kwargs(arguments_kw),
                }
            },
            Msg::Call { request, options, procedure, arguments, arguments_kw } => MsgView::Call {
                request: request.0,
                options: view_dict(options),
                procedure: procedure@,
                arguments: view_args(arguments),
                arguments_kw: view_kwargs(arguments_kw),
            },
            Msg::CallResult { request, details, arguments, arguments_kw } => MsgView::CallResult {
                request: request.0,
                details: view_dict(details),
                arguments: view_args(arguments),
                arguments_kw: view_kwargs(arguments_kw),
            },
            Msg::Register { request, options, procedure } => MsgView::Register {
                request: request.0,
                options: view_dict(options),
                procedure: procedure@,
            },
            Msg::Registered { request, registration } => MsgView::Registered {
                request: request.0,
                registration: registration.0,
            },
            Msg::Unregister { request, registration } => MsgView::Unregister {
                request: request.0,
                registration: registration.0,
            },
            Msg::Unregistered { request } => MsgView::Unregistered { request: request.0 },
            Msg::Invocation { request, registration, details, arguments, arguments_kw } => {
                MsgView::Invocation {
                    request: request.0,
                    registration: registration.0,
                    details: view_dict(details),
                    arguments: view_args(arguments),
                    arguments_kw: view_kwargs(arguments_kw),
                }
            },
            Msg::Yield { request, options, arguments, arguments_kw } => MsgView::Yield {
                request: request.0,
                options: view_dict(options),
                arguments: view_args(arguments),
                arguments_kw: view_kwargs(arguments_kw),
            },
        }
    }
}

/// The request ID a message correlates a reply by, if its kind carries one.
pub open spec fn spec_request_id(m: MsgView) -> Option<u64> {
    match m {
        MsgView::Error { request, .. } => Option::Some(request),
        MsgView::Publish { request, .. } => Option::Some(request),
        MsgView::Published { request, .. } => Option::Some(request),
        MsgView::Subscribe { request, .. } => Option::Some(request),
        MsgView::Subscribed { request, .. } => Option::Some(request),
        MsgView::Unsubscribe { request, .. } => Option::Some(request),
        MsgView::Unsubscribed { request } => Option::Some(request),
        MsgView::Call { request, .. } => Option::Some(request),
        MsgView::CallResult { request, .. } => Option::Some(request),
        MsgView::Register { request, .. } => Option::Some(request),
        MsgView::Registered { request, .. } => Option::Some(request),
        MsgView::Unregister { request, .. } => Option::Some(request),
        MsgView::Unregistered { request } => Option::Some(request),
        MsgView::Yield { request, .. } => Option::Some(request),
        _ => Option::None,
    }
}

impl Msg {
    /// Returns the request ID of the message for kinds that carry one;
    /// HELLO, WELCOME, ABORT, CHALLENGE, AUTHENTICATE, GOODBYE, EVENT and
    /// INVOCATION do not correlate by request ID.
    pub fn request_id(&self) -> (r: Option<WampId>)
        ensures
            match r {
                Option::Some(id) => spec_request_id(self@) == Option::Some(id.0),
                Option::None => spec_request_id(self@) is None,
            },
    {
        match self {
            Msg::Error { request, .. } => Option::Some(*request),
            Msg::Publish { request, .. } => Option::Some(*request),
            Msg::Published { request, .. } => Option::Some(*request),
            Msg::Subscribe { request, .. } => Option::Some(*request),
            Msg::Subscribed { request, .. } => Option::Some(*request),
            Msg::Unsubscribe { request, .. } => Option::Some(*request),
            Msg::Unsubscribed { request } => Option::Some(*request),
            Msg::Call { request, .. } => Option::Some(*request),
            Msg::CallResult { request, .. } => Option::Some(*request),
            Msg::Register { request, .. } => Option::Some(*request),
            Msg::Registered { request, .. } => Option::Some(*request),
            Msg::Unregister { request, .. } => Option::Some(*request),
            Msg::Unregistered { request } => Option::Some(*request),
            Msg::Yield { request, .. } => Option::Some(*request),
            Msg::Hello { .. } => Option::None,
            Msg::Welcome { .. } => Option::None,
            Msg::Abort { .. } => Option::None,
            Msg::Challenge { .. } => Option::None,
            Msg::Authenticate { .. } => Option::None,
            Msg::Goodbye { .. } => Option::None,
            Msg::Event { .. } => Option::None,
            Msg::Invocation { .. } => Option::None,
        }
    }
}

} // verus!
