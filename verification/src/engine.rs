//! The session engine: owner of every per-session table, driver of the
//! WAMP state machine, and the single place where requests are correlated
//! with replies.
//!
//! The engine is written as a transition system over plain data. Reply
//! channels, event queues and RPC handlers are opaque tokens of the type
//! parameters `R`, `S` and `H`; the engine moves them between tables and
//! hands each reply token out exactly once, inside an [`Effect`]. The
//! surrounding event loop performs the effects: it writes `Send` messages
//! to the transport, completes reply tokens, and runs handlers.

use vstd::prelude::*;
use crate::error::{TransportError, WampError};
use crate::idtable::IdTable;
use crate::msg::{Msg, INVOCATION_ID};
use crate::types::{
    Arg, AuthenticationChallengeResponse, AuthenticationMethod, ClientRole, PayloadValue,
    WampArgs, WampDict, WampId, WampKwArgs, WampString,
};
use crate::value::{dict_flag, dict_get_flag, view_arg, view_dict, ArgView};

verus! {

/// What the event loop should do after a step.
#[derive(Debug, Clone, Copy, PartialEq, Eq, Structural)]
pub enum Status {
    /// Keep serving commands and inbound messages
    Alive,
    /// Stop the event loop and drain the tables
    Shutdown,
}

/// Where the session stands in the WAMP state machine.
pub enum Phase<R> {
    /// No HELLO has been sent
    Unjoined,
    /// HELLO is out; WELCOME or CHALLENGE replies are expected
    Joining {
        /// the reply token of the join command
        res: R,
        /// whether a challenge handler was configured
        has_handler: bool,
    },
    /// A WELCOME carrying this session ID has been received
    Joined {
        /// the session ID the router assigned
        session: WampId,
    },
    /// GOODBYE has been sent for a Leave; only its acknowledgement is expected
    Leaving,
    /// The engine has stopped
    Terminated,
}

/// One step's outward consequences, in order.
pub enum Effect<R> {
    /// Serialize and send this message on the transport
    Send(Msg),
    /// Complete a join with the session ID and the router's details
    JoinOk(R, WampId, WampDict),
    /// Fail a join
    JoinErr(R, WampError),
    /// Complete a leave
    UnitOk(R),
    /// Fail a leave
    UnitErr(R, WampError),
    /// Complete an unsubscribe, unregister or publish; a publish carries
    /// its publication ID
    TransOk(R, Option<WampId>),
    /// Fail an unsubscribe, unregister or publish
    TransErr(R, WampError),
    /// Complete a subscribe with the subscription ID
    SubOk(R, WampId),
    /// Fail a subscribe
    SubErr(R, WampError),
    /// Complete a register with the registration ID
    RegOk(R, WampId),
    /// Fail a register
    RegErr(R, WampError),
    /// Complete a call with the positional and keyword results
    CallOk(R, Option<WampArgs>, Option<WampKwArgs>),
    /// Fail a call
    CallErr(R, WampError),
    /// Run the configured challenge handler and post its answer back
    Challenge(AuthenticationMethod, WampDict),
    /// Record this fatal protocol error as the connection's final outcome
    Fatal(WampError),
    /// Push an event onto the queue of this subscription
    Deliver {
        /// the subscription the event matches
        subscription: WampId,
        /// the publication ID
        publication: WampId,
        /// event details
        details: WampDict,
        /// positional payload
        arguments: Option<WampArgs>,
        /// keyword payload
        arguments_kw: Option<WampKwArgs>,
    },
    /// Run the handler registered under `registration` and post the
    /// outcome back as an invocation result carrying `request`
    Invoke {
        /// the dealer's invocation request ID
        request: WampId,
        /// the registration being invoked
        registration: WampId,
        /// positional payload
        arguments: Option<WampArgs>,
        /// keyword payload
        arguments_kw: Option<WampKwArgs>,
    },
}

/// A command the facade sends to the engine.
pub enum Request<R, S, H> {
    /// Stop the event loop
    Shutdown,
    /// Open a session on a realm
    Join {
        /// the realm to join
        uri: WampString,
        /// the client roles to advertise
        roles: Vec<ClientRole>,
        /// an agent string to advertise, if any
        agent_str: Option<WampString>,
        /// the authentication methods to offer
        authentication_methods: Vec<AuthenticationMethod>,
        /// the authentication ID to use
        authentication_id: Option<WampString>,
        /// extra authentication data; only a `pubkey` entry is advertised
        authextra: Option<Vec<(WampString, WampString)>>,
        /// whether the facade holds a challenge handler
        has_challenge_handler: bool,
        /// reply token
        res: R,
    },
    /// Answer a pending CHALLENGE
    ChallengeReply {
        /// what the challenge handler returned
        response: AuthenticationChallengeResponse,
    },
    /// Close the session
    Leave {
        /// reply token
        res: R,
    },
    /// Subscribe to a topic
    Subscribe {
        /// the topic
        uri: WampString,
        /// subscribe options, such as a `match` policy
        options: WampDict,
        /// the send end of the event queue for this subscription
        queue: S,
        /// reply token
        res: R,
    },
    /// Unsubscribe a subscription
    Unsubscribe {
        /// the subscription to drop
        sub_id: WampId,
        /// reply token
        res: R,
    },
    /// Publish to a topic
    Publish {
        /// the topic
        uri: WampString,
        /// publish options; `acknowledge` is honoured
        options: WampDict,
        /// positional payload
        arguments: Option<WampArgs>,
        /// keyword payload
        arguments_kw: Option<WampKwArgs>,
        /// reply token
        res: R,
    },
    /// Register an RPC endpoint
    Register {
        /// the procedure
        uri: WampString,
        /// the handler to run on each invocation
        func_ptr: H,
        /// reply token
        res: R,
    },
    /// Unregister an RPC endpoint
    Unregister {
        /// the registration to drop
        rpc_id: WampId,
        /// reply token
        res: R,
    },
    /// Report the outcome of a driven invocation
    InvocationResult {
        /// the dealer's invocation request ID
        request: WampId,
        /// the handler's outcome; an error travels as its text
        res: Result<(Option<WampArgs>, Option<WampKwArgs>), WampString>,
    },
    /// Call a procedure
    Call {
        /// the procedure
        uri: WampString,
        /// call options
        options: WampDict,
        /// positional payload
        arguments: Option<WampArgs>,
        /// keyword payload
        arguments_kw: Option<WampKwArgs>,
        /// reply token
        res: R,
    },
}

/// The engine state: the phase of the WAMP state machine and every
/// per-session table.
pub struct Core<R, S, H> {
    /// where the session stands
    pub phase: Phase<R>,
    /// outstanding unsubscribe/unregister/publish exchanges
    pub pending_transactions: IdTable<R>,
    /// outstanding subscribe exchanges, each carrying the queue to install
    pub pending_sub: IdTable<(S, R)>,
    /// outstanding register exchanges, each carrying the handler to install
    pub pending_register: IdTable<(H, R)>,
    /// outstanding call exchanges
    pub pending_call: IdTable<R>,
    /// confirmed subscriptions: subscription ID to event queue
    pub subscriptions: IdTable<S>,
    /// confirmed registrations: registration ID to handler
    pub rpc_endpoints: IdTable<H>,
}

impl<R, S, H> Core<R, S, H> {
    /// The outstanding request IDs: every ID that waits for a reply sits
    /// in exactly one pending table, so the set of pending requests is the
    /// union of the tables' domains, disjoint under [`Self::wf`].
    pub open spec fn pending_ids(self) -> Set<u64> {
        self.pending_transactions@.dom() + self.pending_sub@.dom() + self.pending_register@.dom()
            + self.pending_call@.dom()
    }

    /// Every table is well formed and no request ID waits in two tables.
    pub open spec fn wf(self) -> bool {
        &&& self.pending_transactions.wf()
        &&& self.pending_sub.wf()
        &&& self.pending_register.wf()
        &&& self.pending_call.wf()
        &&& self.subscriptions.wf()
        &&& self.rpc_endpoints.wf()
        &&& self.pending_transactions@.dom().disjoint(self.pending_sub@.dom())
        &&& self.pending_transactions@.dom().disjoint(self.pending_register@.dom())
        &&& self.pending_transactions@.dom().disjoint(self.pending_call@.dom())
        &&& self.pending_sub@.dom().disjoint(self.pending_register@.dom())
        &&& self.pending_sub@.dom().disjoint(self.pending_call@.dom())
        &&& self.pending_register@.dom().disjoint(self.pending_call@.dom())
    }

    /// The realm-joined flag: true exactly in the Joined phase.
    pub open spec fn realm_joined(self) -> bool {
        self.phase is Joined
    }

    /// Creates an engine with empty tables, before any HELLO.
    pub fn new() -> (r: Self)
        ensures
            r.wf(),
            r.phase is Unjoined,
            r.pending_ids() =~= Set::empty(),
            r.subscriptions@ == Map::<u64, S>::empty(),
            r.rpc_endpoints@ == Map::<u64, H>::empty(),
    {
        Core {
            phase: Phase::Unjoined,
            pending_transactions: IdTable::new(),
            pending_sub: IdTable::new(),
            pending_register: IdTable::new(),
            pending_call: IdTable::new(),
            subscriptions: IdTable::new(),
            rpc_endpoints: IdTable::new(),
        }
    }

    /// Whether a request ID is outstanding in any pending table.
    pub fn is_pending(&self, id: u64) -> (r: bool)
        ensures
            r == self.pending_ids().contains(id),
    {
        self.pending_transactions.contains(id) || self.pending_sub.contains(id)
            || self.pending_register.contains(id) || self.pending_call.contains(id)
    }

    /// Draws a fresh request ID: one that does not collide with any entry
    /// in the pending tables at the moment of the draw. Retries on
    /// collision; the draw is abandoned only after many collisions in a
    /// row, which the error taxonomy reserves a kind for.
    pub fn create_request(&self) -> (r: Result<WampId, WampError>)
        ensures
            match r {
                Result::Ok(id) => id.wf() && !self.pending_ids().contains(id.0),
                Result::Err(e) => e is RequestIdCollision,
            },
    {
        let mut tries: u32 = 0;
        while tries < 64
            invariant
                true,
            decreases 64 - tries,
        {
            let id = crate::rng::random_wamp_id();
            if !self.is_pending(id.0) {
                return Result::Ok(id);
            }
            tries = tries + 1;
        }
        Result::Err(WampError::RequestIdCollision)
    }

    /// The event queue of a confirmed subscription.
    pub fn get_subscription(&self, sub_id: WampId) -> (r: Option<&S>)
        requires
            self.wf(),
        ensures
            match r {
                Option::Some(q) => self.subscriptions@.contains_key(sub_id.0)
                    && self.subscriptions@[sub_id.0] == *q,
                Option::None => !self.subscriptions@.contains_key(sub_id.0),
            },
    {
        self.subscriptions.get(sub_id.0)
    }

    /// The handler of a confirmed registration.
    pub fn get_registration(&self, rpc_id: WampId) -> (r: Option<&H>)
        requires
            self.wf(),
        ensures
            match r {
                Option::Some(h) => self.rpc_endpoints@.contains_key(rpc_id.0)
                    && self.rpc_endpoints@[rpc_id.0] == *h,
                Option::None => !self.rpc_endpoints@.contains_key(rpc_id.0),
            },
    {
        self.rpc_endpoints.get(rpc_id.0)
    }
}

/// The roles dictionary advertised in HELLO: one entry per role, each with
/// an empty feature dictionary, in the order the roles were given.
pub open spec fn roles_dict(roles: Seq<ClientRole>) -> Seq<(Seq<char>, ArgView)> {
    Seq::new(roles.len(), |i: int| (roles[i].spec_str(), ArgView::Dict(Seq::empty())))
}

/// The authentication methods list advertised in HELLO.
pub open spec fn methods_list(ms: Seq<AuthenticationMethod>) -> Seq<ArgView> {
    Seq::new(ms.len(), |i: int| ArgView::Text(ms[i].spec_str()))
}

/// The public key among the authentication extras, if one was given.
pub open spec fn pubkey_of(e: Seq<(WampString, WampString)>) -> Option<Seq<char>>
    decreases e.len(),
{
    if e.len() == 0 {
        Option::None
    } else if e[0].0@ == "pubkey"@ {
        Option::Some(e[0].1@)
    } else {
        pubkey_of(e.drop_first())
    }
}

/// The details dictionary of a HELLO: the roles, then, where given, the
/// agent string, the authentication methods, the public key and the
/// authentication ID.
pub open spec fn hello_details(
    roles: Seq<ClientRole>,
    agent: Option<Seq<char>>,
    methods: Seq<AuthenticationMethod>,
    pubkey: Option<Seq<char>>,
    authid: Option<Seq<char>>,
) -> Seq<(Seq<char>, ArgView)> {
    seq![("roles"@, ArgView::Dict(roles_dict(roles)))] + (match agent {
        Option::Some(a) => seq![("agent"@, ArgView::Text(a))],
        Option::None => Seq::empty(),
    }) + (if methods.len() > 0 {
        seq![("authmethods"@, ArgView::List(methods_list(methods)))]
    } else {
        Seq::empty()
    }) + (match pubkey {
        Option::Some(pk) => if methods.len() > 0 {
            seq![("authextra"@, ArgView::Dict(seq![("pubkey"@, ArgView::Text(pk))]))]
        } else {
            Seq::empty()
        },
        Option::None => Seq::empty(),
    }) + (match authid {
        Option::Some(id) => seq![("authid"@, ArgView::Text(id))],
        Option::None => Seq::empty(),
    })
}

/// The model of an optional string.
pub open spec fn view_opt_str(o: Option<WampString>) -> Option<Seq<char>> {
    match o {
        Option::Some(s) => Option::Some(s@),
        Option::None => Option::None,
    }
}

/// Two tables hold the same entries.
pub open spec fn table_eq<V>(a: IdTable<V>, b: IdTable<V>) -> bool {
    a.entries@ == b.entries@
}

/// The engine states are observably the same: same phase, same entries in
/// every table.
pub open spec fn state_eq<R, S, H>(pre: Core<R, S, H>, post: Core<R, S, H>) -> bool {
    &&& post.phase == pre.phase
    &&& table_eq(pre.pending_transactions, post.pending_transactions)
    &&& table_eq(pre.pending_sub, post.pending_sub)
    &&& table_eq(pre.pending_register, post.pending_register)
    &&& table_eq(pre.pending_call, post.pending_call)
    &&& table_eq(pre.subscriptions, post.subscriptions)
    &&& table_eq(pre.rpc_endpoints, post.rpc_endpoints)
}

/// All tables of the engine are unchanged.
pub open spec fn tables_unchanged<R, S, H>(pre: Core<R, S, H>, post: Core<R, S, H>) -> bool {
    &&& post.pending_transactions == pre.pending_transactions
    &&& post.pending_sub == pre.pending_sub
    &&& post.pending_register == pre.pending_register
    &&& post.pending_call == pre.pending_call
    &&& post.subscriptions == pre.subscriptions
    &&& post.rpc_endpoints == pre.rpc_endpoints
}

/// Builds the "not connected" error every command other than Join and
/// Shutdown receives outside the Joined phase.
fn not_connected() -> (e: WampError)
    ensures
        e matches WampError::UnknownError(_),
{
    WampError::UnknownError(String::from_str("the client is currently not connected"))
}

/// Handler for a join request: sends HELLO with the advertised roles and
/// authentication offer, and moves the engine into the Joining phase. A
/// join in any phase but Unjoined fails at once and changes nothing.
#[verifier::loop_isolation(false)]
#[verifier::rlimit(50)]
pub fn join_realm<R, S, H>(
    core: &mut Core<R, S, H>,
    uri: WampString,
    roles: Vec<ClientRole>,
    agent_str: Option<WampString>,
    authentication_methods: Vec<AuthenticationMethod>,
    authextra: Option<Vec<(WampString, WampString)>>,
    authid: Option<WampString>,
    has_challenge_handler: bool,
    res: R,
) -> (r: (Vec<Effect<R>>, Status))
    requires
        old(core).wf(),
    ensures
        join_realm_post(*old(core), uri, roles, agent_str, authentication_methods, authextra, authid, has_challenge_handler, res, *final(core), r.0@, r.1),
{
    let mut effects: Vec<Effect<R>> = Vec::new();
    match &core.phase {
        Phase::Unjoined => {},
        _ => {
            effects.push(Effect::JoinErr(res, not_connected()));
            return (effects, Status::Alive);
        },
    }

    let mut details: WampDict = Vec::new();
    let mut client_roles: WampDict = Vec::new();
    let mut i: usize = 0;
    while i < roles.len()
        invariant
            0 <= i <= roles@.len(),
            client_roles@.len() == i,
            forall|j: int|
                0 <= j < i ==> (#[trigger] client_roles@[j]).0@ == roles@[j].spec_str() && (
                client_roles@[j].1 matches Arg::Dict(d) && d@.len() == 0),
        decreases roles@.len() - i,
    {
        client_roles.push((String::from_str(roles[i].to_str()), Arg::Dict(Vec::new())));
        i = i + 1;
    }
    proof {
        crate::value::lemma_view_arg_dict(client_roles@);
        assert forall|j: int| 0 <= j < roles@.len() implies view_dict(client_roles)[j]
            == roles_dict(roles@)[j] by {
            assert(view_arg(client_roles@[j].1) == ArgView::Dict(Seq::empty()));
        }
        assert(view_dict(client_roles) =~= roles_dict(roles@));
    }
    details.push((String::from_str("roles"), Arg::Dict(client_roles)));

    match &agent_str {
        Option::Some(agent) => {
            details.push((String::from_str("agent"), Arg::Text(agent.clone())));
        },
        Option::None => {},
    }

    let has_methods = authentication_methods.len() > 0;
    if has_methods {
        let mut methods: Vec<Arg> = Vec::new();
        let mut j: usize = 0;
        while j < authentication_methods.len()
            invariant
                0 <= j <= authentication_methods@.len(),
                methods@.len() == j,
                forall|x: int|
                    0 <= x < j ==> ((#[trigger] methods@[x]) matches Arg::Text(s) && s@
                        == authentication_methods@[x].spec_str()),
            decreases authentication_methods@.len() - j,
        {
            methods.push(Arg::Text(String::from_str(authentication_methods[j].to_str())));
            j = j + 1;
        }
        proof {
            crate::value::lemma_view_arg_seq(methods@);
            assert forall|x: int| 0 <= x < methods@.len() implies crate::value::view_arg_seq(
                methods@,
            )[x] == methods_list(authentication_methods@)[x] by {
                assert(methods@[x] matches Arg::Text(s) && s@
                    == authentication_methods@[x].spec_str());
            }
            assert(crate::value::view_arg_seq(methods@) =~= methods_list(
                authentication_methods@,
            ));
        }
        details.push((String::from_str("authmethods"), Arg::List(methods)));

        match &authextra {
            Option::Some(extra) => {
                match find_pubkey(extra) {
                    Option::Some(pk) => {
                        let mut inner: WampDict = Vec::new();
                        inner.push((String::from_str("pubkey"), Arg::Text(pk)));
                        proof {
                            broadcast use crate::value::lemma_view_arg_dict;

                            assert(view_dict(inner) =~~= seq![
                                ("pubkey"@, ArgView::Text(inner@[0].1->Text_0@)),
                            ]);
                        }
                        details.push((String::from_str("authextra"), Arg::Dict(inner)));
                    },
                    Option::None => {},
                }
            },
            Option::None => {},
        }
    }

    match &authid {
        Option::Some(id) => {
            details.push((String::from_str("authid"), Arg::Text(id.clone())));
        },
        Option::None => {},
    }

    proof {
        broadcast use crate::value::lemma_view_arg_dict;

        assert(view_dict(details) =~~= hello_details(
            roles@,
            view_opt_str(agent_str),
            authentication_methods@,
            match authextra {
                Option::Some(e) => pubkey_of(e@),
                Option::None => Option::None,
            },
            view_opt_str(authid),
        ));
    }

    core.phase = Phase::Joining { res, has_handler: has_challenge_handler };
    effects.push(Effect::Send(Msg::Hello { realm: uri, details }));
    (effects, Status::Alive)
}

/// Looks the public key up among the authentication extras.
#[verifier::loop_isolation(false)]
fn find_pubkey(extra: &Vec<(WampString, WampString)>) -> (r: Option<WampString>)
    ensures
        match r {
            Option::Some(pk) => pubkey_of(extra@) == Option::Some(pk@),
            Option::None => pubkey_of(extra@) is None,
        },
{
    let mut i: usize = 0;
    proof {
        assert(extra@.skip(0) =~= extra@);
    }
    while i < extra.len()
        invariant
            0 <= i <= extra@.len(),
            pubkey_of(extra@.skip(i as int)) == pubkey_of(extra@),
            forall|j: int| 0 <= j < i ==> (#[trigger] extra@[j]).0@ != "pubkey"@,
        decreases extra@.len() - i,
    {
        proof {
            assert(extra@.skip(i as int)[0] == extra@[i as int]);
        }
        if crate::value::str_eq(extra[i].0.as_str(), "pubkey") {
            return Option::Some(extra[i].1.clone());
        }
        proof {
            assert(extra@.skip(i as int).drop_first() =~= extra@.skip(i + 1));
        }
        i = i + 1;
    }
    proof {
        assert(extra@.skip(i as int).len() == 0);
    }
    Option::None
}

/// Handler for the answer a challenge handler produced: sends
/// AUTHENTICATE while the join handshake is still open, and drops the
/// answer otherwise.
pub fn authenticate<R, S, H>(core: &mut Core<R, S, H>, response: AuthenticationChallengeResponse)
    -> (r: (Vec<Effect<R>>, Status))
    requires
        old(core).wf(),
    ensures
        authenticate_post(*old(core), response, *final(core), r.0@, r.1),
{
    let mut effects: Vec<Effect<R>> = Vec::new();
    match &core.phase {
        Phase::Joining { .. } => {
            effects.push(
                Effect::Send(
                    Msg::Authenticate { signature: response.signature, extra: response.extra },
                ),
            );
        },
        _ => {},
    }
    (effects, Status::Alive)
}

/// Handler for a leave request: sends GOODBYE with the close-realm reason
/// and completes the reply at once; the engine stays alive to take the
/// peer's acknowledgement. Outside the Joined phase the leave fails.
pub fn leave_realm<R, S, H>(core: &mut Core<R, S, H>, res: R) -> (r: (Vec<Effect<R>>, Status))
    requires
        old(core).wf(),
    ensures
        leave_realm_post(*old(core), res, *final(core), r.0@, r.1),
{
    let mut effects: Vec<Effect<R>> = Vec::new();
    match &core.phase {
        Phase::Joined { .. } => {
            core.phase = Phase::Leaving;
            effects.push(
                Effect::Send(
                    Msg::Goodbye {
                        details: Vec::new(),
                        reason: String::from_str("wamp.close.close_realm"),
                    },
                ),
            );
            effects.push(Effect::UnitOk(res));
        },
        _ => {
            effects.push(Effect::UnitErr(res, not_connected()));
        },
    }
    (effects, Status::Alive)
}

/// Handler for a subscribe request: draws a fresh request ID, records the
/// pending subscribe with its event queue, and sends SUBSCRIBE with the
/// given options, such as a `match` policy.
pub fn subscribe<R, S, H>(
    core: &mut Core<R, S, H>,
    topic: WampString,
    options: WampDict,
    queue: S,
    res: R,
) -> (r: (Vec<Effect<R>>, Status))
    requires
        old(core).wf(),
    ensures
        subscribe_post(*old(core), topic, options, queue, res, *final(core), r.0@, r.1),
{
    let mut effects: Vec<Effect<R>> = Vec::new();
    match &core.phase {
        Phase::Joined { .. } => {},
        _ => {
            effects.push(Effect::SubErr(res, not_connected()));
            return (effects, Status::Alive);
        },
    }
    let request = match core.create_request() {
        Result::Ok(id) => id,
        Result::Err(e) => {
            effects.push(Effect::SubErr(res, e));
            return (effects, Status::Alive);
        },
    };
    core.pending_sub.insert(request.0, (queue, res));
    effects.push(Effect::Send(Msg::Subscribe { request, options, topic }));
    (effects, Status::Alive)
}

/// Handler for an unsubscribe request: drops the subscription from the
/// table at once (events arriving from now on are dropped), then sends
/// UNSUBSCRIBE and records the pending transaction. Unknown subscription
/// IDs fail without touching the wire.
pub fn unsubscribe<R, S, H>(core: &mut Core<R, S, H>, sub_id: WampId, res: R) -> (r: (
    Vec<Effect<R>>,
    Status,
))
    requires
        old(core).wf(),
    ensures
        unsubscribe_post(*old(core), sub_id, res, *final(core), r.0@, r.1),
{
    let mut effects: Vec<Effect<R>> = Vec::new();
    match &core.phase {
        Phase::Joined { .. } => {},
        _ => {
            effects.push(Effect::TransErr(res, not_connected()));
            return (effects, Status::Alive);
        },
    }
    if !core.subscriptions.contains(sub_id.0) {
        effects.push(
            Effect::TransErr(
                res,
                WampError::UnknownError(
                    String::from_str("tried to unsubscribe from an unknown subscription"),
                ),
            ),
        );
        return (effects, Status::Alive);
    }
    let request = match core.create_request() {
        Result::Ok(id) => id,
        Result::Err(e) => {
            effects.push(Effect::TransErr(res, e));
            return (effects, Status::Alive);
        },
    };
    let _ = core.subscriptions.take(sub_id.0);
    core.pending_transactions.insert(request.0, res);
    effects.push(Effect::Send(Msg::Unsubscribe { request, subscription: sub_id }));
    (effects, Status::Alive)
}

/// Handler for a publish request: sends PUBLISH. With the `acknowledge`
/// option set, the reply waits for PUBLISHED or an error and the exchange
/// is recorded; without it, the reply completes at once with no
/// publication ID and nothing is recorded.
pub fn publish<R, S, H>(
    core: &mut Core<R, S, H>,
    uri: WampString,
    options: WampDict,
    arguments: Option<WampArgs>,
    arguments_kw: Option<WampKwArgs>,
    res: R,
) -> (r: (Vec<Effect<R>>, Status))
    requires
        old(core).wf(),
    ensures
        publish_post(*old(core), uri, options, arguments, arguments_kw, res, *final(core), r.0@, r.1),
{
    let mut effects: Vec<Effect<R>> = Vec::new();
    match &core.phase {
        Phase::Joined { .. } => {},
        _ => {
            effects.push(Effect::TransErr(res, not_connected()));
            return (effects, Status::Alive);
        },
    }
    let request = match core.create_request() {
        Result::Ok(id) => id,
        Result::Err(e) => {
            effects.push(Effect::TransErr(res, e));
            return (effects, Status::Alive);
        },
    };
    let acknowledge = dict_get_flag(&options, "acknowledge");
    if acknowledge {
        core.pending_transactions.insert(request.0, res);
        effects.push(
            Effect::Send(
                Msg::Publish { request, options, topic: uri, arguments, arguments_kw },
            ),
        );
    } else {
        effects.push(
            Effect::Send(
                Msg::Publish { request, options, topic: uri, arguments, arguments_kw },
            ),
        );
        effects.push(Effect::TransOk(res, Option::None));
    }
    (effects, Status::Alive)
}

/// Handler for a register request: draws a fresh request ID, stores the
/// handler beside the reply token, and sends REGISTER. The handler moves
/// into the endpoint table only when REGISTERED confirms it.
pub fn register<R, S, H>(core: &mut Core<R, S, H>, uri: WampString, func_ptr: H, res: R) -> (r: (
    Vec<Effect<R>>,
    Status,
))
    requires
        old(core).wf(),
    ensures
        register_post(*old(core), uri, func_ptr, res, *final(core), r.0@, r.1),
{
    let mut effects: Vec<Effect<R>> = Vec::new();
    match &core.phase {
        Phase::Joined { .. } => {},
        _ => {
            effects.push(Effect::RegErr(res, not_connected()));
            return (effects, Status::Alive);
        },
    }
    let request = match core.create_request() {
        Result::Ok(id) => id,
        Result::Err(e) => {
            effects.push(Effect::RegErr(res, e));
            return (effects, Status::Alive);
        },
    };
    core.pending_register.insert(request.0, (func_ptr, res));
    effects.push(
        Effect::Send(Msg::Register { request, options: Vec::new(), procedure: uri }),
    );
    (effects, Status::Alive)
}

/// Handler for an unregister request: drops the endpoint from the table
/// at once (late invocations are dropped), then sends UNREGISTER and
/// records the pending transaction. Unknown registration IDs fail without
/// touching the wire.
pub fn unregister<R, S, H>(core: &mut Core<R, S, H>, rpc_id: WampId, res: R) -> (r: (
    Vec<Effect<R>>,
    Status,
))
    requires
        old(core).wf(),
    ensures
        unregister_post(*old(core), rpc_id, res, *final(core), r.0@, r.1),
{
    let mut effects: Vec<Effect<R>> = Vec::new();
    match &core.phase {
        Phase::Joined { .. } => {},
        _ => {
            effects.push(Effect::TransErr(res, not_connected()));
            return (effects, Status::Alive);
        },
    }
    if !core.rpc_endpoints.contains(rpc_id.0) {
        effects.push(
            Effect::TransErr(
                res,
                WampError::UnknownError(
                    String::from_str("tried to unregister an unknown registration"),
                ),
            ),
        );
        return (effects, Status::Alive);
    }
    let request = match core.create_request() {
        Result::Ok(id) => id,
        Result::Err(e) => {
            effects.push(Effect::TransErr(res, e));
            return (effects, Status::Alive);
        },
    };
    let _ = core.rpc_endpoints.take(rpc_id.0);
    core.pending_transactions.insert(request.0, res);
    effects.push(Effect::Send(Msg::Unregister { request, registration: rpc_id }));
    (effects, Status::Alive)
}

/// Handler for an invocation result: a successful handler outcome becomes
/// YIELD with the same payload; a failed one becomes an ERROR against the
/// invocation, carrying the failure text as its only argument.
pub fn invoke_yield<R, S, H>(
    core: &mut Core<R, S, H>,
    request: WampId,
    res: Result<(Option<WampArgs>, Option<WampKwArgs>), WampString>,
) -> (r: (Vec<Effect<R>>, Status))
    requires
        old(core).wf(),
    ensures
        invoke_yield_post(*old(core), request, res, *final(core), r.0@, r.1),
{
    let mut effects: Vec<Effect<R>> = Vec::new();
    let msg: Msg = match res {
        Result::Ok((arguments, arguments_kw)) => Msg::Yield {
            request,
            options: Vec::new(),
            arguments,
            arguments_kw,
        },
        Result::Err(text) => {
            let mut args: WampArgs = Vec::new();
            args.push(PayloadValue::Text(text));
            Msg::Error {
                typ: INVOCATION_ID,
                request,
                details: Vec::new(),
                error: String::from_str("wamp.async.rs.rpc.failed"),
                arguments: Option::Some(args),
                arguments_kw: Option::None,
            }
        },
    };
    effects.push(Effect::Send(msg));
    (effects, Status::Alive)
}

/// Handler for a call request: draws a fresh request ID, records the
/// pending call, and sends CALL with the given options and payload.
pub fn call<R, S, H>(
    core: &mut Core<R, S, H>,
    uri: WampString,
    options: WampDict,
    arguments: Option<WampArgs>,
    arguments_kw: Option<WampKwArgs>,
    res: R,
) -> (r: (Vec<Effect<R>>, Status))
    requires
        old(core).wf(),
    ensures
        call_post(*old(core), uri, options, arguments, arguments_kw, res, *final(core), r.0@, r.1),
{
    let mut effects: Vec<Effect<R>> = Vec::new();
    match &core.phase {
        Phase::Joined { .. } => {},
        _ => {
            effects.push(Effect::CallErr(res, not_connected()));
            return (effects, Status::Alive);
        },
    }
    let request = match core.create_request() {
        Result::Ok(id) => id,
        Result::Err(e) => {
            effects.push(Effect::CallErr(res, e));
            return (effects, Status::Alive);
        },
    };
    core.pending_call.insert(request.0, res);
    effects.push(
        Effect::Send(
            Msg::Call { request, options, procedure: uri, arguments, arguments_kw },
        ),
    );
    (effects, Status::Alive)
}

/// Handler for WELCOME: completes the join handshake. A WELCOME outside
/// the Joining phase is dropped.
pub fn welcome<R, S, H>(core: &mut Core<R, S, H>, session: WampId, details: WampDict) -> (r: (
    Vec<Effect<R>>,
    Status,
))
    requires
        old(core).wf(),
    ensures
        welcome_post(*old(core), session, details, *final(core), r.0@, r.1),
{
    let mut effects: Vec<Effect<R>> = Vec::new();
    let mut phase = Phase::Terminated;
    core::mem::swap(&mut phase, &mut core.phase);
    match phase {
        Phase::Joining { res, .. } => {
            core.phase = Phase::Joined { session };
            effects.push(Effect::JoinOk(res, session, details));
        },
        other => {
            core.phase = other;
        },
    }
    (effects, Status::Alive)
}

/// Handler for CHALLENGE: hands the challenge to the configured handler.
/// With no handler configured, the join fails and the engine shuts down.
/// A CHALLENGE outside the Joining phase is dropped.
pub fn challenge<R, S, H>(
    core: &mut Core<R, S, H>,
    authentication_method: AuthenticationMethod,
    extra: WampDict,
) -> (r: (Vec<Effect<R>>, Status))
    requires
        old(core).wf(),
    ensures
        challenge_post(*old(core), authentication_method, extra, *final(core), r.0@, r.1),
{
    let mut effects: Vec<Effect<R>> = Vec::new();
    let mut phase = Phase::Terminated;
    core::mem::swap(&mut phase, &mut core.phase);
    match phase {
        Phase::Joining { res, has_handler } => {
            if has_handler {
                core.phase = Phase::Joining { res, has_handler };
                effects.push(Effect::Challenge(authentication_method, extra));
                (effects, Status::Alive)
            } else {
                effects.push(
                    Effect::JoinErr(
                        res,
                        WampError::UnknownError(
                            String::from_str(
                                "the server requested a challenge but no challenge handler was provided",
                            ),
                        ),
                    ),
                );
                (effects, Status::Shutdown)
            }
        },
        other => {
            core.phase = other;
            (effects, Status::Alive)
        },
    }
}

/// Handler for an unexpected reply while the join handshake is open: the
/// join fails with a protocol error and the engine shuts down.
pub fn join_protocol_error<R, S, H>(core: &mut Core<R, S, H>) -> (r: (Vec<Effect<R>>, Status))
    requires
        old(core).wf(),
        old(core).phase is Joining,
    ensures
        join_protocol_error_post(*old(core), *final(core), r.0@, r.1),
{
    let mut effects: Vec<Effect<R>> = Vec::new();
    let mut phase = Phase::Terminated;
    core::mem::swap(&mut phase, &mut core.phase);
    match phase {
        Phase::Joining { res, .. } => {
            effects.push(
                Effect::JoinErr(
                    res,
                    WampError::ProtocolError(
                        String::from_str("the server did not respond with WELCOME"),
                    ),
                ),
            );
        },
        _ => {},
    }
    (effects, Status::Shutdown)
}

/// Handler for GOODBYE from the peer. While the realm is joined, the
/// engine echoes GOODBYE with the goodbye-and-out reason and shuts down.
/// After our own leave, a goodbye-and-out is the acknowledgement and the
/// engine stays alive; any other goodbye is echoed and shuts down too.
pub fn goodbye<R, S, H>(core: &mut Core<R, S, H>, details: WampDict, reason: WampString) -> (r: (
    Vec<Effect<R>>,
    Status,
))
    requires
        old(core).wf(),
    ensures
        goodbye_post(*old(core), details, reason, *final(core), r.0@, r.1),
{
    let mut effects: Vec<Effect<R>> = Vec::new();
    let joined = match &core.phase {
        Phase::Joined { .. } => true,
        _ => false,
    };
    if !joined && crate::value::str_eq(reason.as_str(), "wamp.close.goodbye_and_out") {
        (effects, Status::Alive)
    } else {
        core.phase = Phase::Terminated;
        effects.push(
            Effect::Send(
                Msg::Goodbye {
                    details: Vec::new(),
                    reason: String::from_str("wamp.close.goodbye_and_out"),
                },
            ),
        );
        (effects, Status::Shutdown)
    }
}

/// Handler for ABORT: the engine shuts down at once, surfacing the
/// abort's reason as the connection's fatal protocol error.
pub fn abort<R, S, H>(core: &mut Core<R, S, H>, details: WampDict, reason: WampString) -> (r: (
    Vec<Effect<R>>,
    Status,
))
    requires
        old(core).wf(),
    ensures
        abort_post(*old(core), details, reason, *final(core), r.0@, r.1),
{
    core.phase = Phase::Terminated;
    let mut text = String::from_str("the router aborted the session: ");
    text.append(reason.as_str());
    let mut effects: Vec<Effect<R>> = Vec::new();
    effects.push(Effect::Fatal(WampError::ProtocolError(text)));
    (effects, Status::Shutdown)
}

/// Handler for SUBSCRIBED: moves the pending subscribe into the
/// subscription table, installing its event queue, and completes the
/// reply with the subscription ID. A SUBSCRIBED for an unknown request,
/// or naming a subscription ID already installed, is dropped.
pub fn subscribed<R, S, H>(core: &mut Core<R, S, H>, request: WampId, sub_id: WampId) -> (r: (
    Vec<Effect<R>>,
    Status,
))
    requires
        old(core).wf(),
    ensures
        subscribed_post(*old(core), request, sub_id, *final(core), r.0@, r.1),
{
    let mut effects: Vec<Effect<R>> = Vec::new();
    if core.subscriptions.contains(sub_id.0) {
        return (effects, Status::Alive);
    }
    match core.pending_sub.take(request.0) {
        Option::Some((queue, res)) => {
            core.subscriptions.insert(sub_id.0, queue);
            effects.push(Effect::SubOk(res, sub_id));
        },
        Option::None => {},
    }
    (effects, Status::Alive)
}

/// Handler for UNSUBSCRIBED: completes the pending transaction with no
/// ID. Unknown requests are dropped.
pub fn unsubscribed<R, S, H>(core: &mut Core<R, S, H>, request: WampId) -> (r: (
    Vec<Effect<R>>,
    Status,
))
    requires
        old(core).wf(),
    ensures
        unsubscribed_post(*old(core), request, *final(core), r.0@, r.1),
{
    let mut effects: Vec<Effect<R>> = Vec::new();
    match core.pending_transactions.take(request.0) {
        Option::Some(res) => {
            effects.push(Effect::TransOk(res, Option::None));
        },
        Option::None => {},
    }
    (effects, Status::Alive)
}

/// Handler for PUBLISHED: completes the pending transaction with the
/// publication ID. Unknown requests are dropped.
pub fn published<R, S, H>(core: &mut Core<R, S, H>, request: WampId, pub_id: WampId) -> (r: (
    Vec<Effect<R>>,
    Status,
))
    requires
        old(core).wf(),
    ensures
        published_post(*old(core), request, pub_id, *final(core), r.0@, r.1),
{
    let mut effects: Vec<Effect<R>> = Vec::new();
    match core.pending_transactions.take(request.0) {
        Option::Some(res) => {
            effects.push(Effect::TransOk(res, Option::Some(pub_id)));
        },
        Option::None => {},
    }
    (effects, Status::Alive)
}

/// Handler for EVENT: an event for an installed subscription is delivered
/// onto that subscription's queue; an event for an unknown subscription
/// is dropped. The engine never alters its tables here.
pub fn event<R, S, H>(
    core: &mut Core<R, S, H>,
    subscription: WampId,
    publication: WampId,
    details: WampDict,
    arguments: Option<WampArgs>,
    arguments_kw: Option<WampKwArgs>,
) -> (r: (Vec<Effect<R>>, Status))
    requires
        old(core).wf(),
    ensures
        event_post(*old(core), subscription, publication, details, arguments, arguments_kw, *final(core), r.0@, r.1),
{
    let mut effects: Vec<Effect<R>> = Vec::new();
    if core.subscriptions.contains(subscription.0) {
        effects.push(
            Effect::Deliver { subscription, publication, details, arguments, arguments_kw },
        );
    }
    (effects, Status::Alive)
}

/// Handler for REGISTERED: moves the pending register into the endpoint
/// table, installing its handler, and completes the reply with the
/// registration ID. A REGISTERED for an unknown request, or naming a
/// registration ID already installed, is dropped.
pub fn registered<R, S, H>(core: &mut Core<R, S, H>, request: WampId, rpc_id: WampId) -> (r: (
    Vec<Effect<R>>,
    Status,
))
    requires
        old(core).wf(),
    ensures
        registered_post(*old(core), request, rpc_id, *final(core), r.0@, r.1),
{
    let mut effects: Vec<Effect<R>> = Vec::new();
    if core.rpc_endpoints.contains(rpc_id.0) {
        return (effects, Status::Alive);
    }
    match core.pending_register.take(request.0) {
        Option::Some((func_ptr, res)) => {
            core.rpc_endpoints.insert(rpc_id.0, func_ptr);
            effects.push(Effect::RegOk(res, rpc_id));
        },
        Option::None => {},
    }
    (effects, Status::Alive)
}

/// Handler for UNREGISTERED: completes the pending transaction with no
/// ID. Unknown requests are dropped.
pub fn unregisterd<R, S, H>(core: &mut Core<R, S, H>, request: WampId) -> (r: (
    Vec<Effect<R>>,
    Status,
))
    requires
        old(core).wf(),
    ensures
        unregisterd_post(*old(core), request, *final(core), r.0@, r.1),
{
    let mut effects: Vec<Effect<R>> = Vec::new();
    match core.pending_transactions.take(request.0) {
        Option::Some(res) => {
            effects.push(Effect::TransOk(res, Option::None));
        },
        Option::None => {},
    }
    (effects, Status::Alive)
}

/// Handler for INVOCATION: an invocation of an installed registration is
/// handed to the application to drive; one for an unknown registration is
/// dropped. The handler stays installed, so in-flight invocations keep
/// running after an unregister.
pub fn invocation<R, S, H>(
    core: &mut Core<R, S, H>,
    request: WampId,
    registration: WampId,
    details: WampDict,
    arguments: Option<WampArgs>,
    arguments_kw: Option<WampKwArgs>,
) -> (r: (Vec<Effect<R>>, Status))
    requires
        old(core).wf(),
    ensures
        invocation_post(*old(core), request, registration, details, arguments, arguments_kw, *final(core), r.0@, r.1),
{
    let mut effects: Vec<Effect<R>> = Vec::new();
    if core.rpc_endpoints.contains(registration.0) {
        effects.push(Effect::Invoke { request, registration, arguments, arguments_kw });
    }
    (effects, Status::Alive)
}

/// Handler for RESULT: completes the pending call with the returned
/// payload. Unknown requests are dropped.
pub fn call_result<R, S, H>(
    core: &mut Core<R, S, H>,
    request: WampId,
    details: WampDict,
    arguments: Option<WampArgs>,
    arguments_kw: Option<WampKwArgs>,
) -> (r: (Vec<Effect<R>>, Status))
    requires
        old(core).wf(),
    ensures
        call_result_post(*old(core), request, details, arguments, arguments_kw, *final(core), r.0@, r.1),
{
    let mut effects: Vec<Effect<R>> = Vec::new();
    match core.pending_call.take(request.0) {
        Option::Some(res) => {
            effects.push(Effect::CallOk(res, arguments, arguments_kw));
        },
        Option::None => {},
    }
    (effects, Status::Alive)
}

/// Handler for an ERROR from the peer: the pending table named by the
/// error's request type is looked up, and that exchange fails with a
/// server error carrying the error URI and its details. Unknown types and
/// unknown requests are dropped.
pub fn error<R, S, H>(
    core: &mut Core<R, S, H>,
    typ: u64,
    request: WampId,
    details: WampDict,
    error_uri: WampString,
    arguments: Option<WampArgs>,
    arguments_kw: Option<WampKwArgs>,
) -> (r: (Vec<Effect<R>>, Status))
    requires
        old(core).wf(),
    ensures
        error_post(*old(core), typ, request, details, error_uri, arguments, arguments_kw, *final(core), r.0@, r.1),
{
    let mut effects: Vec<Effect<R>> = Vec::new();
    let err = WampError::ServerError(error_uri, details);
    if typ == crate::msg::SUBSCRIBE_ID {
        match core.pending_sub.take(request.0) {
            Option::Some((_queue, res)) => {
                effects.push(Effect::SubErr(res, err));
            },
            Option::None => {},
        }
    } else if typ == crate::msg::REGISTER_ID {
        match core.pending_register.take(request.0) {
            Option::Some((_func, res)) => {
                effects.push(Effect::RegErr(res, err));
            },
            Option::None => {},
        }
    } else if typ == crate::msg::CALL_ID {
        match core.pending_call.take(request.0) {
            Option::Some(res) => {
                effects.push(Effect::CallErr(res, err));
            },
            Option::None => {},
        }
    } else if typ == crate::msg::PUBLISH_ID || typ == crate::msg::UNSUBSCRIBE_ID || typ
        == crate::msg::UNREGISTER_ID {
        match core.pending_transactions.take(request.0) {
            Option::Some(res) => {
                effects.push(Effect::TransErr(res, err));
            },
            Option::None => {},
        }
    }
    (effects, Status::Alive)
}

/// Builds the error every reply still pending at disconnect receives.
fn disconnect_error() -> (e: WampError)
    ensures
        e matches WampError::ConnectionError(TransportError::ConnectionFailed),
{
    WampError::ConnectionError(TransportError::ConnectionFailed)
}

/// A list of nothing but completions counts one reply per effect.
proof fn lemma_reply_count_all<R>(effects: Seq<Effect<R>>)
    requires
        forall|i: int| 0 <= i < effects.len() ==> is_reply_effect(#[trigger] effects[i]),
    ensures
        reply_count(effects) == effects.len(),
    decreases effects.len(),
{
    if effects.len() > 0 {
        assert(forall|i: int|
            0 <= i < effects.drop_last().len() ==> is_reply_effect(
                #[trigger] effects.drop_last()[i],
            ));
        lemma_reply_count_all(effects.drop_last());
    }
}

/// Drains the engine at shutdown: every reply still pending — the join
/// handshake included — fails with a disconnect error, every table is
/// left empty, and the engine is Terminated. No reply token is lost: the
/// effects carry one completion for each formerly pending entry, in table
/// order.
#[verifier::loop_isolation(false)]
pub fn drain<R, S, H>(core: &mut Core<R, S, H>) -> (r: Vec<Effect<R>>)
    requires
        old(core).wf(),
    ensures
        final(core).wf(),
        final(core).phase is Terminated,
        final(core).pending_ids() =~= Set::empty(),
        final(core).subscriptions.entries@.len() == 0,
        final(core).rpc_endpoints.entries@.len() == 0,
        pending_reply_count(*final(core)) == 0,
        reply_count(r@) == pending_reply_count(*old(core)),
        ({
            let joining = if old(core).phase is Joining {
                1int
            } else {
                0int
            };
            let t = old(core).pending_transactions.entries@;
            let s = old(core).pending_sub.entries@;
            let g = old(core).pending_register.entries@;
            let c = old(core).pending_call.entries@;
            &&& r@.len() == joining + t.len() + s.len() + g.len() + c.len()
            &&& (old(core).phase matches Phase::Joining { res, .. } ==> (r@[0] matches
                Effect::JoinErr(r2, e) && r2 == res && e matches WampError::ConnectionError(_)))
            &&& (forall|i: int|
                0 <= i < t.len() ==> (#[trigger] r@[joining + i] matches Effect::TransErr(r2, e)
                    && r2 == t[i].1 && e matches WampError::ConnectionError(_)))
            &&& (forall|i: int|
                0 <= i < s.len() ==> (#[trigger] r@[joining + t.len() + i] matches Effect::SubErr(
                    r2,
                    e,
                ) && r2 == s[i].1.1 && e matches WampError::ConnectionError(_)))
            &&& (forall|i: int|
                0 <= i < g.len() ==> (#[trigger] r@[joining + t.len() + s.len() + i] matches
                    Effect::RegErr(r2, e) && r2 == g[i].1.1 && e matches
                    WampError::ConnectionError(_)))
            &&& (forall|i: int|
                0 <= i < c.len() ==> (#[trigger] r@[joining + t.len() + s.len() + g.len()
                    + i] matches Effect::CallErr(r2, e) && r2 == c[i].1 && e matches
                    WampError::ConnectionError(_)))
        }),
{
    let mut effects: Vec<Effect<R>> = Vec::new();
    let mut phase = Phase::Terminated;
    core::mem::swap(&mut phase, &mut core.phase);
    match phase {
        Phase::Joining { res, .. } => {
            effects.push(Effect::JoinErr(res, disconnect_error()));
        },
        _ => {},
    }
    let ghost joining = if old(core).phase is Joining { 1int } else { 0int };

    let mut trans = core.pending_transactions.drain_entries();
    let ghost t = old(core).pending_transactions.entries@;
    let ghost mut i: int = 0;
    while trans.len() > 0
        invariant
            0 <= i <= t.len(),
            trans@.len() == t.len() - i,
            trans@ == t.skip(i),
            effects@.len() == joining + i,
            old(core).phase matches Phase::Joining { res, .. } ==> (effects@[0] matches
                Effect::JoinErr(r2, e) && r2 == res && e matches WampError::ConnectionError(_)),
            forall|j: int|
                0 <= j < i ==> (#[trigger] effects@[joining + j] matches Effect::TransErr(r2, e)
                    && r2 == t[j].1 && e matches WampError::ConnectionError(_)),
        decreases trans@.len(),
    {
        let (_, res) = trans.remove(0);
        proof {
            assert(t.skip(i)[0] == t[i]);
            assert(t.skip(i).drop_first() =~= t.skip(i + 1));
        }
        effects.push(Effect::TransErr(res, disconnect_error()));
        proof {
            i = i + 1;
        }
    }

    let mut subs = core.pending_sub.drain_entries();
    let ghost s = old(core).pending_sub.entries@;
    let ghost mut i2: int = 0;
    while subs.len() > 0
        invariant
            0 <= i2 <= s.len(),
            subs@ == s.skip(i2),
            effects@.len() == joining + t.len() + i2,
            old(core).phase matches Phase::Joining { res, .. } ==> (effects@[0] matches
                Effect::JoinErr(r2, e) && r2 == res && e matches WampError::ConnectionError(_)),
            forall|j: int|
                0 <= j < t.len() ==> (#[trigger] effects@[joining + j] matches Effect::TransErr(
                    r2,
                    e,
                ) && r2 == t[j].1 && e matches WampError::ConnectionError(_)),
            forall|j: int|
                0 <= j < i2 ==> (#[trigger] effects@[joining + t.len() + j] matches
                    Effect::SubErr(r2, e) && r2 == s[j].1.1 && e matches
                    WampError::ConnectionError(_)),
        decreases subs@.len(),
    {
        let (_, qr) = subs.remove(0);
        proof {
            assert(s.skip(i2)[0] == s[i2]);
            assert(s.skip(i2).drop_first() =~= s.skip(i2 + 1));
        }
        effects.push(Effect::SubErr(qr.1, disconnect_error()));
        proof {
            i2 = i2 + 1;
        }
    }

    let mut regs = core.pending_register.drain_entries();
    let ghost g = old(core).pending_register.entries@;
    let ghost mut i3: int = 0;
    while regs.len() > 0
        invariant
            0 <= i3 <= g.len(),
            regs@ == g.skip(i3),
            effects@.len() == joining + t.len() + s.len() + i3,
            old(core).phase matches Phase::Joining { res, .. } ==> (effects@[0] matches
                Effect::JoinErr(r2, e) && r2 == res && e matches WampError::ConnectionError(_)),
            forall|j: int|
                0 <= j < t.len() ==> (#[trigger] effects@[joining + j] matches Effect::TransErr(
                    r2,
                    e,
                ) && r2 == t[j].1 && e matches WampError::ConnectionError(_)),
            forall|j: int|
                0 <= j < s.len() ==> (#[trigger] effects@[joining + t.len() + j] matches
                    Effect::SubErr(r2, e) && r2 == s[j].1.1 && e matches
                    WampError::ConnectionError(_)),
            forall|j: int|
                0 <= j < i3 ==> (#[trigger] effects@[joining + t.len() + s.len() + j] matches
                    Effect::RegErr(r2, e) && r2 == g[j].1.1 && e matches
                    WampError::ConnectionError(_)),
        decreases regs@.len(),
    {
        let (_, hr) = regs.remove(0);
        proof {
            assert(g.skip(i3)[0] == g[i3]);
            assert(g.skip(i3).drop_first() =~= g.skip(i3 + 1));
        }
        effects.push(Effect::RegErr(hr.1, disconnect_error()));
        proof {
            i3 = i3 + 1;
        }
    }

    let mut calls = core.pending_call.drain_entries();
    let ghost c = old(core).pending_call.entries@;
    let ghost mut i4: int = 0;
    while calls.len() > 0
        invariant
            0 <= i4 <= c.len(),
            calls@ == c.skip(i4),
            effects@.len() == joining + t.len() + s.len() + g.len() + i4,
            old(core).phase matches Phase::Joining { res, .. } ==> (effects@[0] matches
                Effect::JoinErr(r2, e) && r2 == res && e matches WampError::ConnectionError(_)),
            forall|j: int|
                0 <= j < t.len() ==> (#[trigger] effects@[joining + j] matches Effect::TransErr(
                    r2,
                    e,
                ) && r2 == t[j].1 && e matches WampError::ConnectionError(_)),
            forall|j: int|
                0 <= j < s.len() ==> (#[trigger] effects@[joining + t.len() + j] matches
                    Effect::SubErr(r2, e) && r2 == s[j].1.1 && e matches
                    WampError::ConnectionError(_)),
            forall|j: int|
                0 <= j < g.len() ==> (#[trigger] effects@[joining + t.len() + s.len() + j] matches
                    Effect::RegErr(r2, e) && r2 == g[j].1.1 && e matches
                    WampError::ConnectionError(_)),
            forall|j: int|
                0 <= j < i4 ==> (#[trigger] effects@[joining + t.len() + s.len() + g.len()
                    + j] matches Effect::CallErr(r2, e) && r2 == c[j].1 && e matches
                    WampError::ConnectionError(_)),
        decreases calls@.len(),
    {
        let (_, res) = calls.remove(0);
        proof {
            assert(c.skip(i4)[0] == c[i4]);
            assert(c.skip(i4).drop_first() =~= c.skip(i4 + 1));
        }
        effects.push(Effect::CallErr(res, disconnect_error()));
        proof {
            i4 = i4 + 1;
        }
    }

    let _ = core.subscriptions.drain_entries();
    let _ = core.rpc_endpoints.drain_entries();
    proof {
        lemma_core_counts(*core);
        lemma_core_counts(*old(core));
        let joining = if old(core).phase is Joining {
            1int
        } else {
            0int
        };
        let t = old(core).pending_transactions.entries@;
        let s2 = old(core).pending_sub.entries@;
        let g = old(core).pending_register.entries@;
        let c2 = old(core).pending_call.entries@;
        assert forall|i: int| 0 <= i < effects@.len() implies is_reply_effect(
            #[trigger] effects@[i],
        ) by {
            if i < joining {
                assert(effects@[0] matches Effect::JoinErr(_, _));
            } else if i < joining + t.len() {
                assert(effects@[joining + (i - joining)] matches Effect::TransErr(_, _));
            } else if i < joining + t.len() + s2.len() {
                assert(effects@[joining + t.len() + (i - joining - t.len())] matches
                    Effect::SubErr(_, _));
            } else if i < joining + t.len() + s2.len() + g.len() {
                assert(effects@[joining + t.len() + s2.len() + (i - joining - t.len()
                    - s2.len())] matches Effect::RegErr(_, _));
            } else {
                assert(effects@[joining + t.len() + s2.len() + g.len() + (i - joining - t.len()
                    - s2.len() - g.len())] matches Effect::CallErr(_, _));
            }
        }
        lemma_reply_count_all(effects@);
    }
    effects
}

/// What holds after [`join_realm`]: its full postcondition, named so the
/// dispatchers can restate it.
pub open spec fn join_realm_post<R, S, H>(
    pre: Core<R, S, H>,
    uri: WampString,
    roles: Vec<ClientRole>,
    agent_str: Option<WampString>,
    authentication_methods: Vec<AuthenticationMethod>,
    authextra: Option<Vec<(WampString,
    WampString)>>,
    authid: Option<WampString>,
    has_challenge_handler: bool,
    res: R,
    post: Core<R, S, H>,
    effects: Seq<Effect<R>>,
    st: Status,
) -> bool {
    &&& (post.wf())
    &&& (st == Status::Alive)
    &&& (!(pre.phase is Unjoined) ==> {
            &&& post == pre
            &&& effects.len() == 1
            &&& (effects[0] matches Effect::JoinErr(r2, e) && r2 == res && e matches
                WampError::UnknownError(_))
        })
    &&& (pre.phase is Unjoined ==> {
            &&& tables_unchanged(pre, post)
            &&& (post.phase matches Phase::Joining { res: r2, has_handler } && r2 == res
                && has_handler == has_challenge_handler)
            &&& effects.len() == 1
            &&& (effects[0] matches Effect::Send(m) && m matches Msg::Hello { realm, details }
                && realm == uri && view_dict(details) == hello_details(
                roles@,
                view_opt_str(agent_str),
                authentication_methods@,
                match authextra {
                    Option::Some(e) => pubkey_of(e@),
                    Option::None => Option::None,
                },
                view_opt_str(authid),
            ))
        })
}

/// What holds after [`authenticate`]: its full postcondition, named so the
/// dispatchers can restate it.
pub open spec fn authenticate_post<R, S, H>(
    pre: Core<R, S, H>,
    response: AuthenticationChallengeResponse,
    post: Core<R, S, H>,
    effects: Seq<Effect<R>>,
    st: Status,
) -> bool {
    &&& (post.wf())
    &&& (post == pre)
    &&& (st == Status::Alive)
    &&& (pre.phase is Joining ==> effects.len() == 1 && (effects[0] matches Effect::Send(m)
            && m matches Msg::Authenticate { signature, extra } && signature == response.signature
            && extra == response.extra))
    &&& (!(pre.phase is Joining) ==> effects.len() == 0)
}

/// What holds after [`leave_realm`]: its full postcondition, named so the
/// dispatchers can restate it.
pub open spec fn leave_realm_post<R, S, H>(
    pre: Core<R, S, H>,
    res: R,
    post: Core<R, S, H>,
    effects: Seq<Effect<R>>,
    st: Status,
) -> bool {
    &&& (post.wf())
    &&& (st == Status::Alive)
    &&& (tables_unchanged(pre, post))
    &&& (pre.phase is Joined ==> {
            &&& post.phase is Leaving
            &&& effects.len() == 2
            &&& (effects[0] matches Effect::Send(m) && m matches Msg::Goodbye { details, reason }
                && details@.len() == 0 && reason@ == "wamp.close.close_realm"@)
            &&& (effects[1] matches Effect::UnitOk(r2) && r2 == res)
        })
    &&& (!(pre.phase is Joined) ==> {
            &&& post.phase == pre.phase
            &&& effects.len() == 1
            &&& (effects[0] matches Effect::UnitErr(r2, e) && r2 == res && e matches
                WampError::UnknownError(_))
        })
}

/// What holds after [`subscribe`]: its full postcondition, named so the
/// dispatchers can restate it.
pub open spec fn subscribe_post<R, S, H>(
    pre: Core<R, S, H>,
    topic: WampString,
    options: WampDict,
    queue: S,
    res: R,
    post: Core<R, S, H>,
    effects: Seq<Effect<R>>,
    st: Status,
) -> bool {
    &&& (post.wf())
    &&& (st == Status::Alive)
    &&& (effects.len() == 1)
    &&& (!(pre.phase is Joined) ==> post == pre && (effects[0] matches
            Effect::SubErr(r2, e) && r2 == res))
    &&& (pre.phase is Joined ==> match effects[0] {
            Effect::SubErr(r2, e) => r2 == res && e is RequestIdCollision && post == pre,
            Effect::Send(m) => {
                &&& m matches Msg::Subscribe { request, options: o2, topic: t2 } && t2 == topic
                    && o2 == options && request.wf() && !pre.pending_ids().contains(
                    request.0,
                ) && post.pending_sub@ == pre.pending_sub@.insert(
                    request.0,
                    (queue, res),
                )
                &&& post.phase == pre.phase
                &&& post.pending_transactions == pre.pending_transactions
                &&& post.pending_register == pre.pending_register
                &&& post.pending_call == pre.pending_call
                &&& post.subscriptions == pre.subscriptions
                &&& post.rpc_endpoints == pre.rpc_endpoints
            },
            _ => false,
        })
}

/// What holds after [`unsubscribe`]: its full postcondition, named so the
/// dispatchers can restate it.
pub open spec fn unsubscribe_post<R, S, H>(
    pre: Core<R, S, H>,
    sub_id: WampId,
    res: R,
    post: Core<R, S, H>,
    effects: Seq<Effect<R>>,
    st: Status,
) -> bool {
    &&& (post.wf())
    &&& (st == Status::Alive)
    &&& (effects.len() == 1)
    &&& (!(pre.phase is Joined) ==> post == pre && (effects[0] matches
            Effect::TransErr(r2, _) && r2 == res))
    &&& (pre.phase is Joined && !pre.subscriptions@.contains_key(sub_id.0) ==> post == pre && (effects[0] matches Effect::TransErr(r2, e) && r2 == res && e matches
            WampError::UnknownError(_)))
    &&& (pre.phase is Joined && pre.subscriptions@.contains_key(sub_id.0) ==> match effects[0] {
            Effect::TransErr(r2, e) => r2 == res && e is RequestIdCollision && post == pre,
            Effect::Send(m) => {
                &&& m matches Msg::Unsubscribe { request, subscription } && subscription == sub_id
                    && request.wf() && !pre.pending_ids().contains(request.0)
                    && post.pending_transactions@ == pre.pending_transactions@.insert(request.0, res)
                &&& post.subscriptions@ == pre.subscriptions@.remove(sub_id.0)
                &&& post.phase == pre.phase
                &&& post.pending_sub == pre.pending_sub
                &&& post.pending_register == pre.pending_register
                &&& post.pending_call == pre.pending_call
                &&& post.rpc_endpoints == pre.rpc_endpoints
            },
            _ => false,
        })
}

/// What holds after [`publish`]: its full postcondition, named so the
/// dispatchers can restate it.
pub open spec fn publish_post<R, S, H>(
    pre: Core<R, S, H>,
    uri: WampString,
    options: WampDict,
    arguments: Option<WampArgs>,
    arguments_kw: Option<WampKwArgs>,
    res: R,
    post: Core<R, S, H>,
    effects: Seq<Effect<R>>,
    st: Status,
) -> bool {
    &&& (post.wf())
    &&& (st == Status::Alive)
    &&& (!(pre.phase is Joined) ==> post == pre && effects.len() == 1 && (
        effects[0] matches Effect::TransErr(r2, _) && r2 == res))
    &&& (pre.phase is Joined ==> match effects[0] {
            Effect::TransErr(r2, e) => r2 == res && e is RequestIdCollision && post == pre && effects.len() == 1,
            Effect::Send(m) => {
                &&& m matches Msg::Publish {
                    request,
                    options: o2,
                    topic,
                    arguments: a2,
                    arguments_kw: k2,
                } && topic == uri && o2 == options && a2 == arguments && k2 == arguments_kw
                    && request.wf() && !pre.pending_ids().contains(request.0)
                &&& post.phase == pre.phase
                &&& post.pending_sub == pre.pending_sub
                &&& post.pending_register == pre.pending_register
                &&& post.pending_call == pre.pending_call
                &&& post.subscriptions == pre.subscriptions
                &&& post.rpc_endpoints == pre.rpc_endpoints
                &&& if dict_flag(view_dict(options), "acknowledge"@) {
                    effects.len() == 1 && post.pending_transactions@ == pre.pending_transactions@.insert((m -> Publish_request).0, res)
                } else {
                    effects.len() == 2 && (effects[1] matches Effect::TransOk(r2, p) && r2 == res
                        && p is None) && post.pending_transactions == pre.pending_transactions
                }
            },
            _ => false,
        })
}

/// What holds after [`register`]: its full postcondition, named so the
/// dispatchers can restate it.
pub open spec fn register_post<R, S, H>(
    pre: Core<R, S, H>,
    uri: WampString,
    func_ptr: H,
    res: R,
    post: Core<R, S, H>,
    effects: Seq<Effect<R>>,
    st: Status,
) -> bool {
    &&& (post.wf())
    &&& (st == Status::Alive)
    &&& (effects.len() == 1)
    &&& (!(pre.phase is Joined) ==> post == pre && (effects[0] matches
            Effect::RegErr(r2, _) && r2 == res))
    &&& (pre.phase is Joined ==> match effects[0] {
            Effect::RegErr(r2, e) => r2 == res && e is RequestIdCollision && post == pre,
            Effect::Send(m) => {
                &&& m matches Msg::Register { request, options, procedure } && procedure == uri
                    && options@.len() == 0 && request.wf() && !pre.pending_ids().contains(
                    request.0,
                ) && post.pending_register@ == pre.pending_register@.insert(
                    request.0,
                    (func_ptr, res),
                )
                &&& post.phase == pre.phase
                &&& post.pending_transactions == pre.pending_transactions
                &&& post.pending_sub == pre.pending_sub
                &&& post.pending_call == pre.pending_call
                &&& post.subscriptions == pre.subscriptions
                &&& post.rpc_endpoints == pre.rpc_endpoints
            },
            _ => false,
        })
}

/// What holds after [`unregister`]: its full postcondition, named so the
/// dispatchers can restate it.
pub open spec fn unregister_post<R, S, H>(
    pre: Core<R, S, H>,
    rpc_id: WampId,
    res: R,
    post: Core<R, S, H>,
    effects: Seq<Effect<R>>,
    st: Status,
) -> bool {
    &&& (post.wf())
    &&& (st == Status::Alive)
    &&& (effects.len() == 1)
    &&& (!(pre.phase is Joined) ==> post == pre && (effects[0] matches
            Effect::TransErr(r2, _) && r2 == res))
    &&& (pre.phase is Joined && !pre.rpc_endpoints@.contains_key(rpc_id.0) ==> post == pre && (effects[0] matches Effect::TransErr(r2, e) && r2 == res && e matches
            WampError::UnknownError(_)))
    &&& (pre.phase is Joined && pre.rpc_endpoints@.contains_key(rpc_id.0) ==> match effects[0] {
            Effect::TransErr(r2, e) => r2 == res && e is RequestIdCollision && post == pre,
            Effect::Send(m) => {
                &&& m matches Msg::Unregister { request, registration } && registration == rpc_id
                    && request.wf() && !pre.pending_ids().contains(request.0)
                    && post.pending_transactions@ == pre.pending_transactions@.insert(request.0, res)
                &&& post.rpc_endpoints@ == pre.rpc_endpoints@.remove(rpc_id.0)
                &&& post.phase == pre.phase
                &&& post.pending_sub == pre.pending_sub
                &&& post.pending_register == pre.pending_register
                &&& post.pending_call == pre.pending_call
                &&& post.subscriptions == pre.subscriptions
            },
            _ => false,
        })
}

/// What holds after [`invoke_yield`]: its full postcondition, named so the
/// dispatchers can restate it.
pub open spec fn invoke_yield_post<R, S, H>(
    pre: Core<R, S, H>,
    request: WampId,
    res: Result<(Option<WampArgs>,
    Option<WampKwArgs>),
    WampString>,
    post: Core<R, S, H>,
    effects: Seq<Effect<R>>,
    st: Status,
) -> bool {
    &&& (post.wf())
    &&& (post == pre)
    &&& (st == Status::Alive)
    &&& (effects.len() == 1)
    &&& (match res {
            Result::Ok(p) => effects[0] matches Effect::Send(m) && m matches Msg::Yield {
                request: q2,
                options,
                arguments,
                arguments_kw,
            } && q2 == request && options@.len() == 0 && arguments == p.0 && arguments_kw == p.1,
            Result::Err(text) => effects[0] matches Effect::Send(m) && m matches Msg::Error {
                typ,
                request: q2,
                details,
                error,
                arguments,
                arguments_kw,
            } && typ == INVOCATION_ID && q2 == request && details@.len() == 0 && error@
                == "wamp.async.rs.rpc.failed"@ && (arguments matches Option::Some(a) && a@.len()
                == 1 && (a@[0] matches PayloadValue::Text(s) && s@ == text@)) && arguments_kw is None,
        })
}

/// What holds after [`call`]: its full postcondition, named so the
/// dispatchers can restate it.
pub open spec fn call_post<R, S, H>(
    pre: Core<R, S, H>,
    uri: WampString,
    options: WampDict,
    arguments: Option<WampArgs>,
    arguments_kw: Option<WampKwArgs>,
    res: R,
    post: Core<R, S, H>,
    effects: Seq<Effect<R>>,
    st: Status,
) -> bool {
    &&& (post.wf())
    &&& (st == Status::Alive)
    &&& (effects.len() == 1)
    &&& (!(pre.phase is Joined) ==> post == pre && (effects[0] matches
            Effect::CallErr(r2, _) && r2 == res))
    &&& (pre.phase is Joined ==> match effects[0] {
            Effect::CallErr(r2, e) => r2 == res && e is RequestIdCollision && post == pre,
            Effect::Send(m) => {
                &&& m matches Msg::Call {
                    request,
                    options: o2,
                    procedure,
                    arguments: a2,
                    arguments_kw: k2,
                } && procedure == uri && o2 == options && a2 == arguments && k2 == arguments_kw
                    && request.wf() && !pre.pending_ids().contains(request.0)
                    && post.pending_call@ == pre.pending_call@.insert(request.0, res)
                &&& post.phase == pre.phase
                &&& post.pending_transactions == pre.pending_transactions
                &&& post.pending_sub == pre.pending_sub
                &&& post.pending_register == pre.pending_register
                &&& post.subscriptions == pre.subscriptions
                &&& post.rpc_endpoints == pre.rpc_endpoints
            },
            _ => false,
        })
}

/// What holds after [`welcome`]: its full postcondition, named so the
/// dispatchers can restate it.
pub open spec fn welcome_post<R, S, H>(
    pre: Core<R, S, H>,
    session: WampId,
    details: WampDict,
    post: Core<R, S, H>,
    effects: Seq<Effect<R>>,
    st: Status,
) -> bool {
    &&& (post.wf())
    &&& (st == Status::Alive)
    &&& (tables_unchanged(pre, post))
    &&& ((pre.phase matches Phase::Joining { res, .. }) ==> {
            &&& (post.phase matches Phase::Joined { session: s2 } && s2 == session)
            &&& effects.len() == 1
            &&& (effects[0] matches Effect::JoinOk(r2, s2, d2) && r2 == pre.phase
                -> Joining_res && s2 == session && d2 == details)
        })
    &&& (!(pre.phase is Joining) ==> post == pre && effects.len() == 0)
}

/// What holds after [`challenge`]: its full postcondition, named so the
/// dispatchers can restate it.
pub open spec fn challenge_post<R, S, H>(
    pre: Core<R, S, H>,
    authentication_method: AuthenticationMethod,
    extra: WampDict,
    post: Core<R, S, H>,
    effects: Seq<Effect<R>>,
    st: Status,
) -> bool {
    &&& (post.wf())
    &&& (tables_unchanged(pre, post))
    &&& ((pre.phase matches Phase::Joining { res, has_handler: true }) ==> {
            &&& post == pre
            &&& st == Status::Alive
            &&& effects.len() == 1
            &&& (effects[0] matches Effect::Challenge(m2, e2) && m2 == authentication_method && e2
                == extra)
        })
    &&& ((pre.phase matches Phase::Joining { res, has_handler: false }) ==> {
            &&& post.phase is Terminated
            &&& st == Status::Shutdown
            &&& effects.len() == 1
            &&& (effects[0] matches Effect::JoinErr(r2, e) && r2 == pre.phase -> Joining_res
                && e matches WampError::UnknownError(_))
        })
    &&& (!(pre.phase is Joining) ==> post == pre && effects.len() == 0 && st
            == Status::Alive)
}

/// What holds after [`join_protocol_error`]: its full postcondition, named so the
/// dispatchers can restate it.
pub open spec fn join_protocol_error_post<R, S, H>(
    pre: Core<R, S, H>,
    post: Core<R, S, H>,
    effects: Seq<Effect<R>>,
    st: Status,
) -> bool {
    &&& (post.wf())
    &&& (tables_unchanged(pre, post))
    &&& (post.phase is Terminated)
    &&& (st == Status::Shutdown)
    &&& (effects.len() == 1)
    &&& ((effects[0] matches Effect::JoinErr(r2, e) && r2 == pre.phase -> Joining_res
            && e matches WampError::ProtocolError(_)))
}

/// What holds after [`goodbye`]: its full postcondition, named so the
/// dispatchers can restate it.
pub open spec fn goodbye_post<R, S, H>(
    pre: Core<R, S, H>,
    details: WampDict,
    reason: WampString,
    post: Core<R, S, H>,
    effects: Seq<Effect<R>>,
    st: Status,
) -> bool {
    &&& (post.wf())
    &&& (tables_unchanged(pre, post))
    &&& (!pre.realm_joined() && reason@ == "wamp.close.goodbye_and_out"@ ==> post
            == pre && effects.len() == 0 && st == Status::Alive)
    &&& (pre.realm_joined() || reason@ != "wamp.close.goodbye_and_out"@ ==> {
            &&& post.phase is Terminated
            &&& st == Status::Shutdown
            &&& effects.len() == 1
            &&& (effects[0] matches Effect::Send(m) && m matches Msg::Goodbye {
                details: d2,
                reason: r2,
            } && d2@.len() == 0 && r2@ == "wamp.close.goodbye_and_out"@)
        })
}

/// What holds after [`abort`]: its full postcondition, named so the
/// dispatchers can restate it.
pub open spec fn abort_post<R, S, H>(
    pre: Core<R, S, H>,
    details: WampDict,
    reason: WampString,
    post: Core<R, S, H>,
    effects: Seq<Effect<R>>,
    st: Status,
) -> bool {
    &&& (post.wf())
    &&& (tables_unchanged(pre, post))
    &&& (post.phase is Terminated)
    &&& (st == Status::Shutdown)
    &&& (effects.len() == 1)
    &&& (effects[0] matches Effect::Fatal(e) && (e matches WampError::ProtocolError(s) && s@
        == "the router aborted the session: "@ + reason@))
}

/// What holds after [`subscribed`]: its full postcondition, named so the
/// dispatchers can restate it.
pub open spec fn subscribed_post<R, S, H>(
    pre: Core<R, S, H>,
    request: WampId,
    sub_id: WampId,
    post: Core<R, S, H>,
    effects: Seq<Effect<R>>,
    st: Status,
) -> bool {
    &&& (post.wf())
    &&& (st == Status::Alive)
    &&& (!pre.pending_sub@.contains_key(request.0) || pre.subscriptions@.contains_key(sub_id.0) ==> state_eq(pre, post)
            && effects.len() == 0)
    &&& (pre.pending_sub@.contains_key(request.0) && !pre.subscriptions@.contains_key(sub_id.0) ==> {
            &&& post.pending_sub@ == pre.pending_sub@.remove(request.0)
            &&& post.subscriptions@ == pre.subscriptions@.insert(
                sub_id.0,
                pre.pending_sub@[request.0].0,
            )
            &&& post.phase == pre.phase
            &&& post.pending_transactions == pre.pending_transactions
            &&& post.pending_register == pre.pending_register
            &&& post.pending_call == pre.pending_call
            &&& post.rpc_endpoints == pre.rpc_endpoints
            &&& effects.len() == 1
            &&& (effects[0] matches Effect::SubOk(r2, s2) && r2 == pre.pending_sub@[request.0].1 && s2 == sub_id)
        })
}

/// What holds after [`unsubscribed`]: its full postcondition, named so the
/// dispatchers can restate it.
pub open spec fn unsubscribed_post<R, S, H>(
    pre: Core<R, S, H>,
    request: WampId,
    post: Core<R, S, H>,
    effects: Seq<Effect<R>>,
    st: Status,
) -> bool {
    &&& (post.wf())
    &&& (st == Status::Alive)
    &&& (!pre.pending_transactions@.contains_key(request.0) ==> state_eq(
            pre,
            post,
        ) && effects.len() == 0)
    &&& (pre.pending_transactions@.contains_key(request.0) ==> {
            &&& post.pending_transactions@ == pre.pending_transactions@.remove(
                request.0,
            )
            &&& post.phase == pre.phase
            &&& post.pending_sub == pre.pending_sub
            &&& post.pending_register == pre.pending_register
            &&& post.pending_call == pre.pending_call
            &&& post.subscriptions == pre.subscriptions
            &&& post.rpc_endpoints == pre.rpc_endpoints
            &&& effects.len() == 1
            &&& (effects[0] matches Effect::TransOk(r2, p) && r2 == pre.pending_transactions@[request.0] && p is None)
        })
}

/// What holds after [`published`]: its full postcondition, named so the
/// dispatchers can restate it.
pub open spec fn published_post<R, S, H>(
    pre: Core<R, S, H>,
    request: WampId,
    pub_id: WampId,
    post: Core<R, S, H>,
    effects: Seq<Effect<R>>,
    st: Status,
) -> bool {
    &&& (post.wf())
    &&& (st == Status::Alive)
    &&& (!pre.pending_transactions@.contains_key(request.0) ==> state_eq(
            pre,
            post,
        ) && effects.len() == 0)
    &&& (pre.pending_transactions@.contains_key(request.0) ==> {
            &&& post.pending_transactions@ == pre.pending_transactions@.remove(
                request.0,
            )
            &&& post.phase == pre.phase
            &&& post.pending_sub == pre.pending_sub
            &&& post.pending_register == pre.pending_register
            &&& post.pending_call == pre.pending_call
            &&& post.subscriptions == pre.subscriptions
            &&& post.rpc_endpoints == pre.rpc_endpoints
            &&& effects.len() == 1
            &&& (effects[0] matches Effect::TransOk(r2, p) && r2 == pre.pending_transactions@[request.0] && p == Option::Some(pub_id))
        })
}

/// What holds after [`event`]: its full postcondition, named so the
/// dispatchers can restate it.
pub open spec fn event_post<R, S, H>(
    pre: Core<R, S, H>,
    subscription: WampId,
    publication: WampId,
    details: WampDict,
    arguments: Option<WampArgs>,
    arguments_kw: Option<WampKwArgs>,
    post: Core<R, S, H>,
    effects: Seq<Effect<R>>,
    st: Status,
) -> bool {
    &&& (post.wf())
    &&& (post == pre)
    &&& (st == Status::Alive)
    &&& (pre.subscriptions@.contains_key(subscription.0) ==> effects.len() == 1 && (
        effects[0] matches Effect::Deliver {
            subscription: s2,
            publication: p2,
            details: d2,
            arguments: a2,
            arguments_kw: k2,
        } && s2 == subscription && p2 == publication && d2 == details && a2 == arguments && k2
            == arguments_kw))
    &&& (!pre.subscriptions@.contains_key(subscription.0) ==> effects.len() == 0)
}

/// What holds after [`registered`]: its full postcondition, named so the
/// dispatchers can restate it.
pub open spec fn registered_post<R, S, H>(
    pre: Core<R, S, H>,
    request: WampId,
    rpc_id: WampId,
    post: Core<R, S, H>,
    effects: Seq<Effect<R>>,
    st: Status,
) -> bool {
    &&& (post.wf())
    &&& (st == Status::Alive)
    &&& (!pre.pending_register@.contains_key(request.0) || pre.rpc_endpoints@.contains_key(rpc_id.0) ==> state_eq(pre, post)
            && effects.len() == 0)
    &&& (pre.pending_register@.contains_key(request.0) && !pre.rpc_endpoints@.contains_key(rpc_id.0) ==> {
            &&& post.pending_register@ == pre.pending_register@.remove(request.0)
            &&& post.rpc_endpoints@ == pre.rpc_endpoints@.insert(
                rpc_id.0,
                pre.pending_register@[request.0].0,
            )
            &&& post.phase == pre.phase
            &&& post.pending_transactions == pre.pending_transactions
            &&& post.pending_sub == pre.pending_sub
            &&& post.pending_call == pre.pending_call
            &&& post.subscriptions == pre.subscriptions
            &&& effects.len() == 1
            &&& (effects[0] matches Effect::RegOk(r2, s2) && r2 == pre.pending_register@[request.0].1 && s2 == rpc_id)
        })
}

/// What holds after [`unregisterd`]: its full postcondition, named so the
/// dispatchers can restate it.
pub open spec fn unregisterd_post<R, S, H>(
    pre: Core<R, S, H>,
    request: WampId,
    post: Core<R, S, H>,
    effects: Seq<Effect<R>>,
    st: Status,
) -> bool {
    &&& (post.wf())
    &&& (st == Status::Alive)
    &&& (!pre.pending_transactions@.contains_key(request.0) ==> state_eq(
            pre,
            post,
        ) && effects.len() == 0)
    &&& (pre.pending_transactions@.contains_key(request.0) ==> {
            &&& post.pending_transactions@ == pre.pending_transactions@.remove(
                request.0,
            )
            &&& post.phase == pre.phase
            &&& post.pending_sub == pre.pending_sub
            &&& post.pending_register == pre.pending_register
            &&& post.pending_call == pre.pending_call
            &&& post.subscriptions == pre.subscriptions
            &&& post.rpc_endpoints == pre.rpc_endpoints
            &&& effects.len() == 1
            &&& (effects[0] matches Effect::TransOk(r2, p) && r2 == pre.pending_transactions@[request.0] && p is None)
        })
}

/// What holds after [`invocation`]: its full postcondition, named so the
/// dispatchers can restate it.
pub open spec fn invocation_post<R, S, H>(
    pre: Core<R, S, H>,
    request: WampId,
    registration: WampId,
    details: WampDict,
    arguments: Option<WampArgs>,
    arguments_kw: Option<WampKwArgs>,
    post: Core<R, S, H>,
    effects: Seq<Effect<R>>,
    st: Status,
) -> bool {
    &&& (post.wf())
    &&& (post == pre)
    &&& (st == Status::Alive)
    &&& (pre.rpc_endpoints@.contains_key(registration.0) ==> effects.len() == 1 && (
        effects[0] matches Effect::Invoke {
            request: q2,
            registration: g2,
            arguments: a2,
            arguments_kw: k2,
        } && q2 == request && g2 == registration && a2 == arguments && k2 == arguments_kw))
    &&& (!pre.rpc_endpoints@.contains_key(registration.0) ==> effects.len() == 0)
}

/// What holds after [`call_result`]: its full postcondition, named so the
/// dispatchers can restate it.
pub open spec fn call_result_post<R, S, H>(
    pre: Core<R, S, H>,
    request: WampId,
    details: WampDict,
    arguments: Option<WampArgs>,
    arguments_kw: Option<WampKwArgs>,
    post: Core<R, S, H>,
    effects: Seq<Effect<R>>,
    st: Status,
) -> bool {
    &&& (post.wf())
    &&& (st == Status::Alive)
    &&& (!pre.pending_call@.contains_key(request.0) ==> state_eq(
            pre,
            post,
        ) && effects.len() == 0)
    &&& (pre.pending_call@.contains_key(request.0) ==> {
            &&& post.pending_call@ == pre.pending_call@.remove(request.0)
            &&& post.phase == pre.phase
            &&& post.pending_transactions == pre.pending_transactions
            &&& post.pending_sub == pre.pending_sub
            &&& post.pending_register == pre.pending_register
            &&& post.subscriptions == pre.subscriptions
            &&& post.rpc_endpoints == pre.rpc_endpoints
            &&& effects.len() == 1
            &&& (effects[0] matches Effect::CallOk(r2, a2, k2) && r2 == pre.pending_call@[request.0] && a2 == arguments && k2 == arguments_kw)
        })
}

/// What holds after [`error`]: its full postcondition, named so the
/// dispatchers can restate it.
pub open spec fn error_post<R, S, H>(
    pre: Core<R, S, H>,
    typ: u64,
    request: WampId,
    details: WampDict,
    error_uri: WampString,
    arguments: Option<WampArgs>,
    arguments_kw: Option<WampKwArgs>,
    post: Core<R, S, H>,
    effects: Seq<Effect<R>>,
    st: Status,
) -> bool {
    &&& (post.wf())
    &&& (st == Status::Alive)
    &&& (post.phase == pre.phase)
    &&& (post.subscriptions == pre.subscriptions)
    &&& (post.rpc_endpoints == pre.rpc_endpoints)
    &&& (typ == crate::msg::SUBSCRIBE_ID && pre.pending_sub@.contains_key(request.0) ==> {
            &&& post.pending_sub@ == pre.pending_sub@.remove(request.0)
            &&& post.pending_transactions == pre.pending_transactions
            &&& post.pending_register == pre.pending_register
            &&& post.pending_call == pre.pending_call
            &&& effects.len() == 1
            &&& (effects[0] matches Effect::SubErr(r2, e) && r2 == pre.pending_sub@[request.0].1 && (e matches WampError::ServerError(u, d) && u == error_uri
                && d == details))
        })
    &&& (typ == crate::msg::REGISTER_ID && pre.pending_register@.contains_key(request.0) ==> {
            &&& post.pending_register@ == pre.pending_register@.remove(request.0)
            &&& post.pending_transactions == pre.pending_transactions
            &&& post.pending_sub == pre.pending_sub
            &&& post.pending_call == pre.pending_call
            &&& effects.len() == 1
            &&& (effects[0] matches Effect::RegErr(r2, e) && r2 == pre.pending_register@[request.0].1 && (e matches WampError::ServerError(u, d) && u
                == error_uri && d == details))
        })
    &&& (typ == crate::msg::CALL_ID && pre.pending_call@.contains_key(request.0) ==> {
            &&& post.pending_call@ == pre.pending_call@.remove(request.0)
            &&& post.pending_transactions == pre.pending_transactions
            &&& post.pending_sub == pre.pending_sub
            &&& post.pending_register == pre.pending_register
            &&& effects.len() == 1
            &&& (effects[0] matches Effect::CallErr(r2, e) && r2 == pre.pending_call@[request.0]
                && (e matches WampError::ServerError(u, d) && u == error_uri && d == details))
        })
    &&& ((typ == crate::msg::PUBLISH_ID || typ == crate::msg::UNSUBSCRIBE_ID || typ
            == crate::msg::UNREGISTER_ID) && pre.pending_transactions@.contains_key(
            request.0,
        ) ==> {
            &&& post.pending_transactions@ == pre.pending_transactions@.remove(
                request.0,
            )
            &&& post.pending_sub == pre.pending_sub
            &&& post.pending_register == pre.pending_register
            &&& post.pending_call == pre.pending_call
            &&& effects.len() == 1
            &&& (effects[0] matches Effect::TransErr(r2, e) && r2 == pre.pending_transactions@[request.0] && (e matches WampError::ServerError(u, d) && u
                == error_uri && d == details))
        })
    &&& (!((typ == crate::msg::SUBSCRIBE_ID && pre.pending_sub@.contains_key(request.0)) || (
        typ == crate::msg::REGISTER_ID && pre.pending_register@.contains_key(request.0)) || (
        typ == crate::msg::CALL_ID && pre.pending_call@.contains_key(request.0)) || ((typ
            == crate::msg::PUBLISH_ID || typ == crate::msg::UNSUBSCRIBE_ID || typ
            == crate::msg::UNREGISTER_ID) && pre.pending_transactions@.contains_key(
            request.0,
        ))) ==> state_eq(pre, post) && effects.len() == 0)
}

/// The number of replies the engine still owes: one per pending entry,
/// and one for an open join handshake.
pub open spec fn pending_reply_count<R, S, H>(c: Core<R, S, H>) -> int {
    (if c.phase is Joining {
        1int
    } else {
        0int
    }) + c.pending_transactions@.dom().len() + c.pending_sub@.dom().len()
        + c.pending_register@.dom().len() + c.pending_call@.dom().len()
}

/// Whether an effect completes a reply.
pub open spec fn is_reply_effect<R>(e: Effect<R>) -> bool {
    match e {
        Effect::Send(_) => false,
        Effect::Challenge(_, _) => false,
        Effect::Fatal(_) => false,
        Effect::Deliver { .. } => false,
        Effect::Invoke { .. } => false,
        _ => true,
    }
}

/// How many effects in the list complete a reply.
pub open spec fn reply_count<R>(effects: Seq<Effect<R>>) -> int
    decreases effects.len(),
{
    if effects.len() == 0 {
        0
    } else {
        (if is_reply_effect(effects.last()) {
            1int
        } else {
            0int
        }) + reply_count(effects.drop_last())
    }
}

/// How many reply tokens a command hands the engine: every command that
/// awaits an answer carries exactly one.
pub open spec fn request_reply_count<R, S, H>(req: Request<R, S, H>) -> int {
    match req {
        Request::Shutdown => 0,
        Request::ChallengeReply { .. } => 0,
        Request::InvocationResult { .. } => 0,
        _ => 1,
    }
}

/// The reply count of a short effect list, spelled out.
proof fn lemma_reply_count_small<R>(effects: Seq<Effect<R>>)
    requires
        effects.len() <= 2,
    ensures
        effects.len() == 0 ==> reply_count(effects) == 0,
        effects.len() == 1 ==> reply_count(effects) == (if is_reply_effect(effects[0]) {
            1int
        } else {
            0int
        }),
        effects.len() == 2 ==> reply_count(effects) == (if is_reply_effect(effects[0]) {
            1int
        } else {
            0int
        }) + (if is_reply_effect(effects[1]) {
            1int
        } else {
            0int
        }),
{
    if effects.len() == 1 {
        assert(effects.drop_last() =~= Seq::<Effect<R>>::empty());
        assert(reply_count(effects.drop_last()) == 0);
        assert(effects.last() == effects[0]);
    }
    if effects.len() == 2 {
        assert(effects.drop_last().drop_last() =~= Seq::<Effect<R>>::empty());
        assert(reply_count(effects.drop_last().drop_last()) == 0);
        assert(effects.drop_last().last() == effects[0]);
        assert(effects.drop_last().len() == 1);
        assert(reply_count(effects.drop_last()) == (if is_reply_effect(effects[0]) {
            1int
        } else {
            0int
        }));
        assert(effects.last() == effects[1]);
    }
}

/// The sizes of a well formed engine's tables, as its entry counts see
/// them.
proof fn lemma_core_counts<R, S, H>(c: Core<R, S, H>)
    requires
        c.wf(),
    ensures
        c.pending_transactions@.dom().finite(),
        c.pending_sub@.dom().finite(),
        c.pending_register@.dom().finite(),
        c.pending_call@.dom().finite(),
        c.pending_transactions@.dom().len() == c.pending_transactions.entries@.len(),
        c.pending_sub@.dom().len() == c.pending_sub.entries@.len(),
        c.pending_register@.dom().len() == c.pending_register.entries@.len(),
        c.pending_call@.dom().len() == c.pending_call.entries@.len(),
{
    crate::idtable::lemma_map_of_len(c.pending_transactions.entries@);
    crate::idtable::lemma_map_of_len(c.pending_sub.entries@);
    crate::idtable::lemma_map_of_len(c.pending_register.entries@);
    crate::idtable::lemma_map_of_len(c.pending_call.entries@);
}

/// Every reply the engine owes is conserved by an inbound step: replies
/// leave the pending tables exactly by appearing as completion effects —
/// never silently, never twice. Together with [`drain`], which completes
/// every reply still pending at shutdown, this is the exactly-once
/// delivery discipline: the count of owed replies plus the count of
/// completions handed out is invariant.
#[verifier::rlimit(100)]
pub proof fn lemma_peer_step_conserves_replies<R, S, H>(
    pre: Core<R, S, H>,
    msg: Msg,
    post: Core<R, S, H>,
    effects: Seq<Effect<R>>,
    st: Status,
)
    requires
        pre.wf(),
        peer_step_post(pre, msg, post, effects, st),
    ensures
        pending_reply_count(post) + reply_count(effects) == pending_reply_count(pre),
{
    broadcast use vstd::set::group_set_axioms, vstd::map::group_map_axioms;

    lemma_core_counts(pre);
    lemma_reply_count_small(effects);
    if pre.phase is Joining {
        match msg {
            Msg::Welcome { session, details } => {
            },
            Msg::Challenge { authentication_method, extra } => {
            },
            _ => {
            },
        }
    } else {
        match msg {
            Msg::Subscribed { request, subscription } => {
                if pre.pending_sub@.contains_key(request.0) && !pre.subscriptions@.contains_key(
                    subscription.0,
                ) {
                    assert(post.pending_sub@.dom() =~= pre.pending_sub@.dom().remove(request.0));
                }
                },
            Msg::Unsubscribed { request } => {
                if pre.pending_transactions@.contains_key(request.0) {
                    assert(post.pending_transactions@.dom() =~= pre.pending_transactions@.dom()
                        .remove(request.0));
                }
                },
            Msg::Published { request, publication } => {
                if pre.pending_transactions@.contains_key(request.0) {
                    assert(post.pending_transactions@.dom() =~= pre.pending_transactions@.dom()
                        .remove(request.0));
                }
            },
            Msg::Registered { request, registration } => {
                if pre.pending_register@.contains_key(request.0) && !pre.rpc_endpoints@
                    .contains_key(registration.0) {
                    assert(post.pending_register@.dom() =~= pre.pending_register@.dom().remove(
                        request.0,
                    ));
                }
                },
            Msg::Unregistered { request } => {
                if pre.pending_transactions@.contains_key(request.0) {
                    assert(post.pending_transactions@.dom() =~= pre.pending_transactions@.dom()
                        .remove(request.0));
                }
                },
            Msg::CallResult { request, details, arguments, arguments_kw } => {
                if pre.pending_call@.contains_key(request.0) {
                    assert(post.pending_call@.dom() =~= pre.pending_call@.dom().remove(
                        request.0,
                    ));
                }
                },
            Msg::Error { typ, request, details, error, arguments, arguments_kw } => {
                if typ == crate::msg::SUBSCRIBE_ID && pre.pending_sub@.contains_key(request.0) {
                    assert(post.pending_sub@.dom() =~= pre.pending_sub@.dom().remove(request.0));
                } else if typ == crate::msg::REGISTER_ID && pre.pending_register@.contains_key(
                    request.0,
                ) {
                    assert(post.pending_register@.dom() =~= pre.pending_register@.dom().remove(
                        request.0,
                    ));
                } else if typ == crate::msg::CALL_ID && pre.pending_call@.contains_key(
                    request.0,
                ) {
                    assert(post.pending_call@.dom() =~= pre.pending_call@.dom().remove(
                        request.0,
                    ));
                } else if (typ == crate::msg::PUBLISH_ID || typ == crate::msg::UNSUBSCRIBE_ID
                    || typ == crate::msg::UNREGISTER_ID) && pre.pending_transactions@
                    .contains_key(request.0) {
                    assert(post.pending_transactions@.dom() =~= pre.pending_transactions@.dom()
                        .remove(request.0));
                }
            },
            _ => {
            },
        }
    }
}

/// Every reply the engine owes is conserved by a command step: the
/// command's own reply token is either recorded in a pending table, held
/// by the join handshake, or answered at once in a completion effect.
#[verifier::rlimit(100)]
pub proof fn lemma_local_step_conserves_replies<R, S, H>(
    pre: Core<R, S, H>,
    req: Request<R, S, H>,
    post: Core<R, S, H>,
    effects: Seq<Effect<R>>,
    st: Status,
)
    requires
        pre.wf(),
        local_step_post(pre, req, post, effects, st),
    ensures
        pending_reply_count(post) + reply_count(effects) == pending_reply_count(pre)
            + request_reply_count(req),
{
    broadcast use vstd::set::group_set_axioms, vstd::map::group_map_axioms;

    lemma_core_counts(pre);
    lemma_reply_count_small(effects);
    match req {
        Request::Subscribe { uri, options, queue, res } => {
            if pre.phase is Joined && effects.len() == 1 && (effects[0] is Send) {
                let k = effects[0]->Send_0->Subscribe_request.0;
                assert(!pre.pending_sub@.dom().contains(k));
                assert(post.pending_sub@.dom() =~= pre.pending_sub@.dom().insert(k));
            }
        },
        Request::Register { uri, func_ptr, res } => {
            if pre.phase is Joined && effects.len() == 1 && (effects[0] is Send) {
                let k = effects[0]->Send_0->Register_request.0;
                assert(!pre.pending_register@.dom().contains(k));
                assert(post.pending_register@.dom() =~= pre.pending_register@.dom().insert(k));
            }
        },
        Request::Call { uri, options, arguments, arguments_kw, res } => {
            if pre.phase is Joined && effects.len() == 1 && (effects[0] is Send) {
                let k = effects[0]->Send_0->Call_request.0;
                assert(!pre.pending_call@.dom().contains(k));
                assert(post.pending_call@.dom() =~= pre.pending_call@.dom().insert(k));
            }
        },
        Request::Unsubscribe { sub_id, res } => {
            if pre.phase is Joined && pre.subscriptions@.contains_key(sub_id.0) && (
            effects[0] is Send) {
                let k = effects[0]->Send_0->Unsubscribe_request.0;
                assert(!pre.pending_transactions@.dom().contains(k));
                assert(post.pending_transactions@.dom() =~= pre.pending_transactions@.dom()
                    .insert(k));
            }
        },
        Request::Unregister { rpc_id, res } => {
            if pre.phase is Joined && pre.rpc_endpoints@.contains_key(rpc_id.0) && (
            effects[0] is Send) {
                let k = effects[0]->Send_0->Unregister_request.0;
                assert(!pre.pending_transactions@.dom().contains(k));
                assert(post.pending_transactions@.dom() =~= pre.pending_transactions@.dom()
                    .insert(k));
            }
        },
        Request::Publish { uri, options, arguments, arguments_kw, res } => {
            if pre.phase is Joined && (effects[0] is Send) && crate::value::dict_flag(
                crate::value::view_dict(options),
                "acknowledge"@,
            ) {
                let k = effects[0]->Send_0->Publish_request.0;
                assert(!pre.pending_transactions@.dom().contains(k));
                assert(post.pending_transactions@.dom() =~= pre.pending_transactions@.dom()
                    .insert(k));
            }
        },
        _ => {},
    }
}

/// What holds after one inbound step: the postcondition of the handler
/// the message dispatches to, under the join-handshake gating.
pub open spec fn peer_step_post<R, S, H>(
    pre: Core<R, S, H>,
    msg: Msg,
    post: Core<R, S, H>,
    effects: Seq<Effect<R>>,
    st: Status,
) -> bool {
    &&& (pre.phase is Joining ==> match msg {
            Msg::Welcome { session, details } => welcome_post(
                pre,
                session,
                details,
                post,
                effects,
                st,
            ),
            Msg::Challenge { authentication_method, extra } => challenge_post(
                pre,
                authentication_method,
                extra,
                post,
                effects,
                st,
            ),
            _ => join_protocol_error_post(pre, post, effects, st),
        })
    &&& (!(pre.phase is Joining) ==> match msg {
            Msg::Subscribed { request, subscription } => subscribed_post(
                pre,
                request,
                subscription,
                post,
                effects,
                st,
            ),
            Msg::Unsubscribed { request } => unsubscribed_post(
                pre,
                request,
                post,
                effects,
                st,
            ),
            Msg::Published { request, publication } => published_post(
                pre,
                request,
                publication,
                post,
                effects,
                st,
            ),
            Msg::Event { subscription, publication, details, arguments, arguments_kw } => {
                event_post(
                    pre,
                    subscription,
                    publication,
                    details,
                    arguments,
                    arguments_kw,
                    post,
                    effects,
                    st,
                )
            },
            Msg::Registered { request, registration } => registered_post(
                pre,
                request,
                registration,
                post,
                effects,
                st,
            ),
            Msg::Unregistered { request } => unregisterd_post(
                pre,
                request,
                post,
                effects,
                st,
            ),
            Msg::Invocation { request, registration, details, arguments, arguments_kw } => {
                invocation_post(
                    pre,
                    request,
                    registration,
                    details,
                    arguments,
                    arguments_kw,
                    post,
                    effects,
                    st,
                )
            },
            Msg::CallResult { request, details, arguments, arguments_kw } => call_result_post(
                pre,
                request,
                details,
                arguments,
                arguments_kw,
                post,
                effects,
                st,
            ),
            Msg::Goodbye { details, reason } => goodbye_post(
                pre,
                details,
                reason,
                post,
                effects,
                st,
            ),
            Msg::Abort { details, reason } => abort_post(
                pre,
                details,
                reason,
                post,
                effects,
                st,
            ),
            Msg::Error { typ, request, details, error, arguments, arguments_kw } => error_post(
                pre,
                typ,
                request,
                details,
                error,
                arguments,
                arguments_kw,
                post,
                effects,
                st,
            ),
            _ => state_eq(pre, post) && effects.len() == 0 && st == Status::Alive,
        })
}

/// Dispatches an inbound message from the peer and relays its handler's
/// full postcondition. While the join handshake is open, only WELCOME and
/// CHALLENGE are welcome: anything else fails the join with a protocol
/// error and shuts the engine down. Outside the handshake, each kind goes
/// to its handler; the kinds only a client sends are dropped without any
/// effect.
pub fn handle_peer_msg<R, S, H>(core: &mut Core<R, S, H>, msg: Msg) -> (r: (
    Vec<Effect<R>>,
    Status,
))
    requires
        old(core).wf(),
    ensures
        final(core).wf(),
        peer_step_post(*old(core), msg, *final(core), r.0@, r.1),
{
    match &core.phase {
        Phase::Joining { .. } => {
            match msg {
                Msg::Welcome { session, details } => {
                    return welcome(core, session, details);
                },
                Msg::Challenge { authentication_method, extra } => {
                    return challenge(core, authentication_method, extra);
                },
                _ => {
                    return join_protocol_error(core);
                },
            }
        },
        _ => {},
    }
    proof {
        crate::idtable::lemma_map_of_contains(core.pending_transactions.entries@, 0);
    }
    match msg {
        Msg::Subscribed { request, subscription } => subscribed(core, request, subscription),
        Msg::Unsubscribed { request } => unsubscribed(core, request),
        Msg::Published { request, publication } => published(core, request, publication),
        Msg::Event { subscription, publication, details, arguments, arguments_kw } => event(
            core,
            subscription,
            publication,
            details,
            arguments,
            arguments_kw,
        ),
        Msg::Registered { request, registration } => registered(core, request, registration),
        Msg::Unregistered { request } => unregisterd(core, request),
        Msg::Invocation { request, registration, details, arguments, arguments_kw } => invocation(
            core,
            request,
            registration,
            details,
            arguments,
            arguments_kw,
        ),
        Msg::CallResult { request, details, arguments, arguments_kw } => call_result(
            core,
            request,
            details,
            arguments,
            arguments_kw,
        ),
        Msg::Goodbye { details, reason } => goodbye(core, details, reason),
        Msg::Abort { details, reason } => abort(core, details, reason),
        Msg::Error { typ, request, details, error: error_uri, arguments, arguments_kw } => error(
            core,
            typ,
            request,
            details,
            error_uri,
            arguments,
            arguments_kw,
        ),
        _ => (Vec::new(), Status::Alive),
    }
}

/// What holds after one command step: the postcondition of the handler
/// the command dispatches to.
pub open spec fn local_step_post<R, S, H>(
    pre: Core<R, S, H>,
    req: Request<R, S, H>,
    post: Core<R, S, H>,
    effects: Seq<Effect<R>>,
    st: Status,
) -> bool {
    match req {
            Request::Shutdown => st == Status::Shutdown && post == pre
                && effects.len() == 0,
            Request::Join {
                uri,
                roles,
                agent_str,
                authentication_methods,
                authentication_id,
                authextra,
                has_challenge_handler,
                res,
            } => join_realm_post(
                pre,
                uri,
                roles,
                agent_str,
                authentication_methods,
                authextra,
                authentication_id,
                has_challenge_handler,
                res,
                post,
                effects,
                st,
            ),
            Request::ChallengeReply { response } => authenticate_post(
                pre,
                response,
                post,
                effects,
                st,
            ),
            Request::Leave { res } => leave_realm_post(pre, res, post, effects, st),
            Request::Subscribe { uri, options, queue, res } => subscribe_post(
                pre,
                uri,
                options,
                queue,
                res,
                post,
                effects,
                st,
            ),
            Request::Unsubscribe { sub_id, res } => unsubscribe_post(
                pre,
                sub_id,
                res,
                post,
                effects,
                st,
            ),
            Request::Publish { uri, options, arguments, arguments_kw, res } => publish_post(
                pre,
                uri,
                options,
                arguments,
                arguments_kw,
                res,
                post,
                effects,
                st,
            ),
            Request::Register { uri, func_ptr, res } => register_post(
                pre,
                uri,
                func_ptr,
                res,
                post,
                effects,
                st,
            ),
            Request::Unregister { rpc_id, res } => unregister_post(
                pre,
                rpc_id,
                res,
                post,
                effects,
                st,
            ),
            Request::InvocationResult { request, res } => invoke_yield_post(
                pre,
                request,
                res,
                post,
                effects,
                st,
            ),
            Request::Call { uri, options, arguments, arguments_kw, res } => call_post(
                pre,
                uri,
                options,
                arguments,
                arguments_kw,
                res,
                post,
                effects,
                st,
            ),
        }
}

/// Dispatches a command from the facade to its handler and relays the
/// handler's full postcondition. Shutdown stops the event loop; every
/// other command leaves it running and is answered through its reply
/// token.
pub fn handle_local_request<R, S, H>(core: &mut Core<R, S, H>, req: Request<R, S, H>) -> (r: (
    Vec<Effect<R>>,
    Status,
))
    requires
        old(core).wf(),
    ensures
        final(core).wf(),
        local_step_post(*old(core), req, *final(core), r.0@, r.1),
{
    match req {
        Request::Shutdown => (Vec::new(), Status::Shutdown),
        Request::Join {
            uri,
            roles,
            agent_str,
            authentication_methods,
            authentication_id,
            authextra,
            has_challenge_handler,
            res,
        } => join_realm(
            core,
            uri,
            roles,
            agent_str,
            authentication_methods,
            authextra,
            authentication_id,
            has_challenge_handler,
            res,
        ),
        Request::ChallengeReply { response } => authenticate(core, response),
        Request::Leave { res } => leave_realm(core, res),
        Request::Subscribe { uri, options, queue, res } => subscribe(core, uri, options, queue, res),
        Request::Unsubscribe { sub_id, res } => unsubscribe(core, sub_id, res),
        Request::Publish { uri, options, arguments, arguments_kw, res } => publish(
            core,
            uri,
            options,
            arguments,
            arguments_kw,
            res,
        ),
        Request::Register { uri, func_ptr, res } => register(core, uri, func_ptr, res),
        Request::Unregister { rpc_id, res } => unregister(core, rpc_id, res),
        Request::InvocationResult { request, res } => invoke_yield(core, request, res),
        Request::Call { uri, options, arguments, arguments_kw, res } => call(
            core,
            uri,
            options,
            arguments,
            arguments_kw,
            res,
        ),
    }
}

} // verus!
