//! Primitive WAMP domain types: identifiers, payload values, protocol
//! dictionaries, client/server roles and authentication data.

use vstd::prelude::*;

verus! {

/// Largest value a WAMP ID may take: IDs are drawn from [1, 2^53].
pub const WAMP_ID_MAX: u64 = 0x20_0000_0000_0000;

/// id: an integer ID as defined in the WAMP specification; valid values
/// lie in [1, 2^53].
#[derive(Debug, Clone, Copy, PartialEq, Eq, Structural, Hash)]
pub struct WampId(pub u64);

impl WampId {
    /// A WAMP ID is well formed when it lies in [1, 2^53].
    pub open spec fn wf(self) -> bool {
        1 <= self.0 <= WAMP_ID_MAX
    }
}

/// uri: a string URI as defined in the WAMP specification
pub type WampUri = String;

/// string: a Unicode string, including the empty string
pub type WampString = String;

/// integer: a non-negative wire integer
pub type WampInteger = u64;

/// bool: a boolean value
pub type WampBool = bool;

/// dict: a mapping with string keys and protocol values
pub type WampDict = Vec<(String, Arg)>;

/// list: a list of protocol values
pub type WampList = Vec<Arg>;

/// Unnamed WAMP argument list
pub type WampArgs = Vec<PayloadValue>;

/// Named WAMP argument map
pub type WampKwArgs = Vec<(String, PayloadValue)>;

/// Generic enum that can hold any concrete WAMP protocol value
#[derive(Debug)]
pub enum Arg {
    /// uri: a string URI
    Uri(WampUri),
    /// id: an integer ID in [1, 2^53]
    Id(WampId),
    /// integer: a non-negative integer
    Integer(WampInteger),
    /// string: a Unicode string
    Text(WampString),
    /// bool: a boolean value
    Bool(WampBool),
    /// dict: a mapping where keys are strings
    Dict(WampDict),
    /// list: a list of protocol values
    List(WampList),
    /// absence of a value
    Nil,
}

/// Arbitrary payload value carried in argument lists and keyword maps.
///
/// Numbers that are not plain non-negative integers (negative, fractional
/// or exponent-form numbers) are carried lexically in `Num` as their wire
/// text, so that payloads pass through the client unchanged.
#[derive(Debug)]
pub enum PayloadValue {
    /// null
    Null,
    /// true or false
    Bool(bool),
    /// non-negative integer
    Uint(u64),
    /// any other number, as its wire text
    Num(String),
    /// string
    Text(String),
    /// array of payload values
    List(Vec<PayloadValue>),
    /// object keyed by strings
    Object(Vec<(String, PayloadValue)>),
}

/// All roles a client can act as
#[derive(Debug, Clone, Copy, PartialEq, Eq, Structural, Hash)]
pub enum ClientRole {
    /// Client can call RPC endpoints
    Caller,
    /// Client can register RPC endpoints
    Callee,
    /// Client can publish events to topics
    Publisher,
    /// Client can subscribe to events on topics
    Subscriber,
}

impl ClientRole {
    /// Returns the string representation of the role
    pub fn to_str(&self) -> (s: &'static str)
        ensures
            s@ == self.spec_str(),
    {
        match self {
            ClientRole::Caller => "caller",
            ClientRole::Callee => "callee",
            ClientRole::Publisher => "publisher",
            ClientRole::Subscriber => "subscriber",
        }
    }

    /// The string each role shows on the wire.
    pub open spec fn spec_str(self) -> Seq<char> {
        match self {
            ClientRole::Caller => "caller"@,
            ClientRole::Callee => "callee"@,
            ClientRole::Publisher => "publisher"@,
            ClientRole::Subscriber => "subscriber"@,
        }
    }
}

/// All the supported roles a server can have
#[derive(Debug, Clone, Copy, PartialEq, Eq, Structural)]
pub enum ServerRole {
    /// Server supports RPC calls
    Router,
    /// Server supports pub/sub
    Broker,
}

impl ServerRole {
    /// Returns the string representation of the role
    pub fn to_str(&self) -> (s: &'static str)
        ensures
            s@ == self.spec_str(),
    {
        match self {
            ServerRole::Router => "router",
            ServerRole::Broker => "broker",
        }
    }

    /// The string each role shows on the wire.
    pub open spec fn spec_str(self) -> Seq<char> {
        match self {
            ServerRole::Router => "router"@,
            ServerRole::Broker => "broker"@,
        }
    }
}

/// All the authentication methods of the WAMP basic profile
#[derive(Debug, Clone, Copy, PartialEq, Eq, Structural)]
pub enum AuthenticationMethod {
    /// No authentication challenge
    Anonymous,
    /// Challenge-response authentication
    WampCra,
    /// Ticket-based authentication
    Ticket,
    /// Ed25519 signature authentication
    CryptoSign,
}

impl AuthenticationMethod {
    /// Returns the wire tag of the method
    pub fn to_str(&self) -> (s: &'static str)
        ensures
            s@ == self.spec_str(),
    {
        match self {
            AuthenticationMethod::Anonymous => "anonymous",
            AuthenticationMethod::WampCra => "wampcra",
            AuthenticationMethod::Ticket => "ticket",
            AuthenticationMethod::CryptoSign => "cryptosign",
        }
    }

    /// The wire tag of each method.
    pub open spec fn spec_str(self) -> Seq<char> {
        match self {
            AuthenticationMethod::Anonymous => "anonymous"@,
            AuthenticationMethod::WampCra => "wampcra"@,
            AuthenticationMethod::Ticket => "ticket"@,
            AuthenticationMethod::CryptoSign => "cryptosign"@,
        }
    }
}

/// What a challenge handler returns during the authentication flow: the
/// signature string to send in AUTHENTICATE and an extra dictionary.
#[derive(Debug)]
pub struct AuthenticationChallengeResponse {
    /// The signature (or ticket, or shared secret) answering the challenge
    pub signature: WampString,
    /// Additional data sent along with the signature
    pub extra: WampDict,
}

impl AuthenticationChallengeResponse {
    /// Wraps a plain signature with an empty extra dictionary.
    pub fn with_signature(signature: WampString) -> (r: Self)
        ensures
            r.signature == signature,
            r.extra@.len() == 0,
    {
        Self { signature, extra: Vec::new() }
    }

    /// Wraps a signature together with an `authextra` entry naming the
    /// public key.
    pub fn with_authextra(signature: WampString, pkey: &str) -> (r: Self)
        ensures
            r.signature == signature,
            r.extra@.len() == 1,
            r.extra@[0].0@ == "authextra"@,
            r.extra@[0].1 matches Arg::Text(s) && s@ == pkey@,
    {
        let mut extra: WampDict = Vec::new();
        extra.push((String::from_str("authextra"), Arg::Text(String::from_str(pkey))));
        Self { signature, extra }
    }
}

} // verus!
