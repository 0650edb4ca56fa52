//! Client-side implementation of the WAMP v2 basic profile: message schema,
//! wire codecs, raw-socket framing, and the session engine that correlates
//! requests with replies and routes events and invocations.

pub mod auth;
pub mod cbor;
pub mod config;
pub mod engine;
pub mod error;
pub mod idtable;
pub mod json;
pub mod msg;
pub mod msgpack;
pub mod options;
pub mod rawsock;
pub mod rng;
pub mod serializer;
pub mod tuples;
pub mod types;
pub mod uri;
pub mod value;
pub mod websock;
pub mod wire;

pub use error::{SerializerError, TransportError, WampError};
pub use types::{
    Arg, AuthenticationChallengeResponse, AuthenticationMethod, ClientRole, ServerRole, WampId,
};
