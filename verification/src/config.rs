//! Client configuration and the connection states a client observes.

use vstd::prelude::*;
use crate::error::WampError;
use crate::serializer::SerializerType;
use crate::types::ClientRole;

verus! {

/// The default user-agent string the client advertises: the client's
/// product name and version.
pub const DEFAULT_AGENT_STR: &'static str = "wamp_async_rs-0.1.0";

/// Options one can set when connecting to a WAMP server.
pub struct ClientConfig {
    /// The user agent string to advertise; empty disables it
    agent: String,
    /// The roles the client will support
    roles: Vec<ClientRole>,
    /// The serializers to offer, in order of preference
    serializers: Vec<SerializerType>,
    /// Extra authentication data, as key/value pairs
    authextra: Vec<(String, String)>,
    /// The maximum message size to propose; 0 keeps the default
    max_msg_size: u32,
    /// Whether TLS certificates are verified
    ssl_verify: bool,
    /// Additional WebSocket headers for the opening handshake
    websocket_headers: Vec<(String, String)>,
}

impl Default for ClientConfig {
    /// A configuration with every client role, the three serializers in
    /// the order JSON, MsgPack, CBOR, certificate verification on, and
    /// the default maximum message size.
    fn default() -> (r: Self)
        ensures
            r.agent()@ == DEFAULT_AGENT_STR@,
            r.roles()@ =~= seq![
                ClientRole::Caller,
                ClientRole::Callee,
                ClientRole::Publisher,
                ClientRole::Subscriber,
            ],
            r.serializers()@ =~= seq![
                SerializerType::Json,
                SerializerType::MsgPack,
                SerializerType::Cbor,
            ],
            r.max_msg_size() == 0,
            r.ssl_verify(),
            r.websocket_headers()@.len() == 0,
            r.authextra()@.len() == 0,
    {
        let mut roles: Vec<ClientRole> = Vec::new();
        roles.push(ClientRole::Caller);
        roles.push(ClientRole::Callee);
        roles.push(ClientRole::Publisher);
        roles.push(ClientRole::Subscriber);
        let mut serializers: Vec<SerializerType> = Vec::new();
        serializers.push(SerializerType::Json);
        serializers.push(SerializerType::MsgPack);
        serializers.push(SerializerType::Cbor);
        ClientConfig {
            agent: String::from_str(DEFAULT_AGENT_STR),
            roles,
            serializers,
            authextra: Vec::new(),
            max_msg_size: 0,
            ssl_verify: true,
            websocket_headers: Vec::new(),
        }
    }
}

impl ClientConfig {
    /// Replaces the user agent string; set it empty to disable
    /// advertisement.
    pub fn set_agent(self, agent: &str) -> (r: Self)
        ensures
            r.agent()@ == agent@,
            r.roles() == self.roles(),
            r.serializers() == self.serializers(),
            r.max_msg_size() == self.max_msg_size(),
            r.ssl_verify() == self.ssl_verify(),
            r.websocket_headers() == self.websocket_headers(),
            r.authextra() == self.authextra(),
    {
        ClientConfig { agent: String::from_str(agent), ..self }
    }

    /// The currently set agent string.
    pub fn get_agent(&self) -> (r: &String)
        ensures
            r == self.agent(),
    {
        &self.agent
    }

    /// Spec view of the agent string.
    pub closed spec fn agent(&self) -> String {
        self.agent
    }

    /// Records the public key under the `pubkey` authentication extra.
    pub fn set_authextra(&mut self, pkey: String)
        ensures
            final(self).authextra()@.len() == 1,
            final(self).authextra()@[0].0@ == "pubkey"@,
            final(self).authextra()@[0].1 == pkey,
            final(self).agent() == old(self).agent(),
            final(self).roles() == old(self).roles(),
            final(self).serializers() == old(self).serializers(),
            final(self).max_msg_size() == old(self).max_msg_size(),
            final(self).ssl_verify() == old(self).ssl_verify(),
            final(self).websocket_headers() == old(self).websocket_headers(),
    {
        let mut m: Vec<(String, String)> = Vec::new();
        m.push((String::from_str("pubkey"), pkey));
        self.authextra = m;
    }

    /// Spec view of the authentication extras.
    pub closed spec fn authextra(&self) -> Vec<(String, String)> {
        self.authextra
    }

    /// The authentication extras, as key/value pairs.
    pub fn get_authextra(&self) -> (r: &Vec<(String, String)>)
        ensures
            r == self.authextra(),
    {
        &self.authextra
    }

    /// Sets the maximum payload size proposed over the transport; 0 keeps
    /// the transport default.
    pub fn set_max_msg_size(self, msg_size: u32) -> (r: Self)
        ensures
            r.max_msg_size() == msg_size,
            r.agent() == self.agent(),
            r.roles() == self.roles(),
            r.serializers() == self.serializers(),
            r.ssl_verify() == self.ssl_verify(),
            r.websocket_headers() == self.websocket_headers(),
            r.authextra() == self.authextra(),
    {
        ClientConfig { max_msg_size: msg_size, ..self }
    }

    /// The proposed maximum message size; `None` keeps the default.
    pub fn get_max_msg_size(&self) -> (r: Option<u32>)
        ensures
            self.max_msg_size() == 0 ==> r is None,
            self.max_msg_size() != 0 ==> r == Option::Some(self.max_msg_size()),
    {
        if self.max_msg_size == 0 {
            Option::None
        } else {
            Option::Some(self.max_msg_size)
        }
    }

    /// Spec view of the maximum message size.
    pub closed spec fn max_msg_size(&self) -> u32 {
        self.max_msg_size
    }

    /// Replaces the serializer preference list; the first entry is tried
    /// first.
    pub fn set_serializers(self, serializers: Vec<SerializerType>) -> (r: Self)
        ensures
            r.serializers() == serializers,
            r.agent() == self.agent(),
            r.roles() == self.roles(),
            r.max_msg_size() == self.max_msg_size(),
            r.ssl_verify() == self.ssl_verify(),
            r.websocket_headers() == self.websocket_headers(),
            r.authextra() == self.authextra(),
    {
        ClientConfig { serializers, ..self }
    }

    /// The serializer preference list.
    pub fn get_serializers(&self) -> (r: &Vec<SerializerType>)
        ensures
            r == self.serializers(),
    {
        &self.serializers
    }

    /// Spec view of the serializer preference list.
    pub closed spec fn serializers(&self) -> Vec<SerializerType> {
        self.serializers
    }

    /// Replaces the set of client roles to advertise.
    pub fn set_roles(self, roles: Vec<ClientRole>) -> (r: Self)
        ensures
            r.roles() == roles,
            r.agent() == self.agent(),
            r.serializers() == self.serializers(),
            r.max_msg_size() == self.max_msg_size(),
            r.ssl_verify() == self.ssl_verify(),
            r.websocket_headers() == self.websocket_headers(),
            r.authextra() == self.authextra(),
    {
        ClientConfig { roles, ..self }
    }

    /// The roles the client will advertise.
    pub fn get_roles(&self) -> (r: &Vec<ClientRole>)
        ensures
            r == self.roles(),
    {
        &self.roles
    }

    /// Spec view of the client roles.
    pub closed spec fn roles(&self) -> Vec<ClientRole> {
        self.roles
    }

    /// Enables or disables TLS certificate validation.
    pub fn set_ssl_verify(self, val: bool) -> (r: Self)
        ensures
            r.ssl_verify() == val,
            r.agent() == self.agent(),
            r.roles() == self.roles(),
            r.serializers() == self.serializers(),
            r.max_msg_size() == self.max_msg_size(),
            r.websocket_headers() == self.websocket_headers(),
            r.authextra() == self.authextra(),
    {
        ClientConfig { ssl_verify: val, ..self }
    }

    /// Whether certificate validation is enabled.
    pub fn get_ssl_verify(&self) -> (r: bool)
        ensures
            r == self.ssl_verify(),
    {
        self.ssl_verify
    }

    /// Spec view of the certificate-validation switch.
    pub closed spec fn ssl_verify(&self) -> bool {
        self.ssl_verify
    }

    /// Adds a header to send during the WebSocket opening handshake.
    pub fn add_websocket_header(self, key: String, val: String) -> (r: Self)
        ensures
            r.websocket_headers()@ == self.websocket_headers()@.push((key, val)),
            r.agent() == self.agent(),
            r.roles() == self.roles(),
            r.serializers() == self.serializers(),
            r.max_msg_size() == self.max_msg_size(),
            r.ssl_verify() == self.ssl_verify(),
            r.authextra() == self.authextra(),
    {
        let mut headers = self.websocket_headers;
        headers.push((key, val));
        ClientConfig { websocket_headers: headers, ..self }
    }

    /// The extra WebSocket headers.
    pub fn get_websocket_headers(&self) -> (r: &Vec<(String, String)>)
        ensures
            r == self.websocket_headers(),
    {
        &self.websocket_headers
    }

    /// Spec view of the extra WebSocket headers.
    pub closed spec fn websocket_headers(&self) -> Vec<(String, String)> {
        self.websocket_headers
    }
}

/// All the states a client can be in.
#[derive(Debug)]
pub enum ClientState {
    /// The event loop has not been spawned yet
    NoEventLoop,
    /// Currently running and connected to a server
    Running,
    /// Disconnected from a server, gracefully or with the final error
    Disconnected(Result<(), WampError>),
}

impl ClientState {
    /// Advances the client state on a status event from the event loop:
    /// an error disconnects from any state; otherwise the state steps
    /// from not-yet-running to running, and from running to a graceful
    /// disconnect. A status after a disconnect changes nothing.
    pub fn advanced(self, new_status: Result<(), WampError>) -> (r: ClientState)
        ensures
            new_status is Err ==> r == ClientState::Disconnected(new_status),
            new_status is Ok ==> match self {
                ClientState::NoEventLoop => r is Running,
                ClientState::Running => r == ClientState::Disconnected(new_status),
                ClientState::Disconnected(_) => r == self,
            },
    {
        if new_status.is_err() {
            return ClientState::Disconnected(new_status);
        }
        match self {
            ClientState::NoEventLoop => ClientState::Running,
            ClientState::Running => ClientState::Disconnected(new_status),
            other => other,
        }
    }
}

} // verus!
