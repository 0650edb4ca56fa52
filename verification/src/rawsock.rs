//! The raw-socket transport's framing and capability handshake: pure byte
//! arithmetic, verified here; the socket I/O around it lives outside the
//! library.

use vstd::prelude::*;
use crate::error::TransportError;
use crate::serializer::SerializerType;

verus! {

/// The largest payload the raw transport can frame: 2^24 bytes.
pub const MAX_MSG_SZ: u32 = 0x100_0000;

/// The smallest maximum-message-size the handshake can propose: 2^9 bytes.
pub const MIN_MSG_SZ: u32 = 0x200;

/// Raw-socket frame kinds.
#[derive(Debug, Clone, Copy, PartialEq, Eq, Structural)]
pub enum TcpMsg {
    /// A WAMP message frame
    Regular,
    /// A keepalive ping
    Ping,
    /// A keepalive pong
    Pong,
}

impl TcpMsg {
    /// The frame kind a wire code names, if any: 0, 1 or 2.
    pub open spec fn spec_from_id(in_id: u8) -> Option<TcpMsg> {
        if in_id == 0 {
            Option::Some(TcpMsg::Regular)
        } else if in_id == 1 {
            Option::Some(TcpMsg::Ping)
        } else if in_id == 2 {
            Option::Some(TcpMsg::Pong)
        } else {
            Option::None
        }
    }

    /// Decodes a frame-kind code; codes 3 to 7 are reserved and rejected.
    pub fn from_id(in_id: u8) -> (r: Option<Self>)
        ensures
            r == Self::spec_from_id(in_id),
    {
        if in_id == 0 {
            Option::Some(TcpMsg::Regular)
        } else if in_id == 1 {
            Option::Some(TcpMsg::Ping)
        } else if in_id == 2 {
            Option::Some(TcpMsg::Pong)
        } else {
            Option::None
        }
    }

    /// The wire code of a frame kind.
    pub open spec fn spec_id(self) -> u8 {
        match self {
            TcpMsg::Regular => 0,
            TcpMsg::Ping => 1,
            TcpMsg::Pong => 2,
        }
    }

    /// Encodes the frame kind as its wire code.
    pub fn to_id(&self) -> (r: u8)
        ensures
            r == self.spec_id(),
            Self::spec_from_id(r) == Option::Some(*self),
    {
        match self {
            TcpMsg::Regular => 0,
            TcpMsg::Ping => 1,
            TcpMsg::Pong => 2,
        }
    }
}

/// The 4-byte prefix of each raw-socket frame: a frame-kind byte, then the
/// payload length as a big-endian 24-bit integer.
pub struct MsgPrefix {
    /// The four prefix bytes
    pub bytes: [u8; 4],
}

impl MsgPrefix {
    /// The payload length the prefix carries: the three trailing bytes as
    /// a big-endian integer.
    pub open spec fn spec_payload_len(self) -> u32 {
        (self.bytes@[3] as u32) | ((self.bytes@[2] as u32) << 8u32) | ((self.bytes@[1] as u32)
            << 16u32)
    }

    /// A zeroed prefix, ready to be read into.
    pub fn new() -> (r: Self)
        ensures
            r.bytes@ =~= seq![0u8, 0u8, 0u8, 0u8],
            r.spec_payload_len() == 0,
    {
        proof {
            assert(((0u8 as u32) | ((0u8 as u32) << 8u32) | ((0u8 as u32) << 16u32)) == 0u32)
                by (bit_vector);
        }
        MsgPrefix { bytes: [0, 0, 0, 0] }
    }

    /// A prefix for a frame of the given kind and, when given, payload
    /// length.
    pub fn new_from(msg_type: &TcpMsg, msg_len: Option<u32>) -> (r: Self)
        requires
            msg_len matches Option::Some(l) ==> l < MAX_MSG_SZ,
        ensures
            r.bytes@[0] == msg_type.spec_id(),
            r.spec_msg_type() == Option::Some(*msg_type),
            match msg_len {
                Option::Some(l) => r.spec_payload_len() == l,
                Option::None => r.spec_payload_len() == 0,
            },
    {
        let id = msg_type.to_id();
        proof {
            assert(id < 3 ==> (0x7 & id) == id && ((0x7 & id) & 0xF8u8) == 0 && ((0x7 & id)
                & 0x7u8) == id) by (bit_vector);
        }
        let mut h = MsgPrefix { bytes: [0x7 & id, 0, 0, 0] };
        proof {
            assert(((0u8 as u32) | ((0u8 as u32) << 8u32) | ((0u8 as u32) << 16u32)) == 0u32)
                by (bit_vector);
        }
        if let Option::Some(len) = msg_len {
            h.set_msg_len(len);
        }
        h
    }

    /// Writes a payload length into the prefix as its three big-endian
    /// length bytes; the frame-kind byte stays.
    pub fn set_msg_len(&mut self, len: u32)
        requires
            len < MAX_MSG_SZ,
        ensures
            final(self).bytes@[0] == old(self).bytes@[0],
            final(self).spec_payload_len() == len,
    {
        let b1: u8 = ((len >> 16) & 0xFF) as u8;
        let b2: u8 = ((len >> 8) & 0xFF) as u8;
        let b3: u8 = (len & 0xFF) as u8;
        proof {
            assert(len < 0x100_0000u32 ==> ((((len & 0xFF) as u8) as u32) | (((((len >> 8)
                & 0xFF) as u8) as u32) << 8u32) | (((((len >> 16) & 0xFF) as u8) as u32)
                << 16u32)) == len) by (bit_vector);
        }
        self.bytes[1] = b1;
        self.bytes[2] = b2;
        self.bytes[3] = b3;
    }

    /// The frame-kind code in the low three bits of the first byte.
    pub fn payload_type(&self) -> (r: u8)
        ensures
            r == self.bytes@[0] & 0x7,
    {
        self.bytes[0] & 0x7
    }

    /// The frame kind of the prefix: its first five bits must be zero and
    /// its frame-kind code known.
    pub open spec fn spec_msg_type(self) -> Option<TcpMsg> {
        if self.bytes@[0] & 0xF8 != 0 {
            Option::None
        } else {
            TcpMsg::spec_from_id(self.bytes@[0] & 0x7)
        }
    }

    /// Decodes the frame kind, rejecting a prefix whose reserved bits are
    /// set.
    pub fn msg_type(&self) -> (r: Option<TcpMsg>)
        ensures
            r == self.spec_msg_type(),
    {
        if self.bytes[0] & 0xF8 != 0 {
            return Option::None;
        }
        TcpMsg::from_id(self.payload_type())
    }

    /// Reads the payload length from the three big-endian length bytes.
    pub fn payload_len(&self) -> (r: u32)
        ensures
            r == self.spec_payload_len(),
            r < MAX_MSG_SZ,
    {
        let b1 = self.bytes[1];
        let b2 = self.bytes[2];
        let b3 = self.bytes[3];
        proof {
            assert(((b3 as u32) | ((b2 as u32) << 8u32) | ((b1 as u32) << 16u32))
                < 0x100_0000u32) by (bit_vector);
        }
        (b3 as u32) | ((b2 as u32) << 8u32) | ((b1 as u32) << 16u32)
    }
}

/// The one-time raw-socket capability handshake: the client proposes a
/// maximum message size and a serializer; the server accepts or names an
/// error.
pub struct HandshakeCtx {
    /// The maximum message size the client proposes, a power of two
    pub msg_size: u32,
    /// The serializer the client proposes
    pub serializer: SerializerType,
    /// The four bytes the client sends
    pub client: [u8; 4],
    /// The four bytes the server answered
    pub server: [u8; 4],
}

/// The exponent-encoded length nibble: 2^(9 + high nibble of the second
/// byte) is the proposed maximum message size.
pub open spec fn spec_len_nibble(msg_size: u32, e: u8) -> bool {
    9 <= e + 9 <= 24 && (1u32 << (e + 9) as u32) == msg_size
}

impl HandshakeCtx {
    /// A fresh handshake: magic byte, defaults, zero reserved bytes.
    pub fn new() -> (r: Self)
        ensures
            r.client@[0] == 0x7F,
            r.client@[2] == 0,
            r.client@[3] == 0,
            r.msg_size == MAX_MSG_SZ,
            r.serializer == SerializerType::Json,
    {
        HandshakeCtx {
            msg_size: MAX_MSG_SZ,
            serializer: SerializerType::Json,
            client: [0x7F, 0xF0 | 1, 0, 0],
            server: [0, 0, 0, 0],
        }
    }

    /// Proposes a maximum message size: the requested size is rounded up
    /// to the least sufficient power of two and clamped to [2^9, 2^24],
    /// and the high nibble of the second byte is set to the exponent
    /// above 9.
    pub fn set_msg_size(&mut self, msg_size: u32)
        ensures
            final(self).msg_size >= MIN_MSG_SZ,
            final(self).msg_size <= MAX_MSG_SZ,
            final(self).msg_size >= msg_size || final(self).msg_size == MAX_MSG_SZ,
            final(self).msg_size == MIN_MSG_SZ || final(self).msg_size < 2 * msg_size,
            final(self).client@[0] == old(self).client@[0],
            final(self).client@[2] == old(self).client@[2],
            final(self).client@[3] == old(self).client@[3],
            final(self).client@[1] & 0x0F == old(self).client@[1] & 0x0F,
            spec_len_nibble(final(self).msg_size, (final(self).client@[1] >> 4) & 0x0F),
            final(self).serializer == old(self).serializer,
            final(self).server == old(self).server,
    {
        let mut e: u8 = 9;
        let mut p: u32 = MIN_MSG_SZ;
        proof {
            assert((1u32 << 9u32) == 0x200u32) by (bit_vector);
        }
        while p < msg_size && e < 24
            invariant
                9 <= e <= 24,
                p == (1u32 << (e as u32)),
                MIN_MSG_SZ <= p <= MAX_MSG_SZ,
                e > 9 ==> (1u32 << ((e - 1) as u32)) < msg_size,
            decreases 24 - e,
        {
            proof {
                assert(forall|x: u8| 9 <= x < 24 ==> #[trigger] (1u32 << ((x + 1) as u32)) == (1u32
                    << (x as u32)) * 2) by (bit_vector);
                assert((1u32 << ((e + 1) as u32)) <= 0x100_0000u32) by {
                    assert(forall|x: u8| 9 <= x < 24 ==> #[trigger] (1u32 << ((x + 1) as u32))
                        <= 0x100_0000u32) by (bit_vector);
                }
            }
            e = e + 1;
            p = p * 2;
        }
        proof {
            assert((1u32 << 24u32) == 0x100_0000u32) by (bit_vector);
            if e > 9 {
                assert((1u32 << (e as u32)) <= 2 * (1u32 << ((e - 1) as u32))) by (bit_vector)
                    requires
                        9 < e <= 24,
                ;
            }
        }
        self.msg_size = p;
        let nib: u8 = e - 9;
        let b1: u8 = (self.client[1] & 0x0F) | (nib << 4u8);
        proof {
            let c = self.client@[1];
            assert(nib < 16 ==> ((c & 0x0F) | (nib << 4u8)) & 0x0F == c & 0x0F) by (bit_vector);
            assert(nib < 16 ==> ((((c & 0x0F) | (nib << 4u8)) >> 4u8) & 0x0F) == nib)
                by (bit_vector);
        }
        self.client[1] = b1;
    }

    /// Proposes a serializer: its code goes into the low nibble of the
    /// second byte.
    pub fn set_serializer(&mut self, serializer: SerializerType)
        ensures
            final(self).serializer == serializer,
            final(self).msg_size == old(self).msg_size,
            final(self).client@[0] == old(self).client@[0],
            final(self).client@[2] == old(self).client@[2],
            final(self).client@[3] == old(self).client@[3],
            final(self).client@[1] & 0xF0 == old(self).client@[1] & 0xF0,
            final(self).client@[1] & 0x0F == serializer.spec_code(),
            final(self).server == old(self).server,
    {
        self.serializer = serializer;
        let code = serializer.code();
        let b1 = (self.client[1] & 0xF0) | (code & 0x0F);
        proof {
            let c = self.client@[1];
            assert(code < 3 ==> ((c & 0xF0) | (code & 0x0F)) & 0xF0 == c & 0xF0) by (bit_vector);
            assert(code < 3 ==> ((c & 0xF0) | (code & 0x0F)) & 0x0F == code) by (bit_vector);
        }
        self.client[1] = b1;
    }

    /// Stores the four bytes the server answered.
    pub fn set_server_reply(&mut self, reply: [u8; 4])
        ensures
            final(self).server == reply,
            final(self).client == old(self).client,
            final(self).msg_size == old(self).msg_size,
            final(self).serializer == old(self).serializer,
    {
        self.server = reply;
    }

    /// Checks the server's answer: the magic byte and zero reserved bytes
    /// are demanded; an echo of our proposal accepts it, and otherwise the
    /// high nibble of the second byte names the error — serializer
    /// unsupported, maximum message size rejected, or too many
    /// connections.
    pub fn validate(&self) -> (r: Result<(), TransportError>)
        ensures
            match r {
                Result::Ok(u) => self.server@[0] == 0x7F && self.server@[2] == 0 && self.server@[3]
                    == 0 && self.server@[1] == self.client@[1],
                Result::Err(e) => ({
                    let magic_ok = self.server@[0] == 0x7F && self.server@[2] == 0
                        && self.server@[3] == 0;
                    let mismatch = self.server@[1] != self.client@[1];
                    let low0 = self.server@[1] & 0x0F == 0;
                    let nib = (self.server@[1] >> 4u8) & 0x0F;
                    match e {
                        TransportError::SerializerNotSupported(sname) => magic_ok && mismatch
                            && low0 && nib == 1 && sname@ == self.serializer.spec_str(),
                        TransportError::InvalidMaximumMsgSize(m) => magic_ok && mismatch && low0
                            && nib == 2 && m == self.msg_size,
                        TransportError::MaximumServerConn => magic_ok && mismatch && low0 && nib
                            == 4,
                        TransportError::UnexpectedResponse => !magic_ok || (mismatch && (!low0 || (
                        nib != 1 && nib != 2 && nib != 4))),
                        _ => false,
                    }
                }),
            },
    {
        if self.server[0] != 0x7F || self.server[2] != 0 || self.server[3] != 0 {
            return Result::Err(TransportError::UnexpectedResponse);
        }
        if self.server[1] != self.client[1] {
            if self.server[1] & 0x0F != 0 {
                return Result::Err(TransportError::UnexpectedResponse);
            }
            let server_error: u8 = (self.server[1] >> 4u8) & 0x0F;
            return Result::Err(
                if server_error == 1 {
                    TransportError::SerializerNotSupported(
                        String::from_str(self.serializer.to_str()),
                    )
                } else if server_error == 2 {
                    TransportError::InvalidMaximumMsgSize(self.msg_size)
                } else if server_error == 4 {
                    TransportError::MaximumServerConn
                } else {
                    TransportError::UnexpectedResponse
                },
            );
        }
        Result::Ok(())
    }
}

} // verus!
