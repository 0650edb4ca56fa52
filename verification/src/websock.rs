//! The WebSocket transport's decisions, kept apart from the socket I/O
//! it would ride on: which frame kind carries which serializer, what the
//! subprotocol offer says, and how each inbound frame is handled.

use vstd::prelude::*;
use crate::serializer::SerializerType;

verus! {

/// The frames a WebSocket peer can deliver, as the transport sees them.
#[derive(Debug, Clone, Copy, PartialEq, Eq, Structural)]
pub enum WsFrameKind {
    /// A text data frame
    Text,
    /// A binary data frame
    Binary,
    /// A keepalive ping
    Ping,
    /// Any other frame
    Other,
}

/// What to do with an inbound frame.
#[derive(Debug, Clone, Copy, PartialEq, Eq, Structural)]
pub enum WsAction {
    /// Hand the payload to the codec
    Deliver,
    /// Answer with a PONG and keep reading
    ReplyPong,
    /// A protocol error: the frame kind does not fit the serializer
    Reject,
}

/// Whether a serializer travels in binary frames: the binary codecs do,
/// JSON travels as text.
pub fn uses_binary_frames(serializer: SerializerType) -> (r: bool)
    ensures
        r == !(serializer is Json),
{
    match serializer {
        SerializerType::Json => false,
        SerializerType::MsgPack => true,
        SerializerType::Cbor => true,
    }
}

/// Decides an inbound frame: a data frame of the negotiated kind is
/// delivered, a mismatched data frame is a protocol error, a ping is
/// answered with a pong, and any other frame is a protocol error.
pub fn on_ws_frame(is_bin: bool, kind: WsFrameKind) -> (r: WsAction)
    ensures
        r == match kind {
            WsFrameKind::Text => if is_bin {
                WsAction::Reject
            } else {
                WsAction::Deliver
            },
            WsFrameKind::Binary => if is_bin {
                WsAction::Deliver
            } else {
                WsAction::Reject
            },
            WsFrameKind::Ping => WsAction::ReplyPong,
            WsFrameKind::Other => WsAction::Reject,
        },
{
    match kind {
        WsFrameKind::Text => if is_bin {
            WsAction::Reject
        } else {
            WsAction::Deliver
        },
        WsFrameKind::Binary => if is_bin {
            WsAction::Deliver
        } else {
            WsAction::Reject
        },
        WsFrameKind::Ping => WsAction::ReplyPong,
        WsFrameKind::Other => WsAction::Reject,
    }
}

/// The comma-separated subprotocol offer naming each serializer in
/// preference order.
pub open spec fn spec_subprotocols(l: Seq<SerializerType>) -> Seq<char>
    decreases l.len(),
{
    if l.len() == 0 {
        Seq::empty()
    } else if l.len() == 1 {
        l.first().spec_str()
    } else {
        l.first().spec_str() + ","@ + spec_subprotocols(l.drop_first())
    }
}

/// Extending the offer by one name appends a comma where another name
/// already stands, then the name.
proof fn lemma_subprotocols_snoc(l: Seq<SerializerType>, i: int)
    requires
        0 <= i < l.len(),
    ensures
        i == 0 ==> spec_subprotocols(l.take(1)) == l[0].spec_str(),
        i > 0 ==> spec_subprotocols(l.take(i + 1)) == spec_subprotocols(l.take(i)) + ","@
            + l[i].spec_str(),
    decreases i,
{
    if i == 0 {
        assert(l.take(1).len() == 1);
        assert(l.take(1).first() == l[0]);
    } else {
        lemma_subprotocols_snoc(l.drop_first(), i - 1);
        assert(l.take(i + 1).first() == l[0]);
        assert(l.take(i + 1).drop_first() =~= l.drop_first().take(i));
        assert(l.take(i).first() == l[0]);
        assert(l.take(i).drop_first() =~= l.drop_first().take(i - 1));
        assert(l.drop_first()[i - 1] == l[i]);
        if i == 1 {
            assert(spec_subprotocols(l.take(2)) == l[0].spec_str() + ","@ + spec_subprotocols(
                l.drop_first().take(1),
            ));
        }
    }
}

/// Builds the `Sec-WebSocket-Protocol` offer: the serializer names in
/// preference order, separated by commas.
#[verifier::loop_isolation(false)]
pub fn subprotocol_list(serializers: &Vec<SerializerType>) -> (r: String)
    ensures
        r@ == spec_subprotocols(serializers@),
{
    let mut out = String::new();
    let mut i: usize = 0;
    proof {
        assert(serializers@.take(0) =~= Seq::<SerializerType>::empty());
    }
    while i < serializers.len()
        invariant
            0 <= i <= serializers@.len(),
            out@ == spec_subprotocols(serializers@.take(i as int)),
        decreases serializers@.len() - i,
    {
        if i > 0 {
            out.append(",");
        }
        out.append(serializers[i].to_str());
        proof {
            lemma_subprotocols_snoc(serializers@, i as int);
        }
        i = i + 1;
    }
    proof {
        assert(serializers@.take(serializers@.len() as int) =~= serializers@);
    }
    out
}

} // verus!
