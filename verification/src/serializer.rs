//! Serializer selection: the three codecs and their negotiation names.

use vstd::prelude::*;
use crate::cbor::{cbor_bytes, cbor_emit_val, cbor_parse, cbor_value_of};
use crate::msgpack::{mp_bytes, mp_emit_val, mp_emittable, mp_parse_all, mp_value_of};
use crate::error::SerializerError;
use crate::json::{
    jbytes, json_emit, json_parse, json_value_of, lemma_json_roundtrip, lemma_wire_of_arg_seq_simple,
    lemma_wire_of_dict_simple, val_obj_simple, val_seq_simple, val_simple,
};
use crate::msg::{Msg, MsgView};
use crate::tuples::{
    lemma_msg_wire_roundtrip, msg_norm, msg_of_wire, msg_to_wire, payload_tail, wire_of_msg,
    wire_to_msg,
};
use crate::types::PayloadValue;
use crate::value::ValView;
use crate::wire::wire_of_dict;

verus! {

/// Message serialization algorithms, with their raw-socket handshake codes.
#[derive(Debug, Clone, Copy, PartialEq, Eq, Structural)]
pub enum SerializerType {
    /// JSON text, handshake code 1
    Json,
    /// MsgPack binary, handshake code 2
    MsgPack,
    /// CBOR binary, handshake code 0
    Cbor,
}

impl SerializerType {
    /// The low-nibble code of the serializer in the raw-socket handshake.
    pub open spec fn spec_code(self) -> u8 {
        match self {
            SerializerType::Json => 1,
            SerializerType::MsgPack => 2,
            SerializerType::Cbor => 0,
        }
    }

    /// Returns the handshake code of the serializer.
    pub fn code(&self) -> (c: u8)
        ensures
            c == self.spec_code(),
    {
        match self {
            SerializerType::Json => 1,
            SerializerType::MsgPack => 2,
            SerializerType::Cbor => 0,
        }
    }

    /// The subprotocol name of the serializer.
    pub open spec fn spec_str(self) -> Seq<char> {
        match self {
            SerializerType::Json => "wamp.2.json"@,
            SerializerType::MsgPack => "wamp.2.msgpack"@,
            SerializerType::Cbor => "wamp.2.cbor"@,
        }
    }

    /// Returns the WAMP wire name of the serializer.
    pub fn to_str(self) -> (s: &'static str)
        ensures
            s@ == self.spec_str(),
    {
        match self {
            SerializerType::Json => "wamp.2.json",
            SerializerType::MsgPack => "wamp.2.msgpack",
            SerializerType::Cbor => "wamp.2.cbor",
        }
    }

    /// The serializer a wire name names, if any.
    pub open spec fn spec_of_str(s: Seq<char>) -> Option<SerializerType> {
        if s == "wamp.2.cbor"@ {
            Option::Some(SerializerType::Cbor)
        } else if s == "wamp.2.json"@ {
            Option::Some(SerializerType::Json)
        } else if s == "wamp.2.msgpack"@ {
            Option::Some(SerializerType::MsgPack)
        } else {
            Option::None
        }
    }

    /// Parses a WAMP wire name into a serializer; an unknown name is
    /// rejected.
    pub fn from_str(s: &str) -> (r: Result<SerializerType, SerializerError>)
        ensures
            match r {
                Result::Ok(t) => Self::spec_of_str(s@) == Option::Some(t),
                Result::Err(e) => Self::spec_of_str(s@) is None && (e matches
                    SerializerError::UnknownSerializer(u) && u@ == s@),
            },
    {
        if crate::value::str_eq(s, SerializerType::Cbor.to_str()) {
            Result::Ok(SerializerType::Cbor)
        } else if crate::value::str_eq(s, SerializerType::Json.to_str()) {
            Result::Ok(SerializerType::Json)
        } else if crate::value::str_eq(s, SerializerType::MsgPack.to_str()) {
            Result::Ok(SerializerType::MsgPack)
        } else {
            Result::Err(SerializerError::UnknownSerializer(String::from_str(s)))
        }
    }
}

/// The message a JSON byte string carries: the bytes must be exactly one
/// JSON array that decodes as a message tuple.
pub open spec fn json_msg_of(b: Seq<u8>) -> Option<MsgView> {
    match json_value_of(b) {
        Option::Some(v) => match v {
            ValView::List(t) => msg_of_wire(t),
            _ => Option::None,
        },
        Option::None => Option::None,
    }
}

/// The JSON codec.
pub struct JsonSerializer {}

impl JsonSerializer {
    /// Serializes a message as the JSON text of its wire tuple. Packing
    /// cannot fail; the `Result` mirrors the codec interface.
    pub fn pack(&self, value: &Msg) -> (r: Result<Vec<u8>, SerializerError>)
        ensures
            r matches Result::Ok(b) && b@ == jbytes(ValView::List(wire_of_msg(value@))),
    {
        let t = msg_to_wire(value);
        let v = PayloadValue::List(t);
        Result::Ok(json_emit(&v))
    }

    /// Deserializes a message from the JSON text of its wire tuple. The
    /// bytes must hold exactly one well formed message tuple.
    pub fn unpack(&self, v: &[u8]) -> (r: Result<Msg, SerializerError>)
        ensures
            match r {
                Result::Ok(m) => json_msg_of(v@) == Option::Some(m@),
                Result::Err(e) => json_msg_of(v@) is None && e matches
                    SerializerError::Deserialization(_),
            },
    {
        let data = vstd::slice::slice_to_vec(v);
        match json_parse(&data) {
            Option::Some(pv) => match pv {
                PayloadValue::List(t) => match wire_to_msg(&t) {
                    Result::Ok(m) => Result::Ok(m),
                    Result::Err(e) => Result::Err(e),
                },
                _ => Result::Err(
                    SerializerError::Deserialization(
                        String::from_str("the payload is not a message tuple"),
                    ),
                ),
            },
            Option::None => Result::Err(
                SerializerError::Deserialization(String::from_str("the payload is not valid")),
            ),
        }
    }
}

/// The message a CBOR byte string carries: the bytes must be exactly one
/// CBOR array that decodes as a message tuple.
pub open spec fn cbor_msg_of(b: Seq<u8>) -> Option<MsgView> {
    match cbor_value_of(b) {
        Option::Some(v) => match v {
            ValView::List(t) => msg_of_wire(t),
            _ => Option::None,
        },
        Option::None => Option::None,
    }
}

/// The CBOR codec.
pub struct CborSerializer {}

impl CborSerializer {
    /// Serializes a message as the CBOR item of its wire tuple. Packing
    /// fails exactly when the payload carries a lexical number, which has
    /// no binary form.
    pub fn pack(&self, value: &Msg) -> (r: Result<Vec<u8>, SerializerError>)
        ensures
            val_seq_simple(wire_of_msg(value@)) ==> (r matches Result::Ok(b) && b@ == cbor_bytes(
                ValView::List(wire_of_msg(value@)),
            )),
            !val_seq_simple(wire_of_msg(value@)) ==> (r matches Result::Err(e) && e matches
                SerializerError::Serialization(_)),
    {
        let t = msg_to_wire(value);
        let v = PayloadValue::List(t);
        let mut out: Vec<u8> = Vec::new();
        if cbor_emit_val(&v, &mut out) {
            proof {
                assert(out@ =~= cbor_bytes(ValView::List(wire_of_msg(value@))));
            }
            Result::Ok(out)
        } else {
            Result::Err(
                SerializerError::Serialization(
                    String::from_str("the payload has no binary form"),
                ),
            )
        }
    }

    /// Deserializes a message from the CBOR item of its wire tuple.
    pub fn unpack(&self, v: &[u8]) -> (r: Result<Msg, SerializerError>)
        ensures
            match r {
                Result::Ok(m) => cbor_msg_of(v@) == Option::Some(m@),
                Result::Err(e) => cbor_msg_of(v@) is None && e matches
                    SerializerError::Deserialization(_),
            },
    {
        let data = vstd::slice::slice_to_vec(v);
        match cbor_parse(&data) {
            Option::Some(pv) => match pv {
                PayloadValue::List(t) => match wire_to_msg(&t) {
                    Result::Ok(m) => Result::Ok(m),
                    Result::Err(e) => Result::Err(e),
                },
                _ => Result::Err(
                    SerializerError::Deserialization(
                        String::from_str("the payload is not a message tuple"),
                    ),
                ),
            },
            Option::None => Result::Err(
                SerializerError::Deserialization(String::from_str("the payload is not valid")),
            ),
        }
    }
}

/// The message a MsgPack byte string carries: the bytes must be exactly
/// one MsgPack array that decodes as a message tuple.
pub open spec fn mp_msg_of(b: Seq<u8>) -> Option<MsgView> {
    match mp_value_of(b) {
        Option::Some(v) => match v {
            ValView::List(t) => msg_of_wire(t),
            _ => Option::None,
        },
        Option::None => Option::None,
    }
}

/// The MsgPack codec.
pub struct MsgPackSerializer {}

impl MsgPackSerializer {
    /// Serializes a message as the MsgPack item of its wire tuple.
    /// Packing fails exactly when the payload carries a lexical number or
    /// a piece too large for a 32-bit length.
    pub fn pack(&self, value: &Msg) -> (r: Result<Vec<u8>, SerializerError>)
        ensures
            mp_emittable(ValView::List(wire_of_msg(value@))) ==> (r matches Result::Ok(b) && b@
                == mp_bytes(ValView::List(wire_of_msg(value@)))),
            !mp_emittable(ValView::List(wire_of_msg(value@))) ==> (r matches Result::Err(e)
                && e matches SerializerError::Serialization(_)),
    {
        let t = msg_to_wire(value);
        let v = PayloadValue::List(t);
        let mut out: Vec<u8> = Vec::new();
        if mp_emit_val(&v, &mut out) {
            proof {
                assert(out@ =~= mp_bytes(ValView::List(wire_of_msg(value@))));
            }
            Result::Ok(out)
        } else {
            Result::Err(
                SerializerError::Serialization(
                    String::from_str("the payload has no binary form"),
                ),
            )
        }
    }

    /// Deserializes a message from the MsgPack item of its wire tuple.
    pub fn unpack(&self, v: &[u8]) -> (r: Result<Msg, SerializerError>)
        ensures
            match r {
                Result::Ok(m) => mp_msg_of(v@) == Option::Some(m@),
                Result::Err(e) => mp_msg_of(v@) is None && e matches
                    SerializerError::Deserialization(_),
            },
    {
        let data = vstd::slice::slice_to_vec(v);
        match mp_parse_all(&data) {
            Option::Some(pv) => match pv {
                PayloadValue::List(t) => match wire_to_msg(&t) {
                    Result::Ok(m) => Result::Ok(m),
                    Result::Err(e) => Result::Err(e),
                },
                _ => Result::Err(
                    SerializerError::Deserialization(
                        String::from_str("the payload is not a message tuple"),
                    ),
                ),
            },
            Option::None => Result::Err(
                SerializerError::Deserialization(String::from_str("the payload is not valid")),
            ),
        }
    }
}

/// The payload of a message carries no lexical numbers.
pub open spec fn msg_payload_simple(m: MsgView) -> bool {
    match m {
        MsgView::Error { arguments, arguments_kw, .. } => payload_simple(arguments, arguments_kw),
        MsgView::Publish { arguments, arguments_kw, .. } => payload_simple(
            arguments,
            arguments_kw,
        ),
        MsgView::Event { arguments, arguments_kw, .. } => payload_simple(arguments, arguments_kw),
        MsgView::Call { arguments, arguments_kw, .. } => payload_simple(arguments, arguments_kw),
        MsgView::CallResult { arguments, arguments_kw, .. } => payload_simple(
            arguments,
            arguments_kw,
        ),
        MsgView::Invocation { arguments, arguments_kw, .. } => payload_simple(
            arguments,
            arguments_kw,
        ),
        MsgView::Yield { arguments, arguments_kw, .. } => payload_simple(arguments, arguments_kw),
        _ => true,
    }
}

/// Both payload parts, where present, carry no lexical numbers.
pub open spec fn payload_simple(
    a: Option<Seq<ValView>>,
    k: Option<Seq<(Seq<char>, ValView)>>,
) -> bool {
    &&& (a matches Option::Some(l) ==> val_seq_simple(l))
    &&& (k matches Option::Some(o) ==> val_obj_simple(o))
}

/// Simplicity distributes over concatenation of element sequences.
proof fn lemma_val_seq_simple_concat(s1: Seq<ValView>, s2: Seq<ValView>)
    ensures
        val_seq_simple(s1 + s2) <==> val_seq_simple(s1) && val_seq_simple(s2),
    decreases s1.len(),
{
    if s1.len() == 0 {
        assert(s1 + s2 =~= s2);
    } else {
        lemma_val_seq_simple_concat(s1.drop_first(), s2);
        assert((s1 + s2).drop_first() =~= s1.drop_first() + s2);
        assert((s1 + s2).first() == s1.first());
    }
}

/// A singleton sequence is simple exactly when its element is.
proof fn lemma_val_seq_simple_one(x: ValView)
    ensures
        val_seq_simple(seq![x]) <==> val_simple(x),
{
    assert(seq![x].drop_first() =~= Seq::<ValView>::empty());
    assert(val_seq_simple(Seq::<ValView>::empty()));
    assert(seq![x].first() == x);
    assert(val_seq_simple(seq![x]) == (val_simple(seq![x].first()) && val_seq_simple(
        seq![x].drop_first(),
    )));
}

/// The trailing payload elements of a wire-simple payload are simple.
proof fn lemma_payload_tail_simple(
    a: Option<Seq<ValView>>,
    k: Option<Seq<(Seq<char>, ValView)>>,
)
    requires
        payload_simple(a, k),
    ensures
        val_seq_simple(payload_tail(a, k)),
{
    match k {
        Option::Some(kw) => {
            let args = match a {
                Option::Some(l) => l,
                Option::None => Seq::empty(),
            };
            assert(val_seq_simple(args));
            let t = payload_tail(a, k);
            assert(t =~= seq![ValView::List(args)] + seq![ValView::Object(kw)]);
            lemma_val_seq_simple_one(ValView::List(args));
            lemma_val_seq_simple_one(ValView::Object(kw));
            lemma_val_seq_simple_concat(seq![ValView::List(args)], seq![ValView::Object(kw)]);
        },
        Option::None => {
            match a {
                Option::Some(l) => {
                    lemma_val_seq_simple_one(ValView::List(l));
                },
                Option::None => {},
            }
        },
    }
}

/// The wire tuple of a message with a simple payload is simple: protocol
/// dictionaries never produce lexical numbers.
#[verifier::rlimit(100)]
proof fn lemma_wire_of_msg_simple(m: MsgView)
    requires
        msg_payload_simple(m),
    ensures
        val_seq_simple(wire_of_msg(m)),
{
    let t = wire_of_msg(m);
    match m {
        MsgView::Hello { realm, details } => {
            lemma_wire_of_dict_simple(details);
            lemma_head_simple(t);
        },
        MsgView::Welcome { session, details } => {
            lemma_wire_of_dict_simple(details);
            lemma_head_simple(t);
        },
        MsgView::Abort { details, reason } => {
            lemma_wire_of_dict_simple(details);
            lemma_head_simple(t);
        },
        MsgView::Challenge { authentication_method, extra } => {
            lemma_wire_of_dict_simple(extra);
            lemma_head_simple(t);
        },
        MsgView::Authenticate { signature, extra } => {
            lemma_wire_of_dict_simple(extra);
            lemma_head_simple(t);
        },
        MsgView::Goodbye { details, reason } => {
            lemma_wire_of_dict_simple(details);
            lemma_head_simple(t);
        },
        MsgView::Error { typ, request, details, error, arguments, arguments_kw } => {
            lemma_wire_of_dict_simple(details);
            let head = seq![
                ValView::Uint(crate::msg::ERROR_ID),
                ValView::Uint(typ),
                ValView::Uint(request),
                ValView::Object(wire_of_dict(details)),
                ValView::Text(error),
            ];
            lemma_head_simple(head);
            lemma_payload_tail_simple(arguments, arguments_kw);
            lemma_val_seq_simple_concat(head, payload_tail(arguments, arguments_kw));
        },
        MsgView::Publish { request, options, topic, arguments, arguments_kw } => {
            lemma_wire_of_dict_simple(options);
            let head = seq![
                ValView::Uint(crate::msg::PUBLISH_ID),
                ValView::Uint(request),
                ValView::Object(wire_of_dict(options)),
                ValView::Text(topic),
            ];
            lemma_head_simple(head);
            lemma_payload_tail_simple(arguments, arguments_kw);
            lemma_val_seq_simple_concat(head, payload_tail(arguments, arguments_kw));
        },
        MsgView::Published { request, publication } => {
            lemma_head_simple(t);
        },
        MsgView::Subscribe { request, options, topic } => {
            lemma_wire_of_dict_simple(options);
            lemma_head_simple(t);
        },
        MsgView::Subscribed { request, subscription } => {
            lemma_head_simple(t);
        },
        MsgView::Unsubscribe { request, subscription } => {
            lemma_head_simple(t);
        },
        MsgView::Unsubscribed { request } => {
            lemma_head_simple(t);
        },
        MsgView::Event { subscription, publication, details, arguments, arguments_kw } => {
            lemma_wire_of_dict_simple(details);
            let head = seq![
                ValView::Uint(crate::msg::EVENT_ID),
                ValView::Uint(subscription),
                ValView::Uint(publication),
                ValView::Object(wire_of_dict(details)),
            ];
            lemma_head_simple(head);
            lemma_payload_tail_simple(arguments, arguments_kw);
            lemma_val_seq_simple_concat(head, payload_tail(arguments, arguments_kw));
        },
        MsgView::Call { request, options, procedure, arguments, arguments_kw } => {
            lemma_wire_of_dict_simple(options);
            let head = seq![
                ValView::Uint(crate::msg::CALL_ID),
                ValView::Uint(request),
                ValView::Object(wire_of_dict(options)),
                ValView::Text(procedure),
            ];
            lemma_head_simple(head);
            lemma_payload_tail_simple(arguments, arguments_kw);
            lemma_val_seq_simple_concat(head, payload_tail(arguments, arguments_kw));
        },
        MsgView::CallResult { request, details, arguments, arguments_kw } => {
            lemma_wire_of_dict_simple(details);
            let head = seq![
                ValView::Uint(crate::msg::RESULT_ID),
                ValView::Uint(request),
                ValView::Object(wire_of_dict(details)),
            ];
            lemma_head_simple(head);
            lemma_payload_tail_simple(arguments, arguments_kw);
            lemma_val_seq_simple_concat(head, payload_tail(arguments, arguments_kw));
        },
        MsgView::Register { request, options, procedure } => {
            lemma_wire_of_dict_simple(options);
            lemma_head_simple(t);
        },
        MsgView::Registered { request, registration } => {
            lemma_head_simple(t);
        },
        MsgView::Unregister { request, registration } => {
            lemma_head_simple(t);
        },
        MsgView::Unregistered { request } => {
            lemma_head_simple(t);
        },
        MsgView::Invocation { request, registration, details, arguments, arguments_kw } => {
            lemma_wire_of_dict_simple(details);
            let head = seq![
                ValView::Uint(crate::msg::INVOCATION_ID),
                ValView::Uint(request),
                ValView::Uint(registration),
                ValView::Object(wire_of_dict(details)),
            ];
            lemma_head_simple(head);
            lemma_payload_tail_simple(arguments, arguments_kw);
            lemma_val_seq_simple_concat(head, payload_tail(arguments, arguments_kw));
        },
        MsgView::Yield { request, options, arguments, arguments_kw } => {
            lemma_wire_of_dict_simple(options);
            let head = seq![
                ValView::Uint(crate::msg::YIELD_ID),
                ValView::Uint(request),
                ValView::Object(wire_of_dict(options)),
            ];
            lemma_head_simple(head);
            lemma_payload_tail_simple(arguments, arguments_kw);
            lemma_val_seq_simple_concat(head, payload_tail(arguments, arguments_kw));
        },
    }
}

/// A fixed tuple head whose elements are each simple is simple.
proof fn lemma_head_simple(t: Seq<ValView>)
    requires
        forall|i: int| 0 <= i < t.len() ==> val_simple(#[trigger] t[i]),
    ensures
        val_seq_simple(t),
    decreases t.len(),
{
    if t.len() > 0 {
        lemma_head_simple(t.drop_first());
    }
}

/// Round trip of the JSON codec: unpacking a packed message gives the
/// message back, for every wire-normal message whose payload carries no
/// lexical numbers.
pub proof fn lemma_json_pack_unpack(m: MsgView)
    requires
        msg_norm(m),
        msg_payload_simple(m),
    ensures
        json_msg_of(jbytes(ValView::List(wire_of_msg(m)))) == Option::Some(m),
{
    lemma_wire_of_msg_simple(m);
    lemma_json_roundtrip(ValView::List(wire_of_msg(m)));
    lemma_msg_wire_roundtrip(m);
}

} // verus!
