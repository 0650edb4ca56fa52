//! Cryptosign authentication: hex challenges and Ed25519 signatures. The
//! hex codec and the signature primitive come from outside crates behind
//! trusted contracts; the glue around them is verified.

use vstd::prelude::*;
use crate::types::{Arg, WampDict};
use crate::value::{dict_find, view_dict, ArgView};

verus! {

/// The lowercase hex digit of a nibble.
pub open spec fn hex_digit_char(n: u8) -> char
    recommends
        n < 16,
{
    if n < 10 {
        ((0x30 + n) as u8) as char
    } else {
        ((0x57 + n) as u8) as char
    }
}

/// The lowercase hex text of a byte sequence: two digits per byte, high
/// nibble first.
pub open spec fn hex_of(b: Seq<u8>) -> Seq<char> {
    Seq::new(
        2 * b.len(),
        |i: int|
            if i % 2 == 0 {
                hex_digit_char(b[i / 2] / 16)
            } else {
                hex_digit_char(b[i / 2] % 16)
            },
    )
}

/// The value of a hex digit, either case.
pub open spec fn hex_char_val(c: char) -> Option<u8> {
    if '0' <= c && c <= '9' {
        Option::Some(((c as u8) - 0x30) as u8)
    } else if 'a' <= c && c <= 'f' {
        Option::Some(((c as u8) - 0x57) as u8)
    } else if 'A' <= c && c <= 'F' {
        Option::Some(((c as u8) - 0x37) as u8)
    } else {
        Option::None
    }
}

/// The bytes a hex text denotes: defined exactly on even-length strings
/// of hex digits, read in pairs.
pub open spec fn hex_bytes(s: Seq<char>) -> Option<Seq<u8>>
    decreases s.len(),
{
    if s.len() % 2 != 0 {
        Option::None
    } else if s.len() == 0 {
        Option::Some(Seq::empty())
    } else {
        match (hex_char_val(s[0]), hex_char_val(s[1]), hex_bytes(s.skip(2))) {
            (Option::Some(h), Option::Some(l), Option::Some(rest)) => Option::Some(
                seq![(16 * h + l) as u8] + rest,
            ),
            _ => Option::None,
        }
    }
}

/// Reading a hex digit back gives the nibble.
proof fn lemma_hex_digit_roundtrip(n: u8)
    requires
        n < 16,
    ensures
        hex_char_val(hex_digit_char(n)) == Option::Some(n),
{
}

/// Decoding the hex text of a byte sequence gives the bytes back.
pub proof fn lemma_hex_roundtrip(b: Seq<u8>)
    ensures
        hex_bytes(hex_of(b)) == Option::Some(b),
    decreases b.len(),
{
    let s = hex_of(b);
    if b.len() == 0 {
        assert(s =~= Seq::<char>::empty());
    } else {
        lemma_hex_roundtrip(b.drop_first());
        lemma_hex_digit_roundtrip(b[0] / 16);
        lemma_hex_digit_roundtrip(b[0] % 16);
        assert(s[0] == hex_digit_char(b[0] / 16));
        assert(s[1] == hex_digit_char(b[0] % 16));
        assert(s.skip(2) =~= hex_of(b.drop_first())) by {
            assert forall|i: int| 0 <= i < s.skip(2).len() implies #[trigger] s.skip(2)[i]
                == hex_of(b.drop_first())[i] by {
                assert(s.skip(2)[i] == s[i + 2]);
                assert(b.drop_first()[(i / 2) as int] == b[i / 2 + 1]);
                assert((i + 2) / 2 == i / 2 + 1);
                assert((i + 2) % 2 == i % 2);
            }
        }
        assert((16 * (b[0] / 16) + (b[0] % 16)) as u8 == b[0]);
        assert(seq![b[0]] + b.drop_first() =~= b);
        assert(hex_bytes(s) == Option::Some(seq![b[0]] + b.drop_first()));
    }
}

/// Relies on hex::encode: two lowercase hex digits for each byte, high
/// nibble first.
#[verifier::external_body]
pub fn hex_encode(data: &[u8]) -> (r: String)
    ensures
        r@ == hex_of(data@),
{
    hex::encode(data)
}

/// Relies on hex::decode: accepts exactly the even-length strings of hex
/// digits of either case, read in pairs.
#[verifier::external_body]
pub fn hex_decode(s: &str) -> (r: Option<Vec<u8>>)
    ensures
        match r {
            Option::Some(b) => hex_bytes(s@) == Option::Some(b@),
            Option::None => hex_bytes(s@) is None,
        },
{
    match hex::decode(s) {
        Ok(b) => Option::Some(b),
        Err(_) => Option::None,
    }
}

/// The 64-byte Ed25519 signing key derived from a 32-byte seed.
pub uninterp spec fn ed25519_skey(seed: Seq<u8>) -> Seq<u8>;

/// The Ed25519 signed message: 64 signature bytes followed by the message.
pub uninterp spec fn ed25519_signed(m: Seq<u8>, sk: Seq<u8>) -> Seq<u8>;

/// Relies on nacl::sign::generate_keypair: the signing key it derives
/// from a 32-byte seed, a deterministic function of the seed.
#[verifier::external_body]
fn signing_skey(seed: &[u8]) -> (r: Vec<u8>)
    requires
        seed@.len() == 32,
    ensures
        r@ == ed25519_skey(seed@),
        r@.len() == 64,
{
    nacl::sign::generate_keypair(seed).skey.to_vec()
}

/// Relies on nacl::sign::sign: the signed message for a non-empty message
/// and a 64-byte key, a deterministic function of both; its length is the
/// message's plus 64.
#[verifier::external_body]
fn signing_sign(m: &[u8], sk: &[u8]) -> (r: Vec<u8>)
    requires
        m@.len() > 0,
        sk@.len() == 64,
    ensures
        r@ == ed25519_signed(m@, sk@),
        r@.len() == m@.len() + 64,
{
    nacl::sign::sign(m, sk).ok().unwrap()
}

/// Holds the 32-byte Ed25519 seed a cryptosign client authenticates with.
pub struct CryptoSign {
    /// The secret seed
    pub sk: [u8; 32],
}

impl CryptoSign {
    /// Builds the signer from the hex text of its 32-byte seed.
    pub fn new(secret_key: String) -> (r: CryptoSign)
        requires
            hex_bytes(secret_key@) matches Option::Some(b) && b.len() == 32,
        ensures
            r.sk@ == hex_bytes(secret_key@)->Some_0,
    {
        let raw = match hex_decode(secret_key.as_str()) {
            Option::Some(b) => b,
            Option::None => {
                proof {
                    assert(false);
                }
                unreached()
            },
        };
        CryptoSign { sk: CryptoSign::vec_array32(raw) }
    }

    /// Builds the signer when the text is the hex of a 32-byte seed, and
    /// reports when it is not.
    pub fn try_new(secret_key: String) -> (r: Option<CryptoSign>)
        ensures
            match r {
                Option::Some(cs) => hex_bytes(secret_key@) matches Option::Some(b) && b.len()
                    == 32 && cs.sk@ == b,
                Option::None => !(hex_bytes(secret_key@) matches Option::Some(b) && b.len() == 32),
            },
    {
        match hex_decode(secret_key.as_str()) {
            Option::Some(b) => {
                if b.len() == 32 {
                    Option::Some(CryptoSign::new(secret_key))
                } else {
                    Option::None
                }
            },
            Option::None => Option::None,
        }
    }

    /// Answers a cryptosign challenge when the dictionary holds a well
    /// formed 32-byte hex challenge under `challenge`, and reports when it
    /// does not.
    pub fn try_generate_signature(&self, extra: &WampDict) -> (r: Option<String>)
        ensures
            match r {
                Option::Some(sig) => dict_find(view_dict(*extra), "challenge"@) matches
                    Option::Some(ArgView::Uri(c)) && (hex_bytes(c) matches Option::Some(ch)
                    && ch.len() == 32) && sig@ == hex_of(
                    ed25519_signed(hex_bytes(c)->Some_0, ed25519_skey(self.sk@)),
                ) && sig@.len() == 192,
                Option::None => !(dict_find(view_dict(*extra), "challenge"@) matches
                    Option::Some(ArgView::Uri(c)) && (hex_bytes(c) matches Option::Some(ch)
                    && ch.len() == 32)),
            },
    {
        match crate::value::dict_get(extra, "challenge") {
            Option::Some(a) => match a {
                Arg::Uri(c) => match hex_decode(c.as_str()) {
                    Option::Some(b) => {
                        if b.len() == 32 {
                            Option::Some(self.generate_signature(extra))
                        } else {
                            Option::None
                        }
                    },
                    Option::None => Option::None,
                },
                _ => Option::None,
            },
            Option::None => Option::None,
        }
    }

    /// Answers a cryptosign challenge: the hex challenge in the `extra`
    /// dictionary is decoded, signed with the key derived from the seed,
    /// and the signed message returned as hex.
    pub fn generate_signature(&self, extra: &WampDict) -> (r: String)
        requires
            dict_find(view_dict(*extra), "challenge"@) matches Option::Some(ArgView::Uri(c))
                && hex_bytes(c) matches Option::Some(ch) && ch.len() == 32,
        ensures
            ({
                let c = dict_find(view_dict(*extra), "challenge"@)->Some_0->Uri_0;
                r@ == hex_of(ed25519_signed(hex_bytes(c)->Some_0, ed25519_skey(self.sk@)))
            }),
            r@.len() == 192,
    {
        let data = match crate::value::dict_get(extra, "challenge") {
            Option::Some(a) => a,
            Option::None => {
                proof {
                    assert(false);
                }
                unreached()
            },
        };
        let challenge = match data {
            Arg::Uri(c) => c,
            _ => {
                proof {
                    assert(false);
                }
                unreached()
            },
        };
        let challenge_bytes = match hex_decode(challenge.as_str()) {
            Option::Some(b) => b,
            Option::None => {
                proof {
                    assert(false);
                }
                unreached()
            },
        };
        let skey = signing_skey(self.sk.as_slice());
        let signed = signing_sign(challenge_bytes.as_slice(), skey.as_slice());
        let signature = CryptoSign::vec_array96(signed);
        hex_encode(signature.as_slice())
    }

    /// Fits a 32-element vector into an array.
    pub fn vec_array32<T: Copy>(v: Vec<T>) -> (r: [T; 32])
        requires
            v@.len() == 32,
        ensures
            r@ =~= v@,
    {
        let mut a: [T; 32] = [v[0]; 32];
        let mut i: usize = 1;
        while i < 32
            invariant
                1 <= i <= 32,
                v@.len() == 32,
                forall|j: int| 0 <= j < i ==> a@[j] == v@[j],
            decreases 32 - i,
        {
            a[i] = v[i];
            i = i + 1;
        }
        a
    }

    /// Fits a 96-element vector into an array.
    pub fn vec_array96<T: Copy>(v: Vec<T>) -> (r: [T; 96])
        requires
            v@.len() == 96,
        ensures
            r@ =~= v@,
    {
        let mut a: [T; 96] = [v[0]; 96];
        let mut i: usize = 1;
        while i < 96
            invariant
                1 <= i <= 96,
                v@.len() == 96,
                forall|j: int| 0 <= j < i ==> a@[j] == v@[j],
            decreases 96 - i,
        {
            a[i] = v[i];
            i = i + 1;
        }
        a
    }
}

} // verus!
