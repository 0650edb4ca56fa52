//! The JSON wire codec: emitting and parsing payload values as bytes.
//!
//! The emitter produces canonical text: no whitespace, strings with only
//! the two mandatory escapes and `\u00XX` for control bytes, integers in
//! plain decimal. The parser accepts canonical text plus the standard
//! escapes.

use vstd::prelude::*;
use crate::types::PayloadValue;
use crate::value::{view_val, ArgView, ValView};
use crate::wire::{wire_of_arg, wire_of_arg_seq, wire_of_dict};

verus! {

/// The decimal digit character of a value below ten.
pub open spec fn dec_digit(n: u8) -> u8
    recommends
        n < 10,
{
    (0x30 + n) as u8
}

/// The canonical decimal byte text of an integer.
pub open spec fn dec_bytes(n: u64) -> Seq<u8>
    decreases n,
{
    if n < 10 {
        seq![dec_digit(n as u8)]
    } else {
        dec_bytes(n / 10).push(dec_digit((n % 10) as u8))
    }
}

/// The hex digit character of a nibble, lowercase.
pub open spec fn hex_digit(n: u8) -> u8
    recommends
        n < 16,
{
    if n < 10 {
        (0x30 + n) as u8
    } else {
        (0x57 + n) as u8
    }
}

/// The escaped form of one string byte: quote and backslash get a
/// backslash escape, control bytes a `\u00XX` escape, and anything else
/// passes through.
pub open spec fn esc_byte(x: u8) -> Seq<u8> {
    if x == 0x22 {
        seq![0x5Cu8, 0x22u8]
    } else if x == 0x5C {
        seq![0x5Cu8, 0x5Cu8]
    } else if x < 0x20 {
        seq![0x5Cu8, 0x75u8, 0x30u8, 0x30u8, hex_digit(x / 16), hex_digit(x % 16)]
    } else {
        seq![x]
    }
}

/// The escaped form of a string body.
pub open spec fn esc_bytes(b: Seq<u8>) -> Seq<u8>
    decreases b.len(),
{
    if b.len() == 0 {
        Seq::empty()
    } else {
        esc_byte(b.first()) + esc_bytes(b.drop_first())
    }
}

/// The JSON text of a payload value, as bytes.
pub open spec fn jbytes(v: ValView) -> Seq<u8>
    decreases v, 1int,
    via jbytes_decreases
{
    match v {
        ValView::Null => seq![0x6Eu8, 0x75u8, 0x6Cu8, 0x6Cu8],
        ValView::Bool(b) => if b {
            seq![0x74u8, 0x72u8, 0x75u8, 0x65u8]
        } else {
            seq![0x66u8, 0x61u8, 0x6Cu8, 0x73u8, 0x65u8]
        },
        ValView::Uint(n) => dec_bytes(n),
        ValView::Num(s) => vstd::utf8::encode_utf8(s),
        ValView::Text(s) => seq![0x22u8] + esc_bytes(vstd::utf8::encode_utf8(s)) + seq![0x22u8],
        ValView::List(l) => seq![0x5Bu8] + jbytes_items(l) + seq![0x5Du8],
        ValView::Object(o) => seq![0x7Bu8] + jbytes_entries(o) + seq![0x7Du8],
    }
}

/// The comma-separated items of a JSON array.
pub open spec fn jbytes_items(l: Seq<ValView>) -> Seq<u8>
    decreases l, 0int,
    via jbytes_items_decreases
{
    if l.len() == 0 {
        Seq::empty()
    } else if l.len() == 1 {
        jbytes(l.first())
    } else {
        jbytes(l.first()) + seq![0x2Cu8] + jbytes_items(l.drop_first())
    }
}

/// The comma-separated entries of a JSON object.
pub open spec fn jbytes_entries(o: Seq<(Seq<char>, ValView)>) -> Seq<u8>
    decreases o, 0int,
    via jbytes_entries_decreases
{
    if o.len() == 0 {
        Seq::empty()
    } else if o.len() == 1 {
        jbytes_entry(o.first())
    } else {
        jbytes_entry(o.first()) + seq![0x2Cu8] + jbytes_entries(o.drop_first())
    }
}

/// One `"key":value` entry of a JSON object.
pub open spec fn jbytes_entry(e: (Seq<char>, ValView)) -> Seq<u8>
    decreases e, 2int,
    via jbytes_entry_decreases
{
    seq![0x22u8] + esc_bytes(vstd::utf8::encode_utf8(e.0)) + seq![0x22u8, 0x3Au8] + jbytes(e.1)
}

#[via_fn]
proof fn jbytes_entry_decreases(e: (Seq<char>, ValView)) {
    assert(decreases_to!(e => e.1));
}

#[via_fn]
proof fn jbytes_decreases(v: ValView) {
    match v {
        ValView::List(l) => {
            assert(decreases_to!(v => l));
        },
        ValView::Object(o) => {
            assert(decreases_to!(v => o));
        },
        _ => {},
    }
}

#[via_fn]
proof fn jbytes_items_decreases(l: Seq<ValView>) {
    broadcast use vstd::seq::axiom_seq_index_decreases;

    if l.len() > 0 {
        assert(decreases_to!(l => l[0]));
        assert(decreases_to!(l => l.subrange(1, l.len() as int)));
    }
}

#[via_fn]
proof fn jbytes_entries_decreases(o: Seq<(Seq<char>, ValView)>) {
    broadcast use vstd::seq::axiom_seq_index_decreases;

    if o.len() > 0 {
        assert(decreases_to!(o => o[0]));
        assert(decreases_to!(o => o.subrange(1, o.len() as int)));
    }
}

/// Writes the canonical decimal text of an integer.
#[verifier::loop_isolation(false)]
pub fn emit_dec(n: u64, out: &mut Vec<u8>)
    ensures
        final(out)@ == old(out)@ + dec_bytes(n),
{
    let mut digits: Vec<u8> = Vec::new();
    let mut m: u64 = n;
    while m >= 10
        invariant
            dec_bytes(n) == dec_bytes(m) + digits@.reverse(),
        decreases m,
    {
        let ghost pre = digits@;
        digits.push(0x30 + ((m % 10) as u8));
        proof {
            assert(digits@.reverse() =~= seq![dec_digit((m % 10) as u8)] + pre.reverse());
            assert(dec_bytes(m) == dec_bytes(m / 10).push(dec_digit((m % 10) as u8)));
            assert(dec_bytes(m / 10) + digits@.reverse() =~= dec_bytes(m) + pre.reverse());
        }
        m = m / 10;
    }
    let ghost mid = digits@;
    digits.push(0x30 + (m as u8));
    proof {
        assert(dec_bytes(m) =~= seq![dec_digit(m as u8)]);
        assert(digits@.reverse() =~= dec_bytes(m) + mid.reverse());
        assert(digits@.reverse() =~= dec_bytes(n));
    }
    let mut k: usize = digits.len();
    while k > 0
        invariant
            0 <= k <= digits@.len(),
            out@ == old(out)@ + dec_bytes(n).take(digits@.len() - k),
        decreases k,
    {
        k = k - 1;
        out.push(digits[k]);
        proof {
            assert(digits@.reverse()[digits@.len() - 1 - k] == digits@[k as int]);
            assert(out@ =~= old(out)@ + dec_bytes(n).take(digits@.len() - k));
        }
    }
    proof {
        assert(dec_bytes(n).take(digits@.len() as int) =~= dec_bytes(n));
    }
}

/// Writes a string body with its escapes, between quotes.
#[verifier::loop_isolation(false)]
pub fn emit_string(s: &String, out: &mut Vec<u8>)
    ensures
        final(out)@ == old(out)@ + seq![0x22u8] + esc_bytes(vstd::utf8::encode_utf8(s@)) + seq![
            0x22u8,
        ],
{
    out.push(0x22);
    let bytes = s.as_str().as_bytes();
    let ghost all = bytes@;
    let mut i: usize = 0;
    proof {
        assert(esc_prefix(all, 0) =~= Seq::<u8>::empty());
    }
    while i < bytes.len()
        invariant
            0 <= i <= all.len(),
            bytes@ == all,
            all == vstd::utf8::encode_utf8(s@),
            out@ == old(out)@ + seq![0x22u8] + esc_prefix(all, i as int),
        decreases all.len() - i,
    {
        let x = bytes[i];
        if x == 0x22 {
            out.push(0x5C);
            out.push(0x22);
        } else if x == 0x5C {
            out.push(0x5C);
            out.push(0x5C);
        } else if x < 0x20 {
            out.push(0x5C);
            out.push(0x75);
            out.push(0x30);
            out.push(0x30);
            let hi = x / 16;
            let lo = x % 16;
            out.push(if hi < 10 { 0x30 + hi } else { 0x57 + hi });
            out.push(if lo < 10 { 0x30 + lo } else { 0x57 + lo });
        } else {
            out.push(x);
        }
        proof {
            lemma_esc_prefix_step(all, i as int);
            assert(out@ =~= old(out)@ + seq![0x22u8] + esc_prefix(all, i + 1));
        }
        i = i + 1;
    }
    out.push(0x22);
    proof {
        lemma_esc_prefix_all(all);
        assert(out@ =~= old(out)@ + seq![0x22u8] + esc_bytes(all) + seq![0x22u8]);
    }
}

/// The escaped form of the first `i` bytes of a string body.
pub open spec fn esc_prefix(b: Seq<u8>, i: int) -> Seq<u8>
    decreases i,
{
    if i <= 0 {
        Seq::empty()
    } else {
        esc_prefix(b, i - 1) + esc_byte(b[i - 1])
    }
}

/// Escaping one more byte extends the escaped prefix by its escape.
proof fn lemma_esc_prefix_step(b: Seq<u8>, i: int)
    requires
        0 <= i,
    ensures
        esc_prefix(b, i + 1) == esc_prefix(b, i) + esc_byte(b[i]),
{
}

/// The escaped prefix of the whole body is its escaped form.
proof fn lemma_esc_prefix_all(b: Seq<u8>)
    ensures
        esc_prefix(b, b.len() as int) == esc_bytes(b),
    decreases b.len(),
{
    if b.len() == 0 {
        assert(esc_bytes(b) =~= Seq::<u8>::empty());
    } else {
        lemma_esc_prefix_all(b.drop_first());
        lemma_esc_prefix_shift(b, b.len() as int);
        assert(esc_prefix(b, b.len() as int) =~= esc_byte(b.first()) + esc_prefix(
            b.drop_first(),
            b.len() - 1,
        ));
    }
}

/// An escaped prefix splits as the first byte's escape plus the escaped
/// prefix of the rest.
proof fn lemma_esc_prefix_shift(b: Seq<u8>, i: int)
    requires
        1 <= i <= b.len(),
    ensures
        esc_prefix(b, i) == esc_byte(b.first()) + esc_prefix(b.drop_first(), i - 1),
    decreases i,
{
    if i == 1 {
        assert(esc_prefix(b, 0) =~= Seq::<u8>::empty());
        assert(esc_prefix(b.drop_first(), 0) =~= Seq::<u8>::empty());
        assert(esc_prefix(b, 1) =~= esc_byte(b[0]) + esc_prefix(b.drop_first(), 0));
    } else {
        lemma_esc_prefix_shift(b, i - 1);
        assert(b.drop_first()[i - 2] == b[i - 1]);
        assert(esc_prefix(b, i) =~= esc_byte(b.first()) + esc_prefix(b.drop_first(), i - 1));
    }
}

/// Writes the JSON text of a payload value.
#[verifier::loop_isolation(false)]
#[verifier::rlimit(100)]
pub fn emit_val(v: &PayloadValue, out: &mut Vec<u8>)
    ensures
        final(out)@ == old(out)@ + jbytes(view_val(*v)),
    decreases v,
{
    match v {
        PayloadValue::Null => {
            out.push(0x6E);
            out.push(0x75);
            out.push(0x6C);
            out.push(0x6C);
            proof {
                assert(out@ =~= old(out)@ + jbytes(view_val(*v)));
            }
        },
        PayloadValue::Bool(b) => {
            if *b {
                out.push(0x74);
                out.push(0x72);
                out.push(0x75);
                out.push(0x65);
            } else {
                out.push(0x66);
                out.push(0x61);
                out.push(0x6C);
                out.push(0x73);
                out.push(0x65);
            }
            proof {
                assert(out@ =~= old(out)@ + jbytes(view_val(*v)));
            }
        },
        PayloadValue::Uint(n) => {
            emit_dec(*n, out);
        },
        PayloadValue::Num(s) => {
            let bytes = s.as_str().as_bytes();
            let ghost all = bytes@;
            let mut i: usize = 0;
            while i < bytes.len()
                invariant
                    0 <= i <= all.len(),
                    bytes@ == all,
                    all == vstd::utf8::encode_utf8(s@),
                    out@ == old(out)@ + all.take(i as int),
                decreases all.len() - i,
            {
                out.push(bytes[i]);
                proof {
                    assert(out@ =~= old(out)@ + all.take(i + 1));
                }
                i = i + 1;
            }
            proof {
                assert(all.take(all.len() as int) =~= all);
            }
        },
        PayloadValue::Text(s) => {
            emit_string(s, out);
        },
        PayloadValue::List(l) => {
            out.push(0x5B);
            let ghost lv = crate::value::view_val_seq(l@);
            proof {
                crate::value::lemma_view_val_seq(l@);
            }
            let mut i: usize = 0;
            while i < l.len()
                invariant
                    0 <= i <= l@.len(),
                    lv.len() == l@.len(),
                    forall|j: int| 0 <= j < l@.len() ==> #[trigger] lv[j] == view_val(l@[j]),
                    out@ == old(out)@ + seq![0x5Bu8] + jbytes_items(lv.take(i as int)) + (
                    if 0 < i < lv.len() {
                        seq![0x2Cu8]
                    } else {
                        Seq::<u8>::empty()
                    }),
                decreases l@.len() - i,
            {
                proof {
                    broadcast use vstd::std_specs::vec::group_vec_axioms, vstd::seq::axiom_seq_index_decreases;

                    assert(decreases_to!(*l => l@));
                    assert(decreases_to!(l@ => l@[i as int]));
                }
                emit_val(&l[i], out);
                if i + 1 < l.len() {
                    out.push(0x2C);
                }
                proof {
                    lemma_jbytes_items_snoc(lv, i as int);
                    if i + 1 < lv.len() {
                        assert(out@ =~= old(out)@ + seq![0x5Bu8] + jbytes_items(lv.take(i + 1))
                            + seq![0x2Cu8]);
                    } else {
                        assert(out@ =~= old(out)@ + seq![0x5Bu8] + jbytes_items(lv.take(i + 1)));
                    }
                }
                i = i + 1;
            }
            out.push(0x5D);
            proof {
                assert(lv.take(lv.len() as int) =~= lv);
                assert(out@ =~= old(out)@ + jbytes(view_val(*v)));
            }
        },
        PayloadValue::Object(o) => {
            out.push(0x7B);
            let ghost ov = crate::value::view_val_obj(o@);
            proof {
                crate::value::lemma_view_val_obj(o@);
            }
            let mut i: usize = 0;
            while i < o.len()
                invariant
                    0 <= i <= o@.len(),
                    ov.len() == o@.len(),
                    forall|j: int|
                        0 <= j < o@.len() ==> #[trigger] ov[j] == (o@[j].0@, view_val(o@[j].1)),
                    out@ == old(out)@ + seq![0x7Bu8] + jbytes_entries(ov.take(i as int)) + (
                    if 0 < i < ov.len() {
                        seq![0x2Cu8]
                    } else {
                        Seq::<u8>::empty()
                    }),
                decreases o@.len() - i,
            {
                proof {
                    broadcast use vstd::std_specs::vec::group_vec_axioms, vstd::seq::axiom_seq_index_decreases;

                    assert(decreases_to!(*o => o@));
                    assert(decreases_to!(o@ => o@[i as int]));
                    assert(decreases_to!(o@[i as int] => o@[i as int].1));
                }
                emit_string(&o[i].0, out);
                out.push(0x3A);
                emit_val(&o[i].1, out);
                if i + 1 < o.len() {
                    out.push(0x2C);
                }
                proof {
                    lemma_jbytes_entries_snoc(ov, i as int);
                    assert(jbytes_entry(ov[i as int]) =~= seq![0x22u8] + esc_bytes(
                        vstd::utf8::encode_utf8(o@[i as int].0@),
                    ) + seq![0x22u8, 0x3Au8] + jbytes(view_val(o@[i as int].1)));
                    if i + 1 < ov.len() {
                        assert(out@ =~= old(out)@ + seq![0x7Bu8] + jbytes_entries(ov.take(i + 1))
                            + seq![0x2Cu8]);
                    } else {
                        assert(out@ =~= old(out)@ + seq![0x7Bu8] + jbytes_entries(ov.take(i + 1)));
                    }
                }
                i = i + 1;
            }
            out.push(0x7D);
            proof {
                assert(ov.take(ov.len() as int) =~= ov);
                assert(out@ =~= old(out)@ + jbytes(view_val(*v)));
            }
        },
    }
}

/// Extending the emitted items by one value appends a comma where another
/// item already stands, then the value's text.
proof fn lemma_jbytes_items_snoc(l: Seq<ValView>, i: int)
    requires
        0 <= i < l.len(),
    ensures
        i == 0 ==> jbytes_items(l.take(1)) == jbytes(l[0]),
        i > 0 ==> jbytes_items(l.take(i + 1)) == jbytes_items(l.take(i)) + seq![0x2Cu8] + jbytes(
            l[i],
        ),
    decreases i,
{
    if i == 0 {
        assert(l.take(1).len() == 1);
        assert(l.take(1).first() == l[0]);
    } else {
        lemma_jbytes_items_snoc(l.drop_first(), i - 1);
        assert(l.take(i + 1).first() == l[0]);
        assert(l.take(i + 1).drop_first() =~= l.drop_first().take(i));
        assert(l.take(i).first() == l[0]);
        assert(l.take(i).drop_first() =~= l.drop_first().take(i - 1));
        assert(l.drop_first()[i - 1] == l[i]);
        if i == 1 {
            assert(jbytes_items(l.take(2)) == jbytes(l[0]) + seq![0x2Cu8] + jbytes_items(
                l.drop_first().take(1),
            ));
        }
    }
}

/// Extending the emitted entries by one entry appends a comma where
/// another entry already stands, then the entry's text.
proof fn lemma_jbytes_entries_snoc(o: Seq<(Seq<char>, ValView)>, i: int)
    requires
        0 <= i < o.len(),
    ensures
        i == 0 ==> jbytes_entries(o.take(1)) == jbytes_entry(o[0]),
        i > 0 ==> jbytes_entries(o.take(i + 1)) == jbytes_entries(o.take(i)) + seq![0x2Cu8]
            + jbytes_entry(o[i]),
    decreases i,
{
    if i == 0 {
        assert(o.take(1).len() == 1);
        assert(o.take(1).first() == o[0]);
    } else {
        lemma_jbytes_entries_snoc(o.drop_first(), i - 1);
        assert(o.take(i + 1).first() == o[0]);
        assert(o.take(i + 1).drop_first() =~= o.drop_first().take(i));
        assert(o.take(i).first() == o[0]);
        assert(o.take(i).drop_first() =~= o.drop_first().take(i - 1));
        assert(o.drop_first()[i - 1] == o[i]);
        if i == 1 {
            assert(jbytes_entries(o.take(2)) == jbytes_entry(o[0]) + seq![0x2Cu8] + jbytes_entries(
                o.drop_first().take(1),
            ));
        }
    }
}

/// An ASCII decimal digit byte.
pub open spec fn is_digit(x: u8) -> bool {
    0x30 <= x <= 0x39
}

/// The first position at or after `j` that does not hold a digit.
pub open spec fn scan_digits(b: Seq<u8>, j: int) -> int
    decreases b.len() - j, 0int,
    via scan_digits_decreases
{
    if j < 0 || j >= b.len() || !is_digit(b[j]) {
        j
    } else {
        scan_digits(b, j + 1)
    }
}

#[via_fn]
proof fn scan_digits_decreases(b: Seq<u8>, j: int) {
}

/// The value of a digit string, most significant first.
pub open spec fn digits_val(d: Seq<u8>) -> nat
    decreases d.len(),
{
    if d.len() == 0 {
        0
    } else {
        (digits_val(d.drop_last()) * 10 + (d.last() - 0x30)) as nat
    }
}

/// A digit string that is the canonical decimal text of a u64: no
/// leading zero unless it is exactly "0", and within range.
pub open spec fn is_canonical_uint(tok: Seq<u8>) -> bool {
    &&& tok.len() > 0
    &&& forall|i: int| 0 <= i < tok.len() ==> is_digit(#[trigger] tok[i])
    &&& (tok.len() == 1 || tok[0] != 0x30)
    &&& digits_val(tok) <= u64::MAX
}

/// The characters of an ASCII byte string.
pub open spec fn ascii_chars(b: Seq<u8>) -> Seq<char> {
    Seq::new(b.len(), |i: int| b[i] as char)
}

/// Parses a number token: an optional minus, an integer part, an optional
/// fraction and an optional exponent. A canonical u64 becomes `Uint`; any
/// other well formed number is kept lexically as `Num`.
pub open spec fn jp_num(b: Seq<u8>, i: int) -> Option<(ValView, int)> {
    if i < 0 || i >= b.len() {
        Option::None
    } else {
        let p = if b[i] == 0x2D {
            i + 1
        } else {
            i
        };
        if p >= b.len() || !is_digit(b[p]) {
            Option::None
        } else {
            let q = if b[p] == 0x30 {
                p + 1
            } else {
                scan_digits(b, p)
            };
            let r = if q < b.len() && b[q] == 0x2E {
                if q + 1 < b.len() && is_digit(b[q + 1]) {
                    scan_digits(b, q + 1)
                } else {
                    -1
                }
            } else {
                q
            };
            if r < 0 {
                Option::None
            } else {
                let t = if r < b.len() && (b[r] == 0x65 || b[r] == 0x45) {
                    let s0 = if r + 1 < b.len() && (b[r + 1] == 0x2B || b[r + 1] == 0x2D) {
                        r + 2
                    } else {
                        r + 1
                    };
                    if s0 < b.len() && is_digit(b[s0]) {
                        scan_digits(b, s0)
                    } else {
                        -1
                    }
                } else {
                    r
                };
                if t < 0 {
                    Option::None
                } else {
                    let tok = b.subrange(i, t);
                    if is_canonical_uint(tok) {
                        Option::Some((ValView::Uint(digits_val(tok) as u64), t))
                    } else {
                        Option::Some((ValView::Num(ascii_chars(tok)), t))
                    }
                }
            }
        }
    }
}

/// Parses a string body from past the opening quote to past the closing
/// quote, unescaping as it goes. Control bytes must travel escaped;
/// `\uXXXX` escapes outside the surrogate range become UTF-8 bytes.
pub open spec fn jp_strbody(b: Seq<u8>, j: int) -> Option<(Seq<u8>, int)>
    decreases b.len() - j, 0int,
    via jp_strbody_decreases
{
    if j < 0 || j >= b.len() {
        Option::None
    } else if b[j] == 0x22 {
        Option::Some((Seq::empty(), j + 1))
    } else if b[j] == 0x5C {
        if j + 1 >= b.len() {
            Option::None
        } else {
            let e = b[j + 1];
            if e == 0x22 || e == 0x5C || e == 0x2F {
                match jp_strbody(b, j + 2) {
                    Option::Some((bs, k)) => Option::Some((seq![e] + bs, k)),
                    Option::None => Option::None,
                }
            } else if e == 0x62 || e == 0x66 || e == 0x6E || e == 0x72 || e == 0x74 {
                let c: u8 = if e == 0x62 {
                    0x08
                } else if e == 0x66 {
                    0x0C
                } else if e == 0x6E {
                    0x0A
                } else if e == 0x72 {
                    0x0D
                } else {
                    0x09
                };
                match jp_strbody(b, j + 2) {
                    Option::Some((bs, k)) => Option::Some((seq![c] + bs, k)),
                    Option::None => Option::None,
                }
            } else if e == 0x75 {
                if j + 6 > b.len() {
                    Option::None
                } else {
                    match (hex_val(b[j + 2]), hex_val(b[j + 3]), hex_val(b[j + 4]), hex_val(
                        b[j + 5],
                    )) {
                        (
                            Option::Some(h3),
                            Option::Some(h2),
                            Option::Some(h1),
                            Option::Some(h0),
                        ) => {
                            let cp = ((h3 as u32) * 0x1000 + (h2 as u32) * 0x100 + (
                            h1 as u32) * 0x10 + (h0 as u32)) as u32;
                            if 0xD800 <= cp < 0xE000 {
                                Option::None
                            } else {
                                match jp_strbody(b, j + 6) {
                                    Option::Some((bs, k)) => Option::Some(
                                        (vstd::utf8::encode_scalar(cp) + bs, k),
                                    ),
                                    Option::None => Option::None,
                                }
                            }
                        },
                        _ => Option::None,
                    }
                }
            } else {
                Option::None
            }
        }
    } else if b[j] < 0x20 {
        Option::None
    } else {
        match jp_strbody(b, j + 1) {
            Option::Some((bs, k)) => Option::Some((seq![b[j]] + bs, k)),
            Option::None => Option::None,
        }
    }
}

#[via_fn]
proof fn jp_strbody_decreases(b: Seq<u8>, j: int) {
}

/// The value of a hex digit byte, either case.
pub open spec fn hex_val(x: u8) -> Option<u8> {
    if 0x30 <= x <= 0x39 {
        Option::Some((x - 0x30) as u8)
    } else if 0x61 <= x <= 0x66 {
        Option::Some((x - 0x57) as u8)
    } else if 0x41 <= x <= 0x46 {
        Option::Some((x - 0x37) as u8)
    } else {
        Option::None
    }
}

/// Parses one JSON value starting at `i`, returning it with the position
/// past its text. The grammar is whitespace-free.
pub open spec fn jp_val(b: Seq<u8>, i: int) -> Option<(ValView, int)>
    decreases b.len() - i, 3int,
    via jp_val_decreases
{
    if i < 0 || i >= b.len() {
        Option::None
    } else if b[i] == 0x6E {
        if i + 4 <= b.len() && b[i + 1] == 0x75 && b[i + 2] == 0x6C && b[i + 3] == 0x6C {
            Option::Some((ValView::Null, i + 4))
        } else {
            Option::None
        }
    } else if b[i] == 0x74 {
        if i + 4 <= b.len() && b[i + 1] == 0x72 && b[i + 2] == 0x75 && b[i + 3] == 0x65 {
            Option::Some((ValView::Bool(true), i + 4))
        } else {
            Option::None
        }
    } else if b[i] == 0x66 {
        if i + 5 <= b.len() && b[i + 1] == 0x61 && b[i + 2] == 0x6C && b[i + 3] == 0x73 && b[i + 4]
            == 0x65 {
            Option::Some((ValView::Bool(false), i + 5))
        } else {
            Option::None
        }
    } else if b[i] == 0x22 {
        match jp_strbody(b, i + 1) {
            Option::Some((bs, j)) => if vstd::utf8::valid_utf8(bs) {
                Option::Some((ValView::Text(vstd::utf8::decode_utf8(bs)), j))
            } else {
                Option::None
            },
            Option::None => Option::None,
        }
    } else if b[i] == 0x5B {
        if i + 1 < b.len() && b[i + 1] == 0x5D {
            Option::Some((ValView::List(Seq::empty()), i + 2))
        } else {
            match jp_items(b, i + 1) {
                Option::Some((l, j)) => Option::Some((ValView::List(l), j)),
                Option::None => Option::None,
            }
        }
    } else if b[i] == 0x7B {
        if i + 1 < b.len() && b[i + 1] == 0x7D {
            Option::Some((ValView::Object(Seq::empty()), i + 2))
        } else {
            match jp_entries(b, i + 1) {
                Option::Some((o, j)) => Option::Some((ValView::Object(o), j)),
                Option::None => Option::None,
            }
        }
    } else if b[i] == 0x2D || is_digit(b[i]) {
        jp_num(b, i)
    } else {
        Option::None
    }
}

/// Parses the remaining items of a non-empty array: a value, then a comma
/// and more items, or the closing bracket.
pub open spec fn jp_items(b: Seq<u8>, j: int) -> Option<(Seq<ValView>, int)>
    decreases b.len() - j, 4int,
    via jp_items_decreases
{
    match jp_val(b, j) {
        Option::Some((v, j2)) => if j2 < j {
            Option::None
        } else if j2 < b.len() && b[j2] == 0x2C {
            match jp_items(b, j2 + 1) {
                Option::Some((l, j3)) => Option::Some((seq![v] + l, j3)),
                Option::None => Option::None,
            }
        } else if j2 < b.len() && b[j2] == 0x5D {
            Option::Some((seq![v], j2 + 1))
        } else {
            Option::None
        },
        Option::None => Option::None,
    }
}

/// Parses the remaining entries of a non-empty object: a quoted key, a
/// colon, a value, then a comma and more entries, or the closing brace.
pub open spec fn jp_entries(b: Seq<u8>, j: int) -> Option<
    (Seq<(Seq<char>, ValView)>, int),
>
    decreases b.len() - j, 4int,
    via jp_entries_decreases
{
    if j < 0 || j >= b.len() || b[j] != 0x22 {
        Option::None
    } else {
        match jp_strbody(b, j + 1) {
            Option::Some((kb, j2)) => if !vstd::utf8::valid_utf8(kb) || j2 < j || j2 >= b.len()
                || b[j2] != 0x3A {
                Option::None
            } else {
                match jp_val(b, j2 + 1) {
                    Option::Some((v, j3)) => if j3 < j2 {
                        Option::None
                    } else if j3 < b.len() && b[j3] == 0x2C {
                        match jp_entries(b, j3 + 1) {
                            Option::Some((o, j4)) => Option::Some(
                                (seq![(vstd::utf8::decode_utf8(kb), v)] + o, j4),
                            ),
                            Option::None => Option::None,
                        }
                    } else if j3 < b.len() && b[j3] == 0x7D {
                        Option::Some((seq![(vstd::utf8::decode_utf8(kb), v)], j3 + 1))
                    } else {
                        Option::None
                    },
                    Option::None => Option::None,
                }
            },
            Option::None => Option::None,
        }
    }
}

#[via_fn]
proof fn jp_val_decreases(b: Seq<u8>, i: int) {
}

#[via_fn]
proof fn jp_items_decreases(b: Seq<u8>, j: int) {
}

#[via_fn]
proof fn jp_entries_decreases(b: Seq<u8>, j: int) {
}

/// The payload value a whole byte string parses to, if it is exactly one
/// JSON value.
pub open spec fn json_value_of(b: Seq<u8>) -> Option<ValView> {
    match jp_val(b, 0) {
        Option::Some((v, n)) => if n == b.len() {
            Option::Some(v)
        } else {
            Option::None
        },
        Option::None => Option::None,
    }
}

/// A prefix of a digit string never exceeds its value.
proof fn lemma_digits_val_take_le(t: Seq<u8>, m: int)
    requires
        0 <= m <= t.len(),
        forall|x: int| 0 <= x < t.len() ==> is_digit(#[trigger] t[x]),
    ensures
        digits_val(t.take(m)) <= digits_val(t),
    decreases t.len() - m,
{
    if m < t.len() {
        lemma_digits_val_take_le(t, m + 1);
        assert(t.take(m + 1).drop_last() =~= t.take(m));
        assert(digits_val(t.take(m + 1)) == digits_val(t.take(m)) * 10 + (t.take(m + 1).last()
            - 0x30));
    } else {
        assert(t.take(m) =~= t);
    }
}

/// Finds the end of a run of digits.
#[verifier::loop_isolation(false)]
fn p_scan_digits(b: &Vec<u8>, j: usize) -> (r: usize)
    requires
        j <= b@.len(),
    ensures
        r == scan_digits(b@, j as int),
        j <= r <= b@.len(),
{
    let mut cur: usize = j;
    while cur < b.len() && b[cur] >= 0x30 && b[cur] <= 0x39
        invariant
            j <= cur <= b@.len(),
            scan_digits(b@, j as int) == scan_digits(b@, cur as int),
        decreases b@.len() - cur,
    {
        cur = cur + 1;
    }
    cur
}

/// What a digit scan guarantees: everything before the stop is a digit,
/// and the stop is not.
proof fn lemma_scan_digits(b: Seq<u8>, j: int)
    requires
        0 <= j <= b.len(),
    ensures
        j <= scan_digits(b, j) <= b.len(),
        forall|m: int| j <= m < scan_digits(b, j) ==> is_digit(#[trigger] b[m]),
        scan_digits(b, j) < b.len() ==> !is_digit(b[scan_digits(b, j)]),
        j < b.len() && is_digit(b[j]) ==> scan_digits(b, j) > j,
    decreases b.len() - j,
{
    if j < b.len() && is_digit(b[j]) {
        lemma_scan_digits(b, j + 1);
    }
}

/// Parses a number token.
#[verifier::loop_isolation(false)]
#[verifier::rlimit(100)]
fn p_num(b: &Vec<u8>, i: usize) -> (r: Result<(PayloadValue, usize), ()>)
    requires
        i < b@.len(),
        b@[i as int] == 0x2D || is_digit(b@[i as int]),
    ensures
        match r {
            Result::Ok(p) => jp_num(b@, i as int) == Option::Some((view_val(p.0), p.1 as int))
                && i < p.1 <= b@.len(),
            Result::Err(_) => jp_num(b@, i as int) is None,
        },
{
    let n = b.len();
    let p: usize = if b[i] == 0x2D {
        i + 1
    } else {
        i
    };
    if p >= n || !(b[p] >= 0x30 && b[p] <= 0x39) {
        return Result::Err(());
    }
    let q: usize = if b[p] == 0x30 {
        p + 1
    } else {
        p_scan_digits(b, p)
    };
    proof {
        lemma_scan_digits(b@, p as int);
    }
    let r: usize = if q < n && b[q] == 0x2E {
        if q + 1 < n && b[q + 1] >= 0x30 && b[q + 1] <= 0x39 {
            p_scan_digits(b, q + 1)
        } else {
            return Result::Err(());
        }
    } else {
        q
    };
    proof {
        if q < b@.len() && b@[q as int] == 0x2E {
            lemma_scan_digits(b@, q + 1);
        }
    }
    let ghost mut gs0: int = r as int;
    let t: usize = if r < n && (b[r] == 0x65 || b[r] == 0x45) {
        let s0: usize = if r + 1 < n && (b[r + 1] == 0x2B || b[r + 1] == 0x2D) {
            r + 2
        } else {
            r + 1
        };
        proof {
            gs0 = s0 as int;
        }
        if s0 < n && b[s0] >= 0x30 && b[s0] <= 0x39 {
            p_scan_digits(b, s0)
        } else {
            return Result::Err(());
        }
    } else {
        r
    };
    proof {
        if r < b@.len() && (b@[r as int] == 0x65 || b@[r as int] == 0x45) {
            lemma_scan_digits(b@, gs0);
        }
        assert forall|m: int| i <= m < t implies is_digit(#[trigger] b@[m]) || b@[m] == 0x2D
            || b@[m] == 0x2E || b@[m] == 0x65 || b@[m] == 0x45 || b@[m] == 0x2B by {
            if m < p {
            } else if m < q {
                if b@[p as int] == 0x30 {
                } else {
                }
            } else if m == q && q < r {
            } else if m < r {
            } else if m == r && r < t {
            } else if m < gs0 {
            } else {
            }
        }
    }
    let ghost tok = b@.subrange(i as int, t as int);
    let pure_int = p == i && r == q && t == q;
    if pure_int {
        proof {
            assert(forall|m: int| i <= m < t ==> is_digit(#[trigger] b@[m]));
            assert(forall|m: int| 0 <= m < tok.len() ==> is_digit(#[trigger] tok[m]));
            if b@[i as int] == 0x30 {
                assert(t == i + 1);
            }
        }
        let mut acc: u64 = 0;
        let mut k: usize = i;
        let mut overflow = false;
        while k < t
            invariant
                i <= k <= t,
                t <= b@.len(),
                forall|m: int| 0 <= m < tok.len() ==> is_digit(#[trigger] tok[m]),
                tok.len() == t - i,
                forall|m: int| i <= m < t ==> tok[m - i] == b@[m],
                !overflow ==> acc == digits_val(tok.take(k - i)),
                overflow ==> digits_val(tok) > u64::MAX,
            decreases t - k,
        {
            let d: u64 = (b[k] - 0x30) as u64;
            if !overflow {
                if acc > (u64::MAX - d) / 10 {
                    proof {
                        let pre = tok.take(k - i);
                        let nxt = tok.take(k + 1 - i);
                        assert(nxt.drop_last() =~= pre);
                        assert(digits_val(nxt) == digits_val(pre) * 10 + (nxt.last() - 0x30));
                        assert(nxt.last() == tok[k - i]);
                        assert(digits_val(pre) * 10 + d > u64::MAX) by {
                            assert(acc * 10 + d > u64::MAX) by (nonlinear_arith)
                                requires
                                    acc > (u64::MAX - d) / 10,
                                    d <= 9,
                            ;
                        }
                        lemma_digits_val_take_le(tok, k + 1 - i);
                    }
                    overflow = true;
                } else {
                    proof {
                        let pre = tok.take(k - i);
                        let nxt = tok.take(k + 1 - i);
                        assert(nxt.drop_last() =~= pre);
                        assert(nxt.last() == tok[k - i]);
                        assert(acc * 10 + d <= u64::MAX) by (nonlinear_arith)
                            requires
                                acc <= (u64::MAX - d) / 10,
                                d <= 9,
                        ;
                    }
                    acc = acc * 10 + d;
                }
            }
            k = k + 1;
        }
        if overflow {
            proof {
                assert(!is_canonical_uint(tok));
            }
            let text = ascii_string(b, i, t);
            return Result::Ok((PayloadValue::Num(text), t));
        }
        proof {
            assert(tok.take(t - i) =~= tok);
            assert(acc == digits_val(tok));
            if b@[i as int] == 0x30 {
                assert(tok.len() == 1);
            } else {
                assert(tok[0] == b@[i as int]);
                assert(tok[0] != 0x30);
            }
            assert(is_canonical_uint(tok));
        }
        return Result::Ok((PayloadValue::Uint(acc), t));
    }
    proof {
        if p != i {
            assert(tok[0] == 0x2D);
            assert(!is_digit(tok[0]));
        } else if r != q {
            assert(b@[q as int] == 0x2E);
            assert(tok[q - i] == 0x2E);
            assert(!is_digit(tok[q - i]));
        } else {
            assert(b@[r as int] == 0x65 || b@[r as int] == 0x45);
            assert(tok[r - i] == b@[r as int]);
            assert(!is_digit(tok[r - i]));
        }
        assert(!is_canonical_uint(tok));
    }
    let text = ascii_string(b, i, t);
    Result::Ok((PayloadValue::Num(text), t))
}

/// Relies on String::from_utf8: accepts exactly valid UTF-8, decoding the
/// bytes into characters.
#[verifier::external_body]
pub fn string_from_utf8(v: Vec<u8>) -> (r: Option<String>)
    ensures
        match r {
            Option::Some(s) => vstd::utf8::valid_utf8(v@) && s@ == vstd::utf8::decode_utf8(v@),
            Option::None => !vstd::utf8::valid_utf8(v@),
        },
{
    match String::from_utf8(v) {
        Ok(s) => Option::Some(s),
        Err(_) => Option::None,
    }
}

/// Every byte below 0x80 is its own one-byte scalar, so an ASCII byte
/// string decodes pointwise.
proof fn lemma_decode_ascii(b: Seq<u8>)
    requires
        forall|m: int| 0 <= m < b.len() ==> #[trigger] b[m] < 0x80,
    ensures
        vstd::utf8::valid_utf8(b),
        vstd::utf8::decode_utf8(b) == ascii_chars(b),
    decreases b.len(),
{
    if b.len() > 0 {
        let b0 = b[0];
        assert(vstd::utf8::is_leading_byte_width_1(b0)) by (bit_vector)
            requires
                b0 < 0x80,
        ;
        assert(vstd::utf8::length_of_first_scalar(b) == 1);
        assert(vstd::utf8::pop_first_scalar(b) =~= b.drop_first());
        lemma_decode_ascii(b.drop_first());
        assert(vstd::utf8::leading_bits_width_1(b0) == b0 as u32) by (bit_vector)
            requires
                b0 < 0x80,
        ;
        assert(vstd::utf8::decode_first_scalar(b) == b0 as u32);
        assert(vstd::utf8::decode_utf8(b) =~= ascii_chars(b));
    } else {
        assert(vstd::utf8::decode_utf8(b) =~= ascii_chars(b));
    }
}

/// Copies an ASCII byte range out as a string.
#[verifier::loop_isolation(false)]
fn ascii_string(b: &Vec<u8>, i: usize, t: usize) -> (r: String)
    requires
        i <= t <= b@.len(),
        forall|m: int| i <= m < t ==> is_digit(#[trigger] b@[m]) || b@[m] == 0x2D || b@[m] == 0x2E
            || b@[m] == 0x65 || b@[m] == 0x45 || b@[m] == 0x2B,
    ensures
        r@ == ascii_chars(b@.subrange(i as int, t as int)),
{
    let mut out: Vec<u8> = Vec::new();
    let mut k: usize = i;
    while k < t
        invariant
            i <= k <= t,
            out@ =~= b@.subrange(i as int, k as int),
        decreases t - k,
    {
        out.push(b[k]);
        proof {
            assert(out@ =~= b@.subrange(i as int, k + 1));
        }
        k = k + 1;
    }
    proof {
        let tok = b@.subrange(i as int, t as int);
        assert(forall|m: int| 0 <= m < tok.len() ==> #[trigger] tok[m] < 0x80);
        lemma_decode_ascii(tok);
    }
    match string_from_utf8(out) {
        Option::Some(s) => s,
        Option::None => {
            proof {
                assert(false);
            }
            unreached()
        },
    }
}

/// Reads the value of a hex digit byte.
fn p_hexval(x: u8) -> (r: Option<u8>)
    ensures
        r == hex_val(x),
{
    if 0x30 <= x && x <= 0x39 {
        Option::Some(x - 0x30)
    } else if 0x61 <= x && x <= 0x66 {
        Option::Some(x - 0x57)
    } else if 0x41 <= x && x <= 0x46 {
        Option::Some(x - 0x37)
    } else {
        Option::None
    }
}

/// Parses a string body from past the opening quote, unescaping into raw
/// bytes.
#[verifier::loop_isolation(false)]
#[verifier::rlimit(100)]
fn p_strbody(b: &Vec<u8>, j: usize) -> (r: Result<(Vec<u8>, usize), ()>)
    requires
        j <= b@.len(),
    ensures
        match r {
            Result::Ok(p) => jp_strbody(b@, j as int) == Option::Some((p.0@, p.1 as int)) && j
                < p.1 <= b@.len(),
            Result::Err(_) => jp_strbody(b@, j as int) is None,
        },
{
    let n = b.len();
    let mut acc: Vec<u8> = Vec::new();
    let mut cur: usize = j;
    loop
        invariant
            j <= cur <= n,
            n == b@.len(),
            match jp_strbody(b@, cur as int) {
                Option::Some(p) => jp_strbody(b@, j as int) == Option::Some((acc@ + p.0, p.1)),
                Option::None => jp_strbody(b@, j as int) is None,
            },
        decreases n - cur,
    {
        if cur >= n {
            return Result::Err(());
        }
        let x = b[cur];
        if x == 0x22 {
            proof {
                assert(jp_strbody(b@, cur as int) == Option::Some(
                    (Seq::<u8>::empty(), cur + 1int),
                ));
                assert(acc@ + Seq::<u8>::empty() =~= acc@);
            }
            return Result::Ok((acc, cur + 1));
        } else if x == 0x5C {
            if cur + 1 >= n {
                return Result::Err(());
            }
            let e = b[cur + 1];
            if e == 0x22 || e == 0x5C || e == 0x2F {
                let ghost pre = acc@;
                acc.push(e);
                proof {
                    assert forall|bs: Seq<u8>| true implies pre + (seq![e] + bs) =~= acc@ + bs by {}
                }
                cur = cur + 2;
            } else if e == 0x62 || e == 0x66 || e == 0x6E || e == 0x72 || e == 0x74 {
                let c: u8 = if e == 0x62 {
                    0x08
                } else if e == 0x66 {
                    0x0C
                } else if e == 0x6E {
                    0x0A
                } else if e == 0x72 {
                    0x0D
                } else {
                    0x09
                };
                let ghost pre = acc@;
                acc.push(c);
                proof {
                    assert forall|bs: Seq<u8>| true implies pre + (seq![c] + bs) =~= acc@ + bs by {}
                }
                cur = cur + 2;
            } else if e == 0x75 {
                if n - cur < 6 {
                    return Result::Err(());
                }
                let h3 = match p_hexval(b[cur + 2]) {
                    Option::Some(h) => h,
                    Option::None => {
                        return Result::Err(());
                    },
                };
                let h2 = match p_hexval(b[cur + 3]) {
                    Option::Some(h) => h,
                    Option::None => {
                        return Result::Err(());
                    },
                };
                let h1 = match p_hexval(b[cur + 4]) {
                    Option::Some(h) => h,
                    Option::None => {
                        return Result::Err(());
                    },
                };
                let h0 = match p_hexval(b[cur + 5]) {
                    Option::Some(h) => h,
                    Option::None => {
                        return Result::Err(());
                    },
                };
                let cp: u32 = (h3 as u32) * 0x1000 + (h2 as u32) * 0x100 + (h1 as u32) * 0x10 + (
                h0 as u32);
                if 0xD800 <= cp && cp < 0xE000 {
                    return Result::Err(());
                }
                let ghost pre = acc@;
                if cp < 0x80 {
                    acc.push((cp & 0x7F) as u8);
                    proof {
                        assert(vstd::utf8::has_width_1_encoding(cp));
                        assert(vstd::utf8::encode_scalar(cp) =~= seq![
                            vstd::utf8::leading_byte_width_1(cp),
                        ]);
                        assert(acc@ =~= pre + vstd::utf8::encode_scalar(cp));
                    }
                } else if cp < 0x800 {
                    acc.push(0xC0 | ((cp >> 6u32) & 0x1F) as u8);
                    acc.push(0x80 | (cp & 0x3F) as u8);
                    proof {
                        assert(vstd::utf8::has_width_2_encoding(cp));
                        assert(vstd::utf8::encode_scalar(cp) =~= seq![
                            vstd::utf8::leading_byte_width_2(cp),
                            vstd::utf8::last_continuation_byte(cp),
                        ]);
                        assert(acc@ =~= pre + vstd::utf8::encode_scalar(cp));
                    }
                } else {
                    acc.push(0xE0 | ((cp >> 12u32) & 0x0F) as u8);
                    acc.push(0x80 | ((cp >> 6u32) & 0x3F) as u8);
                    acc.push(0x80 | (cp & 0x3F) as u8);
                    proof {
                        assert(!vstd::utf8::has_width_1_encoding(cp));
                        assert(!vstd::utf8::has_width_2_encoding(cp));
                        assert(vstd::utf8::has_width_3_encoding(cp));
                        assert(vstd::utf8::encode_scalar(cp) =~= seq![
                            vstd::utf8::leading_byte_width_3(cp),
                            vstd::utf8::second_last_continuation_byte(cp),
                            vstd::utf8::last_continuation_byte(cp),
                        ]);
                        assert(acc@ =~= pre + vstd::utf8::encode_scalar(cp));
                    }
                }
                proof {
                    assert forall|bs: Seq<u8>| true implies pre + (vstd::utf8::encode_scalar(cp)
                        + bs) =~= acc@ + bs by {}
                }
                cur = cur + 6;
            } else {
                return Result::Err(());
            }
        } else if x < 0x20 {
            return Result::Err(());
        } else {
            let ghost pre = acc@;
            acc.push(x);
            proof {
                assert forall|bs: Seq<u8>| true implies pre + (seq![x] + bs) =~= acc@ + bs by {}
            }
            cur = cur + 1;
        }
    }
}

/// Appending a parsed element extends the model of the collected values.
pub proof fn lemma_view_val_seq_push_pub(l: Seq<PayloadValue>, v: PayloadValue)
    ensures
        crate::value::view_val_seq(l.push(v)) == crate::value::view_val_seq(l) + seq![
            view_val(v),
        ],
{
    crate::value::lemma_view_val_seq(l.push(v));
    crate::value::lemma_view_val_seq(l);
    assert(crate::value::view_val_seq(l.push(v)) =~= crate::value::view_val_seq(l) + seq![
        view_val(v),
    ]);
}

/// Appending a parsed entry extends the model of the collected entries.
pub proof fn lemma_view_val_obj_push_pub(o: Seq<(String, PayloadValue)>, k: String, v: PayloadValue)
    ensures
        crate::value::view_val_obj(o.push((k, v))) == crate::value::view_val_obj(o) + seq![
            (k@, view_val(v)),
        ],
{
    crate::value::lemma_view_val_obj(o.push((k, v)));
    crate::value::lemma_view_val_obj(o);
    assert(crate::value::view_val_obj(o.push((k, v))) =~= crate::value::view_val_obj(o) + seq![
        (k@, view_val(v)),
    ]);
}

/// Parses one JSON value starting at `i`.
#[verifier::loop_isolation(false)]
#[verifier::rlimit(100)]
pub fn p_val(b: &Vec<u8>, i: usize) -> (r: Result<(PayloadValue, usize), ()>)
    requires
        i <= b@.len(),
    ensures
        match r {
            Result::Ok(p) => jp_val(b@, i as int) == Option::Some((view_val(p.0), p.1 as int))
                && i < p.1 <= b@.len(),
            Result::Err(_) => jp_val(b@, i as int) is None,
        },
    decreases b@.len() - i,
{
    let n = b.len();
    if i >= n {
        return Result::Err(());
    }
    let c = b[i];
    if c == 0x6E {
        if n - i >= 4 && b[i + 1] == 0x75 && b[i + 2] == 0x6C && b[i + 3] == 0x6C {
            Result::Ok((PayloadValue::Null, i + 4))
        } else {
            Result::Err(())
        }
    } else if c == 0x74 {
        if n - i >= 4 && b[i + 1] == 0x72 && b[i + 2] == 0x75 && b[i + 3] == 0x65 {
            Result::Ok((PayloadValue::Bool(true), i + 4))
        } else {
            Result::Err(())
        }
    } else if c == 0x66 {
        if n - i >= 5 && b[i + 1] == 0x61 && b[i + 2] == 0x6C && b[i + 3] == 0x73 && b[i + 4]
            == 0x65 {
            Result::Ok((PayloadValue::Bool(false), i + 5))
        } else {
            Result::Err(())
        }
    } else if c == 0x22 {
        match p_strbody(b, i + 1) {
            Result::Ok((bs, k)) => {
                match string_from_utf8(bs) {
                    Option::Some(s) => Result::Ok((PayloadValue::Text(s), k)),
                    Option::None => Result::Err(()),
                }
            },
            Result::Err(_) => Result::Err(()),
        }
    } else if c == 0x5B {
        if i + 1 < n && b[i + 1] == 0x5D {
            let out: Vec<PayloadValue> = Vec::new();
            proof {
                assert(view_val(PayloadValue::List(out)) == ValView::List(Seq::empty()));
            }
            return Result::Ok((PayloadValue::List(out), i + 2));
        }
        let mut out: Vec<PayloadValue> = Vec::new();
        let mut cur: usize = i + 1;
        loop
            invariant
                i + 1 <= cur <= n,
                n == b@.len(),
                i < n,
                b@[i as int] == 0x5B,
                !(i + 1 < n && b@[i + 1] == 0x5D),
                match jp_items(b@, cur as int) {
                    Option::Some(p) => jp_items(b@, i + 1) == Option::Some(
                        (crate::value::view_val_seq(out@) + p.0, p.1),
                    ),
                    Option::None => jp_items(b@, i + 1) is None,
                },
            decreases n - cur,
        {
            match p_val(b, cur) {
                Result::Err(_) => {
                    return Result::Err(());
                },
                Result::Ok((v, j2)) => {
                    let ghost preout = out@;
                    out.push(v);
                    proof {
                        lemma_view_val_seq_push_pub(preout, v);
                    }
                    if j2 < n && b[j2] == 0x2C {
                        proof {
                            assert forall|p0: Seq<ValView>, p1: int|
                                jp_items(b@, j2 + 1) == Option::Some((p0, p1)) implies jp_items(
                                b@,
                                cur as int,
                            ) == Option::Some((seq![view_val(v)] + p0, p1)) by {}
                            assert forall|p0: Seq<ValView>|
                                true implies crate::value::view_val_seq(preout) + (seq![
                                view_val(v),
                            ] + p0) =~= crate::value::view_val_seq(out@) + p0 by {}
                        }
                        cur = j2 + 1;
                    } else if j2 < n && b[j2] == 0x5D {
                        proof {
                            assert(jp_items(b@, cur as int) == Option::Some(
                                (seq![view_val(v)], j2 + 1int),
                            ));
                            assert(crate::value::view_val_seq(preout) + seq![view_val(v)]
                                =~= crate::value::view_val_seq(out@));
                            assert(jp_items(b@, i + 1) == Option::Some(
                                (crate::value::view_val_seq(out@), j2 + 1int),
                            ));
                        }
                        return Result::Ok((PayloadValue::List(out), j2 + 1));
                    } else {
                        return Result::Err(());
                    }
                },
            }
        }
    } else if c == 0x7B {
        if i + 1 < n && b[i + 1] == 0x7D {
            let out: Vec<(String, PayloadValue)> = Vec::new();
            proof {
                assert(view_val(PayloadValue::Object(out)) == ValView::Object(Seq::empty()));
            }
            return Result::Ok((PayloadValue::Object(out), i + 2));
        }
        let mut out: Vec<(String, PayloadValue)> = Vec::new();
        let mut cur: usize = i + 1;
        loop
            invariant
                i + 1 <= cur <= n,
                n == b@.len(),
                i < n,
                b@[i as int] == 0x7B,
                !(i + 1 < n && b@[i + 1] == 0x7D),
                match jp_entries(b@, cur as int) {
                    Option::Some(p) => jp_entries(b@, i + 1) == Option::Some(
                        (crate::value::view_val_obj(out@) + p.0, p.1),
                    ),
                    Option::None => jp_entries(b@, i + 1) is None,
                },
            decreases n - cur,
        {
            if cur >= n || b[cur] != 0x22 {
                return Result::Err(());
            }
            let (kb, j2) = match p_strbody(b, cur + 1) {
                Result::Ok(p) => p,
                Result::Err(_) => {
                    return Result::Err(());
                },
            };
            let key = match string_from_utf8(kb) {
                Option::Some(s) => s,
                Option::None => {
                    return Result::Err(());
                },
            };
            if j2 >= n || b[j2] != 0x3A {
                return Result::Err(());
            }
            match p_val(b, j2 + 1) {
                Result::Err(_) => {
                    return Result::Err(());
                },
                Result::Ok((v, j3)) => {
                    let ghost preout = out@;
                    let ghost gkey = key@;
                    out.push((key, v));
                    proof {
                        lemma_view_val_obj_push_pub(preout, out@.last().0, v);
                    }
                    if j3 < n && b[j3] == 0x2C {
                        proof {
                            assert forall|p0: Seq<(Seq<char>, ValView)>|
                                true implies crate::value::view_val_obj(preout) + (seq![
                                (gkey, view_val(v)),
                            ] + p0) =~= crate::value::view_val_obj(out@) + p0 by {}
                        }
                        cur = j3 + 1;
                    } else if j3 < n && b[j3] == 0x7D {
                        proof {
                            assert(jp_entries(b@, cur as int) == Option::Some(
                                (seq![(gkey, view_val(v))], j3 + 1int),
                            ));
                            assert(crate::value::view_val_obj(preout) + seq![(gkey, view_val(v))]
                                =~= crate::value::view_val_obj(out@));
                            assert(jp_entries(b@, i + 1) == Option::Some(
                                (crate::value::view_val_obj(out@), j3 + 1int),
                            ));
                        }
                        return Result::Ok((PayloadValue::Object(out), j3 + 1));
                    } else {
                        return Result::Err(());
                    }
                },
            }
        }
    } else if c == 0x2D || (0x30 <= c && c <= 0x39) {
        p_num(b, i)
    } else {
        Result::Err(())
    }
}

/// Parses a whole byte string as exactly one JSON value.
pub fn json_parse(b: &Vec<u8>) -> (r: Option<PayloadValue>)
    ensures
        match r {
            Option::Some(v) => json_value_of(b@) == Option::Some(view_val(v)),
            Option::None => json_value_of(b@) is None,
        },
{
    match p_val(b, 0) {
        Result::Ok((v, j)) => {
            if j == b.len() {
                Option::Some(v)
            } else {
                Option::None
            }
        },
        Result::Err(_) => Option::None,
    }
}

/// Emits a payload value as a whole JSON byte string.
pub fn json_emit(v: &PayloadValue) -> (r: Vec<u8>)
    ensures
        r@ == jbytes(view_val(*v)),
{
    let mut out: Vec<u8> = Vec::new();
    emit_val(v, &mut out);
    proof {
        assert(out@ =~= jbytes(view_val(*v)));
    }
    out
}

/// A value the emitter and parser agree on byte for byte: every number is
/// a plain integer. Lexically carried numbers are excluded, since the
/// parser may classify an equal spelling differently.
pub open spec fn val_simple(v: ValView) -> bool
    decreases v, 1int,
    via val_simple_decreases
{
    match v {
        ValView::Num(_) => false,
        ValView::List(l) => val_seq_simple(l),
        ValView::Object(o) => val_obj_simple(o),
        _ => true,
    }
}

/// Every element is simple.
pub open spec fn val_seq_simple(l: Seq<ValView>) -> bool
    decreases l, 0int,
    via val_seq_simple_decreases
{
    if l.len() == 0 {
        true
    } else {
        val_simple(l.first()) && val_seq_simple(l.drop_first())
    }
}

/// Every entry value is simple.
pub open spec fn val_obj_simple(o: Seq<(Seq<char>, ValView)>) -> bool
    decreases o, 0int,
    via val_obj_simple_decreases
{
    if o.len() == 0 {
        true
    } else {
        val_simple(o.first().1) && val_obj_simple(o.drop_first())
    }
}

#[via_fn]
proof fn val_simple_decreases(v: ValView) {
    match v {
        ValView::List(l) => {
            assert(decreases_to!(v => l));
        },
        ValView::Object(o) => {
            assert(decreases_to!(v => o));
        },
        _ => {},
    }
}

#[via_fn]
proof fn val_seq_simple_decreases(l: Seq<ValView>) {
    broadcast use vstd::seq::axiom_seq_index_decreases;

    if l.len() > 0 {
        assert(decreases_to!(l => l[0]));
        assert(decreases_to!(l => l.subrange(1, l.len() as int)));
    }
}

#[via_fn]
proof fn val_obj_simple_decreases(o: Seq<(Seq<char>, ValView)>) {
    broadcast use vstd::seq::axiom_seq_index_decreases;

    if o.len() > 0 {
        assert(decreases_to!(o => o[0]));
        assert(decreases_to!(o[0] => o[0].1));
        assert(decreases_to!(o => o.subrange(1, o.len() as int)));
    }
}

/// A byte that may legally follow a value inside a tuple: a separator or
/// a closing bracket.
pub open spec fn is_delim(x: u8) -> bool {
    x == 0x2C || x == 0x5D || x == 0x7D
}

/// Decimal text is made of digits, led by a digit that is zero only for
/// zero itself, and reads back as its value.
proof fn lemma_dec_bytes_char(n: u64)
    ensures
        dec_bytes(n).len() >= 1,
        forall|i: int| 0 <= i < dec_bytes(n).len() ==> is_digit(#[trigger] dec_bytes(n)[i]),
        n >= 1 ==> dec_bytes(n)[0] != 0x30,
        n == 0 ==> dec_bytes(n) == seq![0x30u8],
        digits_val(dec_bytes(n)) == n,
    decreases n,
{
    if n < 10 {
        assert(dec_bytes(n) =~= seq![dec_digit(n as u8)]);
        assert(seq![dec_digit(n as u8)].drop_last() =~= Seq::<u8>::empty());
        assert(digits_val(seq![dec_digit(n as u8)]) == (digits_val(Seq::<u8>::empty()) * 10 + (
        dec_digit(n as u8) - 0x30)) as nat);
    } else {
        lemma_dec_bytes_char(n / 10);
        let d = dec_bytes(n);
        assert(d == dec_bytes(n / 10).push(dec_digit((n % 10) as u8)));
        assert(d.drop_last() =~= dec_bytes(n / 10));
        assert(d[0] == dec_bytes(n / 10)[0]);
        assert(digits_val(d) == (digits_val(dec_bytes(n / 10)) * 10 + (d.last() - 0x30)) as nat);
    }
}

/// A run of digits bounded by a non-digit scans to exactly its end.
proof fn lemma_scan_digits_run(b: Seq<u8>, j: int, m: int)
    requires
        0 <= j <= m <= b.len(),
        forall|x: int| j <= x < m ==> is_digit(#[trigger] b[x]),
        m == b.len() || !is_digit(b[m]),
    ensures
        scan_digits(b, j) == m,
    decreases m - j,
{
    if j < m {
        lemma_scan_digits_run(b, j + 1, m);
    }
}

/// The hex digit of a nibble reads back as the nibble.
proof fn lemma_hex_digit_val(n: u8)
    requires
        n < 16,
    ensures
        hex_val(hex_digit(n)) == Option::Some(n),
{
}

/// No wire value is simple and empty on the wire, and none starts with a
/// delimiter or a colon.
proof fn lemma_jbytes_head(v: ValView)
    requires
        val_simple(v),
    ensures
        jbytes(v).len() >= 1,
        !is_delim(jbytes(v)[0]),
        jbytes(v)[0] != 0x3A,
{
    match v {
        ValView::Uint(n) => {
            lemma_dec_bytes_char(n);
        },
        _ => {},
    }
}

/// Protocol values carry no lexical numbers: their wire form is simple.
pub proof fn lemma_wire_of_arg_simple(a: ArgView)
    ensures
        val_simple(wire_of_arg(a)),
    decreases a, 1int,
{
    match a {
        ArgView::Dict(d) => {
            lemma_wire_of_dict_simple(d);
        },
        ArgView::List(l) => {
            lemma_wire_of_arg_seq_simple(l);
        },
        _ => {},
    }
}

/// Every element of an encoded protocol list is simple.
pub proof fn lemma_wire_of_arg_seq_simple(l: Seq<ArgView>)
    ensures
        val_seq_simple(wire_of_arg_seq(l)),
    decreases l, 0int,
{
    if l.len() > 0 {
        lemma_wire_of_arg_simple(l.first());
        lemma_wire_of_arg_seq_simple(l.drop_first());
        let w = wire_of_arg_seq(l);
        assert(w.first() == wire_of_arg(l.first()));
        assert(w.drop_first() =~= wire_of_arg_seq(l.drop_first()));
    }
}

/// Every entry value of an encoded protocol dictionary is simple.
pub proof fn lemma_wire_of_dict_simple(d: Seq<(Seq<char>, ArgView)>)
    ensures
        val_obj_simple(wire_of_dict(d)),
    decreases d, 0int,
{
    if d.len() > 0 {
        lemma_wire_of_arg_simple(d.first().1);
        lemma_wire_of_dict_simple(d.drop_first());
        let w = wire_of_dict(d);
        assert(w.first() == (d.first().0, wire_of_arg(d.first().1)));
        assert(w.drop_first() =~= wire_of_dict(d.drop_first()));
    }
}

/// Parsing an escaped string body gives the body back: the bytes from `i`
/// hold the escaped form followed by the closing quote.
proof fn lemma_strbody_roundtrip(b: Seq<u8>, i: int, body: Seq<u8>)
    requires
        0 <= i,
        i + esc_bytes(body).len() + 1 <= b.len(),
        b.subrange(i, i + esc_bytes(body).len()) == esc_bytes(body),
        b[i + esc_bytes(body).len()] == 0x22,
    ensures
        jp_strbody(b, i) == Option::Some((body, i + esc_bytes(body).len() + 1)),
    decreases body.len(),
{
    let k = esc_bytes(body).len() as int;
    if body.len() == 0 {
        assert(esc_bytes(body) =~= Seq::<u8>::empty());
        assert(b[i] == 0x22);
    } else {
        let x = body.first();
        let e = esc_byte(x);
        let rest = esc_bytes(body.drop_first());
        assert(esc_bytes(body) == e + rest);
        let d = e.len() as int;
        assert forall|m: int| 0 <= m < d implies b[i + m] == e[m] by {
            assert(b.subrange(i, i + k)[m] == b[i + m]);
            assert((e + rest)[m] == e[m]);
        }
        assert(b.subrange(i + d, i + d + rest.len()) =~= rest) by {
            assert forall|m: int| 0 <= m < rest.len() implies b.subrange(
                i + d,
                i + d + rest.len(),
            )[m] == rest[m] by {
                assert(b.subrange(i + d, i + d + rest.len())[m] == b[i + d + m]);
                assert(b.subrange(i, i + k)[d + m] == b[i + d + m]);
                assert((e + rest)[d + m] == rest[m]);
            }
        }
        lemma_strbody_roundtrip(b, i + d, body.drop_first());
        if x == 0x22 {
            assert(b[i] == 0x5C && b[i + 1] == 0x22);
            assert(seq![x] + body.drop_first() =~= body);
        } else if x == 0x5C {
            assert(b[i] == 0x5C && b[i + 1] == 0x5C);
            assert(seq![x] + body.drop_first() =~= body);
        } else if x < 0x20 {
            assert(b[i] == 0x5C && b[i + 1] == 0x75 && b[i + 2] == 0x30 && b[i + 3] == 0x30);
            assert(b[i + 4] == hex_digit(x / 16) && b[i + 5] == hex_digit(x % 16));
            lemma_hex_digit_val(x / 16);
            lemma_hex_digit_val(x % 16);
            let cp: u32 = ((0u32 as u32) * 0x1000 + (0u32 as u32) * 0x100 + ((x / 16) as u32)
                * 0x10 + ((x % 16) as u32)) as u32;
            assert(cp == x as u32);
            assert(vstd::utf8::has_width_1_encoding(cp));
            assert(vstd::utf8::encode_scalar(cp) =~= seq![(cp & 0x7F) as u8]);
            assert((cp & 0x7F) as u8 == x) by (bit_vector)
                requires
                    cp == x as u32,
                    x < 0x20,
            ;
            assert(vstd::utf8::encode_scalar(cp) + body.drop_first() =~= body);
        } else {
            assert(e =~= seq![x]);
            assert(b[i + 0] == e[0]);
            assert(b[i] == x);
            assert(b[i] != 0x22 && b[i] != 0x5C && !(b[i] < 0x20));
            assert(seq![x] + body.drop_first() =~= body);
        }
    }
}

/// Parsing canonical decimal text followed by a delimiter gives the
/// integer back.
proof fn lemma_num_roundtrip(b: Seq<u8>, i: int, n: u64)
    requires
        0 <= i,
        i + dec_bytes(n).len() <= b.len(),
        b.subrange(i, i + dec_bytes(n).len()) == dec_bytes(n),
        i + dec_bytes(n).len() == b.len() || is_delim(b[i + dec_bytes(n).len()]),
    ensures
        jp_num(b, i) == Option::Some((ValView::Uint(n), i + dec_bytes(n).len())),
{
    lemma_dec_bytes_char(n);
    let d = dec_bytes(n);
    let k = d.len() as int;
    let t = i + k;
    assert forall|m: int| i <= m < t implies is_digit(#[trigger] b[m]) && b[m] == d[m - i] by {
        assert(b.subrange(i, i + k)[m - i] == b[m]);
    }
    assert(is_digit(b[i]));
    assert(b[i] != 0x2D);
    lemma_scan_digits_run(b, i, t);
    if b[i] == 0x30 {
        assert(d[0] == 0x30);
        assert(n == 0) by {
            if n >= 1 {
                assert(d[0] != 0x30);
            }
        }
        assert(k == 1);
    } else {
        assert(scan_digits(b, i) == t);
    }
    let q = if b[i] == 0x30 {
        i + 1
    } else {
        scan_digits(b, i)
    };
    assert(q == t);
    assert(t == b.len() || (b[t] != 0x2E && b[t] != 0x65 && b[t] != 0x45));
    let tok = b.subrange(i, t);
    assert(tok =~= d);
    assert(is_canonical_uint(tok)) by {
        assert(digits_val(tok) == n);
        if tok.len() > 1 {
            assert(tok[0] != 0x30);
        }
    }
    assert(digits_val(tok) as u64 == n);
}

/// Parsing the emitted text of a simple value, up to a delimiter or the
/// end of input, gives the value back.
#[verifier::rlimit(100)]
proof fn lemma_val_roundtrip(b: Seq<u8>, i: int, v: ValView)
    requires
        val_simple(v),
        0 <= i,
        i + jbytes(v).len() <= b.len(),
        b.subrange(i, i + jbytes(v).len()) == jbytes(v),
        i + jbytes(v).len() == b.len() || is_delim(b[i + jbytes(v).len()]),
    ensures
        jp_val(b, i) == Option::Some((v, i + jbytes(v).len())),
    decreases v, 1int,
{
    let j = jbytes(v);
    let k = j.len() as int;
    assert forall|m: int| 0 <= m < k implies b[i + m] == j[m] by {
        assert(b.subrange(i, i + k)[m] == b[i + m]);
    }
    lemma_jbytes_head(v);
    match v {
        ValView::Null => {
            assert(j =~= seq![0x6Eu8, 0x75u8, 0x6Cu8, 0x6Cu8]);
            assert(b[i + 0] == j[0] && b[i + 1] == j[1] && b[i + 2] == j[2] && b[i + 3] == j[3]);
            assert(b[i] == 0x6E && b[i + 1] == 0x75 && b[i + 2] == 0x6C && b[i + 3] == 0x6C);
            assert(jp_val(b, i) == Option::Some((v, i + jbytes(v).len())));
        },
        ValView::Bool(t) => {
            if t {
                assert(j =~= seq![0x74u8, 0x72u8, 0x75u8, 0x65u8]);
                assert(b[i + 0] == j[0] && b[i + 1] == j[1] && b[i + 2] == j[2] && b[i + 3]
                    == j[3]);
                assert(b[i] == 0x74 && b[i + 1] == 0x72 && b[i + 2] == 0x75 && b[i + 3] == 0x65);
                assert(jp_val(b, i) == Option::Some((v, i + jbytes(v).len())));
            } else {
                assert(j =~= seq![0x66u8, 0x61u8, 0x6Cu8, 0x73u8, 0x65u8]);
                assert(b[i + 0] == j[0] && b[i + 1] == j[1] && b[i + 2] == j[2] && b[i + 3] == j[3]
                    && b[i + 4] == j[4]);
                assert(b[i] == 0x66 && b[i + 1] == 0x61 && b[i + 2] == 0x6C && b[i + 3] == 0x73
                    && b[i + 4] == 0x65);
                assert(jp_val(b, i) == Option::Some((v, i + jbytes(v).len())));
            }
        },
        ValView::Uint(n) => {
            lemma_dec_bytes_char(n);
            assert(b.subrange(i, i + dec_bytes(n).len()) =~= dec_bytes(n));
            lemma_num_roundtrip(b, i, n);
            assert(b[i + 0] == j[0]);
            assert(is_digit(b[i]));
            assert(b[i] != 0x6E && b[i] != 0x74 && b[i] != 0x66 && b[i] != 0x22 && b[i] != 0x5B
                && b[i] != 0x7B);
            assert(jp_val(b, i) == Option::Some((v, i + jbytes(v).len())));
        },
        ValView::Num(_) => {
            assert(false);
        },
        ValView::Text(s) => {
            let body = vstd::utf8::encode_utf8(s);
            let e = esc_bytes(body);
            assert(b[i + 0] == j[0]);
            assert(b[i] == 0x22);
            assert(b.subrange(i + 1, i + 1 + e.len()) =~= e) by {
                assert forall|m: int| 0 <= m < e.len() implies b.subrange(
                    i + 1,
                    i + 1 + e.len(),
                )[m] == e[m] by {
                    assert(b.subrange(i + 1, i + 1 + e.len())[m] == b[i + 1 + m]);
                    assert(j[1 + m] == (seq![0x22u8] + e + seq![0x22u8])[1 + m]);
                }
            }
            assert(b[i + 1 + e.len()] == 0x22) by {
                assert(j[k - 1] == (seq![0x22u8] + e + seq![0x22u8])[k - 1]);
            }
            lemma_strbody_roundtrip(b, i + 1, body);
            vstd::utf8::encode_utf8_valid_utf8(s);
            vstd::utf8::encode_utf8_decode_utf8(s);
            assert(k == 2 + e.len());
            assert(jp_val(b, i) == Option::Some((v, i + jbytes(v).len())));
        },
        ValView::List(l) => {
            assert(b[i + 0] == j[0]);
            assert(b[i] == 0x5B);
            assert(b[i + k - 1] == 0x5D) by {
                assert(j[k - 1] == (seq![0x5Bu8] + jbytes_items(l) + seq![0x5Du8])[k - 1]);
            }
            if l.len() == 0 {
                assert(jbytes_items(l) =~= Seq::<u8>::empty());
                assert(j =~= seq![0x5Bu8, 0x5Du8]);
                assert(k == 2);
                assert(b[i + 1] == j[1]);
                assert(b[i + 1] == 0x5D);
                assert(l =~= Seq::<ValView>::empty());
                assert(jp_val(b, i) == Option::Some((v, i + jbytes(v).len())));
            } else {
                let items = jbytes_items(l);
                assert(b.subrange(i + 1, i + 1 + items.len()) =~= items) by {
                    assert forall|m: int| 0 <= m < items.len() implies b.subrange(
                        i + 1,
                        i + 1 + items.len(),
                    )[m] == items[m] by {
                        assert(b.subrange(i + 1, i + 1 + items.len())[m] == b[i + 1 + m]);
                        assert(j[1 + m] == (seq![0x5Bu8] + items + seq![0x5Du8])[1 + m]);
                    }
                }
                assert(val_simple(l.first()));
                lemma_jbytes_head(l.first());
                assert(items[0] == jbytes(l.first())[0]) by {
                    if l.len() == 1 {
                    } else {
                        assert(items == jbytes(l.first()) + seq![0x2Cu8] + jbytes_items(
                            l.drop_first(),
                        ));
                    }
                }
                assert(b[i + 1] == items[0]);
                assert(b[i + 1] != 0x5D);
                assert(decreases_to!(v => l));
                lemma_items_roundtrip(b, i + 1, l);
                assert(jp_items(b, i + 1) == Option::Some((l, i + 1 + jbytes_items(l).len() + 1)));
                assert(k == 2 + jbytes_items(l).len());
                assert(jp_val(b, i) == Option::Some((v, i + jbytes(v).len())));
            }
        },
        ValView::Object(o) => {
            assert(b[i + 0] == j[0]);
            assert(b[i] == 0x7B);
            if o.len() == 0 {
                assert(jbytes_entries(o) =~= Seq::<u8>::empty());
                assert(j =~= seq![0x7Bu8, 0x7Du8]);
                assert(k == 2);
                assert(b[i + 1] == j[1]);
                assert(b[i + 1] == 0x7D);
                assert(o =~= Seq::<(Seq<char>, ValView)>::empty());
                assert(jp_val(b, i) == Option::Some((v, i + jbytes(v).len())));
            } else {
                let entries = jbytes_entries(o);
                assert(b.subrange(i + 1, i + 1 + entries.len()) =~= entries) by {
                    assert forall|m: int| 0 <= m < entries.len() implies b.subrange(
                        i + 1,
                        i + 1 + entries.len(),
                    )[m] == entries[m] by {
                        assert(b.subrange(i + 1, i + 1 + entries.len())[m] == b[i + 1 + m]);
                        assert(j[1 + m] == (seq![0x7Bu8] + entries + seq![0x7Du8])[1 + m]);
                    }
                }
                assert(b[i + 1 + entries.len()] == 0x7D) by {
                    assert(j[k - 1] == (seq![0x7Bu8] + entries + seq![0x7Du8])[k - 1]);
                }
                assert(jbytes_entry(o.first()).len() >= 1) by {
                    assert(jbytes_entry(o.first()) == seq![0x22u8] + esc_bytes(
                        vstd::utf8::encode_utf8(o.first().0),
                    ) + seq![0x22u8, 0x3Au8] + jbytes(o.first().1));
                }
                assert(entries.len() >= 1 && entries[0] == 0x22) by {
                    if o.len() == 1 {
                        assert(entries == jbytes_entry(o.first()));
                    } else {
                        assert(entries == jbytes_entry(o.first()) + seq![0x2Cu8] + jbytes_entries(
                            o.drop_first(),
                        ));
                    }
                    assert(jbytes_entry(o.first())[0] == 0x22);
                }
                assert(b[i + 1] == entries[0]);
                assert(b[i + 1] != 0x7D);
                assert(decreases_to!(v => o));
                lemma_entries_roundtrip(b, i + 1, o);
                assert(jp_entries(b, i + 1) == Option::Some(
                    (o, i + 1 + jbytes_entries(o).len() + 1),
                ));
                assert(k == 2 + jbytes_entries(o).len());
                assert(jp_val(b, i) == Option::Some((v, i + jbytes(v).len())));
            }
        },
    }
}

/// Parsing the emitted items of a non-empty array, closed by a bracket,
/// gives the items back.
#[verifier::rlimit(100)]
proof fn lemma_items_roundtrip(b: Seq<u8>, j0: int, l: Seq<ValView>)
    requires
        l.len() >= 1,
        val_seq_simple(l),
        0 <= j0,
        j0 + jbytes_items(l).len() + 1 <= b.len(),
        b.subrange(j0, j0 + jbytes_items(l).len()) == jbytes_items(l),
        b[j0 + jbytes_items(l).len()] == 0x5D,
    ensures
        jp_items(b, j0) == Option::Some((l, j0 + jbytes_items(l).len() + 1)),
    decreases l, 0int,
{
    let items = jbytes_items(l);
    let k = items.len() as int;
    assert forall|m: int| 0 <= m < k implies b[j0 + m] == items[m] by {
        assert(b.subrange(j0, j0 + k)[m] == b[j0 + m]);
    }
    let v0 = l.first();
    assert(val_simple(v0));
    let k0 = jbytes(v0).len() as int;
    if l.len() == 1 {
        assert(items == jbytes(v0));
        assert(b.subrange(j0, j0 + k0) =~= jbytes(v0));
        broadcast use vstd::seq::axiom_seq_index_decreases;

        assert(decreases_to!(l => l[0]));
        lemma_val_roundtrip(b, j0, v0);
        assert(b[j0 + k0] == 0x5D);
        assert(seq![v0] =~= l);
    } else {
        let rest = jbytes_items(l.drop_first());
        assert(items == jbytes(v0) + seq![0x2Cu8] + rest);
        assert(b.subrange(j0, j0 + k0) =~= jbytes(v0)) by {
            assert forall|m: int| 0 <= m < k0 implies b.subrange(j0, j0 + k0)[m] == jbytes(
                v0,
            )[m] by {
                assert(b.subrange(j0, j0 + k0)[m] == b[j0 + m]);
                assert(items[m] == (jbytes(v0) + seq![0x2Cu8] + rest)[m]);
            }
        }
        assert(b[j0 + k0] == items[k0]);
        assert(items[k0] == 0x2C);
        broadcast use vstd::seq::axiom_seq_index_decreases;

        assert(decreases_to!(l => l[0]));
        lemma_val_roundtrip(b, j0, v0);
        assert(b.subrange(j0 + k0 + 1, j0 + k0 + 1 + rest.len()) =~= rest) by {
            assert forall|m: int| 0 <= m < rest.len() implies b.subrange(
                j0 + k0 + 1,
                j0 + k0 + 1 + rest.len(),
            )[m] == rest[m] by {
                assert(b.subrange(j0 + k0 + 1, j0 + k0 + 1 + rest.len())[m] == b[j0 + k0 + 1 + m]);
                assert(items[k0 + 1 + m] == (jbytes(v0) + seq![0x2Cu8] + rest)[k0 + 1 + m]);
            }
        }
        assert(b[j0 + k0 + 1 + rest.len()] == 0x5D);
        assert(decreases_to!(l => l.subrange(1, l.len() as int)));
        lemma_items_roundtrip(b, j0 + k0 + 1, l.drop_first());
        assert(seq![v0] + l.drop_first() =~= l);
    }
}

/// Parsing the emitted entries of a non-empty object, closed by a brace,
/// gives the entries back.
#[verifier::rlimit(100)]
proof fn lemma_entries_roundtrip(b: Seq<u8>, j0: int, o: Seq<(Seq<char>, ValView)>)
    requires
        o.len() >= 1,
        val_obj_simple(o),
        0 <= j0,
        j0 + jbytes_entries(o).len() + 1 <= b.len(),
        b.subrange(j0, j0 + jbytes_entries(o).len()) == jbytes_entries(o),
        b[j0 + jbytes_entries(o).len()] == 0x7D,
    ensures
        jp_entries(b, j0) == Option::Some((o, j0 + jbytes_entries(o).len() + 1)),
    decreases o, 0int,
{
    let entries = jbytes_entries(o);
    let k = entries.len() as int;
    assert forall|m: int| 0 <= m < k implies b[j0 + m] == entries[m] by {
        assert(b.subrange(j0, j0 + k)[m] == b[j0 + m]);
    }
    let e0 = o.first();
    assert(val_simple(e0.1));
    let key_body = vstd::utf8::encode_utf8(e0.0);
    let esc = esc_bytes(key_body);
    let entry = jbytes_entry(e0);
    let ke = entry.len() as int;
    assert(entry == seq![0x22u8] + esc + seq![0x22u8, 0x3Au8] + jbytes(e0.1));
    let vstart = j0 + 1 + esc.len() + 2;
    let kv = jbytes(e0.1).len() as int;
    if o.len() == 1 {
        assert(entries == entry);
    } else {
        assert(entries == entry + seq![0x2Cu8] + jbytes_entries(o.drop_first()));
    }
    assert forall|m: int| 0 <= m < ke implies b[j0 + m] == entry[m] by {
        if o.len() == 1 {
        } else {
            assert(entries[m] == (entry + seq![0x2Cu8] + jbytes_entries(o.drop_first()))[m]);
        }
    }
    assert(b[j0 + 0] == entry[0]);
    assert(entry[0] == (seq![0x22u8] + esc + seq![0x22u8, 0x3Au8] + jbytes(e0.1))[0]);
    assert(b[j0] == 0x22);
    assert(b.subrange(j0 + 1, j0 + 1 + esc.len()) =~= esc) by {
        assert forall|m: int| 0 <= m < esc.len() implies b.subrange(
            j0 + 1,
            j0 + 1 + esc.len(),
        )[m] == esc[m] by {
            assert(b.subrange(j0 + 1, j0 + 1 + esc.len())[m] == b[j0 + 1 + m]);
            assert(entry[1 + m] == (seq![0x22u8] + esc + seq![0x22u8, 0x3Au8] + jbytes(e0.1))[1
                + m]);
        }
    }
    assert(b[j0 + 1 + esc.len()] == 0x22) by {
        assert(entry[1 + esc.len() as int] == (seq![0x22u8] + esc + seq![0x22u8, 0x3Au8] + jbytes(
            e0.1,
        ))[1 + esc.len() as int]);
    }
    lemma_strbody_roundtrip(b, j0 + 1, key_body);
    vstd::utf8::encode_utf8_valid_utf8(e0.0);
    vstd::utf8::encode_utf8_decode_utf8(e0.0);
    assert(b[j0 + 1 + esc.len() + 1] == 0x3A) by {
        assert(entry[1 + esc.len() as int + 1] == (seq![0x22u8] + esc + seq![0x22u8, 0x3Au8] + jbytes(
            e0.1,
        ))[1 + esc.len() as int + 1]);
    }
    assert(b.subrange(vstart, vstart + kv) =~= jbytes(e0.1)) by {
        assert forall|m: int| 0 <= m < kv implies b.subrange(vstart, vstart + kv)[m] == jbytes(
            e0.1,
        )[m] by {
            assert(b.subrange(vstart, vstart + kv)[m] == b[vstart + m]);
            assert(entry[3 + esc.len() + m] == (seq![0x22u8] + esc + seq![0x22u8, 0x3Au8]
                + jbytes(e0.1))[3 + esc.len() + m]);
        }
    }
    broadcast use vstd::seq::axiom_seq_index_decreases;

    assert(decreases_to!(o => o[0]));
    assert(decreases_to!(o[0] => o[0].1));
    if o.len() == 1 {
        assert(b[vstart + kv] == 0x7D);
        lemma_val_roundtrip(b, vstart, e0.1);
        assert(seq![(vstd::utf8::decode_utf8(key_body), e0.1)] =~= o);
    } else {
        let rest = jbytes_entries(o.drop_first());
        assert(b[j0 + ke] == entries[ke]);
        assert(entries[ke] == 0x2C);
        assert(vstart + kv == j0 + ke);
        lemma_val_roundtrip(b, vstart, e0.1);
        assert(b.subrange(j0 + ke + 1, j0 + ke + 1 + rest.len()) =~= rest) by {
            assert forall|m: int| 0 <= m < rest.len() implies b.subrange(
                j0 + ke + 1,
                j0 + ke + 1 + rest.len(),
            )[m] == rest[m] by {
                assert(b.subrange(j0 + ke + 1, j0 + ke + 1 + rest.len())[m] == b[j0 + ke + 1 + m]);
                assert(entries[ke + 1 + m] == (entry + seq![0x2Cu8] + rest)[ke + 1 + m]);
            }
        }
        assert(b[j0 + ke + 1 + rest.len()] == 0x7D);
        assert(decreases_to!(o => o.subrange(1, o.len() as int)));
        lemma_entries_roundtrip(b, j0 + ke + 1, o.drop_first());
        assert(seq![(vstd::utf8::decode_utf8(key_body), e0.1)] + o.drop_first() =~= o);
    }
}

/// Parsing the emitted text of a simple value gives the value back: the
/// byte codec loses nothing on values the emitter and parser agree on.
pub proof fn lemma_json_roundtrip(v: ValView)
    requires
        val_simple(v),
    ensures
        json_value_of(jbytes(v)) == Option::Some(v),
{
    let b = jbytes(v);
    assert(b.subrange(0, b.len() as int) =~= b);
    lemma_val_roundtrip(b, 0, v);
}

} // verus!
