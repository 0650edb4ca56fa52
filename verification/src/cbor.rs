//! The CBOR wire codec: payload values as canonical binary items with
//! definite lengths. Numbers carried lexically have no binary form, so
//! only simple values encode; decoding accepts canonically headed items.

use vstd::prelude::*;
use crate::json::{val_obj_simple, val_seq_simple, val_simple};
use crate::types::PayloadValue;
use crate::value::{view_val, ValView};

verus! {

/// The big-endian bytes of an integer, in the given width.
pub open spec fn be_bytes(n: u64, width: int) -> Seq<u8>
    decreases width,
{
    if width <= 0 {
        Seq::empty()
    } else {
        be_bytes(n / 256, width - 1).push((n % 256) as u8)
    }
}

/// A CBOR item header: three major-type bits, then the count, inline
/// below 24 and otherwise in the smallest of 1, 2, 4 or 8 trailing
/// big-endian bytes.
pub open spec fn cbor_head(major: u8, n: u64) -> Seq<u8>
    recommends
        major < 8,
{
    if n < 24 {
        seq![(major * 32 + n) as u8]
    } else if n <= 0xFF {
        seq![(major * 32 + 24) as u8] + be_bytes(n, 1)
    } else if n <= 0xFFFF {
        seq![(major * 32 + 25) as u8] + be_bytes(n, 2)
    } else if n <= 0xFFFF_FFFF {
        seq![(major * 32 + 26) as u8] + be_bytes(n, 4)
    } else {
        seq![(major * 32 + 27) as u8] + be_bytes(n, 8)
    }
}

/// The CBOR bytes of a simple payload value. Lexical numbers have no
/// binary form and map to nothing here; the encoder rejects them.
pub open spec fn cbor_bytes(v: ValView) -> Seq<u8>
    decreases v, 1int,
    via cbor_bytes_decreases
{
    match v {
        ValView::Null => seq![0xF6u8],
        ValView::Bool(b) => if b {
            seq![0xF5u8]
        } else {
            seq![0xF4u8]
        },
        ValView::Uint(n) => cbor_head(0, n),
        ValView::Num(_) => Seq::empty(),
        ValView::Text(s) => cbor_head(3, vstd::utf8::encode_utf8(s).len() as u64)
            + vstd::utf8::encode_utf8(s),
        ValView::List(l) => cbor_head(4, l.len() as u64) + cbor_items(l),
        ValView::Object(o) => cbor_head(5, o.len() as u64) + cbor_entries(o),
    }
}

/// The concatenated CBOR items of an array.
pub open spec fn cbor_items(l: Seq<ValView>) -> Seq<u8>
    decreases l, 0int,
    via cbor_items_decreases
{
    if l.len() == 0 {
        Seq::empty()
    } else {
        cbor_bytes(l.first()) + cbor_items(l.drop_first())
    }
}

/// The concatenated key/value pairs of a map.
pub open spec fn cbor_entries(o: Seq<(Seq<char>, ValView)>) -> Seq<u8>
    decreases o, 0int,
    via cbor_entries_decreases
{
    if o.len() == 0 {
        Seq::empty()
    } else {
        cbor_head(3, vstd::utf8::encode_utf8(o.first().0).len() as u64) + vstd::utf8::encode_utf8(
            o.first().0,
        ) + cbor_bytes(o.first().1) + cbor_entries(o.drop_first())
    }
}

#[via_fn]
proof fn cbor_bytes_decreases(v: ValView) {
    match v {
        ValView::List(l) => {
            assert(decreases_to!(v => l));
        },
        ValView::Object(o) => {
            assert(decreases_to!(v => o));
        },
        _ => {},
    }
}

#[via_fn]
proof fn cbor_items_decreases(l: Seq<ValView>) {
    broadcast use vstd::seq::axiom_seq_index_decreases;

    if l.len() > 0 {
        assert(decreases_to!(l => l[0]));
        assert(decreases_to!(l => l.subrange(1, l.len() as int)));
    }
}

#[via_fn]
proof fn cbor_entries_decreases(o: Seq<(Seq<char>, ValView)>) {
    broadcast use vstd::seq::axiom_seq_index_decreases;

    if o.len() > 0 {
        assert(decreases_to!(o => o[0]));
        assert(decreases_to!(o[0] => o[0].1));
        assert(decreases_to!(o => o.subrange(1, o.len() as int)));
    }
}

/// Writes an item header.
#[verifier::loop_isolation(false)]
fn emit_head(major: u8, n: u64, out: &mut Vec<u8>)
    requires
        major < 8,
    ensures
        final(out)@ == old(out)@ + cbor_head(major, n),
{
    if n < 24 {
        out.push(major * 32 + (n as u8));
        proof {
            assert(out@ =~= old(out)@ + cbor_head(major, n));
        }
    } else if n <= 0xFF {
        out.push(major * 32 + 24);
        out.push((n % 256) as u8);
        proof {
            reveal_with_fuel(be_bytes, 9);
            assert(be_bytes(n, 1) =~= seq![(n % 256) as u8]);
            assert(out@ =~= old(out)@ + cbor_head(major, n));
        }
    } else if n <= 0xFFFF {
        out.push(major * 32 + 25);
        out.push(((n / 0x100) % 256) as u8);
        out.push((n % 256) as u8);
        proof {
            reveal_with_fuel(be_bytes, 9);
            assert(be_bytes(n, 2) =~= seq![((n / 0x100) % 256) as u8, (n % 256) as u8]);
            assert(out@ =~= old(out)@ + cbor_head(major, n));
        }
    } else if n <= 0xFFFF_FFFF {
        out.push(major * 32 + 26);
        out.push(((n / 0x100_0000) % 256) as u8);
        out.push(((n / 0x1_0000) % 256) as u8);
        out.push(((n / 0x100) % 256) as u8);
        out.push((n % 256) as u8);
        proof {
            reveal_with_fuel(be_bytes, 9);
            assert(be_bytes(n, 4) =~= seq![
                ((n / 0x100_0000) % 256) as u8,
                ((n / 0x1_0000) % 256) as u8,
                ((n / 0x100) % 256) as u8,
                (n % 256) as u8,
            ]);
            assert(out@ =~= old(out)@ + cbor_head(major, n));
        }
    } else {
        out.push(major * 32 + 27);
        out.push(((n / 0x100_0000_0000_0000) % 256) as u8);
        out.push(((n / 0x1_0000_0000_0000) % 256) as u8);
        out.push(((n / 0x100_0000_0000) % 256) as u8);
        out.push(((n / 0x1_0000_0000) % 256) as u8);
        out.push(((n / 0x100_0000) % 256) as u8);
        out.push(((n / 0x1_0000) % 256) as u8);
        out.push(((n / 0x100) % 256) as u8);
        out.push((n % 256) as u8);
        proof {
            reveal_with_fuel(be_bytes, 9);
            assert(be_bytes(n, 8) =~= seq![
                ((n / 0x100_0000_0000_0000) % 256) as u8,
                ((n / 0x1_0000_0000_0000) % 256) as u8,
                ((n / 0x100_0000_0000) % 256) as u8,
                ((n / 0x1_0000_0000) % 256) as u8,
                ((n / 0x100_0000) % 256) as u8,
                ((n / 0x1_0000) % 256) as u8,
                ((n / 0x100) % 256) as u8,
                (n % 256) as u8,
            ]);
            assert(out@ =~= old(out)@ + cbor_head(major, n));
        }
    }
}

/// Writes a text item: a header with the byte length, then the bytes.
#[verifier::loop_isolation(false)]
fn emit_text(s: &String, out: &mut Vec<u8>)
    ensures
        final(out)@ == old(out)@ + cbor_head(3, vstd::utf8::encode_utf8(s@).len() as u64)
            + vstd::utf8::encode_utf8(s@),
{
    let bytes = s.as_str().as_bytes();
    let ghost all = bytes@;
    emit_head(3, bytes.len() as u64, out);
    let ghost mid = out@;
    let mut i: usize = 0;
    while i < bytes.len()
        invariant
            0 <= i <= all.len(),
            bytes@ == all,
            all == vstd::utf8::encode_utf8(s@),
            out@ == mid + all.take(i as int),
        decreases all.len() - i,
    {
        out.push(bytes[i]);
        proof {
            assert(out@ =~= mid + all.take(i + 1));
        }
        i = i + 1;
    }
    proof {
        assert(all.take(all.len() as int) =~= all);
    }
}

/// Encodes a simple payload value as CBOR; a value carrying a lexical
/// number anywhere is rejected.
#[verifier::loop_isolation(false)]
#[verifier::rlimit(100)]
pub fn cbor_emit_val(v: &PayloadValue, out: &mut Vec<u8>) -> (r: bool)
    ensures
        r == val_simple(view_val(*v)),
        r ==> final(out)@ == old(out)@ + cbor_bytes(view_val(*v)),
        !r ==> final(out)@ == old(out)@,
    decreases v,
{
    match v {
        PayloadValue::Null => {
            out.push(0xF6);
            proof {
                assert(out@ =~= old(out)@ + cbor_bytes(view_val(*v)));
            }
            true
        },
        PayloadValue::Bool(b) => {
            out.push(if *b {
                0xF5
            } else {
                0xF4
            });
            proof {
                assert(out@ =~= old(out)@ + cbor_bytes(view_val(*v)));
            }
            true
        },
        PayloadValue::Uint(n) => {
            emit_head(0, *n, out);
            true
        },
        PayloadValue::Num(_) => false,
        PayloadValue::Text(s) => {
            emit_text(s, out);
            true
        },
        PayloadValue::List(l) => {
            let mut body: Vec<u8> = Vec::new();
            let ghost lv = crate::value::view_val_seq(l@);
            proof {
                crate::value::lemma_view_val_seq(l@);
            }
            let mut i: usize = 0;
            while i < l.len()
                invariant
                    0 <= i <= l@.len(),
                    lv.len() == l@.len(),
                    forall|j: int| 0 <= j < l@.len() ==> #[trigger] lv[j] == view_val(l@[j]),
                    val_seq_simple(lv.take(i as int)),
                    body@ == cbor_items(lv.take(i as int)),
                decreases l@.len() - i,
            {
                proof {
                    broadcast use vstd::std_specs::vec::group_vec_axioms, vstd::seq::axiom_seq_index_decreases;

                    assert(decreases_to!(*l => l@));
                    assert(decreases_to!(l@ => l@[i as int]));
                }
                let ok = cbor_emit_val(&l[i], &mut body);
                if !ok {
                    proof {
                        lemma_val_seq_simple_prefix(lv, i as int);
                    }
                    return false;
                }
                proof {
                    lemma_cbor_items_snoc(lv, i as int);
                    lemma_val_seq_simple_snoc(lv, i as int);
                }
                i = i + 1;
            }
            proof {
                assert(lv.take(lv.len() as int) =~= lv);
            }
            let ghost pre = out@;
            emit_head(4, l.len() as u64, out);
            append_bytes(out, &body);
            proof {
                assert(out@ =~= pre + cbor_bytes(view_val(*v)));
            }
            true
        },
        PayloadValue::Object(o) => {
            let mut body: Vec<u8> = Vec::new();
            let ghost ov = crate::value::view_val_obj(o@);
            proof {
                crate::value::lemma_view_val_obj(o@);
            }
            let mut i: usize = 0;
            while i < o.len()
                invariant
                    0 <= i <= o@.len(),
                    ov.len() == o@.len(),
                    forall|j: int|
                        0 <= j < o@.len() ==> #[trigger] ov[j] == (o@[j].0@, view_val(o@[j].1)),
                    val_obj_simple(ov.take(i as int)),
                    body@ == cbor_entries(ov.take(i as int)),
                decreases o@.len() - i,
            {
                proof {
                    broadcast use vstd::std_specs::vec::group_vec_axioms, vstd::seq::axiom_seq_index_decreases;

                    assert(decreases_to!(*o => o@));
                    assert(decreases_to!(o@ => o@[i as int]));
                    assert(decreases_to!(o@[i as int] => o@[i as int].1));
                }
                emit_text(&o[i].0, &mut body);
                let ok = cbor_emit_val(&o[i].1, &mut body);
                if !ok {
                    proof {
                        lemma_val_obj_simple_prefix(ov, i as int);
                    }
                    return false;
                }
                proof {
                    lemma_cbor_entries_snoc(ov, i as int);
                    lemma_val_obj_simple_snoc(ov, i as int);
                }
                i = i + 1;
            }
            proof {
                assert(ov.take(ov.len() as int) =~= ov);
            }
            let ghost pre = out@;
            emit_head(5, o.len() as u64, out);
            append_bytes(out, &body);
            proof {
                assert(out@ =~= pre + cbor_bytes(view_val(*v)));
            }
            true
        },
    }
}

/// Appends a built body after its header.
#[verifier::loop_isolation(false)]
fn append_bytes(out: &mut Vec<u8>, body: &Vec<u8>)
    ensures
        final(out)@ == old(out)@ + body@,
{
    let mut i: usize = 0;
    while i < body.len()
        invariant
            0 <= i <= body@.len(),
            out@ == old(out)@ + body@.take(i as int),
        decreases body@.len() - i,
    {
        out.push(body[i]);
        proof {
            assert(out@ =~= old(out)@ + body@.take(i + 1));
        }
        i = i + 1;
    }
    proof {
        assert(body@.take(body@.len() as int) =~= body@);
    }
}

/// A failing element leaves the whole sequence non-simple.
proof fn lemma_val_seq_simple_prefix(l: Seq<ValView>, i: int)
    requires
        0 <= i < l.len(),
        !val_simple(l[i]),
    ensures
        !val_seq_simple(l),
    decreases i,
{
    if i == 0 {
    } else {
        lemma_val_seq_simple_prefix(l.drop_first(), i - 1);
    }
}

/// A simple prefix extended by a simple element stays simple.
proof fn lemma_val_seq_simple_snoc(l: Seq<ValView>, i: int)
    requires
        0 <= i < l.len(),
        val_seq_simple(l.take(i)),
        val_simple(l[i]),
    ensures
        val_seq_simple(l.take(i + 1)),
    decreases i,
{
    if i == 0 {
        reveal_with_fuel(val_seq_simple, 3);
        assert(l.take(1).drop_first() =~= Seq::<ValView>::empty());
        assert(l.take(1).first() == l[0]);
    } else {
        assert(l.take(i).first() == l[0]);
        assert(l.take(i).drop_first() =~= l.drop_first().take(i - 1));
        assert(l.drop_first()[i - 1] == l[i]);
        lemma_val_seq_simple_snoc(l.drop_first(), i - 1);
        assert(l.take(i + 1).first() == l[0]);
        assert(l.take(i + 1).drop_first() =~= l.drop_first().take(i));
    }
}

/// Emitting one more item appends its bytes.
proof fn lemma_cbor_items_snoc(l: Seq<ValView>, i: int)
    requires
        0 <= i < l.len(),
    ensures
        cbor_items(l.take(i + 1)) == cbor_items(l.take(i)) + cbor_bytes(l[i]),
    decreases i,
{
    if i == 0 {
        reveal_with_fuel(cbor_items, 3);
        assert(l.take(1).first() == l[0]);
        assert(l.take(1).drop_first() =~= Seq::<ValView>::empty());
        assert(cbor_items(l.take(0)) =~= Seq::<u8>::empty());
        assert(cbor_items(l.take(1)) =~= cbor_items(l.take(0)) + cbor_bytes(l[0]));
    } else {
        lemma_cbor_items_snoc(l.drop_first(), i - 1);
        assert(l.take(i + 1).first() == l[0]);
        assert(l.take(i + 1).drop_first() =~= l.drop_first().take(i));
        assert(l.take(i).first() == l[0]);
        assert(l.take(i).drop_first() =~= l.drop_first().take(i - 1));
        assert(l.drop_first()[i - 1] == l[i]);
        assert(cbor_items(l.take(i + 1)) =~= cbor_items(l.take(i)) + cbor_bytes(l[i]));
    }
}

/// A failing entry value leaves the whole map non-simple.
proof fn lemma_val_obj_simple_prefix(o: Seq<(Seq<char>, ValView)>, i: int)
    requires
        0 <= i < o.len(),
        !val_simple(o[i].1),
    ensures
        !val_obj_simple(o),
    decreases i,
{
    if i == 0 {
    } else {
        lemma_val_obj_simple_prefix(o.drop_first(), i - 1);
    }
}

/// A simple prefix extended by a simple entry stays simple.
proof fn lemma_val_obj_simple_snoc(o: Seq<(Seq<char>, ValView)>, i: int)
    requires
        0 <= i < o.len(),
        val_obj_simple(o.take(i)),
        val_simple(o[i].1),
    ensures
        val_obj_simple(o.take(i + 1)),
    decreases i,
{
    if i == 0 {
        reveal_with_fuel(val_obj_simple, 3);
        assert(o.take(1).drop_first() =~= Seq::<(Seq<char>, ValView)>::empty());
        assert(o.take(1).first() == o[0]);
    } else {
        assert(o.take(i).first() == o[0]);
        assert(o.take(i).drop_first() =~= o.drop_first().take(i - 1));
        assert(o.drop_first()[i - 1] == o[i]);
        lemma_val_obj_simple_snoc(o.drop_first(), i - 1);
        assert(o.take(i + 1).first() == o[0]);
        assert(o.take(i + 1).drop_first() =~= o.drop_first().take(i));
    }
}

/// Emitting one more entry appends its key and value bytes.
proof fn lemma_cbor_entries_snoc(o: Seq<(Seq<char>, ValView)>, i: int)
    requires
        0 <= i < o.len(),
    ensures
        cbor_entries(o.take(i + 1)) == cbor_entries(o.take(i)) + cbor_head(
            3,
            vstd::utf8::encode_utf8(o[i].0).len() as u64,
        ) + vstd::utf8::encode_utf8(o[i].0) + cbor_bytes(o[i].1),
    decreases i,
{
    if i == 0 {
        reveal_with_fuel(cbor_entries, 3);
        assert(o.take(1).first() == o[0]);
        assert(o.take(1).drop_first() =~= Seq::<(Seq<char>, ValView)>::empty());
        assert(cbor_entries(o.take(0)) =~= Seq::<u8>::empty());
        assert(cbor_entries(o.take(1)) =~= cbor_entries(o.take(0)) + cbor_head(
            3,
            vstd::utf8::encode_utf8(o[0].0).len() as u64,
        ) + vstd::utf8::encode_utf8(o[0].0) + cbor_bytes(o[0].1));
    } else {
        lemma_cbor_entries_snoc(o.drop_first(), i - 1);
        assert(o.take(i + 1).first() == o[0]);
        assert(o.take(i + 1).drop_first() =~= o.drop_first().take(i));
        assert(o.take(i).first() == o[0]);
        assert(o.take(i).drop_first() =~= o.drop_first().take(i - 1));
        assert(o.drop_first()[i - 1] == o[i]);
        assert(cbor_entries(o.take(i + 1)) =~= cbor_entries(o.take(i)) + cbor_head(
            3,
            vstd::utf8::encode_utf8(o[i].0).len() as u64,
        ) + vstd::utf8::encode_utf8(o[i].0) + cbor_bytes(o[i].1));
    }
}

/// The big-endian value of `width` bytes starting at `i`.
pub open spec fn be_val(b: Seq<u8>, i: int, width: int) -> nat
    decreases width,
{
    if width <= 0 {
        0
    } else {
        (be_val(b, i, width - 1) * 256 + b[i + width - 1]) as nat
    }
}

/// Reads an item header: the major type, the count, and the position past
/// the header. Only canonical headers are accepted: the count travels in
/// the smallest form that holds it.
pub open spec fn cp_head(b: Seq<u8>, i: int) -> Option<(u8, u64, int)> {
    if i < 0 || i >= b.len() {
        Option::None
    } else {
        let fb = b[i];
        let major = fb / 32;
        let info = fb % 32;
        if info < 24 {
            Option::Some((major, info as u64, i + 1))
        } else if info == 24 {
            if i + 2 <= b.len() && b[i + 1] >= 24 {
                Option::Some((major, b[i + 1] as u64, i + 2))
            } else {
                Option::None
            }
        } else if info == 25 {
            if i + 3 <= b.len() && be_val(b, i + 1, 2) > 0xFF {
                Option::Some((major, be_val(b, i + 1, 2) as u64, i + 3))
            } else {
                Option::None
            }
        } else if info == 26 {
            if i + 5 <= b.len() && be_val(b, i + 1, 4) > 0xFFFF {
                Option::Some((major, be_val(b, i + 1, 4) as u64, i + 5))
            } else {
                Option::None
            }
        } else if info == 27 {
            if i + 9 <= b.len() && be_val(b, i + 1, 8) > 0xFFFF_FFFF {
                Option::Some((major, be_val(b, i + 1, 8) as u64, i + 9))
            } else {
                Option::None
            }
        } else {
            Option::None
        }
    }
}

/// Parses one CBOR item starting at `i`. Only the kinds the codec emits
/// are accepted: unsigned integers, text, arrays, maps, booleans, null.
pub open spec fn cp_val(b: Seq<u8>, i: int) -> Option<(ValView, int)>
    decreases b.len() - i, 3int,
    via cp_val_decreases
{
    match cp_head(b, i) {
        Option::None => Option::None,
        Option::Some((major, n, next)) => if next <= i {
            Option::None
        } else if major == 0 {
            Option::Some((ValView::Uint(n), next))
        } else if major == 3 {
            if next + n <= b.len() && vstd::utf8::valid_utf8(b.subrange(next, next + n)) {
                Option::Some(
                    (ValView::Text(vstd::utf8::decode_utf8(b.subrange(next, next + n))), next + n),
                )
            } else {
                Option::None
            }
        } else if major == 4 {
            match cp_items(b, next, n) {
                Option::Some((l, j)) => Option::Some((ValView::List(l), j)),
                Option::None => Option::None,
            }
        } else if major == 5 {
            match cp_entries(b, next, n) {
                Option::Some((o, j)) => Option::Some((ValView::Object(o), j)),
                Option::None => Option::None,
            }
        } else if major == 7 {
            if n == 20 {
                Option::Some((ValView::Bool(false), next))
            } else if n == 21 {
                Option::Some((ValView::Bool(true), next))
            } else if n == 22 {
                Option::Some((ValView::Null, next))
            } else {
                Option::None
            }
        } else {
            Option::None
        },
    }
}

/// Parses `count` items in sequence.
pub open spec fn cp_items(b: Seq<u8>, j: int, count: u64) -> Option<(Seq<ValView>, int)>
    decreases b.len() - j, 4int,
    via cp_items_decreases
{
    if count == 0 {
        Option::Some((Seq::empty(), j))
    } else {
        match cp_val(b, j) {
            Option::Some((v, j2)) => if j2 <= j || j2 > b.len() {
                Option::None
            } else {
                match cp_items(b, j2, (count - 1) as u64) {
                    Option::Some((l, j3)) => Option::Some((seq![v] + l, j3)),
                    Option::None => Option::None,
                }
            },
            Option::None => Option::None,
        }
    }
}

/// Parses `count` key/value pairs in sequence; keys are text items.
pub open spec fn cp_entries(b: Seq<u8>, j: int, count: u64) -> Option<
    (Seq<(Seq<char>, ValView)>, int),
>
    decreases b.len() - j, 4int,
    via cp_entries_decreases
{
    if count == 0 {
        Option::Some((Seq::empty(), j))
    } else {
        match cp_head(b, j) {
            Option::Some((major, n, next)) => if major != 3 || next <= j || next + n > b.len()
                || !vstd::utf8::valid_utf8(b.subrange(next, next + n)) {
                Option::None
            } else {
                let key = vstd::utf8::decode_utf8(b.subrange(next, next + n));
                match cp_val(b, next + n) {
                    Option::Some((v, j2)) => if j2 <= next + n || j2 > b.len() {
                        Option::None
                    } else {
                        match cp_entries(b, j2, (count - 1) as u64) {
                            Option::Some((o, j3)) => Option::Some((seq![(key, v)] + o, j3)),
                            Option::None => Option::None,
                        }
                    },
                    Option::None => Option::None,
                }
            },
            Option::None => Option::None,
        }
    }
}

#[via_fn]
proof fn cp_val_decreases(b: Seq<u8>, i: int) {
}

#[via_fn]
proof fn cp_items_decreases(b: Seq<u8>, j: int, count: u64) {
}

#[via_fn]
proof fn cp_entries_decreases(b: Seq<u8>, j: int, count: u64) {
}

/// Reads an item header.
fn p_head(b: &Vec<u8>, i: usize) -> (r: Result<(u8, u64, usize), ()>)
    requires
        i <= b@.len(),
    ensures
        match r {
            Result::Ok(h) => cp_head(b@, i as int) == Option::Some((h.0, h.1, h.2 as int)) && i
                < h.2 <= b@.len(),
            Result::Err(_) => cp_head(b@, i as int) is None,
        },
{
    let n = b.len();
    if i >= n {
        return Result::Err(());
    }
    let fb = b[i];
    let major = fb / 32;
    let info = fb % 32;
    if info < 24 {
        Result::Ok((major, info as u64, i + 1))
    } else if info == 24 {
        if n - i >= 2 && b[i + 1] >= 24 {
            Result::Ok((major, b[i + 1] as u64, i + 2))
        } else {
            Result::Err(())
        }
    } else if info == 25 {
        if n - i >= 3 {
            let v: u64 = (b[i + 1] as u64) * 0x100 + (b[i + 2] as u64);
            proof {
                reveal_with_fuel(be_val, 9);
            }
            if v > 0xFF {
                Result::Ok((major, v, i + 3))
            } else {
                Result::Err(())
            }
        } else {
            Result::Err(())
        }
    } else if info == 26 {
        if n - i >= 5 {
            let v: u64 = (b[i + 1] as u64) * 0x100_0000 + (b[i + 2] as u64) * 0x1_0000 + (
            b[i + 3] as u64) * 0x100 + (b[i + 4] as u64);
            proof {
                reveal_with_fuel(be_val, 9);
            }
            if v > 0xFFFF {
                Result::Ok((major, v, i + 5))
            } else {
                Result::Err(())
            }
        } else {
            Result::Err(())
        }
    } else if info == 27 {
        if n - i >= 9 {
            let hi: u64 = (b[i + 1] as u64) * 0x100_0000 + (b[i + 2] as u64) * 0x1_0000 + (
            b[i + 3] as u64) * 0x100 + (b[i + 4] as u64);
            let lo: u64 = (b[i + 5] as u64) * 0x100_0000 + (b[i + 6] as u64) * 0x1_0000 + (
            b[i + 7] as u64) * 0x100 + (b[i + 8] as u64);
            let v: u64 = hi * 0x1_0000_0000 + lo;
            proof {
                reveal_with_fuel(be_val, 9);
                assert(be_val(b@, i + 1, 8) == be_val(b@, i + 1, 4) * 0x1_0000_0000 + be_val(
                    b@,
                    i + 5,
                    4,
                )) by {
                    reveal_with_fuel(be_val, 9);
                }
            }
            if v > 0xFFFF_FFFF {
                Result::Ok((major, v, i + 9))
            } else {
                Result::Err(())
            }
        } else {
            Result::Err(())
        }
    } else {
        Result::Err(())
    }
}

/// Copies a byte range out of the input and decodes it as text.
#[verifier::loop_isolation(false)]
fn take_text(b: &Vec<u8>, from: usize, to: usize) -> (r: Option<String>)
    requires
        from <= to <= b@.len(),
    ensures
        match r {
            Option::Some(s) => vstd::utf8::valid_utf8(b@.subrange(from as int, to as int)) && s@
                == vstd::utf8::decode_utf8(b@.subrange(from as int, to as int)),
            Option::None => !vstd::utf8::valid_utf8(b@.subrange(from as int, to as int)),
        },
{
    let mut out: Vec<u8> = Vec::new();
    let mut k: usize = from;
    while k < to
        invariant
            from <= k <= to,
            out@ =~= b@.subrange(from as int, k as int),
        decreases to - k,
    {
        out.push(b[k]);
        proof {
            assert(out@ =~= b@.subrange(from as int, k + 1));
        }
        k = k + 1;
    }
    crate::json::string_from_utf8(out)
}

/// Parses one CBOR item starting at `i`.
#[verifier::loop_isolation(false)]
#[verifier::rlimit(100)]
pub fn cbor_p_val(b: &Vec<u8>, i: usize) -> (r: Result<(PayloadValue, usize), ()>)
    requires
        i <= b@.len(),
    ensures
        match r {
            Result::Ok(p) => cp_val(b@, i as int) == Option::Some((view_val(p.0), p.1 as int))
                && i < p.1 <= b@.len(),
            Result::Err(_) => cp_val(b@, i as int) is None,
        },
    decreases b@.len() - i,
{
    let n = b.len();
    let (major, count, next) = match p_head(b, i) {
        Result::Ok(h) => h,
        Result::Err(_) => {
            return Result::Err(());
        },
    };
    if major == 0 {
        Result::Ok((PayloadValue::Uint(count), next))
    } else if major == 3 {
        if count <= (n - next) as u64 {
            let to = next + (count as usize);
            match take_text(b, next, to) {
                Option::Some(s) => Result::Ok((PayloadValue::Text(s), to)),
                Option::None => Result::Err(()),
            }
        } else {
            Result::Err(())
        }
    } else if major == 4 {
        let mut out: Vec<PayloadValue> = Vec::new();
        let mut cur: usize = next;
        let mut left: u64 = count;
        loop
            invariant
                next <= cur <= n,
                n == b@.len(),
                left <= count,
                i < next,
                match cp_items(b@, cur as int, left) {
                    Option::Some(p) => cp_items(b@, next as int, count) == Option::Some(
                        (crate::value::view_val_seq(out@) + p.0, p.1),
                    ),
                    Option::None => cp_items(b@, next as int, count) is None,
                },
            decreases left,
        {
            if left == 0 {
                proof {
                    assert(cp_items(b@, cur as int, 0u64) == Option::Some(
                        (Seq::<ValView>::empty(), cur as int),
                    ));
                    assert(crate::value::view_val_seq(out@) + Seq::<ValView>::empty()
                        =~= crate::value::view_val_seq(out@));
                }
                return Result::Ok((PayloadValue::List(out), cur));
            }
            match cbor_p_val(b, cur) {
                Result::Err(_) => {
                    return Result::Err(());
                },
                Result::Ok((v, j2)) => {
                    let ghost preout = out@;
                    out.push(v);
                    proof {
                        crate::json::lemma_view_val_seq_push_pub(preout, v);
                        assert forall|p0: Seq<ValView>|
                            true implies crate::value::view_val_seq(preout) + (seq![view_val(v)]
                            + p0) =~= crate::value::view_val_seq(out@) + p0 by {}
                    }
                    cur = j2;
                    left = left - 1;
                },
            }
        }
    } else if major == 5 {
        let mut out: Vec<(String, PayloadValue)> = Vec::new();
        let mut cur: usize = next;
        let mut left: u64 = count;
        loop
            invariant
                next <= cur <= n,
                n == b@.len(),
                left <= count,
                i < next,
                match cp_entries(b@, cur as int, left) {
                    Option::Some(p) => cp_entries(b@, next as int, count) == Option::Some(
                        (crate::value::view_val_obj(out@) + p.0, p.1),
                    ),
                    Option::None => cp_entries(b@, next as int, count) is None,
                },
            decreases left,
        {
            if left == 0 {
                proof {
                    assert(cp_entries(b@, cur as int, 0u64) == Option::Some(
                        (Seq::<(Seq<char>, ValView)>::empty(), cur as int),
                    ));
                    assert(crate::value::view_val_obj(out@) + Seq::<(Seq<char>, ValView)>::empty()
                        =~= crate::value::view_val_obj(out@));
                }
                return Result::Ok((PayloadValue::Object(out), cur));
            }
            let (kmajor, kcount, knext) = match p_head(b, cur) {
                Result::Ok(h) => h,
                Result::Err(_) => {
                    return Result::Err(());
                },
            };
            if kmajor != 3 || kcount > (n - knext) as u64 {
                return Result::Err(());
            }
            let kto = knext + (kcount as usize);
            let key = match take_text(b, knext, kto) {
                Option::Some(s) => s,
                Option::None => {
                    return Result::Err(());
                },
            };
            match cbor_p_val(b, kto) {
                Result::Err(_) => {
                    return Result::Err(());
                },
                Result::Ok((v, j2)) => {
                    let ghost preout = out@;
                    let ghost gkey = key@;
                    out.push((key, v));
                    proof {
                        crate::json::lemma_view_val_obj_push_pub(preout, out@.last().0, v);
                        assert forall|p0: Seq<(Seq<char>, ValView)>|
                            true implies crate::value::view_val_obj(preout) + (seq![
                            (gkey, view_val(v)),
                        ] + p0) =~= crate::value::view_val_obj(out@) + p0 by {}
                    }
                    cur = j2;
                    left = left - 1;
                },
            }
        }
    } else if major == 7 {
        if count == 20 {
            Result::Ok((PayloadValue::Bool(false), next))
        } else if count == 21 {
            Result::Ok((PayloadValue::Bool(true), next))
        } else if count == 22 {
            Result::Ok((PayloadValue::Null, next))
        } else {
            Result::Err(())
        }
    } else {
        Result::Err(())
    }
}

/// The payload value a whole byte string parses to, if it is exactly one
/// CBOR item.
pub open spec fn cbor_value_of(b: Seq<u8>) -> Option<ValView> {
    match cp_val(b, 0) {
        Option::Some((v, n)) => if n == b.len() {
            Option::Some(v)
        } else {
            Option::None
        },
        Option::None => Option::None,
    }
}

/// Parses a whole byte string as exactly one CBOR item.
pub fn cbor_parse(b: &Vec<u8>) -> (r: Option<PayloadValue>)
    ensures
        match r {
            Option::Some(v) => cbor_value_of(b@) == Option::Some(view_val(v)),
            Option::None => cbor_value_of(b@) is None,
        },
{
    match cbor_p_val(b, 0) {
        Result::Ok((v, j)) => {
            if j == b.len() {
                Option::Some(v)
            } else {
                Option::None
            }
        },
        Result::Err(_) => Option::None,
    }
}

/// 256 to the given power.
pub open spec fn pow256(w: int) -> nat
    decreases w,
{
    if w <= 0 {
        1
    } else {
        256 * pow256(w - 1)
    }
}

/// Big-endian bytes have their width as length.
pub proof fn lemma_be_bytes_len(n: u64, w: int)
    requires
        0 <= w,
    ensures
        be_bytes(n, w).len() == w,
    decreases w,
{
    if w > 0 {
        lemma_be_bytes_len(n / 256, w - 1);
    }
}

/// Reading back the big-endian bytes of a value that fits the width gives
/// the value.
pub proof fn lemma_be_roundtrip(b: Seq<u8>, i: int, n: u64, w: int)
    requires
        0 <= w,
        0 <= i,
        i + w <= b.len(),
        n < pow256(w),
        b.subrange(i, i + w) == be_bytes(n, w),
    ensures
        be_val(b, i, w) == n,
    decreases w,
{
    lemma_be_bytes_len(n, w);
    if w == 0 {
    } else {
        lemma_be_bytes_len(n / 256, w - 1);
        assert(b.subrange(i, i + w)[w - 1] == b[i + w - 1]);
        assert(be_bytes(n, w).last() == (n % 256) as u8);
        assert(b[i + w - 1] == (n % 256) as u8);
        assert(b.subrange(i, i + w - 1) =~= be_bytes(n / 256, w - 1)) by {
            assert forall|m: int| 0 <= m < w - 1 implies #[trigger] b.subrange(i, i + w - 1)[m]
                == be_bytes(n / 256, w - 1)[m] by {
                assert(b.subrange(i, i + w)[m] == b[i + m]);
                assert(be_bytes(n, w)[m] == be_bytes(n / 256, w - 1)[m]);
            }
        }
        assert((n / 256) < pow256(w - 1)) by (nonlinear_arith)
            requires
                n < pow256(w),
                pow256(w) == 256 * pow256(w - 1),
        ;
        lemma_be_roundtrip(b, i, n / 256, w - 1);
        assert(be_val(b, i, w) == (be_val(b, i, w - 1) * 256 + b[i + w - 1]) as nat);
    }
}

/// Every count in the value fits a wire integer: string byte lengths and
/// container sizes stay within 64 bits. Every value built at run time is
/// sized; only unbounded mathematical values are not.
pub open spec fn cbor_sized(v: ValView) -> bool
    decreases v, 1int,
    via cbor_sized_decreases
{
    match v {
        ValView::Text(s) => vstd::utf8::encode_utf8(s).len() <= 0xFFFF_FFFF_FFFF_FFFF,
        ValView::List(l) => l.len() <= 0xFFFF_FFFF_FFFF_FFFF && cbor_seq_sized(l),
        ValView::Object(o) => o.len() <= 0xFFFF_FFFF_FFFF_FFFF && cbor_obj_sized(o),
        _ => true,
    }
}

/// Every element is sized.
pub open spec fn cbor_seq_sized(l: Seq<ValView>) -> bool
    decreases l, 0int,
    via cbor_seq_sized_decreases
{
    if l.len() == 0 {
        true
    } else {
        cbor_sized(l.first()) && cbor_seq_sized(l.drop_first())
    }
}

/// Every entry has a sized key and value.
pub open spec fn cbor_obj_sized(o: Seq<(Seq<char>, ValView)>) -> bool
    decreases o, 0int,
    via cbor_obj_sized_decreases
{
    if o.len() == 0 {
        true
    } else {
        vstd::utf8::encode_utf8(o.first().0).len() <= 0xFFFF_FFFF_FFFF_FFFF && cbor_sized(
            o.first().1,
        ) && cbor_obj_sized(o.drop_first())
    }
}

#[via_fn]
proof fn cbor_sized_decreases(v: ValView) {
    match v {
        ValView::List(l) => {
            assert(decreases_to!(v => l));
        },
        ValView::Object(o) => {
            assert(decreases_to!(v => o));
        },
        _ => {},
    }
}

#[via_fn]
proof fn cbor_seq_sized_decreases(l: Seq<ValView>) {
    broadcast use vstd::seq::axiom_seq_index_decreases;

    if l.len() > 0 {
        assert(decreases_to!(l => l[0]));
        assert(decreases_to!(l => l.subrange(1, l.len() as int)));
    }
}

#[via_fn]
proof fn cbor_obj_sized_decreases(o: Seq<(Seq<char>, ValView)>) {
    broadcast use vstd::seq::axiom_seq_index_decreases;

    if o.len() > 0 {
        assert(decreases_to!(o => o[0]));
        assert(decreases_to!(o[0] => o[0].1));
        assert(decreases_to!(o => o.subrange(1, o.len() as int)));
    }
}

/// Reading back an emitted item header gives the major type and the count.
#[verifier::rlimit(100)]
proof fn lemma_cbor_head_roundtrip(b: Seq<u8>, i: int, major: u8, n: u64)
    requires
        major < 8,
        0 <= i,
        i + cbor_head(major, n).len() <= b.len(),
        b.subrange(i, i + cbor_head(major, n).len()) == cbor_head(major, n),
    ensures
        cp_head(b, i) == Option::Some((major, n, i + cbor_head(major, n).len())),
{
    let h = cbor_head(major, n);
    let k = h.len() as int;
    assert forall|m: int| 0 <= m < k implies b[i + m] == h[m] by {
        assert(b.subrange(i, i + k)[m] == b[i + m]);
    }
    assert(pow256(1) == 256 && pow256(2) == 65536 && pow256(4) == 0x1_0000_0000 && pow256(8)
        > 0xFFFF_FFFF_FFFF_FFFF) by {
        reveal_with_fuel(pow256, 9);
    }
    if n < 24 {
        let fb: u8 = (major * 32 + n) as u8;
        assert(h =~= seq![fb]);
        assert(b[i + 0] == h[0]);
        assert(b[i] == fb);
        assert(fb / 32 == major && fb % 32 == n) by (nonlinear_arith)
            requires
                major < 8,
                n < 24,
                fb == major * 32 + n,
        ;
    } else {
        let info: u8 = if n <= 0xFF {
            24
        } else if n <= 0xFFFF {
            25
        } else if n <= 0xFFFF_FFFF {
            26
        } else {
            27
        };
        let w: int = if n <= 0xFF {
            1
        } else if n <= 0xFFFF {
            2
        } else if n <= 0xFFFF_FFFF {
            4
        } else {
            8
        };
        let fb: u8 = (major * 32 + info) as u8;
        lemma_be_bytes_len(n, w);
        assert(h == seq![fb] + be_bytes(n, w));
        assert(h.len() == 1 + w);
        assert(b[i + 0] == h[0]);
        assert(h[0] == (seq![fb] + be_bytes(n, w))[0]);
        assert(b[i] == fb);
        assert(fb / 32 == major && fb % 32 == info) by (nonlinear_arith)
            requires
                major < 8,
                24 <= info < 32,
                fb == major * 32 + info,
        ;
        assert(b.subrange(i + 1, i + 1 + w) =~= be_bytes(n, w)) by {
            assert forall|m: int| 0 <= m < w implies #[trigger] b.subrange(i + 1, i + 1 + w)[m]
                == be_bytes(n, w)[m] by {
                assert(b.subrange(i + 1, i + 1 + w)[m] == b[i + 1 + m]);
                assert(h[1 + m] == (seq![fb] + be_bytes(n, w))[1 + m]);
            }
        }
        assert(n < pow256(w));
        lemma_be_roundtrip(b, i + 1, n, w);
        if n <= 0xFF {
            assert(b.subrange(i + 1, i + 2)[0] == b[i + 1]);
            assert(be_bytes(n, 1) =~= seq![(n % 256) as u8]) by {
                reveal_with_fuel(be_bytes, 3);
            }
            assert(b[i + 1] == (n % 256) as u8);
            assert(b[i + 1] as u64 == n);
            assert(b[i + 1] >= 24);
        }
    }
}

/// Parsing the emitted bytes of a simple value gives the value back.
#[verifier::rlimit(100)]
proof fn lemma_cbor_val_roundtrip(b: Seq<u8>, i: int, v: ValView)
    requires
        crate::json::val_simple(v),
        cbor_sized(v),
        0 <= i,
        i + cbor_bytes(v).len() <= b.len(),
        b.subrange(i, i + cbor_bytes(v).len()) == cbor_bytes(v),
    ensures
        cp_val(b, i) == Option::Some((v, i + cbor_bytes(v).len())),
    decreases v, 1int,
{
    let j = cbor_bytes(v);
    let k = j.len() as int;
    assert forall|m: int| 0 <= m < k implies b[i + m] == j[m] by {
        assert(b.subrange(i, i + k)[m] == b[i + m]);
    }
    match v {
        ValView::Null => {
            assert(j =~= seq![0xF6u8]);
            assert(b[i + 0] == j[0]);
            assert(b[i] == 0xF6);
            assert(cp_head(b, i) == Option::Some((7u8, 22u64, i + 1)));
        },
        ValView::Bool(t) => {
            if t {
                assert(j =~= seq![0xF5u8]);
                assert(b[i + 0] == j[0]);
                assert(b[i] == 0xF5);
                assert(cp_head(b, i) == Option::Some((7u8, 21u64, i + 1)));
            } else {
                assert(j =~= seq![0xF4u8]);
                assert(b[i + 0] == j[0]);
                assert(b[i] == 0xF4);
                assert(cp_head(b, i) == Option::Some((7u8, 20u64, i + 1)));
            }
        },
        ValView::Uint(n) => {
            lemma_cbor_head_roundtrip(b, i, 0, n);
        },
        ValView::Num(_) => {},
        ValView::Text(s) => {
            let body = vstd::utf8::encode_utf8(s);
            let h = cbor_head(3, body.len() as u64);
            assert(b.subrange(i, i + h.len()) =~= h) by {
                assert forall|m: int| 0 <= m < h.len() implies b.subrange(i, i + h.len())[m]
                    == h[m] by {
                    assert(b.subrange(i, i + h.len())[m] == b[i + m]);
                    assert(j[m] == (h + body)[m]);
                }
            }
            lemma_cbor_head_roundtrip(b, i, 3, body.len() as u64);
            let next = i + h.len();
            assert(b.subrange(next, next + body.len()) =~= body) by {
                assert forall|m: int| 0 <= m < body.len() implies b.subrange(
                    next,
                    next + body.len(),
                )[m] == body[m] by {
                    assert(b.subrange(next, next + body.len())[m] == b[next + m]);
                    assert(j[h.len() + m] == (h + body)[h.len() + m]);
                }
            }
            vstd::utf8::encode_utf8_valid_utf8(s);
            vstd::utf8::encode_utf8_decode_utf8(s);
        },
        ValView::List(l) => {
            let h = cbor_head(4, l.len() as u64);
            assert(b.subrange(i, i + h.len()) =~= h) by {
                assert forall|m: int| 0 <= m < h.len() implies b.subrange(i, i + h.len())[m]
                    == h[m] by {
                    assert(b.subrange(i, i + h.len())[m] == b[i + m]);
                    assert(j[m] == (h + cbor_items(l))[m]);
                }
            }
            lemma_cbor_head_roundtrip(b, i, 4, l.len() as u64);
            let next = i + h.len();
            assert(b.subrange(next, next + cbor_items(l).len()) =~= cbor_items(l)) by {
                assert forall|m: int| 0 <= m < cbor_items(l).len() implies b.subrange(
                    next,
                    next + cbor_items(l).len(),
                )[m] == cbor_items(l)[m] by {
                    assert(b.subrange(next, next + cbor_items(l).len())[m] == b[next + m]);
                    assert(j[h.len() + m] == (h + cbor_items(l))[h.len() + m]);
                }
            }
            assert(decreases_to!(v => l));
            lemma_cbor_items_roundtrip(b, next, l);
        },
        ValView::Object(o) => {
            let h = cbor_head(5, o.len() as u64);
            assert(b.subrange(i, i + h.len()) =~= h) by {
                assert forall|m: int| 0 <= m < h.len() implies b.subrange(i, i + h.len())[m]
                    == h[m] by {
                    assert(b.subrange(i, i + h.len())[m] == b[i + m]);
                    assert(j[m] == (h + cbor_entries(o))[m]);
                }
            }
            lemma_cbor_head_roundtrip(b, i, 5, o.len() as u64);
            let next = i + h.len();
            assert(b.subrange(next, next + cbor_entries(o).len()) =~= cbor_entries(o)) by {
                assert forall|m: int| 0 <= m < cbor_entries(o).len() implies b.subrange(
                    next,
                    next + cbor_entries(o).len(),
                )[m] == cbor_entries(o)[m] by {
                    assert(b.subrange(next, next + cbor_entries(o).len())[m] == b[next + m]);
                    assert(j[h.len() + m] == (h + cbor_entries(o))[h.len() + m]);
                }
            }
            assert(decreases_to!(v => o));
            lemma_cbor_entries_roundtrip(b, next, o);
        },
    }
}

/// Parsing the emitted items of an array gives the items back.
proof fn lemma_cbor_items_roundtrip(b: Seq<u8>, j0: int, l: Seq<ValView>)
    requires
        crate::json::val_seq_simple(l),
        cbor_seq_sized(l),
        l.len() <= 0xFFFF_FFFF_FFFF_FFFF,
        0 <= j0,
        j0 + cbor_items(l).len() <= b.len(),
        b.subrange(j0, j0 + cbor_items(l).len()) == cbor_items(l),
    ensures
        cp_items(b, j0, l.len() as u64) == Option::Some((l, j0 + cbor_items(l).len())),
    decreases l, 0int,
{
    if l.len() == 0 {
        assert(cbor_items(l) =~= Seq::<u8>::empty());
    } else {
        let v0 = l.first();
        let k0 = cbor_bytes(v0).len() as int;
        let rest = cbor_items(l.drop_first());
        assert(cbor_items(l) == cbor_bytes(v0) + rest);
        assert forall|m: int| 0 <= m < cbor_items(l).len() implies b[j0 + m] == cbor_items(
            l,
        )[m] by {
            assert(b.subrange(j0, j0 + cbor_items(l).len())[m] == b[j0 + m]);
        }
        assert(b.subrange(j0, j0 + k0) =~= cbor_bytes(v0)) by {
            assert forall|m: int| 0 <= m < k0 implies b.subrange(j0, j0 + k0)[m] == cbor_bytes(
                v0,
            )[m] by {
                assert(b.subrange(j0, j0 + k0)[m] == b[j0 + m]);
                assert(cbor_items(l)[m] == (cbor_bytes(v0) + rest)[m]);
            }
        }
        broadcast use vstd::seq::axiom_seq_index_decreases;

        assert(decreases_to!(l => l[0]));
        lemma_cbor_val_roundtrip(b, j0, v0);
        assert(b.subrange(j0 + k0, j0 + k0 + rest.len()) =~= rest) by {
            assert forall|m: int| 0 <= m < rest.len() implies b.subrange(
                j0 + k0,
                j0 + k0 + rest.len(),
            )[m] == rest[m] by {
                assert(b.subrange(j0 + k0, j0 + k0 + rest.len())[m] == b[j0 + k0 + m]);
                assert(cbor_items(l)[k0 + m] == (cbor_bytes(v0) + rest)[k0 + m]);
            }
        }
        assert(decreases_to!(l => l.subrange(1, l.len() as int)));
        lemma_cbor_items_roundtrip(b, j0 + k0, l.drop_first());
        assert(cbor_bytes(v0).len() >= 1) by {
            lemma_cbor_nonempty(v0);
        }
        assert(seq![v0] + l.drop_first() =~= l);
    }
}

/// Parsing the emitted entries of a map gives the entries back.
#[verifier::rlimit(100)]
proof fn lemma_cbor_entries_roundtrip(b: Seq<u8>, j0: int, o: Seq<(Seq<char>, ValView)>)
    requires
        crate::json::val_obj_simple(o),
        cbor_obj_sized(o),
        o.len() <= 0xFFFF_FFFF_FFFF_FFFF,
        0 <= j0,
        j0 + cbor_entries(o).len() <= b.len(),
        b.subrange(j0, j0 + cbor_entries(o).len()) == cbor_entries(o),
    ensures
        cp_entries(b, j0, o.len() as u64) == Option::Some((o, j0 + cbor_entries(o).len())),
    decreases o, 0int,
{
    if o.len() == 0 {
        assert(cbor_entries(o) =~= Seq::<u8>::empty());
    } else {
        let e0 = o.first();
        let body = vstd::utf8::encode_utf8(e0.0);
        let h = cbor_head(3, body.len() as u64);
        let kv = cbor_bytes(e0.1).len() as int;
        let rest = cbor_entries(o.drop_first());
        assert(cbor_entries(o) == h + body + cbor_bytes(e0.1) + rest);
        assert forall|m: int| 0 <= m < cbor_entries(o).len() implies b[j0 + m] == cbor_entries(
            o,
        )[m] by {
            assert(b.subrange(j0, j0 + cbor_entries(o).len())[m] == b[j0 + m]);
        }
        assert(b.subrange(j0, j0 + h.len()) =~= h) by {
            assert forall|m: int| 0 <= m < h.len() implies b.subrange(j0, j0 + h.len())[m]
                == h[m] by {
                assert(b.subrange(j0, j0 + h.len())[m] == b[j0 + m]);
                assert(cbor_entries(o)[m] == (h + body + cbor_bytes(e0.1) + rest)[m]);
            }
        }
        lemma_cbor_head_roundtrip(b, j0, 3, body.len() as u64);
        let next = j0 + h.len();
        assert(b.subrange(next, next + body.len()) =~= body) by {
            assert forall|m: int| 0 <= m < body.len() implies b.subrange(
                next,
                next + body.len(),
            )[m] == body[m] by {
                assert(b.subrange(next, next + body.len())[m] == b[next + m]);
                assert(cbor_entries(o)[h.len() + m] == (h + body + cbor_bytes(e0.1) + rest)[h.len()
                    + m]);
            }
        }
        vstd::utf8::encode_utf8_valid_utf8(e0.0);
        vstd::utf8::encode_utf8_decode_utf8(e0.0);
        let vstart = next + body.len();
        assert(b.subrange(vstart, vstart + kv) =~= cbor_bytes(e0.1)) by {
            assert forall|m: int| 0 <= m < kv implies b.subrange(vstart, vstart + kv)[m]
                == cbor_bytes(e0.1)[m] by {
                assert(b.subrange(vstart, vstart + kv)[m] == b[vstart + m]);
                assert(cbor_entries(o)[h.len() + body.len() + m] == (h + body + cbor_bytes(e0.1)
                    + rest)[h.len() + body.len() + m]);
            }
        }
        broadcast use vstd::seq::axiom_seq_index_decreases;

        assert(decreases_to!(o => o[0]));
        assert(decreases_to!(o[0] => o[0].1));
        lemma_cbor_val_roundtrip(b, vstart, e0.1);
        assert(b.subrange(vstart + kv, vstart + kv + rest.len()) =~= rest) by {
            assert forall|m: int| 0 <= m < rest.len() implies b.subrange(
                vstart + kv,
                vstart + kv + rest.len(),
            )[m] == rest[m] by {
                assert(b.subrange(vstart + kv, vstart + kv + rest.len())[m] == b[vstart + kv + m]);
                assert(cbor_entries(o)[h.len() + body.len() + kv + m] == (h + body + cbor_bytes(
                    e0.1,
                ) + rest)[h.len() + body.len() + kv + m]);
            }
        }
        assert(decreases_to!(o => o.subrange(1, o.len() as int)));
        lemma_cbor_entries_roundtrip(b, vstart + kv, o.drop_first());
        assert(seq![(vstd::utf8::decode_utf8(body), e0.1)] + o.drop_first() =~= o);
    }
}

/// No wire value encodes to nothing but a rejected lexical number.
proof fn lemma_cbor_nonempty(v: ValView)
    requires
        crate::json::val_simple(v),
    ensures
        cbor_bytes(v).len() >= 1,
{
}

/// Parsing the emitted bytes of a simple value gives the value back: the
/// CBOR codec loses nothing on the values it can carry.
pub proof fn lemma_cbor_roundtrip(v: ValView)
    requires
        crate::json::val_simple(v),
        cbor_sized(v),
    ensures
        cbor_value_of(cbor_bytes(v)) == Option::Some(v),
{
    let b = cbor_bytes(v);
    assert(b.subrange(0, b.len() as int) =~= b);
    lemma_cbor_val_roundtrip(b, 0, v);
}

} // verus!
