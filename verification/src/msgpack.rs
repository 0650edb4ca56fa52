//! The MsgPack wire codec: payload values as canonical binary items.
//! Numbers carried lexically have no binary form, and string and
//! container lengths must fit 32 bits; within that, encoding is exact.

use vstd::prelude::*;
use crate::cbor::{be_val, be_bytes};
use crate::types::PayloadValue;
use crate::value::{view_val, ValView};

verus! {

/// The MsgPack bytes of an unsigned integer, in the smallest form.
pub open spec fn mp_uint(n: u64) -> Seq<u8> {
    if n < 0x80 {
        seq![n as u8]
    } else if n <= 0xFF {
        seq![0xCCu8] + be_bytes(n, 1)
    } else if n <= 0xFFFF {
        seq![0xCDu8] + be_bytes(n, 2)
    } else if n <= 0xFFFF_FFFF {
        seq![0xCEu8] + be_bytes(n, 4)
    } else {
        seq![0xCFu8] + be_bytes(n, 8)
    }
}

/// The header of a string of the given byte length, in the smallest form.
pub open spec fn mp_strhead(n: u64) -> Seq<u8>
    recommends
        n <= 0xFFFF_FFFF,
{
    if n < 32 {
        seq![(0xA0 + n) as u8]
    } else if n <= 0xFF {
        seq![0xD9u8] + be_bytes(n, 1)
    } else if n <= 0xFFFF {
        seq![0xDAu8] + be_bytes(n, 2)
    } else {
        seq![0xDBu8] + be_bytes(n, 4)
    }
}

/// The header of an array of the given element count.
pub open spec fn mp_arrayhead(n: u64) -> Seq<u8>
    recommends
        n <= 0xFFFF_FFFF,
{
    if n < 16 {
        seq![(0x90 + n) as u8]
    } else if n <= 0xFFFF {
        seq![0xDCu8] + be_bytes(n, 2)
    } else {
        seq![0xDDu8] + be_bytes(n, 4)
    }
}

/// The header of a map of the given entry count.
pub open spec fn mp_maphead(n: u64) -> Seq<u8>
    recommends
        n <= 0xFFFF_FFFF,
{
    if n < 16 {
        seq![(0x80 + n) as u8]
    } else if n <= 0xFFFF {
        seq![0xDEu8] + be_bytes(n, 2)
    } else {
        seq![0xDFu8] + be_bytes(n, 4)
    }
}

/// A value MsgPack can carry: no lexical numbers, and every string and
/// container short enough for a 32-bit length.
pub open spec fn mp_emittable(v: ValView) -> bool
    decreases v, 1int,
    via mp_emittable_decreases
{
    match v {
        ValView::Num(_) => false,
        ValView::Text(s) => vstd::utf8::encode_utf8(s).len() <= 0xFFFF_FFFF,
        ValView::List(l) => l.len() <= 0xFFFF_FFFF && mp_seq_emittable(l),
        ValView::Object(o) => o.len() <= 0xFFFF_FFFF && mp_obj_emittable(o),
        _ => true,
    }
}

/// Every element is emittable.
pub open spec fn mp_seq_emittable(l: Seq<ValView>) -> bool
    decreases l, 0int,
    via mp_seq_emittable_decreases
{
    if l.len() == 0 {
        true
    } else {
        mp_emittable(l.first()) && mp_seq_emittable(l.drop_first())
    }
}

/// Every entry has a short enough key and an emittable value.
pub open spec fn mp_obj_emittable(o: Seq<(Seq<char>, ValView)>) -> bool
    decreases o, 0int,
    via mp_obj_emittable_decreases
{
    if o.len() == 0 {
        true
    } else {
        vstd::utf8::encode_utf8(o.first().0).len() <= 0xFFFF_FFFF && mp_emittable(o.first().1)
            && mp_obj_emittable(o.drop_first())
    }
}

#[via_fn]
proof fn mp_emittable_decreases(v: ValView) {
    match v {
        ValView::List(l) => {
            assert(decreases_to!(v => l));
        },
        ValView::Object(o) => {
            assert(decreases_to!(v => o));
        },
        _ => {},
    }
}

#[via_fn]
proof fn mp_seq_emittable_decreases(l: Seq<ValView>) {
    broadcast use vstd::seq::axiom_seq_index_decreases;

    if l.len() > 0 {
        assert(decreases_to!(l => l[0]));
        assert(decreases_to!(l => l.subrange(1, l.len() as int)));
    }
}

#[via_fn]
proof fn mp_obj_emittable_decreases(o: Seq<(Seq<char>, ValView)>) {
    broadcast use vstd::seq::axiom_seq_index_decreases;

    if o.len() > 0 {
        assert(decreases_to!(o => o[0]));
        assert(decreases_to!(o[0] => o[0].1));
        assert(decreases_to!(o => o.subrange(1, o.len() as int)));
    }
}

/// The MsgPack bytes of an emittable payload value.
pub open spec fn mp_bytes(v: ValView) -> Seq<u8>
    decreases v, 1int,
    via mp_bytes_decreases
{
    match v {
        ValView::Null => seq![0xC0u8],
        ValView::Bool(b) => if b {
            seq![0xC3u8]
        } else {
            seq![0xC2u8]
        },
        ValView::Uint(n) => mp_uint(n),
        ValView::Num(_) => Seq::empty(),
        ValView::Text(s) => mp_strhead(vstd::utf8::encode_utf8(s).len() as u64)
            + vstd::utf8::encode_utf8(s),
        ValView::List(l) => mp_arrayhead(l.len() as u64) + mp_items(l),
        ValView::Object(o) => mp_maphead(o.len() as u64) + mp_entries(o),
    }
}

/// The concatenated items of an array.
pub open spec fn mp_items(l: Seq<ValView>) -> Seq<u8>
    decreases l, 0int,
    via mp_items_decreases
{
    if l.len() == 0 {
        Seq::empty()
    } else {
        mp_bytes(l.first()) + mp_items(l.drop_first())
    }
}

/// The concatenated key/value pairs of a map.
pub open spec fn mp_entries(o: Seq<(Seq<char>, ValView)>) -> Seq<u8>
    decreases o, 0int,
    via mp_entries_decreases
{
    if o.len() == 0 {
        Seq::empty()
    } else {
        mp_strhead(vstd::utf8::encode_utf8(o.first().0).len() as u64) + vstd::utf8::encode_utf8(
            o.first().0,
        ) + mp_bytes(o.first().1) + mp_entries(o.drop_first())
    }
}

#[via_fn]
proof fn mp_bytes_decreases(v: ValView) {
    match v {
        ValView::List(l) => {
            assert(decreases_to!(v => l));
        },
        ValView::Object(o) => {
            assert(decreases_to!(v => o));
        },
        _ => {},
    }
}

#[via_fn]
proof fn mp_items_decreases(l: Seq<ValView>) {
    broadcast use vstd::seq::axiom_seq_index_decreases;

    if l.len() > 0 {
        assert(decreases_to!(l => l[0]));
        assert(decreases_to!(l => l.subrange(1, l.len() as int)));
    }
}

#[via_fn]
proof fn mp_entries_decreases(o: Seq<(Seq<char>, ValView)>) {
    broadcast use vstd::seq::axiom_seq_index_decreases;

    if o.len() > 0 {
        assert(decreases_to!(o => o[0]));
        assert(decreases_to!(o[0] => o[0].1));
        assert(decreases_to!(o => o.subrange(1, o.len() as int)));
    }
}

/// Writes the big-endian bytes of an integer in the given width.
#[verifier::rlimit(100)]
fn emit_be(n: u64, width: u8, out: &mut Vec<u8>)
    requires
        width == 1 || width == 2 || width == 4 || width == 8,
    ensures
        final(out)@ == old(out)@ + be_bytes(n, width as int),
{
    proof {
        reveal_with_fuel(be_bytes, 9);
    }
    if width == 1 {
        out.push((n % 256) as u8);
        proof {
            assert(out@ =~= old(out)@ + be_bytes(n, 1));
        }
    } else if width == 2 {
        out.push(((n / 0x100) % 256) as u8);
        out.push((n % 256) as u8);
        proof {
            assert(out@ =~= old(out)@ + be_bytes(n, 2));
        }
    } else if width == 4 {
        out.push(((n / 0x100_0000) % 256) as u8);
        out.push(((n / 0x1_0000) % 256) as u8);
        out.push(((n / 0x100) % 256) as u8);
        out.push((n % 256) as u8);
        proof {
            assert(out@ =~= old(out)@ + be_bytes(n, 4));
        }
    } else {
        out.push(((n / 0x100_0000_0000_0000) % 256) as u8);
        out.push(((n / 0x1_0000_0000_0000) % 256) as u8);
        out.push(((n / 0x100_0000_0000) % 256) as u8);
        out.push(((n / 0x1_0000_0000) % 256) as u8);
        out.push(((n / 0x100_0000) % 256) as u8);
        out.push(((n / 0x1_0000) % 256) as u8);
        out.push(((n / 0x100) % 256) as u8);
        out.push((n % 256) as u8);
        proof {
            assert(out@ =~= old(out)@ + be_bytes(n, 8));
        }
    }
}

/// Writes a string item: the length header, then the bytes.
#[verifier::loop_isolation(false)]
fn emit_text(s: &String, out: &mut Vec<u8>) -> (r: bool)
    ensures
        r == (vstd::utf8::encode_utf8(s@).len() <= 0xFFFF_FFFF),
        r ==> final(out)@ == old(out)@ + mp_strhead(vstd::utf8::encode_utf8(s@).len() as u64)
            + vstd::utf8::encode_utf8(s@),
        !r ==> final(out)@ == old(out)@,
{
    let bytes = s.as_str().as_bytes();
    let ghost all = bytes@;
    if bytes.len() > 0xFFFF_FFFFusize {
        return false;
    }
    let n = bytes.len() as u64;
    if n < 32 {
        out.push(0xA0 + (n as u8));
        proof {
            assert(out@ =~= old(out)@ + mp_strhead(all.len() as u64));
        }
    } else if n <= 0xFF {
        out.push(0xD9);
        emit_be(n, 1, out);
        proof {
            assert(out@ =~= old(out)@ + mp_strhead(all.len() as u64));
        }
    } else if n <= 0xFFFF {
        out.push(0xDA);
        emit_be(n, 2, out);
        proof {
            assert(out@ =~= old(out)@ + mp_strhead(all.len() as u64));
        }
    } else {
        out.push(0xDB);
        emit_be(n, 4, out);
        proof {
            assert(out@ =~= old(out)@ + mp_strhead(all.len() as u64));
        }
    }
    let ghost mid = out@;
    let mut i: usize = 0;
    while i < bytes.len()
        invariant
            0 <= i <= all.len(),
            bytes@ == all,
            all == vstd::utf8::encode_utf8(s@),
            out@ == mid + all.take(i as int),
        decreases all.len() - i,
    {
        out.push(bytes[i]);
        proof {
            assert(out@ =~= mid + all.take(i + 1));
        }
        i = i + 1;
    }
    proof {
        assert(all.take(all.len() as int) =~= all);
    }
    true
}

/// Appends built bytes.
#[verifier::loop_isolation(false)]
fn append_bytes(out: &mut Vec<u8>, body: &Vec<u8>)
    ensures
        final(out)@ == old(out)@ + body@,
{
    let mut i: usize = 0;
    while i < body.len()
        invariant
            0 <= i <= body@.len(),
            out@ == old(out)@ + body@.take(i as int),
        decreases body@.len() - i,
    {
        out.push(body[i]);
        proof {
            assert(out@ =~= old(out)@ + body@.take(i + 1));
        }
        i = i + 1;
    }
    proof {
        assert(body@.take(body@.len() as int) =~= body@);
    }
}

/// Encodes an emittable payload value as MsgPack; a value carrying a
/// lexical number, or one too large for a 32-bit length, is rejected.
#[verifier::loop_isolation(false)]
#[verifier::rlimit(100)]
pub fn mp_emit_val(v: &PayloadValue, out: &mut Vec<u8>) -> (r: bool)
    ensures
        r == mp_emittable(view_val(*v)),
        r ==> final(out)@ == old(out)@ + mp_bytes(view_val(*v)),
        !r ==> final(out)@ == old(out)@,
    decreases v,
{
    match v {
        PayloadValue::Null => {
            out.push(0xC0);
            proof {
                assert(out@ =~= old(out)@ + mp_bytes(view_val(*v)));
            }
            true
        },
        PayloadValue::Bool(b) => {
            out.push(if *b {
                0xC3
            } else {
                0xC2
            });
            proof {
                assert(out@ =~= old(out)@ + mp_bytes(view_val(*v)));
            }
            true
        },
        PayloadValue::Uint(n) => {
            proof {
                reveal_with_fuel(be_bytes, 9);
            }
            if *n < 0x80 {
                out.push(*n as u8);
                proof {
                    assert(out@ =~= old(out)@ + mp_uint(n@));
                }
            } else if *n <= 0xFF {
                out.push(0xCC);
                emit_be(*n, 1, out);
                proof {
                    assert(out@ =~= old(out)@ + mp_uint(n@));
                }
            } else if *n <= 0xFFFF {
                out.push(0xCD);
                emit_be(*n, 2, out);
                proof {
                    assert(out@ =~= old(out)@ + mp_uint(n@));
                }
            } else if *n <= 0xFFFF_FFFF {
                out.push(0xCE);
                emit_be(*n, 4, out);
                proof {
                    assert(out@ =~= old(out)@ + mp_uint(n@));
                }
            } else {
                out.push(0xCF);
                emit_be(*n, 8, out);
                proof {
                    assert(out@ =~= old(out)@ + mp_uint(n@));
                }
            }
            true
        },
        PayloadValue::Num(_) => false,
        PayloadValue::Text(s) => emit_text(s, out),
        PayloadValue::List(l) => {
            let mut body: Vec<u8> = Vec::new();
            let ghost lv = crate::value::view_val_seq(l@);
            proof {
                crate::value::lemma_view_val_seq(l@);
            }
            if l.len() > 0xFFFF_FFFFusize {
                return false;
            }
            let mut i: usize = 0;
            while i < l.len()
                invariant
                    0 <= i <= l@.len(),
                    lv.len() == l@.len(),
                    forall|j: int| 0 <= j < l@.len() ==> #[trigger] lv[j] == view_val(l@[j]),
                    mp_seq_emittable(lv.take(i as int)),
                    body@ == mp_items(lv.take(i as int)),
                decreases l@.len() - i,
            {
                proof {
                    broadcast use vstd::std_specs::vec::group_vec_axioms, vstd::seq::axiom_seq_index_decreases;

                    assert(decreases_to!(*l => l@));
                    assert(decreases_to!(l@ => l@[i as int]));
                }
                let ok = mp_emit_val(&l[i], &mut body);
                if !ok {
                    proof {
                        lemma_mp_seq_emittable_prefix(lv, i as int);
                    }
                    return false;
                }
                proof {
                    lemma_mp_items_snoc(lv, i as int);
                    lemma_mp_seq_emittable_snoc(lv, i as int);
                }
                i = i + 1;
            }
            proof {
                assert(lv.take(lv.len() as int) =~= lv);
            }
            let ghost pre = out@;
            let n = l.len() as u64;
            if n < 16 {
                out.push(0x90 + (n as u8));
            } else if n <= 0xFFFF {
                out.push(0xDC);
                emit_be(n, 2, out);
            } else {
                out.push(0xDD);
                emit_be(n, 4, out);
            }
            append_bytes(out, &body);
            proof {
                assert(out@ =~= pre + mp_bytes(view_val(*v)));
            }
            true
        },
        PayloadValue::Object(o) => {
            let mut body: Vec<u8> = Vec::new();
            let ghost ov = crate::value::view_val_obj(o@);
            proof {
                crate::value::lemma_view_val_obj(o@);
            }
            if o.len() > 0xFFFF_FFFFusize {
                return false;
            }
            let mut i: usize = 0;
            while i < o.len()
                invariant
                    0 <= i <= o@.len(),
                    ov.len() == o@.len(),
                    forall|j: int|
                        0 <= j < o@.len() ==> #[trigger] ov[j] == (o@[j].0@, view_val(o@[j].1)),
                    mp_obj_emittable(ov.take(i as int)),
                    body@ == mp_entries(ov.take(i as int)),
                decreases o@.len() - i,
            {
                proof {
                    broadcast use vstd::std_specs::vec::group_vec_axioms, vstd::seq::axiom_seq_index_decreases;

                    assert(decreases_to!(*o => o@));
                    assert(decreases_to!(o@ => o@[i as int]));
                    assert(decreases_to!(o@[i as int] => o@[i as int].1));
                }
                let kok = emit_text(&o[i].0, &mut body);
                if !kok {
                    proof {
                        lemma_mp_obj_emittable_prefix(ov, i as int);
                    }
                    return false;
                }
                let ok = mp_emit_val(&o[i].1, &mut body);
                if !ok {
                    proof {
                        lemma_mp_obj_emittable_prefix(ov, i as int);
                    }
                    return false;
                }
                proof {
                    lemma_mp_entries_snoc(ov, i as int);
                    lemma_mp_obj_emittable_snoc(ov, i as int);
                }
                i = i + 1;
            }
            proof {
                assert(ov.take(ov.len() as int) =~= ov);
            }
            let ghost pre = out@;
            let n = o.len() as u64;
            if n < 16 {
                out.push(0x80 + (n as u8));
            } else if n <= 0xFFFF {
                out.push(0xDE);
                emit_be(n, 2, out);
            } else {
                out.push(0xDF);
                emit_be(n, 4, out);
            }
            append_bytes(out, &body);
            proof {
                assert(out@ =~= pre + mp_bytes(view_val(*v)));
            }
            true
        },
    }
}

/// A failing element leaves the whole sequence out.
proof fn lemma_mp_seq_emittable_prefix(l: Seq<ValView>, i: int)
    requires
        0 <= i < l.len(),
        !mp_emittable(l[i]),
    ensures
        !mp_seq_emittable(l),
    decreases i,
{
    if i == 0 {
    } else {
        lemma_mp_seq_emittable_prefix(l.drop_first(), i - 1);
    }
}

/// An emittable prefix extended by an emittable element stays emittable.
proof fn lemma_mp_seq_emittable_snoc(l: Seq<ValView>, i: int)
    requires
        0 <= i < l.len(),
        mp_seq_emittable(l.take(i)),
        mp_emittable(l[i]),
    ensures
        mp_seq_emittable(l.take(i + 1)),
    decreases i,
{
    if i == 0 {
        reveal_with_fuel(mp_seq_emittable, 3);
        assert(l.take(1).drop_first() =~= Seq::<ValView>::empty());
        assert(l.take(1).first() == l[0]);
    } else {
        assert(l.take(i).first() == l[0]);
        assert(l.take(i).drop_first() =~= l.drop_first().take(i - 1));
        assert(l.drop_first()[i - 1] == l[i]);
        lemma_mp_seq_emittable_snoc(l.drop_first(), i - 1);
        assert(l.take(i + 1).first() == l[0]);
        assert(l.take(i + 1).drop_first() =~= l.drop_first().take(i));
    }
}

/// Emitting one more item appends its bytes.
proof fn lemma_mp_items_snoc(l: Seq<ValView>, i: int)
    requires
        0 <= i < l.len(),
    ensures
        mp_items(l.take(i + 1)) == mp_items(l.take(i)) + mp_bytes(l[i]),
    decreases i,
{
    if i == 0 {
        reveal_with_fuel(mp_items, 3);
        assert(l.take(1).first() == l[0]);
        assert(l.take(1).drop_first() =~= Seq::<ValView>::empty());
        assert(mp_items(l.take(0)) =~= Seq::<u8>::empty());
        assert(mp_items(l.take(1)) =~= mp_items(l.take(0)) + mp_bytes(l[0]));
    } else {
        lemma_mp_items_snoc(l.drop_first(), i - 1);
        assert(l.take(i + 1).first() == l[0]);
        assert(l.take(i + 1).drop_first() =~= l.drop_first().take(i));
        assert(l.take(i).first() == l[0]);
        assert(l.take(i).drop_first() =~= l.drop_first().take(i - 1));
        assert(l.drop_first()[i - 1] == l[i]);
        assert(mp_items(l.take(i + 1)) =~= mp_items(l.take(i)) + mp_bytes(l[i]));
    }
}

/// A failing entry leaves the whole map out.
proof fn lemma_mp_obj_emittable_prefix(o: Seq<(Seq<char>, ValView)>, i: int)
    requires
        0 <= i < o.len(),
        vstd::utf8::encode_utf8(o[i].0).len() > 0xFFFF_FFFF || !mp_emittable(o[i].1),
    ensures
        !mp_obj_emittable(o),
    decreases i,
{
    if i == 0 {
    } else {
        lemma_mp_obj_emittable_prefix(o.drop_first(), i - 1);
    }
}

/// An emittable prefix extended by an emittable entry stays emittable.
proof fn lemma_mp_obj_emittable_snoc(o: Seq<(Seq<char>, ValView)>, i: int)
    requires
        0 <= i < o.len(),
        mp_obj_emittable(o.take(i)),
        vstd::utf8::encode_utf8(o[i].0).len() <= 0xFFFF_FFFF,
        mp_emittable(o[i].1),
    ensures
        mp_obj_emittable(o.take(i + 1)),
    decreases i,
{
    if i == 0 {
        reveal_with_fuel(mp_obj_emittable, 3);
        assert(o.take(1).drop_first() =~= Seq::<(Seq<char>, ValView)>::empty());
        assert(o.take(1).first() == o[0]);
    } else {
        assert(o.take(i).first() == o[0]);
        assert(o.take(i).drop_first() =~= o.drop_first().take(i - 1));
        assert(o.drop_first()[i - 1] == o[i]);
        lemma_mp_obj_emittable_snoc(o.drop_first(), i - 1);
        assert(o.take(i + 1).first() == o[0]);
        assert(o.take(i + 1).drop_first() =~= o.drop_first().take(i));
    }
}

/// Emitting one more entry appends its key and value bytes.
proof fn lemma_mp_entries_snoc(o: Seq<(Seq<char>, ValView)>, i: int)
    requires
        0 <= i < o.len(),
    ensures
        mp_entries(o.take(i + 1)) == mp_entries(o.take(i)) + mp_strhead(
            vstd::utf8::encode_utf8(o[i].0).len() as u64,
        ) + vstd::utf8::encode_utf8(o[i].0) + mp_bytes(o[i].1),
    decreases i,
{
    if i == 0 {
        reveal_with_fuel(mp_entries, 3);
        assert(o.take(1).first() == o[0]);
        assert(o.take(1).drop_first() =~= Seq::<(Seq<char>, ValView)>::empty());
        assert(mp_entries(o.take(0)) =~= Seq::<u8>::empty());
        assert(mp_entries(o.take(1)) =~= mp_entries(o.take(0)) + mp_strhead(
            vstd::utf8::encode_utf8(o[0].0).len() as u64,
        ) + vstd::utf8::encode_utf8(o[0].0) + mp_bytes(o[0].1));
    } else {
        lemma_mp_entries_snoc(o.drop_first(), i - 1);
        assert(o.take(i + 1).first() == o[0]);
        assert(o.take(i + 1).drop_first() =~= o.drop_first().take(i));
        assert(o.take(i).first() == o[0]);
        assert(o.take(i).drop_first() =~= o.drop_first().take(i - 1));
        assert(o.drop_first()[i - 1] == o[i]);
        assert(mp_entries(o.take(i + 1)) =~= mp_entries(o.take(i)) + mp_strhead(
            vstd::utf8::encode_utf8(o[i].0).len() as u64,
        ) + vstd::utf8::encode_utf8(o[i].0) + mp_bytes(o[i].1));
    }
}

/// Reads a string header: the byte length and the position past the
/// header, in canonical form only.
pub open spec fn mp_p_strhead(b: Seq<u8>, i: int) -> Option<(u64, int)> {
    if i < 0 || i >= b.len() {
        Option::None
    } else {
        let fb = b[i];
        if 0xA0 <= fb && fb <= 0xBF {
            Option::Some(((fb - 0xA0) as u64, i + 1))
        } else if fb == 0xD9 {
            if i + 2 <= b.len() && b[i + 1] >= 32 {
                Option::Some((b[i + 1] as u64, i + 2))
            } else {
                Option::None
            }
        } else if fb == 0xDA {
            if i + 3 <= b.len() && be_val(b, i + 1, 2) > 0xFF {
                Option::Some((be_val(b, i + 1, 2) as u64, i + 3))
            } else {
                Option::None
            }
        } else if fb == 0xDB {
            if i + 5 <= b.len() && be_val(b, i + 1, 4) > 0xFFFF {
                Option::Some((be_val(b, i + 1, 4) as u64, i + 5))
            } else {
                Option::None
            }
        } else {
            Option::None
        }
    }
}

/// Parses one MsgPack item starting at `i`. Only the kinds the codec
/// emits are accepted, in canonical form.
pub open spec fn mp_parse(b: Seq<u8>, i: int) -> Option<(ValView, int)>
    decreases b.len() - i, 3int,
    via mp_parse_decreases
{
    if i < 0 || i >= b.len() {
        Option::None
    } else {
        let fb = b[i];
        if fb < 0x80 {
            Option::Some((ValView::Uint(fb as u64), i + 1))
        } else if fb == 0xC0 {
            Option::Some((ValView::Null, i + 1))
        } else if fb == 0xC2 {
            Option::Some((ValView::Bool(false), i + 1))
        } else if fb == 0xC3 {
            Option::Some((ValView::Bool(true), i + 1))
        } else if fb == 0xCC {
            if i + 2 <= b.len() && b[i + 1] >= 0x80 {
                Option::Some((ValView::Uint(b[i + 1] as u64), i + 2))
            } else {
                Option::None
            }
        } else if fb == 0xCD {
            if i + 3 <= b.len() && be_val(b, i + 1, 2) > 0xFF {
                Option::Some((ValView::Uint(be_val(b, i + 1, 2) as u64), i + 3))
            } else {
                Option::None
            }
        } else if fb == 0xCE {
            if i + 5 <= b.len() && be_val(b, i + 1, 4) > 0xFFFF {
                Option::Some((ValView::Uint(be_val(b, i + 1, 4) as u64), i + 5))
            } else {
                Option::None
            }
        } else if fb == 0xCF {
            if i + 9 <= b.len() && be_val(b, i + 1, 8) > 0xFFFF_FFFF {
                Option::Some((ValView::Uint(be_val(b, i + 1, 8) as u64), i + 9))
            } else {
                Option::None
            }
        } else if (0xA0 <= fb && fb <= 0xBF) || fb == 0xD9 || fb == 0xDA || fb == 0xDB {
            match mp_p_strhead(b, i) {
                Option::Some((n, next)) => if next > i && next + n <= b.len()
                    && vstd::utf8::valid_utf8(b.subrange(next, next + n)) {
                    Option::Some(
                        (
                            ValView::Text(vstd::utf8::decode_utf8(b.subrange(next, next + n))),
                            next + n,
                        ),
                    )
                } else {
                    Option::None
                },
                Option::None => Option::None,
            }
        } else if 0x90 <= fb && fb <= 0x9F {
            match mp_p_items(b, i + 1, (fb - 0x90) as u64) {
                Option::Some((l, j)) => Option::Some((ValView::List(l), j)),
                Option::None => Option::None,
            }
        } else if fb == 0xDC {
            if i + 3 <= b.len() && be_val(b, i + 1, 2) >= 16 {
                match mp_p_items(b, i + 3, be_val(b, i + 1, 2) as u64) {
                    Option::Some((l, j)) => Option::Some((ValView::List(l), j)),
                    Option::None => Option::None,
                }
            } else {
                Option::None
            }
        } else if fb == 0xDD {
            if i + 5 <= b.len() && be_val(b, i + 1, 4) > 0xFFFF {
                match mp_p_items(b, i + 5, be_val(b, i + 1, 4) as u64) {
                    Option::Some((l, j)) => Option::Some((ValView::List(l), j)),
                    Option::None => Option::None,
                }
            } else {
                Option::None
            }
        } else if 0x80 <= fb && fb <= 0x8F {
            match mp_p_entries(b, i + 1, (fb - 0x80) as u64) {
                Option::Some((o, j)) => Option::Some((ValView::Object(o), j)),
                Option::None => Option::None,
            }
        } else if fb == 0xDE {
            if i + 3 <= b.len() && be_val(b, i + 1, 2) >= 16 {
                match mp_p_entries(b, i + 3, be_val(b, i + 1, 2) as u64) {
                    Option::Some((o, j)) => Option::Some((ValView::Object(o), j)),
                    Option::None => Option::None,
                }
            } else {
                Option::None
            }
        } else if fb == 0xDF {
            if i + 5 <= b.len() && be_val(b, i + 1, 4) > 0xFFFF {
                match mp_p_entries(b, i + 5, be_val(b, i + 1, 4) as u64) {
                    Option::Some((o, j)) => Option::Some((ValView::Object(o), j)),
                    Option::None => Option::None,
                }
            } else {
                Option::None
            }
        } else {
            Option::None
        }
    }
}

/// Parses `count` items in sequence.
pub open spec fn mp_p_items(b: Seq<u8>, j: int, count: u64) -> Option<(Seq<ValView>, int)>
    decreases b.len() - j, 4int,
    via mp_p_items_decreases
{
    if count == 0 {
        Option::Some((Seq::empty(), j))
    } else {
        match mp_parse(b, j) {
            Option::Some((v, j2)) => if j2 <= j || j2 > b.len() {
                Option::None
            } else {
                match mp_p_items(b, j2, (count - 1) as u64) {
                    Option::Some((l, j3)) => Option::Some((seq![v] + l, j3)),
                    Option::None => Option::None,
                }
            },
            Option::None => Option::None,
        }
    }
}

/// Parses `count` key/value pairs in sequence; keys are string items.
pub open spec fn mp_p_entries(b: Seq<u8>, j: int, count: u64) -> Option<
    (Seq<(Seq<char>, ValView)>, int),
>
    decreases b.len() - j, 4int,
    via mp_p_entries_decreases
{
    if count == 0 {
        Option::Some((Seq::empty(), j))
    } else {
        match mp_p_strhead(b, j) {
            Option::Some((n, next)) => if next <= j || next + n > b.len() || !vstd::utf8::valid_utf8(
                b.subrange(next, next + n),
            ) {
                Option::None
            } else {
                let key = vstd::utf8::decode_utf8(b.subrange(next, next + n));
                match mp_parse(b, next + n) {
                    Option::Some((v, j2)) => if j2 <= next + n || j2 > b.len() {
                        Option::None
                    } else {
                        match mp_p_entries(b, j2, (count - 1) as u64) {
                            Option::Some((o, j3)) => Option::Some((seq![(key, v)] + o, j3)),
                            Option::None => Option::None,
                        }
                    },
                    Option::None => Option::None,
                }
            },
            Option::None => Option::None,
        }
    }
}

#[via_fn]
proof fn mp_parse_decreases(b: Seq<u8>, i: int) {
}

#[via_fn]
proof fn mp_p_items_decreases(b: Seq<u8>, j: int, count: u64) {
}

#[via_fn]
proof fn mp_p_entries_decreases(b: Seq<u8>, j: int, count: u64) {
}

/// Reads a string header.
fn p_strhead(b: &Vec<u8>, i: usize) -> (r: Result<(u64, usize), ()>)
    requires
        i <= b@.len(),
    ensures
        match r {
            Result::Ok(h) => mp_p_strhead(b@, i as int) == Option::Some((h.0, h.1 as int)) && i
                < h.1 <= b@.len(),
            Result::Err(_) => mp_p_strhead(b@, i as int) is None,
        },
{
    let n = b.len();
    if i >= n {
        return Result::Err(());
    }
    let fb = b[i];
    if 0xA0 <= fb && fb <= 0xBF {
        Result::Ok(((fb - 0xA0) as u64, i + 1))
    } else if fb == 0xD9 {
        if n - i >= 2 && b[i + 1] >= 32 {
            Result::Ok((b[i + 1] as u64, i + 2))
        } else {
            Result::Err(())
        }
    } else if fb == 0xDA {
        if n - i >= 3 {
            let v: u64 = (b[i + 1] as u64) * 0x100 + (b[i + 2] as u64);
            proof {
                reveal_with_fuel(be_val, 9);
            }
            if v > 0xFF {
                Result::Ok((v, i + 3))
            } else {
                Result::Err(())
            }
        } else {
            Result::Err(())
        }
    } else if fb == 0xDB {
        if n - i >= 5 {
            let v: u64 = (b[i + 1] as u64) * 0x100_0000 + (b[i + 2] as u64) * 0x1_0000 + (
            b[i + 3] as u64) * 0x100 + (b[i + 4] as u64);
            proof {
                reveal_with_fuel(be_val, 9);
            }
            if v > 0xFFFF {
                Result::Ok((v, i + 5))
            } else {
                Result::Err(())
            }
        } else {
            Result::Err(())
        }
    } else {
        Result::Err(())
    }
}

/// Copies a byte range out of the input and decodes it as text.
#[verifier::loop_isolation(false)]
fn take_text(b: &Vec<u8>, from: usize, to: usize) -> (r: Option<String>)
    requires
        from <= to <= b@.len(),
    ensures
        match r {
            Option::Some(s) => vstd::utf8::valid_utf8(b@.subrange(from as int, to as int)) && s@
                == vstd::utf8::decode_utf8(b@.subrange(from as int, to as int)),
            Option::None => !vstd::utf8::valid_utf8(b@.subrange(from as int, to as int)),
        },
{
    let mut out: Vec<u8> = Vec::new();
    let mut k: usize = from;
    while k < to
        invariant
            from <= k <= to,
            out@ =~= b@.subrange(from as int, k as int),
        decreases to - k,
    {
        out.push(b[k]);
        proof {
            assert(out@ =~= b@.subrange(from as int, k + 1));
        }
        k = k + 1;
    }
    crate::json::string_from_utf8(out)
}

/// Parses one MsgPack item starting at `i`.
#[verifier::loop_isolation(false)]
#[verifier::rlimit(100)]
pub fn mp_p_val(b: &Vec<u8>, i: usize) -> (r: Result<(PayloadValue, usize), ()>)
    requires
        i <= b@.len(),
    ensures
        match r {
            Result::Ok(p) => mp_parse(b@, i as int) == Option::Some((view_val(p.0), p.1 as int))
                && i < p.1 <= b@.len(),
            Result::Err(_) => mp_parse(b@, i as int) is None,
        },
    decreases b@.len() - i, 0int,
{
    let n = b.len();
    if i >= n {
        return Result::Err(());
    }
    let fb = b[i];
    if fb < 0x80 {
        Result::Ok((PayloadValue::Uint(fb as u64), i + 1))
    } else if fb == 0xC0 {
        Result::Ok((PayloadValue::Null, i + 1))
    } else if fb == 0xC2 {
        Result::Ok((PayloadValue::Bool(false), i + 1))
    } else if fb == 0xC3 {
        Result::Ok((PayloadValue::Bool(true), i + 1))
    } else if fb == 0xCC {
        if n - i >= 2 && b[i + 1] >= 0x80 {
            Result::Ok((PayloadValue::Uint(b[i + 1] as u64), i + 2))
        } else {
            Result::Err(())
        }
    } else if fb == 0xCD {
        if n - i >= 3 {
            let v: u64 = (b[i + 1] as u64) * 0x100 + (b[i + 2] as u64);
            proof {
                reveal_with_fuel(be_val, 9);
            }
            if v > 0xFF {
                Result::Ok((PayloadValue::Uint(v), i + 3))
            } else {
                Result::Err(())
            }
        } else {
            Result::Err(())
        }
    } else if fb == 0xCE {
        if n - i >= 5 {
            let v: u64 = (b[i + 1] as u64) * 0x100_0000 + (b[i + 2] as u64) * 0x1_0000 + (
            b[i + 3] as u64) * 0x100 + (b[i + 4] as u64);
            proof {
                reveal_with_fuel(be_val, 9);
            }
            if v > 0xFFFF {
                Result::Ok((PayloadValue::Uint(v), i + 5))
            } else {
                Result::Err(())
            }
        } else {
            Result::Err(())
        }
    } else if fb == 0xCF {
        if n - i >= 9 {
            let hi: u64 = (b[i + 1] as u64) * 0x100_0000 + (b[i + 2] as u64) * 0x1_0000 + (
            b[i + 3] as u64) * 0x100 + (b[i + 4] as u64);
            let lo: u64 = (b[i + 5] as u64) * 0x100_0000 + (b[i + 6] as u64) * 0x1_0000 + (
            b[i + 7] as u64) * 0x100 + (b[i + 8] as u64);
            let v: u64 = hi * 0x1_0000_0000 + lo;
            proof {
                reveal_with_fuel(be_val, 9);
                assert(be_val(b@, i + 1, 8) == be_val(b@, i + 1, 4) * 0x1_0000_0000 + be_val(
                    b@,
                    i + 5,
                    4,
                )) by {
                    reveal_with_fuel(be_val, 9);
                }
            }
            if v > 0xFFFF_FFFF {
                Result::Ok((PayloadValue::Uint(v), i + 9))
            } else {
                Result::Err(())
            }
        } else {
            Result::Err(())
        }
    } else if (0xA0 <= fb && fb <= 0xBF) || fb == 0xD9 || fb == 0xDA || fb == 0xDB {
        let (count, next) = match p_strhead(b, i) {
            Result::Ok(h) => h,
            Result::Err(_) => {
                return Result::Err(());
            },
        };
        if count <= (n - next) as u64 {
            let to = next + (count as usize);
            match take_text(b, next, to) {
                Option::Some(s) => Result::Ok((PayloadValue::Text(s), to)),
                Option::None => Result::Err(()),
            }
        } else {
            Result::Err(())
        }
    } else if (0x90 <= fb && fb <= 0x9F) || fb == 0xDC || fb == 0xDD {
        let (count, next): (u64, usize) = if 0x90 <= fb && fb <= 0x9F {
            ((fb - 0x90) as u64, i + 1)
        } else if fb == 0xDC {
            if n - i >= 3 {
                let v: u64 = (b[i + 1] as u64) * 0x100 + (b[i + 2] as u64);
                proof {
                    reveal_with_fuel(be_val, 9);
                }
                if v >= 16 {
                    (v, i + 3)
                } else {
                    return Result::Err(());
                }
            } else {
                return Result::Err(());
            }
        } else {
            if n - i >= 5 {
                let v: u64 = (b[i + 1] as u64) * 0x100_0000 + (b[i + 2] as u64) * 0x1_0000 + (
                b[i + 3] as u64) * 0x100 + (b[i + 4] as u64);
                proof {
                    reveal_with_fuel(be_val, 9);
                }
                if v > 0xFFFF {
                    (v, i + 5)
                } else {
                    return Result::Err(());
                }
            } else {
                return Result::Err(());
            }
        };
        match mp_p_list(b, next, count) {
            Result::Ok((out, cur)) => Result::Ok((PayloadValue::List(out), cur)),
            Result::Err(_) => Result::Err(()),
        }
    } else if (0x80 <= fb && fb <= 0x8F) || fb == 0xDE || fb == 0xDF {
        let (count, next): (u64, usize) = if 0x80 <= fb && fb <= 0x8F {
            ((fb - 0x80) as u64, i + 1)
        } else if fb == 0xDE {
            if n - i >= 3 {
                let v: u64 = (b[i + 1] as u64) * 0x100 + (b[i + 2] as u64);
                proof {
                    reveal_with_fuel(be_val, 9);
                }
                if v >= 16 {
                    (v, i + 3)
                } else {
                    return Result::Err(());
                }
            } else {
                return Result::Err(());
            }
        } else {
            if n - i >= 5 {
                let v: u64 = (b[i + 1] as u64) * 0x100_0000 + (b[i + 2] as u64) * 0x1_0000 + (
                b[i + 3] as u64) * 0x100 + (b[i + 4] as u64);
                proof {
                    reveal_with_fuel(be_val, 9);
                }
                if v > 0xFFFF {
                    (v, i + 5)
                } else {
                    return Result::Err(());
                }
            } else {
                return Result::Err(());
            }
        };
        match mp_p_map(b, next, count) {
            Result::Ok((out, cur)) => Result::Ok((PayloadValue::Object(out), cur)),
            Result::Err(_) => Result::Err(()),
        }
    } else {
        Result::Err(())
    }
}

/// Parses `count` items of an array.
#[verifier::loop_isolation(false)]
#[verifier::rlimit(100)]
fn mp_p_list(b: &Vec<u8>, next: usize, count: u64) -> (r: Result<(Vec<PayloadValue>, usize), ()>)
    requires
        next <= b@.len(),
    ensures
        match r {
            Result::Ok(p) => mp_p_items(b@, next as int, count) == Option::Some(
                (crate::value::view_val_seq(p.0@), p.1 as int),
            ) && next <= p.1 <= b@.len(),
            Result::Err(_) => mp_p_items(b@, next as int, count) is None,
        },
    decreases b@.len() - next, 1int,
{
    let n = b.len();
    let mut out: Vec<PayloadValue> = Vec::new();
    let mut cur: usize = next;
    let mut left: u64 = count;
    loop
        invariant
            next <= cur <= n,
            n == b@.len(),
            left <= count,
            match mp_p_items(b@, cur as int, left) {
                Option::Some(p) => mp_p_items(b@, next as int, count) == Option::Some(
                    (crate::value::view_val_seq(out@) + p.0, p.1),
                ),
                Option::None => mp_p_items(b@, next as int, count) is None,
            },
        decreases left,
    {
        if left == 0 {
            proof {
                assert(mp_p_items(b@, cur as int, 0u64) == Option::Some(
                    (Seq::<ValView>::empty(), cur as int),
                ));
                assert(crate::value::view_val_seq(out@) + Seq::<ValView>::empty()
                    =~= crate::value::view_val_seq(out@));
            }
            return Result::Ok((out, cur));
        }
        match mp_p_val(b, cur) {
            Result::Err(_) => {
                return Result::Err(());
            },
            Result::Ok((v, j2)) => {
                let ghost preout = out@;
                out.push(v);
                proof {
                    crate::json::lemma_view_val_seq_push_pub(preout, v);
                    assert forall|p0: Seq<ValView>|
                        true implies crate::value::view_val_seq(preout) + (seq![view_val(v)] + p0)
                        =~= crate::value::view_val_seq(out@) + p0 by {}
                }
                cur = j2;
                left = left - 1;
            },
        }
    }
}

/// Parses `count` key/value pairs of a map.
#[verifier::loop_isolation(false)]
#[verifier::rlimit(100)]
fn mp_p_map(b: &Vec<u8>, next: usize, count: u64) -> (r: Result<
    (Vec<(String, PayloadValue)>, usize),
    (),
>)
    requires
        next <= b@.len(),
    ensures
        match r {
            Result::Ok(p) => mp_p_entries(b@, next as int, count) == Option::Some(
                (crate::value::view_val_obj(p.0@), p.1 as int),
            ) && next <= p.1 <= b@.len(),
            Result::Err(_) => mp_p_entries(b@, next as int, count) is None,
        },
    decreases b@.len() - next, 1int,
{
    let n = b.len();
    let mut out: Vec<(String, PayloadValue)> = Vec::new();
    let mut cur: usize = next;
    let mut left: u64 = count;
    loop
        invariant
            next <= cur <= n,
            n == b@.len(),
            left <= count,
            match mp_p_entries(b@, cur as int, left) {
                Option::Some(p) => mp_p_entries(b@, next as int, count) == Option::Some(
                    (crate::value::view_val_obj(out@) + p.0, p.1),
                ),
                Option::None => mp_p_entries(b@, next as int, count) is None,
            },
        decreases left,
    {
        if left == 0 {
            proof {
                assert(mp_p_entries(b@, cur as int, 0u64) == Option::Some(
                    (Seq::<(Seq<char>, ValView)>::empty(), cur as int),
                ));
                assert(crate::value::view_val_obj(out@) + Seq::<(Seq<char>, ValView)>::empty()
                    =~= crate::value::view_val_obj(out@));
            }
            return Result::Ok((out, cur));
        }
        let (kcount, knext) = match p_strhead(b, cur) {
            Result::Ok(h) => h,
            Result::Err(_) => {
                return Result::Err(());
            },
        };
        if kcount > (n - knext) as u64 {
            return Result::Err(());
        }
        let kto = knext + (kcount as usize);
        let key = match take_text(b, knext, kto) {
            Option::Some(s) => s,
            Option::None => {
                return Result::Err(());
            },
        };
        match mp_p_val(b, kto) {
            Result::Err(_) => {
                return Result::Err(());
            },
            Result::Ok((v, j2)) => {
                let ghost preout = out@;
                let ghost gkey = key@;
                out.push((key, v));
                proof {
                    crate::json::lemma_view_val_obj_push_pub(preout, out@.last().0, v);
                    assert forall|p0: Seq<(Seq<char>, ValView)>|
                        true implies crate::value::view_val_obj(preout) + (seq![
                        (gkey, view_val(v)),
                    ] + p0) =~= crate::value::view_val_obj(out@) + p0 by {}
                }
                cur = j2;
                left = left - 1;
            },
        }
    }
}

/// The payload value a whole byte string parses to, if it is exactly one
/// MsgPack item.
pub open spec fn mp_value_of(b: Seq<u8>) -> Option<ValView> {
    match mp_parse(b, 0) {
        Option::Some((v, n)) => if n == b.len() {
            Option::Some(v)
        } else {
            Option::None
        },
        Option::None => Option::None,
    }
}

/// Parses a whole byte string as exactly one MsgPack item.
pub fn mp_parse_all(b: &Vec<u8>) -> (r: Option<PayloadValue>)
    ensures
        match r {
            Option::Some(v) => mp_value_of(b@) == Option::Some(view_val(v)),
            Option::None => mp_value_of(b@) is None,
        },
{
    match mp_p_val(b, 0) {
        Result::Ok((v, j)) => {
            if j == b.len() {
                Option::Some(v)
            } else {
                Option::None
            }
        },
        Result::Err(_) => Option::None,
    }
}

/// Reading back an emitted string header gives the length.
#[verifier::rlimit(100)]
proof fn lemma_mp_strhead_roundtrip(b: Seq<u8>, i: int, n: u64)
    requires
        n <= 0xFFFF_FFFF,
        0 <= i,
        i + mp_strhead(n).len() <= b.len(),
        b.subrange(i, i + mp_strhead(n).len()) == mp_strhead(n),
    ensures
        mp_p_strhead(b, i) == Option::Some((n, i + mp_strhead(n).len())),
        0xA0 <= b[i] <= 0xBF || b[i] == 0xD9 || b[i] == 0xDA || b[i] == 0xDB,
{
    let h = mp_strhead(n);
    let k = h.len() as int;
    assert forall|m: int| 0 <= m < k implies b[i + m] == h[m] by {
        assert(b.subrange(i, i + k)[m] == b[i + m]);
    }
    assert(crate::cbor::pow256(1) == 256 && crate::cbor::pow256(2) == 65536
        && crate::cbor::pow256(4) == 0x1_0000_0000) by {
        reveal_with_fuel(crate::cbor::pow256, 9);
    }
    if n < 32 {
        assert(h =~= seq![(0xA0 + n) as u8]);
        assert(b[i + 0] == h[0]);
        assert(b[i] == (0xA0 + n) as u8);
    } else {
        let (marker, w): (u8, int) = if n <= 0xFF {
            (0xD9, 1)
        } else if n <= 0xFFFF {
            (0xDA, 2)
        } else {
            (0xDB, 4)
        };
        crate::cbor::lemma_be_bytes_len(n, w);
        assert(h == seq![marker] + be_bytes(n, w));
        assert(b[i + 0] == h[0]);
        assert(h[0] == (seq![marker] + be_bytes(n, w))[0]);
        assert(b[i] == marker);
        assert(b.subrange(i + 1, i + 1 + w) =~= be_bytes(n, w)) by {
            assert forall|m: int| 0 <= m < w implies #[trigger] b.subrange(i + 1, i + 1 + w)[m]
                == be_bytes(n, w)[m] by {
                assert(b.subrange(i + 1, i + 1 + w)[m] == b[i + 1 + m]);
                assert(h[1 + m] == (seq![marker] + be_bytes(n, w))[1 + m]);
            }
        }
        crate::cbor::lemma_be_roundtrip(b, i + 1, n, w);
        if n <= 0xFF {
            assert(b.subrange(i + 1, i + 2)[0] == b[i + 1]);
            assert(be_bytes(n, 1) =~= seq![(n % 256) as u8]) by {
                reveal_with_fuel(be_bytes, 3);
            }
            assert(b[i + 1] == (n % 256) as u8);
            assert(b[i + 1] as u64 == n);
            assert(b[i + 1] >= 32);
        }
    }
}

/// Parsing the emitted bytes of an emittable value gives the value back.
#[verifier::rlimit(100)]
proof fn lemma_mp_val_roundtrip(b: Seq<u8>, i: int, v: ValView)
    requires
        mp_emittable(v),
        0 <= i,
        i + mp_bytes(v).len() <= b.len(),
        b.subrange(i, i + mp_bytes(v).len()) == mp_bytes(v),
    ensures
        mp_parse(b, i) == Option::Some((v, i + mp_bytes(v).len())),
    decreases v, 1int,
{
    let j = mp_bytes(v);
    let k = j.len() as int;
    assert forall|m: int| 0 <= m < k implies b[i + m] == j[m] by {
        assert(b.subrange(i, i + k)[m] == b[i + m]);
    }
    assert(crate::cbor::pow256(1) == 256 && crate::cbor::pow256(2) == 65536
        && crate::cbor::pow256(4) == 0x1_0000_0000 && crate::cbor::pow256(8)
        > 0xFFFF_FFFF_FFFF_FFFF) by {
        reveal_with_fuel(crate::cbor::pow256, 9);
    }
    match v {
        ValView::Null => {
            assert(j =~= seq![0xC0u8]);
            assert(b[i + 0] == j[0]);
            assert(b[i] == 0xC0);
        },
        ValView::Bool(t) => {
            if t {
                assert(j =~= seq![0xC3u8]);
                assert(b[i + 0] == j[0]);
                assert(b[i] == 0xC3);
            } else {
                assert(j =~= seq![0xC2u8]);
                assert(b[i + 0] == j[0]);
                assert(b[i] == 0xC2);
            }
        },
        ValView::Uint(n) => {
            if n < 0x80 {
                assert(j =~= seq![n as u8]);
                assert(b[i + 0] == j[0]);
                assert(b[i] == n as u8);
            } else {
                let (marker, w): (u8, int) = if n <= 0xFF {
                    (0xCC, 1)
                } else if n <= 0xFFFF {
                    (0xCD, 2)
                } else if n <= 0xFFFF_FFFF {
                    (0xCE, 4)
                } else {
                    (0xCF, 8)
                };
                crate::cbor::lemma_be_bytes_len(n, w);
                assert(j == seq![marker] + be_bytes(n, w));
                assert(b[i + 0] == j[0]);
                assert(j[0] == (seq![marker] + be_bytes(n, w))[0]);
                assert(b[i] == marker);
                assert(b.subrange(i + 1, i + 1 + w) =~= be_bytes(n, w)) by {
                    assert forall|m: int| 0 <= m < w implies #[trigger] b.subrange(
                        i + 1,
                        i + 1 + w,
                    )[m] == be_bytes(n, w)[m] by {
                        assert(b.subrange(i + 1, i + 1 + w)[m] == b[i + 1 + m]);
                        assert(j[1 + m] == (seq![marker] + be_bytes(n, w))[1 + m]);
                    }
                }
                crate::cbor::lemma_be_roundtrip(b, i + 1, n, w);
                if n <= 0xFF {
                    assert(b.subrange(i + 1, i + 2)[0] == b[i + 1]);
                    assert(be_bytes(n, 1) =~= seq![(n % 256) as u8]) by {
                        reveal_with_fuel(be_bytes, 3);
                    }
                    assert(b[i + 1] == (n % 256) as u8);
                    assert(b[i + 1] as u64 == n);
                    assert(b[i + 1] >= 0x80);
                }
            }
        },
        ValView::Num(_) => {},
        ValView::Text(s) => {
            let body = vstd::utf8::encode_utf8(s);
            let h = mp_strhead(body.len() as u64);
            assert(b.subrange(i, i + h.len()) =~= h) by {
                assert forall|m: int| 0 <= m < h.len() implies b.subrange(i, i + h.len())[m]
                    == h[m] by {
                    assert(b.subrange(i, i + h.len())[m] == b[i + m]);
                    assert(j[m] == (h + body)[m]);
                }
            }
            lemma_mp_strhead_roundtrip(b, i, body.len() as u64);
            let next = i + h.len();
            assert(b.subrange(next, next + body.len()) =~= body) by {
                assert forall|m: int| 0 <= m < body.len() implies b.subrange(
                    next,
                    next + body.len(),
                )[m] == body[m] by {
                    assert(b.subrange(next, next + body.len())[m] == b[next + m]);
                    assert(j[h.len() + m] == (h + body)[h.len() + m]);
                }
            }
            vstd::utf8::encode_utf8_valid_utf8(s);
            vstd::utf8::encode_utf8_decode_utf8(s);
        },
        ValView::List(l) => {
            let h = mp_arrayhead(l.len() as u64);
            let n = l.len() as u64;
            assert(b.subrange(i, i + h.len()) =~= h) by {
                assert forall|m: int| 0 <= m < h.len() implies b.subrange(i, i + h.len())[m]
                    == h[m] by {
                    assert(b.subrange(i, i + h.len())[m] == b[i + m]);
                    assert(j[m] == (h + mp_items(l))[m]);
                }
            }
            if n < 16 {
                assert(h =~= seq![(0x90 + n) as u8]);
                assert(b.subrange(i, i + h.len())[0] == b[i]);
                assert(b[i] == (0x90 + n) as u8);
            } else {
                let (marker, w): (u8, int) = if n <= 0xFFFF {
                    (0xDC, 2)
                } else {
                    (0xDD, 4)
                };
                crate::cbor::lemma_be_bytes_len(n, w);
                assert(h == seq![marker] + be_bytes(n, w));
                assert(b.subrange(i, i + h.len())[0] == b[i]);
                assert(h[0] == (seq![marker] + be_bytes(n, w))[0]);
                assert(b[i] == marker);
                assert(b.subrange(i + 1, i + 1 + w) =~= be_bytes(n, w)) by {
                    assert forall|m: int| 0 <= m < w implies #[trigger] b.subrange(
                        i + 1,
                        i + 1 + w,
                    )[m] == be_bytes(n, w)[m] by {
                        assert(b.subrange(i + 1, i + 1 + w)[m] == b[i + 1 + m]);
                        assert(h[1 + m] == (seq![marker] + be_bytes(n, w))[1 + m]);
                    }
                }
                crate::cbor::lemma_be_roundtrip(b, i + 1, n, w);
            }
            let next = i + h.len();
            assert(b.subrange(next, next + mp_items(l).len()) =~= mp_items(l)) by {
                assert forall|m: int| 0 <= m < mp_items(l).len() implies b.subrange(
                    next,
                    next + mp_items(l).len(),
                )[m] == mp_items(l)[m] by {
                    assert(b.subrange(next, next + mp_items(l).len())[m] == b[next + m]);
                    assert(j[h.len() + m] == (h + mp_items(l))[h.len() + m]);
                }
            }
            assert(decreases_to!(v => l));
            lemma_mp_items_roundtrip(b, next, l);
        },
        ValView::Object(o) => {
            let h = mp_maphead(o.len() as u64);
            let n = o.len() as u64;
            assert(b.subrange(i, i + h.len()) =~= h) by {
                assert forall|m: int| 0 <= m < h.len() implies b.subrange(i, i + h.len())[m]
                    == h[m] by {
                    assert(b.subrange(i, i + h.len())[m] == b[i + m]);
                    assert(j[m] == (h + mp_entries(o))[m]);
                }
            }
            if n < 16 {
                assert(h =~= seq![(0x80 + n) as u8]);
                assert(b.subrange(i, i + h.len())[0] == b[i]);
                assert(b[i] == (0x80 + n) as u8);
            } else {
                let (marker, w): (u8, int) = if n <= 0xFFFF {
                    (0xDE, 2)
                } else {
                    (0xDF, 4)
                };
                crate::cbor::lemma_be_bytes_len(n, w);
                assert(h == seq![marker] + be_bytes(n, w));
                assert(b.subrange(i, i + h.len())[0] == b[i]);
                assert(h[0] == (seq![marker] + be_bytes(n, w))[0]);
                assert(b[i] == marker);
                assert(b.subrange(i + 1, i + 1 + w) =~= be_bytes(n, w)) by {
                    assert forall|m: int| 0 <= m < w implies #[trigger] b.subrange(
                        i + 1,
                        i + 1 + w,
                    )[m] == be_bytes(n, w)[m] by {
                        assert(b.subrange(i + 1, i + 1 + w)[m] == b[i + 1 + m]);
                        assert(h[1 + m] == (seq![marker] + be_bytes(n, w))[1 + m]);
                    }
                }
                crate::cbor::lemma_be_roundtrip(b, i + 1, n, w);
            }
            let next = i + h.len();
            assert(b.subrange(next, next + mp_entries(o).len()) =~= mp_entries(o)) by {
                assert forall|m: int| 0 <= m < mp_entries(o).len() implies b.subrange(
                    next,
                    next + mp_entries(o).len(),
                )[m] == mp_entries(o)[m] by {
                    assert(b.subrange(next, next + mp_entries(o).len())[m] == b[next + m]);
                    assert(j[h.len() + m] == (h + mp_entries(o))[h.len() + m]);
                }
            }
            assert(decreases_to!(v => o));
            lemma_mp_entries_roundtrip(b, next, o);
        },
    }
}

/// Parsing the emitted items of an array gives the items back.
proof fn lemma_mp_items_roundtrip(b: Seq<u8>, j0: int, l: Seq<ValView>)
    requires
        mp_seq_emittable(l),
        l.len() <= 0xFFFF_FFFF,
        0 <= j0,
        j0 + mp_items(l).len() <= b.len(),
        b.subrange(j0, j0 + mp_items(l).len()) == mp_items(l),
    ensures
        mp_p_items(b, j0, l.len() as u64) == Option::Some((l, j0 + mp_items(l).len())),
    decreases l, 0int,
{
    if l.len() == 0 {
        assert(mp_items(l) =~= Seq::<u8>::empty());
    } else {
        let v0 = l.first();
        let k0 = mp_bytes(v0).len() as int;
        let rest = mp_items(l.drop_first());
        assert(mp_items(l) == mp_bytes(v0) + rest);
        assert forall|m: int| 0 <= m < mp_items(l).len() implies b[j0 + m] == mp_items(l)[m] by {
            assert(b.subrange(j0, j0 + mp_items(l).len())[m] == b[j0 + m]);
        }
        assert(b.subrange(j0, j0 + k0) =~= mp_bytes(v0)) by {
            assert forall|m: int| 0 <= m < k0 implies b.subrange(j0, j0 + k0)[m] == mp_bytes(
                v0,
            )[m] by {
                assert(b.subrange(j0, j0 + k0)[m] == b[j0 + m]);
                assert(mp_items(l)[m] == (mp_bytes(v0) + rest)[m]);
            }
        }
        broadcast use vstd::seq::axiom_seq_index_decreases;

        assert(decreases_to!(l => l[0]));
        lemma_mp_val_roundtrip(b, j0, v0);
        assert(b.subrange(j0 + k0, j0 + k0 + rest.len()) =~= rest) by {
            assert forall|m: int| 0 <= m < rest.len() implies b.subrange(
                j0 + k0,
                j0 + k0 + rest.len(),
            )[m] == rest[m] by {
                assert(b.subrange(j0 + k0, j0 + k0 + rest.len())[m] == b[j0 + k0 + m]);
                assert(mp_items(l)[k0 + m] == (mp_bytes(v0) + rest)[k0 + m]);
            }
        }
        assert(decreases_to!(l => l.subrange(1, l.len() as int)));
        lemma_mp_items_roundtrip(b, j0 + k0, l.drop_first());
        assert(mp_bytes(v0).len() >= 1);
        assert(seq![v0] + l.drop_first() =~= l);
    }
}

/// Parsing the emitted entries of a map gives the entries back.
#[verifier::rlimit(100)]
proof fn lemma_mp_entries_roundtrip(b: Seq<u8>, j0: int, o: Seq<(Seq<char>, ValView)>)
    requires
        mp_obj_emittable(o),
        o.len() <= 0xFFFF_FFFF,
        0 <= j0,
        j0 + mp_entries(o).len() <= b.len(),
        b.subrange(j0, j0 + mp_entries(o).len()) == mp_entries(o),
    ensures
        mp_p_entries(b, j0, o.len() as u64) == Option::Some((o, j0 + mp_entries(o).len())),
    decreases o, 0int,
{
    if o.len() == 0 {
        assert(mp_entries(o) =~= Seq::<u8>::empty());
    } else {
        let e0 = o.first();
        let body = vstd::utf8::encode_utf8(e0.0);
        let h = mp_strhead(body.len() as u64);
        let kv = mp_bytes(e0.1).len() as int;
        let rest = mp_entries(o.drop_first());
        assert(mp_entries(o) == h + body + mp_bytes(e0.1) + rest);
        assert forall|m: int| 0 <= m < mp_entries(o).len() implies b[j0 + m] == mp_entries(
            o,
        )[m] by {
            assert(b.subrange(j0, j0 + mp_entries(o).len())[m] == b[j0 + m]);
        }
        assert(b.subrange(j0, j0 + h.len()) =~= h) by {
            assert forall|m: int| 0 <= m < h.len() implies b.subrange(j0, j0 + h.len())[m]
                == h[m] by {
                assert(b.subrange(j0, j0 + h.len())[m] == b[j0 + m]);
                assert(mp_entries(o)[m] == (h + body + mp_bytes(e0.1) + rest)[m]);
            }
        }
        lemma_mp_strhead_roundtrip(b, j0, body.len() as u64);
        let next = j0 + h.len();
        assert(b.subrange(next, next + body.len()) =~= body) by {
            assert forall|m: int| 0 <= m < body.len() implies b.subrange(
                next,
                next + body.len(),
            )[m] == body[m] by {
                assert(b.subrange(next, next + body.len())[m] == b[next + m]);
                assert(mp_entries(o)[h.len() + m] == (h + body + mp_bytes(e0.1) + rest)[h.len()
                    + m]);
            }
        }
        vstd::utf8::encode_utf8_valid_utf8(e0.0);
        vstd::utf8::encode_utf8_decode_utf8(e0.0);
        let vstart = next + body.len();
        assert(b.subrange(vstart, vstart + kv) =~= mp_bytes(e0.1)) by {
            assert forall|m: int| 0 <= m < kv implies b.subrange(vstart, vstart + kv)[m]
                == mp_bytes(e0.1)[m] by {
                assert(b.subrange(vstart, vstart + kv)[m] == b[vstart + m]);
                assert(mp_entries(o)[h.len() + body.len() + m] == (h + body + mp_bytes(e0.1)
                    + rest)[h.len() + body.len() + m]);
            }
        }
        broadcast use vstd::seq::axiom_seq_index_decreases;

        assert(decreases_to!(o => o[0]));
        assert(decreases_to!(o[0] => o[0].1));
        lemma_mp_val_roundtrip(b, vstart, e0.1);
        assert(b.subrange(vstart + kv, vstart + kv + rest.len()) =~= rest) by {
            assert forall|m: int| 0 <= m < rest.len() implies b.subrange(
                vstart + kv,
                vstart + kv + rest.len(),
            )[m] == rest[m] by {
                assert(b.subrange(vstart + kv, vstart + kv + rest.len())[m] == b[vstart + kv + m]);
                assert(mp_entries(o)[h.len() + body.len() + kv + m] == (h + body + mp_bytes(e0.1)
                    + rest)[h.len() + body.len() + kv + m]);
            }
        }
        assert(decreases_to!(o => o.subrange(1, o.len() as int)));
        lemma_mp_entries_roundtrip(b, vstart + kv, o.drop_first());
        assert(seq![(vstd::utf8::decode_utf8(body), e0.1)] + o.drop_first() =~= o);
    }
}

/// Parsing the emitted bytes of an emittable value gives the value back:
/// the MsgPack codec loses nothing on the values it can carry.
pub proof fn lemma_mp_roundtrip(v: ValView)
    requires
        mp_emittable(v),
    ensures
        mp_value_of(mp_bytes(v)) == Option::Some(v),
{
    let b = mp_bytes(v);
    assert(b.subrange(0, b.len() as int) =~= b);
    lemma_mp_val_roundtrip(b, 0, v);
}

} // verus!
