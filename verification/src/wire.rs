//! Conversion between protocol values and their wire form.
//!
//! On the wire a message is a positional tuple of payload values whose
//! first element is the numeric message code. Protocol dictionaries carry
//! `Arg` values, which travel untagged: a string decodes as a URI, a
//! positive integer as an ID, zero as a plain integer.

use vstd::prelude::*;
use crate::types::{Arg, PayloadValue, WampDict, WampId};
use crate::value::{
    lemma_view_arg_dict, lemma_view_arg_seq, lemma_view_val_obj, lemma_view_val_seq, view_arg,
    view_arg_dict, view_arg_seq, view_val, view_val_obj, view_val_seq, ArgView, ValView,
};

verus! {

/// The wire form of a protocol value.
pub open spec fn wire_of_arg(a: ArgView) -> ValView
    decreases a, 1int,
    via wire_of_arg_decreases
{
    match a {
        ArgView::Uri(s) => ValView::Text(s),
        ArgView::Id(n) => ValView::Uint(n),
        ArgView::Integer(n) => ValView::Uint(n),
        ArgView::Text(s) => ValView::Text(s),
        ArgView::Bool(b) => ValView::Bool(b),
        ArgView::Dict(d) => ValView::Object(wire_of_dict(d)),
        ArgView::List(l) => ValView::List(wire_of_arg_seq(l)),
        ArgView::Nil => ValView::Null,
    }
}

/// The wire form of a sequence of protocol values.
pub open spec fn wire_of_arg_seq(l: Seq<ArgView>) -> Seq<ValView>
    decreases l, 0int,
    via wire_of_arg_seq_decreases
{
    if l.len() == 0 {
        Seq::empty()
    } else {
        seq![wire_of_arg(l.first())] + wire_of_arg_seq(l.drop_first())
    }
}

/// The wire form of a protocol dictionary.
pub open spec fn wire_of_dict(d: Seq<(Seq<char>, ArgView)>) -> Seq<(Seq<char>, ValView)>
    decreases d, 0int,
    via wire_of_dict_decreases
{
    if d.len() == 0 {
        Seq::empty()
    } else {
        seq![(d.first().0, wire_of_arg(d.first().1))] + wire_of_dict(d.drop_first())
    }
}

#[via_fn]
proof fn wire_of_arg_decreases(a: ArgView) {
    match a {
        ArgView::Dict(d) => {
            assert(decreases_to!(a => d));
        },
        ArgView::List(l) => {
            assert(decreases_to!(a => l));
        },
        _ => {},
    }
}

#[via_fn]
proof fn wire_of_arg_seq_decreases(l: Seq<ArgView>) {
    broadcast use vstd::seq::axiom_seq_index_decreases;

    if l.len() > 0 {
        assert(decreases_to!(l => l[0]));
        assert(decreases_to!(l => l.subrange(1, l.len() as int)));
    }
}

#[via_fn]
proof fn wire_of_dict_decreases(d: Seq<(Seq<char>, ArgView)>) {
    broadcast use vstd::seq::axiom_seq_index_decreases;

    if d.len() > 0 {
        assert(decreases_to!(d => d[0]));
        assert(decreases_to!(d[0] => d[0].1));
        assert(decreases_to!(d => d.subrange(1, d.len() as int)));
    }
}

/// The protocol value a wire value decodes to, if any. A string becomes a
/// URI, a positive integer an ID, zero a plain integer; other numbers have
/// no protocol form.
pub open spec fn arg_of_wire(v: ValView) -> Option<ArgView>
    decreases v, 1int,
    via arg_of_wire_decreases
{
    match v {
        ValView::Null => Option::Some(ArgView::Nil),
        ValView::Bool(b) => Option::Some(ArgView::Bool(b)),
        ValView::Uint(n) => if n >= 1 {
            Option::Some(ArgView::Id(n))
        } else {
            Option::Some(ArgView::Integer(n))
        },
        ValView::Num(_) => Option::None,
        ValView::Text(s) => Option::Some(ArgView::Uri(s)),
        ValView::List(l) => match arg_of_wire_seq(l) {
            Option::Some(r) => Option::Some(ArgView::List(r)),
            Option::None => Option::None,
        },
        ValView::Object(o) => match dict_of_wire(o) {
            Option::Some(r) => Option::Some(ArgView::Dict(r)),
            Option::None => Option::None,
        },
    }
}

/// Decodes each element of a wire list as a protocol value.
pub open spec fn arg_of_wire_seq(l: Seq<ValView>) -> Option<Seq<ArgView>>
    decreases l, 0int,
    via arg_of_wire_seq_decreases
{
    if l.len() == 0 {
        Option::Some(Seq::empty())
    } else {
        match (arg_of_wire(l.first()), arg_of_wire_seq(l.drop_first())) {
            (Option::Some(a), Option::Some(rest)) => Option::Some(seq![a] + rest),
            _ => Option::None,
        }
    }
}

/// Decodes each entry of a wire object as a protocol dictionary entry.
pub open spec fn dict_of_wire(o: Seq<(Seq<char>, ValView)>) -> Option<Seq<(Seq<char>, ArgView)>>
    decreases o, 0int,
    via dict_of_wire_decreases
{
    if o.len() == 0 {
        Option::Some(Seq::empty())
    } else {
        match (arg_of_wire(o.first().1), dict_of_wire(o.drop_first())) {
            (Option::Some(a), Option::Some(rest)) => Option::Some(seq![(o.first().0, a)] + rest),
            _ => Option::None,
        }
    }
}

#[via_fn]
proof fn arg_of_wire_decreases(v: ValView) {
    match v {
        ValView::List(l) => {
            assert(decreases_to!(v => l));
        },
        ValView::Object(o) => {
            assert(decreases_to!(v => o));
        },
        _ => {},
    }
}

#[via_fn]
proof fn arg_of_wire_seq_decreases(l: Seq<ValView>) {
    broadcast use vstd::seq::axiom_seq_index_decreases;

    if l.len() > 0 {
        assert(decreases_to!(l => l[0]));
        assert(decreases_to!(l => l.subrange(1, l.len() as int)));
    }
}

#[via_fn]
proof fn dict_of_wire_decreases(o: Seq<(Seq<char>, ValView)>) {
    broadcast use vstd::seq::axiom_seq_index_decreases;

    if o.len() > 0 {
        assert(decreases_to!(o => o[0]));
        assert(decreases_to!(o[0] => o[0].1));
        assert(decreases_to!(o => o.subrange(1, o.len() as int)));
    }
}

/// A protocol value is in wire-normal form when decoding its wire form
/// gives it back: IDs are positive, plain integers only hold zero, and
/// strings travel as URIs.
pub open spec fn arg_norm(a: ArgView) -> bool
    decreases a, 1int,
    via arg_norm_decreases
{
    match a {
        ArgView::Uri(_) => true,
        ArgView::Id(n) => n >= 1,
        ArgView::Integer(n) => n == 0,
        ArgView::Text(_) => false,
        ArgView::Bool(_) => true,
        ArgView::Dict(d) => dict_norm(d),
        ArgView::List(l) => arg_seq_norm(l),
        ArgView::Nil => true,
    }
}

/// Every element is in wire-normal form.
pub open spec fn arg_seq_norm(l: Seq<ArgView>) -> bool
    decreases l, 0int,
    via arg_seq_norm_decreases
{
    if l.len() == 0 {
        true
    } else {
        arg_norm(l.first()) && arg_seq_norm(l.drop_first())
    }
}

/// Every entry value is in wire-normal form.
pub open spec fn dict_norm(d: Seq<(Seq<char>, ArgView)>) -> bool
    decreases d, 0int,
    via dict_norm_decreases
{
    if d.len() == 0 {
        true
    } else {
        arg_norm(d.first().1) && dict_norm(d.drop_first())
    }
}

#[via_fn]
proof fn arg_norm_decreases(a: ArgView) {
    match a {
        ArgView::Dict(d) => {
            assert(decreases_to!(a => d));
        },
        ArgView::List(l) => {
            assert(decreases_to!(a => l));
        },
        _ => {},
    }
}

#[via_fn]
proof fn arg_seq_norm_decreases(l: Seq<ArgView>) {
    broadcast use vstd::seq::axiom_seq_index_decreases;

    if l.len() > 0 {
        assert(decreases_to!(l => l[0]));
        assert(decreases_to!(l => l.subrange(1, l.len() as int)));
    }
}

#[via_fn]
proof fn dict_norm_decreases(d: Seq<(Seq<char>, ArgView)>) {
    broadcast use vstd::seq::axiom_seq_index_decreases;

    if d.len() > 0 {
        assert(decreases_to!(d => d[0]));
        assert(decreases_to!(d[0] => d[0].1));
        assert(decreases_to!(d => d.subrange(1, d.len() as int)));
    }
}

/// Decoding the wire form of a wire-normal protocol value gives the value
/// back.
pub proof fn lemma_arg_wire_roundtrip(a: ArgView)
    requires
        arg_norm(a),
    ensures
        arg_of_wire(wire_of_arg(a)) == Option::Some(a),
    decreases a, 1int,
{
    match a {
        ArgView::Dict(d) => {
            lemma_dict_wire_roundtrip(d);
        },
        ArgView::List(l) => {
            lemma_arg_seq_wire_roundtrip(l);
        },
        _ => {},
    }
}

/// Decoding the wire form of a wire-normal value sequence gives it back.
pub proof fn lemma_arg_seq_wire_roundtrip(l: Seq<ArgView>)
    requires
        arg_seq_norm(l),
    ensures
        arg_of_wire_seq(wire_of_arg_seq(l)) == Option::Some(l),
    decreases l, 0int,
{
    if l.len() == 0 {
        assert(wire_of_arg_seq(l) =~= Seq::empty());
    } else {
        lemma_arg_wire_roundtrip(l.first());
        lemma_arg_seq_wire_roundtrip(l.drop_first());
        let w = wire_of_arg_seq(l);
        assert(w.first() == wire_of_arg(l.first()));
        assert(w.drop_first() =~= wire_of_arg_seq(l.drop_first()));
        assert(arg_of_wire_seq(w)->Some_0 =~= l);
    }
}

/// Decoding the wire form of a wire-normal dictionary gives it back.
pub proof fn lemma_dict_wire_roundtrip(d: Seq<(Seq<char>, ArgView)>)
    requires
        dict_norm(d),
    ensures
        dict_of_wire(wire_of_dict(d)) == Option::Some(d),
    decreases d, 0int,
{
    if d.len() == 0 {
        assert(wire_of_dict(d) =~= Seq::empty());
    } else {
        lemma_arg_wire_roundtrip(d.first().1);
        lemma_dict_wire_roundtrip(d.drop_first());
        let w = wire_of_dict(d);
        assert(w.first() == (d.first().0, wire_of_arg(d.first().1)));
        assert(w.drop_first() =~= wire_of_dict(d.drop_first()));
        assert(dict_of_wire(w)->Some_0 =~= d);
    }
}

/// Re-encoding a decoded wire value gives the same wire value, and the
/// decoded value is wire normal.
pub proof fn lemma_wire_arg_roundtrip(v: ValView)
    requires
        arg_of_wire(v) is Some,
    ensures
        arg_norm(arg_of_wire(v)->Some_0),
        wire_of_arg(arg_of_wire(v)->Some_0) == v,
    decreases v, 1int,
{
    match v {
        ValView::List(l) => {
            lemma_wire_arg_seq_roundtrip(l);
        },
        ValView::Object(o) => {
            lemma_wire_dict_roundtrip(o);
        },
        _ => {},
    }
}

/// Re-encoding a decoded wire list gives the same list back.
pub proof fn lemma_wire_arg_seq_roundtrip(l: Seq<ValView>)
    requires
        arg_of_wire_seq(l) is Some,
    ensures
        arg_seq_norm(arg_of_wire_seq(l)->Some_0),
        wire_of_arg_seq(arg_of_wire_seq(l)->Some_0) == l,
    decreases l, 0int,
{
    if l.len() == 0 {
        assert(wire_of_arg_seq(arg_of_wire_seq(l)->Some_0) =~= l);
    } else {
        lemma_wire_arg_roundtrip(l.first());
        lemma_wire_arg_seq_roundtrip(l.drop_first());
        let r = arg_of_wire_seq(l)->Some_0;
        assert(r.first() == arg_of_wire(l.first())->Some_0);
        assert(r.drop_first() =~= arg_of_wire_seq(l.drop_first())->Some_0);
        assert(arg_seq_norm(r));
        assert(wire_of_arg_seq(r) =~= l);
    }
}

/// Re-encoding a decoded wire object gives the same object back.
pub proof fn lemma_wire_dict_roundtrip(o: Seq<(Seq<char>, ValView)>)
    requires
        dict_of_wire(o) is Some,
    ensures
        dict_norm(dict_of_wire(o)->Some_0),
        wire_of_dict(dict_of_wire(o)->Some_0) == o,
    decreases o, 0int,
{
    if o.len() == 0 {
        assert(wire_of_dict(dict_of_wire(o)->Some_0) =~= o);
    } else {
        lemma_wire_arg_roundtrip(o.first().1);
        lemma_wire_dict_roundtrip(o.drop_first());
        let r = dict_of_wire(o)->Some_0;
        assert(r.first() == (o.first().0, arg_of_wire(o.first().1)->Some_0));
        assert(r.drop_first() =~= dict_of_wire(o.drop_first())->Some_0);
        assert(dict_norm(r));
        assert(wire_of_dict(r) =~= o);
    }
}

/// Length and elements of an encoded value sequence.
pub proof fn lemma_wire_of_arg_seq_char(l: Seq<ArgView>)
    ensures
        wire_of_arg_seq(l).len() == l.len(),
        forall|i: int| 0 <= i < l.len() ==> #[trigger] wire_of_arg_seq(l)[i] == wire_of_arg(l[i]),
    decreases l.len(),
{
    if l.len() > 0 {
        lemma_wire_of_arg_seq_char(l.drop_first());
    }
}

/// Length and entries of an encoded dictionary.
pub proof fn lemma_wire_of_dict_char(d: Seq<(Seq<char>, ArgView)>)
    ensures
        wire_of_dict(d).len() == d.len(),
        forall|i: int|
            0 <= i < d.len() ==> #[trigger] wire_of_dict(d)[i] == (d[i].0, wire_of_arg(d[i].1)),
    decreases d.len(),
{
    if d.len() > 0 {
        lemma_wire_of_dict_char(d.drop_first());
    }
}

/// When a wire list decodes, every element decodes, and the results line
/// up pointwise.
pub proof fn lemma_arg_of_wire_seq_char(l: Seq<ValView>)
    ensures
        (arg_of_wire_seq(l) is Some) <==> (forall|i: int|
            0 <= i < l.len() ==> (#[trigger] arg_of_wire(l[i])) is Some),
        arg_of_wire_seq(l) is Some ==> arg_of_wire_seq(l)->Some_0.len() == l.len() && forall|
            i: int,
        |
            0 <= i < l.len() ==> #[trigger] arg_of_wire_seq(l)->Some_0[i] == arg_of_wire(
                l[i],
            )->Some_0,
    decreases l.len(),
{
    if l.len() > 0 {
        lemma_arg_of_wire_seq_char(l.drop_first());
        if arg_of_wire(l.first()) is Some && arg_of_wire_seq(l.drop_first()) is Some {
            assert forall|i: int| 0 <= i < l.len() implies (#[trigger] arg_of_wire(
                l[i],
            )) is Some by {
                if i > 0 {
                    assert(l.drop_first()[i - 1] == l[i]);
                    assert(arg_of_wire(l.drop_first()[i - 1]) is Some);
                }
            }
            let r = arg_of_wire_seq(l)->Some_0;
            let rr = arg_of_wire_seq(l.drop_first())->Some_0;
            assert forall|i: int| 0 <= i < l.len() implies #[trigger] r[i] == arg_of_wire(
                l[i],
            )->Some_0 by {
                if i > 0 {
                    assert(r[i] == rr[i - 1]);
                    assert(l.drop_first()[i - 1] == l[i]);
                    assert(rr[i - 1] == arg_of_wire(l.drop_first()[i - 1])->Some_0);
                }
            }
        } else {
            if arg_of_wire_seq(l.drop_first()) is None {
                let j = choose|j: int|
                    0 <= j < l.drop_first().len() && !((#[trigger] arg_of_wire(
                        l.drop_first()[j],
                    )) is Some);
                assert(l.drop_first()[j] == l[j + 1]);
                assert(arg_of_wire(l[j + 1]) is None);
            } else {
                assert(arg_of_wire(l[0]) is None);
            }
        }
    }
}

/// When a wire object decodes, every entry decodes, and the results line
/// up pointwise.
pub proof fn lemma_dict_of_wire_char(o: Seq<(Seq<char>, ValView)>)
    ensures
        (dict_of_wire(o) is Some) <==> (forall|i: int|
            0 <= i < o.len() ==> (#[trigger] arg_of_wire(o[i].1)) is Some),
        dict_of_wire(o) is Some ==> dict_of_wire(o)->Some_0.len() == o.len() && forall|i: int|
            0 <= i < o.len() ==> #[trigger] dict_of_wire(o)->Some_0[i] == (
                o[i].0,
                arg_of_wire(o[i].1)->Some_0,
            ),
    decreases o.len(),
{
    if o.len() > 0 {
        lemma_dict_of_wire_char(o.drop_first());
        if arg_of_wire(o.first().1) is Some && dict_of_wire(o.drop_first()) is Some {
            assert forall|i: int| 0 <= i < o.len() implies (#[trigger] arg_of_wire(
                o[i].1,
            )) is Some by {
                if i > 0 {
                    assert(o.drop_first()[i - 1] == o[i]);
                    assert(arg_of_wire(o.drop_first()[i - 1].1) is Some);
                }
            }
            let r = dict_of_wire(o)->Some_0;
            let rr = dict_of_wire(o.drop_first())->Some_0;
            assert forall|i: int| 0 <= i < o.len() implies #[trigger] r[i] == (
                o[i].0,
                arg_of_wire(o[i].1)->Some_0,
            ) by {
                if i > 0 {
                    assert(r[i] == rr[i - 1]);
                    assert(o.drop_first()[i - 1] == o[i]);
                    assert(rr[i - 1] == (o.drop_first()[i - 1].0, arg_of_wire(
                        o.drop_first()[i - 1].1,
                    )->Some_0));
                }
            }
        } else {
            if dict_of_wire(o.drop_first()) is None {
                let j = choose|j: int|
                    0 <= j < o.drop_first().len() && !((#[trigger] arg_of_wire(
                        o.drop_first()[j].1,
                    )) is Some);
                assert(o.drop_first()[j] == o[j + 1]);
                assert(arg_of_wire(o[j + 1].1) is None);
            } else {
                assert(arg_of_wire(o[0].1) is None);
            }
        }
    }
}

/// Encodes a protocol value into its wire form.
pub fn arg_to_wire(a: &Arg) -> (v: PayloadValue)
    ensures
        v@ == wire_of_arg(a@),
    decreases a,
{
    match a {
        Arg::Uri(s) => PayloadValue::Text(s.clone()),
        Arg::Id(i) => PayloadValue::Uint(i.0),
        Arg::Integer(n) => PayloadValue::Uint(*n),
        Arg::Text(s) => PayloadValue::Text(s.clone()),
        Arg::Bool(b) => PayloadValue::Bool(*b),
        Arg::Nil => PayloadValue::Null,
        Arg::Dict(d) => {
            let o = dict_to_wire(d);
            proof {
                lemma_view_arg_dict(d@);
                lemma_wire_of_dict_char(view_arg_dict(d@));
                lemma_view_val_obj(o@);
                assert(view_val_obj(o@) =~= wire_of_dict(view_arg_dict(d@)));
            }
            PayloadValue::Object(o)
        },
        Arg::List(l) => {
            let w = arg_list_to_wire(l);
            proof {
                lemma_view_arg_seq(l@);
                lemma_wire_of_arg_seq_char(view_arg_seq(l@));
                lemma_view_val_seq(w@);
                assert(view_val_seq(w@) =~= wire_of_arg_seq(view_arg_seq(l@)));
            }
            PayloadValue::List(w)
        },
    }
}

/// Encodes each element of a protocol list into its wire form.
#[verifier::loop_isolation(false)]
pub fn arg_list_to_wire(l: &Vec<Arg>) -> (w: Vec<PayloadValue>)
    ensures
        w@.len() == l@.len(),
        forall|i: int| 0 <= i < l@.len() ==> #[trigger] view_val(w@[i]) == wire_of_arg(
            view_arg(l@[i]),
        ),
    decreases l,
{
    let mut out: Vec<PayloadValue> = Vec::new();
    let mut i: usize = 0;
    while i < l.len()
        invariant
            0 <= i <= l@.len(),
            out@.len() == i,
            forall|j: int| 0 <= j < i ==> #[trigger] view_val(out@[j]) == wire_of_arg(
                view_arg(l@[j]),
            ),
        decreases l@.len() - i,
    {
        proof {
            broadcast use vstd::std_specs::vec::group_vec_axioms, vstd::seq::axiom_seq_index_decreases;

            assert(decreases_to!(*l => l@));
            assert(decreases_to!(l@ => l@[i as int]));
        }
        out.push(arg_to_wire(&l[i]));
        i = i + 1;
    }
    out
}

/// Encodes each entry of a protocol dictionary into its wire form.
#[verifier::loop_isolation(false)]
pub fn dict_to_wire(d: &WampDict) -> (o: Vec<(String, PayloadValue)>)
    ensures
        o@.len() == d@.len(),
        forall|i: int|
            0 <= i < d@.len() ==> (#[trigger] o@[i]).0@ == d@[i].0@ && view_val(o@[i].1)
                == wire_of_arg(view_arg(d@[i].1)),
    decreases d,
{
    let mut out: Vec<(String, PayloadValue)> = Vec::new();
    let mut i: usize = 0;
    while i < d.len()
        invariant
            0 <= i <= d@.len(),
            out@.len() == i,
            forall|j: int|
                0 <= j < i ==> (#[trigger] out@[j]).0@ == d@[j].0@ && view_val(out@[j].1)
                    == wire_of_arg(view_arg(d@[j].1)),
        decreases d@.len() - i,
    {
        proof {
            broadcast use vstd::std_specs::vec::group_vec_axioms, vstd::seq::axiom_seq_index_decreases;

            assert(decreases_to!(*d => d@));
            assert(decreases_to!(d@ => d@[i as int]));
            assert(decreases_to!(d@[i as int] => d@[i as int].1));
        }
        let key = d[i].0.clone();
        let val = arg_to_wire(&d[i].1);
        out.push((key, val));
        i = i + 1;
    }
    out
}

/// Decodes a wire value into a protocol value, if it has a protocol form.
pub fn wire_to_arg(v: &PayloadValue) -> (r: Option<Arg>)
    ensures
        match r {
            Option::Some(a) => arg_of_wire(v@) == Option::Some(a@),
            Option::None => arg_of_wire(v@) is None,
        },
    decreases v,
{
    match v {
        PayloadValue::Null => Option::Some(Arg::Nil),
        PayloadValue::Bool(b) => Option::Some(Arg::Bool(*b)),
        PayloadValue::Uint(n) => if *n >= 1 {
            Option::Some(Arg::Id(WampId(*n)))
        } else {
            Option::Some(Arg::Integer(*n))
        },
        PayloadValue::Num(_) => Option::None,
        PayloadValue::Text(s) => Option::Some(Arg::Uri(s.clone())),
        PayloadValue::List(l) => {
            proof {
                lemma_view_val_seq(l@);
                lemma_arg_of_wire_seq_char(view_val_seq(l@));
            }
            match wire_list_to_args(l) {
                Option::Some(r) => {
                    proof {
                        lemma_view_arg_seq(r@);
                        let w = view_val_seq(l@);
                        assert forall|i: int| 0 <= i < w.len() implies (#[trigger] arg_of_wire(
                            w[i],
                        )) is Some by {
                            assert(w[i] == view_val(l@[i]));
                        }
                        assert(arg_of_wire_seq(w) is Some);
                        assert forall|i: int| 0 <= i < w.len() implies #[trigger] arg_of_wire_seq(
                            w,
                        )->Some_0[i] == view_arg_seq(r@)[i] by {
                            assert(w[i] == view_val(l@[i]));
                            assert(arg_of_wire_seq(w)->Some_0[i] == arg_of_wire(w[i])->Some_0);
                        }
                        assert(view_arg_seq(r@) =~= arg_of_wire_seq(w)->Some_0);
                    }
                    Option::Some(Arg::List(r))
                },
                Option::None => {
                    proof {
                        let w = view_val_seq(l@);
                        let i = choose|i: int|
                            0 <= i < l@.len() && (#[trigger] arg_of_wire(view_val(l@[i]))) is None;
                        assert(w[i] == view_val(l@[i]));
                        if arg_of_wire_seq(w) is Some {
                            assert(arg_of_wire(w[i]) is Some);
                            assert(false);
                        }
                    }
                    Option::None
                },
            }
        },
        PayloadValue::Object(o) => {
            proof {
                lemma_view_val_obj(o@);
                lemma_dict_of_wire_char(view_val_obj(o@));
            }
            match wire_obj_to_dict(o) {
                Option::Some(r) => {
                    proof {
                        lemma_view_arg_dict(r@);
                        let w = view_val_obj(o@);
                        assert forall|i: int| 0 <= i < w.len() implies (#[trigger] arg_of_wire(
                            w[i].1,
                        )) is Some by {
                            assert(w[i] == (o@[i].0@, view_val(o@[i].1)));
                        }
                        assert(dict_of_wire(w) is Some);
                        assert forall|i: int| 0 <= i < w.len() implies #[trigger] dict_of_wire(
                            w,
                        )->Some_0[i] == view_arg_dict(r@)[i] by {
                            assert(w[i] == (o@[i].0@, view_val(o@[i].1)));
                            assert(dict_of_wire(w)->Some_0[i] == (w[i].0, arg_of_wire(
                                w[i].1,
                            )->Some_0));
                        }
                        assert(view_arg_dict(r@) =~= dict_of_wire(w)->Some_0);
                    }
                    Option::Some(Arg::Dict(r))
                },
                Option::None => {
                    proof {
                        let w = view_val_obj(o@);
                        let i = choose|i: int|
                            0 <= i < o@.len() && (#[trigger] arg_of_wire(
                                view_val(o@[i].1),
                            )) is None;
                        assert(w[i] == (o@[i].0@, view_val(o@[i].1)));
                        if dict_of_wire(w) is Some {
                            assert(arg_of_wire(w[i].1) is Some);
                            assert(false);
                        }
                    }
                    Option::None
                },
            }
        },
    }
}

/// Decodes each element of a wire list into a protocol value.
#[verifier::loop_isolation(false)]
pub fn wire_list_to_args(l: &Vec<PayloadValue>) -> (r: Option<Vec<Arg>>)
    ensures
        match r {
            Option::Some(out) => out@.len() == l@.len() && forall|i: int|
                0 <= i < l@.len() ==> #[trigger] arg_of_wire(view_val(l@[i])) == Option::Some(
                    view_arg(out@[i]),
                ),
            Option::None => exists|i: int|
                0 <= i < l@.len() && (#[trigger] arg_of_wire(view_val(l@[i]))) is None,
        },
    decreases l,
{
    let mut out: Vec<Arg> = Vec::new();
    let mut i: usize = 0;
    while i < l.len()
        invariant
            0 <= i <= l@.len(),
            out@.len() == i,
            forall|j: int|
                0 <= j < i ==> #[trigger] arg_of_wire(view_val(l@[j])) == Option::Some(
                    view_arg(out@[j]),
                ),
        decreases l@.len() - i,
    {
        proof {
            broadcast use vstd::std_specs::vec::group_vec_axioms, vstd::seq::axiom_seq_index_decreases;

            assert(decreases_to!(*l => l@));
            assert(decreases_to!(l@ => l@[i as int]));
        }
        match wire_to_arg(&l[i]) {
            Option::Some(a) => {
                out.push(a);
            },
            Option::None => {
                return Option::None;
            },
        }
        i = i + 1;
    }
    Option::Some(out)
}

/// Decodes each entry of a wire object into a protocol dictionary entry.
#[verifier::loop_isolation(false)]
pub fn wire_obj_to_dict(o: &Vec<(String, PayloadValue)>) -> (r: Option<WampDict>)
    ensures
        match r {
            Option::Some(out) => out@.len() == o@.len() && (forall|i: int|
                0 <= i < o@.len() ==> (#[trigger] out@[i]).0@ == o@[i].0@) && (forall|i: int|
                0 <= i < o@.len() ==> #[trigger] arg_of_wire(view_val(o@[i].1)) == Option::Some(
                    view_arg(out@[i].1),
                )),
            Option::None => exists|i: int|
                0 <= i < o@.len() && (#[trigger] arg_of_wire(view_val(o@[i].1))) is None,
        },
    decreases o,
{
    let mut out: WampDict = Vec::new();
    let mut i: usize = 0;
    while i < o.len()
        invariant
            0 <= i <= o@.len(),
            out@.len() == i,
            forall|j: int| 0 <= j < i ==> (#[trigger] out@[j]).0@ == o@[j].0@,
            forall|j: int|
                0 <= j < i ==> #[trigger] arg_of_wire(view_val(o@[j].1)) == Option::Some(
                    view_arg(out@[j].1),
                ),
        decreases o@.len() - i,
    {
        proof {
            broadcast use vstd::std_specs::vec::group_vec_axioms, vstd::seq::axiom_seq_index_decreases;

            assert(decreases_to!(*o => o@));
            assert(decreases_to!(o@ => o@[i as int]));
            assert(decreases_to!(o@[i as int] => o@[i as int].1));
        }
        let key = o[i].0.clone();
        match wire_to_arg(&o[i].1) {
            Option::Some(a) => {
                out.push((key, a));
            },
            Option::None => {
                return Option::None;
            },
        }
        i = i + 1;
    }
    Option::Some(out)
}

} // verus!
