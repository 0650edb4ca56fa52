//! Mathematical models of payload and protocol values, and the executable
//! helpers that manipulate dictionaries.

use vstd::prelude::*;
use vstd::string::StringSliceAdditionalSpecFns;
use crate::types::{Arg, PayloadValue, WampDict};

verus! {

broadcast use vstd::std_specs::vec::group_vec_axioms, vstd::seq::axiom_seq_index_decreases;

/// Model of a payload value: strings as character sequences, containers as
/// sequences.
pub enum ValView {
    /// null
    Null,
    /// true or false
    Bool(bool),
    /// non-negative integer
    Uint(u64),
    /// any other number, as its wire text
    Num(Seq<char>),
    /// string
    Text(Seq<char>),
    /// array of payload values
    List(Seq<ValView>),
    /// object keyed by strings
    Object(Seq<(Seq<char>, ValView)>),
}

/// Model of a protocol value.
pub enum ArgView {
    /// uri: a string URI
    Uri(Seq<char>),
    /// id: an integer ID in [1, 2^53]
    Id(u64),
    /// integer: a non-negative integer
    Integer(u64),
    /// string: a Unicode string
    Text(Seq<char>),
    /// bool: a boolean value
    Bool(bool),
    /// dict: a mapping where keys are strings
    Dict(Seq<(Seq<char>, ArgView)>),
    /// list: a list of protocol values
    List(Seq<ArgView>),
    /// absence of a value
    Nil,
}

/// The model of a payload value.
pub open spec fn view_val(v: PayloadValue) -> ValView
    decreases v, 1int,
    via view_val_decreases
{
    match v {
        PayloadValue::Null => ValView::Null,
        PayloadValue::Bool(b) => ValView::Bool(b),
        PayloadValue::Uint(n) => ValView::Uint(n),
        PayloadValue::Num(s) => ValView::Num(s@),
        PayloadValue::Text(s) => ValView::Text(s@),
        PayloadValue::List(l) => ValView::List(view_val_seq(l@)),
        PayloadValue::Object(o) => ValView::Object(view_val_obj(o@)),
    }
}

/// The model of a sequence of payload values.
pub open spec fn view_val_seq(l: Seq<PayloadValue>) -> Seq<ValView>
    decreases l, 0int,
    via view_val_seq_decreases
{
    if l.len() == 0 {
        Seq::empty()
    } else {
        seq![view_val(l.first())] + view_val_seq(l.drop_first())
    }
}

/// The model of a sequence of keyed payload values.
pub open spec fn view_val_obj(o: Seq<(String, PayloadValue)>) -> Seq<(Seq<char>, ValView)>
    decreases o, 0int,
    via view_val_obj_decreases
{
    if o.len() == 0 {
        Seq::empty()
    } else {
        seq![(o.first().0@, view_val(o.first().1))] + view_val_obj(o.drop_first())
    }
}

#[via_fn]
proof fn view_val_decreases(v: PayloadValue) {
    broadcast use vstd::std_specs::vec::group_vec_axioms;
    match v {
        PayloadValue::List(l) => {
            assert(decreases_to!(l => l@));
        },
        PayloadValue::Object(o) => {
            assert(decreases_to!(o => o@));
        },
        _ => {},
    }
}

#[via_fn]
proof fn view_val_seq_decreases(l: Seq<PayloadValue>) {
    if l.len() > 0 {
        assert(decreases_to!(l => l[0]));
        assert(decreases_to!(l => l.subrange(1, l.len() as int)));
    }
}

#[via_fn]
proof fn view_val_obj_decreases(o: Seq<(String, PayloadValue)>) {
    if o.len() > 0 {
        assert(decreases_to!(o => o[0]));
        assert(decreases_to!(o[0] => o[0].1));
        assert(decreases_to!(o => o.subrange(1, o.len() as int)));
    }
}

impl View for PayloadValue {
    type V = ValView;

    open spec fn view(&self) -> ValView {
        view_val(*self)
    }
}

/// The model of a protocol value.
pub open spec fn view_arg(a: Arg) -> ArgView
    decreases a, 1int,
    via view_arg_decreases
{
    match a {
        Arg::Uri(s) => ArgView::Uri(s@),
        Arg::Id(i) => ArgView::Id(i.0),
        Arg::Integer(n) => ArgView::Integer(n),
        Arg::Text(s) => ArgView::Text(s@),
        Arg::Bool(b) => ArgView::Bool(b),
        Arg::Dict(d) => ArgView::Dict(view_arg_dict(d@)),
        Arg::List(l) => ArgView::List(view_arg_seq(l@)),
        Arg::Nil => ArgView::Nil,
    }
}

/// The model of a sequence of protocol values.
pub open spec fn view_arg_seq(l: Seq<Arg>) -> Seq<ArgView>
    decreases l, 0int,
    via view_arg_seq_decreases
{
    if l.len() == 0 {
        Seq::empty()
    } else {
        seq![view_arg(l.first())] + view_arg_seq(l.drop_first())
    }
}

/// The model of a sequence of keyed protocol values.
pub open spec fn view_arg_dict(d: Seq<(String, Arg)>) -> Seq<(Seq<char>, ArgView)>
    decreases d, 0int,
    via view_arg_dict_decreases
{
    if d.len() == 0 {
        Seq::empty()
    } else {
        seq![(d.first().0@, view_arg(d.first().1))] + view_arg_dict(d.drop_first())
    }
}

#[via_fn]
proof fn view_arg_decreases(a: Arg) {
    broadcast use vstd::std_specs::vec::group_vec_axioms;
    match a {
        Arg::Dict(d) => {
            assert(decreases_to!(d => d@));
        },
        Arg::List(l) => {
            assert(decreases_to!(l => l@));
        },
        _ => {},
    }
}

#[via_fn]
proof fn view_arg_seq_decreases(l: Seq<Arg>) {
    if l.len() > 0 {
        assert(decreases_to!(l => l[0]));
        assert(decreases_to!(l => l.subrange(1, l.len() as int)));
    }
}

#[via_fn]
proof fn view_arg_dict_decreases(d: Seq<(String, Arg)>) {
    if d.len() > 0 {
        assert(decreases_to!(d => d[0]));
        assert(decreases_to!(d[0] => d[0].1));
        assert(decreases_to!(d => d.subrange(1, d.len() as int)));
    }
}

impl View for Arg {
    type V = ArgView;

    open spec fn view(&self) -> ArgView {
        view_arg(*self)
    }
}

/// A sequence of payload values and its model have the same length and
/// matching elements.
pub broadcast proof fn lemma_view_val_seq(l: Seq<PayloadValue>)
    ensures
        #[trigger] view_val_seq(l).len() == l.len(),
        forall|i: int| 0 <= i < l.len() ==> #[trigger] view_val_seq(l)[i] == view_val(l[i]),
    decreases l.len(),
{
    if l.len() > 0 {
        lemma_view_val_seq(l.drop_first());
    }
}

/// A sequence of keyed payload values and its model have the same length
/// and matching entries.
pub broadcast proof fn lemma_view_val_obj(o: Seq<(String, PayloadValue)>)
    ensures
        #[trigger] view_val_obj(o).len() == o.len(),
        forall|i: int|
            0 <= i < o.len() ==> #[trigger] view_val_obj(o)[i] == (o[i].0@, view_val(o[i].1)),
    decreases o.len(),
{
    if o.len() > 0 {
        lemma_view_val_obj(o.drop_first());
    }
}

/// A sequence of protocol values and its model have the same length and
/// matching elements.
pub broadcast proof fn lemma_view_arg_seq(l: Seq<Arg>)
    ensures
        #[trigger] view_arg_seq(l).len() == l.len(),
        forall|i: int| 0 <= i < l.len() ==> #[trigger] view_arg_seq(l)[i] == view_arg(l[i]),
    decreases l.len(),
{
    if l.len() > 0 {
        lemma_view_arg_seq(l.drop_first());
    }
}

/// A protocol dictionary and its model have the same length and matching
/// entries.
pub broadcast proof fn lemma_view_arg_dict(d: Seq<(String, Arg)>)
    ensures
        #[trigger] view_arg_dict(d).len() == d.len(),
        forall|i: int|
            0 <= i < d.len() ==> #[trigger] view_arg_dict(d)[i] == (d[i].0@, view_arg(d[i].1)),
    decreases d.len(),
{
    if d.len() > 0 {
        lemma_view_arg_dict(d.drop_first());
    }
}

/// The model of a protocol dictionary.
pub open spec fn view_dict(d: WampDict) -> Seq<(Seq<char>, ArgView)> {
    view_arg_dict(d@)
}

/// What a dictionary lookup finds: the value under the first entry whose
/// key matches, if any.
pub open spec fn dict_find(d: Seq<(Seq<char>, ArgView)>, key: Seq<char>) -> Option<ArgView>
    decreases d.len(),
{
    if d.len() == 0 {
        Option::None
    } else if d[0].0 == key {
        Option::Some(d[0].1)
    } else {
        dict_find(d.skip(1), key)
    }
}

/// Looks a key up in a protocol dictionary, returning the first match.
#[verifier::loop_isolation(false)]
pub fn dict_get<'a>(d: &'a WampDict, key: &str) -> (r: Option<&'a Arg>)
    ensures
        match r {
            Option::Some(a) => dict_find(view_dict(*d), key@) == Option::Some(view_arg(*a)),
            Option::None => dict_find(view_dict(*d), key@) is None,
        },
{
    broadcast use lemma_view_arg_dict;

    let mut i: usize = 0;
    assert(view_dict(*d).skip(0) =~= view_dict(*d));
    while i < d.len()
        invariant
            0 <= i <= d@.len(),
            dict_find(view_dict(*d).skip(i as int), key@) == dict_find(view_dict(*d), key@),
            forall|j: int| 0 <= j < i ==> view_dict(*d)[j].0 != key@,
        decreases d@.len() - i,
    {
        assert(view_dict(*d).skip(i as int)[0] == view_dict(*d)[i as int]);
        if str_eq(d[i].0.as_str(), key) {
            return Option::Some(&d[i].1);
        }
        assert(view_dict(*d).skip(i as int).skip(1) =~= view_dict(*d).skip(i + 1));
        i = i + 1;
    }
    assert(view_dict(*d).skip(i as int) =~= Seq::empty());
    Option::None
}

/// True when the dictionary holds `Bool(true)` under the key.
pub open spec fn dict_flag(d: Seq<(Seq<char>, ArgView)>, key: Seq<char>) -> bool {
    dict_find(d, key) == Option::Some(ArgView::Bool(true))
}

/// Tests whether the dictionary holds `Bool(true)` under the key.
pub fn dict_get_flag(d: &WampDict, key: &str) -> (r: bool)
    ensures
        r == dict_flag(view_dict(*d), key@),
{
    match dict_get(d, key) {
        Option::Some(a) => match a {
            Arg::Bool(b) => *b,
            _ => false,
        },
        Option::None => false,
    }
}

/// Compares two string slices for character equality.
pub fn str_eq(a: &str, b: &str) -> (r: bool)
    ensures
        r == (a@ == b@),
{
    let ab = a.as_bytes();
    let bb = b.as_bytes();
    if ab.len() != bb.len() {
        proof {
            if a@ == b@ {
                assert(a.spec_bytes() == b.spec_bytes());
            }
        }
        return false;
    }
    let mut i: usize = 0;
    while i < ab.len()
        invariant
            0 <= i <= ab@.len(),
            ab@.len() == bb@.len(),
            ab@ == a.spec_bytes(),
            bb@ == b.spec_bytes(),
            forall|j: int| 0 <= j < i ==> ab@[j] == bb@[j],
        decreases ab@.len() - i,
    {
        if ab[i] != bb[i] {
            proof {
                if a@ == b@ {
                    assert(a.spec_bytes() == b.spec_bytes());
                }
            }
            return false;
        }
        i = i + 1;
    }
    proof {
        assert(a.spec_bytes() =~= b.spec_bytes());
        vstd::utf8::encode_utf8_decode_utf8(a@);
        vstd::utf8::encode_utf8_decode_utf8(b@);
        assert(a@ == b@);
    }
    true
}

/// Copies a payload value.
pub fn clone_val(v: &PayloadValue) -> (r: PayloadValue)
    ensures
        r@ == v@,
    decreases v,
{
    broadcast use lemma_view_val_seq, lemma_view_val_obj;

    match v {
        PayloadValue::Null => PayloadValue::Null,
        PayloadValue::Bool(b) => PayloadValue::Bool(*b),
        PayloadValue::Uint(n) => PayloadValue::Uint(*n),
        PayloadValue::Num(s) => PayloadValue::Num(s.clone()),
        PayloadValue::Text(s) => PayloadValue::Text(s.clone()),
        PayloadValue::List(l) => {
            let rl = clone_val_list(l);
            proof {
                assert(view_val_seq(rl@) =~= view_val_seq(l@));
            }
            PayloadValue::List(rl)
        },
        PayloadValue::Object(o) => {
            let ro = clone_val_obj(o);
            proof {
                lemma_view_val_obj(ro@);
                lemma_view_val_obj(o@);
                assert forall|i: int| 0 <= i < o@.len() implies view_val_obj(ro@)[i]
                    == view_val_obj(o@)[i] by {
                    assert(ro@[i].0@ == o@[i].0@ && view_val(ro@[i].1) == view_val(o@[i].1));
                }
                assert(view_val_obj(ro@) =~= view_val_obj(o@));
            }
            PayloadValue::Object(ro)
        },
    }
}

/// Copies a list of payload values.
#[verifier::loop_isolation(false)]
pub fn clone_val_list(l: &Vec<PayloadValue>) -> (r: Vec<PayloadValue>)
    ensures
        r@.len() == l@.len(),
        forall|i: int| 0 <= i < l@.len() ==> #[trigger] view_val(r@[i]) == view_val(l@[i]),
    decreases l,
{
    let mut out: Vec<PayloadValue> = Vec::new();
    let mut i: usize = 0;
    while i < l.len()
        invariant
            0 <= i <= l@.len(),
            out@.len() == i,
            forall|j: int| 0 <= j < i ==> #[trigger] view_val(out@[j]) == view_val(l@[j]),
        decreases l@.len() - i,
    {
        proof {
            broadcast use vstd::std_specs::vec::group_vec_axioms, vstd::seq::axiom_seq_index_decreases;

            assert(decreases_to!(*l => l@));
            assert(decreases_to!(l@ => l@[i as int]));
        }
        out.push(clone_val(&l[i]));
        i = i + 1;
    }
    out
}

/// Copies a keyed list of payload values.
#[verifier::loop_isolation(false)]
pub fn clone_val_obj(o: &Vec<(String, PayloadValue)>) -> (r: Vec<(String, PayloadValue)>)
    ensures
        r@.len() == o@.len(),
        forall|i: int|
            0 <= i < o@.len() ==> (#[trigger] r@[i]).0@ == o@[i].0@ && view_val(r@[i].1)
                == view_val(o@[i].1),
    decreases o,
{
    let mut out: Vec<(String, PayloadValue)> = Vec::new();
    let mut i: usize = 0;
    while i < o.len()
        invariant
            0 <= i <= o@.len(),
            out@.len() == i,
            forall|j: int|
                0 <= j < i ==> (#[trigger] out@[j]).0@ == o@[j].0@ && view_val(out@[j].1)
                    == view_val(o@[j].1),
        decreases o@.len() - i,
    {
        proof {
            broadcast use vstd::std_specs::vec::group_vec_axioms, vstd::seq::axiom_seq_index_decreases;

            assert(decreases_to!(*o => o@));
            assert(decreases_to!(o@ => o@[i as int]));
            assert(decreases_to!(o@[i as int] => o@[i as int].1));
        }
        let key = o[i].0.clone();
        let val = clone_val(&o[i].1);
        out.push((key, val));
        i = i + 1;
    }
    out
}

/// Copies a protocol value.
pub fn clone_arg(a: &Arg) -> (r: Arg)
    ensures
        r@ == a@,
    decreases a,
{
    broadcast use lemma_view_arg_seq, lemma_view_arg_dict;

    match a {
        Arg::Uri(s) => Arg::Uri(s.clone()),
        Arg::Id(i) => Arg::Id(*i),
        Arg::Integer(n) => Arg::Integer(*n),
        Arg::Text(s) => Arg::Text(s.clone()),
        Arg::Bool(b) => Arg::Bool(*b),
        Arg::Dict(d) => {
            let rd = clone_dict(d);
            proof {
                assert(view_arg_dict(rd@) =~= view_arg_dict(d@));
            }
            Arg::Dict(rd)
        },
        Arg::List(l) => {
            let rl = clone_arg_list(l);
            proof {
                lemma_view_arg_seq(rl@);
                lemma_view_arg_seq(l@);
                assert forall|i: int| 0 <= i < l@.len() implies view_arg_seq(rl@)[i]
                    == view_arg_seq(l@)[i] by {
                    assert(view_arg(rl@[i]) == view_arg(l@[i]));
                }
                assert(view_arg_seq(rl@) =~= view_arg_seq(l@));
            }
            Arg::List(rl)
        },
        Arg::Nil => Arg::Nil,
    }
}

/// Copies a list of protocol values.
#[verifier::loop_isolation(false)]
pub fn clone_arg_list(l: &Vec<Arg>) -> (r: Vec<Arg>)
    ensures
        r@.len() == l@.len(),
        forall|i: int| 0 <= i < l@.len() ==> #[trigger] view_arg(r@[i]) == view_arg(l@[i]),
    decreases l,
{
    let mut out: Vec<Arg> = Vec::new();
    let mut i: usize = 0;
    while i < l.len()
        invariant
            0 <= i <= l@.len(),
            out@.len() == i,
            forall|j: int| 0 <= j < i ==> #[trigger] view_arg(out@[j]) == view_arg(l@[j]),
        decreases l@.len() - i,
    {
        proof {
            broadcast use vstd::std_specs::vec::group_vec_axioms, vstd::seq::axiom_seq_index_decreases;

            assert(decreases_to!(*l => l@));
            assert(decreases_to!(l@ => l@[i as int]));
        }
        out.push(clone_arg(&l[i]));
        i = i + 1;
    }
    out
}

/// Copies a protocol dictionary.
#[verifier::loop_isolation(false)]
pub fn clone_dict(d: &WampDict) -> (r: WampDict)
    ensures
        view_dict(r) == view_dict(*d),
    decreases d,
{
    let mut out: WampDict = Vec::new();
    let mut i: usize = 0;
    while i < d.len()
        invariant
            0 <= i <= d@.len(),
            out@.len() == i,
            forall|j: int|
                0 <= j < i ==> (#[trigger] out@[j]).0@ == d@[j].0@ && view_arg(out@[j].1)
                    == view_arg(d@[j].1),
        decreases d@.len() - i,
    {
        proof {
            broadcast use vstd::std_specs::vec::group_vec_axioms, vstd::seq::axiom_seq_index_decreases;

            assert(decreases_to!(*d => d@));
            assert(decreases_to!(d@ => d@[i as int]));
            assert(decreases_to!(d@[i as int] => d@[i as int].1));
        }
        let key = d[i].0.clone();
        let val = clone_arg(&d[i].1);
        out.push((key, val));
        i = i + 1;
    }
    proof {
        broadcast use lemma_view_arg_dict;

        assert(view_dict(out) =~= view_dict(*d));
    }
    out
}

/// Overwriting the first entry carrying a key changes what lookups find
/// under that key and nothing else.
pub proof fn lemma_dict_find_update(
    d: Seq<(Seq<char>, ArgView)>,
    j: int,
    key: Seq<char>,
    val: ArgView,
)
    requires
        0 <= j < d.len(),
        d[j].0 == key,
        forall|i: int| 0 <= i < j ==> (#[trigger] d[i]).0 != key,
    ensures
        forall|k: Seq<char>|
            #[trigger] dict_find(d.update(j, (key, val)), k) == if k == key {
                Option::Some(val)
            } else {
                dict_find(d, k)
            },
    decreases j,
{
    let u = d.update(j, (key, val));
    assert forall|k: Seq<char>|
        #[trigger] dict_find(u, k) == if k == key {
            Option::Some(val)
        } else {
            dict_find(d, k)
        } by {
        if j == 0 {
            assert(u[0] == (key, val));
            if k == key {
                assert(dict_find(u, k) == Option::Some(val));
            } else {
                assert(u.skip(1) =~= d.skip(1));
                assert(dict_find(u, k) == dict_find(u.skip(1), k));
                assert(dict_find(d, k) == dict_find(d.skip(1), k));
            }
        } else {
            assert(u[0] == d[0]);
            assert(d[0].0 != key);
            if d[0].0 == k {
                assert(dict_find(u, k) == Option::Some(d[0].1));
                assert(dict_find(d, k) == Option::Some(d[0].1));
                assert(k != key);
            } else {
                let ds = d.skip(1);
                assert(ds[j - 1] == d[j]);
                assert(forall|i: int| 0 <= i < j - 1 ==> (#[trigger] ds[i]).0 != key);
                lemma_dict_find_update(ds, j - 1, key, val);
                assert(u.skip(1) =~= ds.update(j - 1, (key, val)));
                assert(dict_find(ds.update(j - 1, (key, val)), k) == if k == key {
                    Option::Some(val)
                } else {
                    dict_find(ds, k)
                });
                assert(dict_find(u, k) == dict_find(u.skip(1), k));
                assert(dict_find(d, k) == dict_find(ds, k));
            }
        }
    }
}

/// Appending an entry under a fresh key changes what lookups find under
/// that key and nothing else.
pub proof fn lemma_dict_find_push(d: Seq<(Seq<char>, ArgView)>, key: Seq<char>, val: ArgView)
    requires
        forall|i: int| 0 <= i < d.len() ==> (#[trigger] d[i]).0 != key,
    ensures
        forall|k: Seq<char>|
            #[trigger] dict_find(d.push((key, val)), k) == if k == key {
                Option::Some(val)
            } else {
                dict_find(d, k)
            },
    decreases d.len(),
{
    let u = d.push((key, val));
    assert forall|k: Seq<char>|
        #[trigger] dict_find(u, k) == if k == key {
            Option::Some(val)
        } else {
            dict_find(d, k)
        } by {
        if d.len() == 0 {
            assert(u[0] == (key, val));
            if k == key {
                assert(dict_find(u, k) == Option::Some(val));
            } else {
                assert(u.skip(1) =~= Seq::<(Seq<char>, ArgView)>::empty());
                assert(dict_find(u, k) == dict_find(u.skip(1), k));
            }
        } else {
            assert(u[0] == d[0]);
            assert(d[0].0 != key);
            if d[0].0 == k {
                assert(dict_find(u, k) == Option::Some(d[0].1));
                assert(dict_find(d, k) == Option::Some(d[0].1));
                assert(k != key);
            } else {
                let ds = d.skip(1);
                assert(forall|i: int| 0 <= i < ds.len() ==> (#[trigger] ds[i]).0 != key);
                lemma_dict_find_push(ds, key, val);
                assert(u.skip(1) =~= ds.push((key, val)));
                assert(dict_find(ds.push((key, val)), k) == if k == key {
                    Option::Some(val)
                } else {
                    dict_find(ds, k)
                });
                assert(dict_find(u, k) == dict_find(u.skip(1), k));
                assert(dict_find(d, k) == dict_find(ds, k));
            }
        }
    }
}

/// Sets a key in a protocol dictionary: the first entry carrying the key
/// is overwritten, and a fresh key is appended. Afterwards a lookup finds
/// the new value under the key and is unchanged under every other key.
#[verifier::loop_isolation(false)]
pub fn dict_set(d: &mut WampDict, key: String, value: Arg)
    ensures
        forall|k: Seq<char>|
            #[trigger] dict_find(view_dict(*final(d)), k) == if k == key@ {
                Option::Some(view_arg(value))
            } else {
                dict_find(view_dict(*old(d)), k)
            },
        final(d)@.len() == old(d)@.len() || final(d)@.len() == old(d)@.len() + 1,
{
    broadcast use lemma_view_arg_dict;

    let mut i: usize = 0;
    while i < d.len()
        invariant
            0 <= i <= d@.len(),
            *d == *old(d),
            forall|j: int| 0 <= j < i ==> (#[trigger] d@[j]).0@ != key@,
        decreases d@.len() - i,
    {
        if str_eq(d[i].0.as_str(), key.as_str()) {
            let ghost pre = view_dict(*d);
            proof {
                lemma_view_arg_dict(d@);
                assert forall|j: int| 0 <= j < i implies (#[trigger] pre[j]).0 != key@ by {
                    assert(pre[j] == (d@[j].0@, view_arg(d@[j].1)));
                }
                assert(pre[i as int] == (d@[i as int].0@, view_arg(d@[i as int].1)));
                assert(pre[i as int].0 == key@);
            }
            let ghost gkey = key@;
            let ghost gval = view_arg(value);
            d[i] = (key, value);
            proof {
                lemma_view_arg_dict(d@);
                lemma_view_arg_dict(old(d)@);
                assert forall|m: int| 0 <= m < pre.len() implies #[trigger] view_dict(*d)[m]
                    == pre.update(i as int, (gkey, gval))[m] by {
                    assert(view_dict(*d)[m] == (d@[m].0@, view_arg(d@[m].1)));
                    if m != i {
                        assert(d@[m] == old(d)@[m]);
                        assert(pre[m] == (old(d)@[m].0@, view_arg(old(d)@[m].1)));
                    }
                }
                assert(view_dict(*d) =~= pre.update(i as int, (gkey, gval)));
                lemma_dict_find_update(pre, i as int, gkey, gval);
            }
            return ;
        }
        i = i + 1;
    }
    let ghost pre = view_dict(*d);
    proof {
        lemma_view_arg_dict(d@);
        assert forall|j: int| 0 <= j < pre.len() implies (#[trigger] pre[j]).0 != key@ by {
            assert(pre[j] == (d@[j].0@, view_arg(d@[j].1)));
        }
    }
    let ghost gkey = key@;
    let ghost gval = view_arg(value);
    d.push((key, value));
    proof {
        lemma_view_arg_dict(d@);
        lemma_view_arg_dict(old(d)@);
        assert forall|m: int| 0 <= m < pre.len() + 1 implies #[trigger] view_dict(*d)[m]
            == pre.push((gkey, gval))[m] by {
            assert(view_dict(*d)[m] == (d@[m].0@, view_arg(d@[m].1)));
            if m < pre.len() {
                assert(pre[m] == (old(d)@[m].0@, view_arg(old(d)@[m].1)));
            }
        }
        assert(view_dict(*d) =~= pre.push((gkey, gval)));
        lemma_dict_find_push(pre, gkey, gval);
    }
}

} // verus!
