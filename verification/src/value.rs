//! The value model: parsed literal values and function calls, their
//! mathematical views, well-formedness, and structural equality.

use vstd::prelude::*;

verus! {

broadcast use vstd::seq::group_seq_axioms, vstd::std_specs::vec::group_vec_axioms, vstd::map::group_map_axioms, vstd::set::group_set_axioms;

/// Mathematical view of a parsed value.
///
/// A dict literal is flattened at parse time into a `List` of alternating
/// key/value entries, so no dict variant exists here.  A number is modelled by
/// the characters of its literal; decoding to a machine float is a boundary
/// concern outside the parsing core.
pub enum ValueView {
    Bool(bool),
    Number(Seq<char>),
    String(Seq<char>),
    Identifier(Seq<char>),
    Empty,
    List(Seq<ValueView>),
    FunctionCall(CallView),
}

/// Mathematical view of a function call: a name and a keyword-argument
/// mapping.  Keys are unique, and the order among distinct keys carries no
/// meaning, so the kwargs are a map.
pub struct CallView {
    pub name: Seq<char>,
    pub kwargs: Map<Seq<char>, ValueView>,
}

/// A parsed literal value.
///
/// `Number` holds the characters of the numeric literal exactly as they stood
/// in the source; every such literal denotes a binary64 value, and decoding is
/// left to the caller at the boundary.
#[derive(Debug, PartialEq)]
pub enum Value {
    Bool(bool),
    Number(String),
    String(String),
    Identifier(String),
    Empty,
    List(Vec<Value>),
    FunctionCall(FunctionCall),
}

/// A parsed function call: its name and its keyword arguments.
///
/// The kwargs are kept as a vector of pairs whose keys are unique; if a key
/// appears twice in the source, the later occurrence overwrites the earlier
/// one.  The view flattens the vector into a map, so the order among distinct
/// keys carries no meaning in contracts.
#[derive(Debug, PartialEq)]
pub struct FunctionCall {
    pub name: String,
    pub kwargs: Vec<(String, Value)>,
}

/// View of a sequence of values, elementwise.
pub open spec fn view_seq(s: Seq<Value>) -> Seq<ValueView>
    decreases s,
{
    if s.len() == 0 {
        Seq::empty()
    } else {
        view_seq(s.drop_last()).push(s.last()@)
    }
}

/// View of a kwargs vector: each pair inserted left to right, so a later
/// occurrence of a key overwrites an earlier one.
pub open spec fn kwargs_view(kw: Seq<(String, Value)>) -> Map<Seq<char>, ValueView>
    decreases kw,
{
    if kw.len() == 0 {
        Map::empty()
    } else {
        kwargs_view(kw.drop_last()).insert(kw.last().0@, kw.last().1@)
    }
}

impl View for Value {
    type V = ValueView;

    open spec fn view(&self) -> ValueView
        decreases self,
    {
        match self {
            Value::Bool(b) => ValueView::Bool(*b),
            Value::Number(t) => ValueView::Number(t@),
            Value::String(t) => ValueView::String(t@),
            Value::Identifier(t) => ValueView::Identifier(t@),
            Value::Empty => ValueView::Empty,
            Value::List(l) => ValueView::List(view_seq(l@)),
            Value::FunctionCall(c) => ValueView::FunctionCall(c@),
        }
    }
}

impl View for FunctionCall {
    type V = CallView;

    open spec fn view(&self) -> CallView
        decreases self,
    {
        CallView { name: self.name@, kwargs: kwargs_view(self.kwargs@) }
    }
}

/// View of a vector of calls, elementwise.
pub open spec fn calls_view(s: Seq<FunctionCall>) -> Seq<CallView>
    decreases s,
{
    if s.len() == 0 {
        Seq::empty()
    } else {
        calls_view(s.drop_last()).push(s.last()@)
    }
}

/// Distinct keys in a kwargs vector.
pub open spec fn kwargs_wf(kw: Seq<(String, Value)>) -> bool {
    forall|i: int, j: int| 0 <= i < j < kw.len() ==> kw[i].0@ != kw[j].0@
}

impl Value {
    /// Well-formedness: every function call nested in the value has distinct
    /// keyword-argument keys.
    pub open spec fn wf(&self) -> bool
        decreases self,
    {
        match self {
            Value::List(l) => forall|i: int| 0 <= i < l@.len() ==> (#[trigger] l@[i]).wf(),
            Value::FunctionCall(c) => c.wf(),
            _ => true,
        }
    }
}

impl FunctionCall {
    /// Well-formedness: distinct keyword-argument keys, and well-formed
    /// argument values.
    pub open spec fn wf(&self) -> bool
        decreases self,
    {
        &&& kwargs_wf(self.kwargs@)
        &&& forall|i: int| 0 <= i < self.kwargs@.len() ==> (#[trigger] self.kwargs@[i]).1.wf()
    }
}

pub broadcast proof fn lemma_view_seq_len(s: Seq<Value>)
    ensures
        (#[trigger] view_seq(s)).len() == s.len(),
    decreases s,
{
    if s.len() > 0 {
        lemma_view_seq_len(s.drop_last());
        assert(view_seq(s) == view_seq(s.drop_last()).push(s.last()@));
    }
}

pub broadcast proof fn lemma_view_seq_index(s: Seq<Value>, i: int)
    requires
        0 <= i < s.len(),
    ensures
        #[trigger] view_seq(s)[i] == s[i]@,
    decreases s,
{
    lemma_view_seq_len(s.drop_last());
    assert(view_seq(s) == view_seq(s.drop_last()).push(s.last()@));
    if i < s.len() - 1 {
        lemma_view_seq_index(s.drop_last(), i);
        assert(s.drop_last()[i] == s[i]);
    }
}

pub broadcast proof fn lemma_calls_view_len(s: Seq<FunctionCall>)
    ensures
        (#[trigger] calls_view(s)).len() == s.len(),
    decreases s,
{
    if s.len() > 0 {
        lemma_calls_view_len(s.drop_last());
        assert(calls_view(s) == calls_view(s.drop_last()).push(s.last()@));
    }
}

pub broadcast proof fn lemma_calls_view_index(s: Seq<FunctionCall>, i: int)
    requires
        0 <= i < s.len(),
    ensures
        #[trigger] calls_view(s)[i] == s[i]@,
    decreases s,
{
    lemma_calls_view_len(s.drop_last());
    assert(calls_view(s) == calls_view(s.drop_last()).push(s.last()@));
    if i < s.len() - 1 {
        lemma_calls_view_index(s.drop_last(), i);
        assert(s.drop_last()[i] == s[i]);
    }
}

pub broadcast proof fn lemma_view_seq_push(s: Seq<Value>, x: Value)
    ensures
        #[trigger] view_seq(s.push(x)) == view_seq(s).push(x@),
{
    assert(s.push(x).drop_last() =~= s);
    assert(s.push(x).last() == x);
    assert(view_seq(s.push(x)) == view_seq(s.push(x).drop_last()).push(s.push(x).last()@));
}

pub broadcast proof fn lemma_calls_view_push(s: Seq<FunctionCall>, x: FunctionCall)
    ensures
        #[trigger] calls_view(s.push(x)) == calls_view(s).push(x@),
{
    assert(s.push(x).drop_last() =~= s);
    assert(s.push(x).last() == x);
    assert(calls_view(s.push(x)) == calls_view(s.push(x).drop_last()).push(s.push(x).last()@));
}

pub proof fn lemma_calls_view_add(a: Seq<FunctionCall>, b: Seq<FunctionCall>)
    ensures
        calls_view(a + b) == calls_view(a) + calls_view(b),
    decreases b,
{
    if b.len() == 0 {
        assert(a + b =~= a);
        assert(calls_view(b) =~= Seq::<CallView>::empty());
        assert(calls_view(a) + calls_view(b) =~= calls_view(a));
    } else {
        lemma_calls_view_add(a, b.drop_last());
        assert((a + b).drop_last() =~= a + b.drop_last());
        assert((a + b).last() == b.last());
        assert(calls_view(a + b) == calls_view((a + b).drop_last()).push((a + b).last()@));
        assert(calls_view(b) == calls_view(b.drop_last()).push(b.last()@));
        assert(calls_view(a) + calls_view(b.drop_last()).push(b.last()@) =~= (calls_view(a)
            + calls_view(b.drop_last())).push(b.last()@));
    }
}

/// The domain of a kwargs view is exactly its set of keys, and with distinct
/// keys each pair is found in the map unchanged.
pub proof fn lemma_kwargs_view_lookup(kw: Seq<(String, Value)>)
    ensures
        forall|k: Seq<char>| kwargs_view(kw).dom().contains(k) <==> exists|i: int|
            0 <= i < kw.len() && (#[trigger] kw[i]).0@ == k,
        kwargs_wf(kw) ==> forall|i: int| 0 <= i < kw.len() ==> {
            &&& kwargs_view(kw).dom().contains((#[trigger] kw[i]).0@)
            &&& kwargs_view(kw)[kw[i].0@] == kw[i].1@
        },
    decreases kw,
{
    if kw.len() > 0 {
        lemma_kwargs_view_lookup(kw.drop_last());
        assert(kwargs_view(kw) == kwargs_view(kw.drop_last()).insert(kw.last().0@, kw.last().1@));
        assert forall|k: Seq<char>| kwargs_view(kw).dom().contains(k) implies exists|i: int|
            0 <= i < kw.len() && (#[trigger] kw[i]).0@ == k by {
            if k == kw.last().0@ {
                assert(kw[kw.len() - 1].0@ == k);
            } else {
                assert(kwargs_view(kw.drop_last()).dom().contains(k));
                let i = choose|i: int| 0 <= i < kw.drop_last().len() && (#[trigger] kw.drop_last()[i]).0@ == k;
                assert(kw.drop_last()[i] == kw[i]);
                assert(kw[i].0@ == k);
            }
        }
        assert forall|k: Seq<char>| (exists|i: int| 0 <= i < kw.len() && (#[trigger] kw[i]).0@ == k)
            implies kwargs_view(kw).dom().contains(k) by {
            let i = choose|i: int| 0 <= i < kw.len() && (#[trigger] kw[i]).0@ == k;
            if i < kw.len() - 1 {
                assert(kw.drop_last()[i].0@ == k);
            }
        }
        if kwargs_wf(kw) {
            assert(kwargs_wf(kw.drop_last())) by {
                assert(forall|i: int, j: int| 0 <= i < j < kw.drop_last().len()
                    ==> kw.drop_last()[i].0@ == kw[i].0@ && kw.drop_last()[j].0@ == kw[j].0@);
            }
            assert forall|i: int| 0 <= i < kw.len() implies {
                &&& kwargs_view(kw).dom().contains((#[trigger] kw[i]).0@)
                &&& kwargs_view(kw)[kw[i].0@] == kw[i].1@
            } by {
                if i < kw.len() - 1 {
                    assert(kw.drop_last()[i] == kw[i]);
                    assert(kw[i].0@ != kw.last().0@);
                }
            }
        }
    }
}

/// Every call in a sequence is well-formed.
pub open spec fn calls_wf(s: Seq<FunctionCall>) -> bool {
    forall|i: int| 0 <= i < s.len() ==> (#[trigger] s[i]).wf()
}

/// A sequence of call views holds a given call view.
pub open spec fn contains_call(s: Seq<CallView>, c: CallView) -> bool {
    exists|i: int| 0 <= i < s.len() && s[i] == c
}

/// With distinct keys, the view of an in-place update at a key's position is
/// the map with that key re-bound.
pub proof fn lemma_kwargs_view_update(kw: Seq<(String, Value)>, i: int, p: (String, Value))
    requires
        0 <= i < kw.len(),
        kwargs_wf(kw),
        kw[i].0@ == p.0@,
    ensures
        kwargs_view(kw.update(i, p)) == kwargs_view(kw).insert(p.0@, p.1@),
    decreases kw,
{
    let up = kw.update(i, p);
    assert(up.len() == kw.len());
    if i == kw.len() - 1 {
        assert(up.drop_last() =~= kw.drop_last());
        assert(kwargs_view(up) == kwargs_view(up.drop_last()).insert(up.last().0@, up.last().1@));
        assert(kwargs_view(kw) == kwargs_view(kw.drop_last()).insert(kw.last().0@, kw.last().1@));
        assert(kwargs_view(kw).insert(p.0@, p.1@) =~= kwargs_view(kw.drop_last()).insert(p.0@, p.1@));
        assert(kwargs_view(up) =~= kwargs_view(kw).insert(p.0@, p.1@));
    } else {
        assert(kwargs_wf(kw.drop_last())) by {
            assert(forall|x: int, y: int| 0 <= x < y < kw.drop_last().len()
                ==> kw.drop_last()[x].0@ == kw[x].0@ && kw.drop_last()[y].0@ == kw[y].0@);
        }
        assert(kw.drop_last()[i] == kw[i]);
        lemma_kwargs_view_update(kw.drop_last(), i, p);
        assert(up.drop_last() =~= kw.drop_last().update(i, p));
        assert(up.last() == kw.last());
        assert(kwargs_view(up) == kwargs_view(up.drop_last()).insert(kw.last().0@, kw.last().1@));
        assert(kwargs_view(kw) == kwargs_view(kw.drop_last()).insert(kw.last().0@, kw.last().1@));
        // the two inserted keys differ, so the inserts commute
        assert(kw[i].0@ != kw.last().0@);
        assert(kwargs_view(up) =~= kwargs_view(kw).insert(p.0@, p.1@));
    }
}

/// Index of a key in a kwargs vector, if present.
pub fn kwargs_find(kw: &Vec<(String, Value)>, key: &String) -> (r: Option<usize>)
    ensures
        match r {
            Some(i) => i < kw@.len() && kw@[i as int].0@ == key@,
            None => forall|i: int| 0 <= i < kw@.len() ==> (#[trigger] kw@[i]).0@ != key@,
        },
{
    let mut i: usize = 0;
    while i < kw.len()
        invariant
            i <= kw@.len(),
            forall|j: int| 0 <= j < i ==> (#[trigger] kw@[j]).0@ != key@,
        decreases kw@.len() - i,
    {
        if kw[i].0 == *key {
            return Some(i);
        }
        i = i + 1;
    }
    None
}

/// Bind a keyword argument: a later occurrence of a key overwrites the
/// earlier one in place, and a fresh key is appended.
pub fn kwargs_insert(kw: &mut Vec<(String, Value)>, key: String, val: Value)
    requires
        kwargs_wf(old(kw)@),
        forall|i: int| 0 <= i < old(kw)@.len() ==> (#[trigger] old(kw)@[i]).1.wf(),
        val.wf(),
    ensures
        kwargs_wf(final(kw)@),
        forall|i: int| 0 <= i < final(kw)@.len() ==> (#[trigger] final(kw)@[i]).1.wf(),
        kwargs_view(final(kw)@) == kwargs_view(old(kw)@).insert(key@, val@),
{
    let found = kwargs_find(kw, &key);
    match found {
        Some(i) => {
            proof {
                lemma_kwargs_view_update(kw@, i as int, (key, val));
            }
            kw.set(i, (key, val));
            assert forall|x: int, y: int| 0 <= x < y < kw@.len() implies kw@[x].0@ != kw@[y].0@ by {
                assert(kw@[x].0@ == old(kw)@[x].0@ && kw@[y].0@ == old(kw)@[y].0@);
            }
        },
        None => {
            kw.push((key, val));
            proof {
                assert(kw@.drop_last() =~= old(kw)@);
                assert(kwargs_view(kw@) == kwargs_view(old(kw)@).insert(key@, val@));
                assert forall|x: int, y: int| 0 <= x < y < kw@.len() implies kw@[x].0@ != kw@[y].0@ by {
                    if y < kw@.len() - 1 {
                        assert(kw@[x].0@ == old(kw)@[x].0@ && kw@[y].0@ == old(kw)@[y].0@);
                    } else {
                        assert(kw@[x] == old(kw)@[x]);
                    }
                }
            }
        },
    }
}

/// With distinct keys, the domain of the kwargs view is finite and has one
/// element per pair.
pub proof fn lemma_kwargs_dom_card(kw: Seq<(String, Value)>)
    requires
        kwargs_wf(kw),
    ensures
        kwargs_view(kw).dom().finite(),
        kwargs_view(kw).dom().len() == kw.len(),
    decreases kw,
{
    if kw.len() > 0 {
        assert(kwargs_wf(kw.drop_last())) by {
            assert(forall|x: int, y: int| 0 <= x < y < kw.drop_last().len()
                ==> kw.drop_last()[x].0@ == kw[x].0@ && kw.drop_last()[y].0@ == kw[y].0@);
        }
        lemma_kwargs_dom_card(kw.drop_last());
        lemma_kwargs_view_lookup(kw.drop_last());
        assert(kwargs_view(kw) == kwargs_view(kw.drop_last()).insert(kw.last().0@, kw.last().1@));
        let prev = kwargs_view(kw.drop_last()).dom();
        assert(!prev.contains(kw.last().0@)) by {
            if prev.contains(kw.last().0@) {
                let i = choose|i: int| 0 <= i < kw.drop_last().len()
                    && (#[trigger] kw.drop_last()[i]).0@ == kw.last().0@;
                assert(kw[i].0@ == kw[kw.len() - 1].0@);
            }
        }
        assert(kwargs_view(kw).dom() =~= prev.insert(kw.last().0@));
    } else {
        assert(kwargs_view(kw).dom() =~= Set::<Seq<char>>::empty());
    }
}

/// The kwargs view of one vector is contained, key for key and value for
/// value, in that of another.
fn kwargs_submap(akw: &Vec<(String, Value)>, bkw: &Vec<(String, Value)>) -> (r: bool)
    requires
        kwargs_wf(akw@),
        kwargs_wf(bkw@),
        forall|i: int| 0 <= i < akw@.len() ==> (#[trigger] akw@[i]).1.wf(),
        forall|i: int| 0 <= i < bkw@.len() ==> (#[trigger] bkw@[i]).1.wf(),
    ensures
        r == (forall|k: Seq<char>| #[trigger] kwargs_view(akw@).dom().contains(k)
            ==> kwargs_view(bkw@).dom().contains(k) && kwargs_view(bkw@)[k] == kwargs_view(akw@)[k]),
    decreases akw,
{
    proof {
        lemma_kwargs_view_lookup(akw@);
        lemma_kwargs_view_lookup(bkw@);
    }
    let va = Ghost(kwargs_view(akw@));
    let vb = Ghost(kwargs_view(bkw@));
    let mut i: usize = 0;
    while i < akw.len()
        invariant
            i <= akw@.len(),
            kwargs_wf(akw@),
            kwargs_wf(bkw@),
            forall|x: int| 0 <= x < akw@.len() ==> (#[trigger] akw@[x]).1.wf(),
            forall|x: int| 0 <= x < bkw@.len() ==> (#[trigger] bkw@[x]).1.wf(),
            va@ == kwargs_view(akw@),
            vb@ == kwargs_view(bkw@),
            forall|x: int| 0 <= x < akw@.len() ==> va@.dom().contains((#[trigger] akw@[x]).0@)
                && va@[akw@[x].0@] == akw@[x].1@,
            forall|x: int| 0 <= x < bkw@.len() ==> vb@.dom().contains((#[trigger] bkw@[x]).0@)
                && vb@[bkw@[x].0@] == bkw@[x].1@,
            forall|k: Seq<char>| va@.dom().contains(k) <==> exists|x: int|
                0 <= x < akw@.len() && (#[trigger] akw@[x]).0@ == k,
            forall|k: Seq<char>| vb@.dom().contains(k) <==> exists|x: int|
                0 <= x < bkw@.len() && (#[trigger] bkw@[x]).0@ == k,
            forall|x: int| 0 <= x < i ==> vb@.dom().contains((#[trigger] akw@[x]).0@)
                && vb@[akw@[x].0@] == va@[akw@[x].0@],
        decreases akw@.len() - i,
    {
        let found = kwargs_find(bkw, &akw[i].0);
        match found {
            Some(j) => {
                if !value_eq(&akw[i].1, &bkw[j].1) {
                    proof {
                        let k = akw@[i as int].0@;
                        assert(vb@[k] == bkw@[j as int].1@);
                        assert(va@[k] == akw@[i as int].1@);
                    }
                    return false;
                }
            },
            None => {
                proof {
                    let k = akw@[i as int].0@;
                    assert(va@.dom().contains(k));
                    assert(!vb@.dom().contains(k));
                }
                return false;
            },
        }
        i = i + 1;
    }
    proof {
        assert forall|k: Seq<char>| va@.dom().contains(k) implies vb@.dom().contains(k)
            && vb@[k] == va@[k] by {
            let x = choose|x: int| 0 <= x < akw@.len() && (#[trigger] akw@[x]).0@ == k;
            assert(vb@.dom().contains(akw@[x].0@) && vb@[akw@[x].0@] == va@[akw@[x].0@]);
        }
    }
    true
}

/// A value's view is built by the constructor matching the value's own.
pub proof fn lemma_view_variant(v: &Value)
    ensures
        v matches Value::Bool(x) ==> v@ == ValueView::Bool(*x),
        v matches Value::Number(t) ==> v@ == ValueView::Number(t@),
        v matches Value::String(t) ==> v@ == ValueView::String(t@),
        v matches Value::Identifier(t) ==> v@ == ValueView::Identifier(t@),
        v matches Value::Empty ==> v@ == ValueView::Empty,
        v matches Value::List(l) ==> v@ == ValueView::List(view_seq(l@)),
        v matches Value::FunctionCall(c) ==> v@ == ValueView::FunctionCall(c@),
{
    match v {
        Value::Bool(x) => assert(v@ == ValueView::Bool(*x)),
        Value::Number(t) => assert(v@ == ValueView::Number(t@)),
        Value::String(t) => assert(v@ == ValueView::String(t@)),
        Value::Identifier(t) => assert(v@ == ValueView::Identifier(t@)),
        Value::Empty => assert(v@ == ValueView::Empty),
        Value::List(l) => assert(v@ == ValueView::List(view_seq(l@))),
        Value::FunctionCall(c) => assert(v@ == ValueView::FunctionCall(c@)),
    }
}

/// Structural equality of two values, where nested keyword-argument maps are
/// compared as maps.
pub fn value_eq(a: &Value, b: &Value) -> (r: bool)
    requires
        a.wf(),
        b.wf(),
    ensures
        r == (a@ == b@),
    decreases a,
{
    proof {
        lemma_view_variant(a);
        lemma_view_variant(b);
    }
    match (a, b) {
        (Value::Bool(x), Value::Bool(y)) => *x == *y,
        (Value::Number(x), Value::Number(y)) => *x == *y,
        (Value::String(x), Value::String(y)) => *x == *y,
        (Value::Identifier(x), Value::Identifier(y)) => *x == *y,
        (Value::Empty, Value::Empty) => true,
        (Value::List(x), Value::List(y)) => values_vec_eq(x, y),
        (Value::FunctionCall(x), Value::FunctionCall(y)) => call_eq(x, y),
        _ => false,
    }
}

/// Elementwise structural equality of two vectors of values.
fn values_vec_eq(x: &Vec<Value>, y: &Vec<Value>) -> (r: bool)
    requires
        forall|i: int| 0 <= i < x@.len() ==> (#[trigger] x@[i]).wf(),
        forall|i: int| 0 <= i < y@.len() ==> (#[trigger] y@[i]).wf(),
    ensures
        r == (view_seq(x@) == view_seq(y@)),
    decreases x,
{
    proof {
        lemma_view_seq_len(x@);
        lemma_view_seq_len(y@);
    }
    if x.len() != y.len() {
        return false;
    }
    let mut i: usize = 0;
    while i < x.len()
        invariant
            i <= x@.len(),
            x@.len() == y@.len(),
            forall|j: int| 0 <= j < x@.len() ==> (#[trigger] x@[j]).wf(),
            forall|j: int| 0 <= j < y@.len() ==> (#[trigger] y@[j]).wf(),
            forall|j: int| 0 <= j < i ==> view_seq(x@)[j] == view_seq(y@)[j],
        decreases x@.len() - i,
    {
        proof {
            lemma_view_seq_index(x@, i as int);
            lemma_view_seq_index(y@, i as int);
        }
        if !value_eq(&x[i], &y[i]) {
            proof {
                lemma_view_seq_len(x@);
                lemma_view_seq_len(y@);
            }
            return false;
        }
        i = i + 1;
    }
    proof {
        lemma_view_seq_len(x@);
        lemma_view_seq_len(y@);
        assert(view_seq(x@) =~= view_seq(y@));
    }
    true
}

/// Structural equality of two calls: equal names and equal keyword-argument
/// maps; the order among distinct keys does not matter.
pub fn call_eq(a: &FunctionCall, b: &FunctionCall) -> (r: bool)
    requires
        a.wf(),
        b.wf(),
    ensures
        r == (a@ == b@),
    decreases a,
{
    proof {
        lemma_kwargs_dom_card(a.kwargs@);
        lemma_kwargs_dom_card(b.kwargs@);
    }
    if !(a.name == b.name) {
        return false;
    }
    if a.kwargs.len() != b.kwargs.len() {
        // the domains have as many keys as the vectors have pairs, so the
        // maps cannot be equal
        return false;
    }
    let fwd = kwargs_submap(&a.kwargs, &b.kwargs);
    if fwd {
        proof {
            let va = kwargs_view(a.kwargs@);
            let vb = kwargs_view(b.kwargs@);
            assert forall|k: Seq<char>| va.dom().contains(k) implies vb.dom().contains(k) by {
                assert(kwargs_view(a.kwargs@).dom().contains(k));
            }
            assert(va.dom().subset_of(vb.dom()));
            vstd::set_lib::lemma_subset_equality(va.dom(), vb.dom());
            assert(va =~= vb);
        }
        true
    } else {
        false
    }
}

/// A deep copy of a value; the copy has the same view.
pub fn copy_value(a: &Value) -> (r: Value)
    ensures
        r@ == a@,
        a.wf() ==> r.wf(),
    decreases a,
{
    proof {
        lemma_view_variant(a);
    }
    match a {
        Value::Bool(x) => Value::Bool(*x),
        Value::Number(x) => Value::Number(x.clone()),
        Value::String(x) => Value::String(x.clone()),
        Value::Identifier(x) => Value::Identifier(x.clone()),
        Value::Empty => Value::Empty,
        Value::List(x) => {
            let out = copy_values_vec(x);
            let r = Value::List(out);
            proof {
                lemma_view_variant(&r);
                if a.wf() {
                    assert(forall|j: int| 0 <= j < x@.len() ==> (#[trigger] x@[j]).wf());
                    assert forall|j: int| 0 <= j < out@.len() implies (#[trigger] out@[j]).wf() by {
                        assert(x@[j].wf());
                    }
                    assert(r.wf());
                }
            }
            r
        },
        Value::FunctionCall(x) => {
            let r = Value::FunctionCall(copy_call(x));
            proof {
                lemma_view_variant(&r);
            }
            r
        },
    }
}

/// A deep copy of a vector of values, elementwise.
fn copy_values_vec(x: &Vec<Value>) -> (r: Vec<Value>)
    ensures
        view_seq(r@) == view_seq(x@),
        r@.len() == x@.len(),
        forall|j: int| 0 <= j < x@.len() ==> ((#[trigger] x@[j]).wf() ==> r@[j].wf()),
    decreases x,
{
    let mut out: Vec<Value> = Vec::new();
    let mut i: usize = 0;
    while i < x.len()
        invariant
            i <= x@.len(),
            out@.len() == i,
            forall|j: int| 0 <= j < i ==> (#[trigger] out@[j])@ == x@[j]@
                && (x@[j].wf() ==> out@[j].wf()),
        decreases x@.len() - i,
    {
        let c = copy_value(&x[i]);
        out.push(c);
        i = i + 1;
    }
    proof {
        lemma_view_seq_len(out@);
        lemma_view_seq_len(x@);
        assert forall|j: int| 0 <= j < x@.len() implies view_seq(out@)[j] == view_seq(x@)[j] by {
            lemma_view_seq_index(out@, j);
            lemma_view_seq_index(x@, j);
        }
        assert(view_seq(out@) =~= view_seq(x@));
    }
    out
}

/// A deep copy of a call; the copy has the same view.
pub fn copy_call(a: &FunctionCall) -> (r: FunctionCall)
    ensures
        r@ == a@,
        a.wf() ==> r.wf(),
    decreases a,
{
    let mut kw: Vec<(String, Value)> = Vec::new();
    let mut i: usize = 0;
    while i < a.kwargs.len()
        invariant
            i <= a.kwargs@.len(),
            kw@.len() == i,
            forall|j: int| 0 <= j < i ==> (#[trigger] kw@[j]).0@ == a.kwargs@[j].0@
                && kw@[j].1@ == a.kwargs@[j].1@
                && (a.kwargs@[j].1.wf() ==> kw@[j].1.wf()),
        decreases a.kwargs@.len() - i,
    {
        let key = a.kwargs[i].0.clone();
        let val = copy_value(&a.kwargs[i].1);
        kw.push((key, val));
        i = i + 1;
    }
    proof {
        lemma_kwargs_view_agree(kw@, a.kwargs@);
    }
    FunctionCall { name: a.name.clone(), kwargs: kw }
}

/// Two kwargs vectors with pointwise equal keys and value views have the same
/// view.
proof fn lemma_kwargs_view_agree(x: Seq<(String, Value)>, y: Seq<(String, Value)>)
    requires
        x.len() == y.len(),
        forall|j: int| 0 <= j < x.len() ==> (#[trigger] x[j]).0@ == y[j].0@ && x[j].1@ == y[j].1@,
    ensures
        kwargs_view(x) == kwargs_view(y),
    decreases x,
{
    if x.len() > 0 {
        assert(forall|j: int| 0 <= j < x.drop_last().len()
            ==> (#[trigger] x.drop_last()[j]) == x[j] && y.drop_last()[j] == y[j]);
        lemma_kwargs_view_agree(x.drop_last(), y.drop_last());
        assert(kwargs_view(x) == kwargs_view(x.drop_last()).insert(x.last().0@, x.last().1@));
        assert(kwargs_view(y) == kwargs_view(y.drop_last()).insert(y.last().0@, y.last().1@));
        assert(x[x.len() - 1].0@ == y[x.len() - 1].0@ && x[x.len() - 1].1@ == y[x.len() - 1].1@);
    }
}

/// A deep copy of a vector of calls; the copy has the same view, elementwise.
pub fn copy_calls(v: &Vec<FunctionCall>) -> (r: Vec<FunctionCall>)
    ensures
        calls_view(r@) == calls_view(v@),
        calls_wf(v@) ==> calls_wf(r@),
{
    let mut out: Vec<FunctionCall> = Vec::new();
    let mut i: usize = 0;
    while i < v.len()
        invariant
            i <= v@.len(),
            out@.len() == i,
            forall|j: int| 0 <= j < i ==> (#[trigger] out@[j])@ == v@[j]@
                && (v@[j].wf() ==> out@[j].wf()),
        decreases v@.len() - i,
    {
        let c = copy_call(&v[i]);
        out.push(c);
        i = i + 1;
    }
    proof {
        lemma_calls_view_len(out@);
        lemma_calls_view_len(v@);
        assert forall|j: int| 0 <= j < v@.len() implies calls_view(out@)[j] == calls_view(v@)[j] by {
            lemma_calls_view_index(out@, j);
            lemma_calls_view_index(v@, j);
        }
        assert(calls_view(out@) =~= calls_view(v@));
    }
    out
}

/// Whether a vector of calls holds one structurally equal to the given call.
pub fn calls_contains(v: &Vec<FunctionCall>, c: &FunctionCall) -> (r: bool)
    requires
        calls_wf(v@),
        c.wf(),
    ensures
        r == contains_call(calls_view(v@), c@),
{
    proof {
        lemma_calls_view_len(v@);
    }
    let mut i: usize = 0;
    while i < v.len()
        invariant
            i <= v@.len(),
            calls_wf(v@),
            c.wf(),
            calls_view(v@).len() == v@.len(),
            forall|j: int| 0 <= j < i ==> calls_view(v@)[j] != c@,
        decreases v@.len() - i,
    {
        proof {
            lemma_calls_view_index(v@, i as int);
        }
        if call_eq(&v[i], c) {
            return true;
        }
        i = i + 1;
    }
    false
}

} // verus!
