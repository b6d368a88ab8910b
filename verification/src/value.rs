//! The JSON value tree that the resolver works on, together with its
//! mathematical model.

use vstd::prelude::*;

verus! {

/// Mathematical model of a JSON value: numbers are integers, strings are
/// character sequences, objects are ordered key/value sequences.
pub enum ValueV {
    Null,
    Bool(bool),
    Int(int),
    Text(Seq<char>),
    Array(Seq<ValueV>),
    Object(Seq<(Seq<char>, ValueV)>),
}

/// A JSON value. Numbers are 64-bit signed integers; object members keep
/// their insertion order.
#[derive(Debug, PartialEq, Eq)]
pub enum Value {
    Null,
    Bool(bool),
    Int(i64),
    Text(String),
    Array(Vec<Value>),
    Object(Vec<(String, Value)>),
}

/// Model of a concrete JSON value.
pub open spec fn view_of(v: Value) -> ValueV
    decreases v,
{
    match v {
        Value::Null => ValueV::Null,
        Value::Bool(b) => ValueV::Bool(b),
        Value::Int(n) => ValueV::Int(n as int),
        Value::Text(s) => ValueV::Text(s@),
        Value::Array(es) => ValueV::Array(view_elems(es@)),
        Value::Object(fs) => ValueV::Object(view_fields(fs@)),
    }
}

/// Models of the elements of a JSON array.
pub open spec fn view_elems(es: Seq<Value>) -> Seq<ValueV>
    decreases es,
{
    if es.len() == 0 {
        Seq::empty()
    } else {
        seq![view_of(es[0])] + view_elems(es.drop_first())
    }
}

/// Models of the members of a JSON object.
pub open spec fn view_fields(fs: Seq<(String, Value)>) -> Seq<(Seq<char>, ValueV)>
    decreases fs,
{
    if fs.len() == 0 {
        Seq::empty()
    } else {
        seq![(fs[0].0@, view_of(fs[0].1))] + view_fields(fs.drop_first())
    }
}

/// The model of an array is the sequence of the element models.
pub proof fn lemma_view_elems(es: Seq<Value>)
    ensures
        view_elems(es).len() == es.len(),
        forall|j: int| 0 <= j < es.len() ==> view_elems(es)[j] == view_of(es[j]),
    decreases es.len(),
{
    if es.len() > 0 {
        lemma_view_elems(es.drop_first());
        assert forall|j: int| 0 <= j < es.len() implies view_elems(es)[j] == view_of(es[j]) by {
            if j > 0 {
                assert(es.drop_first()[j - 1] == es[j]);
            }
        }
    }
}

/// The model of an object is the sequence of the member models.
pub proof fn lemma_view_fields(fs: Seq<(String, Value)>)
    ensures
        view_fields(fs).len() == fs.len(),
        forall|j: int| 0 <= j < fs.len() ==> view_fields(fs)[j] == (fs[j].0@, view_of(fs[j].1)),
    decreases fs.len(),
{
    if fs.len() > 0 {
        lemma_view_fields(fs.drop_first());
        assert forall|j: int| 0 <= j < fs.len() implies view_fields(fs)[j] == (
        fs[j].0@,
        view_of(fs[j].1),
        ) by {
            if j > 0 {
                assert(fs.drop_first()[j - 1] == fs[j]);
            }
        }
    }
}

impl View for Value {
    type V = ValueV;

    open spec fn view(&self) -> ValueV {
        view_of(*self)
    }
}

/// Structural size of a model value, used as a termination measure when
/// walking a tree.
pub open spec fn vsize(v: ValueV) -> nat
    decreases v,
{
    match v {
        ValueV::Array(es) => 1 + ssize(es),
        ValueV::Object(fs) => 1 + fsize(fs),
        _ => 1,
    }
}

/// Structural size of a sequence of array elements.
pub open spec fn ssize(es: Seq<ValueV>) -> nat
    decreases es,
{
    if es.len() == 0 {
        0
    } else {
        1 + vsize(es[0]) + ssize(es.drop_first())
    }
}

/// Structural size of a sequence of object members.
pub open spec fn fsize(fs: Seq<(Seq<char>, ValueV)>) -> nat
    decreases fs,
{
    if fs.len() == 0 {
        0
    } else {
        1 + vsize(fs[0].1) + fsize(fs.drop_first())
    }
}

/// Every array element is structurally smaller than the whole sequence.
pub proof fn lemma_ssize_bound(es: Seq<ValueV>, i: int)
    requires
        0 <= i < es.len(),
    ensures
        vsize(es[i]) < ssize(es),
    decreases es.len(),
{
    if i > 0 {
        lemma_ssize_bound(es.drop_first(), i - 1);
        assert(es.drop_first()[i - 1] == es[i]);
    }
}

/// Every object member value is structurally smaller than the whole sequence.
pub proof fn lemma_fsize_bound(fs: Seq<(Seq<char>, ValueV)>, i: int)
    requires
        0 <= i < fs.len(),
    ensures
        vsize(fs[i].1) < fsize(fs),
    decreases fs.len(),
{
    if i > 0 {
        lemma_fsize_bound(fs.drop_first(), i - 1);
        assert(fs.drop_first()[i - 1] == fs[i]);
    }
}

/// Dropping the last element lowers the size by exactly that element's share.
pub proof fn lemma_ssize_drop_last(es: Seq<ValueV>)
    requires
        es.len() > 0,
    ensures
        ssize(es) == ssize(es.drop_last()) + 1 + vsize(es.last()),
    decreases es.len(),
{
    if es.len() > 1 {
        lemma_ssize_drop_last(es.drop_first());
        assert(es.drop_last().drop_first() =~= es.drop_first().drop_last());
        assert(es.drop_first().last() == es.last());
        assert(es.drop_last()[0] == es[0]);
        assert(ssize(es) == 1 + vsize(es[0]) + ssize(es.drop_first()));
        assert(ssize(es.drop_last()) == 1 + vsize(es.drop_last()[0]) + ssize(
            es.drop_last().drop_first(),
        ));
    } else {
        assert(es.drop_last() =~= Seq::<ValueV>::empty());
        assert(ssize(es) == 1 + vsize(es[0]) + ssize(es.drop_first()));
        assert(es.drop_first() =~= Seq::<ValueV>::empty());
        assert(es.last() == es[0]);
    }
}

/// Dropping the last member lowers the size by exactly that member's share.
pub proof fn lemma_fsize_drop_last(fs: Seq<(Seq<char>, ValueV)>)
    requires
        fs.len() > 0,
    ensures
        fsize(fs) == fsize(fs.drop_last()) + 1 + vsize(fs.last().1),
    decreases fs.len(),
{
    if fs.len() > 1 {
        lemma_fsize_drop_last(fs.drop_first());
        assert(fs.drop_last().drop_first() =~= fs.drop_first().drop_last());
        assert(fs.drop_first().last() == fs.last());
        assert(fs.drop_last()[0] == fs[0]);
        assert(fsize(fs) == 1 + vsize(fs[0].1) + fsize(fs.drop_first()));
        assert(fsize(fs.drop_last()) == 1 + vsize(fs.drop_last()[0].1) + fsize(
            fs.drop_last().drop_first(),
        ));
    } else {
        assert(fs.drop_last() =~= Seq::<(Seq<char>, ValueV)>::empty());
        assert(fsize(fs) == 1 + vsize(fs[0].1) + fsize(fs.drop_first()));
        assert(fs.drop_first() =~= Seq::<(Seq<char>, ValueV)>::empty());
        assert(fs.last() == fs[0]);
    }
}

impl Value {
    /// A deep copy of the value.
    pub fn duplicate(&self) -> (r: Value)
        ensures
            r@ == self@,
        decreases vsize(self@),
    {
        match self {
            Value::Null => Value::Null,
            Value::Bool(b) => Value::Bool(*b),
            Value::Int(n) => Value::Int(*n),
            Value::Text(s) => Value::Text(s.clone()),
            Value::Array(es) => {
                proof {
                    lemma_view_elems(es@);
                }
                let mut out: Vec<Value> = Vec::new();
                let mut i: usize = 0;
                while i < es.len()
                    invariant
                        i <= es.len(),
                        out@.len() == i as int,
                        forall|j: int| 0 <= j < i ==> view_of(#[trigger] out@[j]) == view_of(es@[j]),
                        *self == Value::Array(*es),
                        vsize(self@) == 1 + ssize(view_elems(es@)),
                        view_elems(es@).len() == es@.len(),
                        forall|j: int|
                            0 <= j < es@.len() ==> view_elems(es@)[j] == view_of(#[trigger] es@[j]),
                    decreases es.len() - i,
                {
                    proof {
                        lemma_ssize_bound(view_elems(es@), i as int);
                    }
                    let e = es[i].duplicate();
                    out.push(e);
                    i = i + 1;
                }
                let r = Value::Array(out);
                proof {
                    lemma_view_elems(out@);
                    assert(view_elems(out@) =~= view_elems(es@));
                }
                r
            },
            Value::Object(fs) => {
                proof {
                    lemma_view_fields(fs@);
                }
                let mut out: Vec<(String, Value)> = Vec::new();
                let mut i: usize = 0;
                while i < fs.len()
                    invariant
                        i <= fs.len(),
                        out@.len() == i as int,
                        forall|j: int|
                            0 <= j < i ==> (#[trigger] out@[j]).0@ == fs@[j].0@ && view_of(
                                out@[j].1,
                            ) == view_of(fs@[j].1),
                        *self == Value::Object(*fs),
                        vsize(self@) == 1 + fsize(view_fields(fs@)),
                        view_fields(fs@).len() == fs@.len(),
                        forall|j: int|
                            0 <= j < fs@.len() ==> view_fields(fs@)[j] == ((
                            #[trigger] fs@[j]).0@, view_of(fs@[j].1)),
                    decreases fs.len() - i,
                {
                    proof {
                        lemma_fsize_bound(view_fields(fs@), i as int);
                    }
                    let k = fs[i].0.clone();
                    let v = fs[i].1.duplicate();
                    out.push((k, v));
                    i = i + 1;
                }
                let r = Value::Object(out);
                proof {
                    lemma_view_fields(out@);
                    assert(view_fields(out@) =~= view_fields(fs@));
                }
                r
            },
        }
    }
}

} // verus!
