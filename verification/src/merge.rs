//! The two recursive merge strategies for combining JSON values: `add`
//! (existing values win) and `override` (incoming values win).

use vstd::prelude::*;

use crate::util::str_eq;
use crate::value::{fsize, lemma_fsize_bound, lemma_ssize_bound, lemma_view_elems,
    lemma_view_fields, ssize, view_elems, view_fields, vsize, Value, ValueV};

verus! {

/// Whether a model value is a scalar: neither an array nor an object.
pub open spec fn is_scalar(v: ValueV) -> bool {
    !(v is Array) && !(v is Object)
}

/// The position of the first member of `x` with key `k`.
pub open spec fn first_key_idx(x: Seq<(Seq<char>, ValueV)>, k: Seq<char>) -> Option<int>
    decreases x.len(),
{
    if x.len() == 0 {
        None
    } else if x[0].0 == k {
        Some(0int)
    } else {
        match first_key_idx(x.drop_first(), k) {
            Some(i) => Some(i + 1),
            None => None,
        }
    }
}

/// What `first_key_idx` finds: the first member with the key, if any.
pub proof fn lemma_first_key_idx(x: Seq<(Seq<char>, ValueV)>, k: Seq<char>)
    ensures
        match first_key_idx(x, k) {
            Some(i) => 0 <= i < x.len() && x[i].0 == k && (forall|j: int|
                0 <= j < i ==> (#[trigger] x[j]).0 != k),
            None => forall|j: int| 0 <= j < x.len() ==> (#[trigger] x[j]).0 != k,
        },
    decreases x.len(),
{
    if x.len() > 0 && x[0].0 != k {
        lemma_first_key_idx(x.drop_first(), k);
        assert(forall|j: int| 1 <= j < x.len() ==> x.drop_first()[j - 1] == #[trigger] x[j]);
    }
}

/// `add` merge of two model values: objects union member-by-member with
/// existing members winning, arrays concatenate, two scalars keep the
/// existing one, and any other mismatch is replaced by the incoming value.
pub open spec fn add_v(a: ValueV, b: ValueV) -> ValueV
    decreases vsize(b), 1int,
{
    match b {
        ValueV::Object(y) => match a {
            ValueV::Object(x) => ValueV::Object(add_fields(x, y)),
            _ => b,
        },
        ValueV::Array(y) => match a {
            ValueV::Array(x) => ValueV::Array(x + y),
            _ => b,
        },
        _ => if is_scalar(a) {
            a
        } else {
            b
        },
    }
}

/// Folds the incoming members `y` into the object members `x`, left to
/// right: a member whose key is present merges recursively into the first
/// member with that key; a new key is appended.
pub open spec fn add_fields(
    x: Seq<(Seq<char>, ValueV)>,
    y: Seq<(Seq<char>, ValueV)>,
) -> Seq<(Seq<char>, ValueV)>
    decreases fsize(y), 2int,
{
    if y.len() == 0 {
        x
    } else {
        let k = y[0].0;
        let v = y[0].1;
        let x2 = match first_key_idx(x, k) {
            Some(i) => x.update(i, (x[i].0, add_v(x[i].1, v))),
            None => x.push((k, v)),
        };
        add_fields(x2, y.drop_first())
    }
}

/// `override` merge of two model values: objects union member-by-member with
/// incoming members winning, arrays merge index-by-index (the longer tail is
/// kept), and everything else is replaced by the incoming value.
pub open spec fn override_v(a: ValueV, b: ValueV) -> ValueV
    decreases vsize(b), 1int,
{
    match b {
        ValueV::Object(y) => match a {
            ValueV::Object(x) => ValueV::Object(override_fields(x, y)),
            _ => b,
        },
        ValueV::Array(y) => match a {
            ValueV::Array(x) => ValueV::Array(override_elems(x, y)),
            _ => b,
        },
        _ => b,
    }
}

/// Folds the incoming members `y` into the object members `x`, left to
/// right, recursively overriding members whose key is already present.
pub open spec fn override_fields(
    x: Seq<(Seq<char>, ValueV)>,
    y: Seq<(Seq<char>, ValueV)>,
) -> Seq<(Seq<char>, ValueV)>
    decreases fsize(y), 2int,
{
    if y.len() == 0 {
        x
    } else {
        let k = y[0].0;
        let v = y[0].1;
        let x2 = match first_key_idx(x, k) {
            Some(i) => x.update(i, (x[i].0, override_v(x[i].1, v))),
            None => x.push((k, v)),
        };
        override_fields(x2, y.drop_first())
    }
}

/// Merges array elements index-by-index; when one side runs out, the other
/// side's remaining elements are kept.
pub open spec fn override_elems(x: Seq<ValueV>, y: Seq<ValueV>) -> Seq<ValueV>
    decreases ssize(y), 2int,
{
    if y.len() == 0 {
        x
    } else if x.len() == 0 {
        y
    } else {
        seq![override_v(x[0], y[0])] + override_elems(x.drop_first(), y.drop_first())
    }
}

/// Finds the first member of `fs` whose key equals `k`.
fn find_key(fs: &Vec<(String, Value)>, k: &str) -> (r: Option<usize>)
    ensures
        match r {
            Some(i) => first_key_idx(view_fields(fs@), k@) == Some(i as int) && i < fs@.len(),
            None => first_key_idx(view_fields(fs@), k@) is None,
        },
{
    proof {
        lemma_view_fields(fs@);
        lemma_first_key_idx(view_fields(fs@), k@);
    }
    let n = fs.len();
    let mut i: usize = 0;
    while i < n
        invariant
            n == fs@.len(),
            i <= n,
            view_fields(fs@).len() == n,
            forall|j: int| 0 <= j < n ==> (#[trigger] view_fields(fs@)[j]).0 == fs@[j].0@,
            forall|j: int| 0 <= j < i ==> (#[trigger] fs@[j]).0@ != k@,
            match first_key_idx(view_fields(fs@), k@) {
                Some(m) => 0 <= m < n && view_fields(fs@)[m].0 == k@ && (forall|j: int|
                    0 <= j < m ==> (#[trigger] view_fields(fs@)[j]).0 != k@),
                None => forall|j: int|
                    0 <= j < n ==> (#[trigger] view_fields(fs@)[j]).0 != k@,
            },
        decreases n - i,
    {
        if str_eq(fs[i].0.as_str(), k) {
            proof {
                assert(view_fields(fs@)[i as int].0 == fs@[i as int].0@);
                match first_key_idx(view_fields(fs@), k@) {
                    Some(m) => {
                        if m < i {
                            assert(fs@[m].0@ != k@);
                            assert(view_fields(fs@)[m].0 == fs@[m].0@);
                            assert(false);
                        }
                        if m > i {
                            assert(view_fields(fs@)[i as int].0 != k@);
                            assert(false);
                        }
                    },
                    None => {
                        assert(view_fields(fs@)[i as int].0 != k@);
                        assert(false);
                    },
                }
            }
            return Some(i);
        }
        i = i + 1;
    }
    proof {
        match first_key_idx(view_fields(fs@), k@) {
            Some(m) => {
                assert(fs@[m].0@ != k@);
                assert(view_fields(fs@)[m].0 == fs@[m].0@);
                assert(false);
            },
            None => {},
        }
    }
    None
}

/// A deep copy of a vector of object members.
fn dup_fields(fs: &Vec<(String, Value)>) -> (r: Vec<(String, Value)>)
    ensures
        view_fields(r@) == view_fields(fs@),
{
    proof {
        lemma_view_fields(fs@);
    }
    let n = fs.len();
    let mut out: Vec<(String, Value)> = Vec::new();
    let mut i: usize = 0;
    while i < n
        invariant
            n == fs@.len(),
            i <= n,
            out@.len() == i as int,
            forall|j: int|
                0 <= j < i ==> (#[trigger] out@[j]).0@ == fs@[j].0@ && out@[j].1@ == fs@[j].1@,
        decreases n - i,
    {
        let k = fs[i].0.clone();
        let v = fs[i].1.duplicate();
        out.push((k, v));
        i = i + 1;
    }
    proof {
        lemma_view_fields(out@);
        assert(view_fields(out@) =~= view_fields(fs@));
    }
    out
}

impl Value {
    /// Builds the `add` merge of two values.
    pub fn add_merged(a: &Value, b: &Value) -> (r: Value)
        ensures
            r@ == add_v(a@, b@),
        decreases vsize(b@),
    {
        match b {
            Value::Object(y) => match a {
                Value::Object(x) => {
                    proof {
                        lemma_view_fields(y@);
                    }
                    let mut out = dup_fields(x);
                    proof {
                        assert(view_fields(y@).skip(0) =~= view_fields(y@));
                    }
                    let ny = y.len();
                    let mut j: usize = 0;
                    while j < ny
                        invariant
                            ny == y@.len(),
                            j <= ny,
                            view_fields(y@).len() == ny,
                            forall|m: int|
                                0 <= m < ny ==> #[trigger] view_fields(y@)[m] == (
                                y@[m].0@,
                                y@[m].1@,
                            ),
                            b@ == ValueV::Object(view_fields(y@)),
                            vsize(b@) == 1 + fsize(view_fields(y@)),
                            add_fields(view_fields(out@), view_fields(y@).skip(j as int))
                                == add_fields(view_fields(x@), view_fields(y@)),
                        decreases ny - j,
                    {
                        let ghost yv = view_fields(y@);
                        let ghost pre = view_fields(out@);
                        proof {
                            lemma_view_fields(out@);
                            assert(yv.skip(j as int)[0] == yv[j as int]);
                            assert(yv.skip(j as int).drop_first() =~= yv.skip(j as int + 1));
                            lemma_fsize_bound(yv, j as int);
                        }
                        let k = &y[j].0;
                        let v = &y[j].1;
                        match find_key(&out, k.as_str()) {
                            Some(i) => {
                                let key = out[i].0.clone();
                                let merged = Value::add_merged(&out[i].1, v);
                                proof {
                                    lemma_view_fields(out@);
                                }
                                out[i] = (key, merged);
                                proof {
                                    lemma_view_fields(out@);
                                    assert(view_fields(out@) =~= pre.update(
                                        first_key_idx(pre, k@)->Some_0,
                                        (
                                            pre[first_key_idx(pre, k@)->Some_0].0,
                                            add_v(pre[first_key_idx(pre, k@)->Some_0].1, v@),
                                        ),
                                    ));
                                }
                            },
                            None => {
                                let key = k.clone();
                                let dv = v.duplicate();
                                proof {
                                    lemma_view_fields(out@);
                                }
                                out.push((key, dv));
                                proof {
                                    lemma_view_fields(out@);
                                    assert(view_fields(out@) =~= pre.push((k@, v@)));
                                }
                            },
                        }
                        j = j + 1;
                    }
                    proof {
                        assert(view_fields(y@).skip(ny as int) =~= Seq::empty());
                    }
                    Value::Object(out)
                },
                _ => b.duplicate(),
            },
            Value::Array(y) => match a {
                Value::Array(x) => {
                    proof {
                        lemma_view_elems(x@);
                        lemma_view_elems(y@);
                    }
                    let mut out: Vec<Value> = Vec::new();
                    let nx = x.len();
                    let mut i: usize = 0;
                    while i < nx
                        invariant
                            nx == x@.len(),
                            i <= nx,
                            out@.len() == i as int,
                            forall|m: int| 0 <= m < i ==> (#[trigger] out@[m])@ == x@[m]@,
                        decreases nx - i,
                    {
                        let e = x[i].duplicate();
                        out.push(e);
                        i = i + 1;
                    }
                    let ny = y.len();
                    let mut j: usize = 0;
                    while j < ny
                        invariant
                            nx == x@.len(),
                            ny == y@.len(),
                            j <= ny,
                            out@.len() == nx + j,
                            forall|m: int| 0 <= m < nx ==> (#[trigger] out@[m])@ == x@[m]@,
                            forall|m: int|
                                nx <= m < nx + j ==> (#[trigger] out@[m])@ == y@[m - nx]@,
                        decreases ny - j,
                    {
                        let e = y[j].duplicate();
                        out.push(e);
                        j = j + 1;
                    }
                    let r = Value::Array(out);
                    proof {
                        lemma_view_elems(out@);
                        assert forall|m: int| 0 <= m < nx + ny implies view_elems(out@)[m] == (
                        view_elems(x@) + view_elems(y@))[m] by {
                            assert(view_elems(out@)[m] == out@[m]@);
                            if m < nx {
                                assert(view_elems(x@)[m] == x@[m]@);
                            } else {
                                assert(view_elems(y@)[m - nx] == y@[m - nx]@);
                            }
                        }
                        assert(view_elems(out@) =~= view_elems(x@) + view_elems(y@));
                    }
                    r
                },
                _ => b.duplicate(),
            },
            _ => {
                let scalar_a = match a {
                    Value::Array(_) => false,
                    Value::Object(_) => false,
                    _ => true,
                };
                if scalar_a {
                    a.duplicate()
                } else {
                    b.duplicate()
                }
            },
        }
    }

    /// Builds the `override` merge of two values.
    pub fn override_merged(a: &Value, b: &Value) -> (r: Value)
        ensures
            r@ == override_v(a@, b@),
        decreases vsize(b@),
    {
        match b {
            Value::Object(y) => match a {
                Value::Object(x) => {
                    proof {
                        lemma_view_fields(y@);
                    }
                    let mut out = dup_fields(x);
                    proof {
                        assert(view_fields(y@).skip(0) =~= view_fields(y@));
                    }
                    let ny = y.len();
                    let mut j: usize = 0;
                    while j < ny
                        invariant
                            ny == y@.len(),
                            j <= ny,
                            view_fields(y@).len() == ny,
                            forall|m: int|
                                0 <= m < ny ==> #[trigger] view_fields(y@)[m] == (
                                y@[m].0@,
                                y@[m].1@,
                            ),
                            b@ == ValueV::Object(view_fields(y@)),
                            vsize(b@) == 1 + fsize(view_fields(y@)),
                            override_fields(view_fields(out@), view_fields(y@).skip(j as int))
                                == override_fields(view_fields(x@), view_fields(y@)),
                        decreases ny - j,
                    {
                        let ghost yv = view_fields(y@);
                        let ghost pre = view_fields(out@);
                        proof {
                            lemma_view_fields(out@);
                            assert(yv.skip(j as int)[0] == yv[j as int]);
                            assert(yv.skip(j as int).drop_first() =~= yv.skip(j as int + 1));
                            lemma_fsize_bound(yv, j as int);
                        }
                        let k = &y[j].0;
                        let v = &y[j].1;
                        match find_key(&out, k.as_str()) {
                            Some(i) => {
                                let key = out[i].0.clone();
                                let merged = Value::override_merged(&out[i].1, v);
                                proof {
                                    lemma_view_fields(out@);
                                }
                                out[i] = (key, merged);
                                proof {
                                    lemma_view_fields(out@);
                                    assert(view_fields(out@) =~= pre.update(
                                        first_key_idx(pre, k@)->Some_0,
                                        (
                                            pre[first_key_idx(pre, k@)->Some_0].0,
                                            override_v(pre[first_key_idx(pre, k@)->Some_0].1, v@),
                                        ),
                                    ));
                                }
                            },
                            None => {
                                let key = k.clone();
                                let dv = v.duplicate();
                                proof {
                                    lemma_view_fields(out@);
                                }
                                out.push((key, dv));
                                proof {
                                    lemma_view_fields(out@);
                                    assert(view_fields(out@) =~= pre.push((k@, v@)));
                                }
                            },
                        }
                        j = j + 1;
                    }
                    proof {
                        assert(view_fields(y@).skip(ny as int) =~= Seq::empty());
                    }
                    Value::Object(out)
                },
                _ => b.duplicate(),
            },
            Value::Array(y) => match a {
                Value::Array(x) => {
                    proof {
                        lemma_view_elems(x@);
                        lemma_view_elems(y@);
                    }
                    let ghost xv = view_elems(x@);
                    let ghost yv = view_elems(y@);
                    let mut out: Vec<Value> = Vec::new();
                    let nx = x.len();
                    let ny = y.len();
                    let nmin = if nx < ny {
                        nx
                    } else {
                        ny
                    };
                    proof {
                        assert(xv.skip(0) =~= xv);
                        assert(yv.skip(0) =~= yv);
                    }
                    let mut i: usize = 0;
                    while i < nmin
                        invariant
                            nx == x@.len(),
                            ny == y@.len(),
                            nmin == if nx < ny {
                                nx as int
                            } else {
                                ny as int
                            },
                            i <= nmin,
                            xv == view_elems(x@),
                            yv == view_elems(y@),
                            xv.len() == nx,
                            yv.len() == ny,
                            forall|m: int| 0 <= m < nx ==> #[trigger] xv[m] == x@[m]@,
                            forall|m: int| 0 <= m < ny ==> #[trigger] yv[m] == y@[m]@,
                            b@ == ValueV::Array(yv),
                            vsize(b@) == 1 + ssize(yv),
                            out@.len() == i as int,
                            view_elems(out@) + override_elems(
                                xv.skip(i as int),
                                yv.skip(i as int),
                            ) == override_elems(xv, yv),
                        decreases nmin - i,
                    {
                        let ghost pre = view_elems(out@);
                        proof {
                            lemma_view_elems(out@);
                            assert(xv.skip(i as int).len() == nx - i);
                            assert(yv.skip(i as int).len() == ny - i);
                            assert(xv.skip(i as int)[0] == xv[i as int]);
                            assert(xv.skip(i as int).drop_first() =~= xv.skip(i as int + 1));
                            assert(yv.skip(i as int)[0] == yv[i as int]);
                            assert(yv.skip(i as int).drop_first() =~= yv.skip(i as int + 1));
                            lemma_ssize_bound(yv, i as int);
                        }
                        let e = Value::override_merged(&x[i], &y[i]);
                        out.push(e);
                        proof {
                            lemma_view_elems(out@);
                            assert(view_elems(out@) =~= pre.push(e@));
                            assert(pre.push(e@) + override_elems(
                                xv.skip(i as int + 1),
                                yv.skip(i as int + 1),
                            ) =~= pre + override_elems(xv.skip(i as int), yv.skip(i as int)));
                        }
                        i = i + 1;
                    }
                    proof {
                        assert(xv.skip(nx as int) =~= Seq::empty());
                        assert(yv.skip(ny as int) =~= Seq::empty());
                    }
                    if ny <= nx {
                    while i < nx
                        invariant
                            nx == x@.len(),
                            ny == y@.len(),
                            ny <= nx,
                            ny <= i <= nx,
                            xv == view_elems(x@),
                            yv == view_elems(y@),
                            xv.len() == nx,
                            yv.len() == ny,
                            forall|m: int| 0 <= m < nx ==> #[trigger] xv[m] == x@[m]@,
                            out@.len() == i as int,
                            view_elems(out@) + override_elems(
                                xv.skip(i as int),
                                yv.skip(ny as int),
                            ) == override_elems(xv, yv),
                        decreases nx - i,
                    {
                        let ghost pre = view_elems(out@);
                        proof {
                            lemma_view_elems(out@);
                            assert(yv.skip(ny as int) =~= Seq::empty());
                            assert(xv.skip(i as int).len() == nx - i);
                            assert(xv.skip(i as int)[0] == xv[i as int]);
                            assert(xv.skip(i as int).drop_first() =~= xv.skip(i as int + 1));
                        }
                        let e = x[i].duplicate();
                        out.push(e);
                        proof {
                            lemma_view_elems(out@);
                            assert(view_elems(out@) =~= pre.push(e@));
                            assert(override_elems(xv.skip(i as int), yv.skip(ny as int))
                                == xv.skip(i as int));
                            assert(override_elems(xv.skip(i as int + 1), yv.skip(ny as int))
                                == xv.skip(i as int + 1));
                            assert(pre.push(e@) + xv.skip(i as int + 1) =~= pre + xv.skip(
                                i as int,
                            ));
                        }
                        i = i + 1;
                    }
                    proof {
                        assert(view_elems(out@) + override_elems(xv.skip(nx as int), yv.skip(ny as int)) == override_elems(xv, yv));
                    }
                    } else {
                    while i < ny
                        invariant
                            nx == x@.len(),
                            ny == y@.len(),
                            nx <= ny,
                            nx <= i <= ny,
                            xv == view_elems(x@),
                            yv == view_elems(y@),
                            xv.len() == nx,
                            yv.len() == ny,
                            forall|m: int| 0 <= m < ny ==> #[trigger] yv[m] == y@[m]@,
                            out@.len() == i as int,
                            view_elems(out@) + override_elems(
                                xv.skip(nx as int),
                                yv.skip(i as int),
                            ) == override_elems(xv, yv),
                        decreases ny - i,
                    {
                        let ghost pre = view_elems(out@);
                        proof {
                            lemma_view_elems(out@);
                            assert(xv.skip(nx as int) =~= Seq::empty());
                            assert(yv.skip(i as int).len() == ny - i);
                            assert(yv.skip(i as int)[0] == yv[i as int]);
                            assert(yv.skip(i as int).drop_first() =~= yv.skip(i as int + 1));
                        }
                        let e = y[i].duplicate();
                        out.push(e);
                        proof {
                            lemma_view_elems(out@);
                            assert(view_elems(out@) =~= pre.push(e@));
                            assert(override_elems(xv.skip(nx as int), yv.skip(i as int))
                                == yv.skip(i as int));
                            assert(override_elems(xv.skip(nx as int), yv.skip(i as int + 1))
                                == yv.skip(i as int + 1));
                            assert(pre.push(e@) + yv.skip(i as int + 1) =~= pre + yv.skip(
                                i as int,
                            ));
                        }
                        i = i + 1;
                    }
                    proof {
                        assert(view_elems(out@) + override_elems(xv.skip(nx as int), yv.skip(ny as int)) == override_elems(xv, yv));
                    }
                    }
                    let r = Value::Array(out);
                    proof {
                        assert(xv.skip(nx as int) =~= Seq::empty());
                        assert(yv.skip(ny as int) =~= Seq::empty());
                        assert(override_elems(Seq::empty(), Seq::empty())
                            == Seq::<ValueV>::empty());
                        assert(view_elems(out@) + Seq::<ValueV>::empty() =~= view_elems(out@));
                    }
                    r
                },
                _ => b.duplicate(),
            },
            _ => b.duplicate(),
        }
    }

    /// Add a value recursively.
    pub fn add_recursive(&mut self, new_value: Value)
        ensures
            final(self)@ == add_v(old(self)@, new_value@),
    {
        let r = Value::add_merged(self, &new_value);
        *self = r;
    }

    /// Override a value recursively.
    pub fn override_recursive(&mut self, new_value: Value)
        ensures
            final(self)@ == override_v(old(self)@, new_value@),
    {
        let r = Value::override_merged(self, &new_value);
        *self = r;
    }
}

} // verus!
