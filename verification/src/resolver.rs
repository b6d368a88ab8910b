//! The recursive resolution engine: walks a JSON tree, finds placeholders in
//! its strings, dispatches each through the registry or the context lookup,
//! and resolves what comes back until the tree is placeholder-free.

use vstd::prelude::*;

use crate::context::Context;
use crate::errors::Error;
use crate::funcs::{FuncKind, NoCustom, ResolverFn};
use crate::path::{split_top, split_top_str, Path};
use crate::placeholder::{lemma_ph_scan_prefix, ph_scan, phs, placeholder_of, Placeholder};
use crate::sem::{ctx_of, fcombine, files_get, join_path, last_idx_of, obj_get, parent_of, rmatch,
    rspec_fcompose, rspec_ffile, rspec_fields, rspec_find, rspec_fstring, rspec_get_dot,
    rspec_parts, rspec_ph_vals, rspec_placeholder, rspec_string, rspec_value, scombine, smatch,
    subst_scan, vcombine, CtxV, FOut, ROut, SOut, VOut};
use crate::util::{push_char, str_eq};
use crate::value::{fsize, lemma_fsize_bound, lemma_ssize_bound, lemma_view_elems,
    lemma_view_fields, ssize, view_elems, view_fields, vsize, Value, ValueV};

verus! {

/// The default bound on how deep placeholder chains may resolve before the
/// resolution fails as cyclic.
pub const DEFAULT_FUEL: u64 = 10000;

/// Finds the first member of the file store whose key equals `k`.
fn files_lookup<'a>(fs: &'a Vec<(String, Value)>, k: &str) -> (r: Option<&'a Value>)
    ensures
        match files_get(view_fields(fs@), k@) {
            Some(c) => r matches Some(x) && x@ == c,
            None => r is None,
        },
{
    proof {
        lemma_view_fields(fs@);
        crate::merge::lemma_first_key_idx(view_fields(fs@), k@);
    }
    let n = fs.len();
    let mut i: usize = 0;
    while i < n
        invariant
            n == fs@.len(),
            i <= n,
            view_fields(fs@).len() == n,
            forall|j: int| 0 <= j < n ==> (#[trigger] view_fields(fs@)[j]) == (fs@[j].0@, fs@[j].1@),
            forall|j: int| 0 <= j < i ==> (#[trigger] fs@[j]).0@ != k@,
            match crate::merge::first_key_idx(view_fields(fs@), k@) {
                Some(m) => 0 <= m < n && view_fields(fs@)[m].0 == k@ && (forall|j: int|
                    0 <= j < m ==> (#[trigger] view_fields(fs@)[j]).0 != k@),
                None => forall|j: int|
                    0 <= j < n ==> (#[trigger] view_fields(fs@)[j]).0 != k@,
            },
        decreases n - i,
    {
        if str_eq(fs[i].0.as_str(), k) {
            proof {
                match crate::merge::first_key_idx(view_fields(fs@), k@) {
                    Some(m) => {
                        if m < i {
                            assert(fs@[m].0@ != k@);
                            assert(false);
                        }
                        if m > i {
                            assert(view_fields(fs@)[i as int].0 != k@);
                            assert(false);
                        }
                    },
                    None => {
                        assert(view_fields(fs@)[i as int].0 != k@);
                        assert(false);
                    },
                }
            }
            return Some(&fs[i].1);
        }
        i = i + 1;
    }
    proof {
        match crate::merge::first_key_idx(view_fields(fs@), k@) {
            Some(m) => {
                assert(fs@[m].0@ != k@);
                assert(false);
            },
            None => {},
        }
    }
    None
}

/// Joins a directory and a file name with a slash.
fn join_path_str(dir: &str, name: &str) -> (r: String)
    ensures
        r@ == join_path(dir@, name@),
{
    let n = dir.unicode_len();
    let mut s = dir.to_owned();
    if n > 0 && dir.get_char(n - 1) == '/' {
        s.append(name);
        s
    } else {
        push_char(&mut s, '/');
        s.append(name);
        proof {
            assert(dir@.push('/') + name@ =~= dir@ + seq!['/'] + name@);
        }
        s
    }
}

/// The parent of a path: everything before the last slash.
fn parent_str(s: &str) -> (r: String)
    ensures
        r@ == parent_of(s@),
{
    let n = s.unicode_len();
    let mut i: usize = n;
    let mut res: Option<usize> = None;
    proof {
        assert(s@.subrange(0, n as int) =~= s@);
    }
    while i > 0 && res.is_none()
        invariant
            n == s@.len(),
            0 <= i <= n,
            res matches Some(f) ==> last_idx_of(s@, '/') == f as int && f < n,
            res is None ==> last_idx_of(s@, '/') == last_idx_of(s@.subrange(0, i as int), '/'),
        decreases i,
    {
        let c = s.get_char(i - 1);
        proof {
            assert(s@.subrange(0, i as int).last() == s@[i as int - 1]);
            assert(s@.subrange(0, i as int).drop_last() =~= s@.subrange(0, i as int - 1));
        }
        if c == '/' {
            res = Some(i - 1);
        }
        i = i - 1;
    }
    match res {
        Some(j) => s.substring_char(0, j).to_owned(),
        None => {
            proof {
                if i == 0 {
                    assert(s@.subrange(0, 0) =~= Seq::<char>::empty());
                }
            }
            String::new()
        },
    }
}

impl Value {
    /// The member of this value with the given key, when the value is an
    /// object and the key is present.
    pub fn get_key<'a>(&'a self, k: &str) -> (r: Option<&'a Value>)
        ensures
            match obj_get(self@, k@) {
                Some(c) => r matches Some(x) && x@ == c,
                None => r is None,
            },
    {
        match self {
            Value::Object(fs) => {
                proof {
                    lemma_view_fields(fs@);
                    crate::merge::lemma_first_key_idx(view_fields(fs@), k@);
                }
                let n = fs.len();
                let mut i: usize = 0;
                while i < n
                    invariant
                        n == fs@.len(),
                        *self == Value::Object(*fs),
                        view_fields(fs@).len() == n,
                        i <= n,
                        forall|j: int|
                            0 <= j < n ==> (#[trigger] view_fields(fs@)[j]) == (
                            fs@[j].0@,
                            fs@[j].1@,
                            ),
                        forall|j: int| 0 <= j < i ==> (#[trigger] fs@[j]).0@ != k@,
                        match crate::merge::first_key_idx(view_fields(fs@), k@) {
                            Some(m) => 0 <= m < n && view_fields(fs@)[m].0 == k@ && (forall|
                                j: int,
                            |
                                0 <= j < m ==> (#[trigger] view_fields(fs@)[j]).0 != k@),
                            None => forall|j: int|
                                0 <= j < n ==> (#[trigger] view_fields(fs@)[j]).0 != k@,
                        },
                    decreases n - i,
                {
                    if str_eq(fs[i].0.as_str(), k) {
                        proof {
                            match crate::merge::first_key_idx(view_fields(fs@), k@) {
                                Some(m) => {
                                    if m < i {
                                        assert(fs@[m].0@ != k@);
                                        assert(false);
                                    }
                                    if m > i {
                                        assert(view_fields(fs@)[i as int].0 != k@);
                                        assert(false);
                                    }
                                },
                                None => {
                                    assert(view_fields(fs@)[i as int].0 != k@);
                                    assert(false);
                                },
                            }
                        }
                        return Some(&fs[i].1);
                    }
                    i = i + 1;
                }
                proof {
                    match crate::merge::first_key_idx(view_fields(fs@), k@) {
                        Some(m) => {
                            assert(fs@[m].0@ != k@);
                            assert(false);
                        },
                        None => {},
                    }
                }
                None
            },
            _ => None,
        }
    }
}

/// The resolution engine.
#[derive(Clone, Copy, Debug)]
pub struct Deserializer;

impl Deserializer {
    /// Create a new deserializer.
    pub fn new() -> Self {
        Deserializer
    }

    /// Resolves a whole document against a context: the document itself is
    /// the self-reference fallback for lookups that miss the data tree.
    pub fn resolve_with_context<F: ResolverFn>(
        &self,
        value: &Value,
        context: &Context,
        custom: &F,
        fuel: u64,
    ) -> (r: Result<Value, Error>)
        ensures
            rmatch(
                rspec_value(ctx_of(*context, context.directory, value@), value@, fuel as nat),
                r,
            ),
    {
        self.resolve_value(value, context, &context.directory, value, custom, fuel)
    }

    /// Resolves a whole document against a context, with no custom functions.
    pub fn resolve(&self, value: &Value, context: &Context, fuel: u64) -> (r: Result<
        Value,
        Error,
    >)
        ensures
            rmatch(
                rspec_value(ctx_of(*context, context.directory, value@), value@, fuel as nat),
                r,
            ),
    {
        self.resolve_with_context(value, context, &NoCustom, fuel)
    }

    /// Resolve a value.
    pub fn resolve_value<F: ResolverFn>(
        &self,
        value: &Value,
        context: &Context,
        dir: &Option<String>,
        cur: &Value,
        custom: &F,
        fuel: u64,
    ) -> (r: Result<Value, Error>)
        ensures
            rmatch(rspec_value(ctx_of(*context, *dir, cur@), value@, fuel as nat), r),
        decreases fuel, vsize(value@), 0int, 1int,
    {
        match value {
            Value::Null => Ok(Value::Null),
            Value::Bool(b) => Ok(Value::Bool(*b)),
            Value::Int(n) => Ok(Value::Int(*n)),
            Value::Text(s) => self.resolve_string(s.as_str(), context, dir, cur, custom, fuel),
            Value::Array(es) => {
                proof {
                    assert(vsize(value@) == 1 + ssize(view_elems(es@)));
                }
                self.resolve_array(es, context, dir, cur, custom, fuel)
            },
            Value::Object(fs) => {
                proof {
                    assert(vsize(value@) == 1 + fsize(view_fields(fs@)));
                }
                self.resolve_object(fs, context, dir, cur, custom, fuel)
            },
        }
    }

    /// Resolve an object: every member value is resolved, in order.
    pub fn resolve_object<F: ResolverFn>(
        &self,
        fields: &Vec<(String, Value)>,
        context: &Context,
        dir: &Option<String>,
        cur: &Value,
        custom: &F,
        fuel: u64,
    ) -> (r: Result<Value, Error>)
        ensures
            crate::sem::fmatch(
                rspec_fields(ctx_of(*context, *dir, cur@), view_fields(fields@), fuel as nat),
                r,
            ),
        decreases fuel, fsize(view_fields(fields@)), 0int, 0int,
    {
        let ghost ctxv = ctx_of(*context, *dir, cur@);
        let ghost fv = view_fields(fields@);
        let ghost full = rspec_fields(ctxv, fv, fuel as nat);
        proof {
            lemma_view_fields(fields@);
            assert(fv.skip(0) =~= fv);
        }
        let n = fields.len();
        let mut out: Vec<(String, Value)> = Vec::new();
        let mut i: usize = 0;
        while i < n
            invariant
                n == fields@.len(),
                i <= n,
                ctxv == ctx_of(*context, *dir, cur@),
                fv == view_fields(fields@),
                full == rspec_fields(ctxv, fv, fuel as nat),
                fv.len() == n,
                forall|j: int| 0 <= j < n ==> (#[trigger] fv[j]) == (fields@[j].0@, fields@[j].1@),
                out@.len() == i as int,
                full is Unspec || fcombine(view_fields(out@), rspec_fields(ctxv, fv.skip(i as int), fuel as nat))
                    == full,
            decreases n - i,
        {
            let ghost pre = view_fields(out@);
            proof {
                lemma_view_fields(out@);
                lemma_fsize_bound(fv, i as int);
                assert(fv.skip(i as int)[0] == fv[i as int]);
                assert(fv.skip(i as int).drop_first() =~= fv.skip(i as int + 1));
            }
            let r0 = self.resolve_value(&fields[i].1, context, dir, cur, custom, fuel);
            match r0 {
                Ok(v0) => {
                    let k = fields[i].0.clone();
                    out.push((k, v0));
                    proof {
                        lemma_view_fields(out@);
                        assert(view_fields(out@) =~= pre.push((fv[i as int].0, v0@)));
                        if !(full is Unspec) {
                            match rspec_value(ctxv, fv[i as int].1, fuel as nat) {
                                ROut::Val(x) => {
                                    match rspec_fields(ctxv, fv.skip(i as int + 1), fuel as nat) {
                                        FOut::Fields(rest) => {
                                            assert(pre.push((fv[i as int].0, v0@)) + rest =~= pre
                                                + (seq![(fv[i as int].0, x)] + rest));
                                        },
                                        _ => {},
                                    }
                                },
                                _ => {},
                            }
                        }
                    }
                },
                Err(e) => {
                    return Err(e);
                },
            }
            i = i + 1;
        }
        proof {
            assert(fv.skip(n as int) =~= Seq::<(Seq<char>, ValueV)>::empty());
            if !(full is Unspec) {
                assert(view_fields(out@) + Seq::<(Seq<char>, ValueV)>::empty() =~= view_fields(
                    out@,
                ));
            }
        }
        Ok(Value::Object(out))
    }

    /// Resolve array: every element is resolved, in order.
    pub fn resolve_array<F: ResolverFn>(
        &self,
        array: &Vec<Value>,
        context: &Context,
        dir: &Option<String>,
        cur: &Value,
        custom: &F,
        fuel: u64,
    ) -> (r: Result<Value, Error>)
        ensures
            smatch(
                crate::sem::rspec_elems(
                    ctx_of(*context, *dir, cur@),
                    view_elems(array@),
                    fuel as nat,
                ),
                r,
            ),
        decreases fuel, ssize(view_elems(array@)), 0int, 0int,
    {
        let ghost ctxv = ctx_of(*context, *dir, cur@);
        let ghost ev = view_elems(array@);
        let ghost full = crate::sem::rspec_elems(ctxv, ev, fuel as nat);
        proof {
            lemma_view_elems(array@);
            assert(ev.skip(0) =~= ev);
        }
        let n = array.len();
        let mut out: Vec<Value> = Vec::new();
        let mut i: usize = 0;
        while i < n
            invariant
                n == array@.len(),
                i <= n,
                ctxv == ctx_of(*context, *dir, cur@),
                ev == view_elems(array@),
                full == crate::sem::rspec_elems(ctxv, ev, fuel as nat),
                ev.len() == n,
                forall|j: int| 0 <= j < n ==> (#[trigger] ev[j]) == array@[j]@,
                out@.len() == i as int,
                full is Unspec || scombine(
                    view_elems(out@),
                    crate::sem::rspec_elems(ctxv, ev.skip(i as int), fuel as nat),
                ) == full,
            decreases n - i,
        {
            let ghost pre = view_elems(out@);
            proof {
                lemma_view_elems(out@);
                lemma_ssize_bound(ev, i as int);
                assert(ev.skip(i as int)[0] == ev[i as int]);
                assert(ev.skip(i as int).drop_first() =~= ev.skip(i as int + 1));
            }
            let r0 = self.resolve_value(&array[i], context, dir, cur, custom, fuel);
            match r0 {
                Ok(v0) => {
                    out.push(v0);
                    proof {
                        lemma_view_elems(out@);
                        assert(view_elems(out@) =~= pre.push(v0@));
                        if !(full is Unspec) {
                            match rspec_value(ctxv, ev[i as int], fuel as nat) {
                                ROut::Val(x) => {
                                    match crate::sem::rspec_elems(
                                        ctxv,
                                        ev.skip(i as int + 1),
                                        fuel as nat,
                                    ) {
                                        SOut::Elems(rest) => {
                                            assert(pre.push(v0@) + rest =~= pre + (seq![x]
                                                + rest));
                                        },
                                        _ => {},
                                    }
                                },
                                _ => {},
                            }
                        }
                    }
                },
                Err(e) => {
                    return Err(e);
                },
            }
            i = i + 1;
        }
        proof {
            assert(ev.skip(n as int) =~= Seq::<ValueV>::empty());
            if !(full is Unspec) {
                assert(view_elems(out@) + Seq::<ValueV>::empty() =~= view_elems(out@));
            }
        }
        Ok(Value::Array(out))
    }

    /// Resolve a string: when the entire string is exactly one placeholder,
    /// the resolved value replaces the string, keeping its type; otherwise
    /// every top-level placeholder is substituted by its value's text.
    pub fn resolve_string<F: ResolverFn>(
        &self,
        string: &str,
        context: &Context,
        dir: &Option<String>,
        cur: &Value,
        custom: &F,
        fuel: u64,
    ) -> (r: Result<Value, Error>)
        ensures
            rmatch(rspec_string(ctx_of(*context, *dir, cur@), string@, fuel as nat), r),
        decreases fuel, 1int, 0int, 0int,
    {
        let ghost ctxv = ctx_of(*context, *dir, cur@);
        let ps = Placeholder::placeholders(string);
        if ps.len() == 1 && str_eq(ps[0].value.as_str(), string) {
            proof {
                assert(phs(string@)[0] == ps@[0]@.raw);
            }
            self.resolve_placeholder(&ps[0], context, dir, cur, custom, fuel)
        } else {
            let ghost psv = phs(string@);
            let ghost full = rspec_ph_vals(ctxv, psv, fuel as nat);
            proof {
                assert(psv.skip(0) =~= psv);
            }
            let n = ps.len();
            let mut vals: Vec<Value> = Vec::new();
            let mut j: usize = 0;
            while j < n
                invariant
                    n == ps@.len(),
                    j <= n,
                    ctxv == ctx_of(*context, *dir, cur@),
                    psv == phs(string@),
                    full == rspec_ph_vals(ctxv, psv, fuel as nat),
                    psv.len() == n,
                    forall|m: int|
                        0 <= m < n ==> (#[trigger] ps@[m]).wf() && ps@[m]@.raw == psv[m],
                    vals@.len() == j as int,
                    full is Unspec || vcombine(
                        view_elems(vals@),
                        rspec_ph_vals(ctxv, psv.skip(j as int), fuel as nat),
                    ) == full,
                decreases n - j,
            {
                let ghost pre = view_elems(vals@);
                proof {
                    lemma_view_elems(vals@);
                    assert(psv.skip(j as int)[0] == psv[j as int]);
                    assert(psv.skip(j as int).drop_first() =~= psv.skip(j as int + 1));
                }
                let r0 = self.resolve_placeholder(&ps[j], context, dir, cur, custom, fuel);
                match r0 {
                    Ok(v0) => {
                        vals.push(v0);
                        proof {
                            lemma_view_elems(vals@);
                            assert(view_elems(vals@) =~= pre.push(v0@));
                            if !(full is Unspec) {
                                match rspec_placeholder(ctxv, ps@[j as int]@, fuel as nat) {
                                    ROut::Val(x) => {
                                        match rspec_ph_vals(
                                            ctxv,
                                            psv.skip(j as int + 1),
                                            fuel as nat,
                                        ) {
                                            VOut::Vals(rest) => {
                                                assert(pre.push(v0@) + rest =~= pre + (seq![x]
                                                    + rest));
                                            },
                                            _ => {},
                                        }
                                    },
                                    _ => {},
                                }
                            }
                        }
                    },
                    Err(e) => {
                        return Err(e);
                    },
                }
                j = j + 1;
            }
            let ghost vseq = view_elems(vals@);
            proof {
                lemma_view_elems(vals@);
                assert(psv.skip(n as int) =~= Seq::<Seq<char>>::empty());
                if !(full is Unspec) {
                    assert(vseq + Seq::<ValueV>::empty() =~= vseq);
                    assert(full == VOut::Vals(vseq));
                }
            }
            // substitution pass
            let sn = string.unicode_len();
            let mut out = String::new();
            let ghost mut acc: Seq<Seq<char>> = Seq::empty();
            let mut lvl: i128 = 0;
            let mut start: usize = 0;
            let mut k: usize = 0;
            let mut i: usize = 0;
            while i < sn
                invariant
                    sn == string@.len(),
                    0 <= i <= sn,
                    0 <= start <= i,
                    -(i as int) <= lvl <= i as int,
                    vals@.len() == n,
                    vseq == view_elems(vals@),
                    vseq.len() == n,
                    forall|m: int| 0 <= m < n ==> (#[trigger] vseq[m]) == vals@[m]@,
                    psv == phs(string@),
                    psv.len() == n,
                    acc.len() == k as int,
                    k <= n,
                    ph_scan(string@, i as int, lvl as int, start as int, acc) == psv,
                    subst_scan(string@, i as int, lvl as int, start as int, vseq, k as int, out@)
                        == subst_scan(string@, 0, 0, 0, vseq, 0, Seq::empty()),
                decreases sn - i,
            {
                let c = string.get_char(i);
                if c == '{' && lvl == 0 {
                    start = i;
                    lvl = 1;
                } else if c == '}' && lvl == 1 {
                    proof {
                        lemma_ph_scan_prefix(
                            string@,
                            i as int + 1,
                            0,
                            start as int,
                            acc.push(string@.subrange(start as int, i as int + 1)),
                        );
                    }
                    let t = vals[k].to_text();
                    out.append(t.as_str());
                    proof {
                        acc = acc.push(string@.subrange(start as int, i as int + 1));
                    }
                    k = k + 1;
                    lvl = 0;
                } else if lvl > 0 {
                    if c == '{' {
                        lvl = lvl + 1;
                    } else if c == '}' {
                        lvl = lvl - 1;
                    }
                } else {
                    if c == '{' {
                        lvl = lvl + 1;
                    } else if c == '}' {
                        lvl = lvl - 1;
                    }
                    push_char(&mut out, c);
                }
                i = i + 1;
            }
            if lvl > 0 {
                let tail = string.substring_char(start, sn);
                out.append(tail);
            }
            proof {
                if !(full is Unspec) {
                    assert(rspec_string(ctxv, string@, fuel as nat) == ROut::Val(
                        ValueV::Text(subst_scan(string@, 0, 0, 0, vseq, 0, Seq::empty())),
                    ));
                }
            }
            Ok(Value::Text(out))
        }
    }

    /// Resolve the placeholder: a typed placeholder dispatches through the
    /// registry, an untyped one is looked up in the context; the produced
    /// value is itself resolved again.
    pub fn resolve_placeholder<F: ResolverFn>(
        &self,
        placeholder: &Placeholder,
        context: &Context,
        dir: &Option<String>,
        cur: &Value,
        custom: &F,
        fuel: u64,
    ) -> (r: Result<Value, Error>)
        requires
            placeholder.wf(),
        ensures
            rmatch(rspec_placeholder(ctx_of(*context, *dir, cur@), placeholder@, fuel as nat), r),
        decreases fuel, 0int, 0int, 0int,
    {
        let ghost ctxv = ctx_of(*context, *dir, cur@);
        if fuel == 0 {
            return Err(Error::DepthExceeded);
        }
        let d: Result<Value, Error> = match &placeholder.type_ {
            Some(tag) => match context.functions.get(tag.as_str()) {
                None => Err(Error::FunctionNotFound(tag.clone())),
                Some(FuncKind::StringFn) => self.f_string(
                    placeholder,
                    context,
                    dir,
                    cur,
                    custom,
                    fuel - 1,
                ),
                Some(FuncKind::FileFn) => self.f_file(
                    placeholder,
                    context,
                    dir,
                    cur,
                    custom,
                    fuel - 1,
                ),
                Some(FuncKind::ComposeFn) => self.f_compose(
                    placeholder,
                    context,
                    dir,
                    cur,
                    custom,
                    fuel - 1,
                ),
                Some(FuncKind::Custom) => custom.call(tag.as_str(), placeholder),
            },
            None => context.find(self, placeholder, dir, cur, custom, fuel - 1),
        };
        match d {
            Ok(v) => self.resolve_value(&v, context, dir, cur, custom, fuel - 1),
            Err(e) => Err(e),
        }
    }

    /// The built-in `string` transform: looks the path up and renders the
    /// result as unquoted text.
    fn f_string<F: ResolverFn>(
        &self,
        placeholder: &Placeholder,
        context: &Context,
        dir: &Option<String>,
        cur: &Value,
        custom: &F,
        fuel: u64,
    ) -> (r: Result<Value, Error>)
        requires
            placeholder.wf(),
        ensures
            rmatch(rspec_fstring(ctx_of(*context, *dir, cur@), placeholder@, fuel as nat), r),
        decreases fuel, 3int, 0int, 0int,
    {
        match context.find(self, placeholder, dir, cur, custom, fuel) {
            Ok(v) => Ok(Value::Text(v.to_text())),
            Err(e) => Err(e),
        }
    }

    /// The built-in `file` transform: requires a directory, joins it with the
    /// placeholder path, takes the document loaded under that path, and
    /// resolves it fully with the directory reset to the file's parent.
    fn f_file<F: ResolverFn>(
        &self,
        placeholder: &Placeholder,
        context: &Context,
        dir: &Option<String>,
        cur: &Value,
        custom: &F,
        fuel: u64,
    ) -> (r: Result<Value, Error>)
        requires
            placeholder.wf(),
        ensures
            rmatch(rspec_ffile(ctx_of(*context, *dir, cur@), placeholder@, fuel as nat), r),
        decreases fuel, 3int, 0int, 0int,
    {
        match dir {
            None => Err(Error::NoDirectory),
            Some(d) => {
                let p = placeholder.path();
                let full = join_path_str(d.as_str(), p.str());
                match files_lookup(&context.files, full.as_str()) {
                    None => Err(Error::FileUnavailable(full)),
                    Some(fv) => {
                        let fv2 = fv.duplicate();
                        let nd = Some(parent_str(full.as_str()));
                        if fuel == 0 {
                            Err(Error::DepthExceeded)
                        } else {
                            let r = self.resolve_value(
                                &fv2,
                                context,
                                &nd,
                                &fv2,
                                custom,
                                fuel - 1,
                            );
                            proof {
                                let fullv = join_path(d@, crate::placeholder::path_of(
                                    placeholder@,
                                ));
                                assert(ctx_of(*context, nd, fv2@) == CtxV {
                                    dir: Some(parent_of(fullv)),
                                    cur: files_get(
                                        view_fields(context.files@),
                                        fullv,
                                    )->Some_0,
                                    ..ctx_of(*context, *dir, cur@)
                                });
                            }
                            r
                        }
                    },
                }
            },
        }
    }

    /// The built-in `compose` transform: splits the path on top-level commas,
    /// resolves each fragment as a string of its own, and `add`-merges the
    /// results into one object.
    fn f_compose<F: ResolverFn>(
        &self,
        placeholder: &Placeholder,
        context: &Context,
        dir: &Option<String>,
        cur: &Value,
        custom: &F,
        fuel: u64,
    ) -> (r: Result<Value, Error>)
        requires
            placeholder.wf(),
        ensures
            rmatch(rspec_fcompose(ctx_of(*context, *dir, cur@), placeholder@, fuel as nat), r),
        decreases fuel, 3int, 0int, 0int,
    {
        let ghost ctxv = ctx_of(*context, *dir, cur@);
        let p = placeholder.path();
        let parts = split_top_str(p.str(), ',');
        let ghost partsv = split_top(crate::placeholder::path_of(placeholder@), ',');
        let ghost full = rspec_parts(ctxv, partsv, ValueV::Object(Seq::empty()), fuel as nat);
        let mut acc = Value::Object(Vec::new());
        proof {
            assert(acc@ == ValueV::Object(view_fields(Seq::<(String, Value)>::empty())));
            assert(view_fields(Seq::<(String, Value)>::empty()) =~= Seq::<(
                Seq<char>,
                ValueV,
            )>::empty());
            assert(partsv.skip(0) =~= partsv);
        }
        let n = parts.len();
        let mut j: usize = 0;
        while j < n
            invariant
                n == parts@.len(),
                j <= n,
                ctxv == ctx_of(*context, *dir, cur@),
                partsv == split_top(crate::placeholder::path_of(placeholder@), ','),
                placeholder.wf(),
                partsv.len() == n,
                forall|m: int| 0 <= m < n ==> (#[trigger] parts@[m])@ == partsv[m],
                full == rspec_parts(ctxv, partsv, ValueV::Object(Seq::empty()), fuel as nat),
                full is Unspec || rspec_parts(ctxv, partsv.skip(j as int), acc@, fuel as nat)
                    == full,
            decreases n - j,
        {
            proof {
                assert(partsv.skip(j as int)[0] == partsv[j as int]);
                assert(partsv.skip(j as int).drop_first() =~= partsv.skip(j as int + 1));
            }
            if fuel == 0 {
                return Err(Error::DepthExceeded);
            }
            let r0 = self.resolve_string(parts[j], context, dir, cur, custom, fuel - 1);
            match r0 {
                Ok(v0) => {
                    let acc2 = Value::add_merged(&acc, &v0);
                    acc = acc2;
                },
                Err(e) => {
                    return Err(e);
                },
            }
            j = j + 1;
        }
        proof {
            assert(partsv.skip(n as int) =~= Seq::<Seq<char>>::empty());
        }
        Ok(acc)
    }
}

impl Context {
    /// Find placeholder value: the path is traversed against the data tree
    /// first, then against the document under resolution.
    pub fn find<F: ResolverFn>(
        &self,
        deserializer: &Deserializer,
        placeholder: &Placeholder,
        dir: &Option<String>,
        cur: &Value,
        custom: &F,
        fuel: u64,
    ) -> (r: Result<Value, Error>)
        requires
            placeholder.wf(),
        ensures
            rmatch(rspec_find(ctx_of(*self, *dir, cur@), placeholder@, fuel as nat), r),
        decreases fuel, 2int, 0int, 0int,
    {
        let path = placeholder.path();
        let r1 = self.data.get_dot_deserializing(
            &path,
            deserializer,
            self,
            dir,
            cur,
            custom,
            fuel,
        );
        match r1 {
            Ok(v) => Ok(v),
            Err(_) => {
                let path2 = placeholder.path();
                cur.get_dot_deserializing(&path2, deserializer, self, dir, cur, custom, fuel)
            },
        }
    }
}

impl Value {
    /// Get a value using a dot-separated path: a segment that is itself a
    /// placeholder is resolved and replaces the value accumulated so far; a
    /// literal segment is looked up as a key, and what it finds is resolved.
    pub fn get_dot_deserializing<F: ResolverFn>(
        &self,
        path: &Path<'_>,
        deserializer: &Deserializer,
        context: &Context,
        dir: &Option<String>,
        cur: &Value,
        custom: &F,
        fuel: u64,
    ) -> (r: Result<Value, Error>)
        ensures
            rmatch(
                rspec_get_dot(
                    ctx_of(*context, *dir, cur@),
                    ROut::Val(self@),
                    split_top(path@, '.'),
                    path@,
                    fuel as nat,
                ),
                r,
            ),
        decreases fuel, 1int, 0int, 0int,
    {
        let ghost ctxv = ctx_of(*context, *dir, cur@);
        let ghost segsv = split_top(path@, '.');
        let ghost full = rspec_get_dot(ctxv, ROut::Val(self@), segsv, path@, fuel as nat);
        let segs = path.segments();
        let mut acc: Result<Value, Error> = Ok(self.duplicate());
        let ghost mut sacc: ROut = ROut::Val(self@);
        proof {
            assert(segsv.skip(0) =~= segsv);
        }
        let n = segs.len();
        let mut j: usize = 0;
        while j < n
            invariant
                n == segs@.len(),
                j <= n,
                ctxv == ctx_of(*context, *dir, cur@),
                segsv.len() == n,
                forall|m: int| 0 <= m < n ==> (#[trigger] segs@[m])@ == segsv[m],
                rmatch(sacc, acc),
                rspec_get_dot(ctxv, sacc, segsv.skip(j as int), path@, fuel as nat) == full,
            decreases n - j,
        {
            proof {
                assert(segsv.skip(j as int)[0] == segsv[j as int]);
                assert(segsv.skip(j as int).drop_first() =~= segsv.skip(j as int + 1));
            }
            let seg = segs[j];
            let next: Option<Result<Value, Error>> = match Placeholder::from_str(seg) {
                Some(p) => {
                    if fuel == 0 {
                        Some(Err(Error::DepthExceeded))
                    } else {
                        Some(
                            deserializer.resolve_placeholder(
                                &p,
                                context,
                                dir,
                                cur,
                                custom,
                                fuel - 1,
                            ),
                        )
                    }
                },
                None => match &acc {
                    Ok(base) => match base.get_key(seg) {
                        Some(child) => {
                            if fuel == 0 {
                                Some(Err(Error::DepthExceeded))
                            } else {
                                Some(
                                    deserializer.resolve_value(
                                        child,
                                        context,
                                        dir,
                                        cur,
                                        custom,
                                        fuel - 1,
                                    ),
                                )
                            }
                        },
                        None => Some(Err(Error::PathNotFound(path.str().to_owned()))),
                    },
                    Err(_) => None,
                },
            };
            proof {
                sacc = match placeholder_of(segsv[j as int]) {
                    Some(pv) => if fuel == 0 {
                        ROut::Fail(crate::errors::ErrorV::DepthExceeded)
                    } else {
                        rspec_placeholder(ctxv, pv, (fuel - 1) as nat)
                    },
                    None => match sacc {
                        ROut::Val(base) => match obj_get(base, segsv[j as int]) {
                            Some(child) => if fuel == 0 {
                                ROut::Fail(crate::errors::ErrorV::DepthExceeded)
                            } else {
                                rspec_value(ctxv, child, (fuel - 1) as nat)
                            },
                            None => ROut::Fail(crate::errors::ErrorV::PathNotFound(path@)),
                        },
                        ROut::Fail(e) => ROut::Fail(e),
                        ROut::Unspec => ROut::Unspec,
                    },
                };
            }
            match next {
                Some(v) => {
                    acc = v;
                },
                None => {},
            }
            j = j + 1;
        }
        proof {
            assert(segsv.skip(n as int) =~= Seq::<Seq<char>>::empty());
        }
        acc
    }
}

} // verus!
