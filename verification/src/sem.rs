//! The mathematical semantics of resolution. Each executable resolver
//! function is proved against the spec function of the same shape here.
//!
//! A result is `Val` or `Fail` where the semantics pins the outcome down, and
//! `Unspec` from the point a caller-supplied custom function is dispatched:
//! nothing is claimed about what such a function returns.

use vstd::prelude::*;

use crate::context::Context;
use crate::errors::{Error, ErrorV};
use crate::funcs::{funs_get, FuncKind};
use crate::merge::{add_v, first_key_idx};
use crate::path::{depth_step, split_top};
use crate::placeholder::{path_of, ph_scan, phs, placeholder_of, PlaceholderV};
use crate::text::text_of;
use crate::value::{fsize, ssize, view_fields, vsize, Value, ValueV};

verus! {

/// The environment a resolution step runs in: the lookup data, the directory,
/// the registry, the loaded files, and the document under resolution.
pub struct CtxV {
    /// The caller-supplied data tree.
    pub data: ValueV,
    /// The base directory for file placeholders.
    pub dir: Option<Seq<char>>,
    /// The function registry.
    pub funs: Seq<(Seq<char>, FuncKind)>,
    /// The loaded file documents, keyed by joined path.
    pub files: Seq<(Seq<char>, ValueV)>,
    /// The document under resolution, the fallback lookup source.
    pub cur: ValueV,
}

/// The environment an executable resolver call runs in.
pub open spec fn ctx_of(context: Context, dir: Option<String>, cur: ValueV) -> CtxV {
    CtxV {
        data: context.data@,
        dir: match dir {
            Some(d) => Some(d@),
            None => None,
        },
        funs: context.functions@,
        files: view_fields(context.files@),
        cur,
    }
}

/// The outcome of resolving one value.
pub enum ROut {
    /// Resolution succeeds with this value.
    Val(ValueV),
    /// Resolution fails with this error.
    Fail(ErrorV),
    /// A custom function was dispatched; the outcome is not specified.
    Unspec,
}

/// The outcome of resolving the members of an object.
pub enum FOut {
    /// All members resolved.
    Fields(Seq<(Seq<char>, ValueV)>),
    /// Some member failed.
    Fail(ErrorV),
    /// A custom function was dispatched along the way.
    Unspec,
}

/// The outcome of resolving the elements of an array.
pub enum SOut {
    /// All elements resolved.
    Elems(Seq<ValueV>),
    /// Some element failed.
    Fail(ErrorV),
    /// A custom function was dispatched along the way.
    Unspec,
}

/// The outcome of resolving each placeholder of a string.
pub enum VOut {
    /// All placeholders resolved, in scan order.
    Vals(Seq<ValueV>),
    /// Some placeholder failed.
    Fail(ErrorV),
    /// A custom function was dispatched along the way.
    Unspec,
}

/// Whether an executable result refines a semantic outcome.
pub open spec fn rmatch(o: ROut, r: Result<Value, Error>) -> bool {
    match o {
        ROut::Val(v) => r matches Ok(x) && x@ == v,
        ROut::Fail(e) => r matches Err(x) && x@ == e,
        ROut::Unspec => true,
    }
}

/// Whether an executable result refines an object-members outcome.
pub open spec fn fmatch(o: FOut, r: Result<Value, Error>) -> bool {
    match o {
        FOut::Fields(fs) => r matches Ok(x) && x@ == ValueV::Object(fs),
        FOut::Fail(e) => r matches Err(x) && x@ == e,
        FOut::Unspec => true,
    }
}

/// Whether an executable result refines an array-elements outcome.
pub open spec fn smatch(o: SOut, r: Result<Value, Error>) -> bool {
    match o {
        SOut::Elems(es) => r matches Ok(x) && x@ == ValueV::Array(es),
        SOut::Fail(e) => r matches Err(x) && x@ == e,
        SOut::Unspec => true,
    }
}

/// Prepends already-resolved elements to an array-elements outcome.
pub open spec fn scombine(pre: Seq<ValueV>, o: SOut) -> SOut {
    match o {
        SOut::Elems(rest) => SOut::Elems(pre + rest),
        SOut::Fail(e) => SOut::Fail(e),
        SOut::Unspec => SOut::Unspec,
    }
}

/// Prepends already-resolved members to an object-members outcome.
pub open spec fn fcombine(pre: Seq<(Seq<char>, ValueV)>, o: FOut) -> FOut {
    match o {
        FOut::Fields(rest) => FOut::Fields(pre + rest),
        FOut::Fail(e) => FOut::Fail(e),
        FOut::Unspec => FOut::Unspec,
    }
}

/// Prepends already-resolved placeholder values to a placeholder-values
/// outcome.
pub open spec fn vcombine(pre: Seq<ValueV>, o: VOut) -> VOut {
    match o {
        VOut::Vals(rest) => VOut::Vals(pre + rest),
        VOut::Fail(e) => VOut::Fail(e),
        VOut::Unspec => VOut::Unspec,
    }
}

/// The member of an object with the given key, if the value is an object and
/// the key is present.
pub open spec fn obj_get(base: ValueV, key: Seq<char>) -> Option<ValueV> {
    match base {
        ValueV::Object(fs) => match first_key_idx(fs, key) {
            Some(i) => Some(fs[i].1),
            None => None,
        },
        _ => None,
    }
}

/// The loaded file document stored under a path, if any.
pub open spec fn files_get(files: Seq<(Seq<char>, ValueV)>, key: Seq<char>) -> Option<ValueV> {
    match first_key_idx(files, key) {
        Some(i) => Some(files[i].1),
        None => None,
    }
}

/// Joins a directory and a file name with a slash.
pub open spec fn join_path(dir: Seq<char>, name: Seq<char>) -> Seq<char> {
    if dir.len() > 0 && dir.last() == '/' {
        dir + name
    } else {
        dir + seq!['/'] + name
    }
}

/// The last position of a character in a string, or a negative value.
pub open spec fn last_idx_of(s: Seq<char>, c: char) -> int
    decreases s.len(),
{
    if s.len() == 0 {
        -1
    } else if s.last() == c {
        s.len() - 1
    } else {
        last_idx_of(s.drop_last(), c)
    }
}

/// The parent of a path: everything before the last slash.
pub open spec fn parent_of(s: Seq<char>) -> Seq<char> {
    if last_idx_of(s, '/') >= 0 {
        s.subrange(0, last_idx_of(s, '/'))
    } else {
        Seq::empty()
    }
}

/// The substitution pass over a string: characters outside placeholders are
/// kept, and the placeholder closing at brace depth one substitutes the text
/// rendering of the next resolved value.
pub open spec fn subst_scan(
    s: Seq<char>,
    i: int,
    lvl: int,
    start: int,
    vals: Seq<ValueV>,
    k: int,
    out: Seq<char>,
) -> Seq<char>
    decreases s.len() - i,
{
    if i < 0 || i >= s.len() {
        if lvl > 0 {
            out + s.subrange(start, s.len() as int)
        } else {
            out
        }
    } else {
        let c = s[i];
        if c == '{' && lvl == 0 {
            subst_scan(s, i + 1, 1, i, vals, k, out)
        } else if c == '}' && lvl == 1 {
            let t = if 0 <= k < vals.len() {
                text_of(vals[k])
            } else {
                Seq::empty()
            };
            subst_scan(s, i + 1, 0, start, vals, k + 1, out + t)
        } else if lvl > 0 {
            subst_scan(s, i + 1, depth_step(lvl, c), start, vals, k, out)
        } else {
            subst_scan(s, i + 1, depth_step(lvl, c), start, vals, k, out.push(c))
        }
    }
}

/// Whether a model value holds no placeholder anywhere: every string in it
/// scans to no placeholders.
pub open spec fn placeholder_free(v: ValueV) -> bool
    decreases v,
{
    match v {
        ValueV::Text(s) => phs(s).len() == 0,
        ValueV::Array(es) => elems_free(es),
        ValueV::Object(fs) => fields_free(fs),
        _ => true,
    }
}

/// Whether every element is placeholder-free.
pub open spec fn elems_free(es: Seq<ValueV>) -> bool
    decreases es,
{
    es.len() == 0 || (placeholder_free(es[0]) && elems_free(es.drop_first()))
}

/// Whether every member value is placeholder-free.
pub open spec fn fields_free(fs: Seq<(Seq<char>, ValueV)>) -> bool
    decreases fs,
{
    fs.len() == 0 || (placeholder_free(fs[0].1) && fields_free(fs.drop_first()))
}

/// Resolving a value: objects and arrays resolve member by member, strings go
/// through placeholder substitution, every other scalar is returned as it is.
pub open spec fn rspec_value(ctx: CtxV, v: ValueV, fuel: nat) -> ROut
    decreases fuel, vsize(v), 0int, 1int,
{
    match v {
        ValueV::Text(s) => rspec_string(ctx, s, fuel),
        ValueV::Array(es) => match rspec_elems(ctx, es, fuel) {
            SOut::Elems(rs) => ROut::Val(ValueV::Array(rs)),
            SOut::Fail(e) => ROut::Fail(e),
            SOut::Unspec => ROut::Unspec,
        },
        ValueV::Object(fs) => match rspec_fields(ctx, fs, fuel) {
            FOut::Fields(rs) => ROut::Val(ValueV::Object(rs)),
            FOut::Fail(e) => ROut::Fail(e),
            FOut::Unspec => ROut::Unspec,
        },
        _ => ROut::Val(v),
    }
}

/// Resolving the members of an object, in order, failing fast.
pub open spec fn rspec_fields(ctx: CtxV, fs: Seq<(Seq<char>, ValueV)>, fuel: nat) -> FOut
    decreases fuel, fsize(fs), 0int, 0int,
{
    if fs.len() == 0 {
        FOut::Fields(Seq::empty())
    } else {
        match rspec_value(ctx, fs[0].1, fuel) {
            ROut::Val(v0) => match rspec_fields(ctx, fs.drop_first(), fuel) {
                FOut::Fields(rest) => FOut::Fields(seq![(fs[0].0, v0)] + rest),
                FOut::Fail(e) => FOut::Fail(e),
                FOut::Unspec => FOut::Unspec,
            },
            ROut::Fail(e) => FOut::Fail(e),
            ROut::Unspec => FOut::Unspec,
        }
    }
}

/// Resolving the elements of an array, in order, failing fast.
pub open spec fn rspec_elems(ctx: CtxV, es: Seq<ValueV>, fuel: nat) -> SOut
    decreases fuel, ssize(es), 0int, 0int,
{
    if es.len() == 0 {
        SOut::Elems(Seq::empty())
    } else {
        match rspec_value(ctx, es[0], fuel) {
            ROut::Val(v0) => match rspec_elems(ctx, es.drop_first(), fuel) {
                SOut::Elems(rest) => SOut::Elems(seq![v0] + rest),
                SOut::Fail(e) => SOut::Fail(e),
                SOut::Unspec => SOut::Unspec,
            },
            ROut::Fail(e) => SOut::Fail(e),
            ROut::Unspec => SOut::Unspec,
        }
    }
}

/// Resolving a string: when the entire string is exactly one placeholder, the
/// resolved value replaces the string itself, keeping its type; otherwise
/// every top-level placeholder is resolved and substituted textually.
pub open spec fn rspec_string(ctx: CtxV, s: Seq<char>, fuel: nat) -> ROut
    decreases fuel, 1int, 0int, 0int,
{
    let ps = phs(s);
    if ps.len() == 1 && ps[0] == s {
        match placeholder_of(s) {
            Some(pv) => rspec_placeholder(ctx, pv, fuel),
            None => ROut::Val(ValueV::Text(s)),
        }
    } else {
        match rspec_ph_vals(ctx, ps, fuel) {
            VOut::Vals(vals) => ROut::Val(
                ValueV::Text(subst_scan(s, 0, 0, 0, vals, 0, Seq::empty())),
            ),
            VOut::Fail(e) => ROut::Fail(e),
            VOut::Unspec => ROut::Unspec,
        }
    }
}

/// Resolving each placeholder found in a string, in scan order, failing fast.
pub open spec fn rspec_ph_vals(ctx: CtxV, ps: Seq<Seq<char>>, fuel: nat) -> VOut
    decreases fuel, 0int, ps.len(), 1int,
{
    if ps.len() == 0 {
        VOut::Vals(Seq::empty())
    } else {
        match placeholder_of(ps[0]) {
            Some(pv) => match rspec_placeholder(ctx, pv, fuel) {
                ROut::Val(v0) => match rspec_ph_vals(ctx, ps.drop_first(), fuel) {
                    VOut::Vals(rest) => VOut::Vals(seq![v0] + rest),
                    VOut::Fail(e) => VOut::Fail(e),
                    VOut::Unspec => VOut::Unspec,
                },
                ROut::Fail(e) => VOut::Fail(e),
                ROut::Unspec => VOut::Unspec,
            },
            None => VOut::Unspec,
        }
    }
}

/// Resolving one placeholder: a typed placeholder dispatches through the
/// registry (an unknown tag is an error, a custom tag is unspecified), an
/// untyped one looks its path up in the context; the produced value is then
/// itself resolved again. Exhausted fuel means a placeholder chain too deep,
/// as a cycle produces.
pub open spec fn rspec_placeholder(ctx: CtxV, p: PlaceholderV, fuel: nat) -> ROut
    decreases fuel, 0int, 0int, 0int,
{
    if fuel == 0 {
        ROut::Fail(ErrorV::DepthExceeded)
    } else {
        let d = match p.tag {
            Some(tag) => match funs_get(ctx.funs, tag) {
                None => ROut::Fail(ErrorV::FunctionNotFound(tag)),
                Some(FuncKind::StringFn) => rspec_fstring(ctx, p, (fuel - 1) as nat),
                Some(FuncKind::FileFn) => rspec_ffile(ctx, p, (fuel - 1) as nat),
                Some(FuncKind::ComposeFn) => rspec_fcompose(ctx, p, (fuel - 1) as nat),
                Some(FuncKind::Custom) => ROut::Unspec,
            },
            None => rspec_find(ctx, p, (fuel - 1) as nat),
        };
        match d {
            ROut::Val(v) => rspec_value(ctx, v, (fuel - 1) as nat),
            ROut::Fail(e) => ROut::Fail(e),
            ROut::Unspec => ROut::Unspec,
        }
    }
}

/// Looking a placeholder's path up: first in the data tree, then, if that
/// fails, in the document under resolution — the self-reference fallback.
pub open spec fn rspec_find(ctx: CtxV, p: PlaceholderV, fuel: nat) -> ROut
    decreases fuel, 2int, 0int, 0int,
{
    let path = path_of(p);
    let segs = split_top(path, '.');
    match rspec_get_dot(ctx, ROut::Val(ctx.data), segs, path, fuel) {
        ROut::Val(v) => ROut::Val(v),
        ROut::Unspec => ROut::Unspec,
        ROut::Fail(_) => rspec_get_dot(ctx, ROut::Val(ctx.cur), segs, path, fuel),
    }
}

/// Dotted traversal: a segment that is itself a placeholder is resolved and
/// replaces the accumulated value; a literal segment is looked up as a key in
/// the accumulated value, and what it finds is resolved.
pub open spec fn rspec_get_dot(
    ctx: CtxV,
    acc: ROut,
    segs: Seq<Seq<char>>,
    path: Seq<char>,
    fuel: nat,
) -> ROut
    decreases fuel, 1int, segs.len(), 0int,
{
    if segs.len() == 0 {
        acc
    } else {
        let seg = segs[0];
        let acc2 = match placeholder_of(seg) {
            Some(pv) => if fuel == 0 {
                ROut::Fail(ErrorV::DepthExceeded)
            } else {
                rspec_placeholder(ctx, pv, (fuel - 1) as nat)
            },
            None => match acc {
                ROut::Val(base) => match obj_get(base, seg) {
                    Some(child) => if fuel == 0 {
                        ROut::Fail(ErrorV::DepthExceeded)
                    } else {
                        rspec_value(ctx, child, (fuel - 1) as nat)
                    },
                    None => ROut::Fail(ErrorV::PathNotFound(path)),
                },
                ROut::Fail(e) => ROut::Fail(e),
                ROut::Unspec => ROut::Unspec,
            },
        };
        rspec_get_dot(ctx, acc2, segs.drop_first(), path, fuel)
    }
}

/// The built-in `string` transform: looks the path up and renders the result
/// as unquoted text.
pub open spec fn rspec_fstring(ctx: CtxV, p: PlaceholderV, fuel: nat) -> ROut
    decreases fuel, 3int, 0int, 0int,
{
    match rspec_find(ctx, p, fuel) {
        ROut::Val(v) => ROut::Val(ValueV::Text(text_of(v))),
        ROut::Fail(e) => ROut::Fail(e),
        ROut::Unspec => ROut::Unspec,
    }
}

/// The built-in `file` transform: requires a directory, joins it with the
/// placeholder path, takes the document loaded under that path, and resolves
/// it fully with the directory reset to the file's parent and the document
/// itself as the self-reference fallback.
pub open spec fn rspec_ffile(ctx: CtxV, p: PlaceholderV, fuel: nat) -> ROut
    decreases fuel, 3int, 0int, 0int,
{
    match ctx.dir {
        None => ROut::Fail(ErrorV::NoDirectory),
        Some(d) => {
            let full = join_path(d, path_of(p));
            match files_get(ctx.files, full) {
                None => ROut::Fail(ErrorV::FileUnavailable(full)),
                Some(fv) => {
                    let ctx2 = CtxV { dir: Some(parent_of(full)), cur: fv, ..ctx };
                    if fuel == 0 {
                        ROut::Fail(ErrorV::DepthExceeded)
                    } else {
                        rspec_value(ctx2, fv, (fuel - 1) as nat)
                    }
                },
            }
        },
    }
}

/// The built-in `compose` transform: splits the path on top-level commas,
/// resolves each fragment as a string of its own, and `add`-merges the
/// results into one object, earlier fragments winning.
pub open spec fn rspec_fcompose(ctx: CtxV, p: PlaceholderV, fuel: nat) -> ROut
    decreases fuel, 3int, 0int, 0int,
{
    let parts = split_top(path_of(p), ',');
    rspec_parts(ctx, parts, ValueV::Object(Seq::empty()), fuel)
}

/// Folds the fragments of a compose placeholder into the accumulator.
pub open spec fn rspec_parts(ctx: CtxV, parts: Seq<Seq<char>>, acc: ValueV, fuel: nat) -> ROut
    decreases fuel, 2int, parts.len(), 1int,
{
    if parts.len() == 0 {
        ROut::Val(acc)
    } else if fuel == 0 {
        ROut::Fail(ErrorV::DepthExceeded)
    } else {
        match rspec_string(ctx, parts[0], (fuel - 1) as nat) {
            ROut::Val(v) => rspec_parts(ctx, parts.drop_first(), add_v(acc, v), fuel),
            ROut::Fail(e) => ROut::Fail(e),
            ROut::Unspec => ROut::Unspec,
        }
    }
}

} // verus!
