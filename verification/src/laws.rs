//! Laws of the resolution engine, stated and proved against the semantics in
//! `sem`.

use vstd::prelude::*;

use crate::errors::ErrorV;
use crate::funcs::{funs_get, FuncKind};
use crate::merge::add_v;
use crate::path::{depth_step, split_top};
use crate::placeholder::{lemma_ph_scan_prefix, path_of, ph_scan, phs, placeholder_of,
    PlaceholderV};
use crate::sem::{elems_free, fields_free, placeholder_free, rspec_elems, rspec_fields,
    rspec_ffile, rspec_find, rspec_get_dot, rspec_parts, rspec_ph_vals, rspec_placeholder,
    rspec_string, rspec_value, subst_scan, CtxV, FOut, ROut, SOut, VOut};
use crate::value::{fsize, ssize, vsize, ValueV};

verus! {

/// When the scan finds no placeholder from a state, the substitution pass
/// from that state reproduces the remaining text unchanged.
proof fn lemma_subst_none(
    s: Seq<char>,
    i: int,
    lvl: int,
    start: int,
    vals: Seq<ValueV>,
    k: int,
    out: Seq<char>,
    acc: Seq<Seq<char>>,
)
    requires
        0 <= start <= i <= s.len(),
        ph_scan(s, i, lvl, start, acc) == acc,
    ensures
        subst_scan(s, i, lvl, start, vals, k, out) == out + s.subrange(
            if lvl > 0 {
                start
            } else {
                i
            },
            s.len() as int,
        ),
    decreases s.len() - i,
{
    if i >= s.len() {
        if lvl > 0 {
        } else {
            assert(s.subrange(i, s.len() as int) =~= Seq::<char>::empty());
            assert(out + Seq::<char>::empty() =~= out);
        }
    } else {
        let c = s[i];
        if c == '{' && lvl == 0 {
            lemma_subst_none(s, i + 1, 1, i, vals, k, out, acc);
        } else if c == '}' && lvl == 1 {
            lemma_ph_scan_prefix(s, i + 1, 0, start, acc.push(s.subrange(start, i + 1)));
            assert(false);
        } else if lvl > 0 {
            lemma_subst_none(s, i + 1, depth_step(lvl, c), start, vals, k, out, acc);
            assert(depth_step(lvl, c) > 0);
        } else {
            lemma_subst_none(s, i + 1, depth_step(lvl, c), start, vals, k, out.push(c), acc);
            assert(depth_step(lvl, c) <= 0);
            assert(out.push(c) + s.subrange(i + 1, s.len() as int) =~= out + s.subrange(
                i,
                s.len() as int,
            ));
        }
    }
}

/// Idempotence: resolving a value that holds no placeholder anywhere returns
/// it unchanged, whatever the context and however little fuel is left.
pub proof fn lemma_resolve_idempotent(ctx: CtxV, v: ValueV, fuel: nat)
    requires
        placeholder_free(v),
    ensures
        rspec_value(ctx, v, fuel) == ROut::Val(v),
    decreases fuel, vsize(v), 0int, 1int,
{
    match v {
        ValueV::Text(s) => {
            assert(phs(s).len() == 0);
            assert(phs(s) =~= Seq::<Seq<char>>::empty());
            assert(rspec_ph_vals(ctx, phs(s), fuel) == VOut::Vals(Seq::empty()));
            lemma_subst_none(s, 0, 0, 0, Seq::empty(), 0, Seq::empty(), Seq::empty());
            assert(Seq::<char>::empty() + s.subrange(0, s.len() as int) =~= s);
        },
        ValueV::Array(es) => {
            lemma_elems_idempotent(ctx, es, fuel);
        },
        ValueV::Object(fs) => {
            lemma_fields_idempotent(ctx, fs, fuel);
        },
        _ => {},
    }
}

/// Idempotence over the elements of an array.
proof fn lemma_elems_idempotent(ctx: CtxV, es: Seq<ValueV>, fuel: nat)
    requires
        elems_free(es),
    ensures
        rspec_elems(ctx, es, fuel) == SOut::Elems(es),
    decreases fuel, ssize(es), 0int, 0int,
{
    if es.len() == 0 {
        assert(es =~= Seq::<ValueV>::empty());
    } else {
        lemma_resolve_idempotent(ctx, es[0], fuel);
        lemma_elems_idempotent(ctx, es.drop_first(), fuel);
        assert(seq![es[0]] + es.drop_first() =~= es);
    }
}

/// Idempotence over the members of an object.
proof fn lemma_fields_idempotent(ctx: CtxV, fs: Seq<(Seq<char>, ValueV)>, fuel: nat)
    requires
        fields_free(fs),
    ensures
        rspec_fields(ctx, fs, fuel) == FOut::Fields(fs),
    decreases fuel, fsize(fs), 0int, 0int,
{
    if fs.len() == 0 {
        assert(fs =~= Seq::<(Seq<char>, ValueV)>::empty());
    } else {
        lemma_resolve_idempotent(ctx, fs[0].1, fuel);
        lemma_fields_idempotent(ctx, fs.drop_first(), fuel);
        assert((fs[0].0, fs[0].1) == fs[0]);
        assert(seq![fs[0]] + fs.drop_first() =~= fs);
    }
}

/// Whole-string substitution preserves type: when an entire string is exactly
/// one placeholder, resolving the string is resolving that placeholder — the
/// resolved value replaces the string itself, not its text rendering.
pub proof fn lemma_whole_string_preserves_value(ctx: CtxV, s: Seq<char>, fuel: nat)
    requires
        phs(s).len() == 1,
        phs(s)[0] == s,
        placeholder_of(s) is Some,
    ensures
        rspec_string(ctx, s, fuel) == rspec_placeholder(ctx, placeholder_of(s)->Some_0, fuel),
{
}

/// Chained placeholders: the value an untyped placeholder looks up is itself
/// resolved again, so a placeholder resolving to another placeholder resolves
/// on to that one's value.
pub proof fn lemma_chained_resolution(ctx: CtxV, p: PlaceholderV, fuel: nat)
    requires
        fuel > 0,
        p.tag is None,
    ensures
        rspec_placeholder(ctx, p, fuel) == (match rspec_find(ctx, p, (fuel - 1) as nat) {
            ROut::Val(v) => rspec_value(ctx, v, (fuel - 1) as nat),
            ROut::Fail(e) => ROut::Fail(e),
            ROut::Unspec => ROut::Unspec,
        }),
{
}

/// Self-reference: when the lookup against the data tree fails, the same
/// lookup is retried against the document under resolution, and its outcome
/// is the outcome of the find.
pub proof fn lemma_find_falls_back_to_current(ctx: CtxV, p: PlaceholderV, fuel: nat)
    requires
        rspec_get_dot(
            ctx,
            ROut::Val(ctx.data),
            split_top(path_of(p), '.'),
            path_of(p),
            fuel,
        ) is Fail,
    ensures
        rspec_find(ctx, p, fuel) == rspec_get_dot(
            ctx,
            ROut::Val(ctx.cur),
            split_top(path_of(p), '.'),
            path_of(p),
            fuel,
        ),
{
}

/// A file placeholder requires a directory: with none set in the context, a
/// placeholder whose tag is registered to the file transform fails with the
/// configuration error.
pub proof fn lemma_file_requires_directory(ctx: CtxV, p: PlaceholderV, tag: Seq<char>, fuel: nat)
    requires
        fuel > 0,
        ctx.dir is None,
        p.tag == Some(tag),
        funs_get(ctx.funs, tag) == Some(FuncKind::FileFn),
    ensures
        rspec_placeholder(ctx, p, fuel) == ROut::Fail(ErrorV::NoDirectory),
{
    assert(rspec_ffile(ctx, p, (fuel - 1) as nat) == ROut::Fail(ErrorV::NoDirectory));
}

/// An unknown function tag fails: a typed placeholder whose tag is absent
/// from the registry fails with the function-not-found error naming the tag.
pub proof fn lemma_unknown_function(ctx: CtxV, p: PlaceholderV, tag: Seq<char>, fuel: nat)
    requires
        fuel > 0,
        p.tag == Some(tag),
        funs_get(ctx.funs, tag) is None,
    ensures
        rspec_placeholder(ctx, p, fuel) == ROut::Fail(ErrorV::FunctionNotFound(tag)),
{
}

/// Compose merges fragments: when a compose placeholder's path splits into
/// two fragments and each resolves to a value, the result is the `add` merge
/// of the two onto an empty object, the first fragment's values winning.
pub proof fn lemma_compose_merges(
    ctx: CtxV,
    parts: Seq<Seq<char>>,
    va: ValueV,
    vb: ValueV,
    fuel: nat,
)
    requires
        fuel > 0,
        parts.len() == 2,
        rspec_string(ctx, parts[0], (fuel - 1) as nat) == ROut::Val(va),
        rspec_string(ctx, parts[1], (fuel - 1) as nat) == ROut::Val(vb),
    ensures
        rspec_parts(ctx, parts, ValueV::Object(Seq::empty()), fuel) == ROut::Val(
            add_v(add_v(ValueV::Object(Seq::empty()), va), vb),
        ),
{
    assert(parts.drop_first()[0] == parts[1]);
    assert(parts.drop_first().drop_first() =~= Seq::<Seq<char>>::empty());
    let acc0 = ValueV::Object(Seq::empty());
    assert(rspec_parts(ctx, parts, acc0, fuel) == rspec_parts(
        ctx,
        parts.drop_first(),
        add_v(acc0, va),
        fuel,
    ));
    assert(rspec_parts(ctx, parts.drop_first(), add_v(acc0, va), fuel) == rspec_parts(
        ctx,
        parts.drop_first().drop_first(),
        add_v(add_v(acc0, va), vb),
        fuel,
    ));
}

} // verus!
