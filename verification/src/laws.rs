//! Properties of the library that relate its operations to each other.
use crate::cache::files_view;
use crate::error::{LineRange, StckError};
use crate::internals::{
    ControlFlow, Expr,
    insert_entry, keys_unique, lemma_insert_keeps_unique, lemma_key_index, lookup, key_index,
    FnArgDef, RawKeyword, RustStckFn, Token, TokenCont, Value, ValueV,
};
use crate::module::{hook_index, lemma_hook_index_from};
use crate::parse::{parse_from, parse_tokens, ParseErrM, StM};
use crate::preproc::{preproc_from, reading, command_effect, ChangeM, ProcCommand, pragma_effect};
use crate::parse::ExprM;
use crate::semantics::{lemma_seq_fuel, run_seq, stuck, OutM, RunS};
use crate::text::{join_with, lemma_split_on_len, split_on};
use crate::trc::{lemma_name_index, name_index, name_insert, name_lookup};
use vstd::prelude::*;

verus! {

/// Binding a name in a map makes a lookup of that name give the bound value,
/// leaves every other name as it was, and keeps the names unique.
pub proof fn law_map_insert_lookup(s: Seq<(Seq<char>, ValueV)>, k: Seq<char>, v: ValueV, other: Seq<char>)
    requires
        keys_unique(s),
    ensures
        lookup(insert_entry(s, k, v), k) == Some(v),
        other != k ==> lookup(insert_entry(s, k, v), other) == lookup(s, other),
        keys_unique(insert_entry(s, k, v)),
{
    lemma_insert_keeps_unique(s, k, v);
    if other != k {
        let t = insert_entry(s, k, v);
        lemma_key_index(s, k, 0);
        lemma_key_index(s, other, 0);
        lemma_key_index(t, other, 0);
        match key_index(s, k, 0) {
            Some(i) => {
                assert forall|m: int| 0 <= m < t.len() implies (t[m].0 == other <==> s[m].0 == other) by {
                    if m != i {
                        assert(t[m] == s[m]);
                    }
                }
            },
            None => {
                assert forall|m: int| 0 <= m < s.len() implies t[m] == s[m] by {}
                assert(t[s.len() as int].0 == k);
            },
        }
        match (key_index(s, other, 0), key_index(t, other, 0)) {
            (Some(a), Some(b)) => {
                if a < b {
                    assert(t[a].0 == other);
                } else if b < a {
                    assert(s[b].0 == other);
                }
                assert(a == b);
                assert(t[a] == s[a]);
            },
            (Some(a), None) => {
                assert(t[a].0 == other);
            },
            (None, Some(b)) => {
                assert(s[b].0 == other);
            },
            (None, None) => {},
        }
    }
}

/// Popping a stack right after pushing a value gives the value back and
/// leaves the stack as it was before the push.
pub proof fn law_stack_pop_after_push(s: Seq<Value>, v: Value)
    ensures
        s.push(v).len() > 0,
        s.push(v).last() == v,
        s.push(v).drop_last() == s,
{
    assert(s.push(v).drop_last() =~= s);
}

/// Joining the pieces of a split text with the separator gives the text back.
pub proof fn law_split_join(s: Seq<char>, c: char)
    ensures
        join_with(split_on(s, c), c) == s,
    decreases s.len(),
{
    if s.len() > 0 {
        let t = s.drop_last();
        law_split_join(t, c);
        lemma_split_on_len(t, c);
        let p = split_on(t, c);
        if s.last() == c {
            assert(p.push(Seq::empty()).drop_last() =~= p);
            assert(join_with(p, c).push(c) + Seq::<char>::empty() =~= s);
        } else {
            let q = p.update(p.len() - 1, p.last().push(s.last()));
            if p.len() == 1 {
                assert(q[0] =~= s);
            } else {
                assert(q.drop_last() =~= p.drop_last());
                assert(join_with(p.drop_last(), c).push(c) + p.last().push(s.last()) =~= (join_with(
                    p.drop_last(),
                    c,
                ).push(c) + p.last()).push(s.last()));
            }
        }
    }
}

/// Whether no token is a pragma or an include.
pub open spec fn no_directives(ts: Seq<Token>) -> bool {
    forall|i: int|
        0 <= i < ts.len() ==> !(#[trigger] ts[i].cont matches TokenCont::Keyword(RawKeyword::Pragma { .. }))
}

/// Where tokens are read, tokens with no pragma pass the pre-processor
/// unchanged, and the names set stay as they were.
pub proof fn law_preproc_keeps_plain(ts: Seq<Token>, stack: Seq<(ProcCommand, bool)>, vars: Set<Seq<char>>)
    requires
        no_directives(ts),
        reading(stack),
    ensures
        preproc_from(ts, stack, vars) == (Ok::<Seq<Token>, crate::preproc::PpErrM>(ts), vars),
    decreases ts.len(),
{
    if ts.len() > 0 {
        let rest = ts.subrange(1, ts.len() as int);
        assert(!(ts[0].cont matches TokenCont::Keyword(RawKeyword::Pragma { .. })));
        assert forall|i: int| 0 <= i < rest.len() implies !(#[trigger] rest[i].cont matches TokenCont::Keyword(
            RawKeyword::Pragma { .. },
        )) by {
            assert(rest[i] == ts[i + 1]);
        }
        law_preproc_keeps_plain(rest, stack, vars);
        assert(seq![ts[0]] + rest =~= ts);
        assert(preproc_from(ts, stack, vars).0 == Ok::<Seq<Token>, crate::preproc::PpErrM>(seq![ts[0]] + rest));
        assert(preproc_from(ts, stack, vars).1 == vars);
    } else {
        assert(ts =~= Seq::<Token>::empty());
    }
}

/// Where tokens are dropped, tokens with no pragma are all dropped.
pub proof fn law_preproc_drops_plain(ts: Seq<Token>, stack: Seq<(ProcCommand, bool)>, vars: Set<Seq<char>>)
    requires
        no_directives(ts),
        !reading(stack),
    ensures
        preproc_from(ts, stack, vars) == (Ok::<Seq<Token>, crate::preproc::PpErrM>(Seq::empty()), vars),
    decreases ts.len(),
{
    if ts.len() > 0 {
        let rest = ts.subrange(1, ts.len() as int);
        assert(!(ts[0].cont matches TokenCont::Keyword(RawKeyword::Pragma { .. })));
        assert forall|i: int| 0 <= i < rest.len() implies !(#[trigger] rest[i].cont matches TokenCont::Keyword(
            RawKeyword::Pragma { .. },
        )) by {
            assert(rest[i] == ts[i + 1]);
        }
        law_preproc_drops_plain(rest, stack, vars);
    }
}

/// The pieces of `w + " " + v`, for words without spaces.
proof fn lemma_split_two(w: Seq<char>, v: Seq<char>)
    requires
        forall|i: int| 0 <= i < w.len() ==> w[i] != ' ',
        forall|i: int| 0 <= i < v.len() ==> v[i] != ' ',
    ensures
        split_on(w + seq![' '] + v, ' ') == seq![w, v],
    decreases v.len(),
{
    if v.len() == 0 {
        assert(v =~= Seq::<char>::empty());
        lemma_split_one(w);
        assert((w + seq![' '] + v).drop_last() =~= w);
        assert(w + seq![' '] + v =~= w.push(' '));
        assert(split_on(w, ' ').push(Seq::empty()) =~= seq![w, v]);
    } else {
        let v0 = v.drop_last();
        assert forall|i: int| 0 <= i < v0.len() implies v0[i] != ' ' by {
            assert(v0[i] == v[i]);
        }
        assert(v.last() == v[v.len() - 1]);
        lemma_split_two(w, v0);
        assert((w + seq![' '] + v).drop_last() =~= w + seq![' '] + v0);
        assert(v0.push(v.last()) =~= v);
        assert(seq![w, v0].update(1, v0.push(v.last())) =~= seq![w, v]);
    }
}

/// A word without spaces is one piece.
proof fn lemma_split_one(w: Seq<char>)
    requires
        forall|i: int| 0 <= i < w.len() ==> w[i] != ' ',
    ensures
        split_on(w, ' ') == seq![w],
    decreases w.len(),
{
    if w.len() > 0 {
        let w0 = w.drop_last();
        assert forall|i: int| 0 <= i < w0.len() implies w0[i] != ' ' by {
            assert(w0[i] == w[i]);
        }
        assert(w.last() == w[w.len() - 1]);
        lemma_split_one(w0);
        assert(w0.push(w.last()) =~= w);
        assert(seq![w0].update(0, w0.push(w.last())) =~= seq![w]);
    } else {
        assert(w =~= Seq::<char>::empty());
    }
}

/// The text of a pragma command: `if <v>`, `else`, `end if`.
pub open spec fn if_cmd(v: Seq<char>) -> Seq<char> {
    seq!['i', 'f', ' '] + v
}

pub open spec fn is_pragma(t: Token, cmd: Seq<char>) -> bool {
    t.cont matches TokenCont::Keyword(RawKeyword::Pragma { command }) && command@ == cmd
}

/// A section `(pragma if v) T1 (pragma else) T2 (pragma end if)` read at the
/// top level keeps `T1` when `v` is set and `T2` otherwise; the names set
/// stay as they were.
pub proof fn law_pragma_if_else(
    v: Seq<char>,
    p_if: Token,
    t1: Seq<Token>,
    p_else: Token,
    t2: Seq<Token>,
    p_end: Token,
    vars: Set<Seq<char>>,
)
    requires
        forall|i: int| 0 <= i < v.len() ==> v[i] != ' ',
        is_pragma(p_if, if_cmd(v)),
        is_pragma(p_else, seq!['e', 'l', 's', 'e']),
        is_pragma(p_end, seq!['e', 'n', 'd', ' ', 'i', 'f']),
        no_directives(t1),
        no_directives(t2),
    ensures
        preproc_from(seq![p_if] + t1 + seq![p_else] + t2 + seq![p_end], Seq::empty(), vars) == (
            Ok::<Seq<Token>, crate::preproc::PpErrM>(
                if vars.contains(v) {
                    t1
                } else {
                    t2
                },
            ),
            vars,
        ),
{
    lemma_split_two(seq!['i', 'f'], v);
    assert(seq!['i', 'f'] + seq![' '] + v =~= if_cmd(v));
    lemma_split_one(seq!['e', 'l', 's', 'e']);
    lemma_split_two(seq!['e', 'n', 'd'], seq!['i', 'f']);
    assert(seq!['e', 'n', 'd'] + seq![' '] + seq!['i', 'f'] =~= seq!['e', 'n', 'd', ' ', 'i', 'f']);
    let on = vars.contains(v);
    let s_if = seq![(ProcCommand::If, on)];
    let s_else = seq![(ProcCommand::IfElse, !on)];
    let empty: Seq<(ProcCommand, bool)> = Seq::empty();
    let all = seq![p_if] + t1 + seq![p_else] + t2 + seq![p_end];
    // the `if` pragma
    assert(all[0] == p_if);
    let a1 = all.subrange(1, all.len() as int);
    assert(a1 =~= t1 + seq![p_else] + t2 + seq![p_end]);
    assert(pragma_effect(empty, if_cmd(v), vars, p_if.span) == (
        Ok::<Seq<(ProcCommand, bool)>, crate::preproc::PpErrM>(s_if),
        vars,
    )) by {
        assert(empty.push((ProcCommand::If, on && reading(empty))) =~= s_if);
    }
    let a2 = seq![p_else] + t2 + seq![p_end];
    assert(a1 =~= t1 + a2);
    assert(preproc_from(all, empty, vars) == preproc_from(a1, s_if, vars));
    // the first section
    lemma_preproc_section(t1, a2, s_if, vars);
    // the `else` pragma
    assert(a2[0] == p_else);
    let a3 = t2 + seq![p_end];
    assert(a2.subrange(1, a2.len() as int) =~= a3);
    assert(pragma_effect(s_if, seq!['e', 'l', 's', 'e'], vars, p_else.span) == (
        Ok::<Seq<(ProcCommand, bool)>, crate::preproc::PpErrM>(s_else),
        vars,
    )) by {
        assert(s_if.drop_last().push((ProcCommand::IfElse, !reading(s_if))) =~= s_else);
    }
    assert(preproc_from(a2, s_if, vars) == preproc_from(a3, s_else, vars));
    // the second section
    lemma_preproc_section(t2, seq![p_end], s_else, vars);
    // the `end if` pragma
    let a4 = seq![p_end];
    assert(a4[0] == p_end);
    assert(a4.subrange(1, 1) =~= Seq::<Token>::empty());
    assert(pragma_effect(s_else, seq!['e', 'n', 'd', ' ', 'i', 'f'], vars, p_end.span) == (
        Ok::<Seq<(ProcCommand, bool)>, crate::preproc::PpErrM>(empty),
        vars,
    )) by {
        assert(s_else.drop_last() =~= empty);
    }
    assert(preproc_from(Seq::<Token>::empty(), empty, vars) == (
        Ok::<Seq<Token>, crate::preproc::PpErrM>(Seq::<Token>::empty()),
        vars,
    ));
    assert(preproc_from(a4, s_else, vars) == (Ok::<Seq<Token>, crate::preproc::PpErrM>(Seq::<Token>::empty()), vars));
    if on {
        assert(t1 + Seq::<Token>::empty() =~= t1);
    } else {
        assert(t2 + Seq::<Token>::empty() =~= t2);
    }
}

/// Pre-processing a section of tokens with no pragma, then the rest: the
/// section is kept whole or dropped whole, as the innermost section says.
proof fn lemma_preproc_section(t: Seq<Token>, rest: Seq<Token>, stack: Seq<(ProcCommand, bool)>, vars: Set<Seq<char>>)
    requires
        no_directives(t),
    ensures
        preproc_from(t + rest, stack, vars) == ({
            let (r, v) = preproc_from(rest, stack, vars);
            (
                match r {
                    Ok(o) => Ok(
                        if reading(stack) {
                            t + o
                        } else {
                            o
                        },
                    ),
                    Err(e) => Err(e),
                },
                v,
            )
        }),
    decreases t.len(),
{
    if t.len() > 0 {
        let all = t + rest;
        let t1 = t.subrange(1, t.len() as int);
        assert(all[0] == t[0]);
        assert(!(t[0].cont matches TokenCont::Keyword(RawKeyword::Pragma { .. })));
        assert(all.subrange(1, all.len() as int) =~= t1 + rest);
        assert forall|i: int| 0 <= i < t1.len() implies !(#[trigger] t1[i].cont matches TokenCont::Keyword(
            RawKeyword::Pragma { .. },
        )) by {
            assert(t1[i] == t[i + 1]);
        }
        lemma_preproc_section(t1, rest, stack, vars);
        let (r, v) = preproc_from(rest, stack, vars);
        if let Ok(o) = r {
            assert(seq![t[0]] + (t1 + o) =~= t + o);
        }
    } else {
        assert(t + rest =~= rest);
        let (r, v) = preproc_from(rest, stack, vars);
        if let Ok(o) = r {
            assert(t + o =~= o);
        }
    }
}

/// A closure written with an empty argument list is refused, at the lines
/// of its block, once its block parses.
pub proof fn law_zero_arg_closure_refused(
    args: Token,
    block: Token,
    rest: Seq<Token>,
    src: Seq<char>,
    code: Vec<Token>,
)
    requires
        args.cont matches TokenCont::FnArgs(a) && a@.len() == 0,
        block.cont == TokenCont::Block(code),
        parse_tokens(code@, src) is Ok,
    ensures
        parse_tokens(seq![args, block] + rest, src) == Err::<Seq<crate::parse::ExprM>, ParseErrM>(
            ParseErrM::ZeroArgs(block.span),
        ),
{
    let ts = seq![args, block] + rest;
    assert(ts[0] == args);
    let r1 = ts.subrange(1, ts.len() as int);
    assert(r1[0] == block);
    let a = match args.cont {
        TokenCont::FnArgs(a) => a,
        _ => arbitrary(),
    };
    let s0 = args.span.start;
    assert(parse_from(ts, src, StM::Nothing, Seq::empty(), 0, true) == parse_from(
        r1,
        src,
        StM::ClosureOrOut(a),
        Seq::empty(),
        s0,
        false,
    ));
    assert(parse_from(r1, src, StM::ClosureOrOut(a), Seq::empty(), s0, false) == parse_from(
        r1,
        src,
        StM::ClosureBlock(a, None),
        Seq::empty(),
        s0,
        false,
    ));
}

/// After a file's text is stored under a path, reading that path gives the
/// text back, and every other path reads as before.
pub proof fn law_file_read_back(files: Seq<(Seq<char>, Seq<char>)>, path: Seq<char>, text: Seq<char>, other: Seq<char>)
    ensures
        name_lookup(name_insert(files, path, text), path) == Some(text),
        other != path ==> name_lookup(name_insert(files, path, text), other) == name_lookup(files, other),
{
    let t = name_insert(files, path, text);
    lemma_name_index_first(files, path);
    lemma_name_index_first(t, path);
    lemma_name_index_first(files, other);
    lemma_name_index_first(t, other);
    match name_index(files, path, 0) {
        Some(i) => {
            assert(t[i].0 == path);
            assert forall|m: int| 0 <= m < t.len() && m != i implies t[m] == files[m] by {}
        },
        None => {
            assert(t[files.len() as int].0 == path);
            assert forall|m: int| 0 <= m < files.len() implies t[m] == files[m] by {}
        },
    }
    match name_index(t, path, 0) {
        Some(j) => {},
        None => {},
    }
    if other != path {
        match (name_index(files, other, 0), name_index(t, other, 0)) {
            (Some(a), Some(b)) => {
                if a < b {
                    assert(t[a].0 == other);
                } else if b < a {
                    assert(files[b].0 == other);
                }
            },
            (Some(a), None) => {
                assert(t[a].0 == other);
            },
            (None, Some(b)) => {
                assert(files[b].0 == other);
            },
            (None, None) => {},
        }
    }
}

/// The first entry of a name, found by [`name_index`].
proof fn lemma_name_index_first<X>(s: Seq<(Seq<char>, X)>, k: Seq<char>)
    ensures
        name_index(s, k, 0) matches Some(j) ==> 0 <= j < s.len() && s[j].0 == k && forall|m: int|
            0 <= m < j ==> s[m].0 != k,
        name_index(s, k, 0) is None ==> forall|m: int| 0 <= m < s.len() ==> s[m].0 != k,
{
    lemma_name_index_from(s, k, 0);
}

proof fn lemma_name_index_from<X>(s: Seq<(Seq<char>, X)>, k: Seq<char>, i: int)
    requires
        0 <= i,
    ensures
        name_index(s, k, i) matches Some(j) ==> i <= j < s.len() && s[j].0 == k && forall|m: int|
            i <= m < j ==> s[m].0 != k,
        name_index(s, k, i) is None ==> forall|m: int| i <= m < s.len() ==> s[m].0 != k,
    decreases s.len() - i,
{
    if i < s.len() && s[i].0 != k {
        lemma_name_index_from(s, k, i + 1);
    }
}

/// After a hook is added, the first hook of its name is the one added.
pub proof fn law_hook_added_found(s: Seq<RustStckFn>, h: RustStckFn)
    ensures
        hook_index(s, h.name@) matches Some(i) ==> hook_index(s.update(i, h), h.name@) == Some(i)
            && s.update(i, h)[i] == h,
        hook_index(s, h.name@) is None ==> hook_index(s.push(h), h.name@) == Some(s.len() as int)
            && s.push(h)[s.len() as int] == h,
{
    let k = h.name@;
    lemma_hook_index_from(s, k, 0);
    match hook_index(s, k) {
        Some(i) => {
            let t = s.update(i, h);
            lemma_hook_index_from(t, k, 0);
            assert forall|m: int| 0 <= m < i implies t[m].name@ != k by {
                assert(t[m] == s[m]);
            }
            assert(t[i].name@ == k);
        },
        None => {
            let t = s.push(h);
            lemma_hook_index_from(t, k, 0);
            assert forall|m: int| 0 <= m < s.len() implies t[m].name@ != k by {
                assert(t[m] == s[m]);
            }
            assert(t[s.len() as int].name@ == k);
        },
    }
}

/// Running code and then more code on the state it left, with the steps it
/// left, is running the two one after the other: a context can be reused.
/// Where the first part ends otherwise than normally (a return or break
/// that stops it, an error, or what is not described), so does the whole.
pub proof fn law_run_concat(a: Seq<ExprM>, b: Seq<ExprM>, s: RunS, fuel: int, stop: bool)
    ensures
        run_seq(a + b, s, fuel, stop) == (match run_seq(a, s, fuel, stop) {
            (OutM::Flow(ControlFlow::Continue, t), f1) => run_seq(b, t, f1, stop),
            r => r,
        }),
    decreases a.len(),
{
    if a.len() == 0 {
        assert(a + b =~= b);
    } else if fuel > 0 {
        let rest = a.subrange(1, a.len() as int);
        assert((a + b)[0] == a[0]);
        assert((a + b).subrange(1, (a + b).len() as int) =~= rest + b);
        let r = crate::semantics::expr_out(a[0], s, fuel - 1);
        let f1 = crate::semantics::clamp(r.1, fuel - 1);
        match crate::semantics::lift(r.0, a[0].span) {
            OutM::Flow(c, t) => {
                law_run_concat(rest, b, t, f1, stop);
            },
            _ => {},
        }
    } else {
        assert((a + b)[0] == a[0]);
    }
}

/// More steps do not change a run that finished within fewer: it ends the
/// same way, and the extra steps are left over.
pub proof fn law_more_steps(es: Seq<ExprM>, s: RunS, f: int, g: int, stop: bool)
    requires
        0 <= f <= g,
        !stuck(run_seq(es, s, f, stop).0),
    ensures
        run_seq(es, s, g, stop) == (run_seq(es, s, f, stop).0, run_seq(es, s, f, stop).1 + (g - f)),
{
    lemma_seq_fuel(es, s, f, g, stop);
}

/// A context can be reused: running code `a`, and then code `b` on the state
/// it left, each with the step limit `limit`, ends as one run of `a`
/// followed by `b` does, where that one run finishes within the limit.
pub proof fn law_context_reuse(a: Seq<ExprM>, b: Seq<ExprM>, s: RunS, limit: int)
    requires
        0 <= limit,
        run_seq(a, s, limit, true).0 matches OutM::Flow(c, _) && c is Continue,
        !stuck(run_seq(a + b, s, limit, true).0),
    ensures
        match run_seq(a, s, limit, true).0 {
            OutM::Flow(_, t) => run_seq(b, t, limit, true).0 == run_seq(a + b, s, limit, true).0,
            _ => true,
        },
{
    law_run_concat(a, b, s, limit, true);
    lemma_seq_fuel(a, s, limit, limit, true);
    let r = run_seq(a, s, limit, true);
    match r.0 {
        OutM::Flow(_, t) => {
            lemma_seq_fuel(b, t, r.1, limit, true);
        },
        _ => {},
    }
}

} // verus!

verus! {

/// Every type with no generic type in it matches itself, and `Any`
/// matches every type. (A generic type does not match itself: two
/// generic testers are never compatible.)
pub proof fn law_type_matches_self(t: crate::types::TypeV)
    requires
        !crate::trc::has_generic(t),
    ensures
        crate::types::type_matches(t, t),
        crate::types::type_matches(crate::types::TypeV::Any, t),
    decreases t, 0nat,
{
    match t {
        crate::types::TypeV::Array(b) => law_type_matches_self(*b),
        crate::types::TypeV::Mapping(b) => law_type_matches_self(*b),
        crate::types::TypeV::Option(b) => law_type_matches_self(*b),
        crate::types::TypeV::Result(a, b) => {
            law_type_matches_self(*a);
            law_type_matches_self(*b);
        },
        crate::types::TypeV::Closure(a, b) => {
            lemma_part_matches_self(a);
            lemma_part_matches_self(b);
        },
        _ => {},
    }
}

/// [`law_type_matches_self`] for the typed arguments of a closure type.
pub proof fn lemma_part_matches_self(p: crate::types::PartV)
    requires
        !crate::trc::part_has_generic(p),
    ensures
        crate::types::part_matches(p, p),
    decreases p, 1nat,
{
    match p {
        crate::types::PartV::Typed(ts) => lemma_list_matches_self(ts),
        crate::types::PartV::Any => {},
    }
}

/// [`law_type_matches_self`] for a list of types.
pub proof fn lemma_list_matches_self(ts: Seq<crate::types::TypeV>)
    requires
        !crate::trc::list_has_generic(ts),
    ensures
        crate::types::list_matches(ts, ts),
    decreases ts, 2nat,
{
    if ts.len() > 0 {
        lemma_list_matches_self(ts.drop_last());
        law_type_matches_self(ts.last());
    }
}

} // verus!

verus! {

/// A run with no host and no Rust hook is wholly described by the meaning:
/// it ends normally or with an error, and keeps having no host and no hook.
pub proof fn law_hostless_run_described(es: Seq<ExprM>, s: RunS, fuel: int)
    requires
        crate::semantics::closed(s),
        0 <= fuel,
    ensures
        crate::semantics::keeps(run_seq(es, s, fuel, true).0, s),
        !(run_seq(es, s, fuel, true).0 is Open),
{
    crate::semantics::lemma_seq_closed(es, s, fuel, true);
}

} // verus!

verus! {

/// A run hands the host its requests in order and takes none back: the
/// requests handed over before the run begin those after it.
pub proof fn law_requests_kept(es: Seq<ExprM>, s: RunS, fuel: int)
    requires
        0 <= fuel,
    ensures
        crate::semantics::grows(run_seq(es, s, fuel, true).0, s),
{
    crate::semantics::lemma_seq_grows(es, s, fuel, true);
}

} // verus!

verus! {

// ---------------------------------------------------------------------------
// Checking values against types

/// A type of one kind accepts exactly the values of that kind: `num` only
/// numbers, `str` only strings, `char` only characters, `bool` only
/// booleans, and `any` every value.
pub proof fn law_scalar_types_accept_their_kind(v: ValueV)
    ensures
        (crate::check::tt_check(crate::types::TypeV::Num, v) is None) == (v is Num),
        (crate::check::tt_check(crate::types::TypeV::Str, v) is None) == (v is Str),
        (crate::check::tt_check(crate::types::TypeV::Char, v) is None) == (v is Char),
        (crate::check::tt_check(crate::types::TypeV::Bool, v) is None) == (v is Bool),
        crate::check::tt_check(crate::types::TypeV::Any, v) is None,
{
}

/// `option<t>` accepts no value at all, and accepts some value `x` exactly
/// as `t` accepts `x`, refusing it with what `t` refuses; it refuses what
/// is no option.
pub proof fn law_option_checks_its_value(t: crate::types::TypeV, x: ValueV)
    ensures
        crate::check::tt_check(
            crate::types::TypeV::Option(Box::new(t)),
            ValueV::Option(Some(Box::new(x))),
        ) == crate::check::tt_check(t, x),
        crate::check::tt_check(crate::types::TypeV::Option(Box::new(t)), ValueV::Option(None)) is None,
        !(x is Option) ==> crate::check::tt_check(crate::types::TypeV::Option(Box::new(t)), x) is Some,
{
}

/// `result<t, e>` checks a success against `t` and an error against `e`.
pub proof fn law_result_checks_its_value(t: crate::types::TypeV, e: crate::types::TypeV, ok: bool, x: ValueV)
    ensures
        crate::check::tt_check(
            crate::types::TypeV::Result(Box::new(t), Box::new(e)),
            ValueV::Result(ok, Box::new(x)),
        ) == crate::check::tt_check(if ok { t } else { e }, x),
{
}

/// `array<t>` accepts an array exactly when `t` accepts each of its
/// values.
pub proof fn law_array_checks_each_value(t: crate::types::TypeV, vs: Seq<ValueV>)
    ensures
        (crate::check::tt_check(crate::types::TypeV::Array(Box::new(t)), ValueV::Array(vs)) is None) == (forall|i: int|
            0 <= i < vs.len() ==> #[trigger] crate::check::tt_check(t, vs[i]) is None),
{
    lemma_list_check_each(t, vs);
}

/// [`law_array_checks_each_value`] for the values of a list.
pub proof fn lemma_list_check_each(t: crate::types::TypeV, vs: Seq<ValueV>)
    ensures
        (crate::check::list_check(t, vs) is None) == (forall|i: int|
            0 <= i < vs.len() ==> #[trigger] crate::check::tt_check(t, vs[i]) is None),
    decreases vs.len(),
{
    if vs.len() > 0 {
        let rest = vs.subrange(1, vs.len() as int);
        lemma_list_check_each(t, rest);
        if crate::check::tt_check(t, vs[0]) is None {
            if crate::check::list_check(t, rest) is None {
                assert forall|i: int| 0 <= i < vs.len() implies #[trigger] crate::check::tt_check(t, vs[i]) is None by {
                    if i > 0 {
                        assert(rest[i - 1] == vs[i]);
                    }
                }
            } else {
                let j = choose|j: int| 0 <= j < rest.len() && !(#[trigger] crate::check::tt_check(t, rest[j]) is None);
                assert(rest[j] == vs[j + 1]);
                assert(!(crate::check::tt_check(t, vs[j + 1]) is None));
            }
        } else {
            assert(!(crate::check::tt_check(t, vs[0]) is None));
        }
    }
}

/// `map<t>` accepts a map exactly when `t` accepts the value of each of
/// its entries; `array<t>` and `map<t>` refuse what is no array or map.
pub proof fn law_map_checks_each_value(t: crate::types::TypeV, es: Seq<(Seq<char>, ValueV)>, v: ValueV)
    ensures
        (crate::check::tt_check(crate::types::TypeV::Mapping(Box::new(t)), ValueV::Mapping(es)) is None) == (forall|
            i: int,
        | 0 <= i < es.len() ==> #[trigger] crate::check::tt_check(t, es[i].1) is None),
        !(v is Array) ==> crate::check::tt_check(crate::types::TypeV::Array(Box::new(t)), v) is Some,
        !(v is Mapping) ==> crate::check::tt_check(crate::types::TypeV::Mapping(Box::new(t)), v) is Some,
{
    lemma_entries_check_each(t, es);
}

/// [`law_map_checks_each_value`] for the entries of a map.
pub proof fn lemma_entries_check_each(t: crate::types::TypeV, es: Seq<(Seq<char>, ValueV)>)
    ensures
        (crate::check::entries_check(t, es) is None) == (forall|i: int|
            0 <= i < es.len() ==> #[trigger] crate::check::tt_check(t, es[i].1) is None),
    decreases es.len(),
{
    if es.len() > 0 {
        let rest = es.subrange(1, es.len() as int);
        lemma_entries_check_each(t, rest);
        if crate::check::tt_check(t, es[0].1) is None {
            if crate::check::entries_check(t, rest) is None {
                assert forall|i: int| 0 <= i < es.len() implies #[trigger] crate::check::tt_check(t, es[i].1) is None by {
                    if i > 0 {
                        assert(rest[i - 1] == es[i]);
                    }
                }
            } else {
                let j = choose|j: int| 0 <= j < rest.len() && !(#[trigger] crate::check::tt_check(t, rest[j].1) is None);
                assert(rest[j] == es[j + 1]);
                assert(!(crate::check::tt_check(t, es[j + 1].1) is None));
            }
        } else {
            assert(!(crate::check::tt_check(t, es[0].1) is None));
        }
    }
}

// ---------------------------------------------------------------------------
// Comparing strings

/// A common prefix does not change how two strings compare.
pub proof fn lemma_gt_common_prefix(p: Seq<char>, a: Seq<char>, b: Seq<char>)
    ensures
        crate::builtins::seq_gt(p + a, p + b) == crate::builtins::seq_gt(a, b),
    decreases p.len(),
{
    if p.len() > 0 {
        let q = p.drop_first();
        assert((p + a).drop_first() =~= q + a);
        assert((p + b).drop_first() =~= q + b);
        lemma_gt_common_prefix(q, a, b);
    }
}

/// Strings compare by their first differing characters: `l > r` holds
/// exactly when, at the first place they differ, the character of `l` is
/// greater; a string is greater than each of its proper prefixes and not
/// greater than itself.
pub proof fn law_string_order(p: Seq<char>, x: char, y: char, a: Seq<char>, b: Seq<char>)
    requires
        x != y,
    ensures
        crate::builtins::seq_gt(p + seq![x] + a, p + seq![y] + b) == (x > y),
        crate::builtins::seq_gt(p + seq![x] + a, p),
        !crate::builtins::seq_gt(p, p + b),
        !crate::builtins::seq_gt(p, p),
{
    assert(p + seq![x] + a =~= p + (seq![x] + a));
    assert(p + seq![y] + b =~= p + (seq![y] + b));
    lemma_gt_common_prefix(p, seq![x] + a, seq![y] + b);
    assert((seq![x] + a)[0] == x);
    assert((seq![y] + b)[0] == y);
    assert(p =~= p + Seq::<char>::empty());
    lemma_gt_common_prefix(p, seq![x] + a, Seq::empty());
    lemma_gt_common_prefix(p, Seq::empty(), b);
    lemma_gt_common_prefix(p, Seq::empty(), Seq::empty());
}

/// `>` on two strings, the right one on top, leaves whether the left one
/// sorts after the right one: true exactly when, at the first place they
/// differ, the left one's character is greater.
pub proof fn law_greater_on_strings(
    st: Seq<ValueV>,
    vars: Seq<(Seq<char>, ValueV)>,
    p: Seq<char>,
    x: char,
    y: char,
    a: Seq<char>,
    b: Seq<char>,
)
    requires
        x != y,
    ensures
        crate::builtins::builtin_spec(
            crate::builtins::Builtin::Greater,
            st.push(ValueV::Str(p + seq![x] + a)).push(ValueV::Str(p + seq![y] + b)),
            vars,
        ) == crate::builtins::BOut::Done(st.push(ValueV::Bool(x > y)), vars),
{
    law_string_order(p, x, y, a, b);
    let s2 = st.push(ValueV::Str(p + seq![x] + a)).push(ValueV::Str(p + seq![y] + b));
    assert(s2.drop_last().drop_last() =~= st);
}

// ---------------------------------------------------------------------------
// Remainder

/// The remainder of `l` by `r != 0`, as `trunc_rem` gives it: smaller than
/// `r` in size, of the sign of `l`, and `l` less it is a multiple of `r`.
pub proof fn lemma_trunc_rem(l: int, r: int)
    requires
        r != 0,
    ensures
        crate::builtins::trunc_rem(l, r) < (if r > 0 { r } else { -r }),
        -crate::builtins::trunc_rem(l, r) < (if r > 0 { r } else { -r }),
        l >= 0 ==> crate::builtins::trunc_rem(l, r) >= 0,
        l <= 0 ==> crate::builtins::trunc_rem(l, r) <= 0,
        (l - crate::builtins::trunc_rem(l, r)) % (if r > 0 { r } else { -r }) == 0,
{
    let m = if r > 0 { r } else { -r };
    let n = if l >= 0 { l } else { -l };
    vstd::arithmetic::div_mod::lemma_fundamental_div_mod(n, m);
    vstd::arithmetic::div_mod::lemma_mod_pos_bound(n, m);
    let q = n / m;
    let k: int = if (l >= 0) == (r > 0) { q } else { -q };
    assert(l - crate::builtins::trunc_rem(l, r) == r * k) by (nonlinear_arith)
        requires
            n == m * q + n % m,
            m == (if r > 0 { r } else { -r }),
            n == (if l >= 0 { l } else { -l }),
            k == (if (l >= 0) == (r > 0) { q } else { -q }),
            crate::builtins::trunc_rem(l, r) == (if l >= 0 { n % m } else { -(n % m) }),
    ;
    let k2: int = if r > 0 { k } else { -k };
    assert(r * k == k2 * m) by (nonlinear_arith)
        requires
            m == (if r > 0 { r } else { -r }),
            k2 == (if r > 0 { k } else { -k }),
    ;
    vstd::arithmetic::div_mod::lemma_mod_multiples_basic(k2, m);
}

/// Whether `m` is a remainder of `l` by `r` as truncating division leaves
/// it: smaller than `r` in size, of the sign of `l` (or zero), and `l`
/// less `m` a multiple of `r`.
pub open spec fn is_trunc_remainder(m: int, l: int, r: int) -> bool {
    &&& m < (if r > 0 { r } else { -r })
    &&& -m < (if r > 0 { r } else { -r })
    &&& l >= 0 ==> m >= 0
    &&& l <= 0 ==> m <= 0
    &&& (l - m) % (if r > 0 { r } else { -r }) == 0
}

/// `%` on two numbers, the right one on top, leaves the truncating
/// remainder of the left one by the right one (see
/// [`is_trunc_remainder`]) in their place; by zero it fails.
pub proof fn law_remainder(st: Seq<ValueV>, vars: Seq<(Seq<char>, ValueV)>, l: isize, r: isize)
    ensures
        r == 0 ==> crate::builtins::builtin_spec(
            crate::builtins::Builtin::Rem,
            st.push(ValueV::Num(l)).push(ValueV::Num(r)),
            vars,
        ) == crate::builtins::BOut::Fails(st, crate::builtins::ErrClass::Arithmetic),
        r != 0 && !(l == isize::MIN && r == -1) ==> exists|m: isize|
            #[trigger] is_trunc_remainder(m as int, l as int, r as int) && crate::builtins::builtin_spec(
                crate::builtins::Builtin::Rem,
                st.push(ValueV::Num(l)).push(ValueV::Num(r)),
                vars,
            ) == crate::builtins::BOut::Done(st.push(ValueV::Num(m)), vars),
{
    let s2 = st.push(ValueV::Num(l)).push(ValueV::Num(r));
    assert(s2.drop_last().drop_last() =~= st);
    if r != 0 {
        lemma_trunc_rem(l as int, r as int);
        let m = crate::builtins::trunc_rem(l as int, r as int);
        assert(isize::MIN <= m <= isize::MAX);
        assert(is_trunc_remainder((m as isize) as int, l as int, r as int));
    }
}

} // verus!

verus! {

// ---------------------------------------------------------------------------
// Character literals

/// A character token read where an expression may start becomes one
/// expression that pushes that very character, whatever follows.
pub proof fn law_char_token_parses_to_char(
    c: char,
    span: LineRange,
    ts: Seq<Token>,
    src: Seq<char>,
    acc: Seq<ExprM>,
    start: usize,
    restart: bool,
)
    ensures
        parse_from(seq![Token { cont: TokenCont::Char(c), span }] + ts, src, StM::Nothing, acc, start, restart)
            == parse_from(
            ts,
            src,
            StM::Nothing,
            acc.push(
                ExprM {
                    span: LineRange { start: if restart { span.start } else { start }, end: span.end },
                    cont: crate::parse::ContM::Imm(ValueV::Char(c)),
                },
            ),
            if restart { span.start } else { start },
            true,
        ),
{
    let all = seq![Token { cont: TokenCont::Char(c), span }] + ts;
    assert(all[0] == Token { cont: TokenCont::Char(c), span });
    assert(all.subrange(1, all.len() as int) =~= ts);
}

/// The program made of one character literal parses to one expression,
/// which pushes that character; running it leaves the character on the
/// stack.
pub proof fn law_char_program(c: char, span: LineRange, end: LineRange, src: Seq<char>, s: RunS, fuel: int)
    requires
        fuel >= 1,
    ensures
        parse_tokens(
            seq![Token { cont: TokenCont::Char(c), span }, Token { cont: TokenCont::EndOfBlock, span: end }],
            src,
        ) == Ok::<Seq<ExprM>, ParseErrM>(
            seq![ExprM { span: LineRange { start: span.start, end: span.end }, cont: crate::parse::ContM::Imm(ValueV::Char(c)) }],
        ),
        run_seq(
            seq![ExprM { span, cont: crate::parse::ContM::Imm(ValueV::Char(c)) }],
            s,
            fuel,
            true,
        ).0 == OutM::Flow(ControlFlow::Continue, crate::semantics::with_stack(s, s.stack.push(ValueV::Char(c)))),
{
    let e = Token { cont: TokenCont::EndOfBlock, span: end };
    let ts = seq![e];
    law_char_token_parses_to_char(c, span, ts, src, Seq::empty(), 0, true);
    assert(seq![Token { cont: TokenCont::Char(c), span }] + ts =~= seq![Token { cont: TokenCont::Char(c), span }, e]);
    assert(ts[0] == e);
    assert(ts.subrange(1, 1) =~= Seq::<Token>::empty());
    let x = ExprM { span: LineRange { start: span.start, end: span.end }, cont: crate::parse::ContM::Imm(ValueV::Char(c)) };
    let acc1 = Seq::<ExprM>::empty().push(x);
    assert(parse_from(ts, src, StM::Nothing, acc1, span.start, true) == parse_from(
        Seq::<Token>::empty(),
        src,
        StM::Nothing,
        acc1,
        end.start,
        false,
    ));
    assert(acc1 =~= seq![x]);
    let es = seq![ExprM { span, cont: crate::parse::ContM::Imm(ValueV::Char(c)) }];
    assert(es.subrange(1, 1) =~= Seq::<ExprM>::empty());
    let t = crate::semantics::with_stack(s, s.stack.push(ValueV::Char(c)));
    assert(crate::semantics::expr_out(es[0], s, fuel - 1) == (OutM::Flow(ControlFlow::Continue, t), fuel - 1));
    assert(run_seq(es.subrange(1, 1), t, fuel - 1, true) == (OutM::Flow(ControlFlow::Continue, t), fuel - 1));
}

} // verus!

verus! {

// ---------------------------------------------------------------------------
// String literals

/// The tokenizer after it reads `k` more characters.
pub open spec fn read_on(c: crate::token::Context, k: nat) -> crate::token::Context
    decreases k,
{
    if k == 0 {
        c
    } else {
        read_on(crate::token::next_ctx(c), (k - 1) as nat)
    }
}

/// Reading on keeps the text and moves the position by as many characters.
pub proof fn lemma_read_on(c: crate::token::Context, k: nat)
    requires
        c.point + k <= usize::MAX,
    ensures
        read_on(c, k).chars == c.chars,
        read_on(c, k).point == c.point + k,
    decreases k,
{
    if k > 0 {
        lemma_read_on(crate::token::next_ctx(c), (k - 1) as nat);
    }
}

/// Reading one character is one step of the tokenizer.
pub proof fn lemma_read_one(c: crate::token::Context)
    ensures
        read_on(c, 1) == crate::token::next_ctx(c),
{
    assert(read_on(crate::token::next_ctx(c), 0) == crate::token::next_ctx(c));
}

/// Reading `a` and then `b` characters is reading `a + b`.
pub proof fn lemma_read_on_add(c: crate::token::Context, a: nat, b: nat)
    ensures
        read_on(read_on(c, a), b) == read_on(c, a + b),
    decreases a,
{
    if a > 0 {
        lemma_read_on_add(crate::token::next_ctx(c), (a - 1) as nat, b);
        assert((a - 1) as nat + b == (a + b - 1) as nat);
    }
}

/// Whether characters can stand in a string literal as they are: no quote
/// and no backslash.
pub open spec fn plain_text(p: Seq<char>) -> bool {
    forall|i: int| 0 <= i < p.len() ==> #[trigger] p[i] != '"' && p[i] != '\\'
}

/// Inside a string literal, plain characters are taken as they are.
pub proof fn lemma_plain_in_string(
    c: crate::token::Context,
    p: Seq<char>,
    b: Seq<char>,
    ls: usize,
    acc: Seq<crate::token::TokenM>,
)
    requires
        plain_text(p),
        c.point + p.len() <= c.chars@.len(),
        c.chars@.subrange(c.point as int, c.point + p.len()) == p,
    ensures
        crate::token::tok_from(c, crate::token::TSt::Str(b, ls), acc) == crate::token::tok_from(
            read_on(c, p.len()),
            crate::token::TSt::Str(b + p, ls),
            acc,
        ),
    decreases p.len(),
{
    if p.len() == 0 {
        assert(b + p =~= b);
    } else {
        let c1 = crate::token::next_ctx(c);
        assert(c.chars@[c.point as int] == c.chars@.subrange(c.point as int, c.point + p.len())[0]);
        assert(c.chars@[c.point as int] == p[0]);
        assert(p[0] != '"' && p[0] != '\\');
        let q = p.drop_first();
        assert forall|i: int| 0 <= i < q.len() implies #[trigger] q[i] != '"' && q[i] != '\\' by {
            assert(q[i] == p[i + 1]);
        }
        assert(c1.chars@.subrange(c1.point as int, c1.point + q.len()) =~= q);
        lemma_plain_in_string(c1, q, b.push(p[0]), ls, acc);
        assert(b.push(p[0]) + q =~= b + p);
    }
}

/// A string literal is one string token holding its text, where the escape
/// `\n` stands for a new line character: reading `"p\nq"` (with `p` and `q`
/// plain) gives the token `Str(p + [new line] + q)`, spanning from the line
/// the literal starts on, and the tokenizer goes on after the closing
/// quote.
pub proof fn law_string_literal_newline_escape(
    c: crate::token::Context,
    p: Seq<char>,
    q: Seq<char>,
    acc: Seq<crate::token::TokenM>,
)
    requires
        plain_text(p),
        plain_text(q),
        c.point + p.len() + q.len() + 4 <= c.chars@.len(),
        c.chars@.subrange(c.point as int, c.point + p.len() + q.len() + 4) == seq!['"'] + p + seq!['\\', 'n'] + q
            + seq!['"'],
    ensures
        crate::token::tok_from(c, crate::token::TSt::Nothing, acc) == crate::token::tok_from(
            read_on(c, p.len() + q.len() + 4),
            crate::token::TSt::Nothing,
            acc.push(
                crate::token::tok_from_line(
                    crate::token::next_ctx(c).current_line,
                    read_on(c, p.len() + q.len() + 4),
                    crate::token::TokM::Str(p + seq!['\n'] + q),
                ),
            ),
        ),
{
    let n = p.len() + q.len() + 4;
    let lit = seq!['"'] + p + seq!['\\', 'n'] + q + seq!['"'];
    let text = c.chars@;
    let base = c.point as int;
    let pl = p.len() as int;
    let ql = q.len() as int;
    assert(c.chars@.len() <= usize::MAX);
    assert(text[base] == lit[0]);
    assert(lit[0] == '"');
    let c1 = crate::token::next_ctx(c);
    let ls = c1.current_line;
    assert(!crate::token::is_start_ident('"'));
    assert(!crate::token::is_digit('"'));
    assert(!crate::token::is_space('"'));
    assert(crate::token::tok_from(c, crate::token::TSt::Nothing, acc) == crate::token::tok_from(
        c1,
        crate::token::TSt::Str(Seq::empty(), ls),
        acc,
    ));
    // the plain text before the escape
    assert(c1.chars@.subrange(c1.point as int, c1.point + p.len()) =~= p) by {
        assert forall|i: int| 0 <= i < p.len() implies c1.chars@.subrange(c1.point as int, c1.point + p.len())[i]
            == p[i] by {
            assert(text[base + 1 + i] == lit[1 + i]);
            assert(lit[1 + i] == p[i]);
        }
    }
    lemma_plain_in_string(c1, p, Seq::empty(), ls, acc);
    assert(Seq::<char>::empty() + p =~= p);
    let c2 = read_on(c1, p.len());
    lemma_read_on(c1, p.len());
    // the escape
    assert(text[base + 1 + pl] == lit[1 + pl]);
    assert(lit[1 + pl] == '\\');
    let c3 = crate::token::next_ctx(c2);
    assert(text[base + 2 + pl] == lit[2 + pl]);
    assert(lit[2 + pl] == 'n');
    let c4 = crate::token::next_ctx(c3);
    assert(crate::token::tok_from(c2, crate::token::TSt::Str(p, ls), acc) == crate::token::tok_from(
        c3,
        crate::token::TSt::StrEsc(p, ls),
        acc,
    ));
    assert(crate::token::tok_from(c3, crate::token::TSt::StrEsc(p, ls), acc) == crate::token::tok_from(
        c4,
        crate::token::TSt::Str(p.push('\n'), ls),
        acc,
    ));
    // the plain text after the escape
    assert(c4.chars@.subrange(c4.point as int, c4.point + q.len()) =~= q) by {
        assert forall|i: int| 0 <= i < q.len() implies c4.chars@.subrange(c4.point as int, c4.point + q.len())[i]
            == q[i] by {
            assert(text[base + 3 + pl + i] == lit[3 + pl + i]);
            assert(lit[3 + pl + i] == q[i]);
        }
    }
    lemma_plain_in_string(c4, q, p.push('\n'), ls, acc);
    let c5 = read_on(c4, q.len());
    lemma_read_on(c4, q.len());
    // the closing quote
    assert(text[base + 3 + pl + ql] == lit[3 + pl + ql]);
    assert(lit[3 + pl + ql] == '"');
    let c6 = crate::token::next_ctx(c5);
    assert(p.push('\n') + q =~= p + seq!['\n'] + q);
    // where the reader is
    lemma_read_one(c);
    lemma_read_on_add(c, 1, p.len());
    lemma_read_one(c2);
    lemma_read_on_add(c, 1 + p.len(), 1);
    lemma_read_one(c3);
    lemma_read_on_add(c, 2 + p.len(), 1);
    lemma_read_on_add(c, 3 + p.len(), q.len());
    lemma_read_one(c5);
    lemma_read_on_add(c, 3 + p.len() + q.len(), 1);
    assert((3 + p.len() + q.len() + 1) as nat == n);
}

} // verus!

verus! {

// ---------------------------------------------------------------------------
// Arithmetic and comparison builtins

/// `-` and `*` on two numbers, the right one on top, leave the left one
/// less the right one, and their product, where it fits in a number; else
/// they fail.
pub proof fn law_sub_and_mul(st: Seq<ValueV>, vars: Seq<(Seq<char>, ValueV)>, l: isize, r: isize)
    ensures
        isize::MIN <= l - r <= isize::MAX ==> exists|m: isize|
            m + r == l && #[trigger] crate::builtins::builtin_spec(
                crate::builtins::Builtin::Sub,
                st.push(ValueV::Num(l)).push(ValueV::Num(r)),
                vars,
            ) == crate::builtins::BOut::Done(st.push(ValueV::Num(m)), vars),
        !(isize::MIN <= l - r <= isize::MAX) ==> crate::builtins::builtin_spec(
            crate::builtins::Builtin::Sub,
            st.push(ValueV::Num(l)).push(ValueV::Num(r)),
            vars,
        ) == crate::builtins::BOut::Fails(st, crate::builtins::ErrClass::Arithmetic),
        isize::MIN <= l * r <= isize::MAX ==> crate::builtins::builtin_spec(
            crate::builtins::Builtin::Mul,
            st.push(ValueV::Num(l)).push(ValueV::Num(r)),
            vars,
        ) == crate::builtins::BOut::Done(st.push(ValueV::Num((l * r) as isize)), vars),
{
    let s2 = st.push(ValueV::Num(l)).push(ValueV::Num(r));
    assert(s2.drop_last().drop_last() =~= st);
    if isize::MIN <= l - r <= isize::MAX {
        let m = (l - r) as isize;
        assert(m + r == l);
    }
}

/// `>`, `=` and `≃` on two values, the right one on top: numbers compare by
/// value, `true` is greater than `false`, `=` and `≃` tell equal values of
/// the same kind; `≃` finds values of different kinds unequal, where
/// neither is an array or a map, while `=` refuses them.
pub proof fn law_comparisons(st: Seq<ValueV>, vars: Seq<(Seq<char>, ValueV)>, l: ValueV, r: ValueV)
    ensures
        ({
            let s2 = st.push(l).push(r);
            &&& (l is Num && r is Num) ==> crate::builtins::builtin_spec(crate::builtins::Builtin::Greater, s2, vars)
                == crate::builtins::BOut::Done(st.push(ValueV::Bool(l->Num_0 > r->Num_0)), vars)
            &&& (l is Bool && r is Bool) ==> crate::builtins::builtin_spec(crate::builtins::Builtin::Greater, s2, vars)
                == crate::builtins::BOut::Done(st.push(ValueV::Bool(l->Bool_0 && !r->Bool_0)), vars)
            &&& ((l is Num && r is Num) || (l is Str && r is Str) || (l is Char && r is Char) || (l is Bool && r is Bool))
                ==> crate::builtins::builtin_spec(crate::builtins::Builtin::StrictEq, s2, vars)
                == crate::builtins::BOut::Done(st.push(ValueV::Bool(l == r)), vars)
                && crate::builtins::builtin_spec(crate::builtins::Builtin::LooseEq, s2, vars)
                == crate::builtins::BOut::Done(st.push(ValueV::Bool(l == r)), vars)
            &&& (l is Num && !(r is Num)) ==> crate::builtins::builtin_spec(crate::builtins::Builtin::StrictEq, s2, vars)
                == crate::builtins::BOut::Fails(st, crate::builtins::ErrClass::Compare)
            &&& (l is Num && (r is Str || r is Char || r is Bool)) ==> crate::builtins::builtin_spec(
                crate::builtins::Builtin::LooseEq,
                s2,
                vars,
            ) == crate::builtins::BOut::Done(st.push(ValueV::Bool(false)), vars)
        }),
{
    let s2 = st.push(l).push(r);
    assert(s2.drop_last().drop_last() =~= st);
}

// ---------------------------------------------------------------------------
// Literals in the parser

/// A string, number or name token read where an expression may start
/// becomes one expression: pushing that string, pushing that number, or
/// calling that name.
pub proof fn law_literal_tokens_parse(
    t: Token,
    ts: Seq<Token>,
    src: Seq<char>,
    acc: Seq<ExprM>,
    start: usize,
    restart: bool,
)
    ensures
        ({
            let s0 = if restart { t.span.start } else { start };
            let sp = LineRange { start: s0, end: t.span.end };
            let go = |m: crate::parse::ContM| parse_from(ts, src, StM::Nothing, acc.push(ExprM { span: sp, cont: m }), s0, true);
            &&& t.cont matches TokenCont::Str(x) ==> parse_from(seq![t] + ts, src, StM::Nothing, acc, start, restart)
                == go(crate::parse::ContM::Imm(ValueV::Str(x@)))
            &&& t.cont matches TokenCont::Number(n) ==> parse_from(seq![t] + ts, src, StM::Nothing, acc, start, restart)
                == go(crate::parse::ContM::Imm(ValueV::Num(n)))
            &&& t.cont matches TokenCont::Ident(n) ==> parse_from(seq![t] + ts, src, StM::Nothing, acc, start, restart)
                == go(crate::parse::ContM::Call(n@))
        }),
{
    let all = seq![t] + ts;
    assert(all[0] == t);
    assert(all.subrange(1, all.len() as int) =~= ts);
}

// ---------------------------------------------------------------------------
// Escapes and character literals in the tokenizer

/// Inside a string literal, `\n` adds a new line character and `\\` a
/// backslash, and a quote ends the literal with one string token holding
/// the text read, spanning from the line it started on.
pub proof fn law_string_escapes(
    c: crate::token::Context,
    b: Seq<char>,
    ls: usize,
    acc: Seq<crate::token::TokenM>,
)
    requires
        c.point + 2 <= c.chars@.len(),
    ensures
        c.chars@[c.point as int] == '\\' && c.chars@[c.point + 1] == 'n' ==> crate::token::tok_from(
            c,
            crate::token::TSt::Str(b, ls),
            acc,
        ) == crate::token::tok_from(read_on(c, 2), crate::token::TSt::Str(b.push('\n'), ls), acc),
        c.chars@[c.point as int] == '\\' && c.chars@[c.point + 1] == '\\' ==> crate::token::tok_from(
            c,
            crate::token::TSt::Str(b, ls),
            acc,
        ) == crate::token::tok_from(read_on(c, 2), crate::token::TSt::Str(b.push('\\'), ls), acc),
        c.chars@[c.point as int] == '"' ==> crate::token::tok_from(c, crate::token::TSt::Str(b, ls), acc)
            == crate::token::tok_from(
            read_on(c, 1),
            crate::token::TSt::Nothing,
            acc.push(crate::token::tok_from_line(ls, read_on(c, 1), crate::token::TokM::Str(b))),
        ),
{
    assert(c.chars@.len() <= usize::MAX);
    let c1 = crate::token::next_ctx(c);
    let c2 = crate::token::next_ctx(c1);
    lemma_read_one(c);
    lemma_read_one(c1);
    lemma_read_on_add(c, 1, 1);
    if c.chars@[c.point as int] == '\\' {
        assert(crate::token::tok_from(c, crate::token::TSt::Str(b, ls), acc) == crate::token::tok_from(
            c1,
            crate::token::TSt::StrEsc(b, ls),
            acc,
        ));
        assert(c1.chars@[c1.point as int] == c.chars@[c.point + 1]);
        if c.chars@[c.point + 1] == 'n' {
            assert(crate::token::tok_from(c1, crate::token::TSt::StrEsc(b, ls), acc) == crate::token::tok_from(
                c2,
                crate::token::TSt::Str(b.push('\n'), ls),
                acc,
            ));
        }
        if c.chars@[c.point + 1] == '\\' {
            assert(crate::token::tok_from(c1, crate::token::TSt::StrEsc(b, ls), acc) == crate::token::tok_from(
                c2,
                crate::token::TSt::Str(b.push('\\'), ls),
                acc,
            ));
        }
    }
}

/// A character literal `'x'` (with `x` no backslash) is one character token
/// holding `x`; `'\n'` is one holding the new line character; the
/// tokenizer goes on after the closing quote.
pub proof fn law_char_literals(c: crate::token::Context, x: char, acc: Seq<crate::token::TokenM>)
    requires
        c.point + 4 <= c.chars@.len(),
        c.chars@[c.point as int] == '\'',
    ensures
        x != '\\' && c.chars@[c.point + 1] == x && c.chars@[c.point + 2] == '\'' ==> crate::token::tok_from(
            c,
            crate::token::TSt::Nothing,
            acc,
        ) == crate::token::tok_from(
            read_on(c, 3),
            crate::token::TSt::Nothing,
            acc.push(crate::token::tok_here(read_on(c, 3), crate::token::TokM::Char(x))),
        ),
        c.chars@[c.point + 1] == '\\' && c.chars@[c.point + 2] == 'n' && c.chars@[c.point + 3] == '\''
            ==> crate::token::tok_from(c, crate::token::TSt::Nothing, acc) == crate::token::tok_from(
            read_on(c, 4),
            crate::token::TSt::Nothing,
            acc.push(crate::token::tok_here(read_on(c, 4), crate::token::TokM::Char('\n'))),
        ),
{
    let c1 = crate::token::next_ctx(c);
    let c2 = crate::token::next_ctx(c1);
    let c3 = crate::token::next_ctx(c2);
    let c4 = crate::token::next_ctx(c3);
    lemma_read_one(c);
    lemma_read_one(c1);
    lemma_read_one(c2);
    lemma_read_one(c3);
    lemma_read_on_add(c, 1, 1);
    lemma_read_on_add(c, 2, 1);
    lemma_read_on_add(c, 3, 1);
    assert(c.chars@.len() <= usize::MAX);
    assert(!crate::token::is_start_ident('\''));
    assert(!crate::token::is_digit('\''));
    assert(!crate::token::is_space('\''));
    assert(crate::token::tok_from(c, crate::token::TSt::Nothing, acc) == crate::token::tok_from(
        c1,
        crate::token::TSt::Char,
        acc,
    ));
    assert(c1.chars@[c1.point as int] == c.chars@[c.point + 1]);
    assert(c2.chars@[c2.point as int] == c.chars@[c.point + 2]);
    assert(c3.chars@[c3.point as int] == c.chars@[c.point + 3]);
    let y = c.chars@[c.point + 1];
    assert(c1.chars == c.chars);
    assert(c1.point == c.point + 1);
    assert(c1.point < c1.chars@.len());
    assert(crate::token::next_ctx(c1) == c2);
    crate::token::lemma_char_state_step(c1, acc, c.chars@[c.point + 1]);
    assert(crate::token::tok_from(c1, crate::token::TSt::Char, acc) == crate::token::tok_from(
        c2,
        crate::token::TSt::CharEnd(y),
        acc,
    ));
    if y == '\\' && c.chars@[c.point + 2] == 'n' {
        assert(crate::token::tok_from(c2, crate::token::TSt::CharEnd(y), acc) == crate::token::tok_from(
            c3,
            crate::token::TSt::CharEndEsc('\n'),
            acc,
        ));
    }
}

} // verus!

verus! {

// ---------------------------------------------------------------------------
// Names in the tokenizer

/// Whether a word is a name: it starts as names start and goes on as names
/// go on.
pub open spec fn name_word(w: Seq<char>) -> bool {
    &&& w.len() > 0
    &&& crate::token::is_start_ident(w[0])
    &&& forall|i: int| 0 < i < w.len() ==> #[trigger] crate::token::is_ident(w[i])
}

/// Inside a name, the characters names go on with are taken as they are.
pub proof fn lemma_name_goes_on(
    c: crate::token::Context,
    p: Seq<char>,
    b: Seq<char>,
    acc: Seq<crate::token::TokenM>,
)
    requires
        forall|i: int| 0 <= i < p.len() ==> #[trigger] crate::token::is_ident(p[i]),
        c.point + p.len() <= c.chars@.len(),
        c.chars@.subrange(c.point as int, c.point + p.len()) == p,
    ensures
        crate::token::tok_from(c, crate::token::TSt::Ident(b), acc) == crate::token::tok_from(
            read_on(c, p.len()),
            crate::token::TSt::Ident(b + p),
            acc,
        ),
    decreases p.len(),
{
    if p.len() == 0 {
        assert(b + p =~= b);
    } else {
        let c1 = crate::token::next_ctx(c);
        assert(c.chars@[c.point as int] == c.chars@.subrange(c.point as int, c.point + p.len())[0]);
        assert(crate::token::is_ident(p[0]));
        let q = p.drop_first();
        assert forall|i: int| 0 <= i < q.len() implies #[trigger] crate::token::is_ident(q[i]) by {
            assert(q[i] == p[i + 1]);
        }
        assert(c1.chars@.subrange(c1.point as int, c1.point + q.len()) =~= q);
        lemma_name_goes_on(c1, q, b.push(p[0]), acc);
        assert(b.push(p[0]) + q =~= b + p);
    }
}

/// A name followed by a space is one name token holding that very word,
/// and the tokenizer goes on after the space.
pub proof fn law_name_token(c: crate::token::Context, w: Seq<char>, sp: char, acc: Seq<crate::token::TokenM>)
    requires
        name_word(w),
        crate::token::is_space(sp),
        c.point + w.len() + 1 <= c.chars@.len(),
        c.chars@.subrange(c.point as int, c.point + w.len() + 1) == w.push(sp),
    ensures
        crate::token::tok_from(c, crate::token::TSt::Nothing, acc) == crate::token::tok_from(
            read_on(c, w.len() + 1),
            crate::token::TSt::Nothing,
            acc.push(crate::token::tok_here(read_on(c, w.len() + 1), crate::token::TokM::Ident(w))),
        ),
{
    assert(c.chars@.len() <= usize::MAX);
    let text = c.chars@;
    let base = c.point as int;
    let wl = w.len() as int;
    assert(text[base] == w.push(sp)[0]);
    let x = w[0];
    assert(text[base] == x);
    let c1 = crate::token::next_ctx(c);
    assert(x != '{' && x != '\'' && x != '-' && x != '}');
    assert(crate::token::tok_from(c, crate::token::TSt::Nothing, acc) == crate::token::tok_from(
        c1,
        crate::token::TSt::Ident(seq![x]),
        acc,
    ));
    let p = w.drop_first();
    assert forall|i: int| 0 <= i < p.len() implies #[trigger] crate::token::is_ident(p[i]) by {
        assert(p[i] == w[i + 1]);
    }
    assert(c1.chars@.subrange(c1.point as int, c1.point + p.len()) =~= p) by {
        assert forall|i: int| 0 <= i < p.len() implies c1.chars@.subrange(c1.point as int, c1.point + p.len())[i]
            == p[i] by {
            assert(text[base + 1 + i] == w.push(sp)[1 + i]);
        }
    }
    lemma_name_goes_on(c1, p, seq![x], acc);
    assert(seq![x] + p =~= w);
    let c2 = read_on(c1, p.len());
    lemma_read_on(c1, p.len());
    assert(text[base + wl] == w.push(sp)[wl]);
    assert(!crate::token::is_ident(sp));
    let c3 = crate::token::next_ctx(c2);
    assert(crate::token::tok_from(c2, crate::token::TSt::Ident(w), acc) == crate::token::tok_from(
        c3,
        crate::token::TSt::Nothing,
        acc.push(crate::token::tok_here(c3, crate::token::TokM::Ident(w))),
    ));
    lemma_read_one(c);
    lemma_read_on_add(c, 1, p.len());
    lemma_read_one(c2);
    lemma_read_on_add(c, 1 + p.len(), 1);
    assert((1 + p.len() + 1) as nat == w.len() + 1);
}

} // verus!

verus! {

// ---------------------------------------------------------------------------
// Numbers in the tokenizer

/// Whether every character is a decimal digit.
pub open spec fn digit_word(w: Seq<char>) -> bool {
    forall|i: int| 0 <= i < w.len() ==> #[trigger] crate::token::is_digit(w[i])
}

/// The value of digits is not negative, and at least one where the first
/// digit is not zero.
pub proof fn lemma_digits_value_pos(w: Seq<char>)
    requires
        digit_word(w),
    ensures
        crate::text::digits_value(w) >= 0,
        w.len() > 0 && w[0] != '0' ==> crate::text::digits_value(w) >= 1,
    decreases w.len(),
{
    if w.len() > 0 {
        let v = w.drop_last();
        assert forall|i: int| 0 <= i < v.len() implies #[trigger] crate::token::is_digit(v[i]) by {
            assert(v[i] == w[i]);
        }
        lemma_digits_value_pos(v);
        assert(crate::token::is_digit(w.last()));
        if v.len() > 0 {
            assert(v[0] == w[0]);
        }
    }
}

/// Digits with no leading zero are the decimal text of their value: the
/// value of a number read is the number written the same way.
pub proof fn lemma_digits_decimal(w: Seq<char>)
    requires
        digit_word(w),
        w.len() > 0,
        w[0] != '0' || w.len() == 1,
    ensures
        crate::text::decimal_nat(crate::text::digits_value(w) as nat) == w,
    decreases w.len(),
{
    let v = w.drop_last();
    let d = w.last();
    assert(crate::token::is_digit(d));
    let dd = d as int - '0' as int;
    assert(0 <= dd < 10);
    assert forall|i: int| 0 <= i < v.len() implies #[trigger] crate::token::is_digit(v[i]) by {
        assert(v[i] == w[i]);
    }
    lemma_digits_value_pos(v);
    if v.len() == 0 {
        assert(crate::text::digits_value(v) == 0);
        assert(crate::text::digits_value(w) == dd);
        assert((('0' as int) + dd) as char == d);
        assert(crate::text::decimal_nat(dd as nat) =~= w);
    } else {
        assert(v[0] == w[0]);
        lemma_digits_decimal(v);
        let a = crate::text::digits_value(v);
        assert(a >= 1);
        let n = crate::text::digits_value(w);
        assert(n == a * 10 + dd);
        assert(n >= 10);
        assert(n / 10 == a && n % 10 == dd) by (nonlinear_arith)
            requires
                n == a * 10 + dd,
                0 <= dd < 10,
                a >= 1,
        ;
        assert((('0' as int) + dd) as char == d);
        assert(crate::text::decimal_nat(n as nat) == crate::text::decimal_nat((n / 10) as nat).push(
            (('0' as int) + n % 10) as char,
        ));
        assert(v.push(d) =~= w);
    }
}

/// Inside a number, digits are taken as they are.
pub proof fn lemma_number_goes_on(
    c: crate::token::Context,
    p: Seq<char>,
    b: Seq<char>,
    acc: Seq<crate::token::TokenM>,
)
    requires
        digit_word(p),
        c.point + p.len() <= c.chars@.len(),
        c.chars@.subrange(c.point as int, c.point + p.len()) == p,
    ensures
        crate::token::tok_from(c, crate::token::TSt::Number(b), acc) == crate::token::tok_from(
            read_on(c, p.len()),
            crate::token::TSt::Number(b + p),
            acc,
        ),
    decreases p.len(),
{
    if p.len() == 0 {
        assert(b + p =~= b);
    } else {
        let c1 = crate::token::next_ctx(c);
        assert(c.chars@[c.point as int] == c.chars@.subrange(c.point as int, c.point + p.len())[0]);
        assert(crate::token::is_digit(p[0]));
        let q = p.drop_first();
        assert forall|i: int| 0 <= i < q.len() implies #[trigger] crate::token::is_digit(q[i]) by {
            assert(q[i] == p[i + 1]);
        }
        assert(c1.chars@.subrange(c1.point as int, c1.point + q.len()) =~= q);
        lemma_number_goes_on(c1, q, b.push(p[0]), acc);
        assert(b.push(p[0]) + q =~= b + p);
    }
}

/// Digits followed by a space are one number token, whose value is not
/// negative and, where there is no leading zero, is written with those
/// very digits (the value read prints back as the text read); the
/// tokenizer goes on after the space.
pub proof fn law_number_token(c: crate::token::Context, w: Seq<char>, sp: char, acc: Seq<crate::token::TokenM>)
    requires
        w.len() > 0,
        digit_word(w),
        crate::text::digits_value(w) <= isize::MAX,
        crate::token::is_space(sp),
        c.point + w.len() + 1 <= c.chars@.len(),
        c.chars@.subrange(c.point as int, c.point + w.len() + 1) == w.push(sp),
    ensures
        crate::text::digits_value(w) >= 0,
        w[0] != '0' || w.len() == 1 ==> crate::text::decimal(crate::text::digits_value(w)) == w,
        crate::token::tok_from(c, crate::token::TSt::Nothing, acc) == crate::token::tok_from(
            read_on(c, w.len() + 1),
            crate::token::TSt::Nothing,
            acc.push(
                crate::token::tok_here(
                    read_on(c, w.len() + 1),
                    crate::token::TokM::Number(crate::text::digits_value(w) as isize),
                ),
            ),
        ),
{
    assert(c.chars@.len() <= usize::MAX);
    let text = c.chars@;
    let base = c.point as int;
    let wl = w.len() as int;
    assert(text[base] == w.push(sp)[0]);
    let x = w[0];
    assert(crate::token::is_digit(x));
    let c1 = crate::token::next_ctx(c);
    assert(!crate::token::is_start_ident(x));
    assert(crate::token::tok_from(c, crate::token::TSt::Nothing, acc) == crate::token::tok_from(
        c1,
        crate::token::TSt::Number(seq![x]),
        acc,
    ));
    let p = w.drop_first();
    assert forall|i: int| 0 <= i < p.len() implies #[trigger] crate::token::is_digit(p[i]) by {
        assert(p[i] == w[i + 1]);
    }
    assert(c1.chars@.subrange(c1.point as int, c1.point + p.len()) =~= p) by {
        assert forall|i: int| 0 <= i < p.len() implies c1.chars@.subrange(c1.point as int, c1.point + p.len())[i]
            == p[i] by {
            assert(text[base + 1 + i] == w.push(sp)[1 + i]);
        }
    }
    lemma_number_goes_on(c1, p, seq![x], acc);
    assert(seq![x] + p =~= w);
    let c2 = read_on(c1, p.len());
    lemma_read_on(c1, p.len());
    assert(text[base + wl] == w.push(sp)[wl]);
    assert(!crate::token::is_digit(sp));
    lemma_digits_value_pos(w);
    let v = crate::text::digits_value(w);
    assert(x != '-' && x != '+');
    assert(crate::text::all_digits(w)) by {
        assert forall|i: int| 0 <= i < w.len() implies '0' <= #[trigger] w[i] <= '9' by {
            assert(crate::token::is_digit(w[i]));
        }
    }
    assert(crate::text::parse_isize_spec(w) == Some(v));
    let c3 = crate::token::next_ctx(c2);
    let n = v as isize;
    assert(crate::token::tok_from(c2, crate::token::TSt::Number(w), acc) == crate::token::tok_from(
        c3,
        crate::token::TSt::Nothing,
        acc.push(crate::token::tok_here(c3, crate::token::TokM::Number(n))),
    ));
    lemma_read_one(c);
    lemma_read_on_add(c, 1, p.len());
    lemma_read_one(c2);
    lemma_read_on_add(c, 1 + p.len(), 1);
    assert((1 + p.len() + 1) as nat == w.len() + 1);
    if w[0] != '0' || w.len() == 1 {
        lemma_digits_decimal(w);
        assert(crate::text::decimal(n as int) == crate::text::decimal_nat(v as nat));
    }
}

} // verus!
