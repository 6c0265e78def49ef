//! General laws of the engine, stated over the rendering specification
//! and proved once and for all.

use vstd::prelude::*;

use crate::context::ContextValue;
use crate::errors::RenderError;
use crate::filters::{spec_apply_filter, Filter};
use crate::templates::{
    spec_build_chunk, spec_eval_value_state, spec_render_nodes,
    spec_eval_value, spec_render, spec_trim, NodeModel, TokenModel,
};
use crate::util::{
    find_first,
    lemma_find_first, lemma_find_first_unique, lemma_run_len, run_len, spec_segment_code,
    ChunkModel,
};

verus! {

/// Literal-only templates round-trip: a template that contains neither
/// delimiter character renders to itself, against any context.
pub proof fn lemma_literal_template_roundtrip(t: Seq<char>, ctx: Map<Seq<char>, ContextValue>)
    requires
        forall|i: int| 0 <= i < t.len() ==> t[i] != '{' && t[i] != '}',
    ensures
        spec_render(t, ctx) == Ok::<Seq<char>, RenderError>(t),
{
    lemma_find_first_unique(t, '{', t.len() as int);
    assert(t.skip(t.len() as int).len() == 0);
    assert(spec_segment_code(t.skip(t.len() as int), '{', '}') == Some(
        Seq::<ChunkModel>::empty(),
    ));
    if t.len() > 0 {
        assert(t.take(t.len() as int) =~= t);
        let cs = seq![ChunkModel::Literal(t)] + Seq::<ChunkModel>::empty();
        assert(cs =~= seq![ChunkModel::Literal(t)]);
        let ns = cs.map_values(|c: ChunkModel| spec_build_chunk(c));
        assert(ns =~= seq![NodeModel::Literal(t)]);
        assert(ns.drop_first() =~= Seq::<NodeModel>::empty());
        assert(spec_render_nodes(Seq::<NodeModel>::empty(), ctx)
            == Ok::<Seq<char>, RenderError>(Seq::<char>::empty()));
        assert(spec_render_nodes(ns, ctx) == Ok::<Seq<char>, RenderError>(
            t + Seq::<char>::empty(),
        ));
        assert(t + Seq::<char>::empty() =~= t);
    } else {
        let ns = Seq::<ChunkModel>::empty().map_values(
            |c: ChunkModel| spec_build_chunk(c),
        );
        assert(ns =~= Seq::<NodeModel>::empty());
        assert(t =~= Seq::<char>::empty());
    }
}

/// A block that is opened and never closed fails segmentation, whatever
/// else the template holds: if some opening delimiter (at `i`) is
/// followed by a character that is not one (at `j`), and no closing
/// delimiter appears anywhere, the whole render fails.
pub proof fn lemma_unterminated_block_fails(
    t: Seq<char>,
    i: int,
    j: int,
    ctx: Map<Seq<char>, ContextValue>,
)
    requires
        forall|k: int| 0 <= k < t.len() ==> t[k] != '}',
        0 <= i < j < t.len(),
        t[i] == '{',
        t[j] != '{',
    ensures
        spec_render(t, ctx) == Err::<Seq<char>, RenderError>(RenderError::Segmentation),
{
    lemma_find_first(t, '{');
    let li = find_first(t, '{');
    assert(li <= i);
    let rest = t.skip(li);
    lemma_run_len(rest, '{');
    let r = run_len(rest, '{');
    assert(rest[j - li] == t[j]);
    assert(r < rest.len());
    let u = rest.skip(r);
    lemma_find_first(u, '}');
    let ci = find_first(u, '}');
    if ci < u.len() {
        assert(u[ci] == t[li + r + ci]);
    }
    assert(spec_segment_code(rest, '{', '}') is None);
}

/// A dangling pipe — a value block that ends right after a pipe — is a
/// grammar error, for any resolvable variable.
pub proof fn lemma_dangling_pipe(id: Seq<char>, ctx: Map<Seq<char>, ContextValue>, s: String)
    requires
        ctx.contains_key(spec_trim(id)),
        ctx[spec_trim(id)] == ContextValue::Text(s),
    ensures
        spec_eval_value(seq![TokenModel::Variable(id), TokenModel::Pipe], ctx) == Err::<
            Seq<char>,
            RenderError,
        >(RenderError::Grammar),
{
    let t0 = seq![TokenModel::Variable(id), TokenModel::Pipe];
    let t1 = seq![TokenModel::Pipe];
    assert(t0.drop_first() =~= t1);
    assert(t1.drop_first() =~= Seq::<TokenModel>::empty());
    assert(spec_eval_value_state(t0, ctx, Seq::empty(), false)
        == spec_eval_value_state(t1, ctx, s@, true));
    assert(spec_eval_value_state(t1, ctx, s@, true)
        == spec_eval_value_state(Seq::<TokenModel>::empty(), ctx, s@, false));
}

/// Two filters with no pipe between them are a grammar error, for any
/// resolvable variable and any pair of filters.
pub proof fn lemma_consecutive_filters(
    id: Seq<char>,
    f: Filter,
    g: Filter,
    ctx: Map<Seq<char>, ContextValue>,
    s: String,
)
    requires
        ctx.contains_key(spec_trim(id)),
        ctx[spec_trim(id)] == ContextValue::Text(s),
    ensures
        spec_eval_value(
            seq![
                TokenModel::Variable(id),
                TokenModel::Pipe,
                TokenModel::Filter(f),
                TokenModel::Filter(g),
            ],
            ctx,
        ) == Err::<Seq<char>, RenderError>(RenderError::Grammar),
{
    let t0 = seq![
        TokenModel::Variable(id),
        TokenModel::Pipe,
        TokenModel::Filter(f),
        TokenModel::Filter(g),
    ];
    let t1 = seq![TokenModel::Pipe, TokenModel::Filter(f), TokenModel::Filter(g)];
    let t2 = seq![TokenModel::Filter(f), TokenModel::Filter(g)];
    let t3 = seq![TokenModel::Filter(g)];
    assert(t0.drop_first() =~= t1);
    assert(t1.drop_first() =~= t2);
    assert(t2.drop_first() =~= t3);
    let fs = spec_apply_filter(f, s@);
    assert(spec_eval_value_state(t0, ctx, Seq::empty(), false)
        == spec_eval_value_state(t1, ctx, s@, true));
    assert(spec_eval_value_state(t1, ctx, s@, true)
        == spec_eval_value_state(t2, ctx, s@, false));
    assert(spec_eval_value_state(t2, ctx, s@, false)
        == spec_eval_value_state(t3, ctx, fs, true));
}

/// Whether a token stream is a well-formed chain of pipe-filter pairs.
pub open spec fn pipe_filter_tail(tokens: Seq<TokenModel>) -> bool
    decreases tokens.len(),
{
    if tokens.len() == 0 {
        true
    } else {
        tokens.len() >= 2 && tokens[0] is Pipe && tokens[1] is Filter && pipe_filter_tail(
            tokens.skip(2),
        )
    }
}

/// Whether a token stream matches the value grammar
/// `Variable (Pipe Filter)*`: one variable reference, then any number of
/// pipe-filter pairs.
pub open spec fn matches_value_grammar(tokens: Seq<TokenModel>) -> bool {
    tokens.len() >= 1 && tokens[0] is Variable && pipe_filter_tail(tokens.drop_first())
}

/// The filters a chain of pipe-filter pairs names, in source order.
pub open spec fn filters_of(tokens: Seq<TokenModel>) -> Seq<Filter>
    decreases tokens.len(),
{
    if tokens.len() < 2 {
        Seq::empty()
    } else {
        seq![tokens[1]->Filter_0] + filters_of(tokens.skip(2))
    }
}

/// A sequence of filters applied left to right.
pub open spec fn apply_filters(fs: Seq<Filter>, s: Seq<char>) -> Seq<char>
    decreases fs.len(),
{
    if fs.len() == 0 {
        s
    } else {
        apply_filters(fs.drop_first(), spec_apply_filter(fs[0], s))
    }
}

/// A pipe-filter chain, entered with the accumulator holding `acc`,
/// applies its filters to `acc` left to right and succeeds.
proof fn lemma_pipe_filter_tail_evaluates(
    tail: Seq<TokenModel>,
    ctx: Map<Seq<char>, ContextValue>,
    acc: Seq<char>,
)
    requires
        pipe_filter_tail(tail),
    ensures
        spec_eval_value_state(tail, ctx, acc, true) == Ok::<Seq<char>, RenderError>(
            apply_filters(filters_of(tail), acc),
        ),
    decreases tail.len(),
{
    if tail.len() > 0 {
        let f = tail[1]->Filter_0;
        assert(tail.drop_first()[0] == tail[1]);
        assert(tail.drop_first().drop_first() =~= tail.skip(2));
        assert(spec_eval_value_state(tail, ctx, acc, true) == spec_eval_value_state(
            tail.drop_first(),
            ctx,
            acc,
            false,
        ));
        assert(spec_eval_value_state(tail.drop_first(), ctx, acc, false)
            == spec_eval_value_state(tail.skip(2), ctx, spec_apply_filter(f, acc), true));
        lemma_pipe_filter_tail_evaluates(tail.skip(2), ctx, spec_apply_filter(f, acc));
        assert(filters_of(tail).drop_first() =~= filters_of(tail.skip(2)));
    }
}

/// The value grammar is accepted: a token stream matching
/// `Variable (Pipe Filter)*`, whose variable is bound to a string in the
/// context, renders to that string piped through the stream's filters
/// left to right.
pub proof fn lemma_value_grammar_accepted(
    tokens: Seq<TokenModel>,
    ctx: Map<Seq<char>, ContextValue>,
    s: String,
)
    requires
        matches_value_grammar(tokens),
        ctx.contains_key(spec_trim(tokens[0]->Variable_0)),
        ctx[spec_trim(tokens[0]->Variable_0)] == ContextValue::Text(s),
    ensures
        spec_eval_value(tokens, ctx) == Ok::<Seq<char>, RenderError>(
            apply_filters(filters_of(tokens.drop_first()), s@),
        ),
{
    assert(spec_eval_value_state(tokens, ctx, Seq::empty(), false) == spec_eval_value_state(
        tokens.drop_first(),
        ctx,
        s@,
        true,
    ));
    lemma_pipe_filter_tail_evaluates(tokens.drop_first(), ctx, s@);
}

/// Rendering is a pure function of the template text and the context:
/// renders of identical inputs yield identical output, byte for byte —
/// there is no hidden mutable state.
pub proof fn lemma_render_deterministic(
    t1: Seq<char>,
    t2: Seq<char>,
    c1: Map<Seq<char>, ContextValue>,
    c2: Map<Seq<char>, ContextValue>,
)
    requires
        t1 == t2,
        c1 == c2,
    ensures
        spec_render(t1, c1) == spec_render(t2, c2),
{
}

/// A variable absent from the context fails the lookup — it is never a
/// silent empty substitution.
pub proof fn lemma_missing_variable(id: Seq<char>, ctx: Map<Seq<char>, ContextValue>)
    requires
        !ctx.contains_key(spec_trim(id)),
    ensures
        spec_eval_value(seq![TokenModel::Variable(id)], ctx) == Err::<Seq<char>, RenderError>(
            RenderError::ContextLookup,
        ),
{
}

/// Chained filters apply left to right: piping a variable through `f`
/// and then `g` yields `g` applied to `f`'s result, never the reverse
/// composition.
pub proof fn lemma_chained_filters_left_to_right(
    id: Seq<char>,
    f: Filter,
    g: Filter,
    ctx: Map<Seq<char>, ContextValue>,
    s: String,
)
    requires
        ctx.contains_key(spec_trim(id)),
        ctx[spec_trim(id)] == ContextValue::Text(s),
    ensures
        spec_eval_value(
            seq![
                TokenModel::Variable(id),
                TokenModel::Pipe,
                TokenModel::Filter(f),
                TokenModel::Pipe,
                TokenModel::Filter(g),
            ],
            ctx,
        ) == Ok::<Seq<char>, RenderError>(spec_apply_filter(g, spec_apply_filter(f, s@))),
{
    let t0 = seq![
        TokenModel::Variable(id),
        TokenModel::Pipe,
        TokenModel::Filter(f),
        TokenModel::Pipe,
        TokenModel::Filter(g),
    ];
    let t1 = seq![
        TokenModel::Pipe,
        TokenModel::Filter(f),
        TokenModel::Pipe,
        TokenModel::Filter(g),
    ];
    let t2 = seq![TokenModel::Filter(f), TokenModel::Pipe, TokenModel::Filter(g)];
    let t3 = seq![TokenModel::Pipe, TokenModel::Filter(g)];
    let t4 = seq![TokenModel::Filter(g)];
    assert(t0.drop_first() =~= t1);
    assert(t1.drop_first() =~= t2);
    assert(t2.drop_first() =~= t3);
    assert(t3.drop_first() =~= t4);
    assert(t4.drop_first() =~= Seq::<TokenModel>::empty());
    let e = Seq::<char>::empty();
    let fs = spec_apply_filter(f, s@);
    let gfs = spec_apply_filter(g, fs);
    assert(spec_eval_value_state(t0, ctx, e, false)
        == spec_eval_value_state(t1, ctx, s@, true));
    assert(spec_eval_value_state(t1, ctx, s@, true)
        == spec_eval_value_state(t2, ctx, s@, false));
    assert(spec_eval_value_state(t2, ctx, s@, false)
        == spec_eval_value_state(t3, ctx, fs, true));
    assert(spec_eval_value_state(t3, ctx, fs, true)
        == spec_eval_value_state(t4, ctx, fs, false));
    assert(spec_eval_value_state(t4, ctx, fs, false)
        == spec_eval_value_state(Seq::<TokenModel>::empty(), ctx, gfs, true));
    assert(spec_eval_value_state(Seq::<TokenModel>::empty(), ctx, gfs, true)
        == Ok::<Seq<char>, RenderError>(gfs));
}

} // verus!
