//! The garbage collector: a mark-and-sweep pass over the model store.
//!
//! Marking starts from an environment frame and walks its parent chain.
//! Every bound value is traced: a model reference marks its id, and lists,
//! quoted data, and closure bodies are traced recursively.  Every id on a
//! preview worklist is a root in its own right.  Sweeping then drops, from
//! every frame in the chain, the store entries whose id was not marked.
//!
//! Collection only removes: after a sweep, a lookup of a dropped id returns
//! nothing, which callers treat as an ordinary outcome.
use std::sync::Arc;
use vstd::prelude::*;

verus! {

use crate::env::{Env, EnvV, FrameV, ModelId, env_wf, vars_distinct, vars_map};
use crate::expr::{Expr, ExprV, expr_view, exprs_view, lemma_exprs_view};

/// The model ids that occur in an expression, looking through lists, quoted
/// data, and closure bodies.
pub open spec fn expr_ids(e: ExprV) -> Set<ModelId>
    decreases e,
{
    match e {
        ExprV::Model { id, .. } => Set::empty().insert(id),
        ExprV::List { elements, .. } => exprs_ids(elements),
        ExprV::Quote { expr, .. } => expr_ids(*expr),
        ExprV::Clausure { body, .. } => expr_ids(*body),
        _ => Set::empty(),
    }
}

pub open spec fn exprs_ids(s: Seq<ExprV>) -> Set<ModelId>
    decreases s,
{
    if s.len() == 0 {
        Set::empty()
    } else {
        exprs_ids(s.drop_last()).union(expr_ids(s.last()))
    }
}

/// Appending to the marked list inserts into the marked set.
proof fn lemma_push_to_set<A>(s: Seq<A>, x: A)
    ensures
        s.push(x).to_set() =~= s.to_set().insert(x),
{
    assert forall|a: A| s.push(x).to_set().contains(a) implies s.to_set().insert(x).contains(
        a,
    ) by {
        let i = choose|i: int| 0 <= i < s.push(x).len() && s.push(x)[i] == a;
        if i < s.len() {
            assert(s[i] == a);
        }
    }
    assert forall|a: A| s.to_set().insert(x).contains(a) implies s.push(x).to_set().contains(
        a,
    ) by {
        if a == x {
            assert(s.push(x)[s.len() as int] == a);
        } else {
            let i = choose|i: int| 0 <= i < s.len() && s[i] == a;
            assert(s.push(x)[i] == a);
        }
    }
}

/// The roots a single frame contributes: the ids in its bound values and
/// the ids on its preview worklist.
pub open spec fn frame_roots(fr: FrameV) -> Set<ModelId> {
    Set::new(
        |id: ModelId|
            (exists|n: Seq<char>| #[trigger]
                fr.vars.contains_key(n) && expr_ids(fr.vars[n]).contains(id))
                || fr.preview_list.contains(id),
    )
}

/// Everything reachable from a frame and its parent chain.
pub open spec fn reachable(env: EnvV, frame: int) -> Set<ModelId>
    decreases frame,
{
    if 0 <= frame < env.frames.len() {
        let r = frame_roots(env.frames[frame]);
        match env.frames[frame].parent {
            Some(p) => if p < frame {
                r.union(reachable(env, p as int))
            } else {
                r
            },
            None => r,
        }
    } else {
        Set::empty()
    }
}

/// Whether frame `f` lies on the parent chain that starts at `frame`.
pub open spec fn in_chain(env: EnvV, frame: int, f: int) -> bool
    decreases frame,
{
    if 0 <= frame < env.frames.len() {
        f == frame || (match env.frames[frame].parent {
            Some(p) => p < frame && in_chain(env, p as int, f),
            None => false,
        })
    } else {
        false
    }
}

/// What one collection pass leaves behind: every frame on the chain keeps
/// exactly its reachable store entries; every other frame is untouched.
pub open spec fn collect_spec(env: EnvV, frame: int) -> EnvV {
    EnvV {
        frames: Seq::new(
            env.frames.len(),
            |f: int|
                if in_chain(env, frame, f) {
                    FrameV {
                        models: env.frames[f].models.restrict(reachable(env, frame)),
                        ..env.frames[f]
                    }
                } else {
                    env.frames[f]
                },
        ),
        next_id: env.next_id,
    }
}

/// Marks every id in `e`, in the order the ids occur.
#[verifier::loop_isolation(false)]
fn mark_expr(e: &Expr, reachable: &mut Vec<ModelId>)
    ensures
        final(reachable)@.to_set() == old(reachable)@.to_set().union(expr_ids(e@)),
    decreases e,
{
    broadcast use lemma_exprs_view;

    match e {
        Expr::Model { id, .. } => {
            reachable.push(*id);
            proof {
                lemma_push_to_set(old(reachable)@, *id);
                assert(old(reachable)@.to_set().insert(*id) =~= old(reachable)@.to_set().union(
                    Set::empty().insert(*id),
                ));
            }
        },
        Expr::List { elements, .. } => {
            let ghost ev = exprs_view(elements@);
            let mut i: usize = 0;
            proof {
                assert(ev.subrange(0, 0) =~= Seq::<ExprV>::empty());
                assert(reachable@.to_set().union(Set::empty()) =~= reachable@.to_set());
            }
            while i < elements.len()
                invariant
                    i <= elements@.len() == ev.len(),
                    ev == exprs_view(elements@),
                    forall|j: int| 0 <= j < ev.len() ==> ev[j] == expr_view(*elements@[j]),
                    reachable@.to_set() == old(reachable)@.to_set().union(
                        exprs_ids(ev.subrange(0, i as int)),
                    ),
                decreases elements@.len() - i,
            {
                mark_expr(&elements[i], reachable);
                proof {
                    assert(ev.subrange(0, i + 1 as int).drop_last() =~= ev.subrange(0, i as int));
                    assert(ev.subrange(0, i + 1 as int).last() == ev[i as int]);
                    assert(old(reachable)@.to_set().union(exprs_ids(ev.subrange(0, i as int))).union(
                        expr_ids(ev[i as int]),
                    ) =~= old(reachable)@.to_set().union(exprs_ids(ev.subrange(0, i + 1 as int))));
                }
                i = i + 1;
            }
            proof {
                assert(ev.subrange(0, ev.len() as int) =~= ev);
            }
        },
        Expr::Quote { expr, .. } => {
            mark_expr(&**expr, reachable);
        },
        Expr::Clausure { body, .. } => {
            mark_expr(&**body, reachable);
        },
        _ => {
            proof {
                assert(reachable@.to_set().union(Set::empty()) =~= reachable@.to_set());
            }
        },
    }
}

/// The union of the ids in a frame's bound values, entry by entry.
spec fn vars_prefix_ids(s: Seq<(String, Arc<Expr>)>, k: int) -> Set<ModelId>
    decreases k,
{
    if 0 < k <= s.len() {
        vars_prefix_ids(s, k - 1).union(expr_ids(expr_view(*s[k - 1].1)))
    } else {
        Set::empty()
    }
}

/// With distinct names, the ids found by walking the binding vector are
/// exactly the ids found in the binding map.
proof fn lemma_vars_prefix_ids(s: Seq<(String, Arc<Expr>)>)
    requires
        vars_distinct(s),
    ensures
        vars_prefix_ids(s, s.len() as int) =~= Set::new(
            |id: ModelId|
                exists|n: Seq<char>| #[trigger]
                    vars_map(s).contains_key(n) && expr_ids(vars_map(s)[n]).contains(id),
        ),
{
    crate::env::lemma_vars_map_entries(s);
    lemma_vars_prefix_ids_sub(s, s.len() as int);
    let lhs = vars_prefix_ids(s, s.len() as int);
    let rhs = Set::new(
        |id: ModelId|
            exists|n: Seq<char>| #[trigger]
                vars_map(s).contains_key(n) && expr_ids(vars_map(s)[n]).contains(id),
    );
    assert forall|id: ModelId| rhs.contains(id) implies lhs.contains(id) by {
        let n = choose|n: Seq<char>| #[trigger]
            vars_map(s).contains_key(n) && expr_ids(vars_map(s)[n]).contains(id);
        let i = choose|i: int| 0 <= i < s.len() && #[trigger] s[i].0@ == n;
        lemma_vars_prefix_ids_mem(s, s.len() as int, i, id);
    }
}

/// Every entry's ids are inside the prefix union, and conversely every id in
/// the prefix union belongs to some entry.
proof fn lemma_vars_prefix_ids_sub(s: Seq<(String, Arc<Expr>)>, k: int)
    requires
        vars_distinct(s),
        0 <= k <= s.len(),
    ensures
        forall|id: ModelId|
            vars_prefix_ids(s, k).contains(id) ==> exists|i: int|
                0 <= i < k && expr_ids(expr_view(*#[trigger] s[i].1)).contains(id),
    decreases k,
{
    if k > 0 {
        lemma_vars_prefix_ids_sub(s, k - 1);
        assert forall|id: ModelId| vars_prefix_ids(s, k).contains(id) implies exists|i: int|
            0 <= i < k && expr_ids(expr_view(*#[trigger] s[i].1)).contains(id) by {
            if expr_ids(expr_view(*s[k - 1].1)).contains(id) {
                assert(0 <= k - 1 < k && expr_ids(expr_view(*s[k - 1].1)).contains(id));
            } else {
                assert(vars_prefix_ids(s, k - 1).contains(id));
            }
        }
    }
}

proof fn lemma_vars_prefix_ids_mem(s: Seq<(String, Arc<Expr>)>, k: int, i: int, id: ModelId)
    requires
        0 <= i < k <= s.len(),
        expr_ids(expr_view(*s[i].1)).contains(id),
    ensures
        vars_prefix_ids(s, k).contains(id),
    decreases k,
{
    if i < k - 1 {
        lemma_vars_prefix_ids_mem(s, k - 1, i, id);
    }
}

/// Marks everything reachable from `frame`: its bound values, its preview
/// worklist, and recursively its parent chain.
#[verifier::loop_isolation(false)]
fn mark_reachable(env: &Env, frame: usize, acc: &mut Vec<ModelId>)
    requires
        env.inv(),
        frame < env@.frames.len(),
    ensures
        final(acc)@.to_set() == old(acc)@.to_set().union(reachable(env@, frame as int)),
    decreases frame,
{
    let vars = env.vars(frame);
    let ghost fr = env@.frames[frame as int];
    let mut k: usize = 0;
    while k < vars.len()
        invariant
            k <= vars@.len(),
            vars_map(vars@) == fr.vars,
            vars_distinct(vars@),
            acc@.to_set() == old(acc)@.to_set().union(vars_prefix_ids(vars@, k as int)),
        decreases vars@.len() - k,
    {
        mark_expr(&vars[k].1, acc);
        proof {
            assert(old(acc)@.to_set().union(vars_prefix_ids(vars@, k as int)).union(
                expr_ids(expr_view(*vars@[k as int].1)),
            ) =~= old(acc)@.to_set().union(vars_prefix_ids(vars@, k + 1 as int)));
        }
        k = k + 1;
    }
    let preview = env.preview_list(frame);
    let mut j: usize = 0;
    while j < preview.len()
        invariant
            j <= preview@.len(),
            preview@ == fr.preview_list,
            acc@.to_set() == old(acc)@.to_set().union(vars_prefix_ids(vars@, vars@.len() as int))
                .union(preview@.subrange(0, j as int).to_set()),
        decreases preview@.len() - j,
    {
        let ghost prevacc = acc@;
        acc.push(preview[j]);
        proof {
            lemma_push_to_set(prevacc, preview@[j as int]);
            lemma_push_to_set(preview@.subrange(0, j as int), preview@[j as int]);
            assert(preview@.subrange(0, j + 1 as int) =~= preview@.subrange(0, j as int).push(
                preview@[j as int],
            ));
            assert(acc@.to_set() =~= old(acc)@.to_set().union(
                vars_prefix_ids(vars@, vars@.len() as int),
            ).union(preview@.subrange(0, j + 1 as int).to_set()));
        }
        j = j + 1;
    }
    proof {
        assert(preview@.subrange(0, preview@.len() as int) =~= preview@);
        lemma_vars_prefix_ids(vars@);
        assert(vars_prefix_ids(vars@, vars@.len() as int).union(preview@.to_set()) =~= frame_roots(
            fr,
        ));
    }
    match env.parent(frame) {
        Some(p) => {
            mark_reachable(env, p, acc);
            proof {
                assert(old(acc)@.to_set().union(frame_roots(fr)).union(
                    reachable(env@, p as int),
                ) =~= old(acc)@.to_set().union(reachable(env@, frame as int)));
            }
        },
        None => {
            proof {
                assert(frame_roots(fr) =~= reachable(env@, frame as int));
            }
        },
    }
}

/// One mark-and-sweep pass starting at `frame`: afterwards, every frame on
/// the chain holds exactly the store entries whose id was reachable, and no
/// other frame, binding, or preview list has changed.
pub fn collect_garbage(env: &mut Env, frame: usize)
    requires
        old(env).inv(),
        frame < old(env)@.frames.len(),
    ensures
        final(env).inv(),
        final(env)@ =~~= collect_spec(old(env)@, frame as int),
{
    let mut ids: Vec<ModelId> = Vec::new();
    proof {
        assert(ids@.to_set().union(reachable(env@, frame as int)) =~= reachable(
            env@,
            frame as int,
        ));
    }
    mark_reachable(env, frame, &mut ids);
    let ghost env0 = env@;
    let ghost marked = reachable(env0, frame as int);
    let mut f = frame;
    let mut running = true;
    proof {
        assert(in_chain(env0, frame as int, frame as int));
    }
    while running
        invariant
            env.inv(),
            env_wf(env0),
            frame < env0.frames.len(),
            f < env@.frames.len() == env0.frames.len(),
            env@.next_id == env0.next_id,
            ids@.to_set() == marked,
            marked == reachable(env0, frame as int),
            in_chain(env0, frame as int, f as int),
            forall|g: int|
                0 <= g < env0.frames.len() ==> (#[trigger] env@.frames[g]) == (if in_chain(
                    env0,
                    frame as int,
                    g,
                ) && (!running || !in_chain(env0, f as int, g)) {
                    FrameV { models: env0.frames[g].models.restrict(marked), ..env0.frames[g] }
                } else {
                    env0.frames[g]
                }),
        decreases f + (if running { 1int } else { 0int }),
    {
        proof {
            lemma_chain_step(env0, frame as int, f as int);
            assert(env@.frames[f as int].parent == env0.frames[f as int].parent);
            assert(in_chain(env0, f as int, f as int));
            assert(env@.frames[f as int].models == env0.frames[f as int].models);
        }
        let ghost before = env@;
        env.retain_polys(f, &ids);
        proof {
            assert(ids@.to_set() =~= marked);
            assert(env@.frames[f as int] =~= FrameV {
                models: env0.frames[f as int].models.restrict(marked),
                ..env0.frames[f as int]
            });
            assert(forall|g: int|
                0 <= g < env0.frames.len() && g != f ==> env@.frames[g] == before.frames[g]);
        }
        match env.parent(f) {
            Some(p) => {
                proof {
                    assert(env0.frames[f as int].parent == Some(p));
                    assert(p < f);
                    assert(in_chain(env0, f as int, p as int));
                    lemma_chain_trans(env0, frame as int, f as int, p as int);
                    lemma_chain_below(env0, p as int);
                    assert(!in_chain(env0, p as int, f as int));
                }
                f = p;
            },
            None => {
                proof {
                    assert(forall|g: int|
                        in_chain(env0, f as int, g) ==> g == f) by {
                        assert(env0.frames[f as int].parent is None);
                    }
                }
                running = false;
            },
        }
    }
    proof {
        assert(env@.frames =~= collect_spec(env0, frame as int).frames);
        assert(env@ =~~= collect_spec(env0, frame as int));
    }
}

/// Along one chain, the frames below the current one and the current one
/// itself partition the chain.
proof fn lemma_chain_step(env: EnvV, frame: int, f: int)
    requires
        0 <= frame < env.frames.len(),
        in_chain(env, frame, f),
        env_wf(env),
    ensures
        forall|g: int|
            in_chain(env, f, g) <==> (g == f || (env.frames[f].parent matches Some(p) && in_chain(
                env,
                p as int,
                g,
            ))),
        0 <= f < env.frames.len(),
        env.frames[f].parent matches Some(p) ==> p < f,
    decreases frame,
{
    lemma_chain_in_range(env, frame, f);
}

/// Chains compose: a frame on the chain of a frame on the chain of `a` is
/// on the chain of `a`.
proof fn lemma_chain_trans(env: EnvV, a: int, b: int, c: int)
    requires
        0 <= a < env.frames.len(),
        in_chain(env, a, b),
        in_chain(env, b, c),
    ensures
        in_chain(env, a, c),
    decreases a,
{
    if b != a {
        match env.frames[a].parent {
            Some(p) => {
                lemma_chain_trans(env, p as int, b, c);
            },
            None => {},
        }
    }
}

/// Every frame on the chain of `a` has an index no greater than `a`.
proof fn lemma_chain_below(env: EnvV, a: int)
    requires
        0 <= a < env.frames.len(),
    ensures
        forall|g: int| #[trigger] in_chain(env, a, g) ==> g <= a,
    decreases a,
{
    match env.frames[a].parent {
        Some(p) => {
            if p < a {
                lemma_chain_below(env, p as int);
            }
        },
        None => {},
    }
    assert forall|g: int| #[trigger] in_chain(env, a, g) implies g <= a by {
        if g != a {
            assert(match env.frames[a].parent {
                Some(p) => p < a && in_chain(env, p as int, g),
                None => false,
            });
        }
    }
}

/// Every frame on a chain is a valid frame index.
proof fn lemma_chain_in_range(env: EnvV, frame: int, f: int)
    requires
        0 <= frame < env.frames.len(),
        in_chain(env, frame, f),
    ensures
        0 <= f <= frame,
    decreases frame,
{
    if f != frame {
        match env.frames[frame].parent {
            Some(p) => {
                lemma_chain_in_range(env, p as int, f);
            },
            None => {},
        }
    }
}

/// Environments that agree frame by frame on parents, bindings, and preview
/// lists have the same chains and the same reachable ids: collection, which
/// only touches the model stores, changes neither.
proof fn lemma_reachable_same(env1: EnvV, env2: EnvV, frame: int)
    requires
        env1.frames.len() == env2.frames.len(),
        forall|f: int|
            0 <= f < env1.frames.len() ==> (#[trigger] env1.frames[f]).parent
                == env2.frames[f].parent && env1.frames[f].vars == env2.frames[f].vars
                && env1.frames[f].preview_list == env2.frames[f].preview_list,
    ensures
        reachable(env1, frame) == reachable(env2, frame),
        forall|g: int| #[trigger] in_chain(env1, frame, g) == in_chain(env2, frame, g),
    decreases frame,
{
    if 0 <= frame < env1.frames.len() {
        assert(env1.frames[frame].parent == env2.frames[frame].parent);
        assert(frame_roots(env1.frames[frame]) =~= frame_roots(env2.frames[frame]));
        match env1.frames[frame].parent {
            Some(p) => {
                if p < frame {
                    lemma_reachable_same(env1, env2, p as int);
                    assert forall|g: int| #[trigger] in_chain(env1, frame, g) == in_chain(
                        env2,
                        frame,
                        g,
                    ) by {
                        assert(in_chain(env1, frame, g) == (g == frame || in_chain(
                            env1,
                            p as int,
                            g,
                        )));
                        assert(in_chain(env2, frame, g) == (g == frame || in_chain(
                            env2,
                            p as int,
                            g,
                        )));
                    }
                } else {
                    assert forall|g: int| #[trigger] in_chain(env1, frame, g) == in_chain(
                        env2,
                        frame,
                        g,
                    ) by {
                        assert(in_chain(env1, frame, g) == (g == frame));
                        assert(in_chain(env2, frame, g) == (g == frame));
                    }
                }
            },
            None => {
                assert forall|g: int| #[trigger] in_chain(env1, frame, g) == in_chain(
                    env2,
                    frame,
                    g,
                ) by {
                    assert(in_chain(env1, frame, g) == (g == frame));
                    assert(in_chain(env2, frame, g) == (g == frame));
                }
            },
        }
    } else {
        assert forall|g: int| #[trigger] in_chain(env1, frame, g) == in_chain(env2, frame, g) by {
            assert(!in_chain(env1, frame, g));
            assert(!in_chain(env2, frame, g));
        }
    }
}

/// Running collection twice in a row with no intervening mutation removes
/// nothing on the second pass: the pass is idempotent.
pub proof fn lemma_collect_idempotent(env: EnvV, frame: int)
    ensures
        collect_spec(collect_spec(env, frame), frame) =~~= collect_spec(env, frame),
{
    let env1 = collect_spec(env, frame);
    lemma_reachable_same(env, env1, frame);
    assert forall|f: int| 0 <= f < env1.frames.len() implies collect_spec(env1, frame).frames[f]
        =~~= env1.frames[f] by {
        if in_chain(env1, frame, f) {
            assert(env1.frames[f].models == env.frames[f].models.restrict(
                reachable(env, frame),
            ));
            assert(env.frames[f].models.restrict(reachable(env, frame)).restrict(
                reachable(env, frame),
            ) =~= env.frames[f].models.restrict(reachable(env, frame)));
        }
    }
    assert(collect_spec(env1, frame).frames =~~= env1.frames);
}

/// An id on a frame's preview worklist is reachable from that frame.
pub proof fn lemma_preview_reachable(env: EnvV, frame: int, id: ModelId)
    requires
        0 <= frame < env.frames.len(),
        env.frames[frame].preview_list.contains(id),
    ensures
        reachable(env, frame).contains(id),
{
    assert(frame_roots(env.frames[frame]).contains(id));
}

/// An id that occurs in a bound value — in particular inside a bound
/// closure's body — is reachable from the frame that binds it.
pub proof fn lemma_binding_reachable(env: EnvV, frame: int, name: Seq<char>, id: ModelId)
    requires
        0 <= frame < env.frames.len(),
        env.frames[frame].vars.contains_key(name),
        expr_ids(env.frames[frame].vars[name]).contains(id),
    ensures
        reachable(env, frame).contains(id),
{
    assert(frame_roots(env.frames[frame]).contains(id));
}

impl Env {
    /// Runs one mark-and-sweep pass over this environment, starting at
    /// `frame`.
    pub fn collect_garbage(&mut self, frame: usize)
        requires
            old(self).inv(),
            frame < old(self)@.frames.len(),
        ensures
            final(self).inv(),
            final(self)@ =~~= collect_spec(old(self)@, frame as int),
    {
        collect_garbage(self, frame);
    }
}

} // verus!
