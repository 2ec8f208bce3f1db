//! Lexical environments and the model-object store.
//!
//! The environment is a tree of scope frames held in one arena: a frame
//! refers to its parent by index, and closures and macros refer to their
//! captured frame the same way.  Parent links only ever point to frames
//! created earlier, so lookup terminates and no cycle can form.
//!
//! Each frame carries its own name bindings, its own slice of the model
//! store, and a preview worklist of model identifiers the host should
//! render.  Model identifiers come from one counter owned by the
//! environment, increase monotonically, and are never reused.
//!
//! Frames themselves are never removed from the arena: a frame whose index
//! nothing refers to any longer is dead weight until the host discards the
//! whole environment, which it does by resetting it between evaluation
//! runs.  Only the model store is reclaimed, by the collector.
use std::sync::Arc;
use vstd::prelude::*;

verus! {

use crate::expr::{arc_clone, Expr, ExprV, expr_view};
use crate::strings::str_eq;

pub type ModelId = usize;

/// A model object held by the store.  The language core reads only the
/// variant tag; the payload is an opaque handle chosen by the host, which
/// keeps the actual geometry on its own side of the boundary.
#[derive(Debug, Clone, Copy, PartialEq, Eq, Structural)]
pub enum Model {
    Point3(u64),
    Vertex(u64),
    Edge(u64),
    Wire(u64),
    Face(u64),
    Shell(u64),
    Solid(u64),
    Mesh(u64),
}

impl Model {
    pub fn as_point3(&self) -> (r: Option<u64>)
        ensures
            r == (match *self {
                Model::Point3(h) => Some(h),
                _ => None::<u64>,
            }),
    {
        match self {
            Model::Point3(h) => Some(*h),
            _ => None,
        }
    }

    pub fn as_vertex(&self) -> (r: Option<u64>)
        ensures
            r == (match *self {
                Model::Vertex(h) => Some(h),
                _ => None::<u64>,
            }),
    {
        match self {
            Model::Vertex(h) => Some(*h),
            _ => None,
        }
    }

    pub fn as_edge(&self) -> (r: Option<u64>)
        ensures
            r == (match *self {
                Model::Edge(h) => Some(h),
                _ => None::<u64>,
            }),
    {
        match self {
            Model::Edge(h) => Some(*h),
            _ => None,
        }
    }

    pub fn as_wire(&self) -> (r: Option<u64>)
        ensures
            r == (match *self {
                Model::Wire(h) => Some(h),
                _ => None::<u64>,
            }),
    {
        match self {
            Model::Wire(h) => Some(*h),
            _ => None,
        }
    }

    pub fn as_face(&self) -> (r: Option<u64>)
        ensures
            r == (match *self {
                Model::Face(h) => Some(h),
                _ => None::<u64>,
            }),
    {
        match self {
            Model::Face(h) => Some(*h),
            _ => None,
        }
    }

    pub fn as_shell(&self) -> (r: Option<u64>)
        ensures
            r == (match *self {
                Model::Shell(h) => Some(h),
                _ => None::<u64>,
            }),
    {
        match self {
            Model::Shell(h) => Some(*h),
            _ => None,
        }
    }

    pub fn as_solid(&self) -> (r: Option<u64>)
        ensures
            r == (match *self {
                Model::Solid(h) => Some(h),
                _ => None::<u64>,
            }),
    {
        match self {
            Model::Solid(h) => Some(*h),
            _ => None,
        }
    }

    pub fn as_mesh(&self) -> (r: Option<u64>)
        ensures
            r == (match *self {
                Model::Mesh(h) => Some(h),
                _ => None::<u64>,
            }),
    {
        match self {
            Model::Mesh(h) => Some(*h),
            _ => None,
        }
    }
}

/// Allocates the next object identifier: identifiers increase and are never
/// reused while the counter lives.
pub fn gen_id(counter: &mut usize) -> (id: usize)
    requires
        *old(counter) < usize::MAX,
    ensures
        id == *old(counter),
        *final(counter) == *old(counter) + 1,
{
    let id = *counter;
    *counter = *counter + 1;
    id
}

/// The mathematical model of one scope frame.
#[verifier::ext_equal]
pub struct FrameV {
    pub parent: Option<usize>,
    pub vars: Map<Seq<char>, ExprV>,
    pub depth: usize,
    pub models: Map<ModelId, Model>,
    pub preview_list: Seq<ModelId>,
}

/// The mathematical model of the whole environment tree.
#[verifier::ext_equal]
pub struct EnvV {
    pub frames: Seq<FrameV>,
    pub next_id: usize,
}

/// One scope frame: bindings, a local model store, and the preview worklist.
/// Bindings may shadow; the latest entry for a name wins.
struct Frame {
    parent: Option<usize>,
    vars: Vec<(String, Arc<Expr>)>,
    depth: usize,
    models: Vec<(ModelId, Model)>,
    preview_list: Vec<ModelId>,
}

/// The environment arena.
pub struct Env {
    frames: Vec<Frame>,
    next_id: usize,
}

/// The bindings of a frame as a map; the latest entry for a name wins.
pub open spec fn vars_map(s: Seq<(String, Arc<Expr>)>) -> Map<Seq<char>, ExprV>
    decreases s,
{
    if s.len() == 0 {
        Map::empty()
    } else {
        vars_map(s.drop_last()).insert(s.last().0@, expr_view(*s.last().1))
    }
}

/// The model store of a frame as a map; the latest entry for an id wins.
pub open spec fn models_map(s: Seq<(ModelId, Model)>) -> Map<ModelId, Model>
    decreases s,
{
    if s.len() == 0 {
        Map::empty()
    } else {
        models_map(s.drop_last()).insert(s.last().0, s.last().1)
    }
}

impl View for Frame {
    type V = FrameV;

    closed spec fn view(&self) -> FrameV {
        FrameV {
            parent: self.parent,
            vars: vars_map(self.vars@),
            depth: self.depth,
            models: models_map(self.models@),
            preview_list: self.preview_list@,
        }
    }
}

impl View for Env {
    type V = EnvV;

    closed spec fn view(&self) -> EnvV {
        EnvV {
            frames: Seq::new(self.frames@.len(), |i: int| self.frames@[i]@),
            next_id: self.next_id,
        }
    }
}

/// Well-formedness of the environment model: parents point strictly
/// backwards, depths count the parent chain, and every stored model id was
/// allocated before the counter's current value.
pub open spec fn env_wf(env: EnvV) -> bool {
    forall|f: int|
        0 <= f < env.frames.len() ==> {
            &&& match (#[trigger] env.frames[f]).parent {
                Some(p) => p < f && env.frames[f].depth == env.frames[p as int].depth + 1,
                None => env.frames[f].depth == 0,
            }
            &&& env.frames[f].depth <= f
            &&& forall|id: ModelId| #[trigger]
                env.frames[f].models.contains_key(id) ==> id < env.next_id
        }
}

/// A binding lookup: the frame's own bindings first, then the parent chain.
pub open spec fn lookup(env: EnvV, frame: int, name: Seq<char>) -> Option<ExprV>
    decreases frame,
{
    if 0 <= frame < env.frames.len() {
        let fr = env.frames[frame];
        if fr.vars.contains_key(name) {
            Some(fr.vars[name])
        } else {
            match fr.parent {
                Some(p) => if p < frame {
                    lookup(env, p as int, name)
                } else {
                    None
                },
                None => None,
            }
        }
    } else {
        None
    }
}

/// A model lookup: the frame's own store first, then the parent chain.
pub open spec fn lookup_model(env: EnvV, frame: int, id: ModelId) -> Option<Model>
    decreases frame,
{
    if 0 <= frame < env.frames.len() {
        let fr = env.frames[frame];
        if fr.models.contains_key(id) {
            Some(fr.models[id])
        } else {
            match fr.parent {
                Some(p) => if p < frame {
                    lookup_model(env, p as int, id)
                } else {
                    None
                },
                None => None,
            }
        }
    } else {
        None
    }
}

/// Searches the bindings of `vars` up to index `i`, latest entry first.
fn assoc_get_var(vars: &Vec<(String, Arc<Expr>)>, i: usize, name: &str) -> (r: Option<Arc<Expr>>)
    requires
        i <= vars@.len(),
    ensures
        match r {
            Some(v) => vars_map(vars@.subrange(0, i as int)).contains_key(name@) && vars_map(
                vars@.subrange(0, i as int),
            )[name@] == v@,
            None => !vars_map(vars@.subrange(0, i as int)).contains_key(name@),
        },
    decreases i,
{
    if i == 0 {
        proof {
            assert(vars@.subrange(0, 0) =~= Seq::<(String, Arc<Expr>)>::empty());
        }
        None
    } else {
        proof {
            assert(vars@.subrange(0, i as int).drop_last() =~= vars@.subrange(0, i - 1 as int));
            assert(vars@.subrange(0, i as int).last() == vars@[i - 1 as int]);
        }
        let entry = &vars[i - 1];
        if str_eq(entry.0.as_str(), name) {
            Some(arc_clone(&entry.1))
        } else {
            assoc_get_var(vars, i - 1, name)
        }
    }
}

/// Searches the model store of `models` up to index `i`, latest entry first.
fn assoc_get_model(models: &Vec<(ModelId, Model)>, i: usize, id: ModelId) -> (r: Option<Model>)
    requires
        i <= models@.len(),
    ensures
        match r {
            Some(m) => models_map(models@.subrange(0, i as int)).contains_key(id) && models_map(
                models@.subrange(0, i as int),
            )[id] == m,
            None => !models_map(models@.subrange(0, i as int)).contains_key(id),
        },
    decreases i,
{
    if i == 0 {
        proof {
            assert(models@.subrange(0, 0) =~= Seq::<(ModelId, Model)>::empty());
        }
        None
    } else {
        proof {
            assert(models@.subrange(0, i as int).drop_last() =~= models@.subrange(
                0,
                i - 1 as int,
            ));
            assert(models@.subrange(0, i as int).last() == models@[i - 1 as int]);
        }
        let entry = &models[i - 1];
        if entry.0 == id {
            Some(entry.1)
        } else {
            assoc_get_model(models, i - 1, id)
        }
    }
}

/// No name is bound twice in one frame's binding vector.
pub open spec fn vars_distinct(s: Seq<(String, Arc<Expr>)>) -> bool {
    forall|i: int, j: int| 0 <= i < j < s.len() ==> s[i].0@ != s[j].0@
}

/// No id occurs twice in one frame's model store.
pub open spec fn models_distinct(s: Seq<(ModelId, Model)>) -> bool {
    forall|i: int, j: int| 0 <= i < j < s.len() ==> s[i].0 != s[j].0
}

/// With distinct names, every entry of the vector is in the map.
pub proof fn lemma_vars_map_entries(s: Seq<(String, Arc<Expr>)>)
    requires
        vars_distinct(s),
    ensures
        forall|i: int|
            0 <= i < s.len() ==> vars_map(s).contains_key(#[trigger] s[i].0@) && vars_map(
                s,
            )[s[i].0@] == expr_view(*s[i].1),
        forall|n: Seq<char>|
            vars_map(s).contains_key(n) ==> exists|i: int| 0 <= i < s.len() && #[trigger] s[i].0@
                == n,
    decreases s,
{
    if s.len() > 0 {
        assert(vars_distinct(s.drop_last()));
        lemma_vars_map_entries(s.drop_last());
        assert(forall|i: int| 0 <= i < s.len() - 1 ==> s.drop_last()[i] == s[i]);
        assert(forall|n: Seq<char>|
            vars_map(s).contains_key(n) && n != s.last().0@ ==> vars_map(s.drop_last()).contains_key(
                n,
            ));
    }
}

/// With distinct ids, every entry of the store vector is in the map.
pub proof fn lemma_models_map_entries(s: Seq<(ModelId, Model)>)
    requires
        models_distinct(s),
    ensures
        forall|i: int|
            0 <= i < s.len() ==> models_map(s).contains_key(#[trigger] s[i].0) && models_map(
                s,
            )[s[i].0] == s[i].1,
        forall|id: ModelId|
            models_map(s).contains_key(id) ==> exists|i: int| 0 <= i < s.len() && #[trigger] s[i].0
                == id,
    decreases s,
{
    if s.len() > 0 {
        assert(models_distinct(s.drop_last()));
        lemma_models_map_entries(s.drop_last());
        assert(forall|i: int| 0 <= i < s.len() - 1 ==> s.drop_last()[i] == s[i]);
        assert(forall|id: ModelId|
            models_map(s).contains_key(id) && id != s.last().0 ==> models_map(
                s.drop_last(),
            ).contains_key(id));
    }
}

/// Replacing the entry that holds a name is, on the map, inserting the name.
proof fn lemma_vars_map_update(s: Seq<(String, Arc<Expr>)>, idx: int, name: String, value: Arc<
    Expr,
>)
    requires
        vars_distinct(s),
        0 <= idx < s.len(),
        s[idx].0@ == name@,
    ensures
        vars_map(s.update(idx, (name, value))) == vars_map(s).insert(name@, expr_view(*value)),
    decreases s,
{
    let t = s.update(idx, (name, value));
    if idx == s.len() - 1 {
        assert(t.drop_last() =~= s.drop_last());
        assert(t.last() == (name, value));
        assert(vars_map(t) == vars_map(s.drop_last()).insert(name@, expr_view(*value)));
        assert(vars_map(s.drop_last()).insert(s.last().0@, expr_view(*s.last().1)).insert(
            name@,
            expr_view(*value),
        ) =~= vars_map(s.drop_last()).insert(name@, expr_view(*value)));
    } else {
        assert(vars_distinct(s.drop_last()));
        assert(s.drop_last()[idx] == s[idx]);
        lemma_vars_map_update(s.drop_last(), idx, name, value);
        assert(t.drop_last() =~= s.drop_last().update(idx, (name, value)));
        assert(t.last() == s.last());
        assert(s.last().0@ != name@);
        assert(vars_map(s.drop_last()).insert(name@, expr_view(*value)).insert(
            s.last().0@,
            expr_view(*s.last().1),
        ) =~= vars_map(s.drop_last()).insert(s.last().0@, expr_view(*s.last().1)).insert(
            name@,
            expr_view(*value),
        ));
    }
}

/// The entries of the store whose id the collector found reachable, in
/// order.
pub open spec fn filter_models(s: Seq<(ModelId, Model)>, keep: Set<ModelId>) -> Seq<
    (ModelId, Model),
>
    decreases s,
{
    if s.len() == 0 {
        Seq::empty()
    } else {
        let rest = filter_models(s.drop_last(), keep);
        if keep.contains(s.last().0) {
            rest.push(s.last())
        } else {
            rest
        }
    }
}

proof fn lemma_filter_models(s: Seq<(ModelId, Model)>, keep: Set<ModelId>)
    ensures
        models_map(filter_models(s, keep)) == models_map(s).restrict(keep),
        models_distinct(s) ==> models_distinct(filter_models(s, keep)),
        forall|i: int|
            0 <= i < filter_models(s, keep).len() ==> exists|j: int|
                0 <= j < s.len() && #[trigger] filter_models(s, keep)[i] == s[j],
    decreases s,
{
    if s.len() == 0 {
        assert(models_map(filter_models(s, keep)) =~= models_map(s).restrict(keep));
    } else {
        assert(models_distinct(s) ==> models_distinct(s.drop_last()));
        lemma_filter_models(s.drop_last(), keep);
        let rest = filter_models(s.drop_last(), keep);
        assert(forall|i: int| 0 <= i < s.len() - 1 ==> s.drop_last()[i] == s[i]);
        if keep.contains(s.last().0) {
            assert(rest.push(s.last()).drop_last() =~= rest);
            assert(rest.push(s.last()).last() == s.last());
            assert(models_map(filter_models(s, keep)) == models_map(rest).insert(
                s.last().0,
                s.last().1,
            ));
            assert(models_map(rest).insert(s.last().0, s.last().1) =~= models_map(s).restrict(
                keep,
            ));
            if models_distinct(s) {
                assert(forall|i: int| 0 <= i < rest.len() ==> (#[trigger] rest[i]).0
                    != s.last().0) by {
                    assert(forall|i: int|
                        0 <= i < rest.len() ==> exists|j: int|
                            0 <= j < s.drop_last().len() && #[trigger] rest[i] == s.drop_last()[j]);
                }
                assert(models_distinct(filter_models(s, keep)));
            }
        } else {
            assert(models_map(rest) =~= models_map(s).restrict(keep));
        }
    }
}

/// `env` with `name` bound to `value` in frame `frame` alone.
pub open spec fn env_insert(env: EnvV, frame: int, name: Seq<char>, value: ExprV) -> EnvV {
    EnvV {
        frames: env.frames.update(
            frame,
            FrameV { vars: env.frames[frame].vars.insert(name, value), ..env.frames[frame] },
        ),
        ..env
    }
}

/// `env` with a new empty child of `parent` appended.
pub open spec fn env_push_child(env: EnvV, parent: int) -> EnvV {
    EnvV {
        frames: env.frames.push(
            FrameV {
                parent: Some(parent as usize),
                vars: Map::empty(),
                depth: (env.frames[parent].depth + 1) as usize,
                models: Map::empty(),
                preview_list: Seq::empty(),
            },
        ),
        ..env
    }
}

impl Env {
    /// The representation side of the invariant: each frame's binding and
    /// store vectors hold one entry per key, and every stored id was
    /// allocated before the counter's current value.
    pub closed spec fn rep_inv(&self) -> bool {
        forall|f: int|
            0 <= f < self.frames@.len() ==> {
                &&& vars_distinct((#[trigger] self.frames@[f]).vars@)
                &&& models_distinct(self.frames@[f].models@)
                &&& forall|k: int|
                    0 <= k < self.frames@[f].models@.len() ==> (
                    #[trigger] self.frames@[f].models@[k]).0 < self.next_id
            }
    }

    /// The whole invariant: the view is well-formed and the representation
    /// matches it.
    pub open spec fn inv(&self) -> bool {
        env_wf(self@) && self.rep_inv()
    }

    pub open spec fn frame_count(&self) -> nat {
        self@.frames.len()
    }

    /// A fresh environment of one root frame and a fresh id counter.
    pub fn new() -> (r: Env)
        ensures
            r.inv(),
            r@.frames.len() == 1,
            r@.frames[0] == (FrameV {
                parent: None,
                vars: Map::<Seq<char>, ExprV>::empty(),
                depth: 0,
                models: Map::<ModelId, Model>::empty(),
                preview_list: Seq::<ModelId>::empty(),
            }),
            r@.next_id == 1,
    {
        let mut frames: Vec<Frame> = Vec::new();
        frames.push(
            Frame {
                parent: None,
                vars: Vec::new(),
                depth: 0,
                models: Vec::new(),
                preview_list: Vec::new(),
            },
        );
        let r = Env { frames, next_id: 1 };
        proof {
            assert(r@.frames[0] =~= FrameV {
                parent: None,
                vars: Map::<Seq<char>, ExprV>::empty(),
                depth: 0,
                models: Map::<ModelId, Model>::empty(),
                preview_list: Seq::<ModelId>::empty(),
            });
        }
        r
    }

    /// A new empty frame whose parent is `parent`; returns its index.
    pub fn make_child(&mut self, parent: usize) -> (child: usize)
        requires
            old(self).inv(),
            parent < old(self)@.frames.len(),
        ensures
            final(self).inv(),
            child == old(self)@.frames.len(),
            final(self)@ == env_push_child(old(self)@, parent as int),
    {
        let child = self.frames.len();
        let depth = self.frames[parent].depth;
        proof {
            assert(self@.frames[parent as int].depth <= parent as int);
        }
        self.frames.push(
            Frame {
                parent: Some(parent),
                vars: Vec::new(),
                depth: depth + 1,
                models: Vec::new(),
                preview_list: Vec::new(),
            },
        );
        proof {
            let oldv = old(self)@;
            let newv = self@;
            assert(newv.frames[child as int] =~= FrameV {
                parent: Some(parent),
                vars: Map::<Seq<char>, ExprV>::empty(),
                depth: (depth + 1) as usize,
                models: Map::<ModelId, Model>::empty(),
                preview_list: Seq::<ModelId>::empty(),
            });
            assert(forall|i: int| 0 <= i < child ==> newv.frames[i] == oldv.frames[i]);
            assert(env_wf(newv));
            assert(self.rep_inv());
            assert(self@ =~~= env_push_child(old(self)@, parent as int));
        }
        child
    }

    /// Binds `name` to `value` in frame `frame` alone, shadowing any earlier
    /// binding of the name visible there.
    pub fn insert(&mut self, frame: usize, name: String, value: Arc<Expr>)
        requires
            old(self).inv(),
            frame < old(self)@.frames.len(),
        ensures
            final(self).inv(),
            final(self)@ == env_insert(old(self)@, frame as int, name@, value@),
    {
        let ghost oldvars = self.frames@[frame as int].vars@;
        let n = self.frames[frame].vars.len();
        let mut idx: usize = 0;
        let mut found = false;
        while idx < n && !found
            invariant
                n == self.frames@[frame as int].vars@.len(),
                frame < self.frames@.len(),
                idx <= n,
                forall|j: int|
                    0 <= j < idx ==> (#[trigger] self.frames@[frame as int].vars@[j]).0@ != name@,
                found ==> idx < n && self.frames@[frame as int].vars@[idx as int].0@ == name@,
                self == old(self),
            decreases n - idx + (if found { 0int } else { 1int }),
        {
            if crate::strings::str_eq(self.frames[frame].vars[idx].0.as_str(), name.as_str()) {
                found = true;
            } else {
                idx = idx + 1;
            }
        }
        if found {
            proof {
                assert(vars_distinct(oldvars));
            }
            let ghost gname = name;
            let ghost gvalue = value;
            let fr = &mut self.frames[frame];
            fr.vars[idx] = (name, value);
            proof {
                assert(self.frames@[frame as int].vars@ =~= oldvars.update(
                    idx as int,
                    (gname, gvalue),
                ));
                lemma_vars_map_update(oldvars, idx as int, gname, gvalue);
                assert(vars_distinct(self.frames@[frame as int].vars@));
            }
        } else {
            self.frames[frame].vars.push((name, value));
            proof {
                let newvars = self.frames@[frame as int].vars@;
                assert(newvars.drop_last() =~= oldvars);
            }
        }
        proof {
            assert(forall|i: int|
                0 <= i < self@.frames.len() && i != frame ==> self@.frames[i] == old(
                    self,
                )@.frames[i]);
            assert(self@.frames[frame as int] =~= FrameV {
                vars: old(self)@.frames[frame as int].vars.insert(name@, value@),
                ..old(self)@.frames[frame as int]
            });
            assert(self@.frames =~= old(self)@.frames.update(
                frame as int,
                FrameV {
                    vars: old(self)@.frames[frame as int].vars.insert(name@, value@),
                    ..old(self)@.frames[frame as int]
                },
            ));
            assert(env_wf(self@));
            assert(self.rep_inv());
            assert(self@ =~~= env_insert(old(self)@, frame as int, name@, value@));
        }
    }

    /// Looks `name` up in frame `frame`, then along the parent chain.
    pub fn get(&self, frame: usize, name: &str) -> (r: Option<Arc<Expr>>)
        requires
            self.inv(),
            frame < self@.frames.len(),
        ensures
            match r {
                Some(v) => lookup(self@, frame as int, name@) == Some(v@),
                None => lookup(self@, frame as int, name@) is None,
            },
        decreases frame,
    {
        let fr = &self.frames[frame];
        let local = assoc_get_var(&fr.vars, fr.vars.len(), name);
        proof {
            assert(fr.vars@.subrange(0, fr.vars@.len() as int) =~= fr.vars@);
        }
        match local {
            Some(v) => Some(v),
            None => {
                match fr.parent {
                    Some(p) => {
                        proof {
                            assert(self@.frames[frame as int].parent == Some(p));
                        }
                        self.get(p, name)
                    },
                    None => None,
                }
            },
        }
    }

    /// Stores a model object in frame `frame` under a fresh id, and returns
    /// the id.
    pub fn insert_model(&mut self, frame: usize, model: Model) -> (id: ModelId)
        requires
            old(self).inv(),
            frame < old(self)@.frames.len(),
            old(self)@.next_id < usize::MAX,
        ensures
            final(self).inv(),
            id == old(self)@.next_id,
            final(self)@.frames =~= old(self)@.frames.update(
                frame as int,
                FrameV {
                    models: old(self)@.frames[frame as int].models.insert(id, model),
                    ..old(self)@.frames[frame as int]
                },
            ),
            final(self)@.next_id == old(self)@.next_id + 1,
    {
        let id = gen_id(&mut self.next_id);
        let ghost oldmodels = self.frames@[frame as int].models@;
        self.frames[frame].models.push((id, model));
        proof {
            let newmodels = self.frames@[frame as int].models@;
            assert(newmodels.drop_last() =~= oldmodels);
            assert(forall|i: int|
                0 <= i < self@.frames.len() && i != frame ==> self@.frames[i] == old(
                    self,
                )@.frames[i]);
            assert(self@.frames[frame as int] =~= FrameV {
                models: old(self)@.frames[frame as int].models.insert(id, model),
                ..old(self)@.frames[frame as int]
            });
            assert(self@.frames =~= old(self)@.frames.update(
                frame as int,
                FrameV {
                    models: old(self)@.frames[frame as int].models.insert(id, model),
                    ..old(self)@.frames[frame as int]
                },
            ));
            assert(env_wf(self@));
            assert(forall|k: int|
                0 <= k < self.frames@[frame as int].models@.len() - 1 ==> (
                #[trigger] self.frames@[frame as int].models@[k]) == oldmodels[k]);
            assert(self.rep_inv());
        }
        id
    }

    /// Looks a model id up in frame `frame`, then along the parent chain.
    /// Absence is an ordinary outcome: a swept id is simply not found.
    pub fn get_model(&self, frame: usize, id: ModelId) -> (r: Option<Model>)
        requires
            self.inv(),
            frame < self@.frames.len(),
        ensures
            r == lookup_model(self@, frame as int, id),
        decreases frame,
    {
        let fr = &self.frames[frame];
        let local = assoc_get_model(&fr.models, fr.models.len(), id);
        proof {
            assert(fr.models@.subrange(0, fr.models@.len() as int) =~= fr.models@);
        }
        match local {
            Some(m) => Some(m),
            None => {
                match fr.parent {
                    Some(p) => {
                        proof {
                            assert(self@.frames[frame as int].parent == Some(p));
                        }
                        self.get_model(p, id)
                    },
                    None => None,
                }
            },
        }
    }

    /// Appends an id to frame `frame`'s preview worklist; order is kept and
    /// duplicates are allowed.
    pub fn insert_preview_list(&mut self, frame: usize, id: ModelId)
        requires
            old(self).inv(),
            frame < old(self)@.frames.len(),
        ensures
            final(self).inv(),
            final(self)@.frames =~= old(self)@.frames.update(
                frame as int,
                FrameV {
                    preview_list: old(self)@.frames[frame as int].preview_list.push(id),
                    ..old(self)@.frames[frame as int]
                },
            ),
            final(self)@.next_id == old(self)@.next_id,
    {
        self.frames[frame].preview_list.push(id);
        proof {
            assert(forall|i: int|
                0 <= i < self@.frames.len() && i != frame ==> self@.frames[i] == old(
                    self,
                )@.frames[i]);
            assert(self@.frames[frame as int] =~= FrameV {
                preview_list: old(self)@.frames[frame as int].preview_list.push(id),
                ..old(self)@.frames[frame as int]
            });
            assert(self@.frames =~= old(self)@.frames.update(
                frame as int,
                FrameV {
                    preview_list: old(self)@.frames[frame as int].preview_list.push(id),
                    ..old(self)@.frames[frame as int]
                },
            ));
            assert(env_wf(self@));
            assert(self.rep_inv());
        }
    }

    /// Frame `frame`'s preview worklist, in insertion order.
    pub fn preview_list(&self, frame: usize) -> (r: Vec<ModelId>)
        requires
            frame < self@.frames.len(),
        ensures
            r@ == self@.frames[frame as int].preview_list,
    {
        let src = &self.frames[frame].preview_list;
        let mut out: Vec<ModelId> = Vec::new();
        let mut k: usize = 0;
        while k < src.len()
            invariant
                k <= src@.len(),
                out@ == src@.subrange(0, k as int),
            decreases src@.len() - k,
        {
            out.push(src[k]);
            proof {
                assert(out@ =~= src@.subrange(0, k + 1 as int));
            }
            k = k + 1;
        }
        proof {
            assert(src@.subrange(0, src@.len() as int) =~= src@);
        }
        out
    }

    /// How many frames the arena holds.
    pub fn num_frames(&self) -> (n: usize)
        ensures
            n == self@.frames.len(),
    {
        self.frames.len()
    }

    /// The id the store will allocate next; callers check it is below the
    /// machine limit before storing a model.
    pub fn next_model_id(&self) -> (n: usize)
        ensures
            n == self@.next_id,
    {
        self.next_id
    }

    /// The parent of frame `frame`, if it has one.
    pub fn parent(&self, frame: usize) -> (r: Option<usize>)
        requires
            frame < self@.frames.len(),
        ensures
            r == self@.frames[frame as int].parent,
    {
        self.frames[frame].parent
    }

    /// The bindings of frame `frame`, latest first, as pairs of name and
    /// value.
    pub fn vars(&self, frame: usize) -> (r: &Vec<(String, Arc<Expr>)>)
        requires
            self.inv(),
            frame < self@.frames.len(),
        ensures
            vars_map(r@) == self@.frames[frame as int].vars,
            vars_distinct(r@),
    {
        &self.frames[frame].vars
    }


    /// The mesh entries of frame `frame`'s own store: each stored mesh id
    /// with its handle, each exactly once.
    pub fn polys(&self, frame: usize) -> (r: Vec<(ModelId, u64)>)
        requires
            self.inv(),
            frame < self@.frames.len(),
        ensures
            forall|i: int|
                0 <= i < r@.len() ==> self@.frames[frame as int].models.contains_key(
                    (#[trigger] r@[i]).0,
                ) && self@.frames[frame as int].models[r@[i].0] == Model::Mesh(r@[i].1),
            forall|id: ModelId| #[trigger]
                self@.frames[frame as int].models.contains_key(id) ==> (self@.frames[
                    frame as int
                ].models[id] matches Model::Mesh(h) ==> exists|i: int|
                    0 <= i < r@.len() && #[trigger] r@[i] == (id, h)),
            forall|i: int, j: int| 0 <= i < j < r@.len() ==> r@[i].0 != r@[j].0,
    {
        let models = &self.frames[frame].models;
        proof {
            lemma_models_map_entries(models@);
        }
        let mut out: Vec<(ModelId, u64)> = Vec::new();
        let mut k: usize = 0;
        while k < models.len()
            invariant
                k <= models@.len(),
                models_distinct(models@),
                models_map(models@) == self@.frames[frame as int].models,
                forall|i: int|
                    0 <= i < models@.len() ==> models_map(models@).contains_key(
                        (#[trigger] models@[i]).0,
                    ) && models_map(models@)[models@[i].0] == models@[i].1,
                forall|i: int|
                    0 <= i < out@.len() ==> exists|j: int|
                        0 <= j < k && models@[j].0 == (#[trigger] out@[i]).0 && models@[j].1
                            == Model::Mesh(out@[i].1),
                forall|j: int|
                    0 <= j < k ==> ((#[trigger] models@[j]).1 matches Model::Mesh(h) ==> exists|
                    i: int|
                        0 <= i < out@.len() && #[trigger] out@[i] == (models@[j].0, h)),
                forall|i1: int, i2: int| 0 <= i1 < i2 < out@.len() ==> out@[i1].0 != out@[i2].0,
                forall|i: int, j: int|
                    0 <= i < out@.len() && 0 <= j < k ==> ((#[trigger] out@[i]).0 == (
                    #[trigger] models@[j]).0 ==> models@[j].1 is Mesh),
            decreases models@.len() - k,
        {
            let entry = &models[k];
            let ghost prevout = out@;
            match entry.1 {
                Model::Mesh(h) => {
                    out.push((entry.0, h));
                    proof {
                        assert(out@[out@.len() - 1] == (models@[k as int].0, h));
                        assert(models@[k as int].1 == Model::Mesh(h));
                    }
                },
                _ => {},
            }
            proof {
                assert(forall|i: int| 0 <= i < prevout.len() ==> out@[i] == prevout[i]);
            }
            k = k + 1;
        }
        proof {
            assert(forall|id: ModelId| #[trigger]
                models_map(models@).contains_key(id) ==> (models_map(
                    models@,
                )[id] matches Model::Mesh(h) ==> exists|j: int|
                    0 <= j < models@.len() && (#[trigger] models@[j]) == (id, Model::Mesh(h))));
        }
        out
    }

    /// Keeps only the entries of frame `frame`'s store whose id is in
    /// `keep`; everything else is dropped.
    pub fn retain_polys(&mut self, frame: usize, keep: &Vec<ModelId>)
        requires
            old(self).inv(),
            frame < old(self)@.frames.len(),
        ensures
            final(self).inv(),
            final(self)@.frames =~= old(self)@.frames.update(
                frame as int,
                FrameV {
                    models: old(self)@.frames[frame as int].models.restrict(keep@.to_set()),
                    ..old(self)@.frames[frame as int]
                },
            ),
            final(self)@.next_id == old(self)@.next_id,
    {
        let ghost oldmodels = self.frames@[frame as int].models@;
        let ghost keepset = keep@.to_set();
        let n = self.frames[frame].models.len();
        let mut out: Vec<(ModelId, Model)> = Vec::new();
        let mut k: usize = 0;
        proof {
            assert(oldmodels.subrange(0, 0) =~= Seq::<(ModelId, Model)>::empty());
            assert(filter_models(oldmodels.subrange(0, 0), keepset) =~= Seq::<
                (ModelId, Model),
            >::empty());
        }
        while k < n
            invariant
                k <= n == self.frames@[frame as int].models@.len(),
                frame < self.frames@.len(),
                self == old(self),
                oldmodels == self.frames@[frame as int].models@,
                keepset == keep@.to_set(),
                out@ == filter_models(oldmodels.subrange(0, k as int), keepset),
            decreases n - k,
        {
            let entry = (self.frames[frame].models[k].0, self.frames[frame].models[k].1);
            let mut hit = false;
            let mut j: usize = 0;
            while j < keep.len() && !hit
                invariant
                    j <= keep@.len(),
                    forall|m: int| 0 <= m < j ==> keep@[m] != entry.0,
                    hit ==> keep@.contains(entry.0),
                decreases keep@.len() - j + (if hit { 0int } else { 1int }),
            {
                if keep[j] == entry.0 {
                    hit = true;
                } else {
                    j = j + 1;
                }
            }
            proof {
                assert(hit == keepset.contains(entry.0));
                assert(oldmodels.subrange(0, k + 1 as int).drop_last() =~= oldmodels.subrange(
                    0,
                    k as int,
                ));
                assert(oldmodels.subrange(0, k + 1 as int).last() == oldmodels[k as int]);
            }
            if hit {
                out.push(entry);
            }
            k = k + 1;
        }
        proof {
            assert(oldmodels.subrange(0, n as int) =~= oldmodels);
            lemma_filter_models(oldmodels, keepset);
            assert(models_distinct(oldmodels));
        }
        let fr = &mut self.frames[frame];
        fr.models = out;
        proof {
            assert(forall|i: int|
                0 <= i < self@.frames.len() && i != frame ==> self@.frames[i] == old(
                    self,
                )@.frames[i]);
            assert(self@.frames[frame as int] =~= FrameV {
                models: old(self)@.frames[frame as int].models.restrict(keep@.to_set()),
                ..old(self)@.frames[frame as int]
            });
            assert(self@.frames =~= old(self)@.frames.update(
                frame as int,
                FrameV {
                    models: old(self)@.frames[frame as int].models.restrict(keep@.to_set()),
                    ..old(self)@.frames[frame as int]
                },
            ));
            assert(env_wf(self@)) by {
                assert(forall|f: int, id: ModelId|
                    0 <= f < self@.frames.len() && #[trigger] self@.frames[f].models.contains_key(
                        id,
                    ) ==> id < self@.next_id) by {
                    assert(forall|id: ModelId| #[trigger]
                        self@.frames[frame as int].models.contains_key(id) ==> old(
                            self,
                        )@.frames[frame as int].models.contains_key(id));
                }
            }
            assert(self.rep_inv()) by {
                let newmodels = self.frames@[frame as int].models@;
                assert(forall|i: int|
                    0 <= i < newmodels.len() ==> exists|j: int|
                        0 <= j < oldmodels.len() && #[trigger] newmodels[i] == oldmodels[j]);
            }
        }
    }

    /// Removes every binding of frame `frame`.  This is the reset the host
    /// performs before re-evaluating a script.
    pub fn clear_vars(&mut self, frame: usize)
        requires
            old(self).inv(),
            frame < old(self)@.frames.len(),
        ensures
            final(self).inv(),
            final(self)@.frames =~= old(self)@.frames.update(
                frame as int,
                FrameV {
                    vars: Map::<Seq<char>, ExprV>::empty(),
                    ..old(self)@.frames[frame as int]
                },
            ),
            final(self)@.next_id == old(self)@.next_id,
    {
        self.frames[frame].vars.clear();
        proof {
            assert(forall|i: int|
                0 <= i < self@.frames.len() && i != frame ==> self@.frames[i] == old(
                    self,
                )@.frames[i]);
            assert(self@.frames[frame as int] =~= FrameV {
                vars: Map::<Seq<char>, ExprV>::empty(),
                ..old(self)@.frames[frame as int]
            });
            assert(self@.frames =~= old(self)@.frames.update(
                frame as int,
                FrameV {
                    vars: Map::<Seq<char>, ExprV>::empty(),
                    ..old(self)@.frames[frame as int]
                },
            ));
            assert(env_wf(self@));
            assert(self.rep_inv());
        }
    }
}

} // verus!
