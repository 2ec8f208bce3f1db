//! A small Lisp-family scripting language for parametric CAD construction:
//! tokenizer, parser, lexical environments with an object store, evaluator
//! (special forms, closures, macros, quoting), and a mark-and-sweep collector
//! for the model objects the host hands to scripts.
use vstd::prelude::*;

pub mod env;
pub mod eval;
pub mod expr;
pub mod extract;
pub mod gc;
pub mod parser;
pub mod strings;
pub mod value;

verus! {

use crate::env::{Env, Model, ModelId};
use crate::eval::{default_env_v, spec_eval_exprs, ErrV, EvalError};
use crate::expr::ExprV;
use crate::parser::{spec_parse_file, ParseError};
use crate::value::{spec_cast, Evaled};

/// Raw STL file contents as handed to or received from the host.
pub struct StlBytes {
    pub bytes: Vec<u8>,
}

/// A command from the front end to the host.
pub enum ToTauriCmdType {
    RequestCode(String),
    RequestEval,
}

/// A reply from the host to the front end.
pub enum FromTauriCmdType {
    Code(String),
    EvalOk(Evaled),
    EvalError(String),
}

/// The ways a whole run fails: the text is rejected, or an expression's
/// evaluation fails.
#[derive(Debug)]
pub enum Error {
    Parse(ParseError),
    Eval(EvalError),
}

/// Parses a whole source text and evaluates it in the given frame.  The
/// summary bundles the last expression's value, the frame's mesh store, and
/// its preview worklist; on a parse failure nothing is evaluated and the
/// environment is untouched.
pub fn run_file(file: &str, env: &mut Env, frame: usize, fuel: u64) -> (r: Result<Evaled, Error>)
    requires
        old(env).inv(),
        frame < old(env)@.frames.len(),
    ensures
        final(env).inv(),
        old(env)@.frames.len() <= final(env)@.frames.len(),
        match spec_parse_file(file@) {
            Err(p) => r matches Err(Error::Parse(pe)) && pe == p && final(env)@ == old(env)@,
            Ok(es) => ({
                let out = spec_eval_exprs(fuel as nat, es, old(env)@, frame as int);
                final(env)@ == out.env && (match r {
                    Ok(ev) => {
                        &&& out.res matches Ok(v) && ev.value@ == spec_cast(v)
                        &&& ev.previews@ == out.env.frames[frame as int].preview_list
                        &&& forall|i: int|
                            0 <= i < ev.polys@.len() ==> out.env.frames[
                                frame as int
                            ].models.contains_key((#[trigger] ev.polys@[i]).0) && out.env.frames[
                                frame as int
                            ].models[ev.polys@[i].0] == Model::Mesh(ev.polys@[i].1)
                        &&& forall|id: ModelId| #[trigger]
                            out.env.frames[frame as int].models.contains_key(id) ==> (
                            out.env.frames[frame as int].models[id] matches Model::Mesh(h)
                                ==> exists|i: int|
                                0 <= i < ev.polys@.len() && #[trigger] ev.polys@[i] == (id, h))
                        },
                    Err(e) => e matches Error::Eval(ee) && out.res == Err::<ExprV, ErrV>(ee@),
                })
            }),
        },
{
    match crate::parser::parse_file(file) {
        Err(p) => Err(Error::Parse(p)),
        Ok(exprs) => {
            proof {
                crate::parser::lemma_program_view(exprs@);
            }
            match crate::eval::eval_exprs(exprs, env, frame, fuel) {
                Ok(ev) => Ok(ev),
                Err(e) => Err(Error::Eval(e)),
            }
        },
    }
}

/// The state the host keeps between front-end commands: the loaded script
/// and the scripting environment.
pub struct SharedState {
    pub code: String,
    pub lisp_env: Env,
}

impl SharedState {
    /// A fresh state: no code loaded, and a default environment.
    pub fn default() -> (r: SharedState)
        ensures
            r.code@ == Seq::<char>::empty(),
            r.lisp_env.inv(),
            r.lisp_env@ == default_env_v(),
    {
        SharedState { code: String::new(), lisp_env: crate::eval::default_env() }
    }
}

/// Resets an environment to the default bindings, discarding everything a
/// previous run defined or stored.
pub fn init_env(e: &mut Env)
    ensures
        final(e).inv(),
        final(e)@ == default_env_v(),
{
    *e = crate::eval::default_env();
}

} // verus!
