//! The evaluator: special forms, closures, macros, quasiquotation, and the
//! built-in primitives.
//!
//! Builtins and special forms are a fixed table, dispatched by the name a
//! `Builtin` or `SpecialForm` value carries: the host cannot register new
//! native primitives into an environment, and an unknown name is an error.
//! Host-side work, geometry above all, stays behind the object-store
//! boundary: the host stores and reads model objects through `Env` and
//! hands scripts their ids.
use std::sync::Arc;
use vstd::prelude::*;

verus! {

use crate::expr::Expr;

/// An argument-count policy for a primitive.
#[derive(Debug, Clone, Copy, PartialEq, Eq, Structural)]
pub enum ArgCount {
    Exact(usize),
    Range(usize, usize),
    AtLeast(usize),
    AtMost(usize),
}

impl ArgCount {
    pub open spec fn spec_contains(self, n: usize) -> bool {
        match self {
            ArgCount::Exact(count) => n == count,
            ArgCount::Range(min, max) => min <= n && n <= max,
            ArgCount::AtLeast(min) => n >= min,
            ArgCount::AtMost(max) => n <= max,
        }
    }

    /// Whether an argument count satisfies the policy.
    pub fn contains(&self, n: &usize) -> (r: bool)
        ensures
            r == self.spec_contains(*n),
    {
        match self {
            ArgCount::Exact(count) => *n == *count,
            ArgCount::Range(min, max) => *n >= *min && *n <= *max,
            ArgCount::AtLeast(min) => *n >= *min,
            ArgCount::AtMost(max) => *n <= *max,
        }
    }
}

/// The ways evaluation fails.  Every evaluator operation returns a result
/// rather than aborting.
#[derive(Debug, PartialEq)]
pub enum EvalError {
    /// A symbol with no binding anywhere in the environment chain.
    UndefinedSymbol { name: String },
    /// A primitive applied to the wrong number of arguments.
    ArityMismatch { expected: ArgCount, got: usize },
    /// The head of an applied list is not a function, special form, or macro.
    NotCallable,
    /// A bare unquote outside any quasiquote.
    UnquoteOutsideQuasiquote,
    /// A malformed `define` form.
    DefineSyntax,
    /// A malformed `defmacro` form.
    DefmacroSyntax,
    /// A malformed `lambda` form.
    LambdaSyntax,
    /// A malformed `let` binding list.
    LetSyntax,
    /// A symbol was required (a parameter name, a binding name).
    NotASymbol,
    /// An arithmetic primitive applied to a non-numeric argument.
    NumericArgs,
    /// A list operation applied to a non-list.
    ExpectedList,
    /// The first element of an empty list was asked for.
    EmptyList,
    /// A number was required.
    ExpectedNumber,
    /// A model reference was required.
    ExpectedModel,
    /// No model object is stored under this identifier.
    ModelNotFound { id: usize },
    /// The stored model object has the wrong variant.
    WrongModelType,
    /// The evaluation depth budget ran out.
    DepthExceeded,
    /// A closure or macro value carrying a frame handle outside the arena.
    InvalidFrame,
    /// A builtin or special-form value whose name no primitive answers to.
    UnknownBuiltin { name: String },
}

/// The mathematical model of an evaluation error.
pub enum ErrV {
    UndefinedSymbol { name: Seq<char> },
    ArityMismatch { expected: ArgCount, got: usize },
    NotCallable,
    UnquoteOutsideQuasiquote,
    DefineSyntax,
    DefmacroSyntax,
    LambdaSyntax,
    LetSyntax,
    NotASymbol,
    NumericArgs,
    ExpectedList,
    EmptyList,
    ExpectedNumber,
    ExpectedModel,
    ModelNotFound { id: usize },
    WrongModelType,
    DepthExceeded,
    InvalidFrame,
    UnknownBuiltin { name: Seq<char> },
}

impl View for EvalError {
    type V = ErrV;

    open spec fn view(&self) -> ErrV {
        match *self {
            EvalError::UndefinedSymbol { name } => ErrV::UndefinedSymbol { name: name@ },
            EvalError::ArityMismatch { expected, got } => ErrV::ArityMismatch { expected, got },
            EvalError::NotCallable => ErrV::NotCallable,
            EvalError::UnquoteOutsideQuasiquote => ErrV::UnquoteOutsideQuasiquote,
            EvalError::DefineSyntax => ErrV::DefineSyntax,
            EvalError::DefmacroSyntax => ErrV::DefmacroSyntax,
            EvalError::LambdaSyntax => ErrV::LambdaSyntax,
            EvalError::LetSyntax => ErrV::LetSyntax,
            EvalError::NotASymbol => ErrV::NotASymbol,
            EvalError::NumericArgs => ErrV::NumericArgs,
            EvalError::ExpectedList => ErrV::ExpectedList,
            EvalError::EmptyList => ErrV::EmptyList,
            EvalError::ExpectedNumber => ErrV::ExpectedNumber,
            EvalError::ExpectedModel => ErrV::ExpectedModel,
            EvalError::ModelNotFound { id } => ErrV::ModelNotFound { id },
            EvalError::WrongModelType => ErrV::WrongModelType,
            EvalError::DepthExceeded => ErrV::DepthExceeded,
            EvalError::InvalidFrame => ErrV::InvalidFrame,
            EvalError::UnknownBuiltin { name } => ErrV::UnknownBuiltin { name: name@ },
        }
    }
}

/// Checks an argument count against a policy, as every primitive does before
/// any work.
pub fn assert_arg_count(args: &[Arc<Expr>], expected: ArgCount) -> (r: Result<(), EvalError>)
    ensures
        r is Ok <==> expected.spec_contains(args@.len() as usize),
        r matches Err(e) ==> e@ == (ErrV::ArityMismatch { expected, got: args@.len() as usize }),
{
    let n = args.len();
    if expected.contains(&n) {
        Ok(())
    } else {
        Err(EvalError::ArityMismatch { expected, got: n })
    }
}

} // verus!

verus! {

use crate::env::{Env, EnvV, env_insert, env_push_child, lookup};
use crate::expr::{arc_clone, ExprV, expr_view, exprs_view, has_newline_v, lemma_exprs_view, location_v};
use crate::parser::spec_double_trunc;

/// What one evaluation step yields: a result and the environment after it.
#[verifier::ext_equal]
pub struct EvalOut {
    pub res: Result<ExprV, ErrV>,
    pub env: EnvV,
}

pub open spec fn is_sym(e: ExprV, n: Seq<char>) -> bool {
    e matches ExprV::Symbol { name, .. } && name == n
}

/// The names of a parameter list; an error if any element is not a symbol.
pub open spec fn spec_symbol_names(args: Seq<ExprV>) -> Result<Seq<Seq<char>>, ErrV>
    decreases args,
{
    if args.len() == 0 {
        Ok(Seq::empty())
    } else {
        match spec_symbol_names(args.drop_last()) {
            Ok(rest) => match args.last() {
                ExprV::Symbol { name, .. } => Ok(rest.push(name)),
                _ => Err(ErrV::NotASymbol),
            },
            Err(e) => Err(e),
        }
    }
}

/// The integer fold of `+`, starting from `acc`; doubles contribute their
/// truncation and addition wraps.
pub open spec fn spec_add_fold(args: Seq<ExprV>, i: int, acc: i64) -> Result<i64, ErrV>
    decreases args.len() - i,
{
    if i >= args.len() || i < 0 {
        Ok(acc)
    } else {
        match args[i] {
            ExprV::Integer { value, .. } => spec_add_fold(args, i + 1, acc.wrapping_add(value)),
            ExprV::Double { text, .. } => spec_add_fold(
                args,
                i + 1,
                acc.wrapping_add(spec_double_trunc(text)),
            ),
            _ => Err(ErrV::NumericArgs),
        }
    }
}

/// The integer fold of `-`: like `+`, subtracting each later argument.
pub open spec fn spec_sub_fold(args: Seq<ExprV>, i: int, acc: i64) -> Result<i64, ErrV>
    decreases args.len() - i,
{
    if i >= args.len() || i < 0 {
        Ok(acc)
    } else {
        match args[i] {
            ExprV::Integer { value, .. } => spec_sub_fold(args, i + 1, acc.wrapping_sub(value)),
            ExprV::Double { text, .. } => spec_sub_fold(
                args,
                i + 1,
                acc.wrapping_sub(spec_double_trunc(text)),
            ),
            _ => Err(ErrV::NumericArgs),
        }
    }
}

/// What `+` returns on evaluated arguments.
pub open spec fn spec_prim_add(args: Seq<ExprV>) -> Result<ExprV, ErrV> {
    if args.len() < 1 {
        Err(ErrV::ArityMismatch { expected: ArgCount::AtLeast(1), got: args.len() as usize })
    } else {
        match spec_add_fold(args, 0, 0i64) {
            Ok(v) => Ok(ExprV::Integer { value: v, location: None, trailing_newline: false }),
            Err(e) => Err(e),
        }
    }
}

/// What `-` returns on evaluated arguments.
pub open spec fn spec_prim_sub(args: Seq<ExprV>) -> Result<ExprV, ErrV> {
    if args.len() < 1 {
        Err(ErrV::ArityMismatch { expected: ArgCount::AtLeast(1), got: args.len() as usize })
    } else {
        let head = match args[0] {
            ExprV::Integer { value, .. } => Ok(value),
            ExprV::Double { text, .. } => Ok(spec_double_trunc(text)),
            _ => Err(ErrV::NumericArgs),
        };
        match head {
            Ok(h) => match spec_sub_fold(args, 1, h) {
                Ok(v) => Ok(ExprV::Integer { value: v, location: None, trailing_newline: false }),
                Err(e) => Err(e),
            },
            Err(e) => Err(e),
        }
    }
}

/// The comparison operators on integers.
#[derive(Clone, Copy, PartialEq, Eq, Structural)]
pub enum CmpOp {
    Lt,
    Gt,
    Le,
    Ge,
}

pub open spec fn bool_sym(b: bool) -> ExprV {
    ExprV::Symbol {
        name: if b {
            "#t"@
        } else {
            "#f"@
        },
        location: None,
        trailing_newline: false,
    }
}

/// What an integer comparison returns on evaluated arguments.
pub open spec fn spec_prim_cmp(op: CmpOp, args: Seq<ExprV>) -> Result<ExprV, ErrV> {
    if args.len() != 2 {
        Err(ErrV::ArityMismatch { expected: ArgCount::Exact(2), got: args.len() as usize })
    } else {
        match (args[0], args[1]) {
            (ExprV::Integer { value: a, .. }, ExprV::Integer { value: b, .. }) => Ok(
                bool_sym(
                    match op {
                        CmpOp::Lt => a < b,
                        CmpOp::Gt => a > b,
                        CmpOp::Le => a <= b,
                        CmpOp::Ge => a >= b,
                    },
                ),
            ),
            _ => Err(ErrV::NumericArgs),
        }
    }
}

/// What a builtin returns, by name, on its evaluated arguments.  Builtins
/// never touch the environment.
pub open spec fn spec_apply_builtin(name: Seq<char>, args: Seq<ExprV>) -> Result<ExprV, ErrV> {
    if name == "+"@ {
        spec_prim_add(args)
    } else if name == "-"@ {
        spec_prim_sub(args)
    } else if name == "<"@ {
        spec_prim_cmp(CmpOp::Lt, args)
    } else if name == ">"@ {
        spec_prim_cmp(CmpOp::Gt, args)
    } else if name == "<="@ {
        spec_prim_cmp(CmpOp::Le, args)
    } else if name == ">="@ {
        spec_prim_cmp(CmpOp::Ge, args)
    } else if name == "list"@ {
        Ok(ExprV::List { elements: args, location: None, trailing_newline: false })
    } else {
        Err(ErrV::UnknownBuiltin { name })
    }
}

// ---------------------------------------------------------------------------
// The specification interpreter.  Each function mirrors one evaluator
// function; `fuel` bounds the depth of the recursion, and every nested step
// spends one unit.
// ---------------------------------------------------------------------------
pub open spec fn spec_eval(fuel: nat, e: ExprV, env: EnvV, frame: int) -> EvalOut
    decreases fuel, 0int,
{
    if fuel == 0 {
        EvalOut { res: Err(ErrV::DepthExceeded), env }
    } else {
        match e {
            ExprV::Symbol { name, .. } => match lookup(env, frame, name) {
                Some(v) => EvalOut { res: Ok(v), env },
                None => EvalOut { res: Err(ErrV::UndefinedSymbol { name }), env },
            },
            ExprV::Integer { value, .. } => EvalOut {
                res: Ok(ExprV::Integer { value, location: None, trailing_newline: false }),
                env,
            },
            ExprV::Double { text, .. } => EvalOut {
                res: Ok(ExprV::Double { text, location: None, trailing_newline: false }),
                env,
            },
            ExprV::String { value, .. } => EvalOut {
                res: Ok(ExprV::String { value, location: None, trailing_newline: false }),
                env,
            },
            ExprV::Model { id, .. } => EvalOut {
                res: Ok(ExprV::Model { id, location: None, trailing_newline: false }),
                env,
            },
            ExprV::List { elements, .. } => spec_eval_list((fuel - 1) as nat, elements, env, frame),
            ExprV::Quote { expr, .. } => EvalOut { res: Ok(*expr), env },
            ExprV::Quasiquote { expr, .. } => spec_eval_quasiquote(
                (fuel - 1) as nat,
                *expr,
                env,
                frame,
                1,
            ),
            ExprV::Unquote { .. } => EvalOut { res: Err(ErrV::UnquoteOutsideQuasiquote), env },
            _ => EvalOut { res: Ok(e), env },
        }
    }
}

pub open spec fn spec_eval_list(fuel: nat, elems: Seq<ExprV>, env: EnvV, frame: int) -> EvalOut
    decreases fuel, 0int,
{
    if fuel == 0 {
        EvalOut { res: Err(ErrV::DepthExceeded), env }
    } else if elems.len() == 0 {
        EvalOut {
            res: Ok(
                ExprV::List { elements: Seq::empty(), location: None, trailing_newline: false },
            ),
            env,
        }
    } else if is_sym(elems[0], "lambda"@) {
        spec_eval_lambda((fuel - 1) as nat, elems, env, frame)
    } else if is_sym(elems[0], "define"@) {
        spec_eval_define((fuel - 1) as nat, elems, env, frame)
    } else if is_sym(elems[0], "if"@) {
        spec_eval_if((fuel - 1) as nat, elems, env, frame)
    } else if is_sym(elems[0], "let"@) {
        spec_eval_let((fuel - 1) as nat, elems, env, frame)
    } else if is_sym(elems[0], "defmacro"@) {
        spec_eval_defmacro((fuel - 1) as nat, elems, env, frame)
    } else {
        let out0 = spec_eval((fuel - 1) as nat, elems[0], env, frame);
        match out0.res {
            Err(e) => out0,
            Ok(f) => match f {
                ExprV::Builtin { name } => {
                    let (ra, env1) = spec_eval_args(
                        (fuel - 1) as nat,
                        elems.drop_first(),
                        0,
                        out0.env,
                        frame,
                    );
                    match ra {
                        Ok(avs) => EvalOut { res: spec_apply_builtin(name, avs), env: env1 },
                        Err(e) => EvalOut { res: Err(e), env: env1 },
                    }
                },
                ExprV::SpecialForm { name } => spec_apply_spform(
                    (fuel - 1) as nat,
                    name,
                    elems.drop_first(),
                    out0.env,
                    frame,
                ),
                ExprV::Clausure { args, body, env: cf } => {
                    if cf < out0.env.frames.len() {
                        let newf = out0.env.frames.len() as int;
                        let env1 = env_push_child(out0.env, cf as int);
                        let (rb, env2) = spec_bind_params(
                            (fuel - 1) as nat,
                            args,
                            elems.drop_first(),
                            0,
                            env1,
                            frame,
                            newf,
                        );
                        match rb {
                            Ok(u) => spec_eval((fuel - 1) as nat, *body, env2, newf),
                            Err(e) => EvalOut { res: Err(e), env: env2 },
                        }
                    } else {
                        EvalOut { res: Err(ErrV::InvalidFrame), env: out0.env }
                    }
                },
                ExprV::Macro { args, body, env: mf } => {
                    if mf < out0.env.frames.len() {
                        let newf = out0.env.frames.len() as int;
                        let env1 = env_push_child(out0.env, mf as int);
                        let env2 = spec_bind_macro(args, elems.drop_first(), 0, env1, newf);
                        let oute = spec_eval((fuel - 1) as nat, *body, env2, newf);
                        match oute.res {
                            Ok(x) => spec_eval((fuel - 1) as nat, x, oute.env, frame),
                            Err(e) => oute,
                        }
                    } else {
                        EvalOut { res: Err(ErrV::InvalidFrame), env: out0.env }
                    }
                },
                _ => EvalOut { res: Err(ErrV::NotCallable), env: out0.env },
            },
        }
    }
}

/// Evaluates arguments left to right in the caller's frame, stopping at the
/// first error.
pub open spec fn spec_eval_args(fuel: nat, args: Seq<ExprV>, i: int, env: EnvV, frame: int) -> (
    Result<Seq<ExprV>, ErrV>,
    EnvV,
)
    decreases fuel, args.len() - i, 0int,
{
    if i >= args.len() || i < 0 {
        (Ok(Seq::empty()), env)
    } else if fuel == 0 {
        (Err(ErrV::DepthExceeded), env)
    } else {
        let out = spec_eval((fuel - 1) as nat, args[i], env, frame);
        match out.res {
            Err(e) => (Err(e), out.env),
            Ok(v) => match spec_eval_args(fuel, args, i + 1, out.env, frame) {
                (Ok(rest), env2) => (Ok(seq![v] + rest), env2),
                (Err(e), env2) => (Err(e), env2),
            },
        }
    }
}

/// Binds formals to actuals for a closure call: each actual is evaluated in
/// the caller's frame and bound in the new frame; the shorter list wins.
pub open spec fn spec_bind_params(
    fuel: nat,
    params: Seq<Seq<char>>,
    args: Seq<ExprV>,
    j: int,
    env: EnvV,
    caller: int,
    newf: int,
) -> (Result<(), ErrV>, EnvV)
    decreases fuel, params.len() - j, 0int,
{
    if j >= params.len() || j >= args.len() || j < 0 {
        (Ok(()), env)
    } else if fuel == 0 {
        (Err(ErrV::DepthExceeded), env)
    } else {
        let out = spec_eval((fuel - 1) as nat, args[j], env, caller);
        match out.res {
            Err(e) => (Err(e), out.env),
            Ok(v) => spec_bind_params(
                fuel,
                params,
                args,
                j + 1,
                env_insert(out.env, newf, params[j], v),
                caller,
                newf,
            ),
        }
    }
}

/// Binds formals to the unevaluated actual expressions for a macro call;
/// the shorter list wins.
pub open spec fn spec_bind_macro(
    params: Seq<Seq<char>>,
    args: Seq<ExprV>,
    j: int,
    env: EnvV,
    newf: int,
) -> EnvV
    decreases params.len() - j,
{
    if j >= params.len() || j >= args.len() || j < 0 {
        env
    } else {
        spec_bind_macro(params, args, j + 1, env_insert(env, newf, params[j], args[j]), newf)
    }
}

/// The rewritten call for `(define (f a) body)`: `define`, the name, and a
/// lambda form carrying the original form's source metadata.
#[verifier::opaque]
pub open spec fn define_sugar_call(elems: Seq<ExprV>) -> Seq<ExprV> {
    let fun = elems[1];
    seq![
        elems[0],
        fun->List_elements[0],
        ExprV::List {
            elements: seq![
                ExprV::Symbol {
                    name: "lambda"@,
                    location: location_v(fun),
                    trailing_newline: false,
                },
                ExprV::List {
                    elements: (fun->List_elements).drop_first(),
                    location: location_v(fun),
                    trailing_newline: has_newline_v(fun),
                },
                elems[2],
            ],
            location: location_v(fun),
            trailing_newline: has_newline_v(fun),
        },
    ]
}

pub open spec fn spec_eval_define(fuel: nat, elems: Seq<ExprV>, env: EnvV, frame: int) -> EvalOut
    decreases fuel, 0int,
{
    if fuel == 0 {
        EvalOut { res: Err(ErrV::DepthExceeded), env }
    } else if elems.len() != 3 {
        EvalOut {
            res: Err(
                ErrV::ArityMismatch { expected: ArgCount::Exact(3), got: elems.len() as usize },
            ),
            env,
        }
    } else {
        match elems[1] {
            ExprV::List { elements: fa, .. } => {
                if fa.len() == 0 {
                    EvalOut { res: Err(ErrV::DefineSyntax), env }
                } else {
                    spec_eval_define_impl(
                        (fuel - 1) as nat,
                        define_sugar_call(elems),
                        env,
                        frame,
                    )
                }
            },
            _ => spec_eval_define_impl((fuel - 1) as nat, elems, env, frame),
        }
    }
}

pub open spec fn spec_eval_define_impl(fuel: nat, elems: Seq<ExprV>, env: EnvV, frame: int) -> EvalOut
    decreases fuel, 0int,
{
    if fuel == 0 {
        EvalOut { res: Err(ErrV::DepthExceeded), env }
    } else if elems.len() < 3 {
        EvalOut { res: Err(ErrV::DefineSyntax), env }
    } else {
        match elems[1] {
            ExprV::Symbol { name, .. } => {
                let out = spec_eval((fuel - 1) as nat, elems[2], env, frame);
                match out.res {
                    Ok(v) => EvalOut { res: Ok(v), env: env_insert(out.env, frame, name, v) },
                    Err(e) => out,
                }
            },
            ExprV::List { .. } => EvalOut {
                res: Err(ErrV::NotASymbol),
                env: env_push_child(env, frame),
            },
            _ => EvalOut { res: Err(ErrV::DefineSyntax), env },
        }
    }
}

pub open spec fn spec_eval_defmacro(fuel: nat, elems: Seq<ExprV>, env: EnvV, frame: int) -> EvalOut
    decreases fuel, 0int,
{
    if fuel == 0 {
        EvalOut { res: Err(ErrV::DepthExceeded), env }
    } else if elems.len() != 3 {
        EvalOut {
            res: Err(
                ErrV::ArityMismatch { expected: ArgCount::Exact(3), got: elems.len() as usize },
            ),
            env,
        }
    } else {
        match elems[1] {
            ExprV::List { elements: na, .. } => {
                if na.len() == 0 {
                    EvalOut { res: Err(ErrV::DefmacroSyntax), env }
                } else {
                    match na[0] {
                        ExprV::Symbol { name, .. } => match spec_symbol_names(na.drop_first()) {
                            Ok(argnames) => {
                                let mac = ExprV::Macro {
                                    args: argnames,
                                    body: Box::new(elems[2]),
                                    env: frame as usize,
                                };
                                EvalOut {
                                    res: Ok(mac),
                                    env: env_insert(env, frame, name, mac),
                                }
                            },
                            Err(e) => EvalOut { res: Err(e), env },
                        },
                        _ => EvalOut { res: Err(ErrV::NotASymbol), env },
                    }
                }
            },
            _ => EvalOut { res: Err(ErrV::DefmacroSyntax), env },
        }
    }
}

pub open spec fn spec_eval_lambda(fuel: nat, elems: Seq<ExprV>, env: EnvV, frame: int) -> EvalOut
    decreases fuel, 0int,
{
    if fuel == 0 {
        EvalOut { res: Err(ErrV::DepthExceeded), env }
    } else if elems.len() != 3 {
        EvalOut {
            res: Err(
                ErrV::ArityMismatch { expected: ArgCount::Exact(3), got: elems.len() as usize },
            ),
            env,
        }
    } else {
        match elems[1] {
            ExprV::List { elements: args, .. } => {
                let newf = env.frames.len() as usize;
                let env1 = env_push_child(env, frame);
                match spec_symbol_names(args) {
                    Ok(ns) => EvalOut {
                        res: Ok(
                            ExprV::Clausure { args: ns, body: Box::new(elems[2]), env: newf },
                        ),
                        env: env1,
                    },
                    Err(e) => EvalOut { res: Err(e), env: env1 },
                }
            },
            _ => EvalOut { res: Err(ErrV::LambdaSyntax), env },
        }
    }
}

pub open spec fn spec_eval_let(fuel: nat, elems: Seq<ExprV>, env: EnvV, frame: int) -> EvalOut
    decreases fuel, 0int,
{
    if fuel == 0 {
        EvalOut { res: Err(ErrV::DepthExceeded), env }
    } else if elems.len() != 3 {
        EvalOut {
            res: Err(
                ErrV::ArityMismatch { expected: ArgCount::Exact(3), got: elems.len() as usize },
            ),
            env,
        }
    } else {
        match elems[1] {
            ExprV::List { elements: bindings, .. } => {
                let newf = env.frames.len() as int;
                let env1 = env_push_child(env, frame);
                let (rb, env2) = spec_bind_let((fuel - 1) as nat, bindings, 0, env1, newf);
                match rb {
                    Ok(u) => spec_eval((fuel - 1) as nat, elems[2], env2, newf),
                    Err(e) => EvalOut { res: Err(e), env: env2 },
                }
            },
            _ => EvalOut { res: Err(ErrV::LetSyntax), env },
        }
    }
}

/// Evaluates `let` bindings in order, each in the new frame, so later
/// bindings see earlier ones.
pub open spec fn spec_bind_let(fuel: nat, bindings: Seq<ExprV>, i: int, env: EnvV, newf: int) -> (
    Result<(), ErrV>,
    EnvV,
)
    decreases fuel, bindings.len() - i, 0int,
{
    if i >= bindings.len() || i < 0 {
        (Ok(()), env)
    } else if fuel == 0 {
        (Err(ErrV::DepthExceeded), env)
    } else {
        match bindings[i] {
            ExprV::List { elements: be, .. } => {
                if be.len() != 2 {
                    (Err(ErrV::LetSyntax), env)
                } else {
                    match be[0] {
                        ExprV::Symbol { name, .. } => {
                            let out = spec_eval((fuel - 1) as nat, be[1], env, newf);
                            match out.res {
                                Err(e) => (Err(e), out.env),
                                Ok(v) => spec_bind_let(
                                    fuel,
                                    bindings,
                                    i + 1,
                                    env_insert(out.env, newf, name, v),
                                    newf,
                                ),
                            }
                        },
                        _ => (Err(ErrV::NotASymbol), env),
                    }
                }
            },
            _ => (Err(ErrV::LetSyntax), env),
        }
    }
}

pub open spec fn spec_eval_if(fuel: nat, elems: Seq<ExprV>, env: EnvV, frame: int) -> EvalOut
    decreases fuel, 0int,
{
    if fuel == 0 {
        EvalOut { res: Err(ErrV::DepthExceeded), env }
    } else if elems.len() != 4 {
        EvalOut {
            res: Err(
                ErrV::ArityMismatch { expected: ArgCount::Exact(4), got: elems.len() as usize },
            ),
            env,
        }
    } else {
        let out = spec_eval((fuel - 1) as nat, elems[1], env, frame);
        match out.res {
            Err(e) => out,
            Ok(c) => if is_sym(c, "#f"@) {
                spec_eval((fuel - 1) as nat, elems[3], out.env, frame)
            } else {
                spec_eval((fuel - 1) as nat, elems[2], out.env, frame)
            },
        }
    }
}

/// The quasiquote walk at a nesting level: an unquote at level one
/// evaluates; deeper unquotes and nested quasiquotes are kept as data while
/// their payloads are processed at the adjusted level.
pub open spec fn spec_eval_quasiquote(fuel: nat, e: ExprV, env: EnvV, frame: int, level: nat) -> EvalOut
    decreases fuel, 0int, 0int,
{
    if fuel == 0 {
        EvalOut { res: Err(ErrV::DepthExceeded), env }
    } else {
        match e {
            ExprV::Unquote { expr, location, trailing_newline } => {
                if level == 1 {
                    spec_eval((fuel - 1) as nat, *expr, env, frame)
                } else {
                    let out = spec_eval_quasiquote(
                        (fuel - 1) as nat,
                        *expr,
                        env,
                        frame,
                        (level - 1) as nat,
                    );
                    match out.res {
                        Ok(inner) => EvalOut {
                            res: Ok(
                                ExprV::Unquote {
                                    expr: Box::new(inner),
                                    location,
                                    trailing_newline,
                                },
                            ),
                            env: out.env,
                        },
                        Err(e) => out,
                    }
                }
            },
            ExprV::Quasiquote { expr, location, trailing_newline } => {
                let out = spec_eval_quasiquote((fuel - 1) as nat, *expr, env, frame, level + 1);
                match out.res {
                    Ok(inner) => EvalOut {
                        res: Ok(
                            ExprV::Quasiquote { expr: Box::new(inner), location, trailing_newline },
                        ),
                        env: out.env,
                    },
                    Err(e) => out,
                }
            },
            ExprV::List { elements, location, trailing_newline } => {
                let (re, env1) = spec_qq_elems((fuel - 1) as nat, elements, 0, env, frame, level);
                match re {
                    Ok(es) => EvalOut {
                        res: Ok(ExprV::List { elements: es, location, trailing_newline }),
                        env: env1,
                    },
                    Err(e) => EvalOut { res: Err(e), env: env1 },
                }
            },
            _ => EvalOut { res: Ok(e), env },
        }
    }
}

pub open spec fn spec_qq_elems(
    fuel: nat,
    elems: Seq<ExprV>,
    i: int,
    env: EnvV,
    frame: int,
    level: nat,
) -> (Result<Seq<ExprV>, ErrV>, EnvV)
    decreases fuel, elems.len() - i, 1int,
{
    if i >= elems.len() || i < 0 {
        (Ok(Seq::empty()), env)
    } else if fuel == 0 {
        (Err(ErrV::DepthExceeded), env)
    } else {
        let out = spec_eval_quasiquote((fuel - 1) as nat, elems[i], env, frame, level);
        match out.res {
            Err(e) => (Err(e), out.env),
            Ok(v) => match spec_qq_elems(fuel, elems, i + 1, out.env, frame, level) {
                (Ok(rest), env2) => (Ok(seq![v] + rest), env2),
                (Err(e), env2) => (Err(e), env2),
            },
        }
    }
}

/// The special forms evaluate their single argument themselves and inspect
/// its list structure.
pub open spec fn spec_sp_list_p(fuel: nat, args: Seq<ExprV>, env: EnvV, frame: int) -> EvalOut
    decreases fuel, 0int,
{
    if fuel == 0 {
        EvalOut { res: Err(ErrV::DepthExceeded), env }
    } else if args.len() != 1 {
        EvalOut {
            res: Err(
                ErrV::ArityMismatch { expected: ArgCount::Exact(1), got: args.len() as usize },
            ),
            env,
        }
    } else {
        let out = spec_eval((fuel - 1) as nat, args[0], env, frame);
        match out.res {
            Err(e) => out,
            Ok(v) => EvalOut { res: Ok(bool_sym(v is List)), env: out.env },
        }
    }
}

pub open spec fn spec_sp_car(fuel: nat, args: Seq<ExprV>, env: EnvV, frame: int) -> EvalOut
    decreases fuel, 0int,
{
    if fuel == 0 {
        EvalOut { res: Err(ErrV::DepthExceeded), env }
    } else if args.len() != 1 {
        EvalOut {
            res: Err(
                ErrV::ArityMismatch { expected: ArgCount::Exact(1), got: args.len() as usize },
            ),
            env,
        }
    } else {
        let out = spec_eval((fuel - 1) as nat, args[0], env, frame);
        match out.res {
            Err(e) => out,
            Ok(v) => match v {
                ExprV::List { elements, .. } => {
                    if elements.len() == 0 {
                        EvalOut { res: Err(ErrV::EmptyList), env: out.env }
                    } else {
                        EvalOut { res: Ok(elements[0]), env: out.env }
                    }
                },
                _ => EvalOut { res: Err(ErrV::ExpectedList), env: out.env },
            },
        }
    }
}

pub open spec fn spec_sp_cdr(fuel: nat, args: Seq<ExprV>, env: EnvV, frame: int) -> EvalOut
    decreases fuel, 0int,
{
    if fuel == 0 {
        EvalOut { res: Err(ErrV::DepthExceeded), env }
    } else if args.len() != 1 {
        EvalOut {
            res: Err(
                ErrV::ArityMismatch { expected: ArgCount::Exact(1), got: args.len() as usize },
            ),
            env,
        }
    } else {
        let out = spec_eval((fuel - 1) as nat, args[0], env, frame);
        match out.res {
            Err(e) => out,
            Ok(v) => match v {
                ExprV::List { elements, location, trailing_newline } => {
                    if elements.len() == 0 {
                        EvalOut {
                            res: Ok(
                                ExprV::List {
                                    elements: Seq::empty(),
                                    location,
                                    trailing_newline,
                                },
                            ),
                            env: out.env,
                        }
                    } else {
                        EvalOut {
                            res: Ok(
                                ExprV::List {
                                    elements: elements.drop_first(),
                                    location,
                                    trailing_newline,
                                },
                            ),
                            env: out.env,
                        }
                    }
                },
                _ => EvalOut { res: Err(ErrV::ExpectedList), env: out.env },
            },
        }
    }
}

pub open spec fn spec_sp_null_p(fuel: nat, args: Seq<ExprV>, env: EnvV, frame: int) -> EvalOut
    decreases fuel, 0int,
{
    if fuel == 0 {
        EvalOut { res: Err(ErrV::DepthExceeded), env }
    } else if args.len() != 1 {
        EvalOut {
            res: Err(
                ErrV::ArityMismatch { expected: ArgCount::Exact(1), got: args.len() as usize },
            ),
            env,
        }
    } else {
        let out = spec_eval((fuel - 1) as nat, args[0], env, frame);
        match out.res {
            Err(e) => out,
            Ok(v) => match v {
                ExprV::List { elements, .. } => EvalOut {
                    res: Ok(bool_sym(elements.len() == 0)),
                    env: out.env,
                },
                _ => EvalOut { res: Ok(bool_sym(false)), env: out.env },
            },
        }
    }
}

pub open spec fn spec_apply_spform(
    fuel: nat,
    name: Seq<char>,
    args: Seq<ExprV>,
    env: EnvV,
    frame: int,
) -> EvalOut
    decreases fuel, 1int,
{
    if fuel == 0 {
        EvalOut { res: Err(ErrV::DepthExceeded), env }
    } else if name == "list?"@ {
        spec_sp_list_p(fuel, args, env, frame)
    } else if name == "car"@ {
        spec_sp_car(fuel, args, env, frame)
    } else if name == "cdr"@ {
        spec_sp_cdr(fuel, args, env, frame)
    } else if name == "null?"@ {
        spec_sp_null_p(fuel, args, env, frame)
    } else {
        EvalOut { res: Err(ErrV::UnknownBuiltin { name }), env }
    }
}

/// Referencing an unbound symbol fails with an undefined-symbol error and
/// leaves every environment frame exactly as it was.
pub proof fn lemma_unbound_symbol(
    fuel: nat,
    name: Seq<char>,
    location: Option<usize>,
    trailing_newline: bool,
    env: EnvV,
    frame: int,
)
    requires
        fuel > 0,
        lookup(env, frame, name) is None,
    ensures
        spec_eval(fuel, ExprV::Symbol { name, location, trailing_newline }, env, frame) == (EvalOut {
            res: Err(ErrV::UndefinedSymbol { name }),
            env,
        }),
{
}

} // verus!

verus! {

use crate::strings::str_eq;
use crate::parser::double_trunc_text;

/// The views of a vector of names.
pub open spec fn names_seq(s: Seq<String>) -> Seq<Seq<char>> {
    Seq::new(s.len(), |i: int| s[i]@)
}

/// Whether an exec result and final environment realize a specification
/// outcome.
pub open spec fn matches_out(out: EvalOut, r: Result<Arc<Expr>, EvalError>, envafter: EnvV) -> bool {
    &&& envafter == out.env
    &&& match r {
        Ok(v) => out.res == Ok::<ExprV, ErrV>(v@),
        Err(e) => out.res == Err::<ExprV, ErrV>(e@),
    }
}

/// A fresh vector holding the same shared expressions.
fn clone_vec_arc(v: &Vec<Arc<Expr>>) -> (r: Vec<Arc<Expr>>)
    ensures
        r@ == v@,
{
    let mut out: Vec<Arc<Expr>> = Vec::new();
    let mut i: usize = 0;
    while i < v.len()
        invariant
            i <= v@.len(),
            out@ =~= v@.subrange(0, i as int),
        decreases v@.len() - i,
    {
        out.push(arc_clone(&v[i]));
        proof {
            assert(out@ =~= v@.subrange(0, i + 1 as int));
        }
        i = i + 1;
    }
    proof {
        assert(v@.subrange(0, v@.len() as int) =~= v@);
    }
    out
}

/// The arguments of a call form: everything after the head.
fn tail_of(elements: &Vec<Arc<Expr>>) -> (r: Vec<Arc<Expr>>)
    requires
        elements@.len() >= 1,
    ensures
        exprs_view(r@) == exprs_view(elements@).drop_first(),
        r@.len() == elements@.len() - 1,
{
    broadcast use lemma_exprs_view;

    let mut out: Vec<Arc<Expr>> = Vec::new();
    let mut i: usize = 1;
    while i < elements.len()
        invariant
            1 <= i <= elements@.len(),
            out@ =~= elements@.subrange(1, i as int),
        decreases elements@.len() - i,
    {
        out.push(arc_clone(&elements[i]));
        proof {
            assert(out@ =~= elements@.subrange(1, i + 1 as int));
        }
        i = i + 1;
    }
    proof {
        assert(out@ =~= elements@.subrange(1, elements@.len() as int));
        assert(exprs_view(out@) =~= exprs_view(elements@).drop_first());
    }
    out
}

/// The `+` primitive.
#[verifier::loop_isolation(false)]
fn prim_add(args: &Vec<Arc<Expr>>) -> (r: Result<Arc<Expr>, EvalError>)
    ensures
        match r {
            Ok(v) => spec_prim_add(exprs_view(args@)) == Ok::<ExprV, ErrV>(v@),
            Err(e) => spec_prim_add(exprs_view(args@)) == Err::<ExprV, ErrV>(e@),
        },
{
    broadcast use lemma_exprs_view;

    let ghost av = exprs_view(args@);
    if args.len() < 1 {
        return Err(EvalError::ArityMismatch { expected: ArgCount::AtLeast(1), got: args.len() });
    }
    let mut acc: i64 = 0;
    let mut i: usize = 0;
    while i < args.len()
        invariant
            i <= args@.len(),
            spec_add_fold(av, 0, 0i64) == spec_add_fold(av, i as int, acc),
        decreases args@.len() - i,
    {
        match &*args[i] {
            Expr::Integer { value, .. } => {
                acc = acc.wrapping_add(*value);
            },
            Expr::Double { text, .. } => {
                let t = double_trunc_text(text.as_str());
                acc = acc.wrapping_add(t);
            },
            _ => {
                return Err(EvalError::NumericArgs);
            },
        }
        i = i + 1;
    }
    Ok(Arc::new(Expr::integer(acc)))
}

/// The `-` primitive.
#[verifier::loop_isolation(false)]
fn prim_sub(args: &Vec<Arc<Expr>>) -> (r: Result<Arc<Expr>, EvalError>)
    ensures
        match r {
            Ok(v) => spec_prim_sub(exprs_view(args@)) == Ok::<ExprV, ErrV>(v@),
            Err(e) => spec_prim_sub(exprs_view(args@)) == Err::<ExprV, ErrV>(e@),
        },
{
    broadcast use lemma_exprs_view;

    let ghost av = exprs_view(args@);
    if args.len() < 1 {
        return Err(EvalError::ArityMismatch { expected: ArgCount::AtLeast(1), got: args.len() });
    }
    let mut acc: i64;
    match &*args[0] {
        Expr::Integer { value, .. } => {
            acc = *value;
        },
        Expr::Double { text, .. } => {
            acc = double_trunc_text(text.as_str());
        },
        _ => {
            return Err(EvalError::NumericArgs);
        },
    }
    let mut i: usize = 1;
    while i < args.len()
        invariant
            1 <= i <= args@.len(),
            spec_sub_fold(av, 1, (match av[0] {
                ExprV::Integer { value, .. } => value,
                ExprV::Double { text, .. } => spec_double_trunc(text),
                _ => 0i64,
            })) == spec_sub_fold(av, i as int, acc),
        decreases args@.len() - i,
    {
        match &*args[i] {
            Expr::Integer { value, .. } => {
                acc = acc.wrapping_sub(*value);
            },
            Expr::Double { text, .. } => {
                let t = double_trunc_text(text.as_str());
                acc = acc.wrapping_sub(t);
            },
            _ => {
                return Err(EvalError::NumericArgs);
            },
        }
        i = i + 1;
    }
    Ok(Arc::new(Expr::integer(acc)))
}

/// One integer comparison primitive.
fn prim_cmp(op: CmpOp, args: &Vec<Arc<Expr>>) -> (r: Result<Arc<Expr>, EvalError>)
    ensures
        match r {
            Ok(v) => spec_prim_cmp(op, exprs_view(args@)) == Ok::<ExprV, ErrV>(v@),
            Err(e) => spec_prim_cmp(op, exprs_view(args@)) == Err::<ExprV, ErrV>(e@),
        },
{
    broadcast use lemma_exprs_view;

    if args.len() != 2 {
        return Err(EvalError::ArityMismatch { expected: ArgCount::Exact(2), got: args.len() });
    }
    let a: i64;
    let b: i64;
    match &*args[0] {
        Expr::Integer { value, .. } => {
            a = *value;
        },
        _ => {
            return Err(EvalError::NumericArgs);
        },
    }
    match &*args[1] {
        Expr::Integer { value, .. } => {
            b = *value;
        },
        _ => {
            return Err(EvalError::NumericArgs);
        },
    }
    let c = match op {
        CmpOp::Lt => a < b,
        CmpOp::Gt => a > b,
        CmpOp::Le => a <= b,
        CmpOp::Ge => a >= b,
    };
    if c {
        Ok(Arc::new(Expr::symbol("#t")))
    } else {
        Ok(Arc::new(Expr::symbol("#f")))
    }
}

/// The `<` primitive.
fn prim_lessthan(args: &Vec<Arc<Expr>>) -> (r: Result<Arc<Expr>, EvalError>)
    ensures
        match r {
            Ok(v) => spec_prim_cmp(CmpOp::Lt, exprs_view(args@)) == Ok::<ExprV, ErrV>(v@),
            Err(e) => spec_prim_cmp(CmpOp::Lt, exprs_view(args@)) == Err::<ExprV, ErrV>(e@),
        },
{
    prim_cmp(CmpOp::Lt, args)
}

/// The `>` primitive.
fn prim_morethan(args: &Vec<Arc<Expr>>) -> (r: Result<Arc<Expr>, EvalError>)
    ensures
        match r {
            Ok(v) => spec_prim_cmp(CmpOp::Gt, exprs_view(args@)) == Ok::<ExprV, ErrV>(v@),
            Err(e) => spec_prim_cmp(CmpOp::Gt, exprs_view(args@)) == Err::<ExprV, ErrV>(e@),
        },
{
    prim_cmp(CmpOp::Gt, args)
}

/// The `<=` primitive.
fn prim_lessthanoreq(args: &Vec<Arc<Expr>>) -> (r: Result<Arc<Expr>, EvalError>)
    ensures
        match r {
            Ok(v) => spec_prim_cmp(CmpOp::Le, exprs_view(args@)) == Ok::<ExprV, ErrV>(v@),
            Err(e) => spec_prim_cmp(CmpOp::Le, exprs_view(args@)) == Err::<ExprV, ErrV>(e@),
        },
{
    prim_cmp(CmpOp::Le, args)
}

/// The `>=` primitive.
fn prim_morethanoreq(args: &Vec<Arc<Expr>>) -> (r: Result<Arc<Expr>, EvalError>)
    ensures
        match r {
            Ok(v) => spec_prim_cmp(CmpOp::Ge, exprs_view(args@)) == Ok::<ExprV, ErrV>(v@),
            Err(e) => spec_prim_cmp(CmpOp::Ge, exprs_view(args@)) == Err::<ExprV, ErrV>(e@),
        },
{
    prim_cmp(CmpOp::Ge, args)
}

/// The `list` primitive: its evaluated arguments as a list value.
fn prim_list(args: &Vec<Arc<Expr>>) -> (r: Result<Arc<Expr>, EvalError>)
    ensures
        r matches Ok(v) && v@ == (ExprV::List {
            elements: exprs_view(args@),
            location: None,
            trailing_newline: false,
        }),
{
    let copy = clone_vec_arc(args);
    Ok(Arc::new(Expr::list(copy)))
}

/// Applies a builtin, by name, to its evaluated arguments.
fn apply_builtin(name: &str, args: &Vec<Arc<Expr>>) -> (r: Result<Arc<Expr>, EvalError>)
    ensures
        match r {
            Ok(v) => spec_apply_builtin(name@, exprs_view(args@)) == Ok::<ExprV, ErrV>(v@),
            Err(e) => spec_apply_builtin(name@, exprs_view(args@)) == Err::<ExprV, ErrV>(e@),
        },
{
    if str_eq(name, "+") {
        prim_add(args)
    } else if str_eq(name, "-") {
        prim_sub(args)
    } else if str_eq(name, "<") {
        prim_lessthan(args)
    } else if str_eq(name, ">") {
        prim_morethan(args)
    } else if str_eq(name, "<=") {
        prim_lessthanoreq(args)
    } else if str_eq(name, ">=") {
        prim_morethanoreq(args)
    } else if str_eq(name, "list") {
        prim_list(args)
    } else {
        Err(EvalError::UnknownBuiltin { name: name.to_owned() })
    }
}

/// If any element is not a symbol, the name extraction fails, and only with
/// the not-a-symbol error.
proof fn lemma_symbol_names_err(s: Seq<ExprV>, k: int)
    requires
        0 <= k < s.len(),
        !(s[k] is Symbol),
    ensures
        spec_symbol_names(s) == Err::<Seq<Seq<char>>, ErrV>(ErrV::NotASymbol),
    decreases s,
{
    if k == s.len() - 1 {
        match spec_symbol_names(s.drop_last()) {
            Ok(_) => {},
            Err(e) => {
                lemma_symbol_names_err_shape(s.drop_last());
            },
        }
    } else {
        assert(s.drop_last()[k] == s[k]);
        lemma_symbol_names_err(s.drop_last(), k);
    }
}

/// The only error the name extraction produces is the not-a-symbol error.
proof fn lemma_symbol_names_err_shape(s: Seq<ExprV>)
    ensures
        spec_symbol_names(s) matches Err(e) ==> e == ErrV::NotASymbol,
    decreases s,
{
    if s.len() > 0 {
        lemma_symbol_names_err_shape(s.drop_last());
    }
}

/// Extracts the parameter names of `v` from index `start` on.
#[verifier::loop_isolation(false)]
fn symbol_names_from(v: &Vec<Arc<Expr>>, start: usize) -> (r: Result<Vec<String>, EvalError>)
    requires
        start <= v@.len(),
    ensures
        match r {
            Ok(ns) => spec_symbol_names(exprs_view(v@).subrange(start as int, v@.len() as int))
                == Ok::<Seq<Seq<char>>, ErrV>(names_seq(ns@)),
            Err(e) => spec_symbol_names(exprs_view(v@).subrange(start as int, v@.len() as int))
                == Err::<Seq<Seq<char>>, ErrV>(e@) && e@ == ErrV::NotASymbol,
        },
{
    broadcast use lemma_exprs_view;

    let ghost av = exprs_view(v@).subrange(start as int, v@.len() as int);
    let mut out: Vec<String> = Vec::new();
    let mut i: usize = start;
    proof {
        assert(av.subrange(0, 0) =~= Seq::<ExprV>::empty());
        assert(names_seq(out@) =~= Seq::<Seq<char>>::empty());
    }
    while i < v.len()
        invariant
            start <= i <= v@.len(),
            spec_symbol_names(av.subrange(0, i - start as int)) == Ok::<Seq<Seq<char>>, ErrV>(
                names_seq(out@),
            ),
        decreases v@.len() - i,
    {
        match &*v[i] {
            Expr::Symbol { name, .. } => {
                let ghost prevout = out@;
                out.push(name.clone());
                proof {
                    let k = i - start as int;
                    assert(av[k] == expr_view(*v@[i as int]));
                    assert(out@.drop_last() =~= prevout);
                    assert(names_seq(out@) =~= names_seq(prevout).push(out@.last()@));
                    assert(av.subrange(0, k + 1).drop_last() =~= av.subrange(0, k));
                    assert(av.subrange(0, k + 1).last() == av[k]);
                }
            },
            _ => {
                proof {
                    assert(av[i - start as int] == expr_view(*v@[i as int]));
                    lemma_symbol_names_err(av, i - start as int);
                }
                return Err(EvalError::NotASymbol);
            },
        }
        i = i + 1;
    }
    proof {
        assert(av.subrange(0, av.len() as int) =~= av);
    }
    Ok(out)
}

} // verus!

verus! {

/// Evaluates one expression in the given frame.  The result and the way the
/// environment changes are exactly those of the specification interpreter
/// `spec_eval` at the same depth budget.
#[verifier::rlimit(100)]
pub fn eval(expr: &Arc<Expr>, env: &mut Env, frame: usize, fuel: u64) -> (r: Result<
    Arc<Expr>,
    EvalError,
>)
    requires
        old(env).inv(),
        frame < old(env)@.frames.len(),
    ensures
        final(env).inv(),
        old(env)@.frames.len() <= final(env)@.frames.len(),
        matches_out(spec_eval(fuel as nat, expr@, old(env)@, frame as int), r, final(env)@),
    decreases fuel, 0int,
{
    if fuel == 0 {
        return Err(EvalError::DepthExceeded);
    }
    match &**expr {
        Expr::Symbol { name, .. } => match env.get(frame, name.as_str()) {
            Some(v) => Ok(v),
            None => Err(EvalError::UndefinedSymbol { name: name.clone() }),
        },
        Expr::Integer { value, .. } => Ok(Arc::new(Expr::integer(*value))),
        Expr::Double { text, .. } => Ok(Arc::new(Expr::double(text.clone()))),
        Expr::String { value, .. } => Ok(Arc::new(Expr::string(value.clone()))),
        Expr::Model { id, .. } => Ok(Arc::new(Expr::model(*id))),
        Expr::List { elements, .. } => eval_list(elements, env, frame, fuel - 1),
        Expr::Quote { expr: inner, .. } => Ok(arc_clone(inner)),
        Expr::Quasiquote { expr: inner, .. } => eval_quasiquote(inner, env, frame, fuel - 1, 1),
        Expr::Unquote { .. } => Err(EvalError::UnquoteOutsideQuasiquote),
        Expr::Builtin { .. } => Ok(arc_clone(expr)),
        Expr::SpecialForm { .. } => Ok(arc_clone(expr)),
        Expr::Clausure { .. } => Ok(arc_clone(expr)),
        Expr::Macro { .. } => Ok(arc_clone(expr)),
    }
}

/// Dispatches a non-empty list: a special-form name, or the evaluated head
/// applied as builtin, special form, closure, or macro.
#[verifier::loop_isolation(false)]
#[verifier::rlimit(100)]
fn eval_list(elements: &Vec<Arc<Expr>>, env: &mut Env, frame: usize, fuel: u64) -> (r: Result<
    Arc<Expr>,
    EvalError,
>)
    requires
        old(env).inv(),
        frame < old(env)@.frames.len(),
    ensures
        final(env).inv(),
        old(env)@.frames.len() <= final(env)@.frames.len(),
        matches_out(
            spec_eval_list(fuel as nat, exprs_view(elements@), old(env)@, frame as int),
            r,
            final(env)@,
        ),
    decreases fuel, 0int,
{
    broadcast use lemma_exprs_view;

    let ghost ev = exprs_view(elements@);
    if fuel == 0 {
        return Err(EvalError::DepthExceeded);
    }
    if elements.len() == 0 {
        return Ok(Arc::new(Expr::nil()));
    }
    if elements[0].is_symbol("lambda") {
        return eval_lambda(elements, env, frame, fuel - 1);
    }
    if elements[0].is_symbol("define") {
        return eval_define(elements, env, frame, fuel - 1);
    }
    if elements[0].is_symbol("if") {
        return eval_if(elements, env, frame, fuel - 1);
    }
    if elements[0].is_symbol("let") {
        return eval_let(elements, env, frame, fuel - 1);
    }
    if elements[0].is_symbol("defmacro") {
        return eval_defmacro(elements, env, frame, fuel - 1);
    }
    let first = match eval(&elements[0], env, frame, fuel - 1) {
        Ok(f) => f,
        Err(e) => {
            return Err(e);
        },
    };
    match &*first {
        Expr::Builtin { name } => {
            let tail = tail_of(elements);
            match eval_args(&tail, env, frame, fuel - 1) {
                Ok(avs) => apply_builtin(name.as_str(), &avs),
                Err(e) => Err(e),
            }
        },
        Expr::SpecialForm { name } => {
            let tail = tail_of(elements);
            apply_spform(name.as_str(), &tail, env, frame, fuel - 1)
        },
        Expr::Clausure { args, body, env: cf } => {
            if *cf >= env.num_frames() {
                return Err(EvalError::InvalidFrame);
            }
            let tail = tail_of(elements);
            let newf = env.make_child(*cf);
            proof {
                assert(names_seq(args@) =~= first@->Clausure_args);
            }
            match bind_params(args, &tail, env, frame, newf, fuel - 1) {
                Ok(u) => eval(body, env, newf, fuel - 1),
                Err(e) => Err(e),
            }
        },
        Expr::Macro { args, body, env: mf } => {
            if *mf >= env.num_frames() {
                return Err(EvalError::InvalidFrame);
            }
            let tail = tail_of(elements);
            let newf = env.make_child(*mf);
            proof {
                assert(names_seq(args@) =~= first@->Macro_args);
            }
            bind_macro_params(args, &tail, env, newf);
            match eval(body, env, newf, fuel - 1) {
                Ok(expansion) => eval(&expansion, env, frame, fuel - 1),
                Err(e) => Err(e),
            }
        },
        _ => Err(EvalError::NotCallable),
    }
}

/// Evaluates a call's arguments left to right in the caller's frame.
#[verifier::loop_isolation(false)]
#[verifier::rlimit(100)]
pub fn eval_args(args: &Vec<Arc<Expr>>, env: &mut Env, frame: usize, fuel: u64) -> (r: Result<
    Vec<Arc<Expr>>,
    EvalError,
>)
    requires
        old(env).inv(),
        frame < old(env)@.frames.len(),
    ensures
        final(env).inv(),
        old(env)@.frames.len() <= final(env)@.frames.len(),
        ({
            let (ra, envafter) = spec_eval_args(
                fuel as nat,
                exprs_view(args@),
                0,
                old(env)@,
                frame as int,
            );
            final(env)@ == envafter && (match r {
                Ok(vs) => ra == Ok::<Seq<ExprV>, ErrV>(exprs_view(vs@)),
                Err(e) => ra == Err::<Seq<ExprV>, ErrV>(e@),
            })
        }),
    decreases fuel, 1int,
{
    broadcast use lemma_exprs_view;

    let ghost av = exprs_view(args@);
    let ghost env0 = env@;
    let mut out: Vec<Arc<Expr>> = Vec::new();
    let mut j: usize = 0;
    proof {
        assert(exprs_view(out@) =~= Seq::<ExprV>::empty());
    }
    while j < args.len()
        invariant
            j <= args@.len(),
            env.inv(),
            env0.frames.len() <= env@.frames.len(),
            frame < env@.frames.len(),
            ({
                let (ra, envafter) = spec_eval_args(fuel as nat, av, j as int, env@, frame as int);
                match ra {
                    Ok(rest) => spec_eval_args(fuel as nat, av, 0, env0, frame as int) == (
                        Ok::<Seq<ExprV>, ErrV>(exprs_view(out@) + rest),
                        envafter,
                    ),
                    Err(e) => spec_eval_args(fuel as nat, av, 0, env0, frame as int) == (
                        Err::<Seq<ExprV>, ErrV>(e),
                        envafter,
                    ),
                }
            }),
        decreases args@.len() - j,
    {
        if fuel == 0 {
            return Err(EvalError::DepthExceeded);
        }
        match eval(&args[j], env, frame, fuel - 1) {
            Ok(v) => {
                let ghost prevout = out@;
                out.push(v);
                proof {
                    assert(exprs_view(out@) =~= exprs_view(prevout).push(out@.last()@));
                    let (ra, envafter) = spec_eval_args(
                        fuel as nat,
                        av,
                        j + 1 as int,
                        env@,
                        frame as int,
                    );
                    if ra is Ok {
                        assert(exprs_view(prevout) + (seq![out@.last()@] + ra->Ok_0)
                            =~= exprs_view(out@) + ra->Ok_0);
                    }
                }
            },
            Err(e) => {
                return Err(e);
            },
        }
        j = j + 1;
    }
    proof {
        assert(exprs_view(out@) + Seq::<ExprV>::empty() =~= exprs_view(out@));
    }
    Ok(out)
}

/// Binds a closure's formals to its evaluated actuals; the shorter list
/// wins.
#[verifier::loop_isolation(false)]
#[verifier::rlimit(100)]
fn bind_params(
    params: &Vec<String>,
    args: &Vec<Arc<Expr>>,
    env: &mut Env,
    caller: usize,
    newf: usize,
    fuel: u64,
) -> (r: Result<(), EvalError>)
    requires
        old(env).inv(),
        caller < old(env)@.frames.len(),
        newf < old(env)@.frames.len(),
    ensures
        final(env).inv(),
        old(env)@.frames.len() <= final(env)@.frames.len(),
        ({
            let (rb, envafter) = spec_bind_params(
                fuel as nat,
                names_seq(params@),
                exprs_view(args@),
                0,
                old(env)@,
                caller as int,
                newf as int,
            );
            final(env)@ == envafter && (match r {
                Ok(u) => rb is Ok,
                Err(e) => rb == Err::<(), ErrV>(e@),
            })
        }),
    decreases fuel, 1int,
{
    broadcast use lemma_exprs_view;

    let ghost ns = names_seq(params@);
    let ghost av = exprs_view(args@);
    let ghost env0 = env@;
    let mut j: usize = 0;
    while j < params.len() && j < args.len()
        invariant
            j <= params@.len(),
            env.inv(),
            env0.frames.len() <= env@.frames.len(),
            caller < env@.frames.len(),
            newf < env@.frames.len(),
            ({
                let (rb, envafter) = spec_bind_params(
                    fuel as nat,
                    ns,
                    av,
                    j as int,
                    env@,
                    caller as int,
                    newf as int,
                );
                spec_bind_params(fuel as nat, ns, av, 0, env0, caller as int, newf as int) == (
                    rb,
                    envafter,
                )
            }),
        decreases params@.len() - j,
    {
        if fuel == 0 {
            return Err(EvalError::DepthExceeded);
        }
        match eval(&args[j], env, caller, fuel - 1) {
            Ok(v) => {
                env.insert(newf, params[j].clone(), v);
            },
            Err(e) => {
                return Err(e);
            },
        }
        j = j + 1;
    }
    Ok(())
}

/// Binds a macro's formals to the unevaluated actual expressions; the
/// shorter list wins.
#[verifier::loop_isolation(false)]
#[verifier::rlimit(100)]
fn bind_macro_params(params: &Vec<String>, args: &Vec<Arc<Expr>>, env: &mut Env, newf: usize)
    requires
        old(env).inv(),
        newf < old(env)@.frames.len(),
    ensures
        final(env).inv(),
        final(env)@.frames.len() == old(env)@.frames.len(),
        final(env)@ == spec_bind_macro(
            names_seq(params@),
            exprs_view(args@),
            0,
            old(env)@,
            newf as int,
        ),
{
    broadcast use lemma_exprs_view;

    let ghost ns = names_seq(params@);
    let ghost av = exprs_view(args@);
    let ghost env0 = env@;
    let mut j: usize = 0;
    while j < params.len() && j < args.len()
        invariant
            j <= params@.len(),
            env.inv(),
            env@.frames.len() == env0.frames.len(),
            newf < env@.frames.len(),
            spec_bind_macro(ns, av, 0, env0, newf as int) == spec_bind_macro(
                ns,
                av,
                j as int,
                env@,
                newf as int,
            ),
        decreases params@.len() - j,
    {
        env.insert(newf, params[j].clone(), arc_clone(&args[j]));
        j = j + 1;
    }
}

} // verus!

verus! {

/// Rewrites `(define (f a) body)` into the call `define f (lambda (a) body)`,
/// carrying over the original form's source metadata.
#[verifier::rlimit(100)]
fn build_define_call(elements: &Vec<Arc<Expr>>, fa: &Vec<Arc<Expr>>) -> (call: Vec<Arc<Expr>>)
    requires
        elements@.len() == 3,
        fa@.len() >= 1,
        (elements@[1])@ matches ExprV::List { elements: fav, .. } && fav == exprs_view(fa@),
    ensures
        exprs_view(call@) =~~= define_sugar_call(exprs_view(elements@)),
        exprs_view(call@) == define_sugar_call(exprs_view(elements@)),
{
    broadcast use lemma_exprs_view;

    let ghost ev = exprs_view(elements@);
    let fun = &elements[1];
    let floc = fun.location();
    let fnl = fun.has_newline();
    let lam_args = tail_of(fa);
    let ghost lam_args_v = exprs_view(lam_args@);
    let lam_sym = Arc::new(
        Expr::Symbol { name: "lambda".to_owned(), location: floc, trailing_newline: false },
    );
    let ghost lam_sym_v = lam_sym@;
    let mut lam_list_elems: Vec<Arc<Expr>> = Vec::new();
    lam_list_elems.push(lam_sym);
    lam_list_elems.push(
        Arc::new(Expr::List { elements: lam_args, location: floc, trailing_newline: fnl }),
    );
    lam_list_elems.push(arc_clone(&elements[2]));
    let ghost lam_list_v = exprs_view(lam_list_elems@);
    proof {
        assert(lam_list_v.len() == 3);
        assert(lam_list_v[0] == lam_sym_v);
        assert(lam_list_v[1]->List_elements == lam_args_v);
        assert(lam_list_v[2] == ev[2]);
    }
    let lambda = Arc::new(
        Expr::List { elements: lam_list_elems, location: floc, trailing_newline: fnl },
    );
    let ghost lambda_v = lambda@;
    proof {
        assert(lambda_v->List_elements == lam_list_v);
    }
    let mut call: Vec<Arc<Expr>> = Vec::new();
    call.push(arc_clone(&elements[0]));
    call.push(arc_clone(&fa[0]));
    call.push(lambda);
    proof {
        reveal(define_sugar_call);
        let fune = ev[1];
        assert(ev[1] == (elements@[1])@);
        assert(fune->List_elements == exprs_view(fa@));
        let cv = exprs_view(call@);
        assert(cv.len() == 3);
        assert(cv[0] == ev[0]);
        assert(cv[1] == exprs_view(fa@)[0]);
        assert(cv[2] == lambda_v);
        assert(lam_args_v =~= (fune->List_elements).drop_first());
        assert(lam_sym_v == (ExprV::Symbol {
            name: "lambda"@,
            location: location_v(fune),
            trailing_newline: false,
        }));
        assert(lam_list_v[1] =~~= (ExprV::List {
            elements: (fune->List_elements).drop_first(),
            location: location_v(fune),
            trailing_newline: has_newline_v(fune),
        }));
        assert(lam_list_v =~~= seq![
            ExprV::Symbol {
                name: "lambda"@,
                location: location_v(fune),
                trailing_newline: false,
            },
            ExprV::List {
                elements: (fune->List_elements).drop_first(),
                location: location_v(fune),
                trailing_newline: has_newline_v(fune),
            },
            ev[2],
        ]);
        assert(lambda_v =~~= (ExprV::List {
            elements: seq![
                ExprV::Symbol {
                    name: "lambda"@,
                    location: location_v(fune),
                    trailing_newline: false,
                },
                ExprV::List {
                    elements: (fune->List_elements).drop_first(),
                    location: location_v(fune),
                    trailing_newline: has_newline_v(fune),
                },
                ev[2],
            ],
            location: location_v(fune),
            trailing_newline: has_newline_v(fune),
        }));
        assert(cv =~~= define_sugar_call(ev));
    }
    call
}

/// `(define name value)` binds; `(define (f a) body)` is rewritten to bind
/// `f` to a lambda, carrying the original form's source metadata.
#[verifier::loop_isolation(false)]
#[verifier::rlimit(100)]
fn eval_define(elements: &Vec<Arc<Expr>>, env: &mut Env, frame: usize, fuel: u64) -> (r: Result<
    Arc<Expr>,
    EvalError,
>)
    requires
        old(env).inv(),
        frame < old(env)@.frames.len(),
    ensures
        final(env).inv(),
        old(env)@.frames.len() <= final(env)@.frames.len(),
        matches_out(
            spec_eval_define(fuel as nat, exprs_view(elements@), old(env)@, frame as int),
            r,
            final(env)@,
        ),
    decreases fuel, 0int,
{
    broadcast use lemma_exprs_view;

    let ghost ev = exprs_view(elements@);
    if fuel == 0 {
        return Err(EvalError::DepthExceeded);
    }
    if elements.len() != 3 {
        return Err(
            EvalError::ArityMismatch { expected: ArgCount::Exact(3), got: elements.len() },
        );
    }
    match &*elements[1] {
        Expr::List { elements: fa, .. } => {
            proof {
                assert(exprs_view(elements@)[1] == (elements@[1])@);
                assert(ev[1]->List_elements == exprs_view(fa@));
                assert(exprs_view(fa@).len() == fa@.len());
            }
            if fa.len() == 0 {
                return Err(EvalError::DefineSyntax);
            }
            let call = build_define_call(elements, fa);
            proof {
                assert(ev.len() == 3);
                assert(ev[1] == (elements@[1])@);
                assert(ev[1]->List_elements == exprs_view(fa@));
                assert(exprs_view(fa@).len() == fa@.len());
                assert(ev[1] matches ExprV::List { elements: fav, .. } && fav.len() >= 1);
                assert(exprs_view(call@) == define_sugar_call(ev));
                assert(spec_eval_define(fuel as nat, ev, old(env)@, frame as int)
                    == spec_eval_define_impl(
                    (fuel as nat - 1) as nat,
                    define_sugar_call(ev),
                    old(env)@,
                    frame as int,
                ));
                assert((fuel as nat - 1) as nat == (fuel - 1) as nat);
                assert(spec_eval_define(fuel as nat, ev, old(env)@, frame as int)
                    == spec_eval_define_impl(
                    (fuel - 1) as nat,
                    exprs_view(call@),
                    old(env)@,
                    frame as int,
                ));
            }
            eval_define_impl(&call, env, frame, fuel - 1)
        },
        _ => {
            proof {
                assert(exprs_view(elements@)[1] == (elements@[1])@);
                assert(spec_eval_define(fuel as nat, ev, old(env)@, frame as int)
                    == spec_eval_define_impl((fuel - 1) as nat, ev, old(env)@, frame as int));
            }
            eval_define_impl(elements, env, frame, fuel - 1)
        },
    }
}

#[verifier::rlimit(100)]
fn eval_define_impl(elements: &Vec<Arc<Expr>>, env: &mut Env, frame: usize, fuel: u64) -> (r:
    Result<Arc<Expr>, EvalError>)
    requires
        old(env).inv(),
        frame < old(env)@.frames.len(),
    ensures
        final(env).inv(),
        old(env)@.frames.len() <= final(env)@.frames.len(),
        matches_out(
            spec_eval_define_impl(fuel as nat, exprs_view(elements@), old(env)@, frame as int),
            r,
            final(env)@,
        ),
    decreases fuel, 0int,
{
    broadcast use lemma_exprs_view;

    if fuel == 0 {
        return Err(EvalError::DepthExceeded);
    }
    if elements.len() < 3 {
        return Err(EvalError::DefineSyntax);
    }
    match &*elements[1] {
        Expr::Symbol { name, .. } => {
            match eval(&elements[2], env, frame, fuel - 1) {
                Ok(v) => {
                    env.insert(frame, name.clone(), arc_clone(&v));
                    Ok(v)
                },
                Err(e) => Err(e),
            }
        },
        Expr::List { .. } => {
            let _child = env.make_child(frame);
            Err(EvalError::NotASymbol)
        },
        _ => Err(EvalError::DefineSyntax),
    }
}

/// `(defmacro (name p1 p2) body)` binds `name` to a macro capturing the
/// defining frame.
#[verifier::rlimit(100)]
fn eval_defmacro(elements: &Vec<Arc<Expr>>, env: &mut Env, frame: usize, fuel: u64) -> (r: Result<
    Arc<Expr>,
    EvalError,
>)
    requires
        old(env).inv(),
        frame < old(env)@.frames.len(),
    ensures
        final(env).inv(),
        old(env)@.frames.len() <= final(env)@.frames.len(),
        matches_out(
            spec_eval_defmacro(fuel as nat, exprs_view(elements@), old(env)@, frame as int),
            r,
            final(env)@,
        ),
    decreases fuel, 0int,
{
    broadcast use lemma_exprs_view;

    if fuel == 0 {
        return Err(EvalError::DepthExceeded);
    }
    if elements.len() != 3 {
        return Err(
            EvalError::ArityMismatch { expected: ArgCount::Exact(3), got: elements.len() },
        );
    }
    match &*elements[1] {
        Expr::List { elements: na, .. } => {
            if na.len() == 0 {
                return Err(EvalError::DefmacroSyntax);
            }
            let macro_name = match &*na[0] {
                Expr::Symbol { name, .. } => name.clone(),
                _ => {
                    return Err(EvalError::NotASymbol);
                },
            };
            proof {
                assert(exprs_view(na@).subrange(1, na@.len() as int) =~= exprs_view(
                    na@,
                ).drop_first());
            }
            match symbol_names_from(na, 1) {
                Ok(argnames) => {
                    let mac = Arc::new(
                        Expr::Macro { args: argnames, body: arc_clone(&elements[2]), env: frame },
                    );
                    proof {
                        assert(mac@->Macro_args =~= (spec_symbol_names(
                            exprs_view(na@).drop_first(),
                        ))->Ok_0);
                        assert(mac@ =~~= (ExprV::Macro {
                            args: (spec_symbol_names(exprs_view(na@).drop_first()))->Ok_0,
                            body: Box::new(exprs_view(elements@)[2]),
                            env: frame as usize,
                        }));
                    }
                    env.insert(frame, macro_name, arc_clone(&mac));
                    Ok(mac)
                },
                Err(e) => Err(e),
            }
        },
        _ => Err(EvalError::DefmacroSyntax),
    }
}

/// `(lambda (a b) body)` closes over a fresh child of the current frame.
#[verifier::rlimit(100)]
fn eval_lambda(elements: &Vec<Arc<Expr>>, env: &mut Env, frame: usize, fuel: u64) -> (r: Result<
    Arc<Expr>,
    EvalError,
>)
    requires
        old(env).inv(),
        frame < old(env)@.frames.len(),
    ensures
        final(env).inv(),
        old(env)@.frames.len() <= final(env)@.frames.len(),
        matches_out(
            spec_eval_lambda(fuel as nat, exprs_view(elements@), old(env)@, frame as int),
            r,
            final(env)@,
        ),
    decreases fuel, 0int,
{
    broadcast use lemma_exprs_view;

    if fuel == 0 {
        return Err(EvalError::DepthExceeded);
    }
    if elements.len() != 3 {
        return Err(
            EvalError::ArityMismatch { expected: ArgCount::Exact(3), got: elements.len() },
        );
    }
    match &*elements[1] {
        Expr::List { elements: args, .. } => {
            let newf = env.make_child(frame);
            proof {
                assert(exprs_view(args@).subrange(0, args@.len() as int) =~= exprs_view(args@));
            }
            match symbol_names_from(args, 0) {
                Ok(ns) => {
                    let clo = Arc::new(
                        Expr::Clausure { args: ns, body: arc_clone(&elements[2]), env: newf },
                    );
                    proof {
                        assert(clo@->Clausure_args =~= (spec_symbol_names(exprs_view(args@)))->Ok_0);
                        assert(clo@ =~~= (ExprV::Clausure {
                            args: (spec_symbol_names(exprs_view(args@)))->Ok_0,
                            body: Box::new(exprs_view(elements@)[2]),
                            env: newf,
                        }));
                    }
                    Ok(clo)
                },
                Err(e) => Err(e),
            }
        },
        _ => Err(EvalError::LambdaSyntax),
    }
}

/// `(let ((a e1) (b e2)) body)`: sequential bindings in one new frame, then
/// the body in that frame.
#[verifier::rlimit(100)]
fn eval_let(elements: &Vec<Arc<Expr>>, env: &mut Env, frame: usize, fuel: u64) -> (r: Result<
    Arc<Expr>,
    EvalError,
>)
    requires
        old(env).inv(),
        frame < old(env)@.frames.len(),
    ensures
        final(env).inv(),
        old(env)@.frames.len() <= final(env)@.frames.len(),
        matches_out(
            spec_eval_let(fuel as nat, exprs_view(elements@), old(env)@, frame as int),
            r,
            final(env)@,
        ),
    decreases fuel, 0int,
{
    broadcast use lemma_exprs_view;

    if fuel == 0 {
        return Err(EvalError::DepthExceeded);
    }
    if elements.len() != 3 {
        return Err(
            EvalError::ArityMismatch { expected: ArgCount::Exact(3), got: elements.len() },
        );
    }
    match &*elements[1] {
        Expr::List { elements: bindings, .. } => {
            let newf = env.make_child(frame);
            match bind_let(bindings, env, newf, fuel - 1) {
                Ok(u) => eval(&elements[2], env, newf, fuel - 1),
                Err(e) => Err(e),
            }
        },
        _ => Err(EvalError::LetSyntax),
    }
}

/// Evaluates `let` bindings in order; each sees the ones before it.
#[verifier::loop_isolation(false)]
#[verifier::rlimit(100)]
fn bind_let(bindings: &Vec<Arc<Expr>>, env: &mut Env, newf: usize, fuel: u64) -> (r: Result<
    (),
    EvalError,
>)
    requires
        old(env).inv(),
        newf < old(env)@.frames.len(),
    ensures
        final(env).inv(),
        old(env)@.frames.len() <= final(env)@.frames.len(),
        ({
            let (rb, envafter) = spec_bind_let(
                fuel as nat,
                exprs_view(bindings@),
                0,
                old(env)@,
                newf as int,
            );
            final(env)@ == envafter && (match r {
                Ok(u) => rb is Ok,
                Err(e) => rb == Err::<(), ErrV>(e@),
            })
        }),
    decreases fuel, 1int,
{
    broadcast use lemma_exprs_view;

    let ghost bv = exprs_view(bindings@);
    let ghost env0 = env@;
    let mut i: usize = 0;
    while i < bindings.len()
        invariant
            i <= bindings@.len(),
            env.inv(),
            env0.frames.len() <= env@.frames.len(),
            newf < env@.frames.len(),
            ({
                let (rb, envafter) = spec_bind_let(fuel as nat, bv, i as int, env@, newf as int);
                spec_bind_let(fuel as nat, bv, 0, env0, newf as int) == (rb, envafter)
            }),
        decreases bindings@.len() - i,
    {
        if fuel == 0 {
            proof {
                assert(spec_bind_let(fuel as nat, bv, i as int, env@, newf as int) == (
                    Err::<(), ErrV>(ErrV::DepthExceeded),
                    env@,
                ));
            }
            return Err(EvalError::DepthExceeded);
        }
        let ghost envpre = env@;
        proof {
            assert(bv[i as int] == expr_view(*bindings@[i as int]));
        }
        match &*bindings[i] {
            Expr::List { elements: be, .. } => {
                proof {
                    assert(bv[i as int]->List_elements == exprs_view(be@));
                }
                if be.len() != 2 {
                    proof {
                        assert(spec_bind_let(fuel as nat, bv, i as int, envpre, newf as int) == (
                            Err::<(), ErrV>(ErrV::LetSyntax),
                            envpre,
                        ));
                    }
                    return Err(EvalError::LetSyntax);
                }
                match &*be[0] {
                    Expr::Symbol { name, .. } => {
                        proof {
                            assert(exprs_view(be@)[0] == expr_view(*be@[0]));
                            assert(exprs_view(be@)[1] == expr_view(*be@[1]));
                        }
                        match eval(&be[1], env, newf, fuel - 1) {
                            Ok(v) => {
                                let ghost vv = v@;
                                let ghost enveval = env@;
                                env.insert(newf, name.clone(), v);
                                proof {
                                    assert(spec_bind_let(
                                        fuel as nat,
                                        bv,
                                        i as int,
                                        envpre,
                                        newf as int,
                                    ) == spec_bind_let(
                                        fuel as nat,
                                        bv,
                                        i + 1 as int,
                                        env_insert(
                                            enveval,
                                            newf as int,
                                            expr_view(*be@[0])->Symbol_name,
                                            vv,
                                        ),
                                        newf as int,
                                    ));
                                }
                            },
                            Err(e) => {
                                return Err(e);
                            },
                        }
                    },
                    _ => {
                        return Err(EvalError::NotASymbol);
                    },
                }
            },
            _ => {
                return Err(EvalError::LetSyntax);
            },
        }
        i = i + 1;
    }
    Ok(())
}

/// `(if c a b)`: every condition value other than the literal symbol `#f`
/// is truthy, `0` and non-symbols included; only the taken branch is
/// evaluated.
#[verifier::rlimit(100)]
fn eval_if(elements: &Vec<Arc<Expr>>, env: &mut Env, frame: usize, fuel: u64) -> (r: Result<
    Arc<Expr>,
    EvalError,
>)
    requires
        old(env).inv(),
        frame < old(env)@.frames.len(),
    ensures
        final(env).inv(),
        old(env)@.frames.len() <= final(env)@.frames.len(),
        matches_out(
            spec_eval_if(fuel as nat, exprs_view(elements@), old(env)@, frame as int),
            r,
            final(env)@,
        ),
    decreases fuel, 0int,
{
    broadcast use lemma_exprs_view;

    if fuel == 0 {
        return Err(EvalError::DepthExceeded);
    }
    if elements.len() != 4 {
        return Err(
            EvalError::ArityMismatch { expected: ArgCount::Exact(4), got: elements.len() },
        );
    }
    let cond = match eval(&elements[1], env, frame, fuel - 1) {
        Ok(c) => c,
        Err(e) => {
            return Err(e);
        },
    };
    if cond.is_symbol("#f") {
        eval(&elements[3], env, frame, fuel - 1)
    } else {
        eval(&elements[2], env, frame, fuel - 1)
    }
}

/// The quasiquote walk at a nesting level.
#[verifier::rlimit(100)]
fn eval_quasiquote(expr: &Arc<Expr>, env: &mut Env, frame: usize, fuel: u64, level: u64) -> (r:
    Result<Arc<Expr>, EvalError>)
    requires
        old(env).inv(),
        frame < old(env)@.frames.len(),
        level >= 1,
        level as int <= u64::MAX - fuel as int,
    ensures
        final(env).inv(),
        old(env)@.frames.len() <= final(env)@.frames.len(),
        matches_out(
            spec_eval_quasiquote(fuel as nat, expr@, old(env)@, frame as int, level as nat),
            r,
            final(env)@,
        ),
    decreases fuel, 0int,
{
    if fuel == 0 {
        return Err(EvalError::DepthExceeded);
    }
    match &**expr {
        Expr::Unquote { expr: inner, location, trailing_newline } => {
            if level == 1 {
                eval(inner, env, frame, fuel - 1)
            } else {
                match eval_quasiquote(inner, env, frame, fuel - 1, level - 1) {
                    Ok(v) => Ok(
                        Arc::new(
                            Expr::Unquote {
                                expr: v,
                                location: *location,
                                trailing_newline: *trailing_newline,
                            },
                        ),
                    ),
                    Err(e) => Err(e),
                }
            }
        },
        Expr::Quasiquote { expr: inner, location, trailing_newline } => {
            match eval_quasiquote(inner, env, frame, fuel - 1, level + 1) {
                Ok(v) => Ok(
                    Arc::new(
                        Expr::Quasiquote {
                            expr: v,
                            location: *location,
                            trailing_newline: *trailing_newline,
                        },
                    ),
                ),
                Err(e) => Err(e),
            }
        },
        Expr::List { elements, location, trailing_newline } => {
            match qq_elems(elements, env, frame, fuel - 1, level) {
                Ok(es) => Ok(
                    Arc::new(
                        Expr::List {
                            elements: es,
                            location: *location,
                            trailing_newline: *trailing_newline,
                        },
                    ),
                ),
                Err(e) => Err(e),
            }
        },
        _ => Ok(arc_clone(expr)),
    }
}

/// The quasiquote walk over a list's elements, in order.
#[verifier::loop_isolation(false)]
#[verifier::rlimit(100)]
fn qq_elems(elements: &Vec<Arc<Expr>>, env: &mut Env, frame: usize, fuel: u64, level: u64) -> (r:
    Result<Vec<Arc<Expr>>, EvalError>)
    requires
        old(env).inv(),
        frame < old(env)@.frames.len(),
        level >= 1,
        level as int <= u64::MAX - fuel as int,
    ensures
        final(env).inv(),
        old(env)@.frames.len() <= final(env)@.frames.len(),
        ({
            let (re, envafter) = spec_qq_elems(
                fuel as nat,
                exprs_view(elements@),
                0,
                old(env)@,
                frame as int,
                level as nat,
            );
            final(env)@ == envafter && (match r {
                Ok(vs) => re == Ok::<Seq<ExprV>, ErrV>(exprs_view(vs@)),
                Err(e) => re == Err::<Seq<ExprV>, ErrV>(e@),
            })
        }),
    decreases fuel, 1int,
{
    broadcast use lemma_exprs_view;

    let ghost ev = exprs_view(elements@);
    let ghost env0 = env@;
    let mut out: Vec<Arc<Expr>> = Vec::new();
    let mut j: usize = 0;
    proof {
        assert(exprs_view(out@) =~= Seq::<ExprV>::empty());
    }
    while j < elements.len()
        invariant
            j <= elements@.len(),
            env.inv(),
            env0.frames.len() <= env@.frames.len(),
            frame < env@.frames.len(),
            ({
                let (re, envafter) = spec_qq_elems(
                    fuel as nat,
                    ev,
                    j as int,
                    env@,
                    frame as int,
                    level as nat,
                );
                match re {
                    Ok(rest) => spec_qq_elems(fuel as nat, ev, 0, env0, frame as int, level as nat)
                        == (Ok::<Seq<ExprV>, ErrV>(exprs_view(out@) + rest), envafter),
                    Err(e) => spec_qq_elems(fuel as nat, ev, 0, env0, frame as int, level as nat)
                        == (Err::<Seq<ExprV>, ErrV>(e), envafter),
                }
            }),
        decreases elements@.len() - j,
    {
        if fuel == 0 {
            return Err(EvalError::DepthExceeded);
        }
        match eval_quasiquote(&elements[j], env, frame, fuel - 1, level) {
            Ok(v) => {
                let ghost prevout = out@;
                out.push(v);
                proof {
                    assert(exprs_view(out@) =~= exprs_view(prevout).push(out@.last()@));
                    let (re, envafter) = spec_qq_elems(
                        fuel as nat,
                        ev,
                        j + 1 as int,
                        env@,
                        frame as int,
                        level as nat,
                    );
                    if re is Ok {
                        assert(exprs_view(prevout) + (seq![out@.last()@] + re->Ok_0)
                            =~= exprs_view(out@) + re->Ok_0);
                    }
                }
            },
            Err(e) => {
                return Err(e);
            },
        }
        j = j + 1;
    }
    proof {
        assert(exprs_view(out@) + Seq::<ExprV>::empty() =~= exprs_view(out@));
    }
    Ok(out)
}

/// Applies a special form, by name, to its unevaluated arguments.
#[verifier::rlimit(100)]
fn apply_spform(name: &str, args: &Vec<Arc<Expr>>, env: &mut Env, frame: usize, fuel: u64) -> (r:
    Result<Arc<Expr>, EvalError>)
    requires
        old(env).inv(),
        frame < old(env)@.frames.len(),
    ensures
        final(env).inv(),
        old(env)@.frames.len() <= final(env)@.frames.len(),
        matches_out(
            spec_apply_spform(fuel as nat, name@, exprs_view(args@), old(env)@, frame as int),
            r,
            final(env)@,
        ),
    decreases fuel, 2int,
{
    if fuel == 0 {
        return Err(EvalError::DepthExceeded);
    }
    proof {
        reveal_strlit("list?");
        reveal_strlit("car");
        reveal_strlit("cdr");
        reveal_strlit("null?");
    }
    if str_eq(name, "list?") {
        prim_list_p(args, env, frame, fuel)
    } else if str_eq(name, "car") {
        prim_first(args, env, frame, fuel)
    } else if str_eq(name, "cdr") {
        prim_rest(args, env, frame, fuel)
    } else if str_eq(name, "null?") {
        prim_null_p(args, env, frame, fuel)
    } else {
        Err(EvalError::UnknownBuiltin { name: name.to_owned() })
    }
}

/// `(list? e)`: whether `e` evaluates to a list.
#[verifier::rlimit(100)]
fn prim_list_p(args: &Vec<Arc<Expr>>, env: &mut Env, frame: usize, fuel: u64) -> (r: Result<
    Arc<Expr>,
    EvalError,
>)
    requires
        old(env).inv(),
        frame < old(env)@.frames.len(),
        fuel >= 1,
    ensures
        final(env).inv(),
        old(env)@.frames.len() <= final(env)@.frames.len(),
        matches_out(
            spec_sp_list_p(fuel as nat, exprs_view(args@), old(env)@, frame as int),
            r,
            final(env)@,
        ),
    decreases fuel, 1int,
{
    broadcast use lemma_exprs_view;

    if args.len() != 1 {
        return Err(EvalError::ArityMismatch { expected: ArgCount::Exact(1), got: args.len() });
    }
    match eval(&args[0], env, frame, fuel - 1) {
        Ok(v) => {
            if matches!(&*v, Expr::List { .. }) {
                Ok(Arc::new(Expr::symbol("#t")))
            } else {
                Ok(Arc::new(Expr::symbol("#f")))
            }
        },
        Err(e) => Err(e),
    }
}

/// `(car e)`: the first element of the list `e` evaluates to.
#[verifier::rlimit(100)]
fn prim_first(args: &Vec<Arc<Expr>>, env: &mut Env, frame: usize, fuel: u64) -> (r: Result<
    Arc<Expr>,
    EvalError,
>)
    requires
        old(env).inv(),
        frame < old(env)@.frames.len(),
        fuel >= 1,
    ensures
        final(env).inv(),
        old(env)@.frames.len() <= final(env)@.frames.len(),
        matches_out(
            spec_sp_car(fuel as nat, exprs_view(args@), old(env)@, frame as int),
            r,
            final(env)@,
        ),
    decreases fuel, 1int,
{
    broadcast use lemma_exprs_view;

    if args.len() != 1 {
        return Err(EvalError::ArityMismatch { expected: ArgCount::Exact(1), got: args.len() });
    }
    match eval(&args[0], env, frame, fuel - 1) {
        Ok(v) => {
            proof {
                assert(exprs_view(args@)[0] == (args@[0])@);
            }
            match &*v {
                Expr::List { elements, .. } => {
                    proof {
                        assert(v@->List_elements == exprs_view(elements@));
                    }
                    if elements.len() == 0 {
                        Err(EvalError::EmptyList)
                    } else {
                        proof {
                            assert(exprs_view(elements@)[0] == (elements@[0])@);
                        }
                        Ok(arc_clone(&elements[0]))
                    }
                },
                _ => Err(EvalError::ExpectedList),
            }
        },
        Err(e) => Err(e),
    }
}

/// `(cdr e)`: the list `e` evaluates to, without its first element; the
/// empty list stays empty.
#[verifier::rlimit(100)]
fn prim_rest(args: &Vec<Arc<Expr>>, env: &mut Env, frame: usize, fuel: u64) -> (r: Result<
    Arc<Expr>,
    EvalError,
>)
    requires
        old(env).inv(),
        frame < old(env)@.frames.len(),
        fuel >= 1,
    ensures
        final(env).inv(),
        old(env)@.frames.len() <= final(env)@.frames.len(),
        matches_out(
            spec_sp_cdr(fuel as nat, exprs_view(args@), old(env)@, frame as int),
            r,
            final(env)@,
        ),
    decreases fuel, 1int,
{
    broadcast use lemma_exprs_view;

    if args.len() != 1 {
        return Err(EvalError::ArityMismatch { expected: ArgCount::Exact(1), got: args.len() });
    }
    match eval(&args[0], env, frame, fuel - 1) {
        Ok(v) => {
            proof {
                assert(exprs_view(args@)[0] == (args@[0])@);
            }
            match &*v {
                Expr::List { elements, location, trailing_newline } => {
                    proof {
                        assert(v@->List_elements == exprs_view(elements@));
                    }
                    if elements.len() == 0 {
                        let empty_elems: Vec<Arc<Expr>> = Vec::new();
                        proof {
                            assert(exprs_view(empty_elems@) =~= Seq::<ExprV>::empty());
                        }
                        let r = Arc::new(
                            Expr::List {
                                elements: empty_elems,
                                location: *location,
                                trailing_newline: *trailing_newline,
                            },
                        );
                        Ok(r)
                    } else {
                        let rest = tail_of(elements);
                        let r = Arc::new(
                            Expr::List {
                                elements: rest,
                                location: *location,
                                trailing_newline: *trailing_newline,
                            },
                        );
                        Ok(r)
                    }
                },
                _ => Err(EvalError::ExpectedList),
            }
        },
        Err(e) => Err(e),
    }
}

/// `(null? e)`: whether `e` evaluates to the empty list.
#[verifier::rlimit(100)]
fn prim_null_p(args: &Vec<Arc<Expr>>, env: &mut Env, frame: usize, fuel: u64) -> (r: Result<
    Arc<Expr>,
    EvalError,
>)
    requires
        old(env).inv(),
        frame < old(env)@.frames.len(),
        fuel >= 1,
    ensures
        final(env).inv(),
        old(env)@.frames.len() <= final(env)@.frames.len(),
        matches_out(
            spec_sp_null_p(fuel as nat, exprs_view(args@), old(env)@, frame as int),
            r,
            final(env)@,
        ),
    decreases fuel, 1int,
{
    broadcast use lemma_exprs_view;

    if args.len() != 1 {
        return Err(EvalError::ArityMismatch { expected: ArgCount::Exact(1), got: args.len() });
    }
    match eval(&args[0], env, frame, fuel - 1) {
        Ok(v) => {
            proof {
                assert(exprs_view(args@)[0] == (args@[0])@);
            }
            match &*v {
                Expr::List { elements, .. } => {
                    proof {
                        assert(v@->List_elements == exprs_view(elements@));
                    }
                    if elements.len() == 0 {
                        Ok(Arc::new(Expr::symbol("#t")))
                    } else {
                        Ok(Arc::new(Expr::symbol("#f")))
                    }
                },
                _ => Ok(Arc::new(Expr::symbol("#f"))),
            }
        },
        Err(e) => Err(e),
    }
}

} // verus!

verus! {

use crate::value::{cast_evaled, Evaled, spec_cast};
use crate::env::Model;

/// The sequential evaluation of a program's top-level expressions: each gets
/// the full depth budget, and the run stops at the first error.  An empty
/// program yields the empty list.
pub open spec fn spec_eval_exprs(fuel: nat, es: Seq<ExprV>, env: EnvV, frame: int) -> EvalOut
    decreases es.len(),
{
    if es.len() == 0 {
        EvalOut {
            res: Ok(
                ExprV::List { elements: Seq::empty(), location: None, trailing_newline: false },
            ),
            env,
        }
    } else {
        let out = spec_eval(fuel, es[0], env, frame);
        match out.res {
            Err(e) => out,
            Ok(v) => if es.len() == 1 {
                out
            } else {
                spec_eval_exprs(fuel, es.drop_first(), out.env, frame)
            },
        }
    }
}

/// Moves a program's expressions behind shared pointers.
#[verifier::loop_isolation(false)]
fn arcs_of(exprs: Vec<Expr>) -> (r: Vec<Arc<Expr>>)
    ensures
        exprs_view(r@) == crate::parser::program_view(exprs@),
{
    broadcast use lemma_exprs_view, crate::parser::lemma_program_view;

    let ghost orig = exprs@;
    let mut rest = exprs;
    let mut out: Vec<Arc<Expr>> = Vec::new();
    while rest.len() > 0
        invariant
            out@.len() + rest@.len() == orig.len(),
            forall|k: int| 0 <= k < out@.len() ==> *(#[trigger] out@[k]) == orig[k],
            forall|k: int| 0 <= k < rest@.len() ==> #[trigger] rest@[k] == orig[out@.len() + k],
        decreases rest@.len(),
    {
        let e = rest.remove(0);
        out.push(Arc::new(e));
    }
    proof {
        assert(exprs_view(out@) =~= crate::parser::program_view(orig));
    }
    out
}

/// Evaluates a program's top-level expressions in order, stopping at the
/// first error, and bundles what the host needs: the last value, the
/// frame's mesh store, and its preview worklist.
#[verifier::loop_isolation(false)]
#[verifier::rlimit(100)]
pub fn eval_exprs(exprs: Vec<Expr>, env: &mut Env, frame: usize, fuel: u64) -> (r: Result<
    Evaled,
    EvalError,
>)
    requires
        old(env).inv(),
        frame < old(env)@.frames.len(),
    ensures
        final(env).inv(),
        old(env)@.frames.len() <= final(env)@.frames.len(),
        ({
            let out = spec_eval_exprs(
                fuel as nat,
                crate::parser::program_view(exprs@),
                old(env)@,
                frame as int,
            );
            final(env)@ == out.env && (match r {
                Ok(ev) => {
                    &&& out.res matches Ok(v) && ev.value@ == spec_cast(v)
                    &&& ev.previews@ == out.env.frames[frame as int].preview_list
                    &&& forall|i: int|
                        0 <= i < ev.polys@.len() ==> out.env.frames[frame as int].models.contains_key(
                            (#[trigger] ev.polys@[i]).0,
                        ) && out.env.frames[frame as int].models[ev.polys@[i].0] == Model::Mesh(
                            ev.polys@[i].1,
                        )
                    &&& forall|id: crate::env::ModelId| #[trigger]
                        out.env.frames[frame as int].models.contains_key(id) ==> (out.env.frames[
                            frame as int
                        ].models[id] matches Model::Mesh(h) ==> exists|i: int|
                            0 <= i < ev.polys@.len() && #[trigger] ev.polys@[i] == (id, h))
                },
                Err(e) => out.res == Err::<ExprV, ErrV>(e@),
            })
        }),
{
    broadcast use crate::parser::lemma_program_view, lemma_exprs_view;

    let ghost pv = crate::parser::program_view(exprs@);
    let arcs = arcs_of(exprs);
    let ghost env0 = env@;
    let mut last: Arc<Expr> = Arc::new(Expr::nil());
    let mut i: usize = 0;
    proof {
        assert(pv.subrange(0, pv.len() as int) =~= pv);
        if pv.len() == 0 {
            assert(last@->List_elements =~= Seq::<ExprV>::empty());
        }
    }
    while i < arcs.len()
        invariant
            arcs@.len() == pv.len(),
            exprs_view(arcs@) == pv,
            i <= arcs@.len(),
            env.inv(),
            env0.frames.len() <= env@.frames.len(),
            frame < env@.frames.len(),
            ({
                let here = spec_eval_exprs(fuel as nat, pv.subrange(i as int, pv.len() as int), env@, frame as int);
                let total = spec_eval_exprs(fuel as nat, pv, env0, frame as int);
                if i < arcs@.len() {
                    total == here
                } else {
                    total == (EvalOut { res: Ok(last@), env: env@ })
                }
            }),
        decreases arcs@.len() - i,
    {
        let ghost pre = env@;
        match eval(&arcs[i], env, frame, fuel) {
            Ok(v) => {
                proof {
                    let rest = pv.subrange(i as int, pv.len() as int);
                    assert(rest[0] == pv[i as int]);
                    assert(pv[i as int] == (arcs@[i as int])@);
                    assert(rest.drop_first() =~= pv.subrange(i + 1 as int, pv.len() as int));
                }
                last = v;
            },
            Err(e) => {
                proof {
                    let rest = pv.subrange(i as int, pv.len() as int);
                    assert(rest[0] == pv[i as int]);
                    assert(pv[i as int] == (arcs@[i as int])@);
                }
                return Err(e);
            },
        }
        i = i + 1;
    }
    proof {
        if pv.len() == 0 {
            assert(pv.subrange(0, pv.len() as int) =~= pv);
            assert(pv.len() == 0);
            assert(last@ =~~= (ExprV::List {
                elements: Seq::<ExprV>::empty(),
                location: None,
                trailing_newline: false,
            }));
        }
    }
    let value = cast_evaled(&last);
    let polys = env.polys(frame);
    let previews = env.preview_list(frame);
    Ok(Evaled { value, polys, previews })
}

/// The spec-level environment that `default_env` builds: one root frame with
/// the builtins and special forms bound under their names.
pub open spec fn initial_env_v() -> EnvV {
    EnvV {
        frames: seq![
            crate::env::FrameV {
                parent: None,
                vars: Map::empty(),
                depth: 0,
                models: Map::empty(),
                preview_list: Seq::empty(),
            },
        ],
        next_id: 1,
    }
}

pub open spec fn default_env_v() -> EnvV {
    env_insert(
        env_insert(
            env_insert(
                env_insert(
                    env_insert(
                        env_insert(
                            env_insert(
                                env_insert(
                                    env_insert(
                                        env_insert(
                                            env_insert(
                                                initial_env_v(),
                                                0,
                                                "+"@,
                                                ExprV::Builtin { name: "+"@ },
                                            ),
                                            0,
                                            "-"@,
                                            ExprV::Builtin { name: "-"@ },
                                        ),
                                        0,
                                        "<"@,
                                        ExprV::Builtin { name: "<"@ },
                                    ),
                                    0,
                                    ">"@,
                                    ExprV::Builtin { name: ">"@ },
                                ),
                                0,
                                "<="@,
                                ExprV::Builtin { name: "<="@ },
                            ),
                            0,
                            ">="@,
                            ExprV::Builtin { name: ">="@ },
                        ),
                        0,
                        "list"@,
                        ExprV::Builtin { name: "list"@ },
                    ),
                    0,
                    "list?"@,
                    ExprV::SpecialForm { name: "list?"@ },
                ),
                0,
                "car"@,
                ExprV::SpecialForm { name: "car"@ },
            ),
            0,
            "cdr"@,
            ExprV::SpecialForm { name: "cdr"@ },
        ),
        0,
        "null?"@,
        ExprV::SpecialForm { name: "null?"@ },
    )
}

/// A fresh root environment with every builtin and special form bound under
/// its name.
pub fn default_env() -> (r: Env)
    ensures
        r.inv(),
        r@ == default_env_v(),
        r@.frames.len() == 1,
{
    let mut env = Env::new();
    proof {
        assert(env@ =~~= initial_env_v());
    }
    env.insert(0, "+".to_owned(), Arc::new(Expr::Builtin { name: "+".to_owned() }));
    env.insert(0, "-".to_owned(), Arc::new(Expr::Builtin { name: "-".to_owned() }));
    env.insert(0, "<".to_owned(), Arc::new(Expr::Builtin { name: "<".to_owned() }));
    env.insert(0, ">".to_owned(), Arc::new(Expr::Builtin { name: ">".to_owned() }));
    env.insert(0, "<=".to_owned(), Arc::new(Expr::Builtin { name: "<=".to_owned() }));
    env.insert(0, ">=".to_owned(), Arc::new(Expr::Builtin { name: ">=".to_owned() }));
    env.insert(0, "list".to_owned(), Arc::new(Expr::Builtin { name: "list".to_owned() }));
    env.insert(0, "list?".to_owned(), Arc::new(Expr::SpecialForm { name: "list?".to_owned() }));
    env.insert(0, "car".to_owned(), Arc::new(Expr::SpecialForm { name: "car".to_owned() }));
    env.insert(0, "cdr".to_owned(), Arc::new(Expr::SpecialForm { name: "cdr".to_owned() }));
    env.insert(0, "null?".to_owned(), Arc::new(Expr::SpecialForm { name: "null?".to_owned() }));
    env
}

} // verus!
