//! Typed extraction at the geometry boundary: every primitive uses these to
//! pull a number or a stored model object out of an argument, failing with a
//! typed error otherwise.  Model payloads are the host's opaque handles.
use vstd::prelude::*;

verus! {

use crate::env::{lookup_model, Env, Model};
use crate::eval::{ErrV, EvalError};
use crate::expr::{Expr, ExprV};

/// A numeric argument: an integer, or a double as the literal it was
/// written as; the host converts the text to its own floating-point type.
#[derive(Debug, PartialEq)]
pub enum Numeric {
    Integer(i64),
    Double(String),
}

/// Narrows an expression to a number.
pub fn number(expr: &Expr) -> (r: Result<Numeric, EvalError>)
    ensures
        match expr@ {
            ExprV::Integer { value, .. } => r matches Ok(n) && n matches Numeric::Integer(v) && v
                == value,
            ExprV::Double { text, .. } => r matches Ok(n) && (n matches Numeric::Double(t) && t@
                == text),
            _ => r matches Err(e) && e@ is ExpectedNumber,
        },
{
    match expr {
        Expr::Integer { value, .. } => Ok(Numeric::Integer(*value)),
        Expr::Double { text, .. } => Ok(Numeric::Double(text.clone())),
        _ => Err(EvalError::ExpectedNumber),
    }
}

/// Resolves a model reference through the store, walking the frame chain.
pub fn model(expr: &Expr, env: &Env, frame: usize) -> (r: Result<Model, EvalError>)
    requires
        env.inv(),
        frame < env@.frames.len(),
    ensures
        match expr@ {
            ExprV::Model { id, .. } => match lookup_model(env@, frame as int, id) {
                Some(m) => r == Ok::<Model, EvalError>(m),
                None => r matches Err(e) && e@ == (ErrV::ModelNotFound { id }),
            },
            _ => r matches Err(e) && e@ is ExpectedModel,
        },
{
    match expr {
        Expr::Model { id, .. } => match env.get_model(frame, *id) {
            Some(m) => Ok(m),
            None => Err(EvalError::ModelNotFound { id: *id }),
        },
        _ => Err(EvalError::ExpectedModel),
    }
}

/// Resolves a model reference and narrows it to a point, as a host handle.
pub fn point3(expr: &Expr, env: &Env, frame: usize) -> (r: Result<u64, EvalError>)
    requires
        env.inv(),
        frame < env@.frames.len(),
    ensures
        match expr@ {
            ExprV::Model { id, .. } => match lookup_model(env@, frame as int, id) {
                Some(m) => match m {
                    Model::Point3(h) => r == Ok::<u64, EvalError>(h),
                    _ => r matches Err(e) && e@ is WrongModelType,
                },
                None => r matches Err(e) && e@ == (ErrV::ModelNotFound { id }),
            },
            _ => r matches Err(e) && e@ is ExpectedModel,
        },
{
    match model(expr, env, frame) {
        Ok(m) => match m.as_point3() {
            Some(h) => Ok(h),
            None => Err(EvalError::WrongModelType),
        },
        Err(e) => Err(e),
    }
}

/// Resolves a model reference and narrows it to a vertex, as a host handle.
pub fn vertex(expr: &Expr, env: &Env, frame: usize) -> (r: Result<u64, EvalError>)
    requires
        env.inv(),
        frame < env@.frames.len(),
    ensures
        match expr@ {
            ExprV::Model { id, .. } => match lookup_model(env@, frame as int, id) {
                Some(m) => match m {
                    Model::Vertex(h) => r == Ok::<u64, EvalError>(h),
                    _ => r matches Err(e) && e@ is WrongModelType,
                },
                None => r matches Err(e) && e@ == (ErrV::ModelNotFound { id }),
            },
            _ => r matches Err(e) && e@ is ExpectedModel,
        },
{
    match model(expr, env, frame) {
        Ok(m) => match m.as_vertex() {
            Some(h) => Ok(h),
            None => Err(EvalError::WrongModelType),
        },
        Err(e) => Err(e),
    }
}

/// Resolves a model reference and narrows it to an edge, as a host handle.
pub fn edge(expr: &Expr, env: &Env, frame: usize) -> (r: Result<u64, EvalError>)
    requires
        env.inv(),
        frame < env@.frames.len(),
    ensures
        match expr@ {
            ExprV::Model { id, .. } => match lookup_model(env@, frame as int, id) {
                Some(m) => match m {
                    Model::Edge(h) => r == Ok::<u64, EvalError>(h),
                    _ => r matches Err(e) && e@ is WrongModelType,
                },
                None => r matches Err(e) && e@ == (ErrV::ModelNotFound { id }),
            },
            _ => r matches Err(e) && e@ is ExpectedModel,
        },
{
    match model(expr, env, frame) {
        Ok(m) => match m.as_edge() {
            Some(h) => Ok(h),
            None => Err(EvalError::WrongModelType),
        },
        Err(e) => Err(e),
    }
}

/// Resolves a model reference and narrows it to a wire, as a host handle.
pub fn wire(expr: &Expr, env: &Env, frame: usize) -> (r: Result<u64, EvalError>)
    requires
        env.inv(),
        frame < env@.frames.len(),
    ensures
        match expr@ {
            ExprV::Model { id, .. } => match lookup_model(env@, frame as int, id) {
                Some(m) => match m {
                    Model::Wire(h) => r == Ok::<u64, EvalError>(h),
                    _ => r matches Err(e) && e@ is WrongModelType,
                },
                None => r matches Err(e) && e@ == (ErrV::ModelNotFound { id }),
            },
            _ => r matches Err(e) && e@ is ExpectedModel,
        },
{
    match model(expr, env, frame) {
        Ok(m) => match m.as_wire() {
            Some(h) => Ok(h),
            None => Err(EvalError::WrongModelType),
        },
        Err(e) => Err(e),
    }
}

/// Resolves a model reference and narrows it to a face, as a host handle.
pub fn face(expr: &Expr, env: &Env, frame: usize) -> (r: Result<u64, EvalError>)
    requires
        env.inv(),
        frame < env@.frames.len(),
    ensures
        match expr@ {
            ExprV::Model { id, .. } => match lookup_model(env@, frame as int, id) {
                Some(m) => match m {
                    Model::Face(h) => r == Ok::<u64, EvalError>(h),
                    _ => r matches Err(e) && e@ is WrongModelType,
                },
                None => r matches Err(e) && e@ == (ErrV::ModelNotFound { id }),
            },
            _ => r matches Err(e) && e@ is ExpectedModel,
        },
{
    match model(expr, env, frame) {
        Ok(m) => match m.as_face() {
            Some(h) => Ok(h),
            None => Err(EvalError::WrongModelType),
        },
        Err(e) => Err(e),
    }
}

/// Resolves a model reference and narrows it to a shell, as a host handle.
pub fn shell(expr: &Expr, env: &Env, frame: usize) -> (r: Result<u64, EvalError>)
    requires
        env.inv(),
        frame < env@.frames.len(),
    ensures
        match expr@ {
            ExprV::Model { id, .. } => match lookup_model(env@, frame as int, id) {
                Some(m) => match m {
                    Model::Shell(h) => r == Ok::<u64, EvalError>(h),
                    _ => r matches Err(e) && e@ is WrongModelType,
                },
                None => r matches Err(e) && e@ == (ErrV::ModelNotFound { id }),
            },
            _ => r matches Err(e) && e@ is ExpectedModel,
        },
{
    match model(expr, env, frame) {
        Ok(m) => match m.as_shell() {
            Some(h) => Ok(h),
            None => Err(EvalError::WrongModelType),
        },
        Err(e) => Err(e),
    }
}

/// Resolves a model reference and narrows it to a solid, as a host handle.
pub fn solid(expr: &Expr, env: &Env, frame: usize) -> (r: Result<u64, EvalError>)
    requires
        env.inv(),
        frame < env@.frames.len(),
    ensures
        match expr@ {
            ExprV::Model { id, .. } => match lookup_model(env@, frame as int, id) {
                Some(m) => match m {
                    Model::Solid(h) => r == Ok::<u64, EvalError>(h),
                    _ => r matches Err(e) && e@ is WrongModelType,
                },
                None => r matches Err(e) && e@ == (ErrV::ModelNotFound { id }),
            },
            _ => r matches Err(e) && e@ is ExpectedModel,
        },
{
    match model(expr, env, frame) {
        Ok(m) => match m.as_solid() {
            Some(h) => Ok(h),
            None => Err(EvalError::WrongModelType),
        },
        Err(e) => Err(e),
    }
}

/// Resolves a model reference and narrows it to a mesh, as a host handle.
pub fn mesh(expr: &Expr, env: &Env, frame: usize) -> (r: Result<u64, EvalError>)
    requires
        env.inv(),
        frame < env@.frames.len(),
    ensures
        match expr@ {
            ExprV::Model { id, .. } => match lookup_model(env@, frame as int, id) {
                Some(m) => match m {
                    Model::Mesh(h) => r == Ok::<u64, EvalError>(h),
                    _ => r matches Err(e) && e@ is WrongModelType,
                },
                None => r matches Err(e) && e@ == (ErrV::ModelNotFound { id }),
            },
            _ => r matches Err(e) && e@ is ExpectedModel,
        },
{
    match model(expr, env, frame) {
        Ok(m) => match m.as_mesh() {
            Some(h) => Ok(h),
            None => Err(EvalError::WrongModelType),
        },
        Err(e) => Err(e),
    }
}

} // verus!
