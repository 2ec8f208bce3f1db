//! The expression tree: the one representation shared by syntax and values.
//!
//! An `Expr` is produced by the parser, consumed and produced by the
//! evaluator, and traced by the garbage collector.  Every node carries an
//! optional source offset (for diagnostics) and a flag recording whether the
//! node was followed by a newline in the source (formatting fidelity only).
//!
//! Double literals keep the text of the literal as written: the language core
//! never computes with them, and the host converts the text to its own
//! floating-point type at the boundary.
use std::sync::Arc;
use vstd::prelude::*;

verus! {

use crate::env::ModelId;
use crate::eval::EvalError;
use crate::strings::str_eq;

/// Relies on `Arc::clone`: the clone refers to the same value.
#[verifier::external_body]
pub fn arc_clone<T>(a: &Arc<T>) -> (res: Arc<T>)
    ensures
        res == *a,
{
    Arc::clone(a)
}

/// The mathematical model of an expression: the same tree over `Seq` values.
#[verifier::ext_equal]
pub enum ExprV {
    Symbol { name: Seq<char>, location: Option<usize>, trailing_newline: bool },
    List { elements: Seq<ExprV>, location: Option<usize>, trailing_newline: bool },
    Integer { value: i64, location: Option<usize>, trailing_newline: bool },
    String { value: Seq<char>, location: Option<usize>, trailing_newline: bool },
    Double { text: Seq<char>, location: Option<usize>, trailing_newline: bool },
    Model { id: ModelId, location: Option<usize>, trailing_newline: bool },
    Quote { expr: Box<ExprV>, location: Option<usize>, trailing_newline: bool },
    Quasiquote { expr: Box<ExprV>, location: Option<usize>, trailing_newline: bool },
    Unquote { expr: Box<ExprV>, location: Option<usize>, trailing_newline: bool },
    Builtin { name: Seq<char> },
    SpecialForm { name: Seq<char> },
    Clausure { args: Seq<Seq<char>>, body: Box<ExprV>, env: usize },
    Macro { args: Seq<Seq<char>>, body: Box<ExprV>, env: usize },
}

/// An expression node.  `Clausure` and `Macro` refer to the environment frame
/// captured at their definition site by its index in the environment arena.
#[derive(Debug, PartialEq)]
pub enum Expr {
    Symbol { name: String, location: Option<usize>, trailing_newline: bool },
    List { elements: Vec<Arc<Expr>>, location: Option<usize>, trailing_newline: bool },
    Integer { value: i64, location: Option<usize>, trailing_newline: bool },
    String { value: String, location: Option<usize>, trailing_newline: bool },
    Double { text: String, location: Option<usize>, trailing_newline: bool },
    Model { id: ModelId, location: Option<usize>, trailing_newline: bool },
    Quote { expr: Arc<Expr>, location: Option<usize>, trailing_newline: bool },
    Quasiquote { expr: Arc<Expr>, location: Option<usize>, trailing_newline: bool },
    Unquote { expr: Arc<Expr>, location: Option<usize>, trailing_newline: bool },
    Builtin { name: String },
    SpecialForm { name: String },
    Clausure { args: Vec<String>, body: Arc<Expr>, env: usize },
    Macro { args: Vec<String>, body: Arc<Expr>, env: usize },
}

pub open spec fn exprs_view(s: Seq<Arc<Expr>>) -> Seq<ExprV>
    decreases s,
{
    if s.len() == 0 {
        Seq::empty()
    } else {
        exprs_view(s.drop_last()).push(expr_view(*s.last()))
    }
}

pub open spec fn expr_view(e: Expr) -> ExprV
    decreases e,
{
    match e {
        Expr::Symbol { name, location, trailing_newline } => ExprV::Symbol {
            name: name@,
            location,
            trailing_newline,
        },
        Expr::List { elements, location, trailing_newline } => ExprV::List {
            elements: exprs_view(elements@),
            location,
            trailing_newline,
        },
        Expr::Integer { value, location, trailing_newline } => ExprV::Integer {
            value,
            location,
            trailing_newline,
        },
        Expr::String { value, location, trailing_newline } => ExprV::String {
            value: value@,
            location,
            trailing_newline,
        },
        Expr::Double { text, location, trailing_newline } => ExprV::Double {
            text: text@,
            location,
            trailing_newline,
        },
        Expr::Model { id, location, trailing_newline } => ExprV::Model {
            id,
            location,
            trailing_newline,
        },
        Expr::Quote { expr, location, trailing_newline } => ExprV::Quote {
            expr: Box::new(expr_view(*expr)),
            location,
            trailing_newline,
        },
        Expr::Quasiquote { expr, location, trailing_newline } => ExprV::Quasiquote {
            expr: Box::new(expr_view(*expr)),
            location,
            trailing_newline,
        },
        Expr::Unquote { expr, location, trailing_newline } => ExprV::Unquote {
            expr: Box::new(expr_view(*expr)),
            location,
            trailing_newline,
        },
        Expr::Builtin { name } => ExprV::Builtin { name: name@ },
        Expr::SpecialForm { name } => ExprV::SpecialForm { name: name@ },
        Expr::Clausure { args, body, env } => ExprV::Clausure {
            args: Seq::new(args@.len(), |i: int| args@[i]@),
            body: Box::new(expr_view(*body)),
            env,
        },
        Expr::Macro { args, body, env } => ExprV::Macro {
            args: Seq::new(args@.len(), |i: int| args@[i]@),
            body: Box::new(expr_view(*body)),
            env,
        },
    }
}

impl View for Expr {
    type V = ExprV;

    open spec fn view(&self) -> ExprV {
        expr_view(*self)
    }
}

/// `exprs_view` is the element-wise view of the sequence.
pub broadcast proof fn lemma_exprs_view(s: Seq<Arc<Expr>>)
    ensures
        (#[trigger] exprs_view(s)).len() == s.len(),
        forall|i: int| 0 <= i < s.len() ==> exprs_view(s)[i] == expr_view(*s[i]),
    decreases s,
{
    if s.len() > 0 {
        lemma_exprs_view(s.drop_last());
    }
}

impl Expr {
    pub fn symbol(name: &str) -> (r: Self)
        ensures
            r@ == (ExprV::Symbol { name: name@, location: None, trailing_newline: false }),
    {
        Expr::Symbol { name: name.to_owned(), location: None, trailing_newline: false }
    }

    pub fn integer(value: i64) -> (r: Self)
        ensures
            r@ == (ExprV::Integer { value, location: None, trailing_newline: false }),
    {
        Expr::Integer { value, location: None, trailing_newline: false }
    }

    /// A double literal, given as the text of the literal.
    pub fn double(text: String) -> (r: Self)
        ensures
            r@ == (ExprV::Double { text: text@, location: None, trailing_newline: false }),
    {
        Expr::Double { text, location: None, trailing_newline: false }
    }

    pub fn string(value: String) -> (r: Self)
        ensures
            r@ == (ExprV::String { value: value@, location: None, trailing_newline: false }),
    {
        Expr::String { value, location: None, trailing_newline: false }
    }

    pub fn model(id: ModelId) -> (r: Self)
        ensures
            r@ == (ExprV::Model { id, location: None, trailing_newline: false }),
    {
        Expr::Model { id, location: None, trailing_newline: false }
    }

    pub fn list(elements: Vec<Arc<Expr>>) -> (r: Self)
        ensures
            r@ == (ExprV::List {
                elements: exprs_view(elements@),
                location: None,
                trailing_newline: false,
            }),
    {
        Expr::List { elements, location: None, trailing_newline: false }
    }

    /// The empty list.
    pub fn nil() -> (r: Self)
        ensures
            r@ == (ExprV::List {
                elements: Seq::<ExprV>::empty(),
                location: None,
                trailing_newline: false,
            }),
    {
        let r = Expr::list(Vec::new());
        proof {
            assert(r@->List_elements =~= Seq::<ExprV>::empty());
        }
        r
    }

    pub fn quote(expr: Expr) -> (r: Self)
        ensures
            r@ == (ExprV::Quote { expr: Box::new(expr@), location: None, trailing_newline: false }),
    {
        Expr::Quote { expr: Arc::new(expr), location: None, trailing_newline: false }
    }

    pub fn quasiquote(expr: Expr) -> (r: Self)
        ensures
            r@ == (ExprV::Quasiquote {
                expr: Box::new(expr@),
                location: None,
                trailing_newline: false,
            }),
    {
        Expr::Quasiquote { expr: Arc::new(expr), location: None, trailing_newline: false }
    }

    pub fn unquote(expr: Expr) -> (r: Self)
        ensures
            r@ == (ExprV::Unquote {
                expr: Box::new(expr@),
                location: None,
                trailing_newline: false,
            }),
    {
        Expr::Unquote { expr: Arc::new(expr), location: None, trailing_newline: false }
    }

    /// Whether this node is the symbol `name`.
    pub fn is_symbol(&self, name: &str) -> (r: bool)
        ensures
            r == (self@ matches ExprV::Symbol { name: n, .. } && n == name@),
    {
        match self {
            Expr::Symbol { name: n, .. } => str_eq(n.as_str(), name),
            _ => false,
        }
    }

    /// The symbol's name, or an error on any other node.
    pub fn as_symbol(&self) -> (r: Result<&String, EvalError>)
        ensures
            match r {
                Ok(n) => self@ matches ExprV::Symbol { name, .. } && n@ == name,
                Err(e) => !(self@ is Symbol) && e@ is NotASymbol,
            },
    {
        match self {
            Expr::Symbol { name, .. } => Ok(name),
            _ => Err(EvalError::NotASymbol),
        }
    }

    /// `e` with its trailing-newline flag set to `b`; nodes that never carry
    /// the flag are returned unchanged.
    pub fn set_newline(self, b: bool) -> (r: Self)
        ensures
            r@ == set_newline_v(self@, b),
    {
        match self {
            Expr::Symbol { name, location, .. } => Expr::Symbol {
                name,
                location,
                trailing_newline: b,
            },
            Expr::List { elements, location, .. } => Expr::List {
                elements,
                location,
                trailing_newline: b,
            },
            Expr::Integer { value, location, .. } => Expr::Integer {
                value,
                location,
                trailing_newline: b,
            },
            Expr::Double { text, location, .. } => Expr::Double {
                text,
                location,
                trailing_newline: b,
            },
            Expr::String { value, location, .. } => Expr::String {
                value,
                location,
                trailing_newline: b,
            },
            Expr::Model { id, location, .. } => Expr::Model { id, location, trailing_newline: b },
            Expr::Quote { expr, location, .. } => Expr::Quote {
                expr,
                location,
                trailing_newline: b,
            },
            Expr::Quasiquote { expr, location, .. } => Expr::Quasiquote {
                expr,
                location,
                trailing_newline: b,
            },
            Expr::Unquote { expr, location, .. } => Expr::Unquote {
                expr,
                location,
                trailing_newline: b,
            },
            Expr::Builtin { .. } => self,
            Expr::SpecialForm { .. } => self,
            Expr::Clausure { .. } => self,
            Expr::Macro { .. } => self,
        }
    }

    /// Whether this node was followed by a newline in the source.
    pub fn has_newline(&self) -> (r: bool)
        ensures
            r == has_newline_v(self@),
    {
        match self {
            Expr::Symbol { trailing_newline, .. } => *trailing_newline,
            Expr::List { trailing_newline, .. } => *trailing_newline,
            Expr::Integer { trailing_newline, .. } => *trailing_newline,
            Expr::Double { trailing_newline, .. } => *trailing_newline,
            Expr::String { trailing_newline, .. } => *trailing_newline,
            Expr::Model { trailing_newline, .. } => *trailing_newline,
            Expr::Quote { trailing_newline, .. } => *trailing_newline,
            Expr::Quasiquote { trailing_newline, .. } => *trailing_newline,
            Expr::Unquote { trailing_newline, .. } => *trailing_newline,
            Expr::Builtin { .. } => false,
            Expr::SpecialForm { .. } => false,
            Expr::Clausure { .. } => false,
            Expr::Macro { .. } => false,
        }
    }

    /// The source offset this node was parsed at, if any.
    pub fn location(&self) -> (r: Option<usize>)
        ensures
            r == location_v(self@),
    {
        match self {
            Expr::Symbol { location, .. } => *location,
            Expr::List { location, .. } => *location,
            Expr::Integer { location, .. } => *location,
            Expr::Double { location, .. } => *location,
            Expr::String { location, .. } => *location,
            Expr::Model { location, .. } => *location,
            Expr::Quote { location, .. } => *location,
            Expr::Quasiquote { location, .. } => *location,
            Expr::Unquote { location, .. } => *location,
            Expr::Builtin { .. } => None,
            Expr::SpecialForm { .. } => None,
            Expr::Clausure { .. } => None,
            Expr::Macro { .. } => None,
        }
    }
}

pub open spec fn set_newline_v(e: ExprV, b: bool) -> ExprV {
    match e {
        ExprV::Symbol { name, location, .. } => ExprV::Symbol {
            name,
            location,
            trailing_newline: b,
        },
        ExprV::List { elements, location, .. } => ExprV::List {
            elements,
            location,
            trailing_newline: b,
        },
        ExprV::Integer { value, location, .. } => ExprV::Integer {
            value,
            location,
            trailing_newline: b,
        },
        ExprV::Double { text, location, .. } => ExprV::Double {
            text,
            location,
            trailing_newline: b,
        },
        ExprV::String { value, location, .. } => ExprV::String {
            value,
            location,
            trailing_newline: b,
        },
        ExprV::Model { id, location, .. } => ExprV::Model { id, location, trailing_newline: b },
        ExprV::Quote { expr, location, .. } => ExprV::Quote {
            expr,
            location,
            trailing_newline: b,
        },
        ExprV::Quasiquote { expr, location, .. } => ExprV::Quasiquote {
            expr,
            location,
            trailing_newline: b,
        },
        ExprV::Unquote { expr, location, .. } => ExprV::Unquote {
            expr,
            location,
            trailing_newline: b,
        },
        _ => e,
    }
}

pub open spec fn has_newline_v(e: ExprV) -> bool {
    match e {
        ExprV::Symbol { trailing_newline, .. } => trailing_newline,
        ExprV::List { trailing_newline, .. } => trailing_newline,
        ExprV::Integer { trailing_newline, .. } => trailing_newline,
        ExprV::Double { trailing_newline, .. } => trailing_newline,
        ExprV::String { trailing_newline, .. } => trailing_newline,
        ExprV::Model { trailing_newline, .. } => trailing_newline,
        ExprV::Quote { trailing_newline, .. } => trailing_newline,
        ExprV::Quasiquote { trailing_newline, .. } => trailing_newline,
        ExprV::Unquote { trailing_newline, .. } => trailing_newline,
        _ => false,
    }
}

pub open spec fn location_v(e: ExprV) -> Option<usize> {
    match e {
        ExprV::Symbol { location, .. } => location,
        ExprV::List { location, .. } => location,
        ExprV::Integer { location, .. } => location,
        ExprV::Double { location, .. } => location,
        ExprV::String { location, .. } => location,
        ExprV::Model { location, .. } => location,
        ExprV::Quote { location, .. } => location,
        ExprV::Quasiquote { location, .. } => location,
        ExprV::Unquote { location, .. } => location,
        _ => None,
    }
}

} // verus!

verus! {

use crate::strings::{chars_to_string, str_to_chars};

/// The decimal digits of `n`, most significant first.
pub open spec fn spec_digits(n: nat) -> Seq<char>
    decreases n,
{
    if n < 10 {
        seq![digit_char(n as int)]
    } else {
        spec_digits(n / 10).push(digit_char((n % 10) as int))
    }
}

pub open spec fn digit_char(d: int) -> char {
    ((48 + d) as u8) as char
}

/// The decimal text of a 64-bit integer.
pub open spec fn spec_int_str(v: i64) -> Seq<char> {
    if v < 0 {
        seq!['-'] + spec_digits((-v) as nat)
    } else {
        spec_digits(v as nat)
    }
}

/// The text an expression prints as.
pub open spec fn spec_format(e: ExprV) -> Seq<char>
    decreases e, 1int,
{
    match e {
        ExprV::Symbol { name, .. } => name,
        ExprV::List { elements, .. } => seq!['('] + spec_format_elems(elements) + seq![')'],
        ExprV::Integer { value, .. } => spec_int_str(value),
        ExprV::Double { text, .. } => text,
        ExprV::String { value, .. } => seq!['"'] + value + seq!['"'],
        ExprV::Model { location, .. } => "<stl mesh at "@ + spec_digits(
            (match location {
                Some(l) => l,
                None => 0,
            }) as nat,
        ) + ">"@,
        ExprV::Quote { expr, .. } => seq!['\''] + spec_format(*expr),
        ExprV::Quasiquote { expr, .. } => seq!['`'] + spec_format(*expr),
        ExprV::Unquote { expr, .. } => seq!['~'] + spec_format(*expr),
        ExprV::Builtin { name } => "<builtin "@ + name + ">"@,
        ExprV::SpecialForm { name } => "<special form "@ + name + ">"@,
        ExprV::Clausure { args, body, .. } => "(lambda ("@ + spec_join_names(args) + ") "@
            + spec_format(*body) + seq![')'],
        ExprV::Macro { args, body, .. } => "(macro ("@ + spec_join_names(args) + ") "@
            + spec_format(*body) + seq![')'],
    }
}

/// List elements' texts, separated by single spaces.
pub open spec fn spec_format_elems(s: Seq<ExprV>) -> Seq<char>
    decreases s, 0int,
{
    if s.len() == 0 {
        Seq::empty()
    } else if s.len() == 1 {
        spec_format(s[0])
    } else {
        spec_format_elems(s.drop_last()) + seq![' '] + spec_format(s.last())
    }
}

/// Parameter names, separated by single spaces.
pub open spec fn spec_join_names(s: Seq<Seq<char>>) -> Seq<char>
    decreases s,
{
    if s.len() == 0 {
        Seq::empty()
    } else if s.len() == 1 {
        s[0]
    } else {
        spec_join_names(s.drop_last()) + seq![' '] + s.last()
    }
}

/// Appends the characters of `s`.
fn push_str_chars(out: &mut Vec<char>, s: &str)
    ensures
        final(out)@ == old(out)@ + s@,
{
    let cs = str_to_chars(s);
    let mut i: usize = 0;
    while i < cs.len()
        invariant
            i <= cs@.len(),
            cs@ == s@,
            out@ == old(out)@ + s@.subrange(0, i as int),
        decreases cs@.len() - i,
    {
        out.push(cs[i]);
        proof {
            assert(out@ =~= old(out)@ + s@.subrange(0, i + 1 as int));
        }
        i = i + 1;
    }
    proof {
        assert(old(out)@ + s@.subrange(0, s@.len() as int) =~= old(out)@ + s@);
    }
}

/// Appends the decimal digits of `n`.
fn push_digits(out: &mut Vec<char>, n: u64)
    ensures
        final(out)@ == old(out)@ + spec_digits(n as nat),
    decreases n,
{
    if n < 10 {
        out.push((48u8 + (n as u8)) as char);
        proof {
            assert(out@ =~= old(out)@ + seq![digit_char(n as int)]);
        }
    } else {
        push_digits(out, n / 10);
        out.push((48u8 + ((n % 10) as u8)) as char);
        proof {
            assert(out@ =~= old(out)@ + spec_digits((n as nat) / 10).push(
                digit_char((n as int) % 10),
            ));
            assert(old(out)@ + spec_digits((n as nat) / 10).push(digit_char((n as int) % 10))
                =~= old(out)@ + spec_digits(n as nat));
        }
    }
}

/// Appends the decimal text of `v`.
fn push_int(out: &mut Vec<char>, v: i64)
    ensures
        final(out)@ == old(out)@ + spec_int_str(v),
{
    if v < 0 {
        let mag: u64 = if v == i64::MIN {
            9223372036854775808u64
        } else {
            (0i64 - v) as u64
        };
        out.push('-');
        let ghost mid = out@;
        proof {
            assert(mid =~= old(out)@ + seq!['-']);
        }
        push_digits(out, mag);
        proof {
            assert(old(out)@ + seq!['-'] + spec_digits(mag as nat) =~= old(out)@ + spec_int_str(
                v,
            ));
        }
    } else {
        push_digits(out, v as u64);
    }
}

impl Expr {
    /// The expression as source-like text.  Doubles print as the literal
    /// they were written as.
    pub fn format(&self) -> (r: String)
        ensures
            r@ == spec_format(self@),
    {
        let mut out: Vec<char> = Vec::new();
        format_into(self, &mut out);
        proof {
            assert(Seq::<char>::empty() + spec_format(self@) =~= spec_format(self@));
        }
        chars_to_string(&out)
    }
}

/// Appends the text of `e`.
#[verifier::loop_isolation(false)]
#[verifier::rlimit(100)]
fn format_into(e: &Expr, out: &mut Vec<char>)
    ensures
        final(out)@ == old(out)@ + spec_format(e@),
    decreases e, 1int,
{
    broadcast use lemma_exprs_view;

    match e {
        Expr::Symbol { name, .. } => {
            push_str_chars(out, name.as_str());
        },
        Expr::List { elements, .. } => {
            out.push('(');
            let ghost mid0 = out@;
            format_elems_into(elements, out);
            out.push(')');
            proof {
                assert(mid0 =~= old(out)@ + seq!['(']);
                assert(out@ =~= old(out)@ + spec_format(e@));
            }
        },
        Expr::Integer { value, .. } => {
            push_int(out, *value);
        },
        Expr::Double { text, .. } => {
            push_str_chars(out, text.as_str());
        },
        Expr::String { value, .. } => {
            out.push('"');
            let ghost mid0 = out@;
            push_str_chars(out, value.as_str());
            out.push('"');
            proof {
                assert(mid0 =~= old(out)@ + seq!['"']);
                assert(out@ =~= old(out)@ + spec_format(e@));
            }
        },
        Expr::Model { location, .. } => {
            push_str_chars(out, "<stl mesh at ");
            let l: usize = match location {
                Some(l) => *l,
                None => 0,
            };
            push_digits(out, l as u64);
            push_str_chars(out, ">");
            proof {
                assert(out@ =~= old(out)@ + spec_format(e@));
            }
        },
        Expr::Quote { expr, .. } => {
            out.push('\'');
            let ghost mid0 = out@;
            format_into(expr, out);
            proof {
                assert(mid0 =~= old(out)@ + seq!['\'']);
                assert(out@ =~= old(out)@ + spec_format(e@));
            }
        },
        Expr::Quasiquote { expr, .. } => {
            out.push('`');
            let ghost mid0 = out@;
            format_into(expr, out);
            proof {
                assert(mid0 =~= old(out)@ + seq!['`']);
                assert(out@ =~= old(out)@ + spec_format(e@));
            }
        },
        Expr::Unquote { expr, .. } => {
            out.push('~');
            let ghost mid0 = out@;
            format_into(expr, out);
            proof {
                assert(mid0 =~= old(out)@ + seq!['~']);
                assert(out@ =~= old(out)@ + spec_format(e@));
            }
        },
        Expr::Builtin { name } => {
            push_str_chars(out, "<builtin ");
            push_str_chars(out, name.as_str());
            push_str_chars(out, ">");
            proof {
                assert(out@ =~= old(out)@ + spec_format(e@));
            }
        },
        Expr::SpecialForm { name } => {
            push_str_chars(out, "<special form ");
            push_str_chars(out, name.as_str());
            push_str_chars(out, ">");
            proof {
                assert(out@ =~= old(out)@ + spec_format(e@));
            }
        },
        Expr::Clausure { args, body, .. } => {
            push_str_chars(out, "(lambda (");
            join_names_into(args, out);
            push_str_chars(out, ") ");
            format_into(body, out);
            out.push(')');
            proof {
                assert(Seq::new(args@.len(), |i: int| args@[i]@) =~= Seq::new(
                    args@.len(),
                    |i: int| args@[i]@,
                ));
                assert(out@ =~= old(out)@ + spec_format(e@));
            }
        },
        Expr::Macro { args, body, .. } => {
            push_str_chars(out, "(macro (");
            join_names_into(args, out);
            push_str_chars(out, ") ");
            format_into(body, out);
            out.push(')');
            proof {
                assert(out@ =~= old(out)@ + spec_format(e@));
            }
        },
    }
}

/// Appends list elements' texts, separated by single spaces.
#[verifier::loop_isolation(false)]
fn format_elems_into(elements: &Vec<Arc<Expr>>, out: &mut Vec<char>)
    ensures
        final(out)@ == old(out)@ + spec_format_elems(exprs_view(elements@)),
    decreases elements, 0int,
{
    broadcast use lemma_exprs_view;

    let ghost ev = exprs_view(elements@);
    let mut i: usize = 0;
    proof {
        assert(out@ =~= old(out)@ + spec_format_elems(ev.subrange(0, 0)));
    }
    while i < elements.len()
        invariant
            i <= elements@.len(),
            out@ == old(out)@ + spec_format_elems(ev.subrange(0, i as int)) + (if 0 < i
                < ev.len() {
                seq![' ']
            } else {
                Seq::<char>::empty()
            }),
        decreases elements@.len() - i,
    {
        let ghost pre = out@;
        format_into(&elements[i], out);
        proof {
            assert(ev.subrange(0, i + 1 as int).drop_last() =~= ev.subrange(0, i as int));
            assert(ev.subrange(0, i + 1 as int).last() == ev[i as int]);
            if i == 0 {
                assert(spec_format_elems(ev.subrange(0, 1)) == spec_format(ev[0]));
                assert(pre =~= old(out)@);
                assert(out@ =~= old(out)@ + spec_format_elems(ev.subrange(0, 1)));
            } else {
                assert(spec_format_elems(ev.subrange(0, i + 1 as int)) == spec_format_elems(
                    ev.subrange(0, i as int),
                ) + seq![' '] + spec_format(ev[i as int]));
                assert(out@ =~= old(out)@ + spec_format_elems(ev.subrange(0, i + 1 as int)));
            }
        }
        if i + 1 < elements.len() {
            out.push(' ');
            proof {
                assert(out@ =~= old(out)@ + spec_format_elems(ev.subrange(0, i + 1 as int))
                    + seq![' ']);
            }
        }
        i = i + 1;
    }
    proof {
        assert(ev.subrange(0, ev.len() as int) =~= ev);
        assert(out@ =~= old(out)@ + spec_format_elems(ev));
    }
}

/// Appends parameter names, separated by single spaces.
#[verifier::loop_isolation(false)]
fn join_names_into(args: &Vec<String>, out: &mut Vec<char>)
    ensures
        final(out)@ == old(out)@ + spec_join_names(Seq::new(args@.len(), |i: int| args@[i]@)),
{
    let ghost ns = Seq::new(args@.len(), |i: int| args@[i]@);
    let mut i: usize = 0;
    proof {
        assert(out@ =~= old(out)@ + spec_join_names(ns.subrange(0, 0)));
    }
    while i < args.len()
        invariant
            i <= args@.len(),
            out@ == old(out)@ + spec_join_names(ns.subrange(0, i as int)) + (if 0 < i < ns.len() {
                seq![' ']
            } else {
                Seq::<char>::empty()
            }),
        decreases args@.len() - i,
    {
        let ghost pre = out@;
        push_str_chars(out, args[i].as_str());
        proof {
            assert(ns.subrange(0, i + 1 as int).drop_last() =~= ns.subrange(0, i as int));
            assert(ns.subrange(0, i + 1 as int).last() == ns[i as int]);
            if i == 0 {
                assert(spec_join_names(ns.subrange(0, 1)) == ns[0]);
                assert(pre =~= old(out)@);
                assert(out@ =~= old(out)@ + spec_join_names(ns.subrange(0, 1)));
            } else {
                assert(spec_join_names(ns.subrange(0, i + 1 as int)) == spec_join_names(
                    ns.subrange(0, i as int),
                ) + seq![' '] + ns[i as int]);
                assert(out@ =~= old(out)@ + spec_join_names(ns.subrange(0, i + 1 as int)));
            }
        }
        if i + 1 < args.len() {
            out.push(' ');
            proof {
                assert(out@ =~= old(out)@ + spec_join_names(ns.subrange(0, i + 1 as int))
                    + seq![' ']);
            }
        }
        i = i + 1;
    }
    proof {
        assert(ns.subrange(0, ns.len() as int) =~= ns);
        assert(out@ =~= old(out)@ + spec_join_names(ns));
    }
}

} // verus!
