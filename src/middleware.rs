//! Middleware around proxied calls: lookup by name, the order in which a
//! chain's hooks run, and the lines that the logging middleware writes.

use vstd::prelude::*;
use vstd::string::*;
use crate::text::string_of;

verus! {

/// The call a middleware wraps.
#[derive(Clone, Debug)]
pub struct CallContext {
    pub target_component: String,
    pub target_interface: String,
    pub function_name: String,
    pub caller_component: Option<String>,
}

/// Writes a line before each call and after each return or error.
#[derive(Clone, Copy, Debug)]
pub struct LoggingMiddleware;

/// Passes each call through untouched.
#[derive(Clone, Copy, Debug)]
pub struct NoOpMiddleware;

/// The middlewares that a connection can name.
#[derive(Clone, Copy, Debug, PartialEq, Eq, Structural)]
pub enum MiddlewareKind {
    Logging,
    NoOp,
}

/// The middleware called `name`: `logging` or `no-op`.
pub open spec fn middleware_named(name: Seq<char>) -> Option<MiddlewareKind> {
    if name == "logging"@ {
        Some(MiddlewareKind::Logging)
    } else if name == "no-op"@ {
        Some(MiddlewareKind::NoOp)
    } else {
        None
    }
}

/// The middleware called `name`, if there is one.
pub fn get_middleware_by_name(name: &str) -> (r: Option<MiddlewareKind>)
    ensures
        r == middleware_named(name@),
{
    let n = String::from_str(name);
    if n.eq(&String::from_str("logging")) {
        Some(MiddlewareKind::Logging)
    } else if n.eq(&String::from_str("no-op")) {
        Some(MiddlewareKind::NoOp)
    } else {
        None
    }
}

/// A chain built from a connection's middleware names: the known ones,
/// outermost first, and the unknown names, which are skipped with a warning.
#[derive(Clone, Debug)]
pub struct MiddlewareChain {
    pub layers: Vec<MiddlewareKind>,
    pub unknown: Vec<String>,
}

/// The known middlewares among `names`, in order.
pub open spec fn known_layers(names: Seq<Seq<char>>) -> Seq<MiddlewareKind>
    decreases names.len(),
{
    if names.len() == 0 {
        Seq::empty()
    } else {
        let rest = known_layers(names.drop_last());
        match middleware_named(names.last()) {
            Some(m) => rest.push(m),
            None => rest,
        }
    }
}

/// The unknown names among `names`, in order.
pub open spec fn unknown_names(names: Seq<Seq<char>>) -> Seq<Seq<char>>
    decreases names.len(),
{
    if names.len() == 0 {
        Seq::empty()
    } else {
        let rest = unknown_names(names.drop_last());
        match middleware_named(names.last()) {
            Some(_) => rest,
            None => rest.push(names.last()),
        }
    }
}

/// Builds the chain that a list of middleware names describes.
pub fn build_chain(names: &Vec<String>) -> (r: MiddlewareChain)
    ensures
        r.layers@ == known_layers(names@.map_values(|s: String| s@)),
        r.unknown@.map_values(|s: String| s@) == unknown_names(names@.map_values(|s: String| s@)),
{
    let ghost ns = names@.map_values(|s: String| s@);
    let mut layers: Vec<MiddlewareKind> = Vec::new();
    let mut unknown: Vec<String> = Vec::new();
    let mut i: usize = 0;
    while i < names.len()
        invariant
            i <= names@.len(),
            ns == names@.map_values(|s: String| s@),
            layers@ == known_layers(ns.subrange(0, i as int)),
            unknown@.map_values(|s: String| s@) == unknown_names(ns.subrange(0, i as int)),
        decreases names@.len() - i,
    {
        assert(ns.subrange(0, i + 1).drop_last() =~= ns.subrange(0, i as int));
        assert(ns.subrange(0, i + 1).last() == names@[i as int]@);
        match get_middleware_by_name(names[i].as_str()) {
            Some(m) => layers.push(m),
            None => {
                unknown.push(names[i].clone());
                assert(unknown@.map_values(|s: String| s@) =~= unknown_names(ns.subrange(0, i + 1)));
            },
        }
        i = i + 1;
    }
    assert(ns.subrange(0, names@.len() as int) =~= ns);
    MiddlewareChain { layers, unknown }
}

/// The digits of `n` in decimal.
pub open spec fn decimal(n: nat) -> Seq<char>
    decreases n,
{
    if n < 10 {
        seq![digit(n)]
    } else {
        decimal(n / 10).push(digit(n % 10))
    }
}

pub open spec fn digit(d: nat) -> char {
    if d == 0 { '0' } else if d == 1 { '1' } else if d == 2 { '2' } else if d == 3 { '3' } else if d == 4 { '4' }
    else if d == 5 { '5' } else if d == 6 { '6' } else if d == 7 { '7' } else if d == 8 { '8' } else { '9' }
}

fn digit_char(d: u64) -> (r: char)
    requires
        d < 10,
    ensures
        r == digit(d as nat),
{
    if d == 0 { '0' } else if d == 1 { '1' } else if d == 2 { '2' } else if d == 3 { '3' } else if d == 4 { '4' }
    else if d == 5 { '5' } else if d == 6 { '6' } else if d == 7 { '7' } else if d == 8 { '8' } else { '9' }
}

fn decimal_chars(n: u64) -> (r: Vec<char>)
    ensures
        r@ == decimal(n as nat),
    decreases n,
{
    if n < 10 {
        vec![digit_char(n)]
    } else {
        let mut v = decimal_chars(n / 10);
        v.push(digit_char(n % 10));
        v
    }
}

impl LoggingMiddleware {
    /// The line written before a call, with the rendered arguments.
    pub fn call_line(&self, ctx: &CallContext, inputs: &str) -> (r: String)
        ensures
            r@ == "[Middleware] Call -> "@ + ctx.target_component@ + "::"@ + ctx.function_name@ + " Inputs: "@ + inputs@,
    {
        let mut s = String::from_str("[Middleware] Call -> ");
        s.append(ctx.target_component.as_str());
        s.append("::");
        s.append(ctx.function_name.as_str());
        s.append(" Inputs: ");
        s.append(inputs);
        s
    }

    /// The line written after a call returns, with the elapsed milliseconds
    /// and the rendered results.
    pub fn return_line(&self, ctx: &CallContext, elapsed_ms: u64, outputs: &str) -> (r: String)
        ensures
            r@ == "[Middleware] Return <- "@ + ctx.target_component@ + "::"@ + ctx.function_name@ + " ("@ + decimal(
                elapsed_ms as nat,
            ) + "ms) Outputs: "@ + outputs@,
    {
        let mut s = String::from_str("[Middleware] Return <- ");
        s.append(ctx.target_component.as_str());
        s.append("::");
        s.append(ctx.function_name.as_str());
        s.append(" (");
        let digits = decimal_chars(elapsed_ms);
        let d = string_of(digits.as_slice());
        s.append(d.as_str());
        s.append("ms) Outputs: ");
        s.append(outputs);
        s
    }

    /// The line written after a call fails.
    pub fn error_line(&self, ctx: &CallContext, error: &str) -> (r: String)
        ensures
            r@ == "[Middleware] Error <- "@ + ctx.target_component@ + "::"@ + ctx.function_name@ + " Error: "@ + error@,
    {
        let mut s = String::from_str("[Middleware] Error <- ");
        s.append(ctx.target_component.as_str());
        s.append("::");
        s.append(ctx.function_name.as_str());
        s.append(" Error: ");
        s.append(error);
        s
    }
}

impl NoOpMiddleware {
    /// What the no-op middleware does to the arguments: nothing. It neither
    /// logs nor calls anything itself; the runner wraps the provider call and
    /// simply applies no hook for this middleware.
    pub fn handle<T>(&self, params: T) -> (r: T)
        ensures
            r == params,
    {
        params
    }
}

} // verus!
