use vstd::prelude::*;
use crate::lexer::Token;
use crate::parse::Stmt;
use crate::text::{concat, owned};

verus! {

/// What every callable value offers: how many arguments it takes, and how it prints.
pub trait LoxCallable {
    spec fn arity_spec(&self) -> nat;

    fn arity(&self) -> (r: usize)
        ensures
            r as nat == self.arity_spec(),
    ;

    fn to_string(&self) -> String;
}

/// The native `clock` function: the whole seconds since the Unix epoch.
#[derive(Clone, Copy, PartialEq, Eq, Debug, Structural)]
pub struct Clock;

impl LoxCallable for Clock {
    open spec fn arity_spec(&self) -> nat {
        0
    }

    fn arity(&self) -> (r: usize) {
        0
    }

    fn to_string(&self) -> (r: String)
        ensures
            r@ == "<native fn>"@,
    {
        owned("<native fn>")
    }
}

/// A function declared in the program, with the scope that was current at its declaration.
pub struct LoxFunction<'a> {
    pub name: Token,
    pub parameter: Vec<Token>,
    /// The body, where it stands in the program.
    pub body: &'a Vec<Stmt>,
    /// The index of the captured scope in the interpreter's environment.
    pub closure: usize,
}

impl<'a> LoxFunction<'a> {
    pub fn new(name: Token, parameter: Vec<Token>, body: &'a Vec<Stmt>, closure: usize) -> (r: Self)
        ensures
            r.name == name,
            r.parameter == parameter,
            r.body == body,
            r.closure == closure,
    {
        LoxFunction { name, parameter, body, closure }
    }
}

impl<'a> LoxCallable for LoxFunction<'a> {
    open spec fn arity_spec(&self) -> nat {
        self.parameter@.len()
    }

    fn arity(&self) -> (r: usize) {
        self.parameter.len()
    }

    fn to_string(&self) -> (r: String)
        ensures
            r@ == "<fn "@ + self.name.lexeme@ + ">"@,
    {
        let head = concat("<fn ", self.name.lexeme.as_str());
        concat(head.as_str(), ">")
    }
}

} // verus!
