use vstd::prelude::*;

pub mod ctx;
pub mod env;
pub mod error;
pub mod gc;
pub mod heap;
pub mod runtime;
pub mod signal;

verus! {

/// An operator of the language.
#[derive(Clone, Copy, PartialEq, Eq, Structural, Debug)]
pub enum Operstor {
    Add, Sub, Mul, Div, Mod, IntDiv, Pow,
    Eq, Ne, Gt, Ge, Lt, Le,
    And, Or, Not,
    Neg,
}

/// The symbol of an operator.
pub open spec fn operator_symbol(op: Operstor) -> Seq<char> {
    match op {
        Operstor::Add => "+"@,
        Operstor::Sub => "-"@,
        Operstor::Mul => "*"@,
        Operstor::Div => "/"@,
        Operstor::Mod => "%"@,
        Operstor::IntDiv => "//"@,
        Operstor::Pow => "**"@,
        Operstor::Eq => "=="@,
        Operstor::Ne => "!="@,
        Operstor::Gt => ">"@,
        Operstor::Ge => ">="@,
        Operstor::Lt => "<"@,
        Operstor::Le => "<="@,
        Operstor::And => "&&"@,
        Operstor::Or => "||"@,
        Operstor::Not => "!"@,
        Operstor::Neg => "neg"@,
    }
}

impl Operstor {
    /// The symbol of the operator.
    pub fn to_string(&self) -> (res: String)
        ensures
            res@ == operator_symbol(*self),
    {
        match self {
            Operstor::Add => "+".to_owned(),
            Operstor::Sub => "-".to_owned(),
            Operstor::Mul => "*".to_owned(),
            Operstor::Div => "/".to_owned(),
            Operstor::Mod => "%".to_owned(),
            Operstor::IntDiv => "//".to_owned(),
            Operstor::Pow => "**".to_owned(),
            Operstor::Eq => "==".to_owned(),
            Operstor::Ne => "!=".to_owned(),
            Operstor::Gt => ">".to_owned(),
            Operstor::Ge => ">=".to_owned(),
            Operstor::Lt => "<".to_owned(),
            Operstor::Le => "<=".to_owned(),
            Operstor::And => "&&".to_owned(),
            Operstor::Or => "||".to_owned(),
            Operstor::Not => "!".to_owned(),
            Operstor::Neg => "neg".to_owned(),
        }
    }
}

/// A syntax tree of the language. A number is held as the bit pattern of its `f64`.
pub enum Ast {
    Id(String),
    Template(String),
    Str(String),
    Number(u64),
    Empty,
    Return(Vec<Ast>),
    Throw(Vec<Ast>),
    Break(Vec<Ast>),
    Continue(Vec<Ast>),
    If(Vec<Ast>, Vec<Ast>, Vec<Ast>),
    Try(Vec<Ast>, Vec<Ast>),
    Op { op: Operstor, x: Vec<Ast>, y: Vec<Ast> },
    TryApply { func: Box<Ast>, args: Vec<Ast> },
    Block(Vec<Ast>),
    Array(Vec<Ast>),
    Func { name: Option<String>, args_names: Vec<String>, body: Vec<Ast> },
    The(crate::var::Var),
}

/// A token of the lexer's output. A number is held as the bit pattern of its `f64`.
pub enum Token {
    Number(u64),
    The(crate::var::Var),
    Id(String),
    Str(String),
    Template(String),
    Line(Vec<Token>),
    Bracket(Vec<Token>),
    Large(Vec<Token>),
    Middle(Vec<Token>),
}

/// Code ready to run.
pub enum Code {
    Id(String),
    The(crate::var::Var),
    Template(String),
    Block(Vec<Code>),
    Array(Vec<Code>),
}

/// What the program to run is.
pub type ToRun = Ast;

/// The handle of a scope object.
pub type CtxType = crate::var::Var;

} // verus!
