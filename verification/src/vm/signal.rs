use vstd::prelude::*;
use crate::var::Var;

verus! {

/// Why an evaluation stopped before producing a value.
#[derive(Debug, Clone)]
pub enum Abort {
    Throw(Var),
    Break(Var),
    ThrowString(String),
    Exit,
    Return(Var),
    Continue,
    End(Var),
    Nop,
}

/// The short name of an abort; for a thrown message, the message itself.
pub open spec fn abort_name(a: Abort) -> Seq<char> {
    match a {
        Abort::Throw(_) => "Throe"@,
        Abort::Break(_) => "Break"@,
        Abort::Continue => "Continue"@,
        Abort::Return(_) => "Return"@,
        Abort::End(_) => "End"@,
        Abort::Exit => "Exit"@,
        Abort::ThrowString(s) => s@,
        Abort::Nop => "Nop"@,
    }
}

/// How an abort is shown to a user.
pub open spec fn abort_text(a: Abort) -> Seq<char> {
    match a {
        Abort::Throw(_) => "todo"@,
        Abort::Break(_) => "[Break]"@,
        Abort::ThrowString(s) => s@,
        Abort::Exit => "[Exit]"@,
        Abort::Return(_) => "[Return]"@,
        Abort::Continue => "[Continue]"@,
        Abort::End(_) => "[End]"@,
        Abort::Nop => "[Nop]"@,
    }
}

impl Abort {
    /// The short name of the abort; for a thrown message, the message itself.
    pub fn as_string(&self) -> (res: String)
        ensures
            res@ == abort_name(*self),
    {
        match self {
            Abort::Throw(_) => "Throe".to_owned(),
            Abort::Break(_) => "Break".to_owned(),
            Abort::Continue => "Continue".to_owned(),
            Abort::Return(_) => "Return".to_owned(),
            Abort::End(_) => "End".to_owned(),
            Abort::Exit => "Exit".to_owned(),
            Abort::ThrowString(s) => s.clone(),
            Abort::Nop => "Nop".to_owned(),
        }
    }

    /// The abort as shown to a user.
    pub fn to_text(&self) -> (res: String)
        ensures
            res@ == abort_text(*self),
    {
        match self {
            Abort::Throw(_) => "todo".to_owned(),
            Abort::Break(_) => "[Break]".to_owned(),
            Abort::ThrowString(s) => s.clone(),
            Abort::Exit => "[Exit]".to_owned(),
            Abort::Return(_) => "[Return]".to_owned(),
            Abort::Continue => "[Continue]".to_owned(),
            Abort::End(_) => "[End]".to_owned(),
            Abort::Nop => "[Nop]".to_owned(),
        }
    }
}

/// The outcome of an evaluation.
pub type Signal = Result<Var, Abort>;

/// An outcome carrying some other value.
pub type ErrSignal<T> = Result<T, Abort>;

} // verus!
