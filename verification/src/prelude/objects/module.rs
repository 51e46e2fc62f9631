use vstd::prelude::*;
use crate::table::{table_unique, Entry};
use crate::text::{hex_digits, push_hex, push_str};
use crate::var::Var;

verus! {

/// A module: an optional name and the objects it exports.
pub struct Module {
    pub name: Option<String>,
    pub exports: Vec<Entry>,
}

/// The name a module goes by: its own, else `module@` and its address.
pub open spec fn module_name(m: Module, at: Var) -> Seq<char> {
    match m.name {
        Some(n) => n@,
        None => "module@0x"@ + hex_digits(at.ptr as nat),
    }
}

impl Module {
    /// A module, named or not, exporting what `exports` binds.
    pub fn from_exports(name: Option<String>, exports: Vec<Entry>) -> (res: Self)
        ensures
            res.name == name,
            res.exports == exports,
    {
        Module { name, exports }
    }

    /// A module named `name` exporting nothing.
    pub fn named(name: String) -> (res: Self)
        ensures
            res.name == Some(name),
            res.exports@.len() == 0,
            table_unique(res.exports@),
    {
        Module { name: Some(name), exports: Vec::new() }
    }

    /// An unnamed module exporting nothing.
    pub fn anonymous() -> (res: Self)
        ensures
            res.name is None,
            res.exports@.len() == 0,
            table_unique(res.exports@),
    {
        Module { name: None, exports: Vec::new() }
    }

    /// The name of the module that lives at `at`.
    pub fn name(&self, at: Var) -> (res: String)
        ensures
            res@ == module_name(*self, at),
    {
        match &self.name {
            Some(n) => n.clone(),
            None => {
                let mut s = String::new();
                push_str(&mut s, "module@0x");
                push_hex(&mut s, at.ptr);
                s
            },
        }
    }
}

} // verus!
