use vstd::prelude::*;

pub mod cell;
pub use cell::Cell;
pub mod text;
pub mod table;
pub mod var;
pub mod vm;
pub mod prelude;
pub mod parse;
pub mod co;

verus! {

/// A value that is one of two alternatives.
pub enum Either<L, R> {
    Left(L),
    Right(R),
}

} // verus!
