pub mod array;
pub mod func;
pub mod future;
pub mod method;
pub mod module;
pub mod object;
pub mod string;
pub mod undef;
