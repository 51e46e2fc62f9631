pub mod math;
pub mod objects;
pub mod repl;
pub mod to_str;
