pub mod symmetric;
