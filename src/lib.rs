pub mod hex;
pub mod number;
pub mod primitives;
pub mod context;
pub mod grammar;
pub mod processor;
