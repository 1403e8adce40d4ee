pub mod fault;
pub mod laws;
pub mod machine;
pub mod number;
pub mod program;
pub mod semantics;
pub mod token;
