//! Code generation: from the typed program to OpenQASM.
pub mod qasm;
