//! Lays one translation's text onto another edition's scene scripts,
//! anchoring each localizable call so that voice cues and other non-text
//! arguments survive untouched.

pub mod ast;
pub mod anchor;
pub mod text_run;
pub mod walker;
pub mod swap;
pub mod voice;
pub mod verify;
pub mod laws;
pub mod io;
pub mod audit;
pub mod coverage;
pub mod stability;
pub mod rewriting;
pub mod batch;

pub use ast::{
    Body, Call, CallArg, CallKind, Called, Expr, Function, Name, Op, Scena, Stmt, SwitchArm, Value,
};
pub use anchor::{AnchorKey, Classification, classify_syscall_call, classify_syscall_expr};
pub use io::ParseError;
pub use swap::{BodySubstitutionEntry, OverflowEntry, SwapStats, UnmatchedEntry, swap_scena};
pub use verify::{Violation, ViolationKind, verify_scena};
pub use walker::Site;
