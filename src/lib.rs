//! Lowering of abstract fuel-VM programs into register-allocated programs,
//! together with the namespace bookkeeping used by the front end.
pub mod instruction;
pub mod sections;
pub mod error;
pub mod optimize;
pub mod instruction_set;
pub mod allocate;
pub mod liveness;
pub mod program;
pub mod dispatch;
pub mod lowering;
pub mod namespace;
pub mod wallet;
