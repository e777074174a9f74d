//! Code generation: the trusted boundary to the embedded SQL parser, the
//! pretty-printer, and the MySQL 8.4 compiler that rewrites directives into
//! recursive CTEs.

pub mod common;
pub mod mysql84;
pub mod sqlast;
