//! The core of a minimal interactive command interpreter: the builtin registry,
//! search-path resolution, the decisions around launching external programs, the
//! dispatcher, and the working-directory state that `cd` and `pwd` act on.
//! Everything that touches the environment, the file system or processes is
//! left to the caller, which hands the results back as plain values.

pub mod builtins;
pub mod dispatch;
pub mod launch;
pub mod search;
pub mod shell;
pub mod text;
