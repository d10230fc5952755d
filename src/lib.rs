//! Structural extraction of a single ActionScript class: its name, the
//! clauses of its header, and the signatures of its functions, read by a
//! positional scanner over the raw bytes of the source.

pub mod actionscript;
pub mod bytes;
pub mod classify;
pub mod laws;
pub mod model;

pub use actionscript::Actionscript;
pub use classify::{char_type_to_type, detect_var_type_with_name, string_type_to_type, string_var_to_arg};
pub use model::{Arg, Class, Function, Member, Type};
