//! Three engines for macros that read a type declaration or a function:
//!
//! - the builder generator ([`builder`]), which gives a record a companion
//!   type with one accessor per field and an assembly operation, and
//!   [`companion`] and [`trace`], which say what that companion does when
//!   it runs;
//! - the debug-formatting generator ([`debug`]) with its bound inference
//!   ([`bounds`]);
//! - the order checks of the `sorted` attribute, on the variants of a sum
//!   type ([`sorted`]) and on the arms of match expressions ([`check`]).
//!
//! All of them work on the plain syntax of [`syntax`]; [`descriptor`] turns
//! a declaration into the descriptor that the generators share, reading the
//! directives of [`directive`] on the way.

pub mod bounds;
pub mod builder;
pub mod check;
pub mod companion;
pub mod debug;
pub mod descriptor;
pub mod directive;
pub mod lexical;
pub mod scan;
pub mod shape;
pub mod sorted;
pub mod syntax;
pub mod text;
pub mod trace;
