//! A parser for the T3D text format: nested `Begin`/`End` object blocks with
//! scalar, indexed-array, struct, reference and vector properties.
pub mod ast;
pub mod grammar;
pub mod lexer;
pub mod parser;

pub use ast::{
    T3dFloat, T3dObject, T3dObjectStatement, T3dPropertyAssignment, T3dPropertyAssignmentVector,
    T3dPropertyNotFound, T3dPropertyValue, T3dReference, T3dValue, T3dVector,
};
pub use parser::{parse_t3d, T3dExpected, T3dParser, T3dSyntaxError};
