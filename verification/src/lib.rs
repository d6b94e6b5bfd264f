use vstd::prelude::*;

pub mod units;
pub mod ast;
pub mod text;
pub mod eval;
pub mod document;
pub mod typst_codegen;
pub mod xml;
pub mod omml;
pub mod latex;
pub mod docx_writer;
pub mod export;
pub mod notebook;

verus! {
}
