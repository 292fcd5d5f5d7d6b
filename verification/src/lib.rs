//! Early translation stages of a C/C++ preprocessor: a verified,
//! character-level transformer covering trigraph replacement, splicing of
//! lines joined by a backslash-newline, comment removal and whitespace
//! normalization, together with diagnostics and a source-to-output
//! location map.

pub mod common;
pub mod model;
pub mod p1to3;
pub mod props;
