//! A YARA-style pattern matching engine: rule parsing, compilation of
//! string variables into literals and regexes, and scanning of byte buffers.
#![allow(unused_imports)]

pub mod aho;
pub mod atom;
pub mod base64;
pub mod cli;
pub mod compiler;
pub mod declaration;
pub mod diagnostic;
pub mod error;
pub mod evaluator;
pub mod expr_parser;
pub mod expression;
pub mod hex_string;
pub mod lexer;
pub mod module;
pub mod module_text;
pub mod parser;
pub mod regex_matcher;
pub mod regex_widen;
pub mod rule;
pub mod rule_compiler;
pub mod scanner;
pub mod variable;
pub mod variable_set;
pub mod wide;
