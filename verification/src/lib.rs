//! Build-time configuration evaluation and helpers for embedding MicroPython.

pub mod obj;
pub mod text;
pub mod config_map;
pub mod expression;
pub mod tail_parser;
pub mod depfile;
pub mod config;
pub mod signature;
pub mod root_project;
pub mod generate;
pub mod cc_search;
pub mod manifest;
pub mod type_slots;
pub mod bindings;
pub mod bitfields;
pub mod vm;
pub mod args;
pub mod ty;
pub mod sig;
pub mod string_order;
pub mod enclosing;
pub mod grouping;
