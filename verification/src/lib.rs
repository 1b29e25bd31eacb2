//! Debugging and language-server support for Solidity projects.

pub mod adapter;
pub mod artifacts;
pub mod ast;
pub mod ast_laws;
pub mod builder;
pub mod caches;
pub mod call_laws;
pub mod closed_units;
pub mod code_laws;
pub mod commands;
pub mod contracts;
pub mod debug_info;
pub mod debugger;
pub mod declaration_laws;
pub mod declarations;
pub mod declared_laws;
pub mod definitions;
pub mod diagnostics;
pub mod document_laws;
pub mod documents;
pub mod drawn_laws;
pub mod drawn_types;
pub mod expression_laws;
pub mod extraction;
pub mod extraction_laws;
pub mod forge;
pub mod generated_contracts;
pub mod generator;
pub mod generator_laws;
pub mod hover_text;
pub mod ic_pc;
pub mod json;
pub mod layout_laws;
pub mod lines;
pub mod lookup;
pub mod member_laws;
pub mod memory;
pub mod memory_laws;
pub mod message_laws;
pub mod namespace;
pub mod namespace_laws;
pub mod place_laws;
pub mod primitives;
pub mod protocol;
pub mod queries;
pub mod query_laws;
pub mod request_laws;
pub mod search_laws;
pub mod source_map;
pub mod statement_laws;
pub mod statements;
pub mod storage;
pub mod storage_laws;
pub mod text;
pub mod text_laws;
pub mod trace;
pub mod trace_laws;
pub mod types;
pub mod units;
pub mod unstructured;
pub mod use_laws;
pub mod value_laws;
pub mod variable_laws;
pub mod visit_laws;
pub mod visitor;
