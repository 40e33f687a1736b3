//! TurboFind: a file index with fuzzy, regular-expression and content search.
//!
//! The library holds everything that decides or computes: the query language ([`query`]), the
//! index ([`index`]) with its table of extensions ([`ext_map`]) and its cache ([`cache`]), the
//! searches ([`search`], [`names`], [`contents`]), the extraction of text from documents
//! ([`documents`]), and the interactive session with its search line and its screen
//! ([`session`], [`editor`], [`screen`], [`display`]). Walking directories, reading files and
//! driving the terminal are left to the program around it.
//!
//! Each function states what it returns over the text of strings, `s@`, and over plain models of
//! the other types. The modules whose names end in `_laws`, and the functions whose names begin
//! with `law_`, state what holds of several functions together.
pub mod archive;
pub mod cache;
pub mod content_laws;
pub mod contents;
pub mod display;
pub mod display_laws;
pub mod document_laws;
pub mod documents;
pub mod editor;
pub mod ext_map;
pub mod filter_laws;
pub mod filters;
pub mod index;
pub mod name_laws;
pub mod names;
pub mod order;
pub mod pattern;
pub mod prompt;
pub mod query;
pub mod query_laws;
pub mod rtf_laws;
pub mod screen;
pub mod screen_laws;
pub mod search;
pub mod search_laws;
pub mod session;
pub mod session_laws;
pub mod size;
pub mod size_laws;
pub mod startup;
pub mod text;
pub mod text_laws;
pub mod token_laws;
pub mod utf8;
