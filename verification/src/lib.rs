//! ClearHead graph and editor-support library.
//!
//! The library maps the ClearHead domain model (charters, plans, actions and
//! their contexts) to RDF quads under the v4 actions vocabulary, loads them into
//! an Oxigraph store, runs the standard SPARQL checks over it, frames query rows
//! into the index JSON-LD document, builds the canonical JSON-LD export and
//! computes the editor-facing pieces of the language server.

pub mod text;
pub mod vocab;
pub mod error;
pub mod rdf;
pub mod store;
pub mod query;
pub mod json;
pub mod shape;
pub mod domain;
pub mod insert;
pub mod load;
pub mod serialize;
pub mod jsonld;
pub mod lsp;
pub mod telemetry;
pub mod request;
