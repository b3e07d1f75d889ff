//! Errors of graph operations.

use vstd::prelude::*;

verus! {

/// Errors that can occur during RDF/SPARQL operations.
#[derive(Debug, Clone)]
pub enum GraphError {
    /// Error from the underlying Oxigraph store.
    Store(String),
    /// Error parsing or writing RDF (e.g., Turtle).
    Syntax(String),
    /// Error executing a SPARQL query.
    Query(String),
    /// Error during domain model hydration/mapping.
    Domain(String),
    /// Query output violated its declared response-shape contract.
    Contract(String),
}

/// The human-readable text of an error: its category followed by its detail.
pub open spec fn error_message(e: GraphError) -> Seq<char> {
    match e {
        GraphError::Store(m) => "Database error: "@ + m@,
        GraphError::Syntax(m) => "RDF syntax error: "@ + m@,
        GraphError::Query(m) => "SPARQL error: "@ + m@,
        GraphError::Domain(m) => "Domain mapping error: "@ + m@,
        GraphError::Contract(m) => "Shape contract violation: "@ + m@,
    }
}

impl GraphError {
    /// The human-readable text of the error.
    pub fn message(&self) -> (r: String)
        ensures
            r@ == error_message(*self),
    {
        let (head, detail) = match self {
            GraphError::Store(m) => ("Database error: ", m),
            GraphError::Syntax(m) => ("RDF syntax error: ", m),
            GraphError::Query(m) => ("SPARQL error: ", m),
            GraphError::Domain(m) => ("Domain mapping error: ", m),
            GraphError::Contract(m) => ("Shape contract violation: ", m),
        };
        let mut s = String::from_str(head);
        s.append(detail.as_str());
        s
    }
}

} // verus!
