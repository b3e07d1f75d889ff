//! RDF terms and quads as plain values.

use crate::vocab::XSD_NS;
use vstd::prelude::*;

verus! {

/// An RDF term.
///
/// A literal carries its lexical value, its datatype IRI and, for a
/// language-tagged string, its language tag. A simple literal is a literal of
/// datatype `xsd:string`.
#[derive(Clone, Debug, PartialEq, Eq)]
pub enum RdfTerm {
    Iri(String),
    Blank(String),
    Literal(String, String, Option<String>),
}

/// The mathematical value of an [`RdfTerm`].
pub enum TermView {
    Iri(Seq<char>),
    Blank(Seq<char>),
    Literal(Seq<char>, Seq<char>, Option<Seq<char>>),
}

/// The view of an optional string.
pub open spec fn opt_view(o: Option<String>) -> Option<Seq<char>> {
    match o {
        Some(s) => Some(s@),
        None => None,
    }
}

impl View for RdfTerm {
    type V = TermView;

    open spec fn view(&self) -> TermView {
        match self {
            RdfTerm::Iri(i) => TermView::Iri(i@),
            RdfTerm::Blank(b) => TermView::Blank(b@),
            RdfTerm::Literal(v, d, l) => TermView::Literal(v@, d@, opt_view(*l)),
        }
    }
}

/// An RDF quad: subject, predicate IRI, object and graph (`None` is the
/// default graph, `Some(iri)` a named graph).
#[derive(Clone, Debug, PartialEq, Eq)]
pub struct Quad {
    pub subject: RdfTerm,
    pub predicate: String,
    pub object: RdfTerm,
    pub graph: Option<String>,
}

/// The mathematical value of a [`Quad`].
pub struct QuadView {
    pub subject: TermView,
    pub predicate: Seq<char>,
    pub object: TermView,
    pub graph: Option<Seq<char>>,
}

impl View for Quad {
    type V = QuadView;

    open spec fn view(&self) -> QuadView {
        QuadView {
            subject: self.subject@,
            predicate: self.predicate@,
            object: self.object@,
            graph: opt_view(self.graph),
        }
    }
}

/// The simple literal (datatype `xsd:string`) with lexical value `v`.
pub open spec fn simple_literal_view(v: Seq<char>) -> TermView {
    TermView::Literal(v, XSD_NS@ + "string"@, None)
}

/// The literal of lexical value `v` typed by the XSD datatype `name`.
pub open spec fn xsd_literal_view(v: Seq<char>, name: Seq<char>) -> TermView {
    TermView::Literal(v, XSD_NS@ + name, None)
}

/// The text a query row shows for a term: an IRI as itself, a literal as its
/// lexical value, a blank node as `_:` followed by its identifier.
pub open spec fn term_text(t: TermView) -> Seq<char> {
    match t {
        TermView::Iri(i) => i,
        TermView::Literal(v, _, _) => v,
        TermView::Blank(b) => "_:"@ + b,
    }
}

/// The text of `term` as query rows carry it.
pub fn stringify_term(term: &RdfTerm) -> (r: String)
    ensures
        r@ == term_text(term@),
{
    match term {
        RdfTerm::Iri(i) => i.clone(),
        RdfTerm::Literal(v, _, _) => v.clone(),
        RdfTerm::Blank(b) => {
            let mut s = String::from_str("_:");
            s.append(b.as_str());
            s
        },
    }
}

/// An IRI term.
pub fn iri(s: String) -> (t: RdfTerm)
    ensures
        t@ == TermView::Iri(s@),
{
    RdfTerm::Iri(s)
}

/// A simple literal.
pub fn simple_literal(v: String) -> (t: RdfTerm)
    ensures
        t@ == simple_literal_view(v@),
{
    RdfTerm::Literal(v, crate::vocab::xsd_type("string"), None)
}

/// A literal typed by the XSD datatype `name`.
pub fn xsd_literal(v: String, name: &str) -> (t: RdfTerm)
    ensures
        t@ == xsd_literal_view(v@, name@),
{
    RdfTerm::Literal(v, crate::vocab::xsd_type(name), None)
}

/// The quad `subject predicate object` in `graph`.
pub fn quad(subject: RdfTerm, predicate: String, object: RdfTerm, graph: Option<String>) -> (q: Quad)
    ensures
        q@ == (QuadView {
            subject: subject@,
            predicate: predicate@,
            object: object@,
            graph: opt_view(graph),
        }),
{
    Quad { subject, predicate, object, graph }
}

} // verus!
