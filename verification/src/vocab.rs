//! Vocabulary namespaces, term identifiers and IRI builders.

use vstd::prelude::*;

verus! {

/// The ClearHead actions vocabulary (v4).
pub const ACTIONS_NS: &'static str = "https://clearhead.us/vocab/actions/v4#";

/// The ClearHead workspace vocabulary (v1).
pub const WORKSPACE_NS: &'static str = "https://clearhead.us/vocab/workspace/v1#";

/// Common Core Ontologies.
pub const CCO_NS: &'static str = "https://www.commoncoreontologies.org/";

/// Basic Formal Ontology (OBO PURLs).
pub const BFO_NS: &'static str = "http://purl.obolibrary.org/obo/";

/// RDF syntax namespace.
pub const RDF_NS: &'static str = "http://www.w3.org/1999/02/22-rdf-syntax-ns#";

/// RDF Schema namespace.
pub const RDFS_NS: &'static str = "http://www.w3.org/2000/01/rdf-schema#";

/// XML Schema datatypes namespace.
pub const XSD_NS: &'static str = "http://www.w3.org/2001/XMLSchema#";

/// SKOS namespace.
pub const SKOS_NS: &'static str = "http://www.w3.org/2004/02/skos/core#";

/// `bfo:has_part`.
pub const BFO_HAS_PART: &'static str = "BFO_0000051";

/// `bfo:part_of`.
pub const BFO_PART_OF: &'static str = "BFO_0000050";

/// `cco:Plan`.
pub const CCO_PLAN: &'static str = "ont00000974";

/// `actions:Action`.
pub const ACTIONS_ACTION: &'static str = "Action";

/// `cco:is_successor_of`.
pub const CCO_IS_SUCCESSOR_OF: &'static str = "ont00001775";

/// `cco:prescribes`.
pub const CCO_PRESCRIBES: &'static str = "ont00001942";

/// `cco:is_prescribed_by`.
pub const CCO_PRESCRIBED_BY: &'static str = "ont00001920";

/// `cco:is_measured_by_nominal`, used for an action's status.
pub const CCO_STATUS_PROP: &'static str = "ont00001868";

/// `rdfs:label`.
pub const RDFS_LABEL: &'static str = "label";

/// `rdfs:comment`.
pub const RDFS_COMMENT: &'static str = "comment";

/// URI prefix of every workspace named graph.
pub const WORKSPACE_GRAPH_PREFIX: &'static str = "urn:clearhead:workspace:";

/// Named graph of transient in-memory stores (ad-hoc queries, tests).
pub const TRANSIENT_GRAPH_URI: &'static str = "urn:clearhead:workspace:transient";

/// `base` followed by `name`.
pub fn ns(base: &str, name: &str) -> (r: String)
    ensures
        r@ == base@ + name@,
{
    let mut s = String::from_str(base);
    s.append(name);
    s
}

/// A term of the actions vocabulary.
pub fn actions_pred(name: &str) -> (r: String)
    ensures
        r@ == ACTIONS_NS@ + name@,
{
    ns(ACTIONS_NS, name)
}

/// A term of the Common Core Ontologies.
pub fn cco_node(id: &str) -> (r: String)
    ensures
        r@ == CCO_NS@ + id@,
{
    ns(CCO_NS, id)
}

/// A property of RDF Schema.
pub fn rdfs_pred(name: &str) -> (r: String)
    ensures
        r@ == RDFS_NS@ + name@,
{
    ns(RDFS_NS, name)
}

/// A property of the Basic Formal Ontology.
pub fn bfo_pred(name: &str) -> (r: String)
    ensures
        r@ == BFO_NS@ + name@,
{
    ns(BFO_NS, name)
}

/// `rdf:type`.
pub fn rdf_type() -> (r: String)
    ensures
        r@ == RDF_NS@ + "type"@,
{
    ns(RDF_NS, "type")
}

/// A datatype of XML Schema.
pub fn xsd_type(name: &str) -> (r: String)
    ensures
        r@ == XSD_NS@ + name@,
{
    ns(XSD_NS, name)
}

/// The named graph IRI of the workspace whose UUID text is `uuid`:
/// `urn:clearhead:workspace:<uuid>`.
pub fn workspace_graph_uri(uuid: &str) -> (r: String)
    ensures
        r@ == WORKSPACE_GRAPH_PREFIX@ + uuid@,
{
    ns(WORKSPACE_GRAPH_PREFIX, uuid)
}

/// `urn:uuid:` followed by `id`.
pub fn uuid_urn(id: &str) -> (r: String)
    ensures
        r@ == "urn:uuid:"@ + id@,
{
    ns("urn:uuid:", id)
}

/// The lower-case hexadecimal digit of `d < 16`.
pub open spec fn hex_digit(d: u128) -> char {
    if d < 10 {
        ((d + 48) as u8) as char
    } else {
        ((d + 87) as u8) as char
    }
}

/// Position, among the 32 digits, of the character at index `i` of the
/// hyphenated form (`8-4-4-4-12`).
pub open spec fn uuid_digit_index(i: int) -> int {
    if i < 8 {
        i
    } else if i < 13 {
        i - 1
    } else if i < 18 {
        i - 2
    } else if i < 23 {
        i - 3
    } else {
        i - 4
    }
}

/// The hyphenated lower-case text of the UUID whose 128 bits are `id`
/// (most significant digit first), as `Uuid`'s `Display` writes it.
pub open spec fn uuid_text(id: u128) -> Seq<char> {
    Seq::new(
        36,
        |i: int|
            if i == 8 || i == 13 || i == 18 || i == 23 {
                '-'
            } else {
                hex_digit((id >> ((4 * (31 - uuid_digit_index(i))) as u128)) & 0xf)
            },
    )
}

/// The version 5 (SHA-1, name-based) UUID of the UTF-8 bytes of `name` in the
/// namespace `namespace`, as `Uuid::new_v5` computes it.
pub uninterp spec fn uuid_v5(namespace: u128, name: Seq<char>) -> u128;

/// Calls `uuid::Uuid::to_string` on the UUID with bits `id`.
#[verifier::external_body]
pub fn uuid_string(id: u128) -> (r: String)
    ensures
        r@ == uuid_text(id),
{
    uuid::Uuid::from_u128(id).to_string()
}

/// Calls `uuid::Uuid::new_v5` with namespace bits `namespace` and the bytes of
/// `name`.
#[verifier::external_body]
pub fn uuid_new_v5(namespace: u128, name: &str) -> (r: u128)
    ensures
        r == uuid_v5(namespace, name@),
{
    uuid::Uuid::new_v5(&uuid::Uuid::from_u128(namespace), name.as_bytes()).as_u128()
}

/// `urn:uuid:` followed by the text of the UUID `id`.
pub open spec fn uuid_iri(id: u128) -> Seq<char> {
    "urn:uuid:"@ + uuid_text(id)
}

/// The IRI `urn:uuid:<id>`.
pub fn uuid_iri_string(id: u128) -> (r: String)
    ensures
        r@ == uuid_iri(id),
{
    let t = uuid_string(id);
    uuid_urn(t.as_str())
}

/// What `Uuid::parse_str` gives for the text `s`, as the UUID's bits.
pub uninterp spec fn uuid_parse_result(s: Seq<char>) -> Option<u128>;

/// Calls `uuid::Uuid::parse_str`. The hyphenated lower-case text of a UUID
/// (what `Uuid`'s `Display` writes) parses back to that UUID.
#[verifier::external_body]
pub fn uuid_parse(s: &str) -> (r: Option<u128>)
    ensures
        r == uuid_parse_result(s@),
        forall|id: u128| s@ == uuid_text(id) ==> r == Some(id),
{
    uuid::Uuid::parse_str(s).ok().map(|u| u.as_u128())
}

} // verus!
