//! The conversion entry point: parse, map, serialize, as one pure
//! function from source text to output text.  The caller reads the
//! source and persists the result; every stage failure is surfaced as a
//! single error value.

use crate::mapping::{map_document, map_document_v, StructureError};
use crate::node::NodeV;
use crate::parse::{document_at, parse_document};
use crate::render::{document_text, render_document};
use vstd::prelude::*;

verus! {

/// Why a conversion failed: the source is not well-formed XML, or it
/// lacks a structure the mapping needs.
#[derive(Debug)]
pub enum ConvError {
    Parse(String),
    Structure(StructureError),
}

impl ConvError {
    pub open spec fn message_v(self) -> Seq<char> {
        match self {
            ConvError::Parse(m) => m@,
            ConvError::Structure(e) => e.message_v(),
        }
    }

    /// A human-readable description of the failure.
    pub fn message(&self) -> (r: String)
        ensures
            r@ == self.message_v(),
    {
        match self {
            ConvError::Parse(m) => m.clone(),
            ConvError::Structure(e) => e.message(),
        }
    }
}

/// The fixed root tag of the output document.
pub open spec fn out_root_tag() -> Seq<char> {
    "ListaNotaFiscal"@
}

/// Whether conversion succeeds on this source text: it parses, and the
/// mapping finds the structures it needs.
pub open spec fn convert_ok(s: Seq<char>) -> bool {
    &&& document_at(s) is Some
    &&& map_document_v((document_at(s)->0).1) is Ok
}

/// The output text of a successful conversion.
pub open spec fn converted_text(s: Seq<char>) -> Seq<char> {
    document_text(out_root_tag(), map_document_v((document_at(s)->0).1)->Ok_0)
}

/// Converts one source document to the output text: parses the XML,
/// maps every record, and renders the output tree.  Succeeds exactly
/// when the source parses and carries the record collection with one
/// details element per record.
pub fn convert(xml: &str) -> (r: Result<String, ConvError>)
    ensures
        match r {
            Ok(out) => convert_ok(xml@) && out@ == converted_text(xml@),
            Err(e) => !convert_ok(xml@) && match e {
                ConvError::Parse(_) => document_at(xml@) is None,
                ConvError::Structure(se) => document_at(xml@) is Some && map_document_v(
                    (document_at(xml@)->0).1,
                ) == Err::<NodeV, StructureError>(se),
            },
        },
{
    let root = match parse_document(xml) {
        Ok(p) => p.1,
        Err(m) => {
            return Err(ConvError::Parse(m));
        },
    };
    let out_root = match map_document(&root) {
        Ok(n) => n,
        Err(e) => {
            return Err(ConvError::Structure(e));
        },
    };
    Ok(render_document("ListaNotaFiscal", &out_root))
}

} // verus!
