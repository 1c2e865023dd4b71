//! The mapping persister: the document that records a mapping table, and
//! where it goes.

use vstd::prelude::*;
use crate::mapping::{distinct_keys, map_of, pair_views, DirectoryMapping};
use crate::path::{join, path_join};

verus! {

/// The name of the mapping document inside a replaypack's output directory.
pub const MAPPING_FILE_NAME: &'static str = "mapping.json";

/// The text that `serde_json::to_string_pretty` gives for a map from strings
/// to strings with the entries `entries`: a JSON object with one member per
/// entry, pretty-printed.
pub uninterp spec fn pretty_json(entries: Map<Seq<char>, Seq<char>>) -> Seq<char>;

/// The error of `serde_json`, carried through as an opaque value.
#[verifier::external_type_specification]
#[verifier::external_body]
pub struct ExSerdeJsonError(serde_json::Error);

/// A mapping document, ready to be written.
#[derive(Debug, PartialEq, Eq)]
pub struct MappingDocument {
    /// Where the document goes.
    pub path: String,
    /// What it holds.
    pub contents: String,
}

/// What a `MappingDocument` stands for.
pub struct DocumentView {
    pub path: Seq<char>,
    pub contents: Seq<char>,
}

impl View for MappingDocument {
    type V = DocumentView;

    open spec fn view(&self) -> DocumentView {
        DocumentView { path: self.path@, contents: self.contents@ }
    }
}

/// The mapping document of the table `mapping` for the output directory
/// `output_dir`.
pub open spec fn document_for(output_dir: Seq<char>, mapping: Map<Seq<char>, Seq<char>>) -> DocumentView {
    DocumentView { path: join(output_dir, MAPPING_FILE_NAME@), contents: pretty_json(mapping) }
}

/// Why a mapping document could not be made.
#[derive(Debug, Clone, Copy, PartialEq, Eq, Structural)]
pub enum MappingError {
    /// The serializer refused the table.
    Serialization,
}

/// The pretty-printed JSON object for `entries`.
///
/// Collects the entries into a `BTreeMap` and calls
/// `serde_json::to_string_pretty` on it. The contract claims two things.
///
/// The text is a function of the entries as a map: the serializer walks a
/// `BTreeMap` in the order of its keys, so neither the order of `entries`
/// nor anything outside them has a part in it.
///
/// The call succeeds. `to_string_pretty` documents that it fails only where
/// the value's own `Serialize` fails or a map has keys that are not strings.
/// Here the value is a map from `&str` to `&str`: its keys are strings, and
/// serde's `Serialize` for a map and for `str` only hand on what the
/// serializer returns. In the serializer every other error is one of the
/// writer, which is the `Vec<u8>` of `to_vec_pretty`, and writing to a
/// vector does not fail.
#[verifier::external_body]
fn to_pretty_json(entries: &Vec<(String, String)>) -> (text: Result<String, serde_json::Error>)
    requires
        distinct_keys(pair_views(entries@)),
    ensures
        text is Ok,
        text matches Ok(t) ==> t@ == pretty_json(map_of(pair_views(entries@))),
{
    let map: std::collections::BTreeMap<&str, &str> = entries.iter().map(
        |entry| (entry.0.as_str(), entry.1.as_str()),
    ).collect();
    serde_json::to_string_pretty(&map)
}

/// The mapping document for a replaypack's output directory, given what the
/// serializer made of the table.
pub fn mapping_document(output_dir_path: &str, serialized: Result<String, serde_json::Error>) -> (document:
    Result<MappingDocument, MappingError>)
    ensures
        match serialized {
            Ok(text) => {
                &&& document is Ok
                &&& document->Ok_0.path@ == join(output_dir_path@, MAPPING_FILE_NAME@)
                &&& document->Ok_0.contents@ == text@
            },
            Err(_) => document == Err::<MappingDocument, MappingError>(MappingError::Serialization),
        },
{
    match serialized {
        Ok(contents) => Ok(
            MappingDocument { path: path_join(output_dir_path, MAPPING_FILE_NAME), contents },
        ),
        Err(_) => Err(MappingError::Serialization),
    }
}

/// Makes the mapping document of `dir_mapping` for the output directory
/// `output_dir_path`: the table as pretty-printed JSON, to be written to
/// `mapping.json` in that directory. Every table has its document, the
/// empty one too.
pub fn save_dir_mapping(output_dir_path: &str, dir_mapping: &DirectoryMapping) -> (document: Result<
    MappingDocument,
    MappingError,
>)
    ensures
        document is Ok,
        document->Ok_0@ == document_for(output_dir_path@, dir_mapping@),
{
    let serialized = to_pretty_json(dir_mapping.entries());
    mapping_document(output_dir_path, serialized)
}

} // verus!
