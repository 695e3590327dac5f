//! The cache: the whole collection as one JSON document.
//!
//! The document is an array of objects, one per program, each with the
//! members `name`, a string, and `release_history`, an array of objects with
//! the members `major`, `minor` and `patch`, unsigned numbers.

use crate::error::{Fault, ReleaseError};
use crate::json::{
    array_value, document_of, documents_of, empty_map, member, number_value, object_value,
    parse_document, parsed_document, pretty_text, print_document, put, text_value, Document,
};
use crate::program::{Program, ProgramView};
use crate::version::Version;
use vstd::prelude::*;

verus! {

/// The document of a version.
pub open spec fn version_document(version: Version) -> Document {
    Document::Object(
        map![
            "major"@ => Document::Unsigned(version.major as u64),
            "minor"@ => Document::Unsigned(version.minor as u64),
            "patch"@ => Document::Unsigned(version.patch as u64),
        ],
    )
}

/// The documents of the versions of a release history, in order.
pub open spec fn history_documents(history: Seq<Version>) -> Seq<Document> {
    Seq::new(history.len(), |i: int| version_document(history[i]))
}

/// The document of a program.
pub open spec fn program_document(program: ProgramView) -> Document {
    Document::Object(
        map![
            "name"@ => Document::Text(program.name),
            "release_history"@ => Document::Array(history_documents(program.release_history)),
        ],
    )
}

/// The documents of the programs of a collection, in order.
pub open spec fn program_documents(collection: Seq<ProgramView>) -> Seq<Document> {
    Seq::new(collection.len(), |i: int| program_document(collection[i]))
}

/// The document of a collection.
pub open spec fn collection_document(collection: Seq<ProgramView>) -> Document {
    Document::Array(program_documents(collection))
}

/// The member of an object under `key`; `None` for a document that is no
/// object or has no such member.
pub open spec fn member_of(document: Document, key: Seq<char>) -> Option<Document> {
    match document {
        Document::Object(entries) => if entries.contains_key(key) {
            Some(entries[key])
        } else {
            None
        },
        _ => None,
    }
}

/// The 16-bit number under `key`; `None` where the member is missing, is no
/// unsigned integer, or exceeds 65535.
pub open spec fn number_of(document: Document, key: Seq<char>) -> Option<u16> {
    match member_of(document, key) {
        Some(Document::Unsigned(n)) => if n <= u16::MAX {
            Some(n as u16)
        } else {
            None
        },
        _ => None,
    }
}

/// The version that a document holds: an object with the three numbers.
/// Further members are passed over.
pub open spec fn version_from(document: Document) -> Option<Version> {
    if number_of(document, "major"@) is Some && number_of(document, "minor"@) is Some && number_of(
        document,
        "patch"@,
    ) is Some {
        Some(
            Version {
                major: number_of(document, "major"@)->0,
                minor: number_of(document, "minor"@)->0,
                patch: number_of(document, "patch"@)->0,
            },
        )
    } else {
        None
    }
}

/// The release history that a list of documents holds: each of them a
/// version.
pub open spec fn history_from(items: Seq<Document>) -> Option<Seq<Version>> {
    if forall|i: int| 0 <= i < items.len() ==> version_from(#[trigger] items[i]) is Some {
        Some(Seq::new(items.len(), |i: int| version_from(items[i])->0))
    } else {
        None
    }
}

/// The program that a document holds: an object with a string `name` and an
/// array `release_history` of versions. Further members are passed over.
pub open spec fn program_from(document: Document) -> Option<ProgramView> {
    match (member_of(document, "name"@), member_of(document, "release_history"@)) {
        (Some(Document::Text(name)), Some(Document::Array(items))) => match history_from(items) {
            Some(release_history) => Some(ProgramView { name, release_history }),
            None => None,
        },
        _ => None,
    }
}

/// The collection that a document holds: an array of programs.
pub open spec fn collection_from(document: Document) -> Option<Seq<ProgramView>> {
    match document {
        Document::Array(items) => if forall|i: int|
            0 <= i < items.len() ==> program_from(#[trigger] items[i]) is Some {
            Some(Seq::new(items.len(), |i: int| program_from(items[i])->0))
        } else {
            None
        },
        _ => None,
    }
}

/// The characters of a text that may be missing.
pub open spec fn text_of(text: Option<&str>) -> Option<Seq<char>> {
    match text {
        Some(text) => Some(text@),
        None => None,
    }
}

/// What loading gives: without a cache `CacheAbsent`; with one, the
/// collection that its text holds, or `CacheCorrupt` where the text is no
/// JSON or no collection.
pub open spec fn loaded(cache: Option<Seq<char>>) -> Result<Seq<ProgramView>, Fault> {
    match cache {
        None => Err(Fault::CacheAbsent),
        Some(text) => match parsed_document(text) {
            None => Err(Fault::CacheCorrupt),
            Some(document) => match collection_from(document) {
                None => Err(Fault::CacheCorrupt),
                Some(collection) => Ok(collection),
            },
        },
    }
}

/// What saving gives: the indented JSON text of the collection's document.
pub open spec fn saved(collection: Seq<ProgramView>) -> Result<Seq<char>, Fault> {
    match pretty_text(collection_document(collection)) {
        Some(text) => Ok(text),
        None => Err(Fault::EncodeFailed),
    }
}

/// Reads the 16-bit number under `key`.
fn number_member(value: &serde_json::Value, key: &str) -> (r: Option<u16>)
    ensures
        r == number_of(document_of(*value), key@),
{
    match member(value, key) {
        None => None,
        Some(found) => match found.as_u64() {
            None => None,
            Some(n) => if n <= 65535 {
                Some(n as u16)
            } else {
                None
            },
        },
    }
}

/// Reads a version from its document.
fn decode_version(value: &serde_json::Value) -> (r: Option<Version>)
    ensures
        r == version_from(document_of(*value)),
{
    let major = match number_member(value, "major") {
        Some(n) => n,
        None => return None,
    };
    let minor = match number_member(value, "minor") {
        Some(n) => n,
        None => return None,
    };
    let patch = match number_member(value, "patch") {
        Some(n) => n,
        None => return None,
    };
    Some(Version { major, minor, patch })
}

/// Reads a release history from the elements of its array.
fn decode_history(items: &Vec<serde_json::Value>) -> (r: Option<Vec<Version>>)
    ensures
        match r {
            Some(history) => history_from(documents_of(items@)) == Some(history@),
            None => history_from(documents_of(items@)) is None,
        },
{
    let ghost documents = documents_of(items@);
    let mut history: Vec<Version> = Vec::new();
    let mut i: usize = 0;
    while i < items.len()
        invariant
            i <= items.len(),
            documents == documents_of(items@),
            history.len() == i,
            forall|j: int| 0 <= j < i ==> version_from(#[trigger] documents[j]) == Some(history[j]),
        decreases items.len() - i,
    {
        assert(documents[i as int] == document_of(items[i as int]));
        match decode_version(&items[i]) {
            Some(version) => history.push(version),
            None => return None,
        }
        i = i + 1;
    }
    assert(history_from(documents)->0 =~= history@);
    Some(history)
}

/// Reads a program from its document.
fn decode_program(value: &serde_json::Value) -> (r: Option<Program>)
    ensures
        match r {
            Some(program) => program_from(document_of(*value)) == Some(program@),
            None => program_from(document_of(*value)) is None,
        },
{
    let name = match member(value, "name") {
        None => return None,
        Some(found) => match found.as_str() {
            None => return None,
            Some(text) => text.to_owned(),
        },
    };
    let release_history = match member(value, "release_history") {
        None => return None,
        Some(found) => match found.as_array() {
            None => return None,
            Some(items) => match decode_history(items) {
                None => return None,
                Some(history) => history,
            },
        },
    };
    Some(Program { name, release_history })
}

/// Reads a collection from its document. The result is `None` where the
/// document is not an array of programs.
pub fn decode(document: &serde_json::Value) -> (r: Option<Vec<Program>>)
    ensures
        match r {
            Some(programs) => collection_from(document_of(*document)) == Some(
                programs.deep_view(),
            ),
            None => collection_from(document_of(*document)) is None,
        },
{
    let items = match document.as_array() {
        None => return None,
        Some(items) => items,
    };
    let ghost documents = documents_of(items@);
    let mut programs: Vec<Program> = Vec::new();
    let mut i: usize = 0;
    while i < items.len()
        invariant
            i <= items.len(),
            documents == documents_of(items@),
            document_of(*document) == Document::Array(documents),
            programs.len() == i,
            forall|j: int| 0 <= j < i ==> program_from(#[trigger] documents[j]) == Some(programs[j]@),
        decreases items.len() - i,
    {
        assert(documents[i as int] == document_of(items[i as int]));
        match decode_program(&items[i]) {
            Some(program) => programs.push(program),
            None => return None,
        }
        i = i + 1;
    }
    assert(collection_from(Document::Array(documents))->0 =~= programs.deep_view());
    Some(programs)
}

/// Builds the document of a version.
fn encode_version(version: &Version) -> (r: serde_json::Value)
    ensures
        document_of(r) == version_document(*version),
{
    let mut entries = empty_map();
    put(&mut entries, "major".to_owned(), number_value(version.major as u64));
    put(&mut entries, "minor".to_owned(), number_value(version.minor as u64));
    put(&mut entries, "patch".to_owned(), number_value(version.patch as u64));
    object_value(entries)
}

/// Builds the document of a program.
fn encode_program(program: &Program) -> (r: serde_json::Value)
    ensures
        document_of(r) == program_document(program@),
{
    let mut items: Vec<serde_json::Value> = Vec::new();
    let mut i: usize = 0;
    while i < program.release_history.len()
        invariant
            i <= program.release_history.len(),
            items.len() == i,
            forall|j: int|
                0 <= j < i ==> document_of(#[trigger] items[j]) == version_document(
                    program.release_history[j],
                ),
        decreases program.release_history.len() - i,
    {
        items.push(encode_version(&program.release_history[i]));
        i = i + 1;
    }
    assert(documents_of(items@) =~= history_documents(program.release_history@));
    let mut entries = empty_map();
    put(&mut entries, "name".to_owned(), text_value(program.name.clone()));
    put(&mut entries, "release_history".to_owned(), array_value(items));
    object_value(entries)
}

/// Builds the document of a collection.
pub fn encode(collection: &Vec<Program>) -> (r: serde_json::Value)
    ensures
        document_of(r) == collection_document(collection.deep_view()),
{
    let mut items: Vec<serde_json::Value> = Vec::new();
    let mut i: usize = 0;
    while i < collection.len()
        invariant
            i <= collection.len(),
            items.len() == i,
            forall|j: int|
                0 <= j < i ==> document_of(#[trigger] items[j]) == program_document(collection[j]@),
        decreases collection.len() - i,
    {
        items.push(encode_program(&collection[i]));
        i = i + 1;
    }
    assert(documents_of(items@) =~= program_documents(collection.deep_view()));
    array_value(items)
}

/// Loads the collection from the text of the cache; `None` stands for a
/// cache that does not exist.
pub fn load(cache: Option<&str>) -> (r: Result<Vec<Program>, ReleaseError>)
    ensures
        match r {
            Ok(programs) => loaded(text_of(cache)) == Ok::<Seq<ProgramView>, Fault>(
                programs.deep_view(),
            ),
            Err(error) => loaded(text_of(cache)) == Err::<Seq<ProgramView>, Fault>(
                error@,
            ),
        },
{
    match cache {
        None => Err(ReleaseError::CacheAbsent),
        Some(text) => match parse_document(text) {
            Err(_) => Err(ReleaseError::CacheCorrupt),
            Ok(document) => match decode(&document) {
                None => Err(ReleaseError::CacheCorrupt),
                Some(programs) => Ok(programs),
            },
        },
    }
}

/// Writes the collection as the text of the cache.
pub fn save(collection: &Vec<Program>) -> (r: Result<String, ReleaseError>)
    ensures
        match r {
            Ok(text) => saved(collection.deep_view()) == Ok::<Seq<char>, Fault>(text@),
            Err(error) => saved(collection.deep_view()) == Err::<Seq<char>, Fault>(error@),
        },
{
    let document = encode(collection);
    match print_document(&document) {
        Ok(text) => Ok(text),
        Err(_) => Err(ReleaseError::EncodeFailed),
    }
}

/// Reading the document of a version gives the version back.
pub proof fn lemma_version_round_trip(version: Version)
    ensures
        version_from(version_document(version)) == Some(version),
{
    reveal_strlit("major");
    reveal_strlit("minor");
    reveal_strlit("patch");
    assert("major"@[1] != "minor"@[1]);
    assert("major"@[0] != "patch"@[0]);
    assert("minor"@[0] != "patch"@[0]);
}

/// Reading the document of a program gives the program back.
pub proof fn lemma_program_round_trip(program: ProgramView)
    ensures
        program_from(program_document(program)) == Some(program),
{
    reveal_strlit("name");
    reveal_strlit("release_history");
    assert("name"@.len() != "release_history"@.len());
    let items = history_documents(program.release_history);
    assert forall|i: int| 0 <= i < items.len() implies version_from(#[trigger] items[i]) == Some(
        program.release_history[i],
    ) by {
        lemma_version_round_trip(program.release_history[i]);
    }
    assert(history_from(items)->0 =~= program.release_history);
}

/// Round trip: reading the document of a collection gives the collection
/// back, with the same names and the same versions in the same order.
pub proof fn lemma_round_trip(collection: Seq<ProgramView>)
    ensures
        collection_from(collection_document(collection)) == Some(collection),
{
    let items = program_documents(collection);
    assert forall|i: int| 0 <= i < items.len() implies program_from(#[trigger] items[i]) == Some(
        collection[i],
    ) by {
        lemma_program_round_trip(collection[i]);
    }
    assert(collection_from(collection_document(collection))->0 =~= collection);
}

/// Loading a saved text gives the collection back, provided that the text
/// parses to the document that was printed.
pub proof fn lemma_load_saved(collection: Seq<ProgramView>, text: Seq<char>)
    requires
        saved(collection) == Ok::<Seq<char>, Fault>(text),
        parsed_document(text) == Some(collection_document(collection)),
    ensures
        loaded(Some(text)) == Ok::<Seq<ProgramView>, Fault>(collection),
{
    lemma_round_trip(collection);
}

} // verus!
