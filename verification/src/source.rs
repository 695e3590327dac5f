//! Where the collection comes from: the cache where there is one, the
//! release list otherwise.

use crate::cache::{load, loaded, text_of};
use crate::error::{Fault, ReleaseError};
use crate::lines::{parse_releases, releases_of};
use crate::program::{Program, ProgramView};
use vstd::prelude::*;

verus! {

/// The two sources of a collection.
#[derive(Clone, Copy, Debug, PartialEq, Eq, Structural)]
pub enum DataSource {
    /// The JSON cache that an earlier run wrote.
    Cache,
    /// The release list in plain text.
    PlainText,
}

/// What gathering gives. From the cache: what loading gives. From the
/// release list: `FileNotFound` where it is missing, else the collection that
/// it denotes or its first malformed version.
pub open spec fn gathered(source: DataSource, contents: Option<Seq<char>>) -> Result<
    Seq<ProgramView>,
    Fault,
> {
    match source {
        DataSource::Cache => loaded(contents),
        DataSource::PlainText => match contents {
            None => Err(Fault::FileNotFound),
            Some(text) => releases_of(text),
        },
    }
}

/// Chooses the source, once, from whether a cache exists.
pub fn select_source(cache_present: bool) -> (source: DataSource)
    ensures
        source == if cache_present {
            DataSource::Cache
        } else {
            DataSource::PlainText
        },
{
    if cache_present {
        DataSource::Cache
    } else {
        DataSource::PlainText
    }
}

/// Gathers the collection from the contents of the chosen source; `None`
/// stands for a source that does not exist.
pub fn gather(source: DataSource, contents: Option<&str>) -> (r: Result<Vec<Program>, ReleaseError>)
    ensures
        match r {
            Ok(programs) => gathered(source, text_of(contents)) == Ok::<Seq<ProgramView>, Fault>(
                programs.deep_view(),
            ),
            Err(error) => gathered(source, text_of(contents)) == Err::<Seq<ProgramView>, Fault>(
                error@,
            ),
        },
{
    match source {
        DataSource::Cache => load(contents),
        DataSource::PlainText => match contents {
            None => Err(ReleaseError::FileNotFound),
            Some(text) => parse_releases(text),
        },
    }
}

} // verus!
