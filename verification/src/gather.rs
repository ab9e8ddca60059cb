//! The metadata pass: from the files of the source tree to the metadata
//! store that every page is rendered with.

use vstd::prelude::*;
use crate::dispatch::{metadata_source, metadata_source_of, MetadataSource};
use crate::error::BuildError;
use crate::metadata::{
    full_tree, preamble_tree, read_metadata_full, read_metadata_preamble, MetadataView,
};
use crate::path::{relative, relative_path};
use crate::store::MetadataStore;

verus! {

/// A regular file of the source tree: its path and what it holds.
pub struct SourceFile {
    pub path: String,
    pub content: String,
}

/// What the metadata pass makes of one file.
pub enum Reading {
    /// The file is not read: it is hidden, or it is not of a kind that holds metadata.
    Ignored,
    /// The file is read and its structured data is not well formed.
    Malformed,
    /// The file is read and this is its metadata.
    Read(MetadataView),
}

/// What the metadata pass makes of the file at `path` that holds `content`.
pub open spec fn reading(path: Seq<char>, content: Seq<char>) -> Reading {
    match metadata_source_of(path) {
        None => Reading::Ignored,
        Some(MetadataSource::Full) => match full_tree(content) {
            Some(value) => Reading::Read(value),
            None => Reading::Malformed,
        },
        Some(MetadataSource::Preamble) => match preamble_tree(content) {
            Some(value) => Reading::Read(value),
            None => Reading::Malformed,
        },
    }
}

/// The store that the metadata pass builds from `files`, taken in order,
/// or `None` where one that it reads is malformed. Each file that is read is
/// entered under its path without a leading `./`.
pub open spec fn gathered(files: Seq<SourceFile>) -> Option<Map<Seq<char>, MetadataView>>
    decreases files.len(),
{
    if files.len() == 0 {
        Some(Map::empty())
    } else {
        match gathered(files.drop_last()) {
            None => None,
            Some(before) => match reading(files.last().path@, files.last().content@) {
                Reading::Ignored => Some(before),
                Reading::Malformed => None,
                Reading::Read(value) => Some(before.insert(relative(files.last().path@), value)),
            },
        }
    }
}

/// Reads the metadata of one file into `store`, if the metadata pass reads
/// that file. A malformed file is an error and leaves the store as it was.
pub fn gather_file(store: &mut MetadataStore, path: &str, content: &str) -> (done: Result<
    (),
    BuildError,
>)
    ensures
        match reading(path@, content@) {
            Reading::Ignored => done is Ok && final(store)@ == old(store)@,
            Reading::Malformed => done is Err && done->Err_0 is MalformedMetadata && final(store)@
                == old(store)@,
            Reading::Read(value) => done is Ok && final(store)@ == old(store)@.insert(
                relative(path@),
                value,
            ),
        },
{
    let read = match metadata_source(path) {
        None => {
            return Ok(());
        },
        Some(MetadataSource::Full) => read_metadata_full(content),
        Some(MetadataSource::Preamble) => read_metadata_preamble(content),
    };
    match read {
        Ok(metadata) => {
            store.insert(relative_path(path), metadata);
            Ok(())
        },
        Err(error) => Err(error),
    }
}

/// Builds the metadata store from the regular files of the source tree.
/// The first malformed file that is read ends the pass, and no store is made.
pub fn gather_metadata(files: &Vec<SourceFile>) -> (built: Result<MetadataStore, BuildError>)
    ensures
        built is Ok <==> gathered(files@) is Some,
        built is Ok ==> Some(built->Ok_0@) == gathered(files@),
        built is Err ==> built->Err_0 is MalformedMetadata,
{
    let mut store = MetadataStore::new();
    let mut i: usize = 0;
    assert(files@.take(0) =~= Seq::<SourceFile>::empty());
    while i < files.len()
        invariant
            i <= files.len(),
            gathered(files@.take(i as int)) == Some(store@),
        decreases files.len() - i,
    {
        let ghost upto = files@.take(i + 1);
        assert(upto.drop_last() =~= files@.take(i as int));
        assert(upto.last() == files@[i as int]);
        let file = &files[i];
        match gather_file(&mut store, file.path.as_str(), file.content.as_str()) {
            Ok(()) => {},
            Err(error) => {
                proof {
                    lemma_gathered_fails(files@, i + 1);
                }
                return Err(error);
            },
        }
        i += 1;
    }
    assert(files@.take(files@.len() as int) =~= files@);
    Ok(store)
}

/// Once a file is malformed, the pass has failed whatever follows.
pub proof fn lemma_gathered_fails(files: Seq<SourceFile>, n: int)
    requires
        0 <= n <= files.len(),
        gathered(files.take(n)) is None,
    ensures
        gathered(files) is None,
    decreases files.len() - n,
{
    if n < files.len() {
        let next = files.take(n + 1);
        assert(next.drop_last() =~= files.take(n));
        lemma_gathered_fails(files, n + 1);
    } else {
        assert(files.take(n) =~= files);
    }
}

} // verus!
