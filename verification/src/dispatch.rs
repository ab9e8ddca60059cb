//! The two passes over the source tree: which files the metadata pass reads
//! and how, and what the publish pass does with each file.

use vstd::prelude::*;
use crate::path::{
    extension, fragment_target, has_extension, is_public, is_visible, lemma_targets_excluded,
    mirrored, page_target, public, relative, relative_path, visible,
};
use vstd::string::StringExecFns;

verus! {

/// How the metadata of a file is read.
#[derive(Clone, Copy, Debug, PartialEq, Eq, Structural)]
pub enum MetadataSource {
    /// The whole file is structured data.
    Full,
    /// Only the front matter of the file is structured data.
    Preamble,
}

/// What the publish pass does with a file.
#[derive(Clone, Copy, Debug, PartialEq, Eq, Structural)]
pub enum Action {
    /// A structured-data file: it is there for its metadata and nothing is written.
    Skip,
    /// A template: it is rendered under its own name.
    Html,
    /// A markdown source: it is converted and composed with its template.
    Markdown,
    /// Any other file: it is copied as it is.
    Copy,
}

/// How the metadata pass reads the regular file at `path`, if it reads it:
/// a visible file that ends in `.yml` as a whole, a visible file that ends in
/// `.md` by its front matter, and no other file.
pub open spec fn metadata_source_of(path: Seq<char>) -> Option<MetadataSource> {
    if !visible(path) {
        None
    } else if extension(path) == Some("yml"@) {
        Some(MetadataSource::Full)
    } else if extension(path) == Some("md"@) {
        Some(MetadataSource::Preamble)
    } else {
        None
    }
}

/// What the publish pass does with the regular file at `path`, if it takes
/// it up: nothing with a file that is not both visible and public; with the
/// others, by extension, the first that applies of `.yml`, `.html`, `.md`,
/// anything else.
pub open spec fn action_of(path: Seq<char>) -> Option<Action> {
    if !visible(path) || !public(path) {
        None
    } else if extension(path) == Some("yml"@) {
        Some(Action::Skip)
    } else if extension(path) == Some("html"@) {
        Some(Action::Html)
    } else if extension(path) == Some("md"@) {
        Some(Action::Markdown)
    } else {
        Some(Action::Copy)
    }
}

/// Tells how the metadata pass reads the regular file at `path`, if it does.
pub fn metadata_source(path: &str) -> (source: Option<MetadataSource>)
    ensures
        source == metadata_source_of(path@),
{
    if !is_visible(path) {
        None
    } else if has_extension(path, "yml") {
        Some(MetadataSource::Full)
    } else if has_extension(path, "md") {
        Some(MetadataSource::Preamble)
    } else {
        None
    }
}

/// Tells what the publish pass does with the regular file at `path`, if it
/// takes it up.
pub fn dispatch(path: &str) -> (action: Option<Action>)
    ensures
        action == action_of(path@),
{
    if !is_visible(path) || !is_public(path) {
        None
    } else if has_extension(path, "yml") {
        Some(Action::Skip)
    } else if has_extension(path, "html") {
        Some(Action::Html)
    } else if has_extension(path, "md") {
        Some(Action::Markdown)
    } else {
        Some(Action::Copy)
    }
}

/// The word that stands for an action in the progress of a build.
pub open spec fn label_of(action: Action) -> Seq<char> {
    match action {
        Action::Skip => "SKIP"@,
        Action::Html => "HTML"@,
        Action::Markdown => "MD"@,
        Action::Copy => "COPY"@,
    }
}

/// The line that reports an action on a file: the action's word, a tab, a
/// space, and the path without a leading `./`.
pub fn progress_line(action: Action, path: &str) -> (line: String)
    ensures
        line@ == label_of(action) + "\t "@ + relative(path@),
{
    let label = match action {
        Action::Skip => "SKIP",
        Action::Html => "HTML",
        Action::Markdown => "MD",
        Action::Copy => "COPY",
    };
    let mut line = String::from_str(label);
    line.append("\t ");
    line.append(relative_path(path).as_str());
    line
}

/// Every file that the publish pass takes up is visible, and every markdown
/// source that it renders was read by the metadata pass for its front matter.
pub proof fn lemma_published_is_gathered(path: Seq<char>)
    ensures
        action_of(path) is Some ==> visible(path) && public(path),
        action_of(path) == Some(Action::Markdown) ==> metadata_source_of(path) == Some(
            MetadataSource::Preamble,
        ),
        action_of(path) == Some(Action::Skip) <==> public(path) && metadata_source_of(path) == Some(
            MetadataSource::Full,
        ),
{
    reveal_strlit("yml");
    reveal_strlit("md");
    reveal_strlit("html");
    assert("yml"@ != "md"@) by {
        assert("yml"@.len() != "md"@.len());
    }
}

/// Neither pass takes up a file that a build wrote: a second build over the
/// same sources sees the same files whether or not the first one's output is
/// still there.
pub proof fn lemma_targets_are_no_sources(path: Seq<char>)
    ensures
        action_of(mirrored(path)) is None && metadata_source_of(mirrored(path)) is None,
        action_of(page_target(path)) is None && metadata_source_of(page_target(path)) is None,
        action_of(fragment_target(path)) is None && metadata_source_of(fragment_target(path))
            is None,
{
    lemma_targets_excluded(path);
}

} // verus!
