//! The ways in which a build fails. Every one of them ends the build.

use vstd::prelude::*;

verus! {

/// Why a step of the build failed.
#[derive(Debug)]
pub enum BuildError {
    /// The command line is not exactly one of the known commands.
    Usage,
    /// A structured-data document is not well formed; the text is the parser's.
    MalformedMetadata(String),
    /// The page that is rendered has no entry in the metadata store.
    MissingMetadata,
    /// The page's metadata is not a mapping.
    NotAMapping,
    /// The page's metadata names no template.
    MissingTemplate,
    /// The page's `template` field is not text.
    TemplateNotText,
    /// The templating engine failed; the text is the engine's.
    Templating(String),
}

/// Whether `error` is a failure of the templating engine that carries `words`.
pub open spec fn engine_failure(error: BuildError, words: Seq<char>) -> bool {
    error matches BuildError::Templating(text) && text@ == words
}

} // verus!
