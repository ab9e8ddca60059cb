//! Rendering: a template under its own name, and a markdown source as the
//! converter's fragment put into the render of the template that its
//! metadata names. The templating engine and the converter are asked by the
//! caller; what they are asked, and what is made of their answers, is decided
//! here.

use vstd::prelude::*;
use vstd::string::StringExecFns;
use crate::command::texts;
use crate::error::{engine_failure, BuildError};
use crate::metadata::{field, Metadata, MetadataView};
use crate::path::{
    fragment_path, fragment_target, mirror, mirrored, page_path, page_target, relative,
    relative_path,
};
use crate::store::MetadataStore;
use crate::text::{
    chars_of, has_prefix, lemma_replaced_none, lemma_replaced_once, occurs_at, replace_all,
    replaced, slice_of, starts_with, string_of,
};

verus! {

/// The file that is being rendered.
pub struct Page {
    pub path: String,
}

/// What every template is rendered with: the whole metadata store, and the
/// page that is being rendered.
pub struct Context<'a> {
    pub meta: &'a MetadataStore,
    pub page: Page,
}

/// What the engine is asked for: a template by its name, rendered in a context.
pub struct Request<'a> {
    pub template: String,
    pub context: Context<'a>,
}

/// A file of the output tree: where it goes and what it holds.
pub struct Artifact {
    pub path: String,
    pub content: String,
}

/// Where a markdown source's page and the converter's fragment for it go.
pub struct Targets {
    pub page: String,
    pub fragment: String,
}

/// The text in a rendered template that the converter's fragment takes the
/// place of.
pub open spec fn marker() -> Seq<char> {
    "<!-- markdown -->"@
}

/// The rendered template with the fragment in the place of the marker.
pub open spec fn spliced(rendered: Seq<char>, fragment: Seq<char>) -> Seq<char> {
    replaced(rendered, marker(), fragment)
}

/// The name under which the engine knows the template that metadata names:
/// the name without the `/` that it may begin with.
pub open spec fn template_key(name: Seq<char>) -> Seq<char> {
    if has_prefix(name, "/"@) {
        name.skip(1)
    } else {
        name
    }
}

/// What metadata says of the template of its page.
pub enum Template {
    /// The metadata is no mapping.
    NotAMapping,
    /// The mapping has no `template` field.
    Missing,
    /// The `template` field is not text.
    NotText,
    /// The name under which the engine knows the template.
    Named(Seq<char>),
}

/// What `metadata` says of the template of its page: the value must be a
/// mapping, and the text under its `template` field names the template.
pub open spec fn template_of(metadata: MetadataView) -> Template {
    match metadata {
        MetadataView::Mapping(_) => match field(metadata, "template"@) {
            None => Template::Missing,
            Some(MetadataView::Text(name)) => Template::Named(template_key(name)),
            Some(_) => Template::NotText,
        },
        _ => Template::NotAMapping,
    }
}

/// What the converter is started with for the markdown source `from`: its
/// extensions, a table of contents over the second and third level of
/// headings, the source to read and the fragment to write.
pub open spec fn converter_command(from: Seq<char>) -> Seq<Seq<char>> {
    seq![
        "--ext-footnotes"@,
        "--ext-mathjax"@,
        "--ext-punctuation"@,
        "--ext-skylighting"@,
        "--ext-toc"@,
        "2-3"@,
        "-i"@,
        from,
        "-o"@,
        fragment_target(from),
    ]
}

impl<'a> Context<'a> {
    /// The context in which the file at `path` is rendered.
    pub fn for_page(meta: &'a MetadataStore, path: &str) -> (context: Context<'a>)
        ensures
            context.meta == meta,
            context.page.path@ == relative(path@),
    {
        Context { meta, page: Page { path: relative_path(path) } }
    }
}

/// A rendered template with a fragment in the place of the marker that
/// occurs in it once: the text before the marker, the fragment, the text
/// behind the marker.
pub proof fn lemma_spliced_once(rendered: Seq<char>, fragment: Seq<char>, at: int)
    requires
        occurs_at(rendered, marker(), at),
        forall|k: int| occurs_at(rendered, marker(), k) ==> k == at,
    ensures
        spliced(rendered, fragment) == rendered.take(at) + fragment + rendered.skip(
            at + marker().len(),
        ),
{
    reveal_strlit("<!-- markdown -->");
    lemma_replaced_once(rendered, marker(), fragment, at);
}

/// A rendered template without the marker stays as it is.
pub proof fn lemma_spliced_none(rendered: Seq<char>, fragment: Seq<char>)
    requires
        forall|k: int| !occurs_at(rendered, marker(), k),
    ensures
        spliced(rendered, fragment) == rendered,
{
    lemma_replaced_none(rendered, marker(), fragment);
}

/// Puts `fragment` into `rendered`, in the place of the marker.
pub fn compose(rendered: &str, fragment: &str) -> (page: String)
    ensures
        page@ == spliced(rendered@, fragment@),
{
    let pattern = chars_of("<!-- markdown -->");
    string_of(&replace_all(&chars_of(rendered), &pattern, &chars_of(fragment)))
}

/// The name under which the engine knows the template that `metadata`
/// names. Metadata that is no mapping, that has no `template` field, or whose
/// `template` field is not text, names none.
pub fn template_name(metadata: &Metadata) -> (name: Result<String, BuildError>)
    ensures
        match template_of(metadata@) {
            Template::NotAMapping => name is Err && name->Err_0 is NotAMapping,
            Template::Missing => name is Err && name->Err_0 is MissingTemplate,
            Template::NotText => name is Err && name->Err_0 is TemplateNotText,
            Template::Named(key) => name is Ok && name->Ok_0@ == key,
        },
{
    match metadata {
        Metadata::Mapping(_) => {},
        _ => {
            return Err(BuildError::NotAMapping);
        },
    }
    match metadata.get("template") {
        None => Err(BuildError::MissingTemplate),
        Some(Metadata::Text(text)) => {
            let chars = chars_of(text.as_str());
            let root = chars_of("/");
            proof {
                reveal_strlit("/");
            }
            if starts_with(&chars, &root) {
                let rest = slice_of(&chars, 1, chars.len());
                assert(chars@.subrange(1, chars@.len() as int) =~= chars@.skip(1));
                Ok(string_of(&rest))
            } else {
                Ok(string_of(&chars))
            }
        },
        Some(_) => Err(BuildError::TemplateNotText),
    }
}

/// Where the page of the markdown source `from` goes, and the fragment that
/// the converter makes of it. A source without metadata in the store, or
/// whose metadata is no mapping, has no page.
pub fn markdown_targets(from: &str, meta: &MetadataStore) -> (targets: Result<Targets, BuildError>)
    ensures
        !meta@.contains_key(relative(from@)) ==> targets is Err && targets->Err_0
            is MissingMetadata,
        meta@.contains_key(relative(from@)) && !(meta@[relative(from@)] is Mapping) ==> targets
            is Err && targets->Err_0 is NotAMapping,
        meta@.contains_key(relative(from@)) && meta@[relative(from@)] is Mapping ==> {
            &&& targets is Ok
            &&& targets->Ok_0.page@ == page_target(from@)
            &&& targets->Ok_0.fragment@ == fragment_target(from@)
        },
{
    let key = relative_path(from);
    match meta.get(key.as_str()) {
        None => Err(BuildError::MissingMetadata),
        Some(metadata) => match metadata {
            Metadata::Mapping(_) => Ok(
                Targets { page: page_path(from), fragment: fragment_path(from) },
            ),
            _ => Err(BuildError::NotAMapping),
        },
    }
}

/// What the converter is started with for the markdown source `from`.
pub fn converter_arguments(from: &str) -> (arguments: Vec<String>)
    ensures
        texts(arguments@) == converter_command(from@),
{
    let mut arguments: Vec<String> = Vec::new();
    arguments.push(String::from_str("--ext-footnotes"));
    arguments.push(String::from_str("--ext-mathjax"));
    arguments.push(String::from_str("--ext-punctuation"));
    arguments.push(String::from_str("--ext-skylighting"));
    arguments.push(String::from_str("--ext-toc"));
    arguments.push(String::from_str("2-3"));
    arguments.push(String::from_str("-i"));
    arguments.push(String::from_str(from));
    arguments.push(String::from_str("-o"));
    arguments.push(fragment_path(from));
    assert(texts(arguments@) =~= converter_command(from@));
    arguments
}

/// The page of the markdown source `from`, from the render of its template
/// and the converter's fragment.
pub fn markdown_artifact(from: &str, rendered: &str, fragment: &str) -> (artifact: Artifact)
    ensures
        artifact.path@ == page_target(from@),
        artifact.content@ == spliced(rendered@, fragment@),
{
    Artifact { path: page_path(from), content: compose(rendered, fragment) }
}

/// The artifact of the template `from`, from its render.
pub fn html_artifact(from: &str, rendered: String) -> (artifact: Artifact)
    ensures
        artifact.path@ == mirrored(from@),
        artifact.content@ == rendered@,
{
    Artifact { path: mirror(from), content: rendered }
}

/// What the engine is asked for the template at `from`: the template of
/// that name, the path without a leading `./`, rendered as that page.
pub fn html_request<'a>(from: &str, meta: &'a MetadataStore) -> (request: Request<'a>)
    ensures
        request.template@ == relative(from@),
        request.context.page.path@ == relative(from@),
        request.context.meta == meta,
{
    Request { template: relative_path(from), context: Context::for_page(meta, from) }
}

/// What the engine is asked for the markdown source `from`: the template
/// that the source's metadata names, rendered as that page. A source without
/// metadata in the store, or whose metadata names no template, has no
/// request.
pub fn markdown_request<'a>(from: &str, meta: &'a MetadataStore) -> (request: Result<
    Request<'a>,
    BuildError,
>)
    ensures
        !meta@.contains_key(relative(from@)) ==> request is Err && request->Err_0
            is MissingMetadata,
        meta@.contains_key(relative(from@)) ==> match template_of(meta@[relative(from@)]) {
            Template::NotAMapping => request is Err && request->Err_0 is NotAMapping,
            Template::Missing => request is Err && request->Err_0 is MissingTemplate,
            Template::NotText => request is Err && request->Err_0 is TemplateNotText,
            Template::Named(key) => {
                &&& request is Ok
                &&& request->Ok_0.template@ == key
                &&& request->Ok_0.context.page.path@ == relative(from@)
                &&& request->Ok_0.context.meta == meta
            },
        },
{
    let context = Context::for_page(meta, from);
    match meta.get(context.page.path.as_str()) {
        None => Err(BuildError::MissingMetadata),
        Some(metadata) => match template_name(metadata) {
            Err(error) => Err(error),
            Ok(template) => Ok(Request { template, context }),
        },
    }
}

/// What the engine's answer comes to: its text as it is, or its failure as a
/// failure of the build that carries the engine's words.
pub fn rendered_text(answer: Result<String, String>) -> (rendered: Result<String, BuildError>)
    ensures
        answer is Ok ==> rendered is Ok && rendered->Ok_0@ == answer->Ok_0@,
        answer is Err ==> rendered is Err && engine_failure(rendered->Err_0, answer->Err_0@),
{
    match answer {
        Ok(text) => Ok(text),
        Err(words) => Err(BuildError::Templating(words)),
    }
}

/// The artifact of the template at `from`, from the engine's answer to
/// `html_request`: the engine's text at the mirrored place, or the engine's
/// failure.
pub fn gen_html(from: &str, answer: Result<String, String>) -> (done: Result<Artifact, BuildError>)
    ensures
        answer is Ok ==> {
            &&& done is Ok
            &&& done->Ok_0.path@ == mirrored(from@)
            &&& done->Ok_0.content@ == answer->Ok_0@
        },
        answer is Err ==> done is Err && engine_failure(done->Err_0, answer->Err_0@),
{
    match rendered_text(answer) {
        Ok(rendered) => Ok(html_artifact(from, rendered)),
        Err(error) => Err(error),
    }
}

/// The page of the markdown source `from`, from the engine's answer to
/// `markdown_request` and from `fragment`, the converter's output for the
/// source. Metadata that names no template is an error whatever the engine
/// said; then the engine's failure is; else the page is the engine's text with
/// the fragment in the place of the marker.
pub fn gen_markdown(
    from: &str,
    meta: &MetadataStore,
    answer: Result<String, String>,
    fragment: &str,
) -> (done: Result<Artifact, BuildError>)
    ensures
        !meta@.contains_key(relative(from@)) ==> done is Err && done->Err_0 is MissingMetadata,
        meta@.contains_key(relative(from@)) ==> match template_of(meta@[relative(from@)]) {
            Template::NotAMapping => done is Err && done->Err_0 is NotAMapping,
            Template::Missing => done is Err && done->Err_0 is MissingTemplate,
            Template::NotText => done is Err && done->Err_0 is TemplateNotText,
            Template::Named(_) => {
                &&& answer is Err ==> done is Err && engine_failure(done->Err_0, answer->Err_0@)
                &&& answer is Ok ==> {
                    &&& done is Ok
                    &&& done->Ok_0.path@ == page_target(from@)
                    &&& done->Ok_0.content@ == spliced(answer->Ok_0@, fragment@)
                }
            },
        },
{
    match markdown_request(from, meta) {
        Err(error) => {
            return Err(error);
        },
        Ok(_) => {},
    }
    match rendered_text(answer) {
        Ok(rendered) => Ok(markdown_artifact(from, rendered.as_str(), fragment)),
        Err(error) => Err(error),
    }
}

} // verus!
