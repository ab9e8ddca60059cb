//! Metadata values: what a structured-data document says, as a tree of
//! mappings, sequences and scalars.

use vstd::prelude::*;
use crate::error::BuildError;
use crate::preamble::{extract_front_matter, front_matter, lemma_front_matter_ignores_body};
use crate::text::{chars_of, same_chars};

verus! {

/// `serde_yaml::Value`, a document as the parser gives it. It is turned into
/// a `Metadata` at once.
#[verifier::external_type_specification]
#[verifier::external_body]
pub struct ExYamlValue(serde_yaml::Value);

/// `serde_yaml::Error`, the parser's failure. Only its text is taken.
#[verifier::external_type_specification]
#[verifier::external_body]
pub struct ExYamlError(serde_yaml::Error);

/// A metadata value.
#[derive(Debug, PartialEq, Eq)]
pub enum Metadata {
    Null,
    Bool(bool),
    /// A number, as the parser writes it.
    Number(String),
    Text(String),
    Sequence(Vec<Metadata>),
    /// The entries of a mapping, each a key and its value, in the
    /// document's order.
    Mapping(Vec<(Metadata, Metadata)>),
    /// A value under a tag, the tag with its `!`.
    Tagged(String, Box<Metadata>),
}

/// A metadata value with its texts and lists as sequences.
pub enum MetadataView {
    Null,
    Bool(bool),
    Number(Seq<char>),
    Text(Seq<char>),
    Sequence(Seq<MetadataView>),
    Mapping(Seq<(MetadataView, MetadataView)>),
    Tagged(Seq<char>, Box<MetadataView>),
}

impl View for Metadata {
    type V = MetadataView;

    open spec fn view(&self) -> MetadataView
        decreases self,
    {
        match self {
            Metadata::Null => MetadataView::Null,
            Metadata::Bool(b) => MetadataView::Bool(*b),
            Metadata::Number(text) => MetadataView::Number(text@),
            Metadata::Text(text) => MetadataView::Text(text@),
            Metadata::Sequence(items) => MetadataView::Sequence(
                Seq::new(
                    items@.len(),
                    |i: int|
                        if 0 <= i < items@.len() {
                            items@[i]@
                        } else {
                            MetadataView::Null
                        },
                ),
            ),
            Metadata::Mapping(entries) => MetadataView::Mapping(
                Seq::new(
                    entries@.len(),
                    |i: int|
                        if 0 <= i < entries@.len() {
                            entries@[i].0@
                        } else {
                            MetadataView::Null
                        },
                ).zip_with(
                    Seq::new(
                        entries@.len(),
                        |i: int|
                            if 0 <= i < entries@.len() {
                                entries@[i].1@
                            } else {
                                MetadataView::Null
                            },
                    ),
                ),
            ),
            Metadata::Tagged(tag, value) => MetadataView::Tagged(tag@, Box::new((**value)@)),
        }
    }
}

/// The view of a mapping has the views of its entries, in their order.
pub proof fn lemma_mapping_view(entries: Vec<(Metadata, Metadata)>)
    ensures
        Metadata::Mapping(entries)@ is Mapping,
        Metadata::Mapping(entries)@->Mapping_0.len() == entries@.len(),
        forall|i: int|
            0 <= i < entries@.len() ==> #[trigger] Metadata::Mapping(entries)@->Mapping_0[i] == (
                entries@[i].0@,
                entries@[i].1@,
            ),
{
}

/// The view of a sequence has the views of its items, in their order.
pub proof fn lemma_sequence_view(items: Vec<Metadata>)
    ensures
        Metadata::Sequence(items)@ is Sequence,
        Metadata::Sequence(items)@->Sequence_0.len() == items@.len(),
        forall|i: int|
            0 <= i < items@.len() ==> #[trigger] Metadata::Sequence(items)@->Sequence_0[i]
                == items@[i]@,
{
}

/// The value of the structured-data document that `text` is, or `None`
/// where `text` is not one well-formed document.
pub uninterp spec fn yaml_tree(text: Seq<char>) -> Option<MetadataView>;

/// What a document of the parser holds, as a metadata value.
pub uninterp spec fn value_tree(value: serde_yaml::Value) -> MetadataView;

/// `serde_yaml::from_str`, read as a `serde_yaml::Value`. The call succeeds
/// exactly on the texts that `yaml_tree` knows, and what the document holds
/// is then that tree.
#[verifier::external_body]
fn parse_value(text: &str) -> (parsed: Result<serde_yaml::Value, serde_yaml::Error>)
    ensures
        parsed is Ok <==> yaml_tree(text@) is Some,
        parsed is Ok ==> Some(value_tree(parsed->Ok_0)) == yaml_tree(text@),
{
    serde_yaml::from_str(text)
}

/// A `serde_yaml::Value` as a metadata value, variant for variant: a number
/// by its `Display` text, a tag by its `Display` text, the items of a
/// sequence and the entries of a mapping in their order.
#[verifier::external_body]
fn tree_of(value: serde_yaml::Value) -> (tree: Metadata)
    ensures
        tree@ == value_tree(value),
{
    match value {
        serde_yaml::Value::Null => Metadata::Null,
        serde_yaml::Value::Bool(b) => Metadata::Bool(b),
        serde_yaml::Value::Number(n) => Metadata::Number(n.to_string()),
        serde_yaml::Value::String(s) => Metadata::Text(s),
        serde_yaml::Value::Sequence(v) => Metadata::Sequence(v.into_iter().map(tree_of).collect()),
        serde_yaml::Value::Mapping(m) => Metadata::Mapping(
            m.into_iter().map(|(k, v)| (tree_of(k), tree_of(v))).collect(),
        ),
        serde_yaml::Value::Tagged(t) => Metadata::Tagged(t.tag.to_string(), Box::new(tree_of(t.value))),
    }
}

/// The `Display` text of a `serde_yaml::Error`.
#[verifier::external_body]
fn yaml_error_text(error: &serde_yaml::Error) -> String {
    error.to_string()
}

/// The mapping without entries.
pub open spec fn no_entries() -> MetadataView {
    MetadataView::Mapping(Seq::empty())
}

/// The position of the first entry whose key is the text `key`, or the
/// number of entries where no entry has that key.
pub open spec fn field_at(entries: Seq<(MetadataView, MetadataView)>, key: Seq<char>) -> int
    decreases entries.len(),
{
    if entries.len() == 0 || entries[0].0 == MetadataView::Text(key) {
        0
    } else {
        1 + field_at(entries.skip(1), key)
    }
}

/// What a value holds under the text `key`: the value of the first entry
/// with that key, where the value is a mapping and has such an entry.
pub open spec fn field(value: MetadataView, key: Seq<char>) -> Option<MetadataView> {
    match value {
        MetadataView::Mapping(entries) => {
            let at = field_at(entries, key);
            if 0 <= at < entries.len() {
                Some(entries[at].1)
            } else {
                None
            }
        },
        _ => None,
    }
}

/// `field_at` is the position before which no entry has the key and at
/// which one has it.
pub proof fn lemma_field_at(entries: Seq<(MetadataView, MetadataView)>, key: Seq<char>, k: int)
    requires
        0 <= k <= entries.len(),
        forall|j: int| 0 <= j < k ==> (#[trigger] entries[j]).0 != MetadataView::Text(key),
        k < entries.len() ==> entries[k].0 == MetadataView::Text(key),
    ensures
        field_at(entries, key) == k,
    decreases k,
{
    if k > 0 {
        assert(entries[0].0 != MetadataView::Text(key));
        assert forall|j: int| 0 <= j < k - 1 implies (#[trigger] entries.skip(1)[j]).0
            != MetadataView::Text(key) by {
            assert(entries.skip(1)[j] == entries[j + 1]);
        }
        lemma_field_at(entries.skip(1), key, k - 1);
    }
}

impl Metadata {
    /// Reads `text` as one structured-data document.
    pub fn parse(text: &str) -> (parsed: Result<Metadata, BuildError>)
        ensures
            parsed is Ok <==> yaml_tree(text@) is Some,
            parsed is Ok ==> Some(parsed->Ok_0@) == yaml_tree(text@),
            parsed is Err ==> parsed->Err_0 is MalformedMetadata,
    {
        match parse_value(text) {
            Ok(value) => Ok(tree_of(value)),
            Err(error) => Err(BuildError::MalformedMetadata(yaml_error_text(&error))),
        }
    }

    /// The mapping without entries.
    pub fn empty_mapping() -> (metadata: Metadata)
        ensures
            metadata@ == no_entries(),
    {
        let metadata = Metadata::Mapping(Vec::new());
        assert(metadata@->Mapping_0 =~= Seq::empty());
        metadata
    }

    /// What this value holds under the text `key`.
    pub fn get(&self, key: &str) -> (found: Option<&Metadata>)
        ensures
            found is Some <==> field(self@, key@) is Some,
            found is Some ==> Some(found->Some_0@) == field(self@, key@),
    {
        let entries = match self {
            Metadata::Mapping(entries) => entries,
            _ => {
                return None;
            },
        };
        let wanted = chars_of(key);
        let ghost views = self@->Mapping_0;
        let mut i: usize = 0;
        while i < entries.len()
            invariant
                i <= entries.len(),
                wanted@ == key@,
                self@ == MetadataView::Mapping(views),
                views.len() == entries@.len(),
                forall|j: int|
                    0 <= j < entries@.len() ==> #[trigger] views[j] == (
                        entries@[j].0@,
                        entries@[j].1@,
                    ),
                forall|j: int| 0 <= j < i ==> (#[trigger] views[j]).0 != MetadataView::Text(key@),
            decreases entries.len() - i,
        {
            let here = match &entries[i].0 {
                Metadata::Text(text) => same_chars(&chars_of(text.as_str()), &wanted),
                _ => false,
            };
            assert(here == (views[i as int].0 == MetadataView::Text(key@)));
            if here {
                proof {
                    lemma_field_at(views, key@, i as int);
                }
                return Some(&entries[i].1);
            }
            i += 1;
        }
        proof {
            lemma_field_at(views, key@, views.len() as int);
        }
        None
    }
}

/// The metadata of a file that is structured data from its first character
/// to its last.
pub open spec fn full_tree(content: Seq<char>) -> Option<MetadataView> {
    yaml_tree(content)
}

/// The metadata of a text file: the value of its front matter, or the
/// mapping without entries where it has no front matter.
pub open spec fn preamble_tree(content: Seq<char>) -> Option<MetadataView> {
    match front_matter(content) {
        Some(block) => yaml_tree(block),
        None => Some(no_entries()),
    }
}

/// The text behind the front matter never changes the metadata of a file:
/// a text that has front matter and ends in a line feed has the same metadata
/// whatever is put behind it.
pub proof fn lemma_preamble_ignores_body(head: Seq<char>, rest: Seq<char>)
    requires
        head.len() > 0,
        head.last() == '\n',
        front_matter(head) is Some,
    ensures
        preamble_tree(head + rest) == preamble_tree(head),
{
    lemma_front_matter_ignores_body(head, rest);
}

/// The metadata of a file that is structured data as a whole.
pub fn read_metadata_full(content: &str) -> (read: Result<Metadata, BuildError>)
    ensures
        read is Ok <==> full_tree(content@) is Some,
        read is Ok ==> Some(read->Ok_0@) == full_tree(content@),
        read is Err ==> read->Err_0 is MalformedMetadata,
{
    Metadata::parse(content)
}

/// The metadata of a text file: what its front matter says, or the mapping
/// without entries where it has none.
pub fn read_metadata_preamble(content: &str) -> (read: Result<Metadata, BuildError>)
    ensures
        read is Ok <==> preamble_tree(content@) is Some,
        read is Ok ==> Some(read->Ok_0@) == preamble_tree(content@),
        read is Err ==> read->Err_0 is MalformedMetadata,
{
    match extract_front_matter(content) {
        Some(block) => Metadata::parse(block.as_str()),
        None => Ok(Metadata::empty_mapping()),
    }
}

} // verus!
