//! The path classifier: which paths of the source tree are read for metadata,
//! which are published, what kind of file a path names, and where its
//! artifact goes in the output tree.
//!
//! A path is text whose pieces are separated by `/`. A piece that is empty,
//! `.` or `..` names nothing; every other piece is the name of a directory or
//! of a file, and the rules below are about names only.

use vstd::prelude::*;
use crate::text::{
    append_chars, first_index, lemma_first_index, lemma_first_index_at, chars_of, ends_with, has_prefix, has_suffix, last_index, rows, same_chars, slice_of,
    split, split_chars, starts_with, string_of,
};

verus! {

/// The name of the output tree's directory.
pub open spec fn output_dir() -> Seq<char> {
    "www"@
}

/// Whether a piece of a path is a name.
pub open spec fn is_name(piece: Seq<char>) -> bool {
    piece.len() > 0 && piece != seq!['.'] && piece != seq!['.', '.']
}

/// A name is hidden when it begins with `.`, and so is the output tree.
pub open spec fn piece_visible(piece: Seq<char>) -> bool {
    is_name(piece) ==> piece != output_dir() && piece[0] != '.'
}

/// A name is private when it begins with `_`; the output tree is never published.
pub open spec fn piece_public(piece: Seq<char>) -> bool {
    is_name(piece) ==> piece != output_dir() && piece[0] != '_'
}

/// A path is visible when every piece of it is: the path's own name and the
/// name of each directory above it.
pub open spec fn visible(path: Seq<char>) -> bool {
    forall|i: int| 0 <= i < split(path, '/').len() ==> piece_visible(#[trigger] split(path, '/')[i])
}

/// A path is public when every piece of it is.
pub open spec fn public(path: Seq<char>) -> bool {
    forall|i: int| 0 <= i < split(path, '/').len() ==> piece_public(#[trigger] split(path, '/')[i])
}

fn piece_is_name(piece: &Vec<char>) -> (named: bool)
    ensures
        named == is_name(piece@),
{
    let n = piece.len();
    if n == 0 {
        false
    } else if n == 1 && piece[0] == '.' {
        assert(piece@ =~= seq!['.']);
        false
    } else if n == 2 && piece[0] == '.' && piece[1] == '.' {
        assert(piece@ =~= seq!['.', '.']);
        false
    } else {
        assert(piece@ != seq!['.']) by {
            if piece@ == seq!['.'] {
                assert(piece@.len() == 1 && piece@[0] == '.');
            }
        }
        assert(piece@ != seq!['.', '.']) by {
            if piece@ == seq!['.', '.'] {
                assert(piece@.len() == 2 && piece@[0] == '.' && piece@[1] == '.');
            }
        }
        true
    }
}

fn piece_is_visible(piece: &Vec<char>) -> (seen: bool)
    ensures
        seen == piece_visible(piece@),
{
    if !piece_is_name(piece) {
        return true;
    }
    let reserved = chars_of("www");
    !same_chars(piece, &reserved) && piece[0] != '.'
}

fn piece_is_public(piece: &Vec<char>) -> (open: bool)
    ensures
        open == piece_public(piece@),
{
    if !piece_is_name(piece) {
        return true;
    }
    let reserved = chars_of("www");
    !same_chars(piece, &reserved) && piece[0] != '_'
}

/// Tells whether `path` is visible: whether the metadata pass reads it.
pub fn is_visible(path: &str) -> (seen: bool)
    ensures
        seen == visible(path@),
{
    let chars = chars_of(path);
    let pieces = split_chars(&chars, '/');
    let mut i: usize = 0;
    while i < pieces.len()
        invariant
            i <= pieces.len(),
            rows(pieces@) == split(path@, '/'),
            forall|j: int| 0 <= j < i ==> piece_visible(#[trigger] split(path@, '/')[j]),
        decreases pieces.len() - i,
    {
        assert(rows(pieces@)[i as int] == pieces@[i as int]@);
        if !piece_is_visible(&pieces[i]) {
            return false;
        }
        i += 1;
    }
    true
}

/// Tells whether `path` is public: whether the publish pass may render it.
pub fn is_public(path: &str) -> (open: bool)
    ensures
        open == public(path@),
{
    let chars = chars_of(path);
    let pieces = split_chars(&chars, '/');
    let mut i: usize = 0;
    while i < pieces.len()
        invariant
            i <= pieces.len(),
            rows(pieces@) == split(path@, '/'),
            forall|j: int| 0 <= j < i ==> piece_public(#[trigger] split(path@, '/')[j]),
        decreases pieces.len() - i,
    {
        assert(rows(pieces@)[i as int] == pieces@[i as int]@);
        if !piece_is_public(&pieces[i]) {
            return false;
        }
        i += 1;
    }
    true
}

/// The last piece of a path: what stands behind its last separator.
pub open spec fn leaf(path: Seq<char>) -> Seq<char> {
    split(path, '/').last()
}

/// The extension of the file that a path names: what stands behind the last
/// `.` of its last piece. A piece that is no name has none, nor has a name
/// without a `.`, nor one whose only `.` is its first character.
pub open spec fn extension(path: Seq<char>) -> Option<Seq<char>> {
    let name = leaf(path);
    let dot = last_index(name, '.');
    if is_name(name) && dot > 0 {
        Some(name.skip(dot + 1))
    } else {
        None
    }
}

/// A path without the `./` that it may begin with.
pub open spec fn relative(path: Seq<char>) -> Seq<char> {
    if has_prefix(path, "./"@) {
        path.skip(2)
    } else {
        path
    }
}

/// Where the artifact of a source path goes when it keeps its name: at the
/// same place under the output tree.
pub open spec fn mirrored(path: Seq<char>) -> Seq<char> {
    "www/"@ + relative(path)
}

/// A path without the `.md` that it may end with.
pub open spec fn stem(path: Seq<char>) -> Seq<char> {
    if has_suffix(path, ".md"@) {
        path.take(path.len() - 3)
    } else {
        path
    }
}

/// Where the page made from a markdown source goes: at the same place
/// under the output tree, with `.html` in place of `.md`.
pub open spec fn page_target(path: Seq<char>) -> Seq<char> {
    "www/"@ + stem(relative(path)) + ".html"@
}

/// Where the converter's fragment for a markdown source is kept until the
/// page is composed.
pub open spec fn fragment_target(path: Seq<char>) -> Seq<char> {
    page_target(path) + ".partial"@
}

fn last_index_of(s: &Vec<char>, c: char) -> (at: Option<usize>)
    ensures
        at is None <==> last_index(s@, c) == -1,
        at is Some ==> at->Some_0 == last_index(s@, c),
        -1 <= last_index(s@, c) < s@.len(),
{
    let mut n: usize = s.len();
    assert(s@.take(n as int) =~= s@);
    while n > 0
        invariant
            n <= s.len(),
            last_index(s@, c) == last_index(s@.take(n as int), c),
        decreases n,
    {
        if s[n - 1] == c {
            return Some(n - 1);
        }
        assert(s@.take(n as int).drop_last() =~= s@.take(n - 1));
        n -= 1;
    }
    None
}

fn extension_chars(path: &Vec<char>) -> (found: Option<Vec<char>>)
    ensures
        found is Some <==> extension(path@) is Some,
        found is Some ==> found->Some_0@ == extension(path@)->Some_0,
{
    let pieces = split_chars(path, '/');
    let name = &pieces[pieces.len() - 1];
    assert(rows(pieces@).last() == name@);
    if !piece_is_name(name) {
        return None;
    }
    match last_index_of(name, '.') {
        Some(dot) => {
            if dot > 0 {
                let tail = slice_of(name, dot + 1, name.len());
                assert(name@.subrange(dot + 1, name@.len() as int) =~= name@.skip(dot + 1));
                Some(tail)
            } else {
                None
            }
        },
        None => None,
    }
}

/// Tells whether the file that `path` names has the extension `wanted`.
pub fn has_extension(path: &str, wanted: &str) -> (has: bool)
    ensures
        has == (extension(path@) == Some(wanted@)),
{
    let chars = chars_of(path);
    match extension_chars(&chars) {
        Some(found) => {
            let wanted_chars = chars_of(wanted);
            same_chars(&found, &wanted_chars)
        },
        None => false,
    }
}

fn relative_chars(path: &Vec<char>) -> (rest: Vec<char>)
    ensures
        rest@ == relative(path@),
{
    let marker = chars_of("./");
    proof {
        reveal_strlit("./");
    }
    if starts_with(path, &marker) {
        let rest = slice_of(path, 2, path.len());
        assert(path@.subrange(2, path@.len() as int) =~= path@.skip(2));
        rest
    } else {
        let rest = slice_of(path, 0, path.len());
        assert(path@.subrange(0, path@.len() as int) =~= path@);
        rest
    }
}

/// `path` without the `./` that it may begin with: the form in which a path
/// is a key of the metadata store and the name of a template.
pub fn relative_path(path: &str) -> (rest: String)
    ensures
        rest@ == relative(path@),
{
    let chars = chars_of(path);
    string_of(&relative_chars(&chars))
}

/// The place of the artifact of `path` under the output tree, for a file
/// that keeps its name.
pub fn mirror(path: &str) -> (target: String)
    ensures
        target@ == mirrored(path@),
{
    let chars = chars_of(path);
    let mut target = chars_of("www/");
    append_chars(&mut target, &relative_chars(&chars));
    string_of(&target)
}

/// The place under the output tree of the page made from the markdown
/// source `path`.
pub fn page_path(path: &str) -> (target: String)
    ensures
        target@ == page_target(path@),
{
    let chars = chars_of(path);
    let rest = relative_chars(&chars);
    let suffix = chars_of(".md");
    proof {
        reveal_strlit(".md");
    }
    let kept = if ends_with(&rest, &suffix) {
        let kept = slice_of(&rest, 0, rest.len() - 3);
        assert(rest@.subrange(0, rest@.len() - 3) =~= rest@.take(rest@.len() - 3));
        kept
    } else {
        rest
    };
    let mut target = chars_of("www/");
    append_chars(&mut target, &kept);
    append_chars(&mut target, &chars_of(".html"));
    string_of(&target)
}

/// The place where the converter's fragment for the markdown source `path`
/// is kept until the page is composed.
pub fn fragment_path(path: &str) -> (target: String)
    ensures
        target@ == fragment_target(path@),
{
    let mut target = chars_of(page_path(path).as_str());
    append_chars(&mut target, &chars_of(".partial"));
    string_of(&target)
}

/// A path with one more name behind it has the pieces of the path, then that
/// name.
pub proof fn lemma_split_child(parent: Seq<char>, name: Seq<char>)
    requires
        forall|j: int| 0 <= j < name.len() ==> name[j] != '/',
    ensures
        split(parent + seq!['/'] + name, '/') == split(parent, '/').push(name),
    decreases parent.len(),
{
    let whole = parent + seq!['/'] + name;
    let k = first_index(parent, '/');
    lemma_first_index(parent, '/');
    lemma_first_index_at(name, '/', name.len() as int);
    if k < parent.len() {
        lemma_first_index_at(whole, '/', k);
        let rest = parent.skip(k + 1);
        assert(whole.take(k) =~= parent.take(k));
        assert(whole.skip(k + 1) =~= rest + seq!['/'] + name);
        lemma_split_child(rest, name);
        assert(split(whole, '/') == seq![whole.take(k)] + split(whole.skip(k + 1), '/'));
        assert(split(parent, '/') == seq![parent.take(k)] + split(rest, '/'));
        assert(seq![parent.take(k)] + split(rest, '/').push(name) =~= (seq![parent.take(k)] + split(
            rest,
            '/',
        )).push(name));
    } else {
        lemma_first_index_at(whole, '/', parent.len() as int);
        assert(whole.take(parent.len() as int) =~= parent);
        assert(whole.skip(parent.len() as int + 1) =~= name);
        assert(split(name, '/') == seq![name]);
        assert(split(parent, '/') == seq![parent]);
        assert(split(whole, '/') == seq![whole.take(parent.len() as int)] + split(
            whole.skip(parent.len() as int + 1),
            '/',
        ));
        assert(seq![parent] + seq![name] =~= seq![parent].push(name));
    }
}

/// The rule is applied to every name on the way down: a path one level below
/// a directory is visible exactly if the directory is and its own name is.
pub proof fn lemma_visible_child(parent: Seq<char>, name: Seq<char>)
    requires
        forall|j: int| 0 <= j < name.len() ==> name[j] != '/',
    ensures
        visible(parent + seq!['/'] + name) == (visible(parent) && piece_visible(name)),
{
    lemma_split_child(parent, name);
    let above = split(parent, '/');
    let all = split(parent + seq!['/'] + name, '/');
    if visible(parent) && piece_visible(name) {
        assert forall|i: int| 0 <= i < all.len() implies piece_visible(#[trigger] all[i]) by {
            if i < above.len() {
                assert(all[i] == above[i]);
            }
        }
    }
    if visible(parent + seq!['/'] + name) {
        assert(all[above.len() as int] == name);
        assert forall|i: int| 0 <= i < above.len() implies piece_visible(#[trigger] above[i]) by {
            assert(all[i] == above[i]);
        }
    }
}

/// The same for publication: a path one level below a directory is public
/// exactly if the directory is and its own name is.
pub proof fn lemma_public_child(parent: Seq<char>, name: Seq<char>)
    requires
        forall|j: int| 0 <= j < name.len() ==> name[j] != '/',
    ensures
        public(parent + seq!['/'] + name) == (public(parent) && piece_public(name)),
{
    lemma_split_child(parent, name);
    let above = split(parent, '/');
    let all = split(parent + seq!['/'] + name, '/');
    if public(parent) && piece_public(name) {
        assert forall|i: int| 0 <= i < all.len() implies piece_public(#[trigger] all[i]) by {
            if i < above.len() {
                assert(all[i] == above[i]);
            }
        }
    }
    if public(parent + seq!['/'] + name) {
        assert(all[above.len() as int] == name);
        assert forall|i: int| 0 <= i < above.len() implies piece_public(#[trigger] above[i]) by {
            assert(all[i] == above[i]);
        }
    }
}

/// Nothing under the output tree is visible or public, so the build never
/// takes what it wrote for a source.
pub proof fn lemma_output_tree_excluded(rest: Seq<char>)
    ensures
        !visible("www/"@ + rest),
        !public("www/"@ + rest),
{
    reveal_strlit("www/");
    reveal_strlit("www");
    let whole = "www/"@ + rest;
    lemma_first_index_at(whole, '/', 3);
    assert(whole.take(3) =~= "www"@);
    let pieces = split(whole, '/');
    assert(pieces[0] == "www"@);
    assert(is_name(pieces[0])) by {
        assert(pieces[0].len() == 3);
    }
    assert(!piece_visible(pieces[0]));
    assert(!piece_public(pieces[0]));
}

/// Every place that the build writes to lies under the output tree: the
/// artifact of a file that keeps its name, the page made from a markdown
/// source, and the fragment kept for it. None of them is visible or public.
pub proof fn lemma_targets_excluded(path: Seq<char>)
    ensures
        !visible(mirrored(path)) && !public(mirrored(path)),
        !visible(page_target(path)) && !public(page_target(path)),
        !visible(fragment_target(path)) && !public(fragment_target(path)),
{
    lemma_output_tree_excluded(relative(path));
    lemma_output_tree_excluded(stem(relative(path)) + ".html"@);
    lemma_output_tree_excluded(stem(relative(path)) + ".html"@ + ".partial"@);
    assert("www/"@ + (stem(relative(path)) + ".html"@) =~= page_target(path));
    assert("www/"@ + (stem(relative(path)) + ".html"@ + ".partial"@) =~= fragment_target(path));
}

} // verus!
