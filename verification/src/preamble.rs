//! Front matter: the block of structured data at the start of a text file,
//! between two lines that hold the separator and nothing else.

use vstd::prelude::*;
use crate::text::{
    chars_of, chomp, first_index, lemma_first_index, lemma_first_index_at, lines, lines_of, rows,
    same_chars, string_of,
};

verus! {

/// The line that opens and closes front matter.
pub open spec fn separator() -> Seq<char> {
    "---"@
}

/// How many empty lines stand at the start of `ls`.
pub open spec fn leading_blank(ls: Seq<Seq<char>>) -> int
    decreases ls.len(),
{
    if ls.len() > 0 && ls[0].len() == 0 {
        1 + leading_blank(ls.skip(1))
    } else {
        0
    }
}

/// The position of the first line of `ls` equal to `line`, or the length of
/// `ls` where no line is.
pub open spec fn first_line(ls: Seq<Seq<char>>, line: Seq<char>) -> int
    decreases ls.len(),
{
    if ls.len() == 0 || ls[0] == line {
        0
    } else {
        1 + first_line(ls.skip(1), line)
    }
}

/// The lines of `ls` in order, each followed by a line feed.
pub open spec fn joined(ls: Seq<Seq<char>>) -> Seq<char>
    decreases ls.len(),
{
    if ls.len() == 0 {
        Seq::empty()
    } else {
        joined(ls.drop_last()) + ls.last() + seq!['\n']
    }
}

/// The front matter of a text, if it has one. Empty lines at the start are
/// passed over. The first line that is not empty must be the separator; the
/// front matter is then every line up to the next separator line, each
/// followed by a line feed. A text whose first line that is not empty is
/// something else, or which never closes the block, has none.
pub open spec fn front_matter(text: Seq<char>) -> Option<Seq<char>> {
    let ls = lines(text);
    let open = leading_blank(ls);
    if 0 <= open < ls.len() && ls[open] == separator() {
        let body = ls.skip(open + 1);
        let close = first_line(body, separator());
        if 0 <= close < body.len() {
            Some(joined(body.take(close)))
        } else {
            None
        }
    } else {
        None
    }
}

/// `leading_blank` is the position of the first line that is not empty.
pub proof fn lemma_leading_blank(ls: Seq<Seq<char>>, k: int)
    requires
        0 <= k <= ls.len(),
        forall|j: int| 0 <= j < k ==> (#[trigger] ls[j]).len() == 0,
        k < ls.len() ==> ls[k].len() > 0,
    ensures
        leading_blank(ls) == k,
    decreases k,
{
    if k > 0 {
        assert(ls[0].len() == 0);
        assert forall|j: int| 0 <= j < k - 1 implies (#[trigger] ls.skip(1)[j]).len() == 0 by {
            assert(ls.skip(1)[j] == ls[j + 1]);
        }
        lemma_leading_blank(ls.skip(1), k - 1);
    }
}

/// `first_line` is the position before which no line equals `line` and at
/// which one does.
pub proof fn lemma_first_line(ls: Seq<Seq<char>>, line: Seq<char>, k: int)
    requires
        0 <= k <= ls.len(),
        forall|j: int| 0 <= j < k ==> #[trigger] ls[j] != line,
        k < ls.len() ==> ls[k] == line,
    ensures
        first_line(ls, line) == k,
    decreases k,
{
    if k > 0 {
        assert(ls[0] != line);
        assert forall|j: int| 0 <= j < k - 1 implies #[trigger] ls.skip(1)[j] != line by {
            assert(ls.skip(1)[j] == ls[j + 1]);
        }
        lemma_first_line(ls.skip(1), line, k - 1);
    }
}

/// A text whose lines are empty up to a separator line, with a second
/// separator line further down and none between the two, has the lines
/// between the two as its front matter.
pub proof fn lemma_front_matter_found(text: Seq<char>, open: int, close: int)
    requires
        0 <= open < close < lines(text).len(),
        forall|j: int| 0 <= j < open ==> (#[trigger] lines(text)[j]).len() == 0,
        lines(text)[open] == separator(),
        lines(text)[close] == separator(),
        forall|j: int| open < j < close ==> #[trigger] lines(text)[j] != separator(),
    ensures
        front_matter(text) == Some(joined(lines(text).subrange(open + 1, close))),
{
    let ls = lines(text);
    reveal_strlit("---");
    lemma_leading_blank(ls, open);
    let body = ls.skip(open + 1);
    assert forall|j: int| 0 <= j < close - open - 1 implies #[trigger] body[j] != separator() by {
        assert(body[j] == ls[j + open + 1]);
    }
    lemma_first_line(body, separator(), close - open - 1);
    assert(body.take(close - open - 1) =~= ls.subrange(open + 1, close));
}

/// A text whose first line that is not empty is not the separator, or
/// which has only empty lines, has no front matter.
pub proof fn lemma_front_matter_absent(text: Seq<char>, k: int)
    requires
        0 <= k <= lines(text).len(),
        forall|j: int| 0 <= j < k ==> (#[trigger] lines(text)[j]).len() == 0,
        k < lines(text).len() ==> lines(text)[k].len() > 0 && lines(text)[k] != separator(),
    ensures
        front_matter(text) is None,
{
    lemma_leading_blank(lines(text), k);
}

/// A text whose only separator line is the one that opens the block has no
/// front matter.
pub proof fn lemma_front_matter_unclosed(text: Seq<char>, open: int)
    requires
        0 <= open < lines(text).len(),
        forall|j: int| 0 <= j < open ==> (#[trigger] lines(text)[j]).len() == 0,
        lines(text)[open] == separator(),
        forall|j: int| open < j < lines(text).len() ==> #[trigger] lines(text)[j] != separator(),
    ensures
        front_matter(text) is None,
{
    let ls = lines(text);
    reveal_strlit("---");
    lemma_leading_blank(ls, open);
    let body = ls.skip(open + 1);
    assert forall|j: int| 0 <= j < body.len() implies #[trigger] body[j] != separator() by {
        assert(body[j] == ls[j + open + 1]);
    }
    lemma_first_line(body, separator(), body.len() as int);
}

/// `leading_blank` lies within the lines, every line before it is empty,
/// and the line at it is not.
pub proof fn lemma_leading_blank_found(ls: Seq<Seq<char>>)
    ensures
        0 <= leading_blank(ls) <= ls.len(),
        forall|j: int| 0 <= j < leading_blank(ls) ==> (#[trigger] ls[j]).len() == 0,
        leading_blank(ls) < ls.len() ==> ls[leading_blank(ls)].len() > 0,
    decreases ls.len(),
{
    if ls.len() > 0 && ls[0].len() == 0 {
        lemma_leading_blank_found(ls.skip(1));
        assert forall|j: int| 0 <= j < leading_blank(ls) implies (#[trigger] ls[j]).len() == 0 by {
            if j > 0 {
                assert(ls.skip(1)[j - 1] == ls[j]);
            }
        }
    }
}

/// `first_line` lies within the lines, no line before it equals `line`, and
/// the line at it does.
pub proof fn lemma_first_line_found(ls: Seq<Seq<char>>, line: Seq<char>)
    ensures
        0 <= first_line(ls, line) <= ls.len(),
        forall|j: int| 0 <= j < first_line(ls, line) ==> #[trigger] ls[j] != line,
        first_line(ls, line) < ls.len() ==> ls[first_line(ls, line)] == line,
    decreases ls.len(),
{
    if ls.len() == 0 || ls[0] == line {
    } else {
        lemma_first_line_found(ls.skip(1), line);
        assert forall|j: int| 0 <= j < first_line(ls, line) implies #[trigger] ls[j] != line by {
            if j > 0 {
                assert(ls.skip(1)[j - 1] == ls[j]);
            }
        }
    }
}

/// The lines of a text that ends in a line feed, followed by more text, are
/// the lines of the one and then the lines of the other.
pub proof fn lemma_lines_of_both(head: Seq<char>, rest: Seq<char>)
    requires
        head.len() == 0 || head.last() == '\n',
    ensures
        lines(head + rest) == lines(head) + lines(rest),
    decreases head.len(),
{
    let whole = head + rest;
    if head.len() == 0 {
        assert(whole =~= rest);
        assert(lines(head) + lines(rest) =~= lines(rest));
    } else {
        lemma_first_index(head, '\n');
        let k = first_index(head, '\n');
        assert(k < head.len()) by {
            if k == head.len() {
                assert(head[head.len() - 1] != '\n');
            }
        }
        lemma_first_index_at(whole, '\n', k);
        let after = head.skip(k + 1);
        assert(whole.take(k) =~= head.take(k));
        assert(whole.skip(k + 1) =~= after + rest);
        if after.len() > 0 {
            assert(after.last() == head.last());
        }
        lemma_lines_of_both(after, rest);
        assert(lines(whole) == seq![chomp(whole.take(k))] + lines(whole.skip(k + 1)));
        assert(lines(head) == seq![chomp(head.take(k))] + lines(after));
        assert(seq![chomp(head.take(k))] + (lines(after) + lines(rest)) =~= (seq![
            chomp(head.take(k)),
        ] + lines(after)) + lines(rest));
    }
}

/// What follows the front matter is not part of it: a text that has front
/// matter and ends in a line feed has the same front matter whatever text is
/// put behind it.
pub proof fn lemma_front_matter_ignores_body(head: Seq<char>, rest: Seq<char>)
    requires
        head.len() > 0,
        head.last() == '\n',
        front_matter(head) is Some,
    ensures
        front_matter(head + rest) == front_matter(head),
{
    lemma_lines_of_both(head, rest);
    let short = lines(head);
    let long = lines(head + rest);
    let open = leading_blank(short);
    lemma_leading_blank_found(short);
    assert forall|j: int| 0 <= j <= open implies #[trigger] long[j] == short[j] by {}
    lemma_leading_blank(long, open);
    let body = short.skip(open + 1);
    let longer = long.skip(open + 1);
    let close = first_line(body, separator());
    lemma_first_line_found(body, separator());
    assert(longer =~= body + lines(rest));
    assert forall|j: int| 0 <= j <= close implies #[trigger] longer[j] == body[j] by {}
    lemma_first_line(longer, separator(), close);
    assert(longer.take(close) =~= body.take(close));
}

/// Extracts the front matter of `content`.
pub fn extract_front_matter(content: &str) -> (block: Option<String>)
    ensures
        block is Some <==> front_matter(content@) is Some,
        block is Some ==> block->Some_0@ == front_matter(content@)->Some_0,
{
    let chars = chars_of(content);
    let found = lines_of(&chars);
    let mark = chars_of("---");
    let ghost ls = lines(content@);
    let mut open: usize = 0;
    while open < found.len() && found[open].len() == 0
        invariant
            open <= found.len(),
            rows(found@) == ls,
            forall|j: int| 0 <= j < open ==> (#[trigger] ls[j]).len() == 0,
        decreases found.len() - open,
    {
        assert(ls[open as int] == found@[open as int]@);
        open += 1;
    }
    proof {
        if open < found.len() {
            assert(ls[open as int] == found@[open as int]@);
        }
        lemma_leading_blank(ls, open as int);
    }
    if open >= found.len() || !same_chars(&found[open], &mark) {
        return None;
    }
    let ghost body = ls.skip(open + 1);
    let mut block: Vec<char> = Vec::new();
    let mut at: usize = open + 1;
    assert(body.take(0) =~= Seq::<Seq<char>>::empty());
    while at < found.len()
        invariant
            open < at <= found.len(),
            rows(found@) == ls,
            ls == lines(content@),
            leading_blank(ls) == open,
            ls[open as int] == separator(),
            body == ls.skip(open + 1),
            mark@ == separator(),
            forall|j: int| 0 <= j < at - open - 1 ==> #[trigger] body[j] != separator(),
            block@ == joined(body.take(at - open - 1)),
        decreases found.len() - at,
    {
        assert(ls[at as int] == found@[at as int]@);
        assert(body[at - open - 1] == ls[at as int]);
        if same_chars(&found[at], &mark) {
            proof {
                lemma_first_line(body, separator(), at - open - 1);
            }
            return Some(string_of(&block));
        }
        let line = &found[at];
        let ghost before = block@;
        let mut i: usize = 0;
        while i < line.len()
            invariant
                i <= line.len(),
                block@ == before + line@.take(i as int),
            decreases line.len() - i,
        {
            block.push(line[i]);
            assert(block@ =~= before + line@.take(i + 1));
            i += 1;
        }
        block.push('\n');
        proof {
            let upto = body.take(at - open);
            assert(upto.drop_last() =~= body.take(at - open - 1));
            assert(upto.last() == line@);
            assert(line@.take(line@.len() as int) =~= line@);
            assert(block@ =~= joined(upto));
        }
        at += 1;
    }
    proof {
        lemma_first_line(body, separator(), body.len() as int);
    }
    None
}

} // verus!
