//! Text as sequences of characters: splitting at a separator, lines, prefixes.

use vstd::prelude::*;

verus! {

/// `String::push` puts the character at the end of the string.
pub assume_specification[ String::push ](s: &mut String, c: char)
    ensures
        final(s)@ == old(s)@.push(c),
;

/// The characters of `s`, in order.
pub fn chars_of(s: &str) -> (chars: Vec<char>)
    ensures
        chars@ == s@,
{
    let mut chars: Vec<char> = Vec::new();
    for c in it: s.chars()
        invariant
            it.seq() == s@,
            chars@ == s@.take(it.index() as int),
    {
        chars.push(c);
        assert(s@.take(it.index() + 1) =~= s@.take(it.index() as int).push(c));
    }
    assert(s@.take(s@.len() as int) =~= s@);
    chars
}

/// The string made of `chars`, in order.
pub fn string_of(chars: &Vec<char>) -> (s: String)
    ensures
        s@ == chars@,
{
    let mut s = String::new();
    let mut i: usize = 0;
    while i < chars.len()
        invariant
            i <= chars.len(),
            s@ == chars@.take(i as int),
        decreases chars.len() - i,
    {
        s.push(chars[i]);
        assert(chars@.take(i + 1) =~= chars@.take(i as int).push(chars@[i as int]));
        i += 1;
    }
    assert(chars@.take(chars@.len() as int) =~= chars@);
    s
}

/// The position of the first `c` in `s`, or the length of `s` where it holds none.
pub open spec fn first_index(s: Seq<char>, c: char) -> int
    decreases s.len(),
{
    if s.len() == 0 || s[0] == c {
        0
    } else {
        1 + first_index(s.skip(1), c)
    }
}

/// `first_index` lies within `s`, nothing before it is `c`, and `c` stands at it.
pub proof fn lemma_first_index(s: Seq<char>, c: char)
    ensures
        0 <= first_index(s, c) <= s.len(),
        forall|j: int| 0 <= j < first_index(s, c) ==> s[j] != c,
        first_index(s, c) < s.len() ==> s[first_index(s, c)] == c,
    decreases s.len(),
{
    if s.len() == 0 || s[0] == c {
    } else {
        lemma_first_index(s.skip(1), c);
        assert forall|j: int| 0 <= j < first_index(s, c) implies s[j] != c by {
            if j > 0 {
                assert(s.skip(1)[j - 1] == s[j]);
            }
        }
    }
}

/// A position with no `c` before it, and with `c` at it or at the end of `s`,
/// is `first_index`.
pub proof fn lemma_first_index_at(s: Seq<char>, c: char, k: int)
    requires
        0 <= k <= s.len(),
        forall|j: int| 0 <= j < k ==> s[j] != c,
        k < s.len() ==> s[k] == c,
    ensures
        first_index(s, c) == k,
    decreases k,
{
    if k > 0 {
        assert forall|j: int| 0 <= j < k - 1 implies s.skip(1)[j] != c by {
            assert(s.skip(1)[j] == s[j + 1]);
        }
        lemma_first_index_at(s.skip(1), c, k - 1);
    }
}

/// The pieces of `s` between the occurrences of `sep`: one more piece than
/// there are separators, so a text without any is its own single piece.
pub open spec fn split(s: Seq<char>, sep: char) -> Seq<Seq<char>>
    decreases s.len(),
{
    let k = first_index(s, sep);
    if 0 <= k < s.len() {
        seq![s.take(k)] + split(s.skip(k + 1), sep)
    } else {
        seq![s]
    }
}

/// A line without the carriage return that ended it, if one did.
pub open spec fn chomp(line: Seq<char>) -> Seq<char> {
    if line.len() > 0 && line.last() == '\r' {
        line.drop_last()
    } else {
        line
    }
}

/// The lines of a text. A line ends at a line feed, which is not part of
/// it, nor is a carriage return directly before that line feed. What follows
/// the last line feed is a line of its own unless it is empty.
pub open spec fn lines(text: Seq<char>) -> Seq<Seq<char>>
    decreases text.len(),
{
    let k = first_index(text, '\n');
    if text.len() == 0 {
        Seq::empty()
    } else if 0 <= k < text.len() {
        seq![chomp(text.take(k))] + lines(text.skip(k + 1))
    } else {
        seq![text]
    }
}

/// What each of the vectors holds, in order.
pub open spec fn rows(v: Seq<Vec<char>>) -> Seq<Seq<char>> {
    v.map_values(|r: Vec<char>| r@)
}

/// Splits `s` at every `sep`.
pub fn split_chars(s: &Vec<char>, sep: char) -> (parts: Vec<Vec<char>>)
    ensures
        rows(parts@) == split(s@, sep),
{
    let mut parts: Vec<Vec<char>> = Vec::new();
    let mut current: Vec<char> = Vec::new();
    let ghost mut start: int = 0;
    let mut i: usize = 0;
    assert(s@.skip(0) =~= s@);
    assert(rows(parts@) + split(s@, sep) =~= split(s@, sep));
    while i < s.len()
        invariant
            0 <= start <= i <= s.len(),
            current@ == s@.subrange(start, i as int),
            forall|j: int| start <= j < i ==> s@[j] != sep,
            split(s@, sep) == rows(parts@) + split(s@.skip(start), sep),
        decreases s.len() - i,
    {
        let c = s[i];
        if c == sep {
            proof {
                let rest = s@.skip(start);
                lemma_first_index_at(rest, sep, i - start);
                assert(rest.take(i - start) =~= current@);
                assert(rest.skip(i - start + 1) =~= s@.skip(i + 1));
                assert(rows(parts@.push(current)) =~= rows(parts@).push(current@));
                assert(rows(parts@).push(current@) + split(s@.skip(i + 1), sep) =~= rows(parts@)
                    + (seq![current@] + split(s@.skip(i + 1), sep)));
                start = i + 1;
            }
            parts.push(current);
            current = Vec::new();
            assert(current@ =~= s@.subrange(start, i + 1));
        } else {
            current.push(c);
            assert(current@ =~= s@.subrange(start, i + 1));
        }
        i += 1;
    }
    proof {
        let rest = s@.skip(start);
        lemma_first_index_at(rest, sep, rest.len() as int);
        assert(rest =~= current@);
        assert(rows(parts@.push(current)) =~= rows(parts@).push(current@));
        assert(rows(parts@).push(current@) =~= rows(parts@) + seq![current@]);
    }
    parts.push(current);
    parts
}

/// The lines of `text`.
pub fn lines_of(text: &Vec<char>) -> (found: Vec<Vec<char>>)
    ensures
        rows(found@) == lines(text@),
{
    let mut found: Vec<Vec<char>> = Vec::new();
    let mut current: Vec<char> = Vec::new();
    let ghost mut start: int = 0;
    let mut i: usize = 0;
    assert(text@.skip(0) =~= text@);
    assert(rows(found@) + lines(text@) =~= lines(text@));
    while i < text.len()
        invariant
            0 <= start <= i <= text.len(),
            current@ == text@.subrange(start, i as int),
            forall|j: int| start <= j < i ==> text@[j] != '\n',
            lines(text@) == rows(found@) + lines(text@.skip(start)),
        decreases text.len() - i,
    {
        let c = text[i];
        if c == '\n' {
            let ghost whole = current@;
            if current.len() > 0 && current[current.len() - 1] == '\r' {
                current.pop();
            }
            proof {
                let rest = text@.skip(start);
                lemma_first_index_at(rest, '\n', i - start);
                assert(rest.take(i - start) =~= whole);
                assert(current@ =~= chomp(whole));
                assert(rest.skip(i - start + 1) =~= text@.skip(i + 1));
                assert(rows(found@.push(current)) =~= rows(found@).push(current@));
                assert(rows(found@).push(current@) + lines(text@.skip(i + 1)) =~= rows(found@)
                    + (seq![current@] + lines(text@.skip(i + 1))));
                start = i + 1;
            }
            found.push(current);
            current = Vec::new();
            assert(current@ =~= text@.subrange(start, i + 1));
        } else {
            current.push(c);
            assert(current@ =~= text@.subrange(start, i + 1));
        }
        i += 1;
    }
    proof {
        let rest = text@.skip(start);
        lemma_first_index_at(rest, '\n', rest.len() as int);
        assert(rest =~= current@);
    }
    if current.len() > 0 {
        proof {
            assert(rows(found@.push(current)) =~= rows(found@).push(current@));
            assert(rows(found@).push(current@) =~= rows(found@) + seq![current@]);
        }
        found.push(current);
    } else {
        assert(rows(found@) + Seq::<Seq<char>>::empty() =~= rows(found@));
    }
    found
}

/// The position of the last `c` in `s`, or -1 where it holds none.
pub open spec fn last_index(s: Seq<char>, c: char) -> int
    decreases s.len(),
{
    if s.len() == 0 {
        -1
    } else if s.last() == c {
        s.len() - 1
    } else {
        last_index(s.drop_last(), c)
    }
}

/// Whether `s` begins with `prefix`.
pub open spec fn has_prefix(s: Seq<char>, prefix: Seq<char>) -> bool {
    prefix.len() <= s.len() && s.take(prefix.len() as int) == prefix
}

/// Whether `s` ends with `suffix`.
pub open spec fn has_suffix(s: Seq<char>, suffix: Seq<char>) -> bool {
    suffix.len() <= s.len() && s.skip(s.len() - suffix.len()) == suffix
}

/// Whether `s` holds `pattern` from position `at` on.
pub open spec fn occurs_at(s: Seq<char>, pattern: Seq<char>, at: int) -> bool {
    0 <= at && at + pattern.len() <= s.len() && s.subrange(at, at + pattern.len()) == pattern
}

/// Tells whether `s` holds `pattern` from position `at` on.
pub fn matches_at(s: &Vec<char>, pattern: &Vec<char>, at: usize) -> (found: bool)
    ensures
        found == occurs_at(s@, pattern@, at as int),
{
    if at > s.len() || pattern.len() > s.len() - at {
        return false;
    }
    let mut i: usize = 0;
    while i < pattern.len()
        invariant
            i <= pattern.len(),
            at + pattern.len() <= s.len(),
            forall|j: int| 0 <= j < i ==> s@[at + j] == pattern@[j],
        decreases pattern.len() - i,
    {
        if s[at + i] != pattern[i] {
            assert(s@.subrange(at as int, at + pattern.len())[i as int] != pattern@[i as int]);
            return false;
        }
        i += 1;
    }
    assert(s@.subrange(at as int, at + pattern.len()) =~= pattern@);
    true
}

/// Tells whether the two hold the same characters.
pub fn same_chars(a: &Vec<char>, b: &Vec<char>) -> (same: bool)
    ensures
        same == (a@ == b@),
{
    if a.len() != b.len() {
        return false;
    }
    let same = matches_at(a, b, 0);
    assert(a@.subrange(0, b@.len() as int) =~= a@);
    same
}

/// Tells whether `s` begins with `prefix`.
pub fn starts_with(s: &Vec<char>, prefix: &Vec<char>) -> (found: bool)
    ensures
        found == has_prefix(s@, prefix@),
{
    let found = matches_at(s, prefix, 0);
    assert(prefix@.len() <= s@.len() ==> s@.subrange(0, prefix@.len() as int) =~= s@.take(
        prefix@.len() as int,
    ));
    found
}

/// Tells whether `s` ends with `suffix`.
pub fn ends_with(s: &Vec<char>, suffix: &Vec<char>) -> (found: bool)
    ensures
        found == has_suffix(s@, suffix@),
{
    if suffix.len() > s.len() {
        return false;
    }
    let found = matches_at(s, suffix, s.len() - suffix.len());
    assert(s@.subrange(s@.len() - suffix@.len(), s@.len() as int) =~= s@.skip(
        s@.len() - suffix@.len(),
    ));
    found
}

/// The characters of `s` from position `from` up to, not including, `to`.
pub fn slice_of(s: &Vec<char>, from: usize, to: usize) -> (part: Vec<char>)
    requires
        from <= to <= s.len(),
    ensures
        part@ == s@.subrange(from as int, to as int),
{
    let mut part: Vec<char> = Vec::new();
    let mut i: usize = from;
    while i < to
        invariant
            from <= i <= to <= s.len(),
            part@ == s@.subrange(from as int, i as int),
        decreases to - i,
    {
        part.push(s[i]);
        assert(part@ =~= s@.subrange(from as int, i + 1));
        i += 1;
    }
    part
}

/// Adds the characters of `more` to the end of `out`.
pub fn append_chars(out: &mut Vec<char>, more: &Vec<char>)
    ensures
        final(out)@ == old(out)@ + more@,
{
    let mut i: usize = 0;
    assert(out@ =~= old(out)@ + more@.take(0));
    while i < more.len()
        invariant
            i <= more.len(),
            out@ == old(out)@ + more@.take(i as int),
        decreases more.len() - i,
    {
        out.push(more[i]);
        assert(out@ =~= old(out)@ + more@.take(i + 1));
        i += 1;
    }
    assert(more@.take(more@.len() as int) =~= more@);
}

/// `text` with every occurrence of `pattern` replaced by `with`. Occurrences
/// are found from the left, and the search goes on behind each one, so
/// they do not overlap. With an empty pattern the text stays as it is.
pub open spec fn replaced(text: Seq<char>, pattern: Seq<char>, with: Seq<char>) -> Seq<char>
    decreases text.len(),
{
    if pattern.len() == 0 || text.len() < pattern.len() {
        text
    } else if has_prefix(text, pattern) {
        with + replaced(text.skip(pattern.len() as int), pattern, with)
    } else {
        seq![text[0]] + replaced(text.skip(1), pattern, with)
    }
}

/// A text in which the pattern does not occur is left as it is.
pub proof fn lemma_replaced_none(text: Seq<char>, pattern: Seq<char>, with: Seq<char>)
    requires
        forall|k: int| !occurs_at(text, pattern, k),
    ensures
        replaced(text, pattern, with) == text,
    decreases text.len(),
{
    if pattern.len() == 0 || text.len() < pattern.len() {
    } else {
        assert(!has_prefix(text, pattern)) by {
            assert(!occurs_at(text, pattern, 0));
            assert(text.subrange(0, pattern.len() as int) =~= text.take(pattern.len() as int));
        }
        let rest = text.skip(1);
        assert forall|k: int| !occurs_at(rest, pattern, k) by {
            assert(!occurs_at(text, pattern, k + 1));
            if 0 <= k && k + pattern.len() <= rest.len() {
                assert(rest.subrange(k, k + pattern.len()) =~= text.subrange(
                    k + 1,
                    k + 1 + pattern.len(),
                ));
            }
        }
        lemma_replaced_none(rest, pattern, with);
        assert(seq![text[0]] + rest =~= text);
    }
}

/// Where the pattern occurs exactly once, the result is the text before that
/// occurrence, then the replacement, then the text behind the occurrence.
pub proof fn lemma_replaced_once(text: Seq<char>, pattern: Seq<char>, with: Seq<char>, at: int)
    requires
        pattern.len() > 0,
        occurs_at(text, pattern, at),
        forall|k: int| occurs_at(text, pattern, k) ==> k == at,
    ensures
        replaced(text, pattern, with) == text.take(at) + with + text.skip(at + pattern.len()),
    decreases at,
{
    let n = pattern.len() as int;
    assert(text.subrange(0, n) =~= text.take(n));
    if at == 0 {
        let rest = text.skip(n);
        assert forall|k: int| !occurs_at(rest, pattern, k) by {
            if 0 <= k && k + n <= rest.len() {
                assert(rest.subrange(k, k + n) =~= text.subrange(k + n, k + n + n));
                assert(!occurs_at(text, pattern, k + n));
            }
        }
        lemma_replaced_none(rest, pattern, with);
        assert(text.take(0) + with + rest =~= with + rest);
    } else {
        assert(!occurs_at(text, pattern, 0));
        let rest = text.skip(1);
        assert(rest.subrange(at - 1, at - 1 + n) =~= text.subrange(at, at + n));
        assert forall|k: int| occurs_at(rest, pattern, k) implies k == at - 1 by {
            assert(rest.subrange(k, k + n) =~= text.subrange(k + 1, k + 1 + n));
            assert(occurs_at(text, pattern, k + 1));
        }
        lemma_replaced_once(rest, pattern, with, at - 1);
        assert(seq![text[0]] + (rest.take(at - 1) + with + rest.skip(at - 1 + n)) =~= text.take(at)
            + with + text.skip(at + n));
    }
}

/// Replaces every occurrence of `pattern` in `text` by `with`.
pub fn replace_all(text: &Vec<char>, pattern: &Vec<char>, with: &Vec<char>) -> (out: Vec<char>)
    ensures
        out@ == replaced(text@, pattern@, with@),
{
    let mut out: Vec<char> = Vec::new();
    if pattern.len() == 0 {
        append_chars(&mut out, text);
        assert(out@ =~= text@);
        return out;
    }
    let mut i: usize = 0;
    assert(text@.skip(0) =~= text@);
    assert(out@ + replaced(text@, pattern@, with@) =~= replaced(text@, pattern@, with@));
    while i < text.len()
        invariant
            i <= text.len(),
            pattern@.len() > 0,
            replaced(text@, pattern@, with@) == out@ + replaced(text@.skip(i as int), pattern@, with@),
        decreases text.len() - i,
    {
        let ghost rest = text@.skip(i as int);
        let ghost before = out@;
        if matches_at(text, pattern, i) {
            proof {
                assert(rest.take(pattern@.len() as int) =~= text@.subrange(
                    i as int,
                    i + pattern@.len(),
                ));
                assert(rest.skip(pattern@.len() as int) =~= text@.skip(i + pattern@.len()));
            }
            append_chars(&mut out, with);
            i += pattern.len();
            assert(out@ + replaced(text@.skip(i as int), pattern@, with@) =~= before + (with@
                + replaced(text@.skip(i as int), pattern@, with@)));
        } else {
            proof {
                if rest.len() >= pattern@.len() {
                    assert(rest.take(pattern@.len() as int) =~= text@.subrange(
                        i as int,
                        i + pattern@.len(),
                    ));
                }
                assert(rest.skip(1) =~= text@.skip(i + 1));
                assert(seq![rest[0]] + rest.skip(1) =~= rest);
            }
            out.push(text[i]);
            i += 1;
            assert(out@ + replaced(text@.skip(i as int), pattern@, with@) =~= before + (seq![
                rest[0],
            ] + replaced(text@.skip(i as int), pattern@, with@)));
        }
    }
    assert(text@.skip(text@.len() as int) =~= Seq::<char>::empty());
    assert(out@ + Seq::<char>::empty() =~= out@);
    out
}

} // verus!
