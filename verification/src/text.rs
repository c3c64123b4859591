//! Searching and slicing text, as sequences of characters.

use vstd::prelude::*;

verus! {

/// `pattern` stands in `text` at index `at`.
pub open spec fn occurs_at(text: Seq<char>, pattern: Seq<char>, at: int) -> bool {
    &&& 0 <= at
    &&& at + pattern.len() <= text.len()
    &&& text.subrange(at, at + pattern.len()) == pattern
}

/// `pattern` stands somewhere in `text`.
pub open spec fn occurs_in(text: Seq<char>, pattern: Seq<char>) -> bool {
    exists|at: int| occurs_at(text, pattern, at)
}

/// `pattern` stands in `text` at index `at` and nowhere before it.
pub open spec fn is_first_occurrence(text: Seq<char>, pattern: Seq<char>, at: int) -> bool {
    &&& occurs_at(text, pattern, at)
    &&& forall|earlier: int| 0 <= earlier < at ==> !occurs_at(text, pattern, earlier)
}

/// The index of the leftmost occurrence of `pattern` in `text`, if there is one.
pub open spec fn first_occurrence(text: Seq<char>, pattern: Seq<char>) -> Option<int> {
    if occurs_in(text, pattern) {
        Some(choose|at: int| is_first_occurrence(text, pattern, at))
    } else {
        None
    }
}

/// `text` starts with `prefix`.
pub open spec fn starts_with(text: Seq<char>, prefix: Seq<char>) -> bool {
    occurs_at(text, prefix, 0)
}

/// `text` ends with `suffix`.
pub open spec fn ends_with(text: Seq<char>, suffix: Seq<char>) -> bool {
    suffix.len() <= text.len() && occurs_at(text, suffix, text.len() - suffix.len())
}

/// `text` without the `count` characters at its end.
pub open spec fn without_tail(text: Seq<char>, count: nat) -> Seq<char> {
    text.take(text.len() - count)
}

/// `a` does not come after `b` in the order of a dictionary, character by
/// character, each character taken by its number.
#[verifier::opaque]
pub open spec fn lex_le(a: Seq<char>, b: Seq<char>) -> bool
    decreases a.len(),
{
    if a.len() == 0 {
        true
    } else if b.len() == 0 {
        false
    } else if a[0] != b[0] {
        (a[0] as int) < (b[0] as int)
    } else {
        lex_le(a.drop_first(), b.drop_first())
    }
}

/// The number of a character fits in 32 bits.
proof fn lemma_char_number(c: char)
    ensures
        (c as u32) as int == c as int,
{
}

/// No text comes after itself.
pub proof fn lemma_lex_le_is_reflexive(a: Seq<char>)
    ensures
        lex_le(a, a),
    decreases a.len(),
{
    reveal(lex_le);
    if a.len() > 0 {
        lemma_lex_le_is_reflexive(a.drop_first());
    }
}

/// Of two texts, one does not come after the other.
pub proof fn lemma_lex_le_is_total(a: Seq<char>, b: Seq<char>)
    ensures
        lex_le(a, b) || lex_le(b, a),
    decreases a.len(),
{
    reveal(lex_le);
    if a.len() > 0 && b.len() > 0 && a[0] == b[0] {
        lemma_lex_le_is_total(a.drop_first(), b.drop_first());
    }
}

/// The order of texts is transitive.
pub proof fn lemma_lex_le_is_transitive(a: Seq<char>, b: Seq<char>, c: Seq<char>)
    requires
        lex_le(a, b),
        lex_le(b, c),
    ensures
        lex_le(a, c),
    decreases a.len(),
{
    reveal(lex_le);
    if a.len() > 0 && a[0] == b[0] && b[0] == c[0] {
        lemma_lex_le_is_transitive(a.drop_first(), b.drop_first(), c.drop_first());
    }
}

/// A leftmost occurrence is the one that `first_occurrence` names.
pub proof fn lemma_first_occurrence_is_unique(text: Seq<char>, pattern: Seq<char>, at: int)
    requires
        is_first_occurrence(text, pattern, at),
    ensures
        first_occurrence(text, pattern) == Some(at),
{
    let chosen = choose|at: int| is_first_occurrence(text, pattern, at);
    assert(is_first_occurrence(text, pattern, chosen));
    if chosen < at {
        assert(!occurs_at(text, pattern, chosen));
    }
    if at < chosen {
        assert(!occurs_at(text, pattern, at));
    }
}

/// Where `pattern` occurs at all, it has a leftmost occurrence.
pub proof fn lemma_leftmost_occurrence_exists(text: Seq<char>, pattern: Seq<char>, at: int)
    requires
        occurs_at(text, pattern, at),
    ensures
        exists|first: int| is_first_occurrence(text, pattern, first),
    decreases at,
{
    if exists|earlier: int| 0 <= earlier < at && occurs_at(text, pattern, earlier) {
        let earlier = choose|earlier: int| 0 <= earlier < at && occurs_at(text, pattern, earlier);
        lemma_leftmost_occurrence_exists(text, pattern, earlier);
    } else {
        assert(is_first_occurrence(text, pattern, at));
    }
}

/// What `first_occurrence` names is the leftmost occurrence; it names nothing
/// only where there is none.
pub proof fn lemma_first_occurrence_is_leftmost(text: Seq<char>, pattern: Seq<char>)
    ensures
        match first_occurrence(text, pattern) {
            Some(at) => is_first_occurrence(text, pattern, at),
            None => !occurs_in(text, pattern),
        },
{
    if occurs_in(text, pattern) {
        let at = choose|at: int| occurs_at(text, pattern, at);
        lemma_leftmost_occurrence_exists(text, pattern, at);
    }
}

/// Where nothing occurs, `first_occurrence` names nothing.
pub proof fn lemma_no_occurrence(text: Seq<char>, pattern: Seq<char>)
    requires
        forall|at: int| 0 <= at <= text.len() - pattern.len() ==> !occurs_at(text, pattern, at),
    ensures
        !occurs_in(text, pattern),
        first_occurrence(text, pattern) is None,
{
    assert forall|at: int| !occurs_at(text, pattern, at) by {
        if 0 <= at && at + pattern.len() <= text.len() {
            assert(0 <= at <= text.len() - pattern.len());
        }
    }
}

/// Copies the characters of `text` into a vector.
pub fn to_chars(text: &str) -> (chars: Vec<char>)
    ensures
        chars@ == text@,
{
    let mut chars: Vec<char> = Vec::new();
    for c in it: text.chars()
        invariant
            chars@ == it.seq().take(it.index() as int),
            it.seq() == text@,
    {
        chars.push(c);
    }
    chars
}

/// Whether the `count` characters of `text` from index `at` on are those of
/// `pattern` from index `from` on.
pub(crate) fn same_part(
    text: &Vec<char>,
    at: usize,
    pattern: &Vec<char>,
    from: usize,
    count: usize,
) -> (same: bool)
    requires
        at + count <= text.len(),
        from + count <= pattern.len(),
    ensures
        same == (text@.subrange(at as int, at + count) == pattern@.subrange(
            from as int,
            from + count,
        )),
{
    let ghost window = text@.subrange(at as int, at + count);
    let ghost wanted = pattern@.subrange(from as int, from + count);
    let mut k: usize = 0;
    while k < count
        invariant
            at + count <= text.len(),
            from + count <= pattern.len(),
            k <= count,
            window == text@.subrange(at as int, at + count),
            wanted == pattern@.subrange(from as int, from + count),
            forall|j: int| 0 <= j < k ==> window[j] == wanted[j],
        decreases count - k,
    {
        if text[at + k] != pattern[from + k] {
            assert(window[k as int] != wanted[k as int]);
            return false;
        }
        k += 1;
    }
    assert(window =~= wanted);
    true
}

/// Whether `pattern` stands in `text` at index `at`.
pub fn matches_at(text: &Vec<char>, pattern: &Vec<char>, at: usize) -> (found: bool)
    ensures
        found == occurs_at(text@, pattern@, at as int),
{
    if pattern.len() > text.len() || at > text.len() - pattern.len() {
        return false;
    }
    assert(pattern@.subrange(0, pattern@.len() as int) =~= pattern@);
    same_part(text, at, pattern, 0, pattern.len())
}

/// The index of the leftmost occurrence of `pattern` in `text`.
pub fn find(text: &Vec<char>, pattern: &Vec<char>) -> (place: Option<usize>)
    ensures
        match place {
            Some(at) => first_occurrence(text@, pattern@) == Some(at as int) && is_first_occurrence(
                text@,
                pattern@,
                at as int,
            ),
            None => first_occurrence(text@, pattern@) is None && !occurs_in(text@, pattern@),
        },
{
    if pattern.len() > text.len() {
        proof {
            lemma_no_occurrence(text@, pattern@);
        }
        return None;
    }
    let last: usize = text.len() - pattern.len();
    let mut at: usize = 0;
    loop
        invariant
            last == text.len() - pattern.len(),
            at <= last,
            forall|earlier: int| 0 <= earlier < at ==> !occurs_at(text@, pattern@, earlier),
        decreases last - at,
    {
        if matches_at(text, pattern, at) {
            proof {
                lemma_first_occurrence_is_unique(text@, pattern@, at as int);
            }
            return Some(at);
        }
        if at == last {
            proof {
                lemma_no_occurrence(text@, pattern@);
            }
            return None;
        }
        at += 1;
    }
}

/// Whether `a` does not come after `b` in the order of a dictionary.
pub fn precedes(a: &Vec<char>, b: &Vec<char>) -> (before: bool)
    ensures
        before == lex_le(a@, b@),
{
    let mut i: usize = 0;
    assert(a@.skip(0) =~= a@ && b@.skip(0) =~= b@);
    loop
        invariant
            i <= a.len(),
            i <= b.len(),
            lex_le(a@, b@) == lex_le(a@.skip(i as int), b@.skip(i as int)),
        decreases a.len() - i,
    {
        proof {
            reveal(lex_le);
        }
        if i == a.len() {
            return true;
        }
        if i == b.len() {
            return false;
        }
        let c: char = a[i];
        let d: char = b[i];
        if c != d {
            proof {
                lemma_char_number(c);
                lemma_char_number(d);
            }
            return (c as u32) < (d as u32);
        }
        assert(a@.skip(i as int).drop_first() =~= a@.skip(i + 1));
        assert(b@.skip(i as int).drop_first() =~= b@.skip(i + 1));
        i += 1;
    }
}

/// Whether `text` ends with `suffix`.
pub fn has_suffix(text: &Vec<char>, suffix: &Vec<char>) -> (found: bool)
    ensures
        found == ends_with(text@, suffix@),
{
    if suffix.len() > text.len() {
        return false;
    }
    matches_at(text, suffix, text.len() - suffix.len())
}

/// The characters of `text` from index `from` up to, not including, index `to`.
pub(crate) fn slice(text: &str, from: usize, to: usize) -> (part: String)
    requires
        from <= to <= text@.len(),
    ensures
        part@ == text@.subrange(from as int, to as int),
{
    String::from_str(text.substring_char(from, to))
}

} // verus!
