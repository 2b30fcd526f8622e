//! The fixed tokens the scanner and the rewrite engine work with, and the
//! notion of a token occurring at a position of a text.

use vstd::prelude::*;

verus! {

/// The two suppression directives the scanner recognizes.
#[derive(Clone, Copy, Debug, PartialEq, Eq, Structural)]
pub enum DirectiveKind {
    /// Suppression for the region that follows (`disable`).
    Disable,
    /// Suppression for the next line only (`disable-next-line`).
    DisableNextLine,
}

/// The namespace prefix that marks a directive to be renamed: `eslint-`.
pub open spec fn source_prefix() -> Seq<char> {
    seq!['e', 's', 'l', 'i', 'n', 't', '-']
}

/// The namespace prefix that replaces the source prefix: `oxlint-`.
pub open spec fn target_prefix() -> Seq<char> {
    seq!['o', 'x', 'l', 'i', 'n', 't', '-']
}

/// The keyword that follows the namespace prefix for each directive kind.
pub open spec fn keyword_token(kind: DirectiveKind) -> Seq<char> {
    match kind {
        DirectiveKind::Disable => seq!['d', 'i', 's', 'a', 'b', 'l', 'e'],
        DirectiveKind::DisableNextLine => seq![
            'd',
            'i',
            's',
            'a',
            'b',
            'l',
            'e',
            '-',
            'n',
            'e',
            'x',
            't',
            '-',
            'l',
            'i',
            'n',
            'e',
        ],
    }
}

/// The full token the rewrite engine searches for: source prefix plus keyword.
pub open spec fn source_token(kind: DirectiveKind) -> Seq<char> {
    source_prefix() + keyword_token(kind)
}

/// The full token the rewrite engine substitutes in: target prefix plus
/// keyword.
pub open spec fn target_token(kind: DirectiveKind) -> Seq<char> {
    target_prefix() + keyword_token(kind)
}

/// `pat` occurs in `s` starting at position `i`.
pub open spec fn occurs_at(s: Seq<char>, pat: Seq<char>, i: int) -> bool {
    &&& 0 <= i
    &&& i + pat.len() <= s.len()
    &&& forall|j: int| 0 <= j < pat.len() ==> s[i + j] == pat[j]
}

/// No occurrence of `pat` starts in `s` at a position of `[from, to)`.
pub open spec fn no_occurrence_in(s: Seq<char>, pat: Seq<char>, from: int, to: int) -> bool {
    forall|i: int| from <= i < to ==> !occurs_at(s, pat, i)
}

/// The position of the first occurrence of `pat` in `s` at or after `from`,
/// if there is one.
pub open spec fn first_occurrence_from(s: Seq<char>, pat: Seq<char>, from: int) -> Option<int>
    recommends
        0 <= from,
    decreases s.len() - from,
{
    if from < 0 || from + pat.len() > s.len() {
        None
    } else if occurs_at(s, pat, from) {
        Some(from)
    } else {
        first_occurrence_from(s, pat, from + 1)
    }
}

/// A first occurrence is an occurrence, and nothing before it is one.
pub proof fn lemma_first_occurrence_some(s: Seq<char>, pat: Seq<char>, from: int, i: int)
    requires
        first_occurrence_from(s, pat, from) == Some(i),
    ensures
        from <= i,
        occurs_at(s, pat, i),
        no_occurrence_in(s, pat, from, i),
    decreases s.len() - from,
{
    if from < 0 || from + pat.len() > s.len() {
    } else if occurs_at(s, pat, from) {
    } else {
        lemma_first_occurrence_some(s, pat, from + 1, i);
    }
}

/// When the search reports no occurrence, there is none anywhere at or after
/// `from`.
pub proof fn lemma_first_occurrence_none(s: Seq<char>, pat: Seq<char>, from: int)
    requires
        0 <= from,
        first_occurrence_from(s, pat, from) is None,
    ensures
        no_occurrence_in(s, pat, from, s.len() as int),
    decreases s.len() - from,
{
    if from + pat.len() > s.len() {
        assert forall|i: int| from <= i < s.len() implies !occurs_at(s, pat, i) by {
            assert(i + pat.len() > s.len());
        }
    } else {
        lemma_first_occurrence_none(s, pat, from + 1);
    }
}

/// An occurrence with none before it is the first occurrence.
pub proof fn lemma_first_occurrence_found(s: Seq<char>, pat: Seq<char>, from: int, i: int)
    requires
        0 <= from <= i,
        occurs_at(s, pat, i),
        no_occurrence_in(s, pat, from, i),
    ensures
        first_occurrence_from(s, pat, from) == Some(i),
    decreases i - from,
{
    if from == i {
    } else {
        lemma_first_occurrence_found(s, pat, from + 1, i);
    }
}

/// When no occurrence of a non-empty `pat` exists at or after `from`, the
/// search reports none.
pub proof fn lemma_first_occurrence_not_found(s: Seq<char>, pat: Seq<char>, from: int)
    requires
        0 <= from,
        pat.len() > 0,
        no_occurrence_in(s, pat, from, s.len() as int),
    ensures
        first_occurrence_from(s, pat, from) is None,
    decreases s.len() - from,
{
    if from + pat.len() > s.len() {
    } else {
        assert(!occurs_at(s, pat, from));
        lemma_first_occurrence_not_found(s, pat, from + 1);
    }
}

/// A concatenated pattern occurs exactly where its two halves occur in turn.
pub proof fn lemma_occurs_at_concat(s: Seq<char>, a: Seq<char>, b: Seq<char>, i: int)
    ensures
        occurs_at(s, a + b, i) <==> occurs_at(s, a, i) && occurs_at(s, b, i + a.len()),
{
    if occurs_at(s, a + b, i) {
        assert forall|j: int| 0 <= j < a.len() implies s[i + j] == a[j] by {
            assert(s[i + j] == (a + b)[j]);
        }
        assert forall|j: int| 0 <= j < b.len() implies s[i + a.len() + j] == b[j] by {
            assert(s[i + (a.len() + j)] == (a + b)[a.len() + j]);
        }
    }
    if occurs_at(s, a, i) && occurs_at(s, b, i + a.len()) {
        assert forall|j: int| 0 <= j < (a + b).len() implies s[i + j] == (a + b)[j] by {
            if j < a.len() {
                assert(s[i + j] == a[j]);
            } else {
                assert(s[i + a.len() + (j - a.len())] == b[j - a.len()]);
            }
        }
    }
}

/// The characters of the two namespace prefixes: they have the same length,
/// agree everywhere but in their first two positions, and the characters
/// that replace `e` and `s` appear nowhere in the source prefix.
pub proof fn lemma_prefix_chars()
    ensures
        source_prefix().len() == 7,
        target_prefix().len() == 7,
        source_prefix()[0] == 'e',
        target_prefix()[0] == 'o',
        target_prefix()[1] == 'x',
        forall|j: int| 2 <= j < 7 ==> source_prefix()[j] == target_prefix()[j],
        forall|j: int| 0 <= j < 7 ==> source_prefix()[j] != 'o' && source_prefix()[j] != 'x',
{
    assert(source_prefix()[0] == 'e');
    assert(source_prefix()[1] == 's');
    assert(source_prefix()[2] == 'l');
    assert(source_prefix()[3] == 'i');
    assert(source_prefix()[4] == 'n');
    assert(source_prefix()[5] == 't');
    assert(source_prefix()[6] == '-');
    assert(target_prefix()[0] == 'o');
    assert(target_prefix()[1] == 'x');
    assert(target_prefix()[2] == 'l');
    assert(target_prefix()[3] == 'i');
    assert(target_prefix()[4] == 'n');
    assert(target_prefix()[5] == 't');
    assert(target_prefix()[6] == '-');
    assert forall|j: int| 2 <= j < 7 implies source_prefix()[j] == target_prefix()[j] by {
        if j == 2 {
        } else if j == 3 {
        } else if j == 4 {
        } else if j == 5 {
        } else {
            assert(j == 6);
        }
    }
    assert forall|j: int| 0 <= j < 7 implies source_prefix()[j] != 'o' && source_prefix()[j]
        != 'x' by {
        if j == 0 {
        } else if j == 1 {
        } else if j == 2 {
        } else if j == 3 {
        } else if j == 4 {
        } else if j == 5 {
        } else {
            assert(j == 6);
        }
    }
}

} // verus!
