//! The general properties of the scanner and the rewrite engine, proved over
//! their mathematical models `scan` and `rewritten`.

use vstd::prelude::*;

use crate::rewriter::rewritten;
use crate::scanner::{allowed_lead, last_line_start, lead_ok, lemma_last_line_start_bounds, scan};
use crate::tokens::{
    first_occurrence_from, keyword_token, lemma_first_occurrence_found,
    lemma_first_occurrence_none, lemma_first_occurrence_not_found, lemma_first_occurrence_some,
    lemma_occurs_at_concat, lemma_prefix_chars, occurs_at, source_prefix, source_token,
    target_prefix, target_token, DirectiveKind,
};

verus! {

/// A text in which the source namespace prefix occurs nowhere carries no
/// directive: the scanner reports no match.
pub proof fn lemma_no_prefix_no_match(s: Seq<char>, single_line: bool)
    requires
        forall|i: int| !occurs_at(s, source_prefix(), i),
    ensures
        scan(s, single_line) is None,
{
    let from = last_line_start(s);
    lemma_last_line_start_bounds(s);
    match first_occurrence_from(s, source_prefix(), from) {
        None => {},
        Some(p) => {
            lemma_first_occurrence_some(s, source_prefix(), from, p);
            assert(!occurs_at(s, source_prefix(), p));
            assert(false);
        },
    }
}

/// Anchoring: when a disallowed character stands on the last line before the
/// first occurrence of the source prefix, the scanner reports no match.
pub proof fn lemma_bad_lead_no_match(s: Seq<char>, single_line: bool, j: int)
    requires
        first_occurrence_from(s, source_prefix(), last_line_start(s)) matches Some(p)
            && last_line_start(s) <= j < p,
        !allowed_lead(s[j], single_line),
    ensures
        scan(s, single_line) is None,
{
    let from = last_line_start(s);
    match first_occurrence_from(s, source_prefix(), from) {
        None => {},
        Some(p) => {
            assert(!lead_ok(s, from, p, single_line)) by {
                if lead_ok(s, from, p, single_line) {
                    assert(allowed_lead(s[j], single_line));
                }
            }
        },
    }
}

/// A successful scan pins a full source token in the text: the reported
/// keyword is immediately preceded by the source prefix, so the token the
/// rewrite engine searches for is present and the rewrite cannot fall back
/// to returning the text unchanged.
pub proof fn lemma_match_has_source_token(
    s: Seq<char>,
    single_line: bool,
    kind: DirectiveKind,
    start: int,
)
    requires
        scan(s, single_line) == Some((kind, start)),
    ensures
        occurs_at(s, source_token(kind), start - source_prefix().len()),
        first_occurrence_from(s, source_token(kind), 0) is Some,
{
    let from = last_line_start(s);
    lemma_last_line_start_bounds(s);
    match first_occurrence_from(s, source_prefix(), from) {
        None => {
            assert(false);
        },
        Some(p) => {
            lemma_first_occurrence_some(s, source_prefix(), from, p);
            assert(start == p + source_prefix().len());
            assert(occurs_at(s, keyword_token(kind), start));
            lemma_occurs_at_concat(s, source_prefix(), keyword_token(kind), p);
            assert(occurs_at(s, source_token(kind), p));
            if first_occurrence_from(s, source_token(kind), 0) is None {
                lemma_first_occurrence_none(s, source_token(kind), 0);
                assert(!occurs_at(s, source_token(kind), p));
                assert(false);
            }
        },
    }
}

/// Substring preservation: when the source token occurs, the rewritten text
/// keeps the input's length, carries the target token where the source token
/// stood, and is identical to the input at every position outside that
/// region.
pub proof fn lemma_rewrite_preserves_surroundings(s: Seq<char>, kind: DirectiveKind, p: int)
    requires
        first_occurrence_from(s, source_token(kind), 0) == Some(p),
    ensures
        rewritten(s, kind).len() == s.len(),
        forall|i: int| 0 <= i < p ==> rewritten(s, kind)[i] == s[i],
        forall|i: int|
            p + source_token(kind).len() <= i < s.len() ==> rewritten(s, kind)[i] == s[i],
        forall|j: int|
            0 <= j < source_token(kind).len() ==> rewritten(s, kind)[p + j] == target_token(
                kind,
            )[j],
{
    lemma_first_occurrence_some(s, source_token(kind), 0, p);
    lemma_prefix_chars();
    let t = rewritten(s, kind);
    let l = source_token(kind).len() as int;
    assert(target_token(kind).len() == l);
    assert(t == s.subrange(0, p) + target_token(kind) + s.subrange(p + l, s.len() as int));
    assert(t.len() == s.len());
    assert forall|i: int| 0 <= i < p implies t[i] == s[i] by {
        assert(t[i] == s.subrange(0, p)[i]);
    }
    assert forall|i: int| p + l <= i < s.len() implies t[i] == s[i] by {
        assert(t[i] == s.subrange(p + l, s.len() as int)[i - (p + l)]);
    }
    assert forall|j: int| 0 <= j < l implies t[p + j] == target_token(kind)[j] by {
        assert(t[p + j] == (s.subrange(0, p) + target_token(kind))[p + j]);
    }
}

/// Idempotence: when the scanner reports a directive in a text where the
/// source prefix occurs only once, the rewritten text contains the source
/// prefix nowhere, so re-scanning it (under either comment shape) reports no
/// match, and rewriting it again leaves it unchanged.
pub proof fn lemma_rewrite_idempotent(
    s: Seq<char>,
    single_line: bool,
    kind: DirectiveKind,
    start: int,
    other_single_line: bool,
)
    requires
        scan(s, single_line) == Some((kind, start)),
        forall|i: int, j: int|
            occurs_at(s, source_prefix(), i) && occurs_at(s, source_prefix(), j) ==> i == j,
    ensures
        forall|q: int| !occurs_at(rewritten(s, kind), source_prefix(), q),
        scan(rewritten(s, kind), other_single_line) is None,
        rewritten(rewritten(s, kind), kind) == rewritten(s, kind),
{
    lemma_prefix_chars();
    let pfx = source_prefix();
    let kw = keyword_token(kind);
    let tok = source_token(kind);
    let p = start - pfx.len();
    lemma_match_has_source_token(s, single_line, kind, start);
    assert(occurs_at(s, tok, p));
    lemma_occurs_at_concat(s, pfx, kw, p);
    assert(occurs_at(s, pfx, p));
    assert forall|q: int| 0 <= q < p implies !occurs_at(s, tok, q) by {
        if occurs_at(s, tok, q) {
            lemma_occurs_at_concat(s, pfx, kw, q);
            assert(occurs_at(s, pfx, q));
        }
    }
    lemma_first_occurrence_found(s, tok, 0, p);
    lemma_rewrite_preserves_surroundings(s, kind, p);
    let t = rewritten(s, kind);
    let l = tok.len() as int;
    assert(target_token(kind).len() == l);
    assert(l >= 7 + 7);

    // The substitution touches only the first two characters of the prefix.
    assert(t[p + 0] == target_token(kind)[0]);
    assert(target_token(kind)[0] == target_prefix()[0]);
    assert(t[p + 1] == target_token(kind)[1]);
    assert(target_token(kind)[1] == target_prefix()[1]);
    assert(t[p] == 'o' && t[p + 1] == 'x');
    assert forall|i: int| 0 <= i < s.len() && i != p && i != p + 1 implies t[i] == s[i] by {
        if p <= i < p + l {
            let j = i - p;
            assert(t[p + j] == target_token(kind)[j]);
            assert(s[p + j] == tok[j]);
            if j < 7 {
                assert(target_token(kind)[j] == target_prefix()[j]);
                assert(tok[j] == source_prefix()[j]);
            } else {
                assert(target_token(kind)[j] == kw[j - 7]);
                assert(tok[j] == kw[j - 7]);
            }
        }
    }

    // No occurrence of the source prefix survives in the rewritten text.
    assert forall|q: int| !occurs_at(t, pfx, q) by {
        if occurs_at(t, pfx, q) {
            if q <= p < q + 7 {
                assert(t[q + (p - q)] == pfx[p - q]);
                assert(pfx[p - q] != 'o');
                assert(false);
            } else if q <= p + 1 < q + 7 {
                assert(t[q + (p + 1 - q)] == pfx[p + 1 - q]);
                assert(pfx[p + 1 - q] != 'x');
                assert(false);
            } else {
                assert forall|j: int| 0 <= j < 7 implies s[q + j] == pfx[j] by {
                    assert(t[q + j] == pfx[j]);
                    assert(q + j != p && q + j != p + 1);
                }
                assert(occurs_at(s, pfx, q));
                assert(q == p);
                assert(false);
            }
        }
    }
    lemma_no_prefix_no_match(t, other_single_line);

    // With no source prefix left, the source token occurs nowhere either, so
    // a second rewrite finds nothing to replace.
    assert forall|q: int| 0 <= q < t.len() implies !occurs_at(t, tok, q) by {
        if occurs_at(t, tok, q) {
            lemma_occurs_at_concat(t, pfx, kw, q);
            assert(occurs_at(t, pfx, q));
        }
    }
    lemma_first_occurrence_not_found(t, tok, 0);
    assert(rewritten(t, kind) == t);
}

/// The rewrite is robust to the keyword-classification ambiguity: when the
/// longer directive token stands at the first occurrence of the shorter one
/// (as it does whenever a scanner reported either kind there), rewriting
/// under either kind produces the same text, because the shorter token is a
/// textual prefix of the longer one and the leftover tail is preserved
/// verbatim.
pub proof fn lemma_rewrite_kind_agnostic(s: Seq<char>, p: int)
    requires
        first_occurrence_from(s, source_token(DirectiveKind::Disable), 0) == Some(p),
        occurs_at(s, source_token(DirectiveKind::DisableNextLine), p),
    ensures
        rewritten(s, DirectiveKind::Disable) == rewritten(s, DirectiveKind::DisableNextLine),
{
    lemma_prefix_chars();
    let short = source_token(DirectiveKind::Disable);
    let long = source_token(DirectiveKind::DisableNextLine);
    let kw_short = keyword_token(DirectiveKind::Disable);
    let kw_long = keyword_token(DirectiveKind::DisableNextLine);
    lemma_first_occurrence_some(s, short, 0, p);
    assert(short.len() == 14 && long.len() == 24);
    assert forall|t: int| 0 <= t < 7 implies kw_long[t] == kw_short[t] by {
        if t == 0 {
        } else if t == 1 {
        } else if t == 2 {
        } else if t == 3 {
        } else if t == 4 {
        } else if t == 5 {
        } else {
            assert(t == 6);
        }
    }
    assert forall|j: int| 0 <= j < 14 implies long[j] == short[j] by {
        if j < 7 {
            assert(long[j] == source_prefix()[j] && short[j] == source_prefix()[j]);
        } else {
            assert(long[j] == kw_long[j - 7] && short[j] == kw_short[j - 7]);
        }
    }
    // Every occurrence of the longer token is one of the shorter, so the
    // first occurrence of the longer token is `p` as well.
    assert forall|q: int| 0 <= q < p implies !occurs_at(s, long, q) by {
        if occurs_at(s, long, q) {
            assert forall|j: int| 0 <= j < 14 implies s[q + j] == short[j] by {
                assert(s[q + j] == long[j]);
            }
            assert(occurs_at(s, short, q));
        }
    }
    lemma_first_occurrence_found(s, long, 0, p);
    lemma_rewrite_preserves_surroundings(s, DirectiveKind::Disable, p);
    lemma_rewrite_preserves_surroundings(s, DirectiveKind::DisableNextLine, p);
    let a = rewritten(s, DirectiveKind::Disable);
    let b = rewritten(s, DirectiveKind::DisableNextLine);
    let tgt_short = target_token(DirectiveKind::Disable);
    let tgt_long = target_token(DirectiveKind::DisableNextLine);
    assert forall|j: int| 0 <= j < 14 implies tgt_long[j] == tgt_short[j] by {
        if j < 7 {
            assert(tgt_long[j] == target_prefix()[j] && tgt_short[j] == target_prefix()[j]);
        } else {
            assert(tgt_long[j] == kw_long[j - 7] && tgt_short[j] == kw_short[j - 7]);
        }
    }
    assert forall|j: int| 14 <= j < 24 implies tgt_long[j] == s[p + j] by {
        assert(tgt_long[j] == kw_long[j - 7]);
        assert(long[j] == kw_long[j - 7]);
        assert(s[p + j] == long[j]);
    }
    assert forall|i: int| 0 <= i < s.len() implies a[i] == b[i] by {
        if i < p {
        } else if i < p + 14 {
            assert(a[p + (i - p)] == tgt_short[i - p]);
            assert(b[p + (i - p)] == tgt_long[i - p]);
        } else if i < p + 24 {
            assert(b[p + (i - p)] == tgt_long[i - p]);
        }
    }
    assert(a =~= b);
}

} // verus!
