//! The directive scanner: locates a suppression directive keyword on the
//! last line of a comment's text and reports its kind and position.

use vstd::prelude::*;
use vstd::string::StrSliceExecFns;

use crate::tokens::{
    first_occurrence_from, keyword_token, lemma_first_occurrence_found,
    lemma_first_occurrence_not_found, no_occurrence_in, occurs_at, source_prefix, DirectiveKind,
};

verus! {

/// Whitespace, as Unicode defines the White_Space property; this is what
/// `char::is_whitespace` recognizes.
pub open spec fn is_unicode_whitespace(c: char) -> bool {
    ||| c as u32 == 0x20
    ||| (0x09 <= c as u32 && c as u32 <= 0x0d)
    ||| c as u32 == 0x85
    ||| c as u32 == 0xa0
    ||| c as u32 == 0x1680
    ||| (0x2000 <= c as u32 && c as u32 <= 0x200a)
    ||| c as u32 == 0x2028
    ||| c as u32 == 0x2029
    ||| c as u32 == 0x202f
    ||| c as u32 == 0x205f
    ||| c as u32 == 0x3000
}

/// May `c` stand on a line before the directive prefix?  Whitespace always
/// may; a comment-delimiter character may as well: a further `/` in a
/// single-line comment, a `*` continuation marker or a `/` in a block
/// comment.
pub open spec fn allowed_lead(c: char, single_line: bool) -> bool {
    is_unicode_whitespace(c) || (if single_line {
        c == '/'
    } else {
        c == '*' || c == '/'
    })
}

/// Every character of `s` in `[from, p)` is an allowed lead character.
pub open spec fn lead_ok(s: Seq<char>, from: int, p: int, single_line: bool) -> bool {
    forall|j: int| from <= j < p ==> allowed_lead(s[j], single_line)
}

/// Where the last line of `s` starts: right after the last line break, or at
/// the start of the text when it has no line break.
pub open spec fn last_line_start(s: Seq<char>) -> int
    decreases s.len(),
{
    if s.len() == 0 {
        0
    } else if s[s.len() - 1] == '\n' {
        s.len() as int
    } else {
        last_line_start(s.drop_last())
    }
}

/// The last line starts within the text, right after a line break if it does
/// not start at the very beginning, and contains no line break itself.
pub proof fn lemma_last_line_start_bounds(s: Seq<char>)
    ensures
        0 <= last_line_start(s) <= s.len(),
        forall|j: int| last_line_start(s) <= j < s.len() ==> s[j] != '\n',
        last_line_start(s) > 0 ==> s[last_line_start(s) - 1] == '\n',
    decreases s.len(),
{
    if s.len() == 0 {
    } else if s[s.len() - 1] == '\n' {
    } else {
        lemma_last_line_start_bounds(s.drop_last());
        assert forall|j: int| last_line_start(s) <= j < s.len() implies s[j] != '\n' by {
            if j < s.len() - 1 {
                assert(s.drop_last()[j] != '\n');
            }
        }
        if last_line_start(s) > 0 {
            assert(s.drop_last()[last_line_start(s) - 1] == '\n');
        }
    }
}

/// Any position with those three properties is the start of the last line.
pub proof fn lemma_last_line_start_unique(s: Seq<char>, i: int)
    requires
        0 <= i <= s.len(),
        forall|j: int| i <= j < s.len() ==> s[j] != '\n',
        i > 0 ==> s[i - 1] == '\n',
    ensures
        i == last_line_start(s),
    decreases s.len(),
{
    if s.len() == 0 {
    } else if s[s.len() - 1] == '\n' {
        if i < s.len() {
            assert(s[s.len() - 1] != '\n');
        }
    } else {
        if i == s.len() {
            assert(s[i - 1] == '\n');
            assert(false);
        }
        lemma_last_line_start_unique(s.drop_last(), i);
    }
}

/// Everything the scanner decides, as one mathematical function over the
/// text: the kind of the directive found on the last line and the position
/// of its keyword within the text, or nothing.  The prefix must be the first
/// one on the last line, only allowed lead characters may precede it there,
/// and the keyword is matched longest-first, so that `disable-next-line` is
/// never reported as `disable`.
pub open spec fn scan(s: Seq<char>, single_line: bool) -> Option<(DirectiveKind, int)> {
    let from = last_line_start(s);
    match first_occurrence_from(s, source_prefix(), from) {
        None => None,
        Some(p) => if !lead_ok(s, from, p, single_line) {
            None
        } else {
            let k = p + source_prefix().len();
            if occurs_at(s, keyword_token(DirectiveKind::DisableNextLine), k) {
                Some((DirectiveKind::DisableNextLine, k))
            } else if occurs_at(s, keyword_token(DirectiveKind::Disable), k) {
                Some((DirectiveKind::Disable, k))
            } else {
                None
            }
        },
    }
}

/// A detected directive: its kind and the keyword's position within the
/// text, as indices into the text's character sequence.
#[derive(Clone, Copy, Debug, PartialEq, Eq, Structural)]
pub struct MatchResult {
    /// Which directive the keyword spells.
    pub kind: DirectiveKind,
    /// Index of the keyword's first character.
    pub start: usize,
    /// Index one past the keyword's last character.
    pub end: usize,
}

/// Decides `is_unicode_whitespace`.
pub fn is_whitespace_char(c: char) -> (r: bool)
    ensures
        r == is_unicode_whitespace(c),
{
    let u: u32 = c as u32;
    u == 0x20 || (0x09 <= u && u <= 0x0d) || u == 0x85 || u == 0xa0 || u == 0x1680 || (0x2000 <= u
        && u <= 0x200a) || u == 0x2028 || u == 0x2029 || u == 0x202f || u == 0x205f || u == 0x3000
}

/// Decides `allowed_lead`.
fn allowed_lead_char(c: char, single_line: bool) -> (r: bool)
    ensures
        r == allowed_lead(c, single_line),
{
    is_whitespace_char(c) || (if single_line {
        c == '/'
    } else {
        c == '*' || c == '/'
    })
}

/// Finds `last_line_start` by walking backward to the nearest line break.
fn find_last_line_start(s: &str) -> (r: usize)
    ensures
        r as int == last_line_start(s@),
        r as int <= s@.len(),
{
    let n = s.unicode_len();
    let mut i: usize = n;
    while i > 0
        invariant
            i <= n,
            n as nat == s@.len(),
            forall|j: int| i <= j < s@.len() ==> s@[j] != '\n',
        decreases i,
    {
        if s.get_char(i - 1) == '\n' {
            proof {
                lemma_last_line_start_unique(s@, i as int);
            }
            return i;
        }
        i = i - 1;
    }
    proof {
        lemma_last_line_start_unique(s@, 0);
    }
    0
}

/// Builds the source namespace prefix as executable characters.
pub(crate) fn source_prefix_chars() -> (v: Vec<char>)
    ensures
        v@ == source_prefix(),
{
    let mut v: Vec<char> = Vec::new();
    v.push('e');
    v.push('s');
    v.push('l');
    v.push('i');
    v.push('n');
    v.push('t');
    v.push('-');
    proof {
        assert(v@ =~= source_prefix());
    }
    v
}

/// Builds the keyword of a directive kind as executable characters.
pub(crate) fn keyword_chars(kind: DirectiveKind) -> (v: Vec<char>)
    ensures
        v@ == keyword_token(kind),
{
    let mut v: Vec<char> = Vec::new();
    v.push('d');
    v.push('i');
    v.push('s');
    v.push('a');
    v.push('b');
    v.push('l');
    v.push('e');
    match kind {
        DirectiveKind::Disable => {},
        DirectiveKind::DisableNextLine => {
            v.push('-');
            v.push('n');
            v.push('e');
            v.push('x');
            v.push('t');
            v.push('-');
            v.push('l');
            v.push('i');
            v.push('n');
            v.push('e');
        },
    }
    proof {
        assert(v@ =~= keyword_token(kind));
    }
    v
}

/// Does `pat` occur in `s` at position `i`?  The caller has checked that it
/// would fit.
fn matches_at(s: &str, pat: &Vec<char>, i: usize) -> (r: bool)
    requires
        s@.len() <= usize::MAX,
        i + pat@.len() <= s@.len(),
    ensures
        r == occurs_at(s@, pat@, i as int),
{
    let mut j: usize = 0;
    while j < pat.len()
        invariant
            j <= pat@.len(),
            s@.len() <= usize::MAX,
            i + pat@.len() <= s@.len(),
            forall|t: int| 0 <= t < j ==> s@[i + t] == pat@[t],
        decreases pat@.len() - j,
    {
        if s.get_char(i + j) != pat[j] {
            proof {
                assert(s@[i + j as int] != pat@[j as int]);
            }
            return false;
        }
        j = j + 1;
    }
    true
}

/// Finds the first occurrence of `pat` in `s` at or after `from`.
pub(crate) fn find_first_occurrence(s: &str, pat: &Vec<char>, from: usize) -> (r: Option<usize>)
    requires
        from as int <= s@.len(),
        pat@.len() > 0,
    ensures
        r is None ==> first_occurrence_from(s@, pat@, from as int) is None,
        r matches Some(p) ==> first_occurrence_from(s@, pat@, from as int) == Some(p as int)
            && from <= p && p + pat@.len() <= s@.len(),
{
    let n = s.unicode_len();
    let mut i: usize = from;
    while n - i >= pat.len() && !matches_at(s, pat, i)
        invariant
            from <= i <= n,
            n as nat == s@.len(),
            no_occurrence_in(s@, pat@, from as int, i as int),
            pat@.len() > 0,
        decreases n - i,
    {
        i = i + 1;
    }
    if n - i >= pat.len() {
        proof {
            lemma_first_occurrence_found(s@, pat@, from as int, i as int);
        }
        Some(i)
    } else {
        proof {
            assert forall|q: int| from <= q < s@.len() implies !occurs_at(s@, pat@, q) by {
                if q >= i {
                    assert(q + pat@.len() > s@.len());
                }
            }
            lemma_first_occurrence_not_found(s@, pat@, from as int);
        }
        None
    }
}

/// Locates a suppression directive within a comment's text.  A match is
/// reported exactly when `scan` reports one, at the same place, and the
/// reported range carries the keyword of the reported kind.
pub fn find_directive(text: &str, single_line: bool) -> (r: Option<MatchResult>)
    ensures
        r is None <==> scan(text@, single_line) is None,
        r matches Some(m) ==> scan(text@, single_line) == Some((m.kind, m.start as int))
            && m.end == m.start + keyword_token(m.kind).len() && occurs_at(
            text@,
            keyword_token(m.kind),
            m.start as int,
        ),
{
    let n = text.unicode_len();
    let from = find_last_line_start(text);
    let prefix = source_prefix_chars();
    let found = find_first_occurrence(text, &prefix, from);
    match found {
        None => None,
        Some(p) => {
            let mut j: usize = from;
            while j < p
                invariant
                    from <= j <= p,
                    p as int + source_prefix().len() <= text@.len(),
                    from as int == last_line_start(text@),
                    first_occurrence_from(text@, source_prefix(), from as int) == Some(p as int),
                    forall|t: int| from <= t < j ==> allowed_lead(text@[t], single_line),
                decreases p - j,
            {
                if !allowed_lead_char(text.get_char(j), single_line) {
                    proof {
                        assert(!lead_ok(text@, from as int, p as int, single_line));
                    }
                    return None;
                }
                j = j + 1;
            }
            proof {
                assert(lead_ok(text@, from as int, p as int, single_line));
            }
            let k = p + prefix.len();
            let kw_next_line = keyword_chars(DirectiveKind::DisableNextLine);
            if n - k >= kw_next_line.len() && matches_at(text, &kw_next_line, k) {
                Some(
                    MatchResult {
                        kind: DirectiveKind::DisableNextLine,
                        start: k,
                        end: k + kw_next_line.len(),
                    },
                )
            } else {
                let kw = keyword_chars(DirectiveKind::Disable);
                if n - k >= kw.len() && matches_at(text, &kw, k) {
                    Some(MatchResult { kind: DirectiveKind::Disable, start: k, end: k + kw.len() })
                } else {
                    proof {
                        assert(!occurs_at(text@, keyword_token(DirectiveKind::DisableNextLine), k as int));
                        assert(!occurs_at(text@, keyword_token(DirectiveKind::Disable), k as int));
                    }
                    None
                }
            }
        },
    }
}

/// Finds the suppression directive in a comment's text and hands back the
/// matched keyword as a slice of that text.
pub fn find_eslint_comment_directive(raw: &str, single_line: bool) -> (r: Option<&str>)
    ensures
        r is None <==> scan(raw@, single_line) is None,
        r matches Some(d) ==> scan(raw@, single_line) matches Some((kind, start)) && d@
            == keyword_token(kind) && d@ == raw@.subrange(start, start + keyword_token(kind).len()),
{
    match find_directive(raw, single_line) {
        None => None,
        Some(m) => {
            let d = raw.substring_char(m.start, m.end);
            proof {
                assert(d@ =~= keyword_token(m.kind));
            }
            Some(d)
        },
    }
}

} // verus!
