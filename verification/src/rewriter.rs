//! The rewrite engine: renames the namespace prefix of a detected directive
//! by replacing the first occurrence of the source token in the whole text
//! with the target token, byte for byte elsewhere.

use vstd::prelude::*;
use vstd::string::{StrSliceExecFns, StringExecFns};

use crate::scanner::{find_first_occurrence, keyword_chars, source_prefix_chars};
use crate::tokens::{first_occurrence_from, source_token, target_token, DirectiveKind};

verus! {

/// The rewritten text, as a mathematical function: the first occurrence of
/// the source token replaced by the target token, and the text unchanged
/// when no occurrence exists.
pub open spec fn rewritten(s: Seq<char>, kind: DirectiveKind) -> Seq<char> {
    match first_occurrence_from(s, source_token(kind), 0) {
        None => s,
        Some(p) => s.subrange(0, p) + target_token(kind) + s.subrange(
            p + source_token(kind).len(),
            s.len() as int,
        ),
    }
}

/// Builds the full source token of a directive kind as executable
/// characters.
fn source_token_chars(kind: DirectiveKind) -> (v: Vec<char>)
    ensures
        v@ == source_token(kind),
{
    let mut v = source_prefix_chars();
    let mut kw = keyword_chars(kind);
    v.append(&mut kw);
    v
}

/// Computes the corrected comment text for a detected directive kind:
/// exactly `rewritten` of the input.
pub fn rewrite(text: &str, kind: DirectiveKind) -> (r: String)
    ensures
        r@ == rewritten(text@, kind),
{
    let n = text.unicode_len();
    let token = source_token_chars(kind);
    match find_first_occurrence(text, &token, 0) {
        None => String::from_str(text),
        Some(p) => {
            let mut out = String::new();
            out.append(text.substring_char(0, p));
            match kind {
                DirectiveKind::Disable => {
                    out.append("oxlint-disable");
                    proof {
                        reveal_strlit("oxlint-disable");
                        assert(("oxlint-disable")@ =~= target_token(kind));
                    }
                },
                DirectiveKind::DisableNextLine => {
                    out.append("oxlint-disable-next-line");
                    proof {
                        reveal_strlit("oxlint-disable-next-line");
                        assert(("oxlint-disable-next-line")@ =~= target_token(kind));
                    }
                },
            }
            out.append(text.substring_char(p + token.len(), n));
            proof {
                assert(out@ =~= rewritten(text@, kind));
            }
            out
        },
    }
}

} // verus!
