//! The lint rule around the scanner and the rewrite engine: for one comment,
//! the detected directive and the corrected text, plus the wording of the
//! diagnostic for each directive kind.

use vstd::prelude::*;

use crate::rewriter::{rewrite, rewritten};
use crate::scanner::{find_directive, scan};
use crate::tokens::DirectiveKind;

verus! {

/// Reports comments that carry an `eslint-` suppression directive and offers
/// the text renamed to the `oxlint-` namespace as a suggestion.
#[derive(Debug, Default, Clone)]
pub struct NoEslintDisableComments;

impl NoEslintDisableComments {
    /// Inspects one comment's text: the detected directive kind together
    /// with the corrected text, or nothing when the comment carries no
    /// directive.
    pub fn check_comment(&self, raw: &str, single_line: bool) -> (r: Option<
        (DirectiveKind, String),
    >)
        ensures
            r is None <==> scan(raw@, single_line) is None,
            r matches Some((kind, fix)) ==> scan(raw@, single_line) matches Some((k, _)) && kind
                == k && fix@ == rewritten(raw@, kind),
    {
        match find_directive(raw, single_line) {
            None => None,
            Some(m) => {
                let fix = rewrite(raw, m.kind);
                Some((m.kind, fix))
            },
        }
    }

    /// The warning text of the diagnostic, the same for both kinds.
    pub fn warn_message(&self) -> (r: &'static str)
        ensures
            r@ == "Detected eslint disable comment"@,
    {
        "Detected eslint disable comment"
    }

    /// The help text of the diagnostic, distinguishing the two kinds.
    pub fn help_message(&self, kind: DirectiveKind) -> (r: &'static str)
        ensures
            kind == DirectiveKind::Disable ==> r@ == "Prefer oxlint-disable instead of eslint-disable"@,
            kind == DirectiveKind::DisableNextLine ==> r@
                == "Prefer oxlint-disable-next-line instead of eslint-disable-next-line"@,
    {
        match kind {
            DirectiveKind::Disable => "Prefer oxlint-disable instead of eslint-disable",
            DirectiveKind::DisableNextLine => "Prefer oxlint-disable-next-line instead of eslint-disable-next-line",
        }
    }
}

} // verus!
