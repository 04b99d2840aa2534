//! Text in quotation marks, as it is shown inside messages.

use vstd::prelude::*;

verus! {

/// How `{:?}` renders a string slice: quoted, with special characters escaped.
pub uninterp spec fn quoted(s: Seq<char>) -> Seq<char>;

/// `format!` with `{:?}` on a string slice. The rendering depends on the text
/// alone; the claim is only that it is [`quoted`] of it.
#[verifier::external_body]
pub(crate) fn quote(s: &str) -> (r: String)
    ensures
        r@ == quoted(s@),
{
    format!("{s:?}")
}

} // verus!
