use vstd::prelude::*;

verus! {

/// The identifier that Inflector's `to_pascal_case` makes of a text.
pub uninterp spec fn pascal_case(s: Seq<char>) -> Seq<char>;

/// Calls `inflector::cases::pascalcase::to_pascal_case`, which reads its
/// argument once and builds the identifier from nothing else. Nothing is
/// proved of the result but that it is the same for the same text.
#[verifier::external_body]
pub(crate) fn to_pascal_case(s: &str) -> (r: String)
    ensures
        r@ == pascal_case(s@),
{
    inflector::cases::pascalcase::to_pascal_case(s)
}

} // verus!
