//! Declarations of the outside parser's tree types, so that values of them
//! can pass through signatures; Verus sees nothing inside such a value.

use vstd::prelude::*;

verus! {

#[verifier::external_type_specification]
#[verifier::external_body]
pub struct ExMdastNode(markdown::mdast::Node);

#[verifier::external_type_specification]
#[verifier::external_body]
pub struct ExAttributeContent(markdown::mdast::AttributeContent);

} // verus!
