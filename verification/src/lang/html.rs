//! HTML comment syntax.
use vstd::prelude::*;
use vstd::string::StringSliceAdditionalSpecFns;
use super::{SyntaxRule, rules_wf};

verus! {

/// The rule sequence of HTML.
pub open spec fn syntax_rule_seq() -> Seq<SyntaxRule> {
    seq![
        SyntaxRule::BlockComment("<!--", "-->"),
    ]
}

/// The syntax rules of HTML.
pub fn syntax_rules() -> (r: Vec<SyntaxRule>)
    ensures
        rules_wf(r@),
        r@ == syntax_rule_seq(),
{
    proof {
        reveal_strlit("<!--");
    }
    vec![
        SyntaxRule::BlockComment("<!--", "-->"),
    ]
}

} // verus!
