//! Dockerfile comment syntax.
use vstd::prelude::*;
use vstd::string::StringSliceAdditionalSpecFns;
use super::{CustomRule, SyntaxRule, rules_wf};

verus! {

/// The rule sequence of Dockerfile.
pub open spec fn syntax_rule_seq() -> Seq<SyntaxRule> {
    seq![
        SyntaxRule::LineComment("#"),
        SyntaxRule::SkipDelimitedWithEscape("\"", "\"", 92u8),
        SyntaxRule::Custom(CustomRule::ShEscapedSingleQuote),
        SyntaxRule::SkipDelimited("'", "'"),
    ]
}

/// The syntax rules of Dockerfile.
pub fn syntax_rules() -> (r: Vec<SyntaxRule>)
    ensures
        rules_wf(r@),
        r@ == syntax_rule_seq(),
{
    proof {
        reveal_strlit("#");
        reveal_strlit("\"");
        reveal_strlit("'");
    }
    vec![
        SyntaxRule::LineComment("#"),
        SyntaxRule::SkipDelimitedWithEscape("\"", "\"", 92u8),
        SyntaxRule::Custom(CustomRule::ShEscapedSingleQuote),
        SyntaxRule::SkipDelimited("'", "'"),
    ]
}

} // verus!
