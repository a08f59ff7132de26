//! Markdown comment syntax.
use vstd::prelude::*;
use vstd::string::StringSliceAdditionalSpecFns;
use super::{SyntaxRule, rules_wf};

verus! {

/// The rule sequence of Markdown.
pub open spec fn syntax_rule_seq() -> Seq<SyntaxRule> {
    seq![
        SyntaxRule::BlockComment("<!--", "-->"),
        SyntaxRule::SkipDelimited("```", "```"),
        SyntaxRule::SkipDelimited("`", "`"),
    ]
}

/// The syntax rules of Markdown.
pub fn syntax_rules() -> (r: Vec<SyntaxRule>)
    ensures
        rules_wf(r@),
        r@ == syntax_rule_seq(),
{
    proof {
        reveal_strlit("<!--");
        reveal_strlit("```");
        reveal_strlit("`");
    }
    vec![
        SyntaxRule::BlockComment("<!--", "-->"),
        SyntaxRule::SkipDelimited("```", "```"),
        SyntaxRule::SkipDelimited("`", "`"),
    ]
}

} // verus!
