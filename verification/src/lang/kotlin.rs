//! Kotlin comment syntax.
use vstd::prelude::*;
use vstd::string::StringSliceAdditionalSpecFns;
use super::{SyntaxRule, rules_wf};

verus! {

/// The rule sequence of Kotlin.
pub open spec fn syntax_rule_seq() -> Seq<SyntaxRule> {
    seq![
        SyntaxRule::LineComment("//"),
        SyntaxRule::BlockComment("/*", "*/"),
        SyntaxRule::SkipDelimited("\"\"\"", "\"\"\""),
        SyntaxRule::SkipDelimitedWithEscape("\"", "\"", 92u8),
    ]
}

/// The syntax rules of Kotlin.
pub fn syntax_rules() -> (r: Vec<SyntaxRule>)
    ensures
        rules_wf(r@),
        r@ == syntax_rule_seq(),
{
    proof {
        reveal_strlit("//");
        reveal_strlit("/*");
        reveal_strlit("\"\"\"");
        reveal_strlit("\"");
    }
    vec![
        SyntaxRule::LineComment("//"),
        SyntaxRule::BlockComment("/*", "*/"),
        SyntaxRule::SkipDelimited("\"\"\"", "\"\"\""),
        SyntaxRule::SkipDelimitedWithEscape("\"", "\"", 92u8),
    ]
}

} // verus!
