//! CSS, SCSS and Less comment syntax.
use vstd::prelude::*;
use vstd::string::StringSliceAdditionalSpecFns;
use super::{SyntaxRule, rules_wf};

verus! {

/// The rule sequence of CSS.
pub open spec fn css_rule_seq() -> Seq<SyntaxRule> {
    seq![
        SyntaxRule::BlockComment("/*", "*/"),
        SyntaxRule::SkipDelimitedWithEscape("\"", "\"", 92u8),
        SyntaxRule::SkipDelimitedWithEscape("'", "'", 92u8),
    ]
}

/// The syntax rules of CSS.
pub fn css_rules() -> (r: Vec<SyntaxRule>)
    ensures
        rules_wf(r@),
        r@ == css_rule_seq(),
{
    proof {
        reveal_strlit("/*");
        reveal_strlit("\"");
        reveal_strlit("'");
    }
    vec![
        SyntaxRule::BlockComment("/*", "*/"),
        SyntaxRule::SkipDelimitedWithEscape("\"", "\"", 92u8),
        SyntaxRule::SkipDelimitedWithEscape("'", "'", 92u8),
    ]
}

/// The rule sequence of SCSS.
pub open spec fn scss_rule_seq() -> Seq<SyntaxRule> {
    seq![
        SyntaxRule::LineComment("//"),
        SyntaxRule::BlockComment("/*", "*/"),
        SyntaxRule::SkipDelimitedWithEscape("\"", "\"", 92u8),
        SyntaxRule::SkipDelimitedWithEscape("'", "'", 92u8),
    ]
}

/// The syntax rules of SCSS.
pub fn scss_rules() -> (r: Vec<SyntaxRule>)
    ensures
        rules_wf(r@),
        r@ == scss_rule_seq(),
{
    proof {
        reveal_strlit("//");
        reveal_strlit("/*");
        reveal_strlit("\"");
        reveal_strlit("'");
    }
    vec![
        SyntaxRule::LineComment("//"),
        SyntaxRule::BlockComment("/*", "*/"),
        SyntaxRule::SkipDelimitedWithEscape("\"", "\"", 92u8),
        SyntaxRule::SkipDelimitedWithEscape("'", "'", 92u8),
    ]
}

/// The rule sequence of Less.
pub open spec fn less_rule_seq() -> Seq<SyntaxRule> {
    seq![
        SyntaxRule::LineComment("//"),
        SyntaxRule::BlockComment("/*", "*/"),
        SyntaxRule::SkipDelimitedWithEscape("\"", "\"", 92u8),
        SyntaxRule::SkipDelimitedWithEscape("'", "'", 92u8),
    ]
}

/// The syntax rules of Less.
pub fn less_rules() -> (r: Vec<SyntaxRule>)
    ensures
        rules_wf(r@),
        r@ == less_rule_seq(),
{
    proof {
        reveal_strlit("//");
        reveal_strlit("/*");
        reveal_strlit("\"");
        reveal_strlit("'");
    }
    vec![
        SyntaxRule::LineComment("//"),
        SyntaxRule::BlockComment("/*", "*/"),
        SyntaxRule::SkipDelimitedWithEscape("\"", "\"", 92u8),
        SyntaxRule::SkipDelimitedWithEscape("'", "'", 92u8),
    ]
}

} // verus!
