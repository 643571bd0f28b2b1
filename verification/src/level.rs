//! The closed set of difficulty tiers and its canonical string tokens.

use vstd::prelude::*;

verus! {

use vstd::string::StringExecFns;

/// One of the five difficulty tiers, ordered from most to least advanced.
/// A tier is persisted as a lowercase token, `"n1"` through `"n5"`.
#[derive(Debug, Copy, Clone, PartialEq, Eq, Structural)]
pub enum JLPTlv {
    N1,
    N2,
    N3,
    N4,
    N5,
}

/// The canonical token under which a tier is persisted.
pub open spec fn level_token(lv: JLPTlv) -> Seq<char> {
    match lv {
        JLPTlv::N1 => "n1"@,
        JLPTlv::N2 => "n2"@,
        JLPTlv::N3 => "n3"@,
        JLPTlv::N4 => "n4"@,
        JLPTlv::N5 => "n5"@,
    }
}

/// The tier named by a token, or `None` for any unrecognized token.
pub open spec fn parse_level(s: Seq<char>) -> Option<JLPTlv> {
    if s == "n1"@ {
        Some(JLPTlv::N1)
    } else if s == "n2"@ {
        Some(JLPTlv::N2)
    } else if s == "n3"@ {
        Some(JLPTlv::N3)
    } else if s == "n4"@ {
        Some(JLPTlv::N4)
    } else if s == "n5"@ {
        Some(JLPTlv::N5)
    } else {
        None
    }
}

/// Whether a token names one of the five tiers.
pub open spec fn valid_level(s: Seq<char>) -> bool {
    parse_level(s) is Some
}

/// Each tier's token parses back to that tier: the mapping between tiers
/// and tokens is bijective.
pub proof fn lemma_level_token_round_trip(lv: JLPTlv)
    ensures
        parse_level(level_token(lv)) == Some(lv),
        valid_level(level_token(lv)),
{
    reveal_strlit("n1");
    reveal_strlit("n2");
    reveal_strlit("n3");
    reveal_strlit("n4");
    reveal_strlit("n5");
    assert("n1"@[1] == '1' && "n2"@[1] == '2' && "n3"@[1] == '3' && "n4"@[1] == '4'
        && "n5"@[1] == '5');
}

impl JLPTlv {
    /// The canonical token of this tier, as an owned string.
    pub fn to_string(&self) -> (r: String)
        ensures
            r@ == level_token(*self),
    {
        match self {
            JLPTlv::N1 => String::from_str("n1"),
            JLPTlv::N2 => String::from_str("n2"),
            JLPTlv::N3 => String::from_str("n3"),
            JLPTlv::N4 => String::from_str("n4"),
            JLPTlv::N5 => String::from_str("n5"),
        }
    }

    /// Parses a token; an unrecognized token yields `None` rather than an
    /// error, so callers can treat it as a validation failure.
    pub fn from_string(jlpt: &str) -> (r: Option<JLPTlv>)
        ensures
            r == parse_level(jlpt@),
    {
        let s = String::from_str(jlpt);
        if s == String::from_str("n1") {
            Some(JLPTlv::N1)
        } else if s == String::from_str("n2") {
            Some(JLPTlv::N2)
        } else if s == String::from_str("n3") {
            Some(JLPTlv::N3)
        } else if s == String::from_str("n4") {
            Some(JLPTlv::N4)
        } else if s == String::from_str("n5") {
            Some(JLPTlv::N5)
        } else {
            None
        }
    }
}

} // verus!
