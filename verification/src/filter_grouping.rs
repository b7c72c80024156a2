use vstd::prelude::*;
use crate::error::QueryGraphBuilderError;
use crate::text::{lowercase, lowercase_equals, text};

verus! {

/// The boolean connective that a filter key names.
#[derive(Debug, Clone, Copy, PartialEq, Eq, Structural)]
pub enum FilterGrouping {
    And,
    Or,
    Not,
}

/// The message of the error for a key that names no connective.
pub open spec fn invalid_grouping_message(s: Seq<char>) -> Seq<char> {
    s + " is not a valid grouping filter operation"@
}

impl FilterGrouping {
    /// The connective that `s` names, ignoring the case of ASCII letters: `and`, `or` or `not`.
    /// Any other key is an input error.
    pub fn from_str(s: &str) -> (r: Result<FilterGrouping, QueryGraphBuilderError>)
        ensures
            lowercase(s@) == "and"@ ==> r == Ok::<FilterGrouping, QueryGraphBuilderError>(FilterGrouping::And),
            lowercase(s@) == "or"@ ==> r == Ok::<FilterGrouping, QueryGraphBuilderError>(FilterGrouping::Or),
            lowercase(s@) == "not"@ ==> r == Ok::<FilterGrouping, QueryGraphBuilderError>(FilterGrouping::Not),
            lowercase(s@) != "and"@ && lowercase(s@) != "or"@ && lowercase(s@) != "not"@ ==> (r matches Err(
                QueryGraphBuilderError::InputError(m),
            ) && m@ == invalid_grouping_message(s@)),
    {
        proof {
            reveal_strlit("and");
            reveal_strlit("or");
            reveal_strlit("not");
            assert("and"@ != "or"@) by {
                assert("and"@.len() != "or"@.len());
            }
            assert("and"@ != "not"@) by {
                assert("and"@[0] != "not"@[0]);
            }
            assert("or"@ != "not"@) by {
                assert("or"@.len() != "not"@.len());
            }
        }
        if lowercase_equals(s, "and") {
            Ok(FilterGrouping::And)
        } else if lowercase_equals(s, "or") {
            Ok(FilterGrouping::Or)
        } else if lowercase_equals(s, "not") {
            Ok(FilterGrouping::Not)
        } else {
            let mut m = text(s);
            m.append(" is not a valid grouping filter operation");
            Err(QueryGraphBuilderError::InputError(m))
        }
    }
}

} // verus!
