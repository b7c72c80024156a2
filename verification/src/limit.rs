use vstd::prelude::*;
use crate::error::QueryGraphBuilderError;
use crate::text::{decimal, push_decimal, push_signed_decimal, signed_decimal, text};
use crate::values::{ParsedInputValue, PrismaValue};

verus! {

/// The message of a negative limit.
pub open spec fn negative_limit_message(i: i64) -> Seq<char> {
    "Provided limit ("@ + signed_decimal(i as int) + ") must be a positive integer."@
}

/// The message of a limit that does not fit a `usize`.
pub open spec fn large_limit_message(i: i64) -> Seq<char> {
    "Provided limit ("@ + signed_decimal(i as int) + ") is beyond max int value for platform ("@ + decimal(
        usize::MAX as nat,
    ) + ")."@
}

/// The limit of a write, where the argument is an integer: it must not be negative, and must
/// fit a `usize`. Any other argument sets no limit.
pub fn validate_limit(limit_arg: Option<ParsedInputValue>) -> (r: Result<Option<usize>, QueryGraphBuilderError>)
    ensures
        match limit_arg {
            Option::Some(ParsedInputValue::Single(PrismaValue::Int(i))) => if i < 0 {
                r matches Err(QueryGraphBuilderError::InputError(m)) && m@ == negative_limit_message(i)
            } else if i > usize::MAX {
                r matches Err(QueryGraphBuilderError::InputError(m)) && m@ == large_limit_message(i)
            } else {
                r == Ok::<Option<usize>, QueryGraphBuilderError>(Option::Some(i as usize))
            },
            _ => r == Ok::<Option<usize>, QueryGraphBuilderError>(Option::None),
        },
{
    let limit = match limit_arg {
        Option::Some(ParsedInputValue::Single(PrismaValue::Int(i))) => Option::Some(i),
        _ => Option::None,
    };
    match limit {
        Option::Some(i) => {
            if i < 0 {
                let mut m = text("Provided limit (");
                push_signed_decimal(&mut m, i);
                m.append(") must be a positive integer.");
                return Err(QueryGraphBuilderError::InputError(m));
            }
            if (i as u64) > (usize::MAX as u64) {
                let mut m = text("Provided limit (");
                push_signed_decimal(&mut m, i);
                m.append(") is beyond max int value for platform (");
                push_decimal(&mut m, usize::MAX as u64);
                m.append(").");
                return Err(QueryGraphBuilderError::InputError(m));
            }
            Ok(Option::Some(i as usize))
        },
        Option::None => Ok(Option::None),
    }
}

} // verus!
