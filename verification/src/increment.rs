//! Building an increment statement for a named variable.

use vstd::prelude::*;

use crate::numeral::int_dec_rep;
use crate::numeral::int_literal_value;
use crate::numeral::is_i32_literal;
use crate::numeral::parse_i32;
use crate::numeral::i32_to_string;

verus! {

/// Why no increment statement could be produced from the arguments.
pub enum IncError {
    /// Too few arguments: no variable name was given.
    Usage,
    /// The amount argument is not a decimal integer that fits in an `i32`.
    InvalidAmount { text: String },
}

/// The default amount added when none is given.
pub const DEFAULT_AMOUNT: i32 = 1;

/// The increment statement for `variable_name` and `amount`, as text.
pub open spec fn increment_statement_rep(variable_name: Seq<char>, amount: int) -> Seq<char> {
    variable_name + " += "@ + int_dec_rep(amount) + ";"@
}

/// Renders the statement that adds `amount` to `variable_name`.
pub fn increment_statement(variable_name: &str, amount: i32) -> (r: String)
    ensures
        r@ == increment_statement_rep(variable_name@, amount as int),
{
    let mut out = String::from_str(variable_name);
    out.append(" += ");
    out.append(i32_to_string(amount).as_str());
    out.append(";");
    proof {
        assert(out@ =~= increment_statement_rep(variable_name@, amount as int));
    }
    out
}

/// Produces the increment statement for a full argument list, program name
/// first: the variable name is the first argument, the optional amount the
/// second, and any further arguments are ignored. With no amount given, the
/// variable is incremented by one.
pub fn increment_command(args: &Vec<String>) -> (r: Result<String, IncError>)
    ensures
        match r {
            Ok(out) => args@.len() >= 2 && {
                let amount: int = if args@.len() > 2 {
                    int_literal_value(args@[2]@)
                } else {
                    DEFAULT_AMOUNT as int
                };
                (args@.len() > 2 ==> is_i32_literal(args@[2]@)) && out@
                    == increment_statement_rep(args@[1]@, amount)
            },
            Err(IncError::Usage) => args@.len() < 2,
            Err(IncError::InvalidAmount { text }) => args@.len() > 2 && !is_i32_literal(args@[2]@)
                && text@ == args@[2]@,
        },
{
    if args.len() < 2 {
        return Err(IncError::Usage);
    }
    let amount: i32 = if args.len() > 2 {
        match parse_i32(args[2].as_str()) {
            Some(v) => v,
            None => {
                return Err(IncError::InvalidAmount { text: args[2].clone() });
            },
        }
    } else {
        DEFAULT_AMOUNT
    };
    Ok(increment_statement(args[1].as_str(), amount))
}

} // verus!
