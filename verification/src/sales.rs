//! The report of the sales demonstration: one line for each sale.

use vstd::prelude::*;
use vstd::string::StringExecFns;
use crate::decimal::{push_signed_decimal, signed_decimal};

verus! {

/// The line that reports one sale: when it was made, how much of what was
/// sold, and in which unit.
pub open spec fn sale_report(
    date: i64,
    quantity: Seq<char>,
    unit: Seq<char>,
    name: Seq<char>,
) -> Seq<char> {
    "At instant "@ + signed_decimal(date as int) + ", "@ + quantity + " "@ + unit + " of "@ + name
        + " were sold."@
}

/// Writes the line that reports one sale. The quantity comes as the text
/// that writes it.
pub fn sale_line(date: i64, quantity: &str, unit: &str, name: &str) -> (line: String)
    ensures
        line@ == sale_report(date, quantity@, unit@, name@),
{
    let mut line = String::from_str("At instant ");
    push_signed_decimal(&mut line, date);
    line.append(", ");
    line.append(quantity);
    line.append(" ");
    line.append(unit);
    line.append(" of ");
    line.append(name);
    line.append(" were sold.");
    line
}

} // verus!
