//! The greeting that the service gives under `/hello`.

use vstd::prelude::*;
use vstd::string::StringExecFns;
use crate::decimal::{decimal, push_decimal};

verus! {

/// The greeting for a name and an age.
pub open spec fn greeting(name: Seq<char>, age: u8) -> Seq<char> {
    "Hello, "@ + decimal(age as nat) + " year old named "@ + name + "!"@
}

/// Greets `name`, who is `age` years old.
pub fn hello(name: String, age: u8) -> (text: String)
    ensures
        text@ == greeting(name@, age),
{
    let mut text = String::from_str("Hello, ");
    push_decimal(&mut text, age as u64);
    text.append(" year old named ");
    text.append(name.as_str());
    text.append("!");
    text
}

} // verus!
