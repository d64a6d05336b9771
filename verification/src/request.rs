//! Requests as the router hands them over, and their decoding into one
//! store operation.
//!
//! The router has matched verb and path and has tried to read the body as
//! a hero. What is left to decode is the id in the path, which arrives as
//! the bytes of its path segment.

use vstd::prelude::*;
use crate::hero::{Hero, HeroView};
use crate::store::{OpView, StoreOp};

verus! {

/// The digit `0` in ASCII; the other digits follow it in order.
pub const ZERO: u8 = 48;

/// The digit `9` in ASCII.
pub const NINE: u8 = 57;

/// The sign `+` in ASCII.
pub const PLUS: u8 = 43;

/// The sign `-` in ASCII.
pub const MINUS: u8 = 45;

/// Whether this byte is an ASCII decimal digit.
pub open spec fn is_digit(byte: u8) -> bool {
    ZERO <= byte <= NINE
}

/// Whether all of these bytes are ASCII decimal digits.
pub open spec fn all_digits(text: Seq<u8>) -> bool {
    forall|i: int| 0 <= i < text.len() ==> is_digit(#[trigger] text[i])
}

/// The number that a run of decimal digits writes, most significant first.
pub open spec fn digits_value(digits: Seq<u8>) -> int
    decreases digits.len(),
{
    if digits.len() == 0 {
        0
    } else {
        digits_value(digits.drop_last()) * 10 + (digits.last() - ZERO)
    }
}

/// Whether the text begins with a sign, `+` or `-`.
pub open spec fn has_sign(text: Seq<u8>) -> bool {
    text.len() > 0 && (text[0] == PLUS || text[0] == MINUS)
}

/// The digits of the text: all of it but a leading sign.
pub open spec fn digits_of(text: Seq<u8>) -> Seq<u8> {
    if has_sign(text) {
        text.drop_first()
    } else {
        text
    }
}

/// The integer that the text writes, with its sign, whatever its size.
pub open spec fn signed_value(text: Seq<u8>) -> int {
    if has_sign(text) && text[0] == MINUS {
        -digits_value(digits_of(text))
    } else {
        digits_value(digits_of(text))
    }
}

/// The id that a path segment writes: an optional sign, then one or more
/// decimal digits, for a number that a 32-bit signed integer can hold.
/// Leading zeros are allowed. Anything else writes no id.
pub open spec fn id_of(text: Seq<u8>) -> Option<i32> {
    if digits_of(text).len() > 0 && all_digits(digits_of(text)) && i32::MIN <= signed_value(text)
        <= i32::MAX {
        Some(signed_value(text) as i32)
    } else {
        None
    }
}

/// Digits never write a negative number, and more digits never write a
/// smaller one than the digits before them.
pub proof fn lemma_digits_value_grows(digits: Seq<u8>, upto: int)
    requires
        all_digits(digits),
        0 <= upto <= digits.len(),
    ensures
        0 <= digits_value(digits.subrange(0, upto)) <= digits_value(digits),
    decreases digits.len() - upto,
{
    if upto == digits.len() {
        assert(digits.subrange(0, upto) =~= digits);
        lemma_digits_value_is_natural(digits);
    } else {
        lemma_digits_value_grows(digits, upto + 1);
        let longer = digits.subrange(0, upto + 1);
        assert(longer.drop_last() =~= digits.subrange(0, upto));
        assert(is_digit(digits[upto]));
        assert(longer.last() == digits[upto]);
        lemma_digits_value_is_natural(digits.subrange(0, upto));
    }
}

/// One more digit multiplies what the digits before it write by ten and
/// adds its own value.
proof fn lemma_digits_value_step(digits: Seq<u8>, at: int)
    requires
        0 <= at < digits.len(),
        all_digits(digits.subrange(0, at)),
        is_digit(digits[at]),
    ensures
        all_digits(digits.subrange(0, at + 1)),
        digits_value(digits.subrange(0, at + 1)) == digits_value(digits.subrange(0, at)) * 10 + (
        digits[at] - ZERO),
{
    let shorter = digits.subrange(0, at);
    let longer = digits.subrange(0, at + 1);
    assert(longer.drop_last() =~= shorter);
    assert(longer.last() == digits[at]);
    assert forall|k: int| 0 <= k < longer.len() implies is_digit(#[trigger] longer[k]) by {
        if k < at {
            assert(longer[k] == shorter[k]);
        }
    }
}

/// Digits never write a negative number.
proof fn lemma_digits_value_is_natural(digits: Seq<u8>)
    requires
        all_digits(digits),
    ensures
        0 <= digits_value(digits),
    decreases digits.len(),
{
    if digits.len() > 0 {
        assert(is_digit(digits.last()));
        lemma_digits_value_is_natural(digits.drop_last());
    }
}

/// Reads the id that a path segment writes, if it writes one.
pub fn parse_id(text: &[u8]) -> (id: Option<i32>)
    ensures
        id == id_of(text@),
{
    let n = text.len();
    let mut start: usize = 0;
    let mut negative = false;
    if n > 0 && (text[0] == PLUS || text[0] == MINUS) {
        negative = text[0] == MINUS;
        start = 1;
    }
    let ghost digits = digits_of(text@);
    assert(digits =~= text@.subrange(start as int, n as int));
    if start == n {
        return None;
    }
    let mut value: i64 = 0;
    let mut i: usize = start;
    while i < n
        invariant
            start <= i <= n,
            n == text@.len(),
            digits == digits_of(text@),
            digits == text@.subrange(start as int, n as int),
            negative == (has_sign(text@) && text@[0] == MINUS),
            all_digits(digits.subrange(0, i - start)),
            value == digits_value(digits.subrange(0, i - start)),
            0 <= value <= 2147483648,
        decreases n - i,
    {
        let byte = text[i];
        if byte < ZERO || byte > NINE {
            assert(!is_digit(digits[i - start]));
            return None;
        }
        proof {
            lemma_digits_value_step(digits, i - start);
        }
        value = value * 10 + (byte - ZERO) as i64;
        if value > 2147483648 {
            proof {
                if all_digits(digits) {
                    lemma_digits_value_grows(digits, i - start + 1);
                }
            }
            return None;
        }
        i += 1;
    }
    assert(digits.subrange(0, n - start) =~= digits);
    if negative {
        Some((-value) as i32)
    } else if value == 2147483648 {
        None
    } else {
        Some(value as i32)
    }
}

/// A request that the router has matched to one of the four handlers.
#[derive(Debug, PartialEq, Eq)]
pub enum Request {
    /// List every hero.
    List,
    /// Create the hero of the body. `None` stands for a body that is
    /// missing or could not be read as a hero.
    Create { body: Option<Hero> },
    /// Overwrite the hero whose id the path segment `id` writes.
    Update { id: Vec<u8>, body: Option<Hero> },
    /// Remove the hero whose id the path segment `id` writes.
    Delete { id: Vec<u8> },
}

/// What a request is in contracts.
pub enum RequestView {
    List,
    Create { body: Option<HeroView> },
    Update { id: Seq<u8>, body: Option<HeroView> },
    Delete { id: Seq<u8> },
}

/// The view of a body that may be missing.
pub open spec fn body_view(body: Option<Hero>) -> Option<HeroView> {
    match body {
        Some(hero) => Some(hero@),
        None => None,
    }
}

impl View for Request {
    type V = RequestView;

    open spec fn view(&self) -> RequestView {
        match *self {
            Request::List => RequestView::List,
            Request::Create { body } => RequestView::Create { body: body_view(body) },
            Request::Update { id, body } => RequestView::Update { id: id@, body: body_view(body) },
            Request::Delete { id } => RequestView::Delete { id: id@ },
        }
    }
}

/// Why a request could not be decoded.
#[derive(Debug, Clone, Copy, PartialEq, Eq, Structural)]
pub enum DecodeError {
    /// The path segment writes no id.
    BadId,
    /// The body is missing or is no hero.
    BadBody,
}

/// The operation that a request asks for, or why it asks for none. An id
/// that cannot be read is reported before a body that cannot.
pub open spec fn decoded(request: RequestView) -> Result<OpView, DecodeError> {
    match request {
        RequestView::List => Ok(OpView::List),
        RequestView::Create { body } => match body {
            Some(hero) => Ok(OpView::Create { name: hero.name }),
            None => Err(DecodeError::BadBody),
        },
        RequestView::Update { id, body } => match (id_of(id), body) {
            (None, _) => Err(DecodeError::BadId),
            (Some(_), None) => Err(DecodeError::BadBody),
            (Some(id), Some(hero)) => Ok(OpView::Update { id, name: hero.name }),
        },
        RequestView::Delete { id } => match id_of(id) {
            Some(id) => Ok(OpView::Delete { id }),
            None => Err(DecodeError::BadId),
        },
    }
}

/// Decodes the parameters of a request. An id in the body of a create is
/// dropped; the body of an update takes the id of the path.
pub fn decode(request: Request) -> (result: Result<StoreOp, DecodeError>)
    ensures
        match result {
            Ok(op) => decoded(request@) == Ok::<OpView, DecodeError>(op@) && op.carries_its_id(),
            Err(error) => decoded(request@) == Err::<OpView, DecodeError>(error),
        },
{
    match request {
        Request::List => Ok(StoreOp::List),
        Request::Create { body } => match body {
            Some(hero) => Ok(StoreOp::Create(hero.with_id(None))),
            None => Err(DecodeError::BadBody),
        },
        Request::Update { id, body } => match parse_id(id.as_slice()) {
            None => Err(DecodeError::BadId),
            Some(id) => match body {
                Some(hero) => Ok(StoreOp::Update(id, hero.with_id(Some(id)))),
                None => Err(DecodeError::BadBody),
            },
        },
        Request::Delete { id } => match parse_id(id.as_slice()) {
            Some(id) => Ok(StoreOp::Delete(id)),
            None => Err(DecodeError::BadId),
        },
    }
}

} // verus!
