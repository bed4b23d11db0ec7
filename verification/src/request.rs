//! The first decision of the proxy and VPN servers on a message: whether it
//! names a customer to act on.

use vstd::prelude::*;
use crate::number::{parse_customer_id, parses_as_usize, strip_plus, value};
use crate::text::{chars_of, string_of};

verus! {

/// The customer number that a message names: the number that the whole text
/// denotes, or 0 where it is not a number that fits in `usize`.
pub open spec fn requested_id(text: Seq<char>) -> nat {
    if parses_as_usize(text) {
        value(strip_plus(text))
    } else {
        0
    }
}

/// The answer to a message that is not a customer number.
pub open spec fn invalid_id_reply() -> Seq<char> {
    "Invalid Customer ID"@
}

/// What a server does with a received text.
pub enum RequestDecision {
    /// Act for this customer.
    Accept(usize),
    /// Answer with this text and go on with the next message.
    Reply(String),
    /// Go on with the next message.
    Ignore,
}

/// The decision on a received text: a positive customer number is acted on;
/// anything else is answered as invalid where `answer_invalid` holds, and
/// ignored where it does not.
pub fn decide_request(text: &str, answer_invalid: bool) -> (d: RequestDecision)
    ensures
        requested_id(text@) > 0 ==> d == RequestDecision::Accept(requested_id(text@) as usize),
        requested_id(text@) == 0 && answer_invalid ==> (d matches RequestDecision::Reply(r) && r@
            == invalid_id_reply()),
        requested_id(text@) == 0 && !answer_invalid ==> d is Ignore,
{
    let id = parse_customer_id(text);
    if id > 0 {
        RequestDecision::Accept(id)
    } else if answer_invalid {
        RequestDecision::Reply(string_of(chars_of("Invalid Customer ID").as_slice()))
    } else {
        RequestDecision::Ignore
    }
}

} // verus!
