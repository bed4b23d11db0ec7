//! The API server's listener for customers' public keys.

use vstd::prelude::*;
use crate::text::{chars_of, remove_all, remove_all_chars, starts_with_chars, string_of};

verus! {

/// The prefix that marks a message as a public key.
pub open spec fn key_prefix() -> Seq<char> {
    "public_key:"@
}

/// The key that a message carries: where the message begins with
/// `public_key:`, the message with every `public_key:` in it removed.
pub fn extract_public_key(text: &str) -> (r: Option<String>)
    ensures
        key_prefix().is_prefix_of(text@) ==> (r matches Some(k) && k@ == remove_all(text@, key_prefix())),
        !key_prefix().is_prefix_of(text@) ==> r is None,
{
    let v = chars_of(text);
    let prefix = chars_of("public_key:");
    if starts_with_chars(v.as_slice(), prefix.as_slice()) {
        proof {
            reveal_strlit("public_key:");
        }
        Some(string_of(remove_all_chars(v.as_slice(), prefix.as_slice()).as_slice()))
    } else {
        None
    }
}

/// The answer to every text message.
pub fn key_received_reply() -> (r: String)
    ensures
        r@ == "Key received"@,
{
    string_of(chars_of("Key received").as_slice())
}

} // verus!
