//! Texts that stand for truth values and for addresses.
use vstd::prelude::*;
use vstd::utf8::*;

use crate::keys::Place;
use crate::store::Chain;

verus! {

/// The lowercase equivalent of `text`.
pub uninterp spec fn lowercase(text: Seq<char>) -> Seq<char>;

/// The lowercase equivalent of an ASCII character.
pub open spec fn ascii_lowercase(c: char) -> char {
    if 'A' <= c <= 'Z' {
        (c as u32 + 32) as char
    } else {
        c
    }
}

/// `str::to_lowercase`: the lowercase equivalent of a text. In a text of ASCII
/// characters each letter from `A` to `Z` becomes its small letter, and
/// nothing else changes.
#[verifier::external_body]
fn to_lowercase(text: &str) -> (lower: String)
    ensures
        lower@ == lowercase(text@),
        text.is_ascii() ==> lower@ == text@.map_values(|c: char| ascii_lowercase(c)),
{
    text.to_lowercase()
}

/// The lowercase equivalent of `text`, spelt out for ASCII characters.
pub open spec fn lowered(text: Seq<char>) -> Seq<char> {
    if is_ascii_chars(text) {
        text.map_values(|c: char| ascii_lowercase(c))
    } else {
        lowercase(text)
    }
}

/// Whether a text stands for `false`: the word in any case, or a zero.
pub open spec fn stands_for_false(text: Seq<char>) -> bool {
    lowered(text) == "false"@ || text == "0"@
}

/// Whether `lower`, the lowercase equivalent of `text`, or `text` itself makes
/// `text` stand for `false`.
pub fn is_false_word(text: &String, lower: &String) -> (is_false: bool)
    ensures
        is_false == (lower@ == "false"@ || text@ == "0"@),
{
    *lower == "false".to_owned() || *text == "0".to_owned()
}

/// Reads a text as a truth value: everything that does not stand for `false` is true.
pub fn is_true(text: &String) -> (is_true: bool)
    ensures
        is_true == !stands_for_false(text@),
{
    let lower = to_lowercase(text.as_str());
    !is_false_word(text, &lower)
}

/// Whether the chain takes a text for the address of an account.
pub uninterp spec fn is_address(chain: Chain, text: Seq<char>) -> bool;

/// Whether there is a cursor whose text the chain takes for an address.
pub open spec fn at_address(chain: Chain, cursor: Option<Place>) -> bool {
    match cursor {
        Some((text, _)) => is_address(chain, text),
        None => false,
    }
}

/// `cosmwasm_std::Api::addr_validate`: gives the text back if the chain takes it for
/// an address. An `Api` is stateless, so the answer depends on the text alone.
#[verifier::external_body]
pub(crate) fn validate_address(chain: &Chain, text: &str) -> (address: Option<String>)
    ensures
        match address {
            Some(address) => is_address(*chain, text@) && address@ == text@,
            None => !is_address(*chain, text@),
        },
{
    chain.0.api.addr_validate(text).ok().map(|address| address.into_string())
}

} // verus!
