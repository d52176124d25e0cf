use std::str::FromStr;
use subxt::utils::AccountId32;
use vstd::prelude::*;
use vstd::string::StrSliceExecFns;

verus! {

/// The longest text, in characters, that is handed to the decoder: the
/// size in bytes of the buffer that its base58 step decodes into. A longer
/// text cannot hold a 32-byte account, and one that starts with enough `1`s
/// makes that step slice out of range.
pub const MAX_ADDRESS_CHARS: usize = 132;

/// Whether `AccountId32::from_str` accepts a text as an SS58 account address.
/// Decoding involves base58 and a Blake2b checksum, so the result is named
/// rather than spelled out; it depends on the text alone.
pub uninterp spec fn address_decodes(text: Seq<char>) -> bool;

/// A well-formed account address: short enough to be decoded, and accepted
/// by the decoder.
pub open spec fn valid_address(text: Seq<char>) -> bool {
    text.len() <= MAX_ADDRESS_CHARS && address_decodes(text)
}

/// Calls `subxt::utils::AccountId32::from_str` and reports whether it
/// returned `Ok`. The contract only gives that answer its name: nothing is
/// proved about which texts decode. Texts of more than `MAX_ADDRESS_CHARS`
/// characters are left out, because the base58 decoding underneath can
/// panic on them.
#[verifier::external_body]
fn account_id_parses(text: &str) -> (ok: bool)
    requires
        text@.len() <= MAX_ADDRESS_CHARS,
    ensures
        ok == address_decodes(text@),
{
    AccountId32::from_str(text).is_ok()
}

/// Decides whether a text is a well-formed account address. A text that is
/// too long to be one is rejected without being decoded.
pub fn is_valid_address(text: &str) -> (ok: bool)
    ensures
        ok == valid_address(text@),
{
    if text.unicode_len() > MAX_ADDRESS_CHARS {
        false
    } else {
        account_id_parses(text)
    }
}

} // verus!
