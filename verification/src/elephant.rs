//! The mascot: stored base64-encoded, decoded on demand.

use vstd::prelude::*;

verus! {

/// The text a base64 string decodes to, when it is valid base64 and
/// valid UTF-8; the outcome depends on the input string alone.
pub uninterp spec fn base64_text(s: Seq<char>) -> Option<Seq<char>>;

/// Relies on base64::decode (the standard alphabet) and UTF-8 decoding:
/// both outcomes are functions of the input string alone.
#[verifier::external_body]
#[allow(deprecated)]
fn decode_base64_text(s: &str) -> (r: Option<String>)
    ensures
        r is Some <==> base64_text(s@) is Some,
        r is Some ==> r->0@ == base64_text(s@)->0,
{
    base64::decode(s).ok().and_then(|raw| String::from_utf8(raw).ok())
}

/// Decode the mascot picked from the encoded collection; the caller
/// supplies the pick, which the program draws at random.
pub fn elephant(mascots: &Vec<String>, pick: usize) -> (r: Option<String>)
    ensures
        r is Some <==> (pick < mascots@.len() && base64_text(
            mascots.deep_view()[pick as int],
        ) is Some),
        r is Some ==> r->0@ == base64_text(mascots.deep_view()[pick as int])->0,
{
    if pick < mascots.len() {
        assert(mascots.deep_view()[pick as int] == mascots@[pick as int]@);
        decode_base64_text(mascots[pick].as_str())
    } else {
        None
    }
}

} // verus!
