//! Identifiers of blocks, variables and targets.

use rand::Rng;
use vstd::prelude::*;

verus! {

/// The number of characters of an identifier.
pub const UUID_LEN: usize = 20;

/// Whether `s` has the form of an identifier: twenty characters, each a
/// printable ASCII character other than the space, from `!` to `~`.
pub open spec fn is_uuid(s: Seq<char>) -> bool {
    &&& s.len() == UUID_LEN
    &&& forall|i: int| 0 <= i < s.len() ==> '!' <= #[trigger] s[i] <= '~'
}

/// The text whose characters have the codes `bytes`.
pub open spec fn text_of(bytes: Seq<u8>) -> Seq<char> {
    Seq::new(bytes.len(), |i: int| bytes[i] as char)
}

/// `rand::Rng::gen_range` on the generator of `rand::thread_rng`, asked for
/// a byte of the half-open range from `low` to `high`: the byte that comes
/// back lies in that range. Nothing else is known of it, and two calls may
/// give different bytes. The range must not be empty.
#[verifier::external_body]
fn random_byte(low: u8, high: u8) -> (b: u8)
    requires
        low < high,
    ensures
        low <= b < high,
{
    rand::thread_rng().gen_range(low..high)
}

/// Gives the text whose characters have the codes `bytes`, in order.
pub fn bytes_to_text(bytes: &Vec<u8>) -> (r: String)
    ensures
        r@ == text_of(bytes@),
{
    let mut res = String::new();
    let mut i: usize = 0;
    while i < bytes.len()
        invariant
            i <= bytes.len(),
            res@ == text_of(bytes@.take(i as int)),
        decreases bytes.len() - i,
    {
        res.push(bytes[i] as char);
        assert(res@ =~= text_of(bytes@.take(i + 1)));
        i = i + 1;
    }
    assert(bytes@.take(i as int) =~= bytes@);
    res
}

/// Makes a new identifier at random: twenty characters from `!` to `~`,
/// each drawn by itself.
pub fn uuid() -> (r: String)
    ensures
        is_uuid(r@),
{
    let mut bytes: Vec<u8> = Vec::new();
    while bytes.len() < UUID_LEN
        invariant
            bytes.len() <= UUID_LEN,
            forall|k: int| 0 <= k < bytes.len() ==> 33 <= #[trigger] bytes[k] < 127,
        decreases UUID_LEN - bytes.len(),
    {
        bytes.push(random_byte(33, 127));
    }
    bytes_to_text(&bytes)
}

} // verus!
