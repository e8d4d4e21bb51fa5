use vstd::prelude::*;
use vstd::string::StringExecFns;

verus! {

/// The Base58 text (Bitcoin alphabet) of a byte string.
pub uninterp spec fn base58_of(b: Seq<u8>) -> Seq<char>;

/// Relies on `bs58::encode(..).into_string()`: the Base58 text of the bytes,
/// which holds one digit at least for each input of one byte or more.
#[verifier::external_body]
fn base58(b: &Vec<u8>) -> (r: String)
    ensures
        r@ == base58_of(b@),
        b@.len() > 0 ==> r@.len() > 0,
{
    bs58::encode(b).into_string()
}

/// The key under which a poll is addressed by callers.
pub open spec fn external_key(owner: Seq<char>, poll_id: Seq<char>) -> Seq<char> {
    "owner="@ + owner + "&voting="@ + poll_id
}

/// A poll identifier: the Base58 text of a digest of fresh randomness.
pub fn generate_id(digest: &Vec<u8>) -> (r: String)
    ensures
        r@ == base58_of(digest@),
        digest@.len() > 0 ==> r@.len() > 0,
{
    base58(digest)
}

/// Builds `owner=<owner>&voting=<poll_id>`.
pub fn make_external_key(owner: &String, poll_id: &String) -> (r: String)
    ensures
        r@ == external_key(owner@, poll_id@),
{
    let mut key = String::from_str("owner=");
    key.append(owner.as_str());
    key.append("&voting=");
    key.append(poll_id.as_str());
    key
}

/// For one owner, distinct poll identifiers give distinct external keys.
pub proof fn lemma_external_key_injective(owner: Seq<char>, a: Seq<char>, b: Seq<char>)
    requires
        external_key(owner, a) == external_key(owner, b),
    ensures
        a == b,
{
    let p = "owner="@ + owner + "&voting="@;
    assert(external_key(owner, a) == p + a);
    assert(external_key(owner, b) == p + b);
    assert(a =~= (p + a).subrange(p.len() as int, (p + a).len() as int));
    assert(b =~= (p + b).subrange(p.len() as int, (p + b).len() as int));
}

} // verus!
