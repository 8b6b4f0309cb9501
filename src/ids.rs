use vstd::prelude::*;
use rand::Rng;
use crate::text::str_equals;

verus! {

/// Number of characters of an icon identifier.
pub const ICON_ID_LEN: usize = 10;

/// An ASCII letter or digit.
pub open spec fn is_alphanumeric(c: char) -> bool {
    ('a' <= c && c <= 'z') || ('A' <= c && c <= 'Z') || ('0' <= c && c <= '9')
}

/// `id` is a well-formed icon identifier: ten ASCII letters or digits.
pub open spec fn is_icon_id(id: Seq<char>) -> bool {
    id.len() == ICON_ID_LEN && forall|i: int| 0 <= i < id.len() ==> is_alphanumeric(#[trigger] id[i])
}

/// `id` is none of the identifiers in `existing`.
pub open spec fn is_fresh(existing: Seq<String>, id: Seq<char>) -> bool {
    forall|i: int| 0 <= i < existing.len() ==> #[trigger] existing[i]@ != id
}

/// Relies on rand's `thread_rng` sampled with `rand::distributions::Alphanumeric`: `len`
/// characters, each drawn from `A-Z`, `a-z` and `0-9`.
#[verifier::external_body]
fn random_alphanumeric(len: usize) -> (r: String)
    ensures
        r@.len() == len,
        forall|i: int| 0 <= i < r@.len() ==> is_alphanumeric(#[trigger] r@[i]),
{
    rand::thread_rng().sample_iter(&rand::distributions::Alphanumeric).take(len).map(char::from).collect()
}

/// Whether `candidate` differs from every identifier in `existing`.
pub fn is_fresh_icon_id(existing: &Vec<String>, candidate: &str) -> (r: bool)
    ensures
        r == is_fresh(existing@, candidate@),
{
    let mut i: usize = 0;
    while i < existing.len()
        invariant
            i <= existing@.len(),
            is_fresh(existing@.subrange(0, i as int), candidate@),
        decreases existing@.len() - i,
    {
        if str_equals(existing[i].as_str(), candidate) {
            assert(existing@[i as int]@ == candidate@);
            return false;
        }
        assert(is_fresh(existing@.subrange(0, i + 1), candidate@)) by {
            assert forall|k: int| 0 <= k < i + 1 implies #[trigger] existing@.subrange(0, i + 1)[k]@
                != candidate@ by {
                if k < i {
                    assert(existing@.subrange(0, i + 1)[k] == existing@.subrange(0, i as int)[k]);
                }
            }
        }
        i = i + 1;
    }
    assert(existing@.subrange(0, i as int) =~= existing@);
    true
}

/// Draws up to `attempts` random identifiers and returns the first that `existing` does not
/// hold; `None` when every draw was taken already.
pub fn draw_icon_id(existing: &Vec<String>, attempts: u32) -> (r: Option<String>)
    ensures
        r matches Some(id) ==> is_icon_id(id@) && is_fresh(existing@, id@),
        existing@.len() == 0 && attempts > 0 ==> r is Some,
{
    let mut n: u32 = 0;
    while n < attempts
        invariant
            n <= attempts,
            existing@.len() == 0 ==> n == 0,
        decreases attempts - n,
    {
        let candidate = random_alphanumeric(ICON_ID_LEN);
        if is_fresh_icon_id(existing, candidate.as_str()) {
            return Some(candidate);
        }
        n = n + 1;
    }
    None
}

} // verus!
