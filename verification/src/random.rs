//! The random sources of the game: `rand`'s thread-local generator and
//! `uuid` v4 identifiers. Nothing is claimed about which value comes back,
//! only what holds of every outcome.
use vstd::prelude::*;
use rand::seq::SliceRandom;
use rand::Rng;

verus! {

/// `thread_rng().gen_ratio(numerator, denominator)`. Claimed: a ratio of 0
/// never yields `true` and a ratio of 1 always does (rand documents both);
/// otherwise the result is left open. `gen_ratio` panics when the
/// denominator is 0 or the numerator exceeds it, which `requires` excludes.
#[verifier::external_body]
pub(crate) fn random_ratio(numerator: u32, denominator: u32) -> (r: bool)
    requires
        0 < denominator,
        numerator <= denominator,
    ensures
        numerator == 0 ==> !r,
        numerator == denominator ==> r,
{
    rand::thread_rng().gen_ratio(numerator, denominator)
}

/// `thread_rng().gen_range(low..high)` on `u32`. Claimed: the result lies in
/// the half-open range. `gen_range` panics on an empty range, which
/// `requires` excludes.
#[verifier::external_body]
pub(crate) fn random_u32_in(low: u32, high: u32) -> (r: u32)
    requires
        low < high,
    ensures
        low <= r < high,
{
    rand::thread_rng().gen_range(low..high)
}

/// `thread_rng().gen_range(low..=high)` on `usize`. Claimed: the result lies
/// in the closed range, which `requires` keeps non-empty.
#[verifier::external_body]
pub(crate) fn random_usize_in_closed(low: usize, high: usize) -> (r: usize)
    requires
        low <= high,
    ensures
        low <= r <= high,
{
    rand::thread_rng().gen_range(low..=high)
}

/// `SliceRandom::choose` with `thread_rng()`. Claimed: the result is one of
/// the options; `choose` only returns `None` on an empty slice, which
/// `requires` excludes.
#[verifier::external_body]
pub(crate) fn random_choice(options: &[u32]) -> (r: u32)
    requires
        options@.len() > 0,
    ensures
        options@.contains(r),
{
    *options.choose(&mut rand::thread_rng()).unwrap()
}

/// `SliceRandom::shuffle` with `thread_rng()`. Claimed: the vector afterwards
/// holds the same elements, each as often as before (a permutation).
#[verifier::external_body]
pub(crate) fn shuffle_positions(positions: &mut Vec<(usize, usize)>)
    ensures
        final(positions)@.to_multiset() == old(positions)@.to_multiset(),
        final(positions)@.len() == old(positions)@.len(),
{
    positions.shuffle(&mut rand::thread_rng());
}

/// A lower-case hexadecimal digit, as `uuid` prints them.
pub open spec fn is_lower_hex_digit(ch: char) -> bool {
    ('0' <= ch && ch <= '9') || ('a' <= ch && ch <= 'f')
}

/// A cell identifier: eight lower-case hexadecimal digits.
pub open spec fn is_short_uid(s: Seq<char>) -> bool {
    s.len() == 8 && forall|i: int| 0 <= i < 8 ==> #[trigger] is_lower_hex_digit(s[i])
}

/// The text of a uuid as `uuid` prints it: 36 characters, hyphens at
/// positions 8, 13, 18 and 23, lower-case hexadecimal digits elsewhere.
pub open spec fn is_uuid_text(s: Seq<char>) -> bool {
    &&& s.len() == 36
    &&& forall|i: int|
        0 <= i < 36 ==> if i == 8 || i == 13 || i == 18 || i == 23 {
            #[trigger] s[i] == '-'
        } else {
            is_lower_hex_digit(s[i])
        }
}

/// `Uuid::new_v4().to_string()`. Claimed: the text has the hyphenated
/// lower-case form that uuid's `Display` prints (eight, four, four, four
/// and twelve lower-case hexadecimal digits separated by hyphens). Which
/// digits come back is left open.
#[verifier::external_body]
pub(crate) fn new_uuid_text() -> (text: String)
    ensures
        is_uuid_text(text@),
{
    uuid::Uuid::new_v4().to_string()
}

/// A new cell identifier: the first eight characters (the first group of
/// digits) of a new random uuid.
pub fn new_short_uid() -> (uid: String)
    ensures
        is_short_uid(uid@),
{
    let full = new_uuid_text();
    let text: &str = full.as_str();
    assert(vstd::string::is_ascii(text)) by {
        assert forall|i: int| 0 <= i < text@.len() implies '\0' <= #[trigger] text@[i] <= '\u{7f}' by {
            assert(text@[i] == full@[i]);
        }
    }
    let first = text.substring_ascii(0, 8);
    let uid = first.to_owned();
    assert forall|i: int| 0 <= i < 8 implies #[trigger] is_lower_hex_digit(uid@[i]) by {
        assert(uid@[i] == full@[i]);
        assert(i != 8 && i != 13 && i != 18 && i != 23);
    }
    uid
}

} // verus!
