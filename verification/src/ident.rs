//! Request ids and the names that are given to tunnels that ask for none.

use uuid::Uuid;
use vstd::arithmetic::div_mod::lemma_div_denominator;
use vstd::arithmetic::power::{lemma_pow_adds, lemma_pow_positive, pow};
use vstd::prelude::*;

verus! {

/// The hexadecimal digit of a number below sixteen.
pub open spec fn hex_digit(n: int) -> char {
    if n < 10 {
        ('0' as int + n) as char
    } else {
        ('a' as int + n - 10) as char
    }
}

/// The four bits of `id` that are its `k`-th hexadecimal digit, counted from the highest one.
pub open spec fn nibble(id: u128, k: int) -> int {
    id as int / pow(16, (31 - k) as nat) % 16
}

/// Whether `id` is marked as a random UUID: version 4, of the variant that RFC 9562 sets out.
pub open spec fn is_random_id(id: u128) -> bool {
    &&& nibble(id, 12) == 4
    &&& 8 <= nibble(id, 16) < 12
}

/// The 32 digits of `id` in groups of 8, 4, 4, 4 and 12.
pub open spec fn hyphenated(id: u128) -> Seq<char> {
    Seq::new(
        36,
        |i: int|
            if i == 8 || i == 13 || i == 18 || i == 23 {
                '-'
            } else if i < 8 {
                hex_digit(nibble(id, i))
            } else if i < 13 {
                hex_digit(nibble(id, i - 1))
            } else if i < 18 {
                hex_digit(nibble(id, i - 2))
            } else if i < 23 {
                hex_digit(nibble(id, i - 3))
            } else {
                hex_digit(nibble(id, i - 4))
            },
    )
}

/// The name for a tunnel that asks for none: the first eight digits of an id.
pub open spec fn short_name_of(id: u128) -> Seq<char> {
    Seq::new(8, |i: int| hex_digit(nibble(id, i)))
}

/// `Uuid::new_v4`: some id that is marked as a random one. Which one it is, is left to chance.
#[verifier::external_body]
pub(crate) fn random_id() -> (id: u128)
    ensures
        is_random_id(id),
{
    Uuid::new_v4().as_u128()
}

/// `Uuid::to_string`: the id in hyphenated form, in small letters.
#[verifier::external_body]
pub(crate) fn id_text(id: u128) -> (text: String)
    ensures
        text@ == hyphenated(id),
{
    Uuid::from_u128(id).to_string()
}

/// The name that a tunnel gets out of an id.
pub fn short_name(id: u128) -> (name: String)
    ensures
        name@ == short_name_of(id),
{
    let text = id_text(id);
    let name = text.as_str().substring_char(0, 8).to_owned();
    assert(name@ =~= short_name_of(id));
    name
}

/// A name by chance.
pub fn random_name() -> (name: String)
    ensures
        exists|id: u128| is_random_id(id) && name@ == #[trigger] short_name_of(id),
{
    let id = random_id();
    short_name(id)
}

/// A name by chance is eight hexadecimal digits, in small letters: it holds no dot and no colon.
pub proof fn law_short_name(id: u128)
    ensures
        short_name_of(id).len() == 8,
        forall|i: int|
            0 <= i < 8 ==> {
                let c = #[trigger] short_name_of(id)[i];
                '0' <= c && c <= '9' || 'a' <= c && c <= 'f'
            },
{
}

/// A name by chance is how the text of its id begins.
pub proof fn law_short_name_begins_id(id: u128)
    ensures
        short_name_of(id) == hyphenated(id).take(8),
{
    assert(short_name_of(id) =~= hyphenated(id).take(8));
}

/// How many ids share their first eight digits.
pub const IDS_PER_NAME: u128 = 0x1_0000_0000_0000_0000_0000_0000;

proof fn lemma_powers()
    ensures
        pow(16, 15) == 0x1000_0000_0000_0000,
        pow(16, 19) == 0x1000_0000_0000_0000_0000,
        pow(16, 24) == IDS_PER_NAME,
{
    reveal(pow);
    reveal_with_fuel(pow, 25);
}

/// Whether `id` is marked as a random UUID.
pub fn is_marked_random(id: u128) -> (res: bool)
    ensures
        res == is_random_id(id),
{
    proof {
        lemma_powers();
    }
    let version: u128 = id / 0x1000_0000_0000_0000_0000 % 16;
    let variant: u128 = id / 0x1000_0000_0000_0000 % 16;
    version == 4 && 8 <= variant && variant < 12
}

/// Ids that share their first eight digits share the name that they give a tunnel.
pub proof fn lemma_same_front(one: u128, other: u128)
    requires
        one / IDS_PER_NAME == other / IDS_PER_NAME,
    ensures
        short_name_of(one) == short_name_of(other),
{
    assert forall|k: int| 0 <= k < 8 implies nibble(one, k) == nibble(other, k) by {
        let rest = pow(16, (7 - k) as nat);
        lemma_powers();
        lemma_pow_adds(16, 24, (7 - k) as nat);
        lemma_pow_positive(16, (7 - k) as nat);
        lemma_div_denominator(one as int, IDS_PER_NAME as int, rest);
        lemma_div_denominator(other as int, IDS_PER_NAME as int, rest);
    }
    assert(short_name_of(one) =~= short_name_of(other));
}

/// Whether an id is marked as random does not lie in its first eight digits.
pub proof fn lemma_same_back(one: u128, other: u128)
    requires
        one % IDS_PER_NAME == other % IDS_PER_NAME,
    ensures
        is_random_id(one) == is_random_id(other),
{
    lemma_powers();
    let a = one as int / IDS_PER_NAME as int;
    let b = other as int / IDS_PER_NAME as int;
    let r = one as int % IDS_PER_NAME as int;
    assert(one == a * IDS_PER_NAME + r);
    assert(other == b * IDS_PER_NAME + r);
    lemma_nibbles_behind(a, r);
    lemma_nibbles_behind(b, r);
}

proof fn lemma_nibbles_behind(front: int, back: int)
    requires
        0 <= front,
        0 <= back < IDS_PER_NAME,
    ensures
        (front * IDS_PER_NAME + back) / 0x1000_0000_0000_0000_0000 % 16 == back
            / 0x1000_0000_0000_0000_0000 % 16,
        (front * IDS_PER_NAME + back) / 0x1000_0000_0000_0000 % 16 == back / 0x1000_0000_0000_0000
            % 16,
{
}

/// There are more ids that are marked as random than can ever be in use: where fewer than two to
/// the sixtieth are, some are not.
pub proof fn law_ids_do_not_run_out(used: Set<u128>)
    requires
        used.finite(),
        used.len() < 0x1000_0000_0000_0000,
    ensures
        exists|id: u128| #[trigger] is_random_id(id) && !used.contains(id),
{
    let first: int = 0x4000_8000_0000_0000_0000;
    let past: int = first + 0x1000_0000_0000_0000;
    lemma_powers();
    if forall|id: u128| #[trigger] is_random_id(id) ==> used.contains(id) {
        let numbers = vstd::set_lib::set_int_range(first, past);
        vstd::set_lib::lemma_int_range(first, past);
        let wide = used.map(|id: u128| id as int);
        assert(numbers.subset_of(wide)) by {
            assert forall|n: int| numbers.contains(n) implies wide.contains(n) by {
                let id = n as u128;
                assert(is_random_id(id));
                assert(used.contains(id));
                assert(id as int == n);
            }
        }
        used.lemma_map_finite(|id: u128| id as int);
        vstd::set_lib::lemma_map_size_bound(used, wide, |id: u128| id as int);
        vstd::set_lib::lemma_len_subset(numbers, wide);
    }
}

} // verus!
