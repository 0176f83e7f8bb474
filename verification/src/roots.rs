//! The root nameservers, where every resolution starts, and the random
//! choices that a resolution makes.

use rand::Rng;
use vstd::prelude::*;

verus! {

/// How many root nameservers there are.
pub const ROOT_COUNT: usize = 13;

/// The IPv4 address of the root nameserver with the given number, as text.
pub open spec fn root_address(index: int) -> Seq<char> {
    if index == 0 {
        "198.41.0.4"@
    } else if index == 1 {
        "199.9.14.201"@
    } else if index == 2 {
        "192.33.4.12"@
    } else if index == 3 {
        "199.7.91.13"@
    } else if index == 4 {
        "192.203.230.10"@
    } else if index == 5 {
        "192.5.5.241"@
    } else if index == 6 {
        "192.112.36.4"@
    } else if index == 7 {
        "198.97.190.53"@
    } else if index == 8 {
        "192.36.148.17"@
    } else if index == 9 {
        "192.58.128.30"@
    } else if index == 10 {
        "193.0.14.129"@
    } else if index == 11 {
        "199.7.83.42"@
    } else {
        "202.12.27.33"@
    }
}

/// The text is the address of one of the root nameservers.
pub open spec fn is_root(nameserver: Seq<char>) -> bool {
    exists|index: int| 0 <= index < ROOT_COUNT && nameserver == #[trigger] root_address(index)
}

/// Each of the listed addresses is a root nameserver's.
pub proof fn lemma_roots_are_roots(index: int)
    requires
        0 <= index < ROOT_COUNT,
    ensures
        is_root(root_address(index)),
{
}

/// The IPv4 address of the root nameserver with the given number.
pub fn root_server(index: usize) -> (address: &'static str)
    requires
        index < ROOT_COUNT,
    ensures
        address@ == root_address(index as int),
        is_root(address@),
{
    proof {
        lemma_roots_are_roots(index as int);
    }
    match index {
        0 => "198.41.0.4",
        1 => "199.9.14.201",
        2 => "192.33.4.12",
        3 => "199.7.91.13",
        4 => "192.203.230.10",
        5 => "192.5.5.241",
        6 => "192.112.36.4",
        7 => "198.97.190.53",
        8 => "192.36.148.17",
        9 => "192.58.128.30",
        10 => "193.0.14.129",
        11 => "199.7.83.42",
        12 => "202.12.27.33",
        _ => "",
    }
}

/// Draws a number below `bound` from the thread's random generator, with
/// `rand::thread_rng` and `Rng::gen_range` on the range from zero up to,
/// and without, `bound`.
///
/// Trusted, not proved: the number drawn lies in that range. Nothing more
/// is said of it, so two draws may differ. `gen_range` panics on an empty
/// range, so `bound` must not be zero; `thread_rng` panics if the system
/// cannot seed the generator, which no argument can prevent.
#[verifier::external_body]
pub(crate) fn random_below(bound: usize) -> (drawn: usize)
    requires
        bound > 0,
    ensures
        drawn < bound,
{
    rand::thread_rng().gen_range(0..bound)
}

/// Draws sixteen bits from the thread's random generator, with
/// `rand::thread_rng` and `Rng::gen`.
///
/// Trusted, not proved: nothing. No claim is made of the value, so two
/// draws may differ. `thread_rng` panics if the system cannot seed the
/// generator.
#[verifier::external_body]
pub(crate) fn random_u16() -> u16 {
    rand::thread_rng().gen()
}

/// The address of a root nameserver picked at random.
pub fn random_root() -> (address: &'static str)
    ensures
        is_root(address@),
{
    let index = random_below(ROOT_COUNT);
    root_server(index)
}

} // verus!
