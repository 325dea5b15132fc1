//! Ring arithmetic over the client slots.
//!
//! The `clients_count` client cells form a ring indexed `0 .. clients_count - 1`.
//! The tip rotates forward one slot on Update; a Reorg walks backwards from
//! the tip over the slots it replaces.

use vstd::prelude::*;

verus! {

/// Slot after `current`, wrapping at `count`: `(current + 1) % count`
/// whenever `current` is a valid slot.
pub open spec fn spec_next_id(current: u8, count: u8) -> u8 {
    if current + 1 < count {
        (current + 1) as u8
    } else {
        0
    }
}

/// Slot before `current`, wrapping at `count`: `(current + count - 1) % count`
/// whenever `current` is a valid slot.  A ring is created with at least three
/// slots; on the degenerate width zero the function is total and yields zero.
pub open spec fn spec_prev_id(current: u8, count: u8) -> u8 {
    if count == 0 {
        0
    } else if current == 0 {
        (count - 1) as u8
    } else {
        (current - 1) as u8
    }
}

/// `n` steps backwards from `current`.
pub open spec fn spec_prev_iter(current: u8, n: nat, count: u8) -> u8
    decreases n,
{
    if n == 0 {
        current
    } else {
        spec_prev_id(spec_prev_iter(current, (n - 1) as nat, count), count)
    }
}

pub fn next_client_id(current: u8, count: u8) -> (r: u8)
    ensures
        r == spec_next_id(current, count),
{
    if (current as usize) + 1 < (count as usize) {
        current + 1
    } else {
        0
    }
}

pub fn prev_client_id(current: u8, count: u8) -> (r: u8)
    ensures
        r == spec_prev_id(current, count),
{
    if count == 0 {
        0
    } else if current == 0 {
        count - 1
    } else {
        current - 1
    }
}

/// On valid slots, stepping forward is addition modulo `count`.
pub proof fn lemma_next_id_is_mod(current: u8, count: u8)
    requires
        count >= 1,
        current < count,
    ensures
        spec_next_id(current, count) == (current + 1) % (count as int),
{
    if current + 1 < count {
        vstd::arithmetic::div_mod::lemma_small_mod((current + 1) as nat, count as nat);
    } else {
        vstd::arithmetic::div_mod::lemma_mod_self_0(count as int);
    }
}

/// On valid slots, stepping backward is subtraction modulo `count`.
pub proof fn lemma_prev_id_is_mod(current: u8, count: u8)
    requires
        count >= 1,
        current < count,
    ensures
        spec_prev_id(current, count) == (current + count - 1) % (count as int),
{
    vstd::arithmetic::div_mod::lemma_small_mod(
        spec_prev_id(current, count) as nat,
        count as nat,
    );
    if current == 0 {
    } else {
        vstd::arithmetic::div_mod::lemma_mod_multiples_vanish(1, current - 1, count as int);
        vstd::arithmetic::div_mod::lemma_small_mod((current - 1) as nat, count as nat);
        assert(count as int * 1 + (current - 1) == current + count - 1);
    }
}

} // verus!
