//! Canonical packed forms of the SPV cell data.
//!
//! Every structure the verifier reads is a fixed-width record, serialized as
//! the plain concatenation of its fields; bytewise equality of packed forms
//! is the canonical equality throughout the library.
//!
//! * `SpvInfo` — 1 byte: `tip_client_id`.
//! * `SpvClient` — 113 bytes: `id` (1) ‖ `tip_block_hash` (32) ‖
//!   `headers_mmr_root` (72) ‖ `target_adjust_info` (8).  Inside the MMR root
//!   digest: `children_hash` (32) ‖ `min_height` (4) ‖ `max_height` (4) ‖
//!   `partial_chain_work` (32, little endian).  So the partial chain work
//!   occupies bytes 73..105 of the packed client.
//! * `SpvTypeArgs` — 34 bytes: `type_id` (32) ‖ `clients_count` (1) ‖
//!   `flags` (1).
//!
//! Cell data decodes as at most one of `SpvInfo` / `SpvClient`, since the two
//! widths differ; classification by trial decode is therefore unambiguous.

use vstd::arithmetic::power::pow;
use vstd::prelude::*;

verus! {

/// Packed width of an `SpvClient`.
pub const CLIENT_LEN: usize = 113;

/// Offset of the little-endian partial chain work inside a packed client.
pub const WORK_OFFSET: usize = 73;

/// Packed width of an `SpvTypeArgs`.
pub const ARGS_LEN: usize = 34;

// --- SpvInfo ---

/// The bytes decode as an `SpvInfo`.
pub open spec fn info_ok(d: Seq<u8>) -> bool {
    d.len() == 1
}

/// `tip_client_id` of a packed info.
pub open spec fn info_tip(d: Seq<u8>) -> u8 {
    d[0]
}

/// Packed form of an info with the given `tip_client_id`.
pub open spec fn info_packed(tip: u8) -> Seq<u8> {
    seq![tip]
}

/// Trial-decode of an info cell: the tip slot if the bytes frame correctly.
pub fn read_info(d: &Vec<u8>) -> (r: Option<u8>)
    ensures
        r == (if info_ok(d@) {
            Some(info_tip(d@))
        } else {
            None::<u8>
        }),
{
    if d.len() == 1 {
        Some(d[0])
    } else {
        None
    }
}

pub fn pack_info(tip: u8) -> (r: Vec<u8>)
    ensures
        r@ == info_packed(tip),
        info_ok(r@) && info_tip(r@) == tip,
{
    let mut v: Vec<u8> = Vec::new();
    v.push(tip);
    assert(v@ =~= info_packed(tip));
    v
}

// --- SpvClient ---

/// The bytes decode as an `SpvClient`.
pub open spec fn client_ok(d: Seq<u8>) -> bool {
    d.len() == CLIENT_LEN
}

/// Ring slot id of a packed client.
pub open spec fn client_id(d: Seq<u8>) -> u8 {
    d[0]
}

/// Little-endian partial chain work bytes of a packed client.
pub open spec fn client_work(d: Seq<u8>) -> Seq<u8> {
    d.subrange(WORK_OFFSET as int, WORK_OFFSET + 32)
}

/// The same client, re-packed with its `id` replaced.
pub open spec fn client_with_id(d: Seq<u8>, id: u8) -> Seq<u8> {
    d.update(0, id)
}

/// No byte string decodes both as an info and as a client.
pub proof fn lemma_roles_disjoint(d: Seq<u8>)
    ensures
        !(info_ok(d) && client_ok(d)),
{
}

/// Trial-decode of a client cell: the ring slot id if the bytes frame correctly.
pub fn read_client_id(d: &Vec<u8>) -> (r: Option<u8>)
    ensures
        r == (if client_ok(d@) {
            Some(client_id(d@))
        } else {
            None::<u8>
        }),
{
    if d.len() == CLIENT_LEN {
        Some(d[0])
    } else {
        None
    }
}

/// Re-pack a client with a new ring slot id.
pub fn client_replace_id(d: &Vec<u8>, id: u8) -> (r: Vec<u8>)
    requires
        client_ok(d@),
    ensures
        r@ == client_with_id(d@, id),
{
    let mut v: Vec<u8> = d.clone();
    v.set(0, id);
    v
}

// --- SpvTypeArgs ---

/// The bytes decode as an `SpvTypeArgs`.
pub open spec fn args_ok(a: Seq<u8>) -> bool {
    a.len() == ARGS_LEN
}

/// Uniqueness token bound to the creating transaction.
pub open spec fn args_type_id(a: Seq<u8>) -> Seq<u8> {
    a.subrange(0, 32)
}

/// Fixed ring size of this instance.
pub open spec fn args_clients_count(a: Seq<u8>) -> u8 {
    a[32]
}

/// Chain-type flags consumed by the reorg policy.
pub open spec fn args_flags(a: Seq<u8>) -> u8 {
    a[33]
}

/// The flags mark the testnet chain type, whose reorg policy skips the
/// chain-work comparison.
pub open spec fn is_testnet(flags: u8) -> bool {
    flags == 1
}

/// Decoded script arguments.
pub struct TypeArgs {
    /// Uniqueness token bound to the creating transaction.
    pub type_id: Vec<u8>,
    /// Fixed ring size of this instance.
    pub clients_count: u8,
    /// Chain-type flags consumed by the reorg policy.
    pub flags: u8,
}

impl TypeArgs {
    pub open spec fn wf(self, a: Seq<u8>) -> bool {
        &&& self.type_id@ == args_type_id(a)
        &&& self.clients_count == args_clients_count(a)
        &&& self.flags == args_flags(a)
    }
}

/// Trial-decode of the script arguments.
pub fn read_type_args(a: &Vec<u8>) -> (r: Option<TypeArgs>)
    ensures
        match r {
            Some(args) => args_ok(a@) && args.wf(a@),
            None => !args_ok(a@),
        },
{
    if a.len() != ARGS_LEN {
        return None;
    }
    let mut type_id: Vec<u8> = Vec::new();
    for i in 0..32
        invariant
            a@.len() == ARGS_LEN,
            type_id@ =~= a@.subrange(0, i as int),
    {
        type_id.push(a[i]);
        assert(type_id@ =~= a@.subrange(0, i + 1));
    }
    Some(TypeArgs { type_id, clients_count: a[32], flags: a[33] })
}

// --- canonical bytewise equality ---

pub fn bytes_eq(a: &Vec<u8>, b: &Vec<u8>) -> (r: bool)
    ensures
        r == (a@ == b@),
{
    if a.len() != b.len() {
        return false;
    }
    let n = a.len();
    for i in 0..n
        invariant
            n == a@.len() && n == b@.len(),
            forall|j: int| 0 <= j < i ==> a@[j] == b@[j],
    {
        if a[i] != b[i] {
            assert(a@[i as int] != b@[i as int]);
            return false;
        }
    }
    assert(a@ =~= b@);
    true
}

// --- little-endian integer values ---

/// Value of a little-endian byte string.
pub open spec fn le_value(s: Seq<u8>) -> nat
    decreases s.len(),
{
    if s.len() == 0 {
        0
    } else {
        (s[0] + 256 * le_value(s.drop_first())) as nat
    }
}

/// `pow(256, n)` unfolds one step.
proof fn lemma_pow256_unfold(n: nat)
    requires
        n >= 1,
    ensures
        pow(256, n) == 256 * pow(256, (n - 1) as nat),
{
    vstd::arithmetic::power::lemma_pow1(256);
    vstd::arithmetic::power::lemma_pow_adds(256, 1, (n - 1) as nat);
}

pub proof fn lemma_le_value_bound(s: Seq<u8>)
    ensures
        le_value(s) < pow(256, s.len()),
    decreases s.len(),
{
    if s.len() == 0 {
        vstd::arithmetic::power::lemma_pow0(256);
    } else {
        lemma_le_value_bound(s.drop_first());
        assert(256 * le_value(s.drop_first()) <= 256 * (pow(256, (s.len() - 1) as nat) - 1))
            by (nonlinear_arith)
            requires
                le_value(s.drop_first()) <= pow(256, (s.len() - 1) as nat) - 1,
        ;
        lemma_pow256_unfold(s.len());
    }
}

pub proof fn lemma_le_value_split(s: Seq<u8>, k: int)
    requires
        0 <= k <= s.len(),
    ensures
        le_value(s) == le_value(s.subrange(0, k)) + pow(256, k as nat) * le_value(
            s.subrange(k, s.len() as int),
        ),
    decreases k,
{
    if k == 0 {
        assert(s.subrange(0, 0).len() == 0);
        assert(s.subrange(0, s.len() as int) =~= s);
        vstd::arithmetic::power::lemma_pow0(256);
    } else {
        let t = s.drop_first();
        lemma_le_value_split(t, k - 1);
        assert(t.subrange(0, k - 1) =~= s.subrange(0, k).drop_first());
        assert(t.subrange(k - 1, t.len() as int) =~= s.subrange(k, s.len() as int));
        let head = s.subrange(0, k);
        let tail = s.subrange(k, s.len() as int);
        assert(le_value(s) == s[0] + 256 * le_value(t));
        assert(le_value(head) == s[0] + 256 * le_value(head.drop_first()));
        lemma_pow256_unfold(k as nat);
        assert(256 * (le_value(head.drop_first()) + pow(256, (k - 1) as nat) * le_value(tail))
            == 256 * le_value(head.drop_first()) + (256 * pow(256, (k - 1) as nat)) * le_value(
            tail,
        )) by (nonlinear_arith);
    }
}

/// If two equally long strings agree above position `k` and differ there,
/// position `k` decides the order of their values.
pub proof fn lemma_le_value_decided_at(a: Seq<u8>, b: Seq<u8>, k: int)
    requires
        a.len() == b.len(),
        0 <= k < a.len(),
        a.subrange(k + 1, a.len() as int) == b.subrange(k + 1, b.len() as int),
        a[k] < b[k],
    ensures
        le_value(a) < le_value(b),
{
    let n = a.len() as int;
    lemma_le_value_split(a, k);
    lemma_le_value_split(b, k);
    let ka = a.subrange(k, n);
    let kb = b.subrange(k, n);
    assert(ka.drop_first() =~= a.subrange(k + 1, n));
    assert(kb.drop_first() =~= b.subrange(k + 1, n));
    assert(le_value(ka) == a[k] + 256 * le_value(a.subrange(k + 1, n)));
    assert(le_value(kb) == b[k] + 256 * le_value(b.subrange(k + 1, n)));
    assert(le_value(kb) >= le_value(ka) + 1);
    lemma_le_value_bound(a.subrange(0, k));
    lemma_le_value_bound(b.subrange(0, k));
    let p = pow(256, k as nat);
    vstd::arithmetic::power::lemma_pow_positive(256, k as nat);
    assert(le_value(a.subrange(0, k)) + p * le_value(ka) < p * le_value(kb) + le_value(
        b.subrange(0, k),
    )) by (nonlinear_arith)
        requires
            p >= 1,
            le_value(a.subrange(0, k)) < p,
            le_value(kb) >= le_value(ka) + 1,
    ;
}

/// Compare two equally long little-endian byte strings by value.
pub fn le_bytes_lt(a: &Vec<u8>, b: &Vec<u8>) -> (r: bool)
    requires
        a@.len() == b@.len(),
    ensures
        r == (le_value(a@) < le_value(b@)),
{
    let n = a.len();
    let mut i: usize = n;
    loop
        invariant
            i <= n,
            n == a@.len() && n == b@.len(),
            forall|j: int| i <= j < n ==> a@[j] == b@[j],
        decreases i,
    {
        if i == 0 {
            assert(a@ =~= b@);
            return false;
        }
        i = i - 1;
        if a[i] < b[i] {
            proof {
                assert(a@.subrange(i + 1, n as int) =~= b@.subrange(i + 1, n as int));
                lemma_le_value_decided_at(a@, b@, i as int);
            }
            return true;
        }
        if a[i] > b[i] {
            proof {
                assert(a@.subrange(i + 1, n as int) =~= b@.subrange(i + 1, n as int));
                lemma_le_value_decided_at(b@, a@, i as int);
            }
            return false;
        }
    }
}

/// Copy the partial chain work out of a packed client.
pub fn client_work_of(d: &Vec<u8>) -> (r: Vec<u8>)
    requires
        client_ok(d@),
    ensures
        r@ == client_work(d@),
        r@.len() == 32,
{
    let mut v: Vec<u8> = Vec::new();
    for i in 0..32
        invariant
            client_ok(d@),
            v@.len() == i,
            v@ =~= d@.subrange(WORK_OFFSET as int, WORK_OFFSET + i),
    {
        v.push(d[WORK_OFFSET + i]);
        assert(v@ =~= d@.subrange(WORK_OFFSET as int, WORK_OFFSET + i + 1));
    }
    v
}

// --- little-endian u64, used by the type-id digest ---

/// Little-endian bytes of a `u64`.
pub open spec fn u64_le_bytes(x: u64) -> Seq<u8> {
    Seq::new(8, |i: int| ((x >> (8 * i) as u64) & 0xff) as u8)
}

pub fn u64_to_le_bytes(x: u64) -> (r: Vec<u8>)
    ensures
        r@ == u64_le_bytes(x),
{
    let mut v: Vec<u8> = Vec::new();
    for i in 0..8
        invariant
            v@ =~= u64_le_bytes(x).subrange(0, i as int),
    {
        v.push(((x >> (8 * i) as u64) & 0xff) as u8);
        assert(v@ =~= u64_le_bytes(x).subrange(0, i + 1));
    }
    assert(v@ =~= u64_le_bytes(x));
    v
}

} // verus!
