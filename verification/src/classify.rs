//! The cell classifier.
//!
//! On each side of the transaction the classifier collects, in ascending
//! index order, the cells whose type script hash equals the hash of the
//! currently executing script.  The operation dispatcher works from the
//! counts of those cells alone; the operation verifiers then read their data.

use crate::types::CellModel;
use crate::types::CellEntry;
use vstd::prelude::*;

verus! {

/// The cell participates in this instance: its type script is ours.
pub open spec fn is_own(c: CellModel, script_hash: Seq<u8>) -> bool {
    c.type_hash == Some(script_hash)
}

/// Indices of the own-type cells, in ascending order.
pub open spec fn own_index_seq(cells: Seq<CellModel>, script_hash: Seq<u8>) -> Seq<int>
    decreases cells.len(),
{
    if cells.len() == 0 {
        seq![]
    } else {
        own_index_seq(cells.drop_last(), script_hash) + if is_own(cells.last(), script_hash) {
            seq![cells.len() - 1]
        } else {
            seq![]
        }
    }
}

/// The own-type index list names exactly the own-type cells, each once, in
/// ascending order.
pub proof fn lemma_own_index_seq(cells: Seq<CellModel>, script_hash: Seq<u8>)
    ensures
        forall|k: int|
            0 <= k < own_index_seq(cells, script_hash).len() ==> {
                let i = #[trigger] own_index_seq(cells, script_hash)[k];
                0 <= i < cells.len() && is_own(cells[i], script_hash)
            },
        forall|k1: int, k2: int|
            0 <= k1 < k2 < own_index_seq(cells, script_hash).len() ==> own_index_seq(
                cells,
                script_hash,
            )[k1] < own_index_seq(cells, script_hash)[k2],
        forall|i: int|
            0 <= i < cells.len() && is_own(cells[i], script_hash) ==> own_index_seq(
                cells,
                script_hash,
            ).contains(i),
    decreases cells.len(),
{
    if cells.len() > 0 {
        lemma_own_index_seq(cells.drop_last(), script_hash);
        let prev = own_index_seq(cells.drop_last(), script_hash);
        assert(forall|i: int| 0 <= i < cells.len() - 1 ==> cells.drop_last()[i] == cells[i]);
        assert forall|i: int|
            0 <= i < cells.len() && is_own(cells[i], script_hash) implies own_index_seq(
            cells,
            script_hash,
        ).contains(i) by {
            if i < cells.len() - 1 {
                assert(cells.drop_last()[i] == cells[i]);
                assert(prev.contains(i));
                let k = choose|k: int| 0 <= k < prev.len() && prev[k] == i;
                assert(own_index_seq(cells, script_hash)[k] == i);
                assert(own_index_seq(cells, script_hash).contains(i));
            } else {
                assert(own_index_seq(cells, script_hash).last() == i);
            }
        }
    }
}

/// Which cells classify as own-type depends on their type hashes alone.
pub proof fn lemma_own_index_seq_same(c1: Seq<CellModel>, c2: Seq<CellModel>, script_hash: Seq<u8>)
    requires
        c1.len() == c2.len(),
        forall|j: int| 0 <= j < c1.len() ==> #[trigger] c2[j].type_hash == c1[j].type_hash,
    ensures
        own_index_seq(c2, script_hash) == own_index_seq(c1, script_hash),
    decreases c1.len(),
{
    if c1.len() > 0 {
        assert(forall|j: int|
            0 <= j < c1.len() - 1 ==> #[trigger] c2.drop_last()[j].type_hash == c1.drop_last()[
                j
            ].type_hash);
        lemma_own_index_seq_same(c1.drop_last(), c2.drop_last(), script_hash);
    }
}

/// Collect the indices of the own-type cells, in ascending order.
pub fn own_indices(cells: &Vec<CellEntry>, script_hash: &Vec<u8>) -> (r: Vec<usize>)
    ensures
        r@.map_values(|x: usize| x as int) == own_index_seq(
            crate::types::cells_model(cells@),
            script_hash@,
        ),
{
    let ghost model = crate::types::cells_model(cells@);
    let mut r: Vec<usize> = Vec::new();
    let n = cells.len();
    for i in 0..n
        invariant
            n == cells@.len(),
            model == crate::types::cells_model(cells@),
            r@.map_values(|x: usize| x as int) == own_index_seq(
                model.subrange(0, i as int),
                script_hash@,
            ),
    {
        let owns = match &cells[i].type_hash {
            Some(h) => crate::codec::bytes_eq(h, script_hash),
            None => false,
        };
        proof {
            assert(model.subrange(0, i + 1).drop_last() =~= model.subrange(0, i as int));
            assert(model.subrange(0, i + 1).last() == cells@[i as int]@);
        }
        if owns {
            r.push(i);
            proof {
                assert(is_own(model.subrange(0, i + 1).last(), script_hash@));
                assert(r@.map_values(|x: usize| x as int) =~= own_index_seq(
                    model.subrange(0, i + 1),
                    script_hash@,
                ));
            }
        } else {
            proof {
                assert(!is_own(model.subrange(0, i + 1).last(), script_hash@));
                assert(r@.map_values(|x: usize| x as int) =~= own_index_seq(
                    model.subrange(0, i + 1),
                    script_hash@,
                ));
            }
        }
    }
    proof {
        assert(model.subrange(0, n as int) =~= model);
    }
    r
}

} // verus!
