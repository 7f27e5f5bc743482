//! Canonical serialization of an index.

use vstd::prelude::*;
use crate::json::canon_ser;
use crate::order::bytes_lt;
use crate::schema::{XrayIndex, index_jm, index_to_json, wf_counts, files_sorted, strs_sorted};

verus! {

/// Serializes the index to canonical JSON: object keys sorted
/// lexicographically at every depth, no whitespace. The bytes depend
/// only on what the index says, not on any container iteration order.
pub fn to_canonical_json(index: &XrayIndex) -> (r: Vec<u8>)
    requires
        wf_counts(index.languages@),
        wf_counts(index.top_dirs@),
    ensures
        r@ == canon_ser(index_jm(*index)),
{
    let value = index_to_json(index);
    crate::json::to_canonical_json(value)
}

/// Validates the index's sort invariants: `files` strictly ascending
/// by path and `module_files` strictly ascending.
pub fn validate_sort_order(index: &XrayIndex) -> (r: bool)
    ensures
        r == (files_sorted(index.files@) && strs_sorted(index.module_files@)),
{
    let mut i: usize = 1;
    while i < index.files.len()
        invariant
            1 <= i,
            forall|a: int, b: int|
                0 <= a < b < i && b < index.files@.len() ==> crate::order::lex_lt(
                    (#[trigger] index.files@[a]).path@,
                    (#[trigger] index.files@[b]).path@,
                ),
        decreases index.files@.len() - i,
    {
        if !bytes_lt(&index.files[i - 1].path, &index.files[i].path) {
            proof {
                assert(!files_sorted(index.files@));
            }
            return false;
        }
        proof {
            assert forall|a: int, b: int|
                0 <= a < b < i + 1 && b < index.files@.len() implies crate::order::lex_lt(
                    (#[trigger] index.files@[a]).path@,
                    (#[trigger] index.files@[b]).path@,
                ) by {
                if b == i && a < i - 1 {
                    crate::order::lemma_lex_lt_transitive(
                        index.files@[a].path@,
                        index.files@[i - 1].path@,
                        index.files@[i as int].path@,
                    );
                }
            }
        }
        i = i + 1;
    }
    let mut j: usize = 1;
    while j < index.module_files.len()
        invariant
            1 <= j,
            files_sorted(index.files@),
            forall|a: int, b: int|
                0 <= a < b < j && b < index.module_files@.len() ==> crate::order::lex_lt(
                    (#[trigger] index.module_files@[a])@,
                    (#[trigger] index.module_files@[b])@,
                ),
        decreases index.module_files@.len() - j,
    {
        if !bytes_lt(&index.module_files[j - 1], &index.module_files[j]) {
            proof {
                assert(!strs_sorted(index.module_files@));
            }
            return false;
        }
        proof {
            assert forall|a: int, b: int|
                0 <= a < b < j + 1 && b < index.module_files@.len() implies crate::order::lex_lt(
                    (#[trigger] index.module_files@[a])@,
                    (#[trigger] index.module_files@[b])@,
                ) by {
                if b == j && a < j - 1 {
                    crate::order::lemma_lex_lt_transitive(
                        index.module_files@[a]@,
                        index.module_files@[j - 1]@,
                        index.module_files@[j as int]@,
                    );
                }
            }
        }
        j = j + 1;
    }
    true
}

} // verus!
