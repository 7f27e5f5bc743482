//! A deterministic, content-addressed index of a source tree.
//!
//! For every tracked file the index records path, size, content hash,
//! detected language and line count; aggregates per-language and
//! per-directory counts; and summarizes the whole index in one
//! cryptographic digest over its canonical serialization. Two scans of
//! the same tree yield byte-identical output.
//!
//! The crate holds the computation: ignore rules, path normalization,
//! line counting, language classification, canonical JSON and the
//! digest. Directory walking and file reading stay with the caller,
//! which hands plain byte values in.

use vstd::prelude::*;

pub mod canonical;
pub mod digest;
pub mod hashing;
pub mod json;
pub mod language;
pub mod loc;
pub mod names;
pub mod schema;
pub mod traversal;
pub mod order;

use crate::digest::{digest_spec, digest_input_jm};
use crate::json::canon_ser;
use crate::names::lit_schema_version_value;
use crate::order::{lex_lt, lemma_lex_lt_asymmetric, lemma_strictly_sorted_same_elems_eq};
use crate::schema::{XrayIndex, index_jm, node_views, str_views, count_views, wf_counts,
    distinct_paths, distinct_strs};
use crate::traversal::{ScanResult, EntryView, scan_result_ok, surviving, sum_sizes,
    counts_model, counts_total, should_ignore_spec};

verus! {

/// What assembling an index from a scan guarantees: every field comes
/// from the scan or the fixed defaults, the digest is the index's own
/// digest, and the bytes are its canonical serialization.
pub open spec fn built_index_ok(
    idx: XrayIndex,
    bytes: Seq<u8>,
    root: Seq<u8>,
    target: Seq<u8>,
    scan: ScanResult,
) -> bool {
    &&& idx.schema_version@ == lit_schema_version_value()
    &&& idx.root@ == root
    &&& idx.target@ == target
    &&& node_views(idx.files@) == node_views(scan.files@)
    &&& count_views(idx.languages@) == count_views(scan.languages@)
    &&& count_views(idx.top_dirs@) == count_views(scan.top_dirs@)
    &&& str_views(idx.module_files@) == str_views(scan.module_files@)
    &&& idx.stats.file_count == scan.stats.file_count
    &&& idx.stats.total_size == scan.stats.total_size
    &&& idx.digest@ == digest_spec(idx)
    &&& bytes == canon_ser(index_jm(idx))
}

/// Assembles the final index from one scan: fills the fields, computes
/// the digest over the canonical serialization with the digest field
/// blanked, stores it, and serializes the finished index to the
/// artifact bytes.
pub fn build_index(root: Vec<u8>, target: Vec<u8>, scan: ScanResult) -> (r: (XrayIndex, Vec<u8>))
    requires
        wf_counts(scan.languages@),
        wf_counts(scan.top_dirs@),
        distinct_paths(scan.files@),
        distinct_strs(scan.module_files@),
    ensures
        built_index_ok(r.0, r.1@, root@, target@, scan),
{
    let mut index = XrayIndex::default();
    index.root = root;
    index.target = target;
    index.files = scan.files;
    index.languages = scan.languages;
    index.top_dirs = scan.top_dirs;
    index.module_files = scan.module_files;
    index.stats = scan.stats;
    let d = crate::digest::calculate_digest(&index);
    index.digest = d;
    let bytes = crate::canonical::to_canonical_json(&index);
    (index, bytes)
}

/// Two sorted aggregates that hold the same map are the same sequence.
proof fn lemma_counts_unique(s1: Seq<(Vec<u8>, u64)>, s2: Seq<(Vec<u8>, u64)>)
    requires
        wf_counts(s1),
        wf_counts(s2),
        counts_model(s1) == counts_model(s2),
    ensures
        count_views(s1) == count_views(s2),
{
    assert forall|i: int, j: int|
        0 <= i < j < s1.len() implies (#[trigger] s1[i]).0@ != (#[trigger] s1[j]).0@ by {
        lemma_lex_lt_asymmetric(s1[i].0@, s1[j].0@);
    }
    assert forall|i: int, j: int|
        0 <= i < j < s2.len() implies (#[trigger] s2[i]).0@ != (#[trigger] s2[j]).0@ by {
        lemma_lex_lt_asymmetric(s2[i].0@, s2[j].0@);
    }
    crate::traversal::lemma_counts_model_props(s1);
    crate::traversal::lemma_counts_model_props(s2);
    let k1 = Seq::new(s1.len(), |i: int| s1[i].0@);
    let k2 = Seq::new(s2.len(), |i: int| s2[i].0@);
    assert forall|k: Seq<u8>| k1.contains(k) <==> k2.contains(k) by {
        if k1.contains(k) {
            let i = choose|i: int| 0 <= i < k1.len() && k1[i] == k;
            assert(s1[i].0@ == k);
            assert(counts_model(s1).dom().contains(k));
            assert(counts_model(s2).dom().contains(k));
            let j = choose|j: int| 0 <= j < s2.len() && (#[trigger] s2[j]).0@ == k;
            assert(k2[j] == k);
        }
        if k2.contains(k) {
            let i = choose|i: int| 0 <= i < k2.len() && k2[i] == k;
            assert(s2[i].0@ == k);
            assert(counts_model(s2).dom().contains(k));
            assert(counts_model(s1).dom().contains(k));
            let j = choose|j: int| 0 <= j < s1.len() && (#[trigger] s1[j]).0@ == k;
            assert(k1[j] == k);
        }
    }
    assert forall|i: int, j: int| 0 <= i < j < k1.len() implies lex_lt(
        #[trigger] k1[i],
        #[trigger] k1[j],
    ) by {
        assert(lex_lt(s1[i].0@, s1[j].0@));
    }
    assert forall|i: int, j: int| 0 <= i < j < k2.len() implies lex_lt(
        #[trigger] k2[i],
        #[trigger] k2[j],
    ) by {
        assert(lex_lt(s2[i].0@, s2[j].0@));
    }
    lemma_strictly_sorted_same_elems_eq(k1, k2);
    assert forall|i: int| 0 <= i < s1.len() implies count_views(s1)[i] == count_views(s2)[i] by {
        assert(k1[i] == k2[i]);
        assert(s1[i].0@ == s2[i].0@);
        assert(counts_model(s1)[s1[i].0@] == s1[i].1 as int);
        assert(counts_model(s2)[s2[i].0@] == s2[i].1 as int);
    }
    assert(count_views(s1) =~= count_views(s2));
}

/// Determinism: one tree, one artifact. Two scans of the same entries
/// with the same flag, assembled under the same root and target
/// labels, yield identical digests and byte-identical artifacts.
pub proof fn lemma_scan_determinism(
    es: Seq<EntryView>,
    git_at_root: bool,
    s1: ScanResult,
    s2: ScanResult,
    i1: XrayIndex,
    b1: Seq<u8>,
    i2: XrayIndex,
    b2: Seq<u8>,
    root: Seq<u8>,
    target: Seq<u8>,
)
    requires
        scan_result_ok(s1, es, git_at_root),
        scan_result_ok(s2, es, git_at_root),
        built_index_ok(i1, b1, root, target, s1),
        built_index_ok(i2, b2, root, target, s2),
    ensures
        i1.digest@ == i2.digest@,
        b1 == b2,
{
    lemma_counts_unique(s1.languages@, s2.languages@);
    lemma_counts_unique(s1.top_dirs@, s2.top_dirs@);
    assert(node_views(i1.files@) == node_views(i2.files@));
    assert(str_views(i1.module_files@) == str_views(i2.module_files@));
    assert(count_views(i1.languages@) == count_views(i2.languages@));
    assert(count_views(i1.top_dirs@) == count_views(i2.top_dirs@));
    assert(i1.stats.file_count == i2.stats.file_count);
    assert(digest_input_jm(i1) == digest_input_jm(i2));
    assert(i1.digest@ == i2.digest@);
    assert(index_jm(i1) == index_jm(i2));
}

/// Ignore-list enforcement: no record of a scan stands under an
/// ignored directory name, at any depth of its path.
pub proof fn lemma_ignore_enforcement(r: ScanResult, es: Seq<EntryView>, git_at_root: bool, a: int)
    requires
        scan_result_ok(r, es, git_at_root),
        0 <= a < r.files@.len(),
    ensures
        !should_ignore_spec(r.files@[a].path@),
{
}

/// Aggregate totals: the total size sums every surviving file's bytes,
/// skipped files included; the file count is the record count; and the
/// per-language counts sum to no more than the record count.
pub proof fn lemma_aggregate_totals(r: ScanResult, es: Seq<EntryView>, git_at_root: bool)
    requires
        scan_result_ok(r, es, git_at_root),
    ensures
        r.stats.total_size as int == sum_sizes(surviving(es)),
        r.stats.file_count as int == r.files@.len(),
        counts_total(r.languages@) <= r.files@.len(),
{
}

} // verus!
