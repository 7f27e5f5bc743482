//! The repository digest.
//!
//! The digest of an index is the lowercase hex SHA-256 of the
//! canonical serialization of the same index with its digest field
//! blanked. Before serializing, the sort invariants on `files` and
//! `module_files` are re-established, so the digest is correct
//! whatever order those sequences arrive in.

use vstd::prelude::*;
use crate::hashing::{sha256, sha256_of, hex_lower, hex_encoding};
use crate::json::{JsonModel, canon_ser};
use crate::names::{lit_digest_key, lit_files_key, lit_languages_key, lit_module_files_key,
    lit_root_key, lit_schema_version_key, lit_stats_key, lit_target_key, lit_top_dirs_key,
    lit_empty};
use crate::order::{lex_lt, bytes_lt, strictly_sorted_by_key, lemma_lex_connected,
    lemma_strictly_sorted_perm_unique};
use crate::schema::{XrayIndex, RepoStats, FileNode, FileNodeView, node_views, str_views,
    count_views, counts_jm, files_jm, strs_jm, stats_jm, wf_counts, distinct_paths, distinct_strs,
    clone_bytes};

verus! {

/// The records of `vs` in their one strictly path-ascending order.
pub open spec fn sorted_views(vs: Seq<FileNodeView>) -> Seq<FileNodeView> {
    choose|t: Seq<FileNodeView>|
        t.to_multiset() == vs.to_multiset() && strictly_sorted_by_key(
            t,
            |fv: FileNodeView| fv.path,
        )
}

/// The strings of `vs` in their one strictly ascending order.
pub open spec fn sorted_strs(vs: Seq<Seq<u8>>) -> Seq<Seq<u8>> {
    choose|t: Seq<Seq<u8>>|
        t.to_multiset() == vs.to_multiset() && strictly_sorted_by_key(t, |k: Seq<u8>| k)
}

/// The structure whose hash is the digest: the index with its digest
/// field blanked and its `files` and `module_files` sorted.
pub open spec fn digest_input_jm(idx: XrayIndex) -> JsonModel {
    JsonModel::Object(
        Map::<Seq<u8>, JsonModel>::empty()
            .insert(lit_digest_key(), JsonModel::Str(lit_empty()))
            .insert(
                lit_files_key(),
                JsonModel::Array(files_jm(sorted_views(node_views(idx.files@)))),
            )
            .insert(lit_languages_key(), JsonModel::Object(counts_jm(count_views(idx.languages@))))
            .insert(
                lit_module_files_key(),
                JsonModel::Array(strs_jm(sorted_strs(str_views(idx.module_files@)))),
            )
            .insert(lit_root_key(), JsonModel::Str(idx.root@))
            .insert(lit_schema_version_key(), JsonModel::Str(idx.schema_version@))
            .insert(lit_stats_key(), stats_jm(idx.stats))
            .insert(lit_target_key(), JsonModel::Str(idx.target@))
            .insert(lit_top_dirs_key(), JsonModel::Object(counts_jm(count_views(idx.top_dirs@)))),
    )
}

/// What the digest of an index is.
pub open spec fn digest_spec(idx: XrayIndex) -> Seq<u8> {
    hex_encoding(sha256_of(canon_ser(digest_input_jm(idx))))
}

pub(crate) fn sort_nodes(files: &Vec<FileNode>) -> (r: Vec<FileNode>)
    requires
        distinct_paths(files@),
    ensures
        node_views(r@).to_multiset() == node_views(files@).to_multiset(),
        strictly_sorted_by_key(node_views(r@), |fv: FileNodeView| fv.path),
{
    broadcast use vstd::multiset::group_multiset_axioms;

    let ghost key = |fv: FileNodeView| fv.path;
    let mut rest: Vec<FileNode> = Vec::new();
    let mut k: usize = 0;
    while k < files.len()
        invariant
            k <= files@.len(),
            rest@.len() == k,
            forall|i: int| 0 <= i < k ==> (#[trigger] rest@[i])@ == files@[i]@,
        decreases files@.len() - k,
    {
        rest.push(files[k].duplicate());
        k = k + 1;
    }
    proof {
        assert(node_views(rest@) =~= node_views(files@));
    }
    let ghost whole = node_views(files@);
    let mut out: Vec<FileNode> = Vec::new();
    proof {
        node_views(out@).to_multiset_ensures();
        node_views(rest@).to_multiset_ensures();
        assert(node_views(out@).to_multiset().add(node_views(rest@).to_multiset())
            =~= whole.to_multiset());
    }
    while rest.len() > 0
        invariant
            node_views(out@).to_multiset().add(node_views(rest@).to_multiset())
                == whole.to_multiset(),
            forall|i: int, j: int|
                0 <= i < j < out@.len() ==> !lex_lt(
                    (#[trigger] out@[j])@.path,
                    (#[trigger] out@[i])@.path,
                ),
            forall|i: int, j: int|
                0 <= i < out@.len() && 0 <= j < rest@.len() ==> !lex_lt(
                    (#[trigger] rest@[j])@.path,
                    (#[trigger] out@[i])@.path,
                ),
        decreases rest@.len(),
    {
        let mut m: usize = 0;
        let mut t: usize = 1;
        proof {
            crate::order::lemma_lex_lt_asymmetric(rest@[0]@.path, rest@[0]@.path);
        }
        while t < rest.len()
            invariant
                m < t,
                t <= rest@.len(),
                m < rest@.len(),
                forall|j: int|
                    0 <= j < t ==> !lex_lt((#[trigger] rest@[j])@.path, rest@[m as int]@.path),
            decreases rest@.len() - t,
        {
            if bytes_lt(&rest[t].path, &rest[m].path) {
                proof {
                    assert forall|j: int|
                        0 <= j < t + 1 implies !lex_lt(
                            (#[trigger] rest@[j])@.path,
                            rest@[t as int]@.path,
                        ) by {
                        if j == t {
                            crate::order::lemma_lex_lt_asymmetric(rest@[j]@.path, rest@[j]@.path);
                        } else if lex_lt(rest@[j]@.path, rest@[t as int]@.path) {
                            crate::order::lemma_lex_lt_transitive(
                                rest@[j]@.path,
                                rest@[t as int]@.path,
                                rest@[m as int]@.path,
                            );
                            assert(false);
                        }
                    }
                }
                m = t;
            }
            t = t + 1;
        }
        let ghost old_out = node_views(out@);
        let ghost old_rest = node_views(rest@);
        let e = rest.remove(m);
        out.push(e);
        proof {
            old_rest.to_multiset_ensures();
            old_out.to_multiset_ensures();
            assert(node_views(rest@) =~= old_rest.remove(m as int));
            assert(node_views(out@) =~= old_out.push(e@));
            assert(node_views(rest@).to_multiset() =~= old_rest.to_multiset().remove(e@));
            assert(node_views(out@).to_multiset() =~= old_out.to_multiset().insert(e@));
            assert(old_rest[m as int] == e@);
            assert(old_rest.contains(e@));
            assert(old_rest.to_multiset().count(e@) > 0);
            assert(node_views(out@).to_multiset().add(node_views(rest@).to_multiset())
                =~= whole.to_multiset());
            assert forall|i: int, j: int|
                0 <= i < out@.len() && 0 <= j < rest@.len() implies !lex_lt(
                    (#[trigger] rest@[j])@.path,
                    (#[trigger] out@[i])@.path,
                ) by {
                let jj = if j < m { j } else { j + 1 };
                assert(rest@[j]@ == old_rest[jj]);
                if i < out@.len() - 1 {
                    assert(out@[i]@ == old_out[i]);
                } else {
                    assert(out@[i]@ == e@);
                    assert(!lex_lt(old_rest[jj].path, old_rest[m as int].path));
                }
            }
            assert forall|i: int, j: int|
                0 <= i < j < out@.len() implies !lex_lt(
                    (#[trigger] out@[j])@.path,
                    (#[trigger] out@[i])@.path,
                ) by {
                if j < out@.len() - 1 {
                    assert(out@[i]@ == old_out[i]);
                    assert(out@[j]@ == old_out[j]);
                } else {
                    assert(out@[j]@ == e@);
                    assert(out@[i]@ == old_out[i]);
                }
            }
        }
    }
    proof {
        assert(node_views(rest@) =~= Seq::<FileNodeView>::empty());
        let emp = node_views(rest@);
        emp.to_multiset_ensures();
        assert forall|x: FileNodeView| emp.to_multiset().count(x) == 0 by {
            if emp.to_multiset().count(x) > 0 {
                assert(emp.contains(x));
                assert(false);
            }
        }
        assert(node_views(out@).to_multiset().add(node_views(rest@).to_multiset())
            =~= node_views(out@).to_multiset());
        assert(node_views(out@).to_multiset() == node_views(files@).to_multiset());
        let ovs = node_views(out@);
        let ivs = node_views(files@);
        assert forall|i: int, j: int| 0 <= i < j < ovs.len() implies (#[trigger] ovs[i]).path != (
        #[trigger] ovs[j]).path by {
            lemma_view_perm_distinct_paths(ivs, ovs, i, j);
        }
        assert forall|i: int, j: int| 0 <= i < j < ovs.len() implies lex_lt(
            key(#[trigger] ovs[i]),
            key(#[trigger] ovs[j]),
        ) by {
            assert(!lex_lt(ovs[j].path, ovs[i].path));
            assert(ovs[i].path != ovs[j].path);
            if !lex_lt(ovs[i].path, ovs[j].path) {
                lemma_lex_connected(ovs[i].path, ovs[j].path);
                assert(false);
            }
        }
    }
    out
}

proof fn lemma_view_perm_distinct_paths(
    s: Seq<FileNodeView>,
    t: Seq<FileNodeView>,
    i: int,
    j: int,
)
    requires
        s.to_multiset() == t.to_multiset(),
        forall|a: int, b: int|
            0 <= a < b < s.len() ==> (#[trigger] s[a]).path != (#[trigger] s[b]).path,
        0 <= i < j < t.len(),
    ensures
        t[i].path != t[j].path,
{
    broadcast use vstd::multiset::group_multiset_axioms;

    s.to_multiset_ensures();
    t.to_multiset_ensures();
    if t[i].path == t[j].path {
        assert forall|a: int, b: int| 0 <= a < b < s.len() implies s[a] != s[b] by {
            assert(s[a].path != s[b].path);
        }
        assert(s.no_duplicates());
        s.lemma_multiset_has_no_duplicates();
        t.lemma_multiset_has_no_duplicates_conv();
        assert(t[i] != t[j]);
        assert(t.contains(t[i]));
        assert(t.contains(t[j]));
        assert(t.to_multiset().count(t[i]) > 0);
        assert(t.to_multiset().count(t[j]) > 0);
        assert(s.to_multiset().count(t[i]) > 0);
        assert(s.to_multiset().count(t[j]) > 0);
        assert(s.contains(t[i]));
        assert(s.contains(t[j]));
        let a = choose|a: int| 0 <= a < s.len() && s[a] == t[i];
        let b = choose|b: int| 0 <= b < s.len() && s[b] == t[j];
        assert(a != b);
        assert(s[a].path != s[b].path);
        assert(false);
    }
}

pub(crate) fn sort_mods(ps: &Vec<Vec<u8>>) -> (r: Vec<Vec<u8>>)
    requires
        distinct_strs(ps@),
    ensures
        str_views(r@).to_multiset() == str_views(ps@).to_multiset(),
        strictly_sorted_by_key(str_views(r@), |k: Seq<u8>| k),
{
    broadcast use vstd::multiset::group_multiset_axioms;

    let ghost key = |k: Seq<u8>| k;
    let mut rest: Vec<Vec<u8>> = Vec::new();
    let mut k: usize = 0;
    while k < ps.len()
        invariant
            k <= ps@.len(),
            rest@.len() == k,
            forall|i: int| 0 <= i < k ==> (#[trigger] rest@[i])@ == ps@[i]@,
        decreases ps@.len() - k,
    {
        rest.push(clone_bytes(&ps[k]));
        k = k + 1;
    }
    proof {
        assert(str_views(rest@) =~= str_views(ps@));
    }
    let ghost whole = str_views(ps@);
    let mut out: Vec<Vec<u8>> = Vec::new();
    proof {
        str_views(out@).to_multiset_ensures();
        str_views(rest@).to_multiset_ensures();
        assert(str_views(out@).to_multiset().add(str_views(rest@).to_multiset())
            =~= whole.to_multiset());
    }
    while rest.len() > 0
        invariant
            str_views(out@).to_multiset().add(str_views(rest@).to_multiset())
                == whole.to_multiset(),
            forall|i: int, j: int|
                0 <= i < j < out@.len() ==> !lex_lt((#[trigger] out@[j])@, (#[trigger] out@[i])@),
            forall|i: int, j: int|
                0 <= i < out@.len() && 0 <= j < rest@.len() ==> !lex_lt(
                    (#[trigger] rest@[j])@,
                    (#[trigger] out@[i])@,
                ),
        decreases rest@.len(),
    {
        let mut m: usize = 0;
        let mut t: usize = 1;
        proof {
            crate::order::lemma_lex_lt_asymmetric(rest@[0]@, rest@[0]@);
        }
        while t < rest.len()
            invariant
                m < t,
                t <= rest@.len(),
                m < rest@.len(),
                forall|j: int| 0 <= j < t ==> !lex_lt((#[trigger] rest@[j])@, rest@[m as int]@),
            decreases rest@.len() - t,
        {
            if bytes_lt(&rest[t], &rest[m]) {
                proof {
                    assert forall|j: int|
                        0 <= j < t + 1 implies !lex_lt((#[trigger] rest@[j])@, rest@[t as int]@) by {
                        if j == t {
                            crate::order::lemma_lex_lt_asymmetric(rest@[j]@, rest@[j]@);
                        } else if lex_lt(rest@[j]@, rest@[t as int]@) {
                            crate::order::lemma_lex_lt_transitive(
                                rest@[j]@,
                                rest@[t as int]@,
                                rest@[m as int]@,
                            );
                            assert(false);
                        }
                    }
                }
                m = t;
            }
            t = t + 1;
        }
        let ghost old_out = str_views(out@);
        let ghost old_rest = str_views(rest@);
        let e = rest.remove(m);
        out.push(e);
        proof {
            old_rest.to_multiset_ensures();
            old_out.to_multiset_ensures();
            assert(str_views(rest@) =~= old_rest.remove(m as int));
            assert(str_views(out@) =~= old_out.push(e@));
            assert(str_views(rest@).to_multiset() =~= old_rest.to_multiset().remove(e@));
            assert(str_views(out@).to_multiset() =~= old_out.to_multiset().insert(e@));
            assert(old_rest[m as int] == e@);
            assert(old_rest.contains(e@));
            assert(old_rest.to_multiset().count(e@) > 0);
            assert(str_views(out@).to_multiset().add(str_views(rest@).to_multiset())
                =~= whole.to_multiset());
            assert forall|i: int, j: int|
                0 <= i < out@.len() && 0 <= j < rest@.len() implies !lex_lt(
                    (#[trigger] rest@[j])@,
                    (#[trigger] out@[i])@,
                ) by {
                let jj = if j < m { j } else { j + 1 };
                assert(rest@[j]@ == old_rest[jj]);
                if i < out@.len() - 1 {
                    assert(out@[i]@ == old_out[i]);
                } else {
                    assert(out@[i]@ == e@);
                    assert(!lex_lt(old_rest[jj], old_rest[m as int]));
                }
            }
            assert forall|i: int, j: int|
                0 <= i < j < out@.len() implies !lex_lt((#[trigger] out@[j])@, (
            #[trigger] out@[i])@) by {
                if j < out@.len() - 1 {
                    assert(out@[i]@ == old_out[i]);
                    assert(out@[j]@ == old_out[j]);
                } else {
                    assert(out@[j]@ == e@);
                    assert(out@[i]@ == old_out[i]);
                }
            }
        }
    }
    proof {
        assert(str_views(rest@) =~= Seq::<Seq<u8>>::empty());
        let emp = str_views(rest@);
        emp.to_multiset_ensures();
        assert forall|x: Seq<u8>| emp.to_multiset().count(x) == 0 by {
            if emp.to_multiset().count(x) > 0 {
                assert(emp.contains(x));
                assert(false);
            }
        }
        assert(str_views(out@).to_multiset().add(str_views(rest@).to_multiset())
            =~= str_views(out@).to_multiset());
        let ovs = str_views(out@);
        let ivs = str_views(ps@);
        assert forall|i: int, j: int| 0 <= i < j < ovs.len() implies (#[trigger] ovs[i]) != (
        #[trigger] ovs[j]) by {
            lemma_str_perm_distinct(ivs, ovs, i, j);
        }
        assert forall|i: int, j: int| 0 <= i < j < ovs.len() implies lex_lt(
            key(#[trigger] ovs[i]),
            key(#[trigger] ovs[j]),
        ) by {
            assert(!lex_lt(ovs[j], ovs[i]));
            assert(ovs[i] != ovs[j]);
            if !lex_lt(ovs[i], ovs[j]) {
                lemma_lex_connected(ovs[i], ovs[j]);
                assert(false);
            }
        }
    }
    out
}

proof fn lemma_str_perm_distinct(s: Seq<Seq<u8>>, t: Seq<Seq<u8>>, i: int, j: int)
    requires
        s.to_multiset() == t.to_multiset(),
        forall|a: int, b: int| 0 <= a < b < s.len() ==> (#[trigger] s[a]) != (#[trigger] s[b]),
        0 <= i < j < t.len(),
    ensures
        t[i] != t[j],
{
    broadcast use vstd::multiset::group_multiset_axioms;

    s.to_multiset_ensures();
    t.to_multiset_ensures();
    if t[i] == t[j] {
        assert(s.no_duplicates());
        s.lemma_multiset_has_no_duplicates();
        t.lemma_multiset_has_no_duplicates_conv();
        assert(t[i] != t[j]);
    }
}

/// Computes the digest of the index: the lowercase hex SHA-256 of the
/// canonical serialization of the index with an empty digest field and
/// defensively re-sorted `files` and `module_files`.
pub fn calculate_digest(index: &XrayIndex) -> (r: Vec<u8>)
    requires
        wf_counts(index.languages@),
        wf_counts(index.top_dirs@),
        distinct_paths(index.files@),
        distinct_strs(index.module_files@),
    ensures
        r@ == digest_spec(*index),
{
    let sorted_files = sort_nodes(&index.files);
    let sorted_module_files = sort_mods(&index.module_files);
    let ghost sf = node_views(sorted_files@);
    let ghost sm = str_views(sorted_module_files@);
    let mut languages: Vec<(Vec<u8>, u64)> = Vec::new();
    let mut i: usize = 0;
    while i < index.languages.len()
        invariant
            i <= index.languages@.len(),
            languages@.len() == i,
            forall|k: int|
                0 <= k < i ==> (#[trigger] languages@[k]).0@ == index.languages@[k].0@
                    && languages@[k].1 == index.languages@[k].1,
        decreases index.languages@.len() - i,
    {
        languages.push((clone_bytes(&index.languages[i].0), index.languages[i].1));
        i = i + 1;
    }
    let mut top_dirs: Vec<(Vec<u8>, u64)> = Vec::new();
    let mut j: usize = 0;
    while j < index.top_dirs.len()
        invariant
            j <= index.top_dirs@.len(),
            top_dirs@.len() == j,
            forall|k: int|
                0 <= k < j ==> (#[trigger] top_dirs@[k]).0@ == index.top_dirs@[k].0@
                    && top_dirs@[k].1 == index.top_dirs@[k].1,
        decreases index.top_dirs@.len() - j,
    {
        top_dirs.push((clone_bytes(&index.top_dirs[j].0), index.top_dirs[j].1));
        j = j + 1;
    }
    let normalized = XrayIndex {
        schema_version: clone_bytes(&index.schema_version),
        root: clone_bytes(&index.root),
        target: clone_bytes(&index.target),
        files: sorted_files,
        languages,
        top_dirs,
        module_files: sorted_module_files,
        stats: RepoStats {
            file_count: index.stats.file_count,
            total_size: index.stats.total_size,
        },
        digest: Vec::new(),
    };
    proof {
        assert(count_views(normalized.languages@) =~= count_views(index.languages@));
        assert(count_views(normalized.top_dirs@) =~= count_views(index.top_dirs@));
        let chosen_f = sorted_views(node_views(index.files@));
        assert(sf.to_multiset() == node_views(index.files@).to_multiset() && strictly_sorted_by_key(
            sf,
            |fv: FileNodeView| fv.path,
        ));
        lemma_strictly_sorted_perm_unique(sf, chosen_f, |fv: FileNodeView| fv.path);
        let chosen_m = sorted_strs(str_views(index.module_files@));
        assert(sm.to_multiset() == str_views(index.module_files@).to_multiset()
            && strictly_sorted_by_key(sm, |k: Seq<u8>| k));
        lemma_strictly_sorted_perm_unique(sm, chosen_m, |k: Seq<u8>| k);
        assert(normalized.digest@ =~= lit_empty());
        assert(crate::schema::index_jm(normalized) == digest_input_jm(*index));
    }
    let bytes = crate::canonical::to_canonical_json(&normalized);
    let digest = sha256(&bytes);
    hex_lower(&digest)
}

/// Digest independence from input order: two indexes that hold the
/// same records and module files — in any two orders — and agree on
/// everything else have the same digest. In particular an index built
/// with `files` and `module_files` reversed digests identically.
pub proof fn lemma_digest_input_order(a: XrayIndex, b: XrayIndex)
    requires
        a.schema_version@ == b.schema_version@,
        a.root@ == b.root@,
        a.target@ == b.target@,
        node_views(a.files@).to_multiset() == node_views(b.files@).to_multiset(),
        str_views(a.module_files@).to_multiset() == str_views(b.module_files@).to_multiset(),
        count_views(a.languages@) == count_views(b.languages@),
        count_views(a.top_dirs@) == count_views(b.top_dirs@),
        a.stats.file_count == b.stats.file_count,
        a.stats.total_size == b.stats.total_size,
    ensures
        digest_spec(a) == digest_spec(b),
{
    assert(sorted_views(node_views(a.files@)) == sorted_views(node_views(b.files@)));
    assert(sorted_strs(str_views(a.module_files@)) == sorted_strs(str_views(b.module_files@)));
    assert(stats_jm(a.stats) == stats_jm(b.stats));
    assert(digest_input_jm(a) == digest_input_jm(b));
}

} // verus!
