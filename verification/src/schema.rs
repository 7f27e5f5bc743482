//! The index data model.
//!
//! An index holds one record per tracked file, aggregate counts per
//! language and per top-level directory, the module files found at the
//! root, repository statistics, and the digest over its own canonical
//! serialization. All strings are UTF-8 bytes.

use vstd::prelude::*;
use crate::json::{JsonValue, JsonModel, jmodel, jmodel_map, jmodel_seq, wf_json};
use crate::names::{lit_schema_version_value, lit_unknown_root, lit_dot,
    lit_schema_version_key, lit_root_key, lit_target_key, lit_files_key, lit_languages_key,
    lit_top_dirs_key, lit_module_files_key, lit_stats_key, lit_digest_key, lit_path_key,
    lit_size_key, lit_hash_key, lit_lang_key, lit_loc_key, lit_complexity_key,
    lit_file_count_key, lit_total_size_key, vec_schema_version_value, vec_unknown_root, vec_dot,
    vec_schema_version_key, vec_root_key, vec_target_key, vec_files_key, vec_languages_key,
    vec_top_dirs_key, vec_module_files_key, vec_stats_key, vec_digest_key, vec_path_key,
    vec_size_key, vec_hash_key, vec_lang_key, vec_loc_key, vec_complexity_key,
    vec_file_count_key, vec_total_size_key};
use crate::order::lex_lt;

verus! {

/// One tracked file: its path relative to the scan root, byte size,
/// content hash, language label, line count, and the reserved
/// complexity field, which is always zero.
pub struct FileNode {
    pub path: Vec<u8>,
    pub size: u64,
    pub hash: Vec<u8>,
    pub lang: Vec<u8>,
    pub loc: u64,
    pub complexity: u64,
}

/// Aggregate repository statistics.
#[derive(Clone, Copy)]
pub struct RepoStats {
    pub file_count: u64,
    pub total_size: u64,
}

/// The root artifact of one scan.
pub struct XrayIndex {
    pub schema_version: Vec<u8>,
    pub root: Vec<u8>,
    pub target: Vec<u8>,
    pub files: Vec<FileNode>,
    pub languages: Vec<(Vec<u8>, u64)>,
    pub top_dirs: Vec<(Vec<u8>, u64)>,
    pub module_files: Vec<Vec<u8>>,
    pub stats: RepoStats,
    pub digest: Vec<u8>,
}

/// What a file record says, with its strings as sequences.
#[verifier::ext_equal]
pub ghost struct FileNodeView {
    pub path: Seq<u8>,
    pub size: u64,
    pub hash: Seq<u8>,
    pub lang: Seq<u8>,
    pub loc: u64,
    pub complexity: u64,
}

impl View for FileNode {
    type V = FileNodeView;

    open spec fn view(&self) -> FileNodeView {
        FileNodeView {
            path: self.path@,
            size: self.size,
            hash: self.hash@,
            lang: self.lang@,
            loc: self.loc,
            complexity: self.complexity,
        }
    }
}

/// The views of a record sequence.
pub open spec fn node_views(files: Seq<FileNode>) -> Seq<FileNodeView> {
    Seq::new(files.len(), |i: int| files[i]@)
}

/// The views of a byte-string sequence.
pub open spec fn str_views(ps: Seq<Vec<u8>>) -> Seq<Seq<u8>> {
    Seq::new(ps.len(), |i: int| ps[i]@)
}

/// The views of an aggregate-count sequence.
pub open spec fn count_views(s: Seq<(Vec<u8>, u64)>) -> Seq<(Seq<u8>, u64)> {
    Seq::new(s.len(), |i: int| (s[i].0@, s[i].1))
}

/// An aggregate map is well-formed when its keys ascend strictly: map
/// semantics, in one canonical arrangement.
pub open spec fn wf_counts(s: Seq<(Vec<u8>, u64)>) -> bool {
    forall|i: int, j: int|
        0 <= i < j < s.len() ==> lex_lt((#[trigger] s[i]).0@, (#[trigger] s[j]).0@)
}

/// No two records share a path.
pub open spec fn distinct_paths(files: Seq<FileNode>) -> bool {
    forall|i: int, j: int|
        0 <= i < j < files.len() ==> (#[trigger] files[i]).path@ != (#[trigger] files[j]).path@
}

/// No two byte strings alike.
pub open spec fn distinct_strs(ps: Seq<Vec<u8>>) -> bool {
    forall|i: int, j: int| 0 <= i < j < ps.len() ==> (#[trigger] ps[i])@ != (#[trigger] ps[j])@
}

/// Records in strictly ascending path order.
pub open spec fn files_sorted(files: Seq<FileNode>) -> bool {
    forall|i: int, j: int|
        0 <= i < j < files.len() ==> lex_lt(
            (#[trigger] files[i]).path@,
            (#[trigger] files[j]).path@,
        )
}

/// Byte strings in strictly ascending order.
pub open spec fn strs_sorted(ps: Seq<Vec<u8>>) -> bool {
    forall|i: int, j: int|
        0 <= i < j < ps.len() ==> lex_lt((#[trigger] ps[i])@, (#[trigger] ps[j])@)
}

impl Default for XrayIndex {
    /// An empty index: schema version `"1.0.0"`, root `"unknown"`,
    /// target `"."`, nothing tracked, empty digest.
    fn default() -> (d: Self)
        ensures
            d.schema_version@ == lit_schema_version_value(),
            d.root@ == lit_unknown_root(),
            d.target@ == lit_dot(),
            d.files@.len() == 0,
            d.languages@.len() == 0,
            d.top_dirs@.len() == 0,
            d.module_files@.len() == 0,
            d.stats.file_count == 0,
            d.stats.total_size == 0,
            d.digest@.len() == 0,
    {
        XrayIndex {
            schema_version: vec_schema_version_value(),
            root: vec_unknown_root(),
            target: vec_dot(),
            files: Vec::new(),
            languages: Vec::new(),
            top_dirs: Vec::new(),
            module_files: Vec::new(),
            stats: RepoStats { file_count: 0, total_size: 0 },
            digest: Vec::new(),
        }
    }
}

/// The structure one file record denotes.
pub open spec fn file_node_jm(fv: FileNodeView) -> JsonModel {
    JsonModel::Object(
        Map::<Seq<u8>, JsonModel>::empty()
            .insert(lit_complexity_key(), JsonModel::UInt(fv.complexity))
            .insert(lit_hash_key(), JsonModel::Str(fv.hash))
            .insert(lit_lang_key(), JsonModel::Str(fv.lang))
            .insert(lit_loc_key(), JsonModel::UInt(fv.loc))
            .insert(lit_path_key(), JsonModel::Str(fv.path))
            .insert(lit_size_key(), JsonModel::UInt(fv.size)),
    )
}

/// The structures of a record sequence.
pub open spec fn files_jm(vs: Seq<FileNodeView>) -> Seq<JsonModel> {
    Seq::new(vs.len(), |i: int| file_node_jm(vs[i]))
}

/// The structures of a string sequence.
pub open spec fn strs_jm(vs: Seq<Seq<u8>>) -> Seq<JsonModel> {
    Seq::new(vs.len(), |i: int| JsonModel::Str(vs[i]))
}

/// The map an aggregate-count sequence denotes.
pub open spec fn counts_jm(s: Seq<(Seq<u8>, u64)>) -> Map<Seq<u8>, JsonModel>
    decreases s.len(),
{
    if s.len() == 0 {
        Map::<Seq<u8>, JsonModel>::empty()
    } else {
        counts_jm(s.drop_last()).insert(s.last().0, JsonModel::UInt(s.last().1))
    }
}

/// The structure of the statistics object.
pub open spec fn stats_jm(s: RepoStats) -> JsonModel {
    JsonModel::Object(
        Map::<Seq<u8>, JsonModel>::empty()
            .insert(lit_file_count_key(), JsonModel::UInt(s.file_count))
            .insert(lit_total_size_key(), JsonModel::UInt(s.total_size)),
    )
}

/// The structure a whole index denotes, fields as they stand.
pub open spec fn index_jm(idx: XrayIndex) -> JsonModel {
    JsonModel::Object(
        Map::<Seq<u8>, JsonModel>::empty()
            .insert(lit_digest_key(), JsonModel::Str(idx.digest@))
            .insert(lit_files_key(), JsonModel::Array(files_jm(node_views(idx.files@))))
            .insert(lit_languages_key(), JsonModel::Object(counts_jm(count_views(idx.languages@))))
            .insert(lit_module_files_key(), JsonModel::Array(strs_jm(str_views(idx.module_files@))))
            .insert(lit_root_key(), JsonModel::Str(idx.root@))
            .insert(lit_schema_version_key(), JsonModel::Str(idx.schema_version@))
            .insert(lit_stats_key(), stats_jm(idx.stats))
            .insert(lit_target_key(), JsonModel::Str(idx.target@))
            .insert(lit_top_dirs_key(), JsonModel::Object(counts_jm(count_views(idx.top_dirs@)))),
    )
}

/// Copies a byte string.
pub fn clone_bytes(v: &Vec<u8>) -> (r: Vec<u8>)
    ensures
        r@ == v@,
{
    let r = v.clone();
    proof {
        assert(r@ =~= v@);
    }
    r
}

impl FileNode {
    /// Copies a record.
    pub fn duplicate(&self) -> (r: FileNode)
        ensures
            r@ == self@,
    {
        FileNode {
            path: clone_bytes(&self.path),
            size: self.size,
            hash: clone_bytes(&self.hash),
            lang: clone_bytes(&self.lang),
            loc: self.loc,
            complexity: self.complexity,
        }
    }
}

fn file_node_json(f: &FileNode) -> (r: JsonValue)
    ensures
        jmodel(r) == file_node_jm(f@),
        wf_json(r),
{
    let mut pairs: Vec<(Vec<u8>, JsonValue)> = Vec::new();
    let ghost s0 = pairs@;
    pairs.push((vec_complexity_key(), JsonValue::UInt(f.complexity)));
    let ghost s1 = pairs@;
    pairs.push((vec_hash_key(), JsonValue::Str(clone_bytes(&f.hash))));
    let ghost s2 = pairs@;
    pairs.push((vec_lang_key(), JsonValue::Str(clone_bytes(&f.lang))));
    let ghost s3 = pairs@;
    pairs.push((vec_loc_key(), JsonValue::UInt(f.loc)));
    let ghost s4 = pairs@;
    pairs.push((vec_path_key(), JsonValue::Str(clone_bytes(&f.path))));
    let ghost s5 = pairs@;
    pairs.push((vec_size_key(), JsonValue::UInt(f.size)));
    let ghost s6 = pairs@;
    let r = JsonValue::Object(pairs);
    proof {
        crate::json::lemma_jmodel_map_push(s0, s1.last());
        crate::json::lemma_jmodel_map_push(s1, s2.last());
        crate::json::lemma_jmodel_map_push(s2, s3.last());
        crate::json::lemma_jmodel_map_push(s3, s4.last());
        crate::json::lemma_jmodel_map_push(s4, s5.last());
        crate::json::lemma_jmodel_map_push(s5, s6.last());
        assert(jmodel_map(s0) =~= Map::<Seq<u8>, JsonModel>::empty());
        assert(jmodel(r) =~= file_node_jm(f@));
        assert(s6.len() == 6);
        assert(s6[0].0@ == lit_complexity_key());
        assert(s6[1].0@ == lit_hash_key());
        assert(s6[2].0@ == lit_lang_key());
        assert(s6[3].0@ == lit_loc_key());
        assert(s6[4].0@ == lit_path_key());
        assert(s6[5].0@ == lit_size_key());
        assert(wf_json(s6[0].1));
        assert(wf_json(s6[1].1));
        assert(wf_json(s6[2].1));
        assert(wf_json(s6[3].1));
        assert(wf_json(s6[4].1));
        assert(wf_json(s6[5].1));
        assert(wf_json(r));
    }
    r
}

fn counts_json(entries: &Vec<(Vec<u8>, u64)>) -> (r: JsonValue)
    requires
        wf_counts(entries@),
    ensures
        jmodel(r) == JsonModel::Object(counts_jm(count_views(entries@))),
        wf_json(r),
{
    let mut pairs: Vec<(Vec<u8>, JsonValue)> = Vec::new();
    let mut i: usize = 0;
    proof {
        assert(count_views(entries@.take(0)) =~= Seq::<(Seq<u8>, u64)>::empty());
    }
    while i < entries.len()
        invariant
            i <= entries@.len(),
            wf_counts(entries@),
            pairs@.len() == i,
            forall|k: int|
                0 <= k < i ==> (#[trigger] pairs@[k]).0@ == entries@[k].0@,
            forall|k: int|
                0 <= k < i ==> (#[trigger] pairs@[k]).1 == (JsonValue::UInt(entries@[k].1)),
            jmodel_map(pairs@) == counts_jm(count_views(entries@.take(i as int))),
        decreases entries@.len() - i,
    {
        let ghost prev = pairs@;
        pairs.push((clone_bytes(&entries[i].0), JsonValue::UInt(entries[i].1)));
        proof {
            crate::json::lemma_jmodel_map_push(prev, pairs@.last());
            assert(count_views(entries@.take(i + 1)).drop_last() =~= count_views(
                entries@.take(i as int),
            ));
            assert(count_views(entries@.take(i + 1)).last() == (entries@[i as int].0@, entries@[i as int].1));
            assert(jmodel_map(pairs@) == counts_jm(count_views(entries@.take(i + 1))));
        }
        i = i + 1;
    }
    let r = JsonValue::Object(pairs);
    proof {
        assert(entries@.take(entries@.len() as int) =~= entries@);
        assert forall|i: int, j: int|
            0 <= i < j < pairs@.len() implies (#[trigger] pairs@[i]).0@ != (
        #[trigger] pairs@[j]).0@ by {
            crate::order::lemma_lex_lt_asymmetric(entries@[i].0@, entries@[j].0@);
        }
        assert forall|i: int| 0 <= i < pairs@.len() implies wf_json((#[trigger] pairs@[i]).1) by {
            assert(pairs@[i].1 == JsonValue::UInt(entries@[i].1));
        }
        assert(wf_json(r));
    }
    r
}

fn stats_json(s: &RepoStats) -> (r: JsonValue)
    ensures
        jmodel(r) == stats_jm(*s),
        wf_json(r),
{
    let mut pairs: Vec<(Vec<u8>, JsonValue)> = Vec::new();
    let ghost s0 = pairs@;
    pairs.push((vec_file_count_key(), JsonValue::UInt(s.file_count)));
    let ghost s1 = pairs@;
    pairs.push((vec_total_size_key(), JsonValue::UInt(s.total_size)));
    let ghost s2 = pairs@;
    let r = JsonValue::Object(pairs);
    proof {
        crate::json::lemma_jmodel_map_push(s0, s1.last());
        crate::json::lemma_jmodel_map_push(s1, s2.last());
        assert(jmodel_map(s0) =~= Map::<Seq<u8>, JsonModel>::empty());
        assert(jmodel(r) =~= stats_jm(*s));
        assert(s2.len() == 2);
        assert(s2[0].0@ == lit_file_count_key());
        assert(s2[1].0@ == lit_total_size_key());
        assert(wf_json(s2[0].1));
        assert(wf_json(s2[1].1));
        assert(wf_json(r));
    }
    r
}

/// Builds the structured value an index denotes, fields as they stand.
pub fn index_to_json(idx: &XrayIndex) -> (r: JsonValue)
    requires
        wf_counts(idx.languages@),
        wf_counts(idx.top_dirs@),
    ensures
        jmodel(r) == index_jm(*idx),
        wf_json(r),
{
    let mut files_items: Vec<JsonValue> = Vec::new();
    let mut i: usize = 0;
    while i < idx.files.len()
        invariant
            i <= idx.files@.len(),
            files_items@.len() == i,
            forall|k: int|
                0 <= k < i ==> jmodel(#[trigger] files_items@[k]) == file_node_jm(
                    idx.files@[k]@,
                ),
            forall|k: int| 0 <= k < i ==> wf_json(#[trigger] files_items@[k]),
        decreases idx.files@.len() - i,
    {
        files_items.push(file_node_json(&idx.files[i]));
        i = i + 1;
    }
    proof {
        crate::json::lemma_jmodel_seq_props(files_items@);
        assert forall|k: int| 0 <= k < files_items@.len() implies jmodel_seq(files_items@)[k]
            == files_jm(node_views(idx.files@))[k] by {
            assert(jmodel(files_items@[k]) == file_node_jm(idx.files@[k]@));
        }
        assert(jmodel_seq(files_items@) =~= files_jm(node_views(idx.files@)));
    }

    let mut module_items: Vec<JsonValue> = Vec::new();
    let mut j: usize = 0;
    while j < idx.module_files.len()
        invariant
            j <= idx.module_files@.len(),
            module_items@.len() == j,
            forall|k: int|
                0 <= k < j ==> (#[trigger] module_items@[k] matches JsonValue::Str(s)
                    && s@ == idx.module_files@[k]@),
        decreases idx.module_files@.len() - j,
    {
        module_items.push(JsonValue::Str(clone_bytes(&idx.module_files[j])));
        j = j + 1;
    }
    proof {
        crate::json::lemma_jmodel_seq_props(module_items@);
        assert forall|k: int| 0 <= k < module_items@.len() implies jmodel_seq(module_items@)[k]
            == strs_jm(str_views(idx.module_files@))[k] by {
            assert(jmodel(module_items@[k]) == JsonModel::Str(idx.module_files@[k]@));
        }
        assert(jmodel_seq(module_items@) =~= strs_jm(str_views(idx.module_files@)));
        assert forall|k: int| 0 <= k < module_items@.len() implies wf_json(
            #[trigger] module_items@[k],
        ) by {
            assert(module_items@[k] matches JsonValue::Str(s));
        }
    }

    let languages_json = counts_json(&idx.languages);
    let top_dirs_json = counts_json(&idx.top_dirs);
    let stats_value = stats_json(&idx.stats);

    let mut pairs: Vec<(Vec<u8>, JsonValue)> = Vec::new();
    let ghost s0 = pairs@;
    pairs.push((vec_digest_key(), JsonValue::Str(clone_bytes(&idx.digest))));
    let ghost s1 = pairs@;
    pairs.push((vec_files_key(), JsonValue::Array(files_items)));
    let ghost s2 = pairs@;
    pairs.push((vec_languages_key(), languages_json));
    let ghost s3 = pairs@;
    pairs.push((vec_module_files_key(), JsonValue::Array(module_items)));
    let ghost s4 = pairs@;
    pairs.push((vec_root_key(), JsonValue::Str(clone_bytes(&idx.root))));
    let ghost s5 = pairs@;
    pairs.push((vec_schema_version_key(), JsonValue::Str(clone_bytes(&idx.schema_version))));
    let ghost s6 = pairs@;
    pairs.push((vec_stats_key(), stats_value));
    let ghost s7 = pairs@;
    pairs.push((vec_target_key(), JsonValue::Str(clone_bytes(&idx.target))));
    let ghost s8 = pairs@;
    pairs.push((vec_top_dirs_key(), top_dirs_json));
    let ghost s9 = pairs@;
    let r = JsonValue::Object(pairs);
    proof {
        crate::json::lemma_jmodel_map_push(s0, s1.last());
        crate::json::lemma_jmodel_map_push(s1, s2.last());
        crate::json::lemma_jmodel_map_push(s2, s3.last());
        crate::json::lemma_jmodel_map_push(s3, s4.last());
        crate::json::lemma_jmodel_map_push(s4, s5.last());
        crate::json::lemma_jmodel_map_push(s5, s6.last());
        crate::json::lemma_jmodel_map_push(s6, s7.last());
        crate::json::lemma_jmodel_map_push(s7, s8.last());
        crate::json::lemma_jmodel_map_push(s8, s9.last());
        assert(jmodel_map(s0) =~= Map::<Seq<u8>, JsonModel>::empty());
        assert(jmodel(r) =~= index_jm(*idx));
        assert(s9.len() == 9);
        assert(s9[0].0@ == lit_digest_key());
        assert(s9[1].0@ == lit_files_key());
        assert(s9[2].0@ == lit_languages_key());
        assert(s9[3].0@ == lit_module_files_key());
        assert(s9[4].0@ == lit_root_key());
        assert(s9[5].0@ == lit_schema_version_key());
        assert(s9[6].0@ == lit_stats_key());
        assert(s9[7].0@ == lit_target_key());
        assert(s9[8].0@ == lit_top_dirs_key());
        assert(wf_json(s9[0].1));
        assert(wf_json(s9[1].1));
        assert(wf_json(s9[2].1));
        assert(wf_json(s9[3].1));
        assert(wf_json(s9[4].1));
        assert(wf_json(s9[5].1));
        assert(wf_json(s9[6].1));
        assert(wf_json(s9[7].1));
        assert(wf_json(s9[8].1));
        assert(wf_json(r));
    }
    r
}

} // verus!
