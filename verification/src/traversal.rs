//! The scan: ignore rules, path normalization, per-file records and
//! aggregates.
//!
//! The caller walks the directory tree and hands in one entry per
//! regular file: its path relative to the scan root, its byte size,
//! and its content where it could be read. Everything from there on is
//! computed here: paths are normalized to forward slashes, entries
//! under ignored directory names are excluded, each survivor gets a
//! record with hash, language and line count, and the aggregates and
//! sort invariants are established.

use vstd::prelude::*;
use crate::hashing::{compute_file_hash, file_hash_spec};
use crate::language::{detect_language, detect_language_spec};
use crate::loc::{compute_loc, loc_stats_spec, LOC_BIG_FILE_CAP_BYTES};
use crate::names::{lit_ig_git, lit_ig_node_modules, lit_ig_dist, lit_ig_build, lit_ig_out,
    lit_ig_vendor, lit_ig_target, lit_ig_cache, lit_ig_tmp, lit_ig_coverage, lit_ig_xraycache,
    lit_ig_ai_context, lit_mf_go_mod, lit_mf_cargo_toml, lit_mf_package_json, lit_lang_makefile,
    lit_lang_dockerfile, lit_dot, lit_empty, lit_lang_unknown, vec_ig_git, vec_ig_node_modules,
    vec_ig_dist, vec_ig_build, vec_ig_out, vec_ig_vendor, vec_ig_target, vec_ig_cache,
    vec_ig_tmp, vec_ig_coverage, vec_ig_xraycache, vec_ig_ai_context, vec_mf_go_mod,
    vec_mf_cargo_toml, vec_mf_package_json, vec_lang_makefile, vec_lang_dockerfile, vec_dot,
    vec_lang_unknown};
use crate::order::{lex_lt, bytes_eq, bytes_lt, strictly_sorted_by_key, lemma_lex_connected,
    lemma_lex_lt_asymmetric, lemma_lex_lt_transitive, lemma_strictly_sorted_perm_unique};
use crate::schema::{FileNode, FileNodeView, RepoStats, node_views, str_views,
    wf_counts, distinct_paths, distinct_strs, files_sorted, strs_sorted, clone_bytes};

verus! {

/// One directory entry the caller found: relative path as the walker
/// gave it, byte size from the metadata, and the file's bytes, `None`
/// when the file stands over the line-count cap and was not read.
pub struct ScanEntry {
    pub path: Vec<u8>,
    pub size: u64,
    pub content: Option<Vec<u8>>,
}

/// What one entry says, with its strings as sequences.
#[verifier::ext_equal]
pub ghost struct EntryView {
    pub path: Seq<u8>,
    pub size: u64,
    pub content: Option<Seq<u8>>,
}

impl View for ScanEntry {
    type V = EntryView;

    open spec fn view(&self) -> EntryView {
        EntryView {
            path: self.path@,
            size: self.size,
            content: match self.content {
                Some(c) => Some(c@),
                None => None,
            },
        }
    }
}

/// The views of an entry sequence.
pub open spec fn entry_views(s: Seq<ScanEntry>) -> Seq<EntryView> {
    Seq::new(s.len(), |i: int| s[i]@)
}

/// Platform separators turned into `/`.
pub open spec fn slashed(p: Seq<u8>) -> Seq<u8> {
    p.map_values(
        |b: u8|
            if b == '\\' as u8 {
                '/' as u8
            } else {
                b
            },
    )
}

/// A path normalized: separators forward, a leading `./` stripped.
pub open spec fn normalize_spec(p: Seq<u8>) -> Seq<u8> {
    let q = slashed(p);
    if q.len() >= 2 && q[0] == '.' as u8 && q[1] == '/' as u8 {
        q.skip(2)
    } else {
        q
    }
}

/// Normalizes a path.
pub fn normalize_path(p: &Vec<u8>) -> (r: Vec<u8>)
    ensures
        r@ == normalize_spec(p@),
{
    let mut q: Vec<u8> = Vec::new();
    let mut i: usize = 0;
    while i < p.len()
        invariant
            i <= p.len(),
            q@ =~= slashed(p@).take(i as int),
        decreases p.len() - i,
    {
        let b = p[i];
        if b == 92 {
            q.push(47);
        } else {
            q.push(b);
        }
        i = i + 1;
    }
    proof {
        assert(q@ =~= slashed(p@));
    }
    if q.len() >= 2 && q[0] == 46 && q[1] == 47 {
        let mut r: Vec<u8> = Vec::new();
        let mut k: usize = 2;
        while k < q.len()
            invariant
                2 <= k <= q@.len(),
                q@ == slashed(p@),
                r@ =~= q@.subrange(2, k as int),
            decreases q.len() - k,
        {
            r.push(q[k]);
            k = k + 1;
        }
        proof {
            assert(r@ =~= slashed(p@).skip(2));
        }
        r
    } else {
        q
    }
}

/// Whether `s` is one of the names the walk excludes.
pub open spec fn ignored_name(s: Seq<u8>) -> bool {
    ||| s == lit_ig_git()
    ||| s == lit_ig_node_modules()
    ||| s == lit_ig_dist()
    ||| s == lit_ig_build()
    ||| s == lit_ig_out()
    ||| s == lit_ig_vendor()
    ||| s == lit_ig_target()
    ||| s == lit_ig_cache()
    ||| s == lit_ig_tmp()
    ||| s == lit_ig_coverage()
    ||| s == lit_ig_xraycache()
    ||| s == lit_ig_ai_context()
}

fn is_ignored_name(s: &Vec<u8>) -> (r: bool)
    ensures
        r == ignored_name(s@),
{
    if bytes_eq(s, &vec_ig_git()) {
        return true;
    }
    if bytes_eq(s, &vec_ig_node_modules()) {
        return true;
    }
    if bytes_eq(s, &vec_ig_dist()) {
        return true;
    }
    if bytes_eq(s, &vec_ig_build()) {
        return true;
    }
    if bytes_eq(s, &vec_ig_out()) {
        return true;
    }
    if bytes_eq(s, &vec_ig_vendor()) {
        return true;
    }
    if bytes_eq(s, &vec_ig_target()) {
        return true;
    }
    if bytes_eq(s, &vec_ig_cache()) {
        return true;
    }
    if bytes_eq(s, &vec_ig_tmp()) {
        return true;
    }
    if bytes_eq(s, &vec_ig_coverage()) {
        return true;
    }
    if bytes_eq(s, &vec_ig_xraycache()) {
        return true;
    }
    if bytes_eq(s, &vec_ig_ai_context()) {
        return true;
    }
    false
}

/// The bounds of one path segment: it runs from a start that is the
/// path's beginning or right after a `/`, to an end that is the path's
/// end or at a `/`, with no `/` inside.
pub open spec fn seg_bounds(p: Seq<u8>, i: int, j: int) -> bool {
    &&& 0 <= i <= j <= p.len()
    &&& (i == 0 || p[i - 1] == '/' as u8)
    &&& (j == p.len() || p[j] == '/' as u8)
    &&& forall|k: int| i <= k < j ==> p[k] != '/' as u8
}

/// Whether any segment of the path is an ignored name: such a path is
/// excluded from the scan at any depth.
pub open spec fn should_ignore_spec(p: Seq<u8>) -> bool {
    exists|i: int, j: int| seg_bounds(p, i, j) && ignored_name(p.subrange(i, j))
}

/// Decides whether a path falls under the ignore rules: true exactly
/// when some `/`-separated segment of it is an ignored name.
pub fn should_ignore(path: &Vec<u8>) -> (r: bool)
    ensures
        r == should_ignore_spec(path@),
{
    let n = path.len();
    let mut start: usize = 0;
    loop
        invariant
            start <= n,
            n == path@.len(),
            start == 0 || path@[start - 1] == '/' as u8,
            forall|i: int, j: int|
                seg_bounds(path@, i, j) && j < start ==> !ignored_name(path@.subrange(i, j)),
        decreases n - start,
    {
        let mut end: usize = start;
        while end < n && path[end] != 47
            invariant
                start <= end <= n,
                n == path@.len(),
                forall|k: int| start <= k < end ==> path@[k] != '/' as u8,
            decreases n - end,
        {
            end = end + 1;
        }
        let mut seg: Vec<u8> = Vec::new();
        let mut k: usize = start;
        while k < end
            invariant
                start <= k <= end <= n,
                n == path@.len(),
                seg@ =~= path@.subrange(start as int, k as int),
            decreases end - k,
        {
            seg.push(path[k]);
            k = k + 1;
        }
        proof {
            assert(seg@ =~= path@.subrange(start as int, end as int));
        }
        if is_ignored_name(&seg) {
            proof {
                assert(seg_bounds(path@, start as int, end as int));
            }
            return true;
        }
        proof {
            assert forall|i: int, j: int|
                seg_bounds(path@, i, j) && j < end + 1 implies !ignored_name(
                path@.subrange(i, j)) by {
                if j >= start {
                    if j < end {
                        assert(j == path@.len() || path@[j] == '/' as u8);
                        if j == start {
                            assert(i == j);
                            assert(path@.subrange(i, j) =~= Seq::<u8>::empty());
                            assert(!ignored_name(path@.subrange(i, j)));
                        } else {
                            assert(path@[j] == '/' as u8);
                            assert(false);
                        }
                    } else {
                        assert(j == end);
                        if i < start {
                            if start > 0 {
                                assert(path@[start - 1] == '/' as u8);
                                assert(i <= start - 1 < j);
                                assert(false);
                            } else {
                                assert(false);
                            }
                        } else if i > start {
                            assert(path@[i - 1] == '/' as u8);
                            assert(start <= i - 1 < end);
                            assert(false);
                        } else {
                            assert(path@.subrange(i, j) == seg@);
                        }
                    }
                }
            }
        }
        if end == n {
            proof {
                assert forall|i: int, j: int| seg_bounds(path@, i, j) implies !ignored_name(
                    path@.subrange(i, j),
                ) by {
                    assert(j <= n < end + 1);
                }
            }
            return false;
        }
        start = end + 1;
    }
}

/// Where the first `/` of the path stands, if anywhere.
pub open spec fn first_sep_at(p: Seq<u8>, k: int) -> bool {
    0 <= k < p.len() && p[k] == '/' as u8 && forall|m: int| 0 <= m < k ==> p[m] != '/' as u8
}

/// The top-level directory bucket of a normalized path: the segment
/// before its first `/`, or `"."` for a root-level file.
pub open spec fn top_dir_spec(p: Seq<u8>) -> Seq<u8> {
    if exists|k: int| first_sep_at(p, k) {
        p.subrange(0, choose|k: int| first_sep_at(p, k))
    } else {
        lit_dot()
    }
}

/// Extracts the top-level directory bucket of a normalized path.
pub fn top_dir_of(path: &Vec<u8>) -> (r: Vec<u8>)
    ensures
        r@ == top_dir_spec(path@),
{
    let n = path.len();
    let mut k: usize = 0;
    while k < n && path[k] != 47
        invariant
            k <= n,
            n == path@.len(),
            forall|m: int| 0 <= m < k ==> path@[m] != '/' as u8,
        decreases n - k,
    {
        k = k + 1;
    }
    if k == n {
        proof {
            assert forall|m: int| !first_sep_at(path@, m) by {}
        }
        vec_dot()
    } else {
        proof {
            assert(first_sep_at(path@, k as int));
            let c = choose|m: int| first_sep_at(path@, m);
            assert(c == k as int);
        }
        let mut out: Vec<u8> = Vec::new();
        let mut m: usize = 0;
        while m < k
            invariant
                m <= k <= n,
                n == path@.len(),
                out@ =~= path@.subrange(0, m as int),
            decreases k - m,
        {
            out.push(path[m]);
            m = m + 1;
        }
        out
    }
}

/// Whether `s` is one of the recognized module-file names.
pub open spec fn module_name(s: Seq<u8>) -> bool {
    ||| s == lit_mf_go_mod()
    ||| s == lit_mf_cargo_toml()
    ||| s == lit_mf_package_json()
    ||| s == lit_ig_git()
    ||| s == lit_lang_makefile()
    ||| s == lit_lang_dockerfile()
}

/// A root-level module file: a normalized path with no `/` whose exact
/// name is recognized.
pub open spec fn is_module_file_spec(p: Seq<u8>) -> bool {
    (forall|k: int| 0 <= k < p.len() ==> p[k] != '/' as u8) && module_name(p)
}

/// Decides whether a normalized path names a root-level module file.
pub fn is_module_file(path: &Vec<u8>) -> (r: bool)
    ensures
        r == is_module_file_spec(path@),
{
    let n = path.len();
    let mut k: usize = 0;
    while k < n
        invariant
            k <= n,
            n == path@.len(),
            forall|m: int| 0 <= m < k ==> path@[m] != '/' as u8,
        decreases n - k,
    {
        if path[k] == 47 {
            return false;
        }
        k = k + 1;
    }
    if bytes_eq(path, &vec_mf_go_mod()) {
        return true;
    }
    if bytes_eq(path, &vec_mf_cargo_toml()) {
        return true;
    }
    if bytes_eq(path, &vec_mf_package_json()) {
        return true;
    }
    if bytes_eq(path, &vec_ig_git()) {
        return true;
    }
    if bytes_eq(path, &vec_lang_makefile()) {
        return true;
    }
    if bytes_eq(path, &vec_lang_dockerfile()) {
        return true;
    }
    false
}

/// The map an aggregate sequence holds: each key to its count.
pub open spec fn counts_model(s: Seq<(Vec<u8>, u64)>) -> Map<Seq<u8>, int>
    decreases s.len(),
{
    if s.len() == 0 {
        Map::<Seq<u8>, int>::empty()
    } else {
        counts_model(s.drop_last()).insert(s.last().0@, s.last().1 as int)
    }
}

/// The sum of an aggregate's counts.
pub open spec fn counts_total(s: Seq<(Vec<u8>, u64)>) -> int
    decreases s.len(),
{
    if s.len() == 0 {
        0
    } else {
        counts_total(s.drop_last()) + s.last().1
    }
}

/// One more occurrence of `k` recorded in a histogram.
pub open spec fn hist_bump(m: Map<Seq<u8>, int>, k: Seq<u8>) -> Map<Seq<u8>, int> {
    m.insert(
        k,
        1 + if m.dom().contains(k) {
            m[k]
        } else {
            0
        },
    )
}

pub proof fn lemma_counts_model_props(s: Seq<(Vec<u8>, u64)>)
    requires
        forall|i: int, j: int|
            0 <= i < j < s.len() ==> (#[trigger] s[i]).0@ != (#[trigger] s[j]).0@,
    ensures
        forall|k: Seq<u8>|
            #[trigger] counts_model(s).dom().contains(k) <==> exists|i: int|
                0 <= i < s.len() && (#[trigger] s[i]).0@ == k,
        forall|i: int|
            0 <= i < s.len() ==> counts_model(s)[(#[trigger] s[i]).0@] == s[i].1 as int,
    decreases s.len(),
{
    if s.len() > 0 {
        let t = s.drop_last();
        lemma_counts_model_props(t);
        assert forall|k: Seq<u8>|
            #[trigger] counts_model(s).dom().contains(k) <==> exists|i: int|
                0 <= i < s.len() && (#[trigger] s[i]).0@ == k by {
            if counts_model(s).dom().contains(k) {
                if k == s.last().0@ {
                    assert(s[s.len() - 1].0@ == k);
                } else {
                    assert(counts_model(t).dom().contains(k));
                    let i = choose|i: int| 0 <= i < t.len() && (#[trigger] t[i]).0@ == k;
                    assert(t[i] == s[i]);
                    assert(s[i].0@ == k);
                }
            }
            if exists|i: int| 0 <= i < s.len() && (#[trigger] s[i]).0@ == k {
                let i = choose|i: int| 0 <= i < s.len() && (#[trigger] s[i]).0@ == k;
                if i < s.len() - 1 {
                    assert(t[i] == s[i]);
                    assert(t[i].0@ == k);
                    assert(counts_model(t).dom().contains(k));
                }
            }
        }
        assert forall|i: int|
            0 <= i < s.len() implies counts_model(s)[(#[trigger] s[i]).0@] == s[i].1 as int by {
            if i < s.len() - 1 {
                assert(t[i] == s[i]);
                assert(s[i].0@ != s.last().0@);
            }
        }
    }
}

proof fn lemma_counts_total_nonneg(s: Seq<(Vec<u8>, u64)>)
    ensures
        counts_total(s) >= 0,
    decreases s.len(),
{
    if s.len() > 0 {
        lemma_counts_total_nonneg(s.drop_last());
    }
}

proof fn lemma_entry_le_total(s: Seq<(Vec<u8>, u64)>, i: int)
    requires
        0 <= i < s.len(),
    ensures
        s[i].1 <= counts_total(s),
    decreases s.len(),
{
    if i == s.len() - 1 {
        lemma_counts_total_nonneg(s.drop_last());
    } else {
        assert(s.drop_last()[i] == s[i]);
        lemma_entry_le_total(s.drop_last(), i);
    }
}

proof fn lemma_counts_total_insert(s: Seq<(Vec<u8>, u64)>, pos: int, e: (Vec<u8>, u64))
    requires
        0 <= pos <= s.len(),
    ensures
        counts_total(s.insert(pos, e)) == counts_total(s) + e.1,
    decreases s.len(),
{
    let t = s.insert(pos, e);
    if pos == s.len() {
        assert(t.drop_last() =~= s);
        assert(t.last() == e);
    } else {
        assert(t.drop_last() =~= s.drop_last().insert(pos, e));
        assert(t.last() == s.last());
        lemma_counts_total_insert(s.drop_last(), pos, e);
    }
}

proof fn lemma_counts_total_remove(s: Seq<(Vec<u8>, u64)>, pos: int)
    requires
        0 <= pos < s.len(),
    ensures
        counts_total(s.remove(pos)) == counts_total(s) - s[pos].1,
    decreases s.len(),
{
    let t = s.remove(pos);
    if pos == s.len() - 1 {
        assert(t =~= s.drop_last());
    } else {
        assert(t.drop_last() =~= s.drop_last().remove(pos));
        assert(t.last() == s.last());
        lemma_counts_total_remove(s.drop_last(), pos);
    }
}

/// Records one more occurrence of `key` in a sorted aggregate:
/// an existing entry's count rises by one, or a new entry is put in
/// at its ordered place with count one.
fn bump_count(m: &mut Vec<(Vec<u8>, u64)>, key: &Vec<u8>)
    requires
        wf_counts(old(m)@),
        counts_total(old(m)@) < u64::MAX,
    ensures
        wf_counts(final(m)@),
        counts_model(final(m)@) == hist_bump(counts_model(old(m)@), key@),
        counts_total(final(m)@) == counts_total(old(m)@) + 1,
{
    proof {
        assert forall|i: int, j: int|
            0 <= i < j < m@.len() implies (#[trigger] m@[i]).0@ != (#[trigger] m@[j]).0@ by {
            lemma_lex_lt_asymmetric(m@[i].0@, m@[j].0@);
        }
        lemma_counts_model_props(m@);
    }
    let ghost orig = m@;
    let mut pos: usize = 0;
    while pos < m.len() && bytes_lt(&m[pos].0, key)
        invariant
            pos <= m@.len(),
            m@ == orig,
            forall|i: int| 0 <= i < pos ==> lex_lt((#[trigger] m@[i]).0@, key@),
        decreases m@.len() - pos,
    {
        pos = pos + 1;
    }
    if pos < m.len() && bytes_eq(&m[pos].0, key) {
        proof {
            lemma_entry_le_total(orig, pos as int);
        }
        let (kv, c) = m.remove(pos);
        m.insert(pos, (kv, c + 1));
        proof {
            let now = m@;
            assert(now.len() == orig.len());
            assert forall|i: int| 0 <= i < now.len() implies (#[trigger] now[i]).0@ == orig[i].0@
                && now[i].1 as int == orig[i].1 as int + if i == pos as int {
                1int
            } else {
                0int
            } by {
                orig.remove_ensures(pos as int);
            }
            assert(wf_counts(now));
            assert forall|i: int, j: int|
                0 <= i < j < now.len() implies (#[trigger] now[i]).0@ != (
            #[trigger] now[j]).0@ by {
                lemma_lex_lt_asymmetric(now[i].0@, now[j].0@);
            }
            lemma_counts_model_props(now);
            assert(counts_model(orig).dom().contains(key@));
            assert(counts_model(orig)[key@] == orig[pos as int].1 as int);
            assert forall|k: Seq<u8>|
                #[trigger] counts_model(now).dom().contains(k) <==> hist_bump(
                    counts_model(orig),
                    key@,
                ).dom().contains(k) by {
                if counts_model(now).dom().contains(k) {
                    let i = choose|i: int| 0 <= i < now.len() && (#[trigger] now[i]).0@ == k;
                    assert(orig[i].0@ == k);
                }
                if hist_bump(counts_model(orig), key@).dom().contains(k) {
                    if k != key@ {
                        let i = choose|i: int| 0 <= i < orig.len() && (#[trigger] orig[i]).0@ == k;
                        assert(now[i].0@ == k);
                    } else {
                        assert(now[pos as int].0@ == k);
                    }
                }
            }
            assert forall|k: Seq<u8>|
                #[trigger] counts_model(now).dom().contains(k) implies counts_model(now)[k]
                == hist_bump(counts_model(orig), key@)[k] by {
                let i = choose|i: int| 0 <= i < now.len() && (#[trigger] now[i]).0@ == k;
                assert(counts_model(now)[now[i].0@] == now[i].1 as int);
                assert(counts_model(orig)[orig[i].0@] == orig[i].1 as int);
                if i != pos as int {
                    assert(k != key@);
                }
            }
            assert(counts_model(now) =~= hist_bump(counts_model(orig), key@));
            lemma_counts_total_remove(orig, pos as int);
            lemma_counts_total_insert(orig.remove(pos as int), pos as int, now[pos as int]);
            assert(now =~= orig.remove(pos as int).insert(pos as int, now[pos as int]));
        }
    } else {
        proof {
            if pos < m@.len() {
                assert(!lex_lt(m@[pos as int].0@, key@));
                if !lex_lt(key@, m@[pos as int].0@) {
                    lemma_lex_connected(key@, m@[pos as int].0@);
                    assert(false);
                }
            }
        }
        m.insert(pos, (clone_bytes(key), 1));
        proof {
            let now = m@;
            assert(now =~= orig.insert(pos as int, now[pos as int]));
            orig.insert_ensures(pos as int, now[pos as int]);
            assert forall|i: int, j: int| 0 <= i < j < now.len() implies lex_lt(
                (#[trigger] now[i]).0@,
                (#[trigger] now[j]).0@,
            ) by {
                if j < pos {
                } else if i < pos && j == pos {
                    assert(now[i].0@ == orig[i].0@);
                    assert(lex_lt(orig[i].0@, key@));
                } else if i < pos && j > pos {
                    assert(now[j].0@ == orig[j - 1].0@);
                } else if i == pos && j > pos {
                    assert(now[j].0@ == orig[j - 1].0@);
                    if pos < orig.len() {
                        if j - 1 > pos {
                            lemma_lex_lt_transitive(key@, orig[pos as int].0@, orig[j - 1].0@);
                        }
                    }
                }
            }
            assert(wf_counts(now));
            assert forall|i: int, j: int|
                0 <= i < j < now.len() implies (#[trigger] now[i]).0@ != (
            #[trigger] now[j]).0@ by {
                lemma_lex_lt_asymmetric(now[i].0@, now[j].0@);
            }
            lemma_counts_model_props(now);
            assert(!counts_model(orig).dom().contains(key@)) by {
                if counts_model(orig).dom().contains(key@) {
                    let i = choose|i: int|
                        0 <= i < orig.len() && (#[trigger] orig[i]).0@ == key@;
                    if i < pos {
                        lemma_lex_lt_asymmetric(orig[i].0@, key@);
                    } else {
                        assert(lex_lt(key@, orig[pos as int].0@));
                        if i > pos {
                            lemma_lex_lt_transitive(key@, orig[pos as int].0@, orig[i].0@);
                        }
                        lemma_lex_lt_asymmetric(key@, orig[i].0@);
                    }
                    assert(false);
                }
            }
            assert forall|k: Seq<u8>|
                #[trigger] counts_model(now).dom().contains(k) <==> hist_bump(
                    counts_model(orig),
                    key@,
                ).dom().contains(k) by {
                if counts_model(now).dom().contains(k) {
                    let i = choose|i: int| 0 <= i < now.len() && (#[trigger] now[i]).0@ == k;
                    if i < pos {
                        assert(orig[i].0@ == k);
                    } else if i > pos {
                        assert(orig[i - 1].0@ == k);
                    }
                }
                if hist_bump(counts_model(orig), key@).dom().contains(k) && k != key@ {
                    let i = choose|i: int| 0 <= i < orig.len() && (#[trigger] orig[i]).0@ == k;
                    if i < pos {
                        assert(now[i].0@ == k);
                    } else {
                        assert(now[i + 1].0@ == k);
                    }
                }
            }
            assert forall|k: Seq<u8>|
                #[trigger] counts_model(now).dom().contains(k) implies counts_model(now)[k]
                == hist_bump(counts_model(orig), key@)[k] by {
                let i = choose|i: int| 0 <= i < now.len() && (#[trigger] now[i]).0@ == k;
                assert(counts_model(now)[now[i].0@] == now[i].1 as int);
                if i != pos as int {
                    assert(k != key@);
                    if i < pos {
                        assert(orig[i].0@ == k && orig[i].1 == now[i].1);
                        assert(counts_model(orig)[orig[i].0@] == orig[i].1 as int);
                    } else {
                        assert(orig[i - 1].0@ == k && orig[i - 1].1 == now[i].1);
                        assert(counts_model(orig)[orig[i - 1].0@] == orig[i - 1].1 as int);
                    }
                }
            }
            assert(counts_model(now) =~= hist_bump(counts_model(orig), key@));
            lemma_counts_total_insert(orig, pos as int, now[pos as int]);
        }
    }
}

/// An entry enters the index when its normalized path is non-empty
/// and no segment of it is ignored.
pub open spec fn survives(e: EntryView) -> bool {
    normalize_spec(e.path).len() > 0 && !should_ignore_spec(normalize_spec(e.path))
}

/// The entries that enter the index, in their given order.
pub open spec fn surviving(es: Seq<EntryView>) -> Seq<EntryView>
    decreases es.len(),
{
    if es.len() == 0 {
        Seq::<EntryView>::empty()
    } else if survives(es.last()) {
        surviving(es.drop_last()).push(es.last())
    } else {
        surviving(es.drop_last())
    }
}

/// The record one surviving entry yields.
pub open spec fn node_of(e: EntryView) -> FileNodeView {
    let p = normalize_spec(e.path);
    FileNodeView {
        path: p,
        size: e.size,
        hash: match e.content {
            Some(c) => file_hash_spec(c),
            None => lit_empty(),
        },
        lang: detect_language_spec(p),
        loc: loc_stats_spec(e.size, e.content).loc,
        complexity: 0,
    }
}

/// The records of a sequence of entries.
pub open spec fn nodes_of(es: Seq<EntryView>) -> Seq<FileNodeView> {
    Seq::new(es.len(), |i: int| node_of(es[i]))
}

/// The sum of the entries' byte sizes, skipped files included.
pub open spec fn sum_sizes(es: Seq<EntryView>) -> int
    decreases es.len(),
{
    if es.len() == 0 {
        0
    } else {
        sum_sizes(es.drop_last()) + es.last().size
    }
}

/// The per-language file counts of the entries, the `"Unknown"` label
/// excluded.
pub open spec fn lang_hist(es: Seq<EntryView>) -> Map<Seq<u8>, int>
    decreases es.len(),
{
    if es.len() == 0 {
        Map::<Seq<u8>, int>::empty()
    } else {
        let m = lang_hist(es.drop_last());
        let l = detect_language_spec(normalize_spec(es.last().path));
        if l == lit_lang_unknown() {
            m
        } else {
            hist_bump(m, l)
        }
    }
}

/// The per-top-level-directory file counts of the entries.
pub open spec fn dir_hist(es: Seq<EntryView>) -> Map<Seq<u8>, int>
    decreases es.len(),
{
    if es.len() == 0 {
        Map::<Seq<u8>, int>::empty()
    } else {
        hist_bump(dir_hist(es.drop_last()), top_dir_spec(normalize_spec(es.last().path)))
    }
}

/// The module-file names among the entries, in their given order.
pub open spec fn module_names(es: Seq<EntryView>) -> Seq<Seq<u8>>
    decreases es.len(),
{
    if es.len() == 0 {
        Seq::<Seq<u8>>::empty()
    } else {
        let p = module_names(es.drop_last());
        if is_module_file_spec(normalize_spec(es.last().path)) {
            p.push(normalize_spec(es.last().path))
        } else {
            p
        }
    }
}

/// All module-file names of a scan: a root `.git` directory counts as
/// one even though the walk never yields it.
pub open spec fn all_module_names(es: Seq<EntryView>, git_at_root: bool) -> Seq<Seq<u8>> {
    if git_at_root {
        seq![lit_ig_git()] + module_names(surviving(es))
    } else {
        module_names(surviving(es))
    }
}

proof fn lemma_surviving_len(es: Seq<EntryView>)
    ensures
        surviving(es).len() <= es.len(),
    decreases es.len(),
{
    if es.len() > 0 {
        lemma_surviving_len(es.drop_last());
    }
}

proof fn lemma_surviving_member(es: Seq<EntryView>, a: int)
    requires
        0 <= a < surviving(es).len(),
    ensures
        exists|k: int| 0 <= k < es.len() && es[k] == surviving(es)[a] && survives(es[k]),
    decreases es.len(),
{
    if es.len() > 0 {
        if survives(es.last()) && a == surviving(es).len() - 1 {
            assert(es[es.len() - 1] == surviving(es)[a]);
        } else {
            lemma_surviving_member(es.drop_last(), a);
            let k = choose|k: int|
                0 <= k < es.drop_last().len() && es.drop_last()[k] == surviving(es.drop_last())[a]
                    && survives(es.drop_last()[k]);
            assert(es[k] == surviving(es)[a]);
        }
    }
}

/// A path that is exactly `".git"` falls under the ignore rules.
proof fn lemma_git_is_ignored()
    ensures
        should_ignore_spec(lit_ig_git()),
{
    let p = lit_ig_git();
    assert(seg_bounds(p, 0, p.len() as int)) by {
        assert(forall|k: int| 0 <= k < p.len() ==> p[k] != '/' as u8);
    }
    assert(p.subrange(0, p.len() as int) =~= p);
}

proof fn lemma_sum_monotone(es: Seq<EntryView>, i: int)
    requires
        0 <= i <= es.len(),
    ensures
        sum_sizes(surviving(es.take(i))) <= sum_sizes(surviving(es)),
    decreases es.len() - i,
{
    if i == es.len() {
        assert(es.take(i) =~= es);
    } else {
        assert(es.take(i + 1).drop_last() =~= es.take(i));
        assert(es.take(i + 1).last() == es[i]);
        if survives(es[i]) {
            let svp = surviving(es.take(i + 1));
            assert(svp == surviving(es.take(i)).push(es[i]));
            assert(svp.drop_last() =~= surviving(es.take(i)));
            assert(sum_sizes(svp) == sum_sizes(surviving(es.take(i))) + es[i].size);
        }
        lemma_sum_monotone(es, i + 1);
    }
}

/// What a successful scan of `entries` with the given root `.git` flag
/// guarantees of its result.
pub open spec fn scan_result_ok(r: ScanResult, es: Seq<EntryView>, git_at_root: bool) -> bool {
    let sv = surviving(es);
    &&& node_views(r.files@) == crate::digest::sorted_views(nodes_of(sv))
    &&& files_sorted(r.files@)
    &&& distinct_paths(r.files@)
    &&& r.files@.len() == sv.len()
    &&& counts_model(r.languages@) == lang_hist(sv)
    &&& wf_counts(r.languages@)
    &&& counts_total(r.languages@) <= sv.len()
    &&& counts_model(r.top_dirs@) == dir_hist(sv)
    &&& wf_counts(r.top_dirs@)
    &&& counts_total(r.top_dirs@) == sv.len()
    &&& str_views(r.module_files@) == crate::digest::sorted_strs(
        all_module_names(es, git_at_root),
    )
    &&& strs_sorted(r.module_files@)
    &&& distinct_strs(r.module_files@)
    &&& r.stats.file_count as int == sv.len()
    &&& r.stats.total_size as int == sum_sizes(sv)
    &&& forall|a: int|
        0 <= a < r.files@.len() ==> !should_ignore_spec((#[trigger] r.files@[a]).path@)
            && r.files@[a].path@.len() > 0
}

proof fn lemma_module_names_member(es: Seq<EntryView>, a: int)
    requires
        0 <= a < module_names(es).len(),
    ensures
        exists|k: int|
            0 <= k < es.len() && module_names(es)[a] == normalize_spec((#[trigger] es[k]).path),
    decreases es.len(),
{
    if es.len() > 0 {
        if is_module_file_spec(normalize_spec(es.last().path)) && a == module_names(es).len()
            - 1 {
            assert(module_names(es)[a] == normalize_spec(es[es.len() - 1].path));
        } else {
            lemma_module_names_member(es.drop_last(), a);
            let k = choose|k: int|
                0 <= k < es.drop_last().len() && module_names(es.drop_last())[a] == normalize_spec(
                    (#[trigger] es.drop_last()[k]).path,
                );
            assert(es.drop_last()[k] == es[k]);
            assert(module_names(es)[a] == normalize_spec(es[k].path));
        }
    }
}

/// What one scan found, before assembly into an index.
pub struct ScanResult {
    pub files: Vec<FileNode>,
    pub stats: RepoStats,
    pub languages: Vec<(Vec<u8>, u64)>,
    pub top_dirs: Vec<(Vec<u8>, u64)>,
    pub module_files: Vec<Vec<u8>>,
}

/// The one hard failure the scan itself can meet: the total byte size
/// does not fit the counter.
#[derive(Debug)]
pub enum ScanError {
    TotalSizeOverflow,
}

/// Builds the scan result from the caller's directory entries.
///
/// Every entry whose normalized path is non-empty and under no
/// ignored name yields one record, with hash, language and line
/// count; records and module files come out sorted, and the
/// aggregates are established. It fails exactly when the total byte
/// size of the surviving files does not fit the counter.
#[verifier::loop_isolation(false)]
pub fn scan_target(entries: &Vec<ScanEntry>, git_at_root: bool) -> (r: Result<
    ScanResult,
    ScanError,
>)
    requires
        entries@.len() < u64::MAX,
        forall|i: int|
            0 <= i < entries@.len() ==> ((#[trigger] entries@[i]).content is None
                ==> entries@[i].size > LOC_BIG_FILE_CAP_BYTES),
        forall|i: int|
            0 <= i < entries@.len() ==> ((#[trigger] entries@[i]).content matches Some(c)
                ==> c@.len() == entries@[i].size),
        forall|i: int, j: int|
            0 <= i < j < entries@.len() ==> normalize_spec((#[trigger] entries@[i]).path@)
                != normalize_spec((#[trigger] entries@[j]).path@),
    ensures
        (r matches Ok(res) ==> scan_result_ok(res, entry_views(entries@), git_at_root)),
        (r is Ok) == (sum_sizes(surviving(entry_views(entries@))) <= u64::MAX),
{
    let ghost es = entry_views(entries@);
    let mut files: Vec<FileNode> = Vec::new();
    let mut languages: Vec<(Vec<u8>, u64)> = Vec::new();
    let mut top_dirs: Vec<(Vec<u8>, u64)> = Vec::new();
    let mut module_files: Vec<Vec<u8>> = Vec::new();
    let mut total_size: u64 = 0;
    let ghost prefix = if git_at_root {
        seq![lit_ig_git()]
    } else {
        Seq::<Seq<u8>>::empty()
    };
    if git_at_root {
        module_files.push(vec_ig_git());
    }
    proof {
        assert(es.take(0) =~= Seq::<EntryView>::empty());
        assert(str_views(module_files@) =~= prefix + module_names(surviving(es.take(0))));
        assert(node_views(files@) =~= nodes_of(surviving(es.take(0))));
    }
    let mut i: usize = 0;
    while i < entries.len()
        invariant
            i <= entries@.len(),
            node_views(files@) == nodes_of(surviving(es.take(i as int))),
            distinct_paths(files@),
            files@.len() == surviving(es.take(i as int)).len(),
            counts_model(languages@) == lang_hist(surviving(es.take(i as int))),
            wf_counts(languages@),
            counts_total(languages@) <= surviving(es.take(i as int)).len(),
            counts_model(top_dirs@) == dir_hist(surviving(es.take(i as int))),
            wf_counts(top_dirs@),
            counts_total(top_dirs@) == surviving(es.take(i as int)).len(),
            str_views(module_files@) == prefix + module_names(surviving(es.take(i as int))),
            distinct_strs(module_files@),
            total_size as int == sum_sizes(surviving(es.take(i as int))),
        decreases entries@.len() - i,
    {
        let ghost ev = es[i as int];
        let ghost svold = surviving(es.take(i as int));
        proof {
            assert(es.take(i + 1).drop_last() =~= es.take(i as int));
            assert(es.take(i + 1).last() == ev);
            lemma_surviving_len(es.take(i as int));
        }
        let entry = &entries[i];
        let norm = normalize_path(&entry.path);
        proof {
            assert(norm@ == normalize_spec(ev.path));
        }
        let mut skip = false;
        if norm.len() == 0 {
            skip = true;
        } else if should_ignore(&norm) {
            skip = true;
        }
        if skip {
            proof {
                assert(!survives(ev));
                assert(surviving(es.take(i + 1)) == svold);
            }
            i = i + 1;
            continue ;
        }
        proof {
            assert(survives(ev));
            assert(surviving(es.take(i + 1)) == svold.push(ev));
            assert(svold.push(ev).drop_last() =~= svold);
        }
        let content_ref = match &entry.content {
            Some(c) => Some(c),
            None => None,
        };
        let loc_stats = compute_loc(entry.size, content_ref);
        let hash = match &entry.content {
            Some(c) => compute_file_hash(c),
            None => Vec::new(),
        };
        let lang = detect_language(&norm);
        let is_unknown = bytes_eq(&lang, &vec_lang_unknown());
        let top = top_dir_of(&norm);
        let new_total = match total_size.checked_add(entry.size) {
            Some(t) => t,
            None => {
                proof {
                    assert(sum_sizes(svold.push(ev)) == sum_sizes(svold) + ev.size);
                    lemma_sum_monotone(es, i + 1);
                }
                return Err(ScanError::TotalSizeOverflow);
            },
        };
        total_size = new_total;
        proof {
            assert(sum_sizes(svold.push(ev)) == sum_sizes(svold) + ev.size);
        }
        bump_count(&mut top_dirs, &top);
        if !is_unknown {
            bump_count(&mut languages, &lang);
        }
        proof {
            assert(lang_hist(svold.push(ev)) == counts_model(languages@));
            assert(dir_hist(svold.push(ev)) == counts_model(top_dirs@));
        }
        if is_module_file(&norm) {
            let ghost old_mods = str_views(module_files@);
            proof {
                assert(forall|x: int, y: int|
                    0 <= x < y < old_mods.len() ==> #[trigger] old_mods[x] != #[trigger] old_mods[y]);
            }
            module_files.push(clone_bytes(&norm));
            proof {
                assert(str_views(module_files@) =~= old_mods.push(norm@));
                assert(module_names(svold.push(ev)) == module_names(svold).push(norm@));
                assert(str_views(module_files@) =~= prefix + module_names(svold.push(ev)));
                assert forall|a: int| 0 <= a < old_mods.len() implies old_mods[a] != norm@ by {
                    if norm@ == lit_ig_git() {
                        lemma_git_is_ignored();
                        assert(false);
                    }
                    if git_at_root && a == 0 {
                        assert(old_mods[a] == lit_ig_git());
                    } else {
                        let b = if git_at_root {
                            a - 1
                        } else {
                            a
                        };
                        assert(old_mods[a] == module_names(svold)[b]);
                        lemma_module_names_member(svold, b);
                        let k = choose|k: int|
                            0 <= k < svold.len() && module_names(svold)[b] == normalize_spec(
                                (#[trigger] svold[k]).path,
                            );
                        lemma_surviving_member(es.take(i as int), k);
                        let k2 = choose|k2: int|
                            0 <= k2 < es.take(i as int).len() && es.take(i as int)[k2] == svold[k]
                                && survives(es.take(i as int)[k2]);
                        assert(es[k2] == svold[k]);
                        assert(entries@[k2]@ == es[k2]);
                        assert(entries@[i as int]@ == ev);
                        assert(normalize_spec(entries@[k2].path@) != normalize_spec(
                            entries@[i as int].path@,
                        ));
                    }
                }
                assert forall|x: int, y: int|
                    0 <= x < y < module_files@.len() implies (#[trigger] module_files@[x])@ != (
                #[trigger] module_files@[y])@ by {
                    assert(module_files@[x]@ == old_mods[x]);
                    if y < module_files@.len() - 1 {
                        assert(module_files@[y]@ == old_mods[y]);
                    } else {
                        assert(module_files@[y]@ == norm@);
                    }
                }
                assert(distinct_strs(module_files@));
            }
        } else {
            proof {
                assert(module_names(svold.push(ev)) == module_names(svold));
            }
        }
        let node = FileNode {
            path: norm,
            size: entry.size,
            hash,
            lang,
            loc: loc_stats.loc,
            complexity: 0,
        };
        let ghost old_files = node_views(files@);
        proof {
            assert(forall|x: int, y: int|
                0 <= x < y < old_files.len() ==> (#[trigger] old_files[x]).path != (
                #[trigger] old_files[y]).path);
        }
        files.push(node);
        proof {
            assert(node@ == node_of(ev)) by {
                assert(node@.hash =~= node_of(ev).hash);
            }
            assert(node_views(files@) =~= old_files.push(node_of(ev)));
            assert(nodes_of(svold.push(ev)) =~= nodes_of(svold).push(node_of(ev)));
            assert(node_views(files@) == nodes_of(surviving(es.take(i + 1))));
            assert forall|a: int| 0 <= a < old_files.len() implies old_files[a].path != norm@ by {
                assert(old_files[a] == node_of(svold[a]));
                lemma_surviving_member(es.take(i as int), a);
                let k2 = choose|k2: int|
                    0 <= k2 < es.take(i as int).len() && es.take(i as int)[k2] == svold[a]
                        && survives(es.take(i as int)[k2]);
                assert(es[k2] == svold[a]);
                assert(entries@[k2]@ == es[k2]);
                assert(entries@[i as int]@ == ev);
                assert(normalize_spec(entries@[k2].path@) != normalize_spec(
                    entries@[i as int].path@,
                ));
            }
            assert forall|x: int, y: int|
                0 <= x < y < files@.len() implies (#[trigger] files@[x]).path@ != (
            #[trigger] files@[y]).path@ by {
                assert(files@[x]@ == old_files[x]);
                if y < files@.len() - 1 {
                    assert(files@[y]@ == old_files[y]);
                } else {
                    assert(files@[y]@.path == norm@);
                }
            }
            assert(distinct_paths(files@));
        }
        i = i + 1;
    }
    proof {
        assert(es.take(es.len() as int) =~= es);
    }
    let ghost sv = surviving(es);
    let sorted_files = crate::digest::sort_nodes(&files);
    let sorted_mods = crate::digest::sort_mods(&module_files);
    proof {
        let key_f = |fv: FileNodeView| fv.path;
        let sf = node_views(sorted_files@);
        let chosen_f = crate::digest::sorted_views(nodes_of(sv));
        assert(sf.to_multiset() == nodes_of(sv).to_multiset() && strictly_sorted_by_key(
            sf,
            key_f,
        ));
        lemma_strictly_sorted_perm_unique(sf, chosen_f, key_f);
        assert forall|a: int, b: int| 0 <= a < b < sorted_files@.len() implies lex_lt(
            (#[trigger] sorted_files@[a]).path@,
            (#[trigger] sorted_files@[b]).path@,
        ) by {
            assert(sf[a] == sorted_files@[a]@);
            assert(sf[b] == sorted_files@[b]@);
        }
        assert(files_sorted(sorted_files@));
        assert forall|a: int, b: int|
            0 <= a < b < sorted_files@.len() implies (#[trigger] sorted_files@[a]).path@ != (
        #[trigger] sorted_files@[b]).path@ by {
            lemma_lex_lt_asymmetric(sorted_files@[a].path@, sorted_files@[b].path@);
        }
        let key_m = |k: Seq<u8>| k;
        let sm = str_views(sorted_mods@);
        let chosen_m = crate::digest::sorted_strs(all_module_names(es, git_at_root));
        assert(str_views(module_files@) == all_module_names(es, git_at_root));
        assert(sm.to_multiset() == all_module_names(es, git_at_root).to_multiset()
            && strictly_sorted_by_key(sm, key_m));
        lemma_strictly_sorted_perm_unique(sm, chosen_m, key_m);
        assert forall|a: int, b: int| 0 <= a < b < sorted_mods@.len() implies lex_lt(
            (#[trigger] sorted_mods@[a])@,
            (#[trigger] sorted_mods@[b])@,
        ) by {
            assert(sm[a] == sorted_mods@[a]@);
            assert(sm[b] == sorted_mods@[b]@);
        }
        assert(strs_sorted(sorted_mods@));
        assert forall|a: int, b: int|
            0 <= a < b < sorted_mods@.len() implies (#[trigger] sorted_mods@[a])@ != (
        #[trigger] sorted_mods@[b])@ by {
            lemma_lex_lt_asymmetric(sorted_mods@[a]@, sorted_mods@[b]@);
        }
        assert(sorted_files@.len() == sv.len()) by {
            assert(sf.to_multiset().len() == nodes_of(sv).to_multiset().len());
            sf.to_multiset_ensures();
            nodes_of(sv).to_multiset_ensures();
        }
        assert forall|a: int|
            0 <= a < sorted_files@.len() implies !should_ignore_spec(
                (#[trigger] sorted_files@[a]).path@,
            ) && sorted_files@[a].path@.len() > 0 by {
            sf.to_multiset_ensures();
            nodes_of(sv).to_multiset_ensures();
            assert(sf.contains(sf[a]));
            assert(sf.to_multiset().count(sf[a]) > 0);
            assert(nodes_of(sv).to_multiset().count(sf[a]) > 0);
            assert(nodes_of(sv).contains(sf[a]));
            let k = choose|k: int| 0 <= k < nodes_of(sv).len() && nodes_of(sv)[k] == sf[a];
            assert(nodes_of(sv)[k] == node_of(sv[k]));
            lemma_surviving_member(es, k);
            assert(sorted_files@[a]@ == sf[a]);
            assert(sf[a].path == normalize_spec(sv[k].path));
        }
    }
    let file_count = sorted_files.len() as u64;
    Ok(
        ScanResult {
            files: sorted_files,
            stats: RepoStats { file_count, total_size },
            languages,
            top_dirs,
            module_files: sorted_mods,
        },
    )
}

} // verus!
