//! Byte-string constants of the index format.
//!
//! Each name exists twice: a spec function giving the byte sequence,
//! and an executable constructor proved to return exactly it.

use vstd::prelude::*;

verus! {

/// `"schemaVersion"` as bytes.
pub open spec fn lit_schema_version_key() -> Seq<u8> {
    seq!['s' as u8, 'c' as u8, 'h' as u8, 'e' as u8, 'm' as u8, 'a' as u8, 'V' as u8, 'e' as u8, 'r' as u8, 's' as u8, 'i' as u8, 'o' as u8, 'n' as u8]
}

/// Builds `"schemaVersion"` as a byte vector.
pub fn vec_schema_version_key() -> (r: Vec<u8>)
    ensures
        r@ == lit_schema_version_key(),
{
    let v: Vec<u8> = vec!['s' as u8, 'c' as u8, 'h' as u8, 'e' as u8, 'm' as u8, 'a' as u8, 'V' as u8, 'e' as u8, 'r' as u8, 's' as u8, 'i' as u8, 'o' as u8, 'n' as u8];
    proof {
        assert(v@ =~= lit_schema_version_key());
    }
    v
}

/// `"root"` as bytes.
pub open spec fn lit_root_key() -> Seq<u8> {
    seq!['r' as u8, 'o' as u8, 'o' as u8, 't' as u8]
}

/// Builds `"root"` as a byte vector.
pub fn vec_root_key() -> (r: Vec<u8>)
    ensures
        r@ == lit_root_key(),
{
    let v: Vec<u8> = vec!['r' as u8, 'o' as u8, 'o' as u8, 't' as u8];
    proof {
        assert(v@ =~= lit_root_key());
    }
    v
}

/// `"target"` as bytes.
pub open spec fn lit_target_key() -> Seq<u8> {
    seq!['t' as u8, 'a' as u8, 'r' as u8, 'g' as u8, 'e' as u8, 't' as u8]
}

/// Builds `"target"` as a byte vector.
pub fn vec_target_key() -> (r: Vec<u8>)
    ensures
        r@ == lit_target_key(),
{
    let v: Vec<u8> = vec!['t' as u8, 'a' as u8, 'r' as u8, 'g' as u8, 'e' as u8, 't' as u8];
    proof {
        assert(v@ =~= lit_target_key());
    }
    v
}

/// `"files"` as bytes.
pub open spec fn lit_files_key() -> Seq<u8> {
    seq!['f' as u8, 'i' as u8, 'l' as u8, 'e' as u8, 's' as u8]
}

/// Builds `"files"` as a byte vector.
pub fn vec_files_key() -> (r: Vec<u8>)
    ensures
        r@ == lit_files_key(),
{
    let v: Vec<u8> = vec!['f' as u8, 'i' as u8, 'l' as u8, 'e' as u8, 's' as u8];
    proof {
        assert(v@ =~= lit_files_key());
    }
    v
}

/// `"languages"` as bytes.
pub open spec fn lit_languages_key() -> Seq<u8> {
    seq!['l' as u8, 'a' as u8, 'n' as u8, 'g' as u8, 'u' as u8, 'a' as u8, 'g' as u8, 'e' as u8, 's' as u8]
}

/// Builds `"languages"` as a byte vector.
pub fn vec_languages_key() -> (r: Vec<u8>)
    ensures
        r@ == lit_languages_key(),
{
    let v: Vec<u8> = vec!['l' as u8, 'a' as u8, 'n' as u8, 'g' as u8, 'u' as u8, 'a' as u8, 'g' as u8, 'e' as u8, 's' as u8];
    proof {
        assert(v@ =~= lit_languages_key());
    }
    v
}

/// `"topDirs"` as bytes.
pub open spec fn lit_top_dirs_key() -> Seq<u8> {
    seq!['t' as u8, 'o' as u8, 'p' as u8, 'D' as u8, 'i' as u8, 'r' as u8, 's' as u8]
}

/// Builds `"topDirs"` as a byte vector.
pub fn vec_top_dirs_key() -> (r: Vec<u8>)
    ensures
        r@ == lit_top_dirs_key(),
{
    let v: Vec<u8> = vec!['t' as u8, 'o' as u8, 'p' as u8, 'D' as u8, 'i' as u8, 'r' as u8, 's' as u8];
    proof {
        assert(v@ =~= lit_top_dirs_key());
    }
    v
}

/// `"moduleFiles"` as bytes.
pub open spec fn lit_module_files_key() -> Seq<u8> {
    seq!['m' as u8, 'o' as u8, 'd' as u8, 'u' as u8, 'l' as u8, 'e' as u8, 'F' as u8, 'i' as u8, 'l' as u8, 'e' as u8, 's' as u8]
}

/// Builds `"moduleFiles"` as a byte vector.
pub fn vec_module_files_key() -> (r: Vec<u8>)
    ensures
        r@ == lit_module_files_key(),
{
    let v: Vec<u8> = vec!['m' as u8, 'o' as u8, 'd' as u8, 'u' as u8, 'l' as u8, 'e' as u8, 'F' as u8, 'i' as u8, 'l' as u8, 'e' as u8, 's' as u8];
    proof {
        assert(v@ =~= lit_module_files_key());
    }
    v
}

/// `"stats"` as bytes.
pub open spec fn lit_stats_key() -> Seq<u8> {
    seq!['s' as u8, 't' as u8, 'a' as u8, 't' as u8, 's' as u8]
}

/// Builds `"stats"` as a byte vector.
pub fn vec_stats_key() -> (r: Vec<u8>)
    ensures
        r@ == lit_stats_key(),
{
    let v: Vec<u8> = vec!['s' as u8, 't' as u8, 'a' as u8, 't' as u8, 's' as u8];
    proof {
        assert(v@ =~= lit_stats_key());
    }
    v
}

/// `"digest"` as bytes.
pub open spec fn lit_digest_key() -> Seq<u8> {
    seq!['d' as u8, 'i' as u8, 'g' as u8, 'e' as u8, 's' as u8, 't' as u8]
}

/// Builds `"digest"` as a byte vector.
pub fn vec_digest_key() -> (r: Vec<u8>)
    ensures
        r@ == lit_digest_key(),
{
    let v: Vec<u8> = vec!['d' as u8, 'i' as u8, 'g' as u8, 'e' as u8, 's' as u8, 't' as u8];
    proof {
        assert(v@ =~= lit_digest_key());
    }
    v
}

/// `"path"` as bytes.
pub open spec fn lit_path_key() -> Seq<u8> {
    seq!['p' as u8, 'a' as u8, 't' as u8, 'h' as u8]
}

/// Builds `"path"` as a byte vector.
pub fn vec_path_key() -> (r: Vec<u8>)
    ensures
        r@ == lit_path_key(),
{
    let v: Vec<u8> = vec!['p' as u8, 'a' as u8, 't' as u8, 'h' as u8];
    proof {
        assert(v@ =~= lit_path_key());
    }
    v
}

/// `"size"` as bytes.
pub open spec fn lit_size_key() -> Seq<u8> {
    seq!['s' as u8, 'i' as u8, 'z' as u8, 'e' as u8]
}

/// Builds `"size"` as a byte vector.
pub fn vec_size_key() -> (r: Vec<u8>)
    ensures
        r@ == lit_size_key(),
{
    let v: Vec<u8> = vec!['s' as u8, 'i' as u8, 'z' as u8, 'e' as u8];
    proof {
        assert(v@ =~= lit_size_key());
    }
    v
}

/// `"hash"` as bytes.
pub open spec fn lit_hash_key() -> Seq<u8> {
    seq!['h' as u8, 'a' as u8, 's' as u8, 'h' as u8]
}

/// Builds `"hash"` as a byte vector.
pub fn vec_hash_key() -> (r: Vec<u8>)
    ensures
        r@ == lit_hash_key(),
{
    let v: Vec<u8> = vec!['h' as u8, 'a' as u8, 's' as u8, 'h' as u8];
    proof {
        assert(v@ =~= lit_hash_key());
    }
    v
}

/// `"lang"` as bytes.
pub open spec fn lit_lang_key() -> Seq<u8> {
    seq!['l' as u8, 'a' as u8, 'n' as u8, 'g' as u8]
}

/// Builds `"lang"` as a byte vector.
pub fn vec_lang_key() -> (r: Vec<u8>)
    ensures
        r@ == lit_lang_key(),
{
    let v: Vec<u8> = vec!['l' as u8, 'a' as u8, 'n' as u8, 'g' as u8];
    proof {
        assert(v@ =~= lit_lang_key());
    }
    v
}

/// `"loc"` as bytes.
pub open spec fn lit_loc_key() -> Seq<u8> {
    seq!['l' as u8, 'o' as u8, 'c' as u8]
}

/// Builds `"loc"` as a byte vector.
pub fn vec_loc_key() -> (r: Vec<u8>)
    ensures
        r@ == lit_loc_key(),
{
    let v: Vec<u8> = vec!['l' as u8, 'o' as u8, 'c' as u8];
    proof {
        assert(v@ =~= lit_loc_key());
    }
    v
}

/// `"complexity"` as bytes.
pub open spec fn lit_complexity_key() -> Seq<u8> {
    seq!['c' as u8, 'o' as u8, 'm' as u8, 'p' as u8, 'l' as u8, 'e' as u8, 'x' as u8, 'i' as u8, 't' as u8, 'y' as u8]
}

/// Builds `"complexity"` as a byte vector.
pub fn vec_complexity_key() -> (r: Vec<u8>)
    ensures
        r@ == lit_complexity_key(),
{
    let v: Vec<u8> = vec!['c' as u8, 'o' as u8, 'm' as u8, 'p' as u8, 'l' as u8, 'e' as u8, 'x' as u8, 'i' as u8, 't' as u8, 'y' as u8];
    proof {
        assert(v@ =~= lit_complexity_key());
    }
    v
}

/// `"fileCount"` as bytes.
pub open spec fn lit_file_count_key() -> Seq<u8> {
    seq!['f' as u8, 'i' as u8, 'l' as u8, 'e' as u8, 'C' as u8, 'o' as u8, 'u' as u8, 'n' as u8, 't' as u8]
}

/// Builds `"fileCount"` as a byte vector.
pub fn vec_file_count_key() -> (r: Vec<u8>)
    ensures
        r@ == lit_file_count_key(),
{
    let v: Vec<u8> = vec!['f' as u8, 'i' as u8, 'l' as u8, 'e' as u8, 'C' as u8, 'o' as u8, 'u' as u8, 'n' as u8, 't' as u8];
    proof {
        assert(v@ =~= lit_file_count_key());
    }
    v
}

/// `"totalSize"` as bytes.
pub open spec fn lit_total_size_key() -> Seq<u8> {
    seq!['t' as u8, 'o' as u8, 't' as u8, 'a' as u8, 'l' as u8, 'S' as u8, 'i' as u8, 'z' as u8, 'e' as u8]
}

/// Builds `"totalSize"` as a byte vector.
pub fn vec_total_size_key() -> (r: Vec<u8>)
    ensures
        r@ == lit_total_size_key(),
{
    let v: Vec<u8> = vec!['t' as u8, 'o' as u8, 't' as u8, 'a' as u8, 'l' as u8, 'S' as u8, 'i' as u8, 'z' as u8, 'e' as u8];
    proof {
        assert(v@ =~= lit_total_size_key());
    }
    v
}

/// `"1.0.0"` as bytes.
pub open spec fn lit_schema_version_value() -> Seq<u8> {
    seq!['1' as u8, '.' as u8, '0' as u8, '.' as u8, '0' as u8]
}

/// Builds `"1.0.0"` as a byte vector.
pub fn vec_schema_version_value() -> (r: Vec<u8>)
    ensures
        r@ == lit_schema_version_value(),
{
    let v: Vec<u8> = vec!['1' as u8, '.' as u8, '0' as u8, '.' as u8, '0' as u8];
    proof {
        assert(v@ =~= lit_schema_version_value());
    }
    v
}

/// `"unknown"` as bytes.
pub open spec fn lit_unknown_root() -> Seq<u8> {
    seq!['u' as u8, 'n' as u8, 'k' as u8, 'n' as u8, 'o' as u8, 'w' as u8, 'n' as u8]
}

/// Builds `"unknown"` as a byte vector.
pub fn vec_unknown_root() -> (r: Vec<u8>)
    ensures
        r@ == lit_unknown_root(),
{
    let v: Vec<u8> = vec!['u' as u8, 'n' as u8, 'k' as u8, 'n' as u8, 'o' as u8, 'w' as u8, 'n' as u8];
    proof {
        assert(v@ =~= lit_unknown_root());
    }
    v
}

/// `"."` as bytes.
pub open spec fn lit_dot() -> Seq<u8> {
    seq!['.' as u8]
}

/// Builds `"."` as a byte vector.
pub fn vec_dot() -> (r: Vec<u8>)
    ensures
        r@ == lit_dot(),
{
    let v: Vec<u8> = vec!['.' as u8];
    proof {
        assert(v@ =~= lit_dot());
    }
    v
}

/// `""` as bytes.
pub open spec fn lit_empty() -> Seq<u8> {
    Seq::<u8>::empty()
}


/// `"sha256:"` as bytes.
pub open spec fn lit_sha256_prefix() -> Seq<u8> {
    seq!['s' as u8, 'h' as u8, 'a' as u8, '2' as u8, '5' as u8, '6' as u8, ':' as u8]
}

/// Builds `"sha256:"` as a byte vector.
pub fn vec_sha256_prefix() -> (r: Vec<u8>)
    ensures
        r@ == lit_sha256_prefix(),
{
    let v: Vec<u8> = vec!['s' as u8, 'h' as u8, 'a' as u8, '2' as u8, '5' as u8, '6' as u8, ':' as u8];
    proof {
        assert(v@ =~= lit_sha256_prefix());
    }
    v
}

/// `"Dockerfile"` as bytes.
pub open spec fn lit_lang_dockerfile() -> Seq<u8> {
    seq!['D' as u8, 'o' as u8, 'c' as u8, 'k' as u8, 'e' as u8, 'r' as u8, 'f' as u8, 'i' as u8, 'l' as u8, 'e' as u8]
}

/// Builds `"Dockerfile"` as a byte vector.
pub fn vec_lang_dockerfile() -> (r: Vec<u8>)
    ensures
        r@ == lit_lang_dockerfile(),
{
    let v: Vec<u8> = vec!['D' as u8, 'o' as u8, 'c' as u8, 'k' as u8, 'e' as u8, 'r' as u8, 'f' as u8, 'i' as u8, 'l' as u8, 'e' as u8];
    proof {
        assert(v@ =~= lit_lang_dockerfile());
    }
    v
}

/// `"Makefile"` as bytes.
pub open spec fn lit_lang_makefile() -> Seq<u8> {
    seq!['M' as u8, 'a' as u8, 'k' as u8, 'e' as u8, 'f' as u8, 'i' as u8, 'l' as u8, 'e' as u8]
}

/// Builds `"Makefile"` as a byte vector.
pub fn vec_lang_makefile() -> (r: Vec<u8>)
    ensures
        r@ == lit_lang_makefile(),
{
    let v: Vec<u8> = vec!['M' as u8, 'a' as u8, 'k' as u8, 'e' as u8, 'f' as u8, 'i' as u8, 'l' as u8, 'e' as u8];
    proof {
        assert(v@ =~= lit_lang_makefile());
    }
    v
}

/// `"Go"` as bytes.
pub open spec fn lit_lang_go() -> Seq<u8> {
    seq!['G' as u8, 'o' as u8]
}

/// Builds `"Go"` as a byte vector.
pub fn vec_lang_go() -> (r: Vec<u8>)
    ensures
        r@ == lit_lang_go(),
{
    let v: Vec<u8> = vec!['G' as u8, 'o' as u8];
    proof {
        assert(v@ =~= lit_lang_go());
    }
    v
}

/// `"Rust"` as bytes.
pub open spec fn lit_lang_rust() -> Seq<u8> {
    seq!['R' as u8, 'u' as u8, 's' as u8, 't' as u8]
}

/// Builds `"Rust"` as a byte vector.
pub fn vec_lang_rust() -> (r: Vec<u8>)
    ensures
        r@ == lit_lang_rust(),
{
    let v: Vec<u8> = vec!['R' as u8, 'u' as u8, 's' as u8, 't' as u8];
    proof {
        assert(v@ =~= lit_lang_rust());
    }
    v
}

/// `"Markdown"` as bytes.
pub open spec fn lit_lang_markdown() -> Seq<u8> {
    seq!['M' as u8, 'a' as u8, 'r' as u8, 'k' as u8, 'd' as u8, 'o' as u8, 'w' as u8, 'n' as u8]
}

/// Builds `"Markdown"` as a byte vector.
pub fn vec_lang_markdown() -> (r: Vec<u8>)
    ensures
        r@ == lit_lang_markdown(),
{
    let v: Vec<u8> = vec!['M' as u8, 'a' as u8, 'r' as u8, 'k' as u8, 'd' as u8, 'o' as u8, 'w' as u8, 'n' as u8];
    proof {
        assert(v@ =~= lit_lang_markdown());
    }
    v
}

/// `"JSON"` as bytes.
pub open spec fn lit_lang_json() -> Seq<u8> {
    seq!['J' as u8, 'S' as u8, 'O' as u8, 'N' as u8]
}

/// Builds `"JSON"` as a byte vector.
pub fn vec_lang_json() -> (r: Vec<u8>)
    ensures
        r@ == lit_lang_json(),
{
    let v: Vec<u8> = vec!['J' as u8, 'S' as u8, 'O' as u8, 'N' as u8];
    proof {
        assert(v@ =~= lit_lang_json());
    }
    v
}

/// `"JavaScript"` as bytes.
pub open spec fn lit_lang_javascript() -> Seq<u8> {
    seq!['J' as u8, 'a' as u8, 'v' as u8, 'a' as u8, 'S' as u8, 'c' as u8, 'r' as u8, 'i' as u8, 'p' as u8, 't' as u8]
}

/// Builds `"JavaScript"` as a byte vector.
pub fn vec_lang_javascript() -> (r: Vec<u8>)
    ensures
        r@ == lit_lang_javascript(),
{
    let v: Vec<u8> = vec!['J' as u8, 'a' as u8, 'v' as u8, 'a' as u8, 'S' as u8, 'c' as u8, 'r' as u8, 'i' as u8, 'p' as u8, 't' as u8];
    proof {
        assert(v@ =~= lit_lang_javascript());
    }
    v
}

/// `"TypeScript"` as bytes.
pub open spec fn lit_lang_typescript() -> Seq<u8> {
    seq!['T' as u8, 'y' as u8, 'p' as u8, 'e' as u8, 'S' as u8, 'c' as u8, 'r' as u8, 'i' as u8, 'p' as u8, 't' as u8]
}

/// Builds `"TypeScript"` as a byte vector.
pub fn vec_lang_typescript() -> (r: Vec<u8>)
    ensures
        r@ == lit_lang_typescript(),
{
    let v: Vec<u8> = vec!['T' as u8, 'y' as u8, 'p' as u8, 'e' as u8, 'S' as u8, 'c' as u8, 'r' as u8, 'i' as u8, 'p' as u8, 't' as u8];
    proof {
        assert(v@ =~= lit_lang_typescript());
    }
    v
}

/// `"YAML"` as bytes.
pub open spec fn lit_lang_yaml() -> Seq<u8> {
    seq!['Y' as u8, 'A' as u8, 'M' as u8, 'L' as u8]
}

/// Builds `"YAML"` as a byte vector.
pub fn vec_lang_yaml() -> (r: Vec<u8>)
    ensures
        r@ == lit_lang_yaml(),
{
    let v: Vec<u8> = vec!['Y' as u8, 'A' as u8, 'M' as u8, 'L' as u8];
    proof {
        assert(v@ =~= lit_lang_yaml());
    }
    v
}

/// `"TOML"` as bytes.
pub open spec fn lit_lang_toml() -> Seq<u8> {
    seq!['T' as u8, 'O' as u8, 'M' as u8, 'L' as u8]
}

/// Builds `"TOML"` as a byte vector.
pub fn vec_lang_toml() -> (r: Vec<u8>)
    ensures
        r@ == lit_lang_toml(),
{
    let v: Vec<u8> = vec!['T' as u8, 'O' as u8, 'M' as u8, 'L' as u8];
    proof {
        assert(v@ =~= lit_lang_toml());
    }
    v
}

/// `"Shell"` as bytes.
pub open spec fn lit_lang_shell() -> Seq<u8> {
    seq!['S' as u8, 'h' as u8, 'e' as u8, 'l' as u8, 'l' as u8]
}

/// Builds `"Shell"` as a byte vector.
pub fn vec_lang_shell() -> (r: Vec<u8>)
    ensures
        r@ == lit_lang_shell(),
{
    let v: Vec<u8> = vec!['S' as u8, 'h' as u8, 'e' as u8, 'l' as u8, 'l' as u8];
    proof {
        assert(v@ =~= lit_lang_shell());
    }
    v
}

/// `"HTML"` as bytes.
pub open spec fn lit_lang_html() -> Seq<u8> {
    seq!['H' as u8, 'T' as u8, 'M' as u8, 'L' as u8]
}

/// Builds `"HTML"` as a byte vector.
pub fn vec_lang_html() -> (r: Vec<u8>)
    ensures
        r@ == lit_lang_html(),
{
    let v: Vec<u8> = vec!['H' as u8, 'T' as u8, 'M' as u8, 'L' as u8];
    proof {
        assert(v@ =~= lit_lang_html());
    }
    v
}

/// `"CSS"` as bytes.
pub open spec fn lit_lang_css() -> Seq<u8> {
    seq!['C' as u8, 'S' as u8, 'S' as u8]
}

/// Builds `"CSS"` as a byte vector.
pub fn vec_lang_css() -> (r: Vec<u8>)
    ensures
        r@ == lit_lang_css(),
{
    let v: Vec<u8> = vec!['C' as u8, 'S' as u8, 'S' as u8];
    proof {
        assert(v@ =~= lit_lang_css());
    }
    v
}

/// `"SQL"` as bytes.
pub open spec fn lit_lang_sql() -> Seq<u8> {
    seq!['S' as u8, 'Q' as u8, 'L' as u8]
}

/// Builds `"SQL"` as a byte vector.
pub fn vec_lang_sql() -> (r: Vec<u8>)
    ensures
        r@ == lit_lang_sql(),
{
    let v: Vec<u8> = vec!['S' as u8, 'Q' as u8, 'L' as u8];
    proof {
        assert(v@ =~= lit_lang_sql());
    }
    v
}

/// `"Python"` as bytes.
pub open spec fn lit_lang_python() -> Seq<u8> {
    seq!['P' as u8, 'y' as u8, 't' as u8, 'h' as u8, 'o' as u8, 'n' as u8]
}

/// Builds `"Python"` as a byte vector.
pub fn vec_lang_python() -> (r: Vec<u8>)
    ensures
        r@ == lit_lang_python(),
{
    let v: Vec<u8> = vec!['P' as u8, 'y' as u8, 't' as u8, 'h' as u8, 'o' as u8, 'n' as u8];
    proof {
        assert(v@ =~= lit_lang_python());
    }
    v
}

/// `"Java"` as bytes.
pub open spec fn lit_lang_java() -> Seq<u8> {
    seq!['J' as u8, 'a' as u8, 'v' as u8, 'a' as u8]
}

/// Builds `"Java"` as a byte vector.
pub fn vec_lang_java() -> (r: Vec<u8>)
    ensures
        r@ == lit_lang_java(),
{
    let v: Vec<u8> = vec!['J' as u8, 'a' as u8, 'v' as u8, 'a' as u8];
    proof {
        assert(v@ =~= lit_lang_java());
    }
    v
}

/// `"C"` as bytes.
pub open spec fn lit_lang_c() -> Seq<u8> {
    seq!['C' as u8]
}

/// Builds `"C"` as a byte vector.
pub fn vec_lang_c() -> (r: Vec<u8>)
    ensures
        r@ == lit_lang_c(),
{
    let v: Vec<u8> = vec!['C' as u8];
    proof {
        assert(v@ =~= lit_lang_c());
    }
    v
}

/// `"C++"` as bytes.
pub open spec fn lit_lang_cpp() -> Seq<u8> {
    seq!['C' as u8, '+' as u8, '+' as u8]
}

/// Builds `"C++"` as a byte vector.
pub fn vec_lang_cpp() -> (r: Vec<u8>)
    ensures
        r@ == lit_lang_cpp(),
{
    let v: Vec<u8> = vec!['C' as u8, '+' as u8, '+' as u8];
    proof {
        assert(v@ =~= lit_lang_cpp());
    }
    v
}

/// `"Terraform"` as bytes.
pub open spec fn lit_lang_terraform() -> Seq<u8> {
    seq!['T' as u8, 'e' as u8, 'r' as u8, 'r' as u8, 'a' as u8, 'f' as u8, 'o' as u8, 'r' as u8, 'm' as u8]
}

/// Builds `"Terraform"` as a byte vector.
pub fn vec_lang_terraform() -> (r: Vec<u8>)
    ensures
        r@ == lit_lang_terraform(),
{
    let v: Vec<u8> = vec!['T' as u8, 'e' as u8, 'r' as u8, 'r' as u8, 'a' as u8, 'f' as u8, 'o' as u8, 'r' as u8, 'm' as u8];
    proof {
        assert(v@ =~= lit_lang_terraform());
    }
    v
}

/// `"Text"` as bytes.
pub open spec fn lit_lang_text() -> Seq<u8> {
    seq!['T' as u8, 'e' as u8, 'x' as u8, 't' as u8]
}

/// Builds `"Text"` as a byte vector.
pub fn vec_lang_text() -> (r: Vec<u8>)
    ensures
        r@ == lit_lang_text(),
{
    let v: Vec<u8> = vec!['T' as u8, 'e' as u8, 'x' as u8, 't' as u8];
    proof {
        assert(v@ =~= lit_lang_text());
    }
    v
}

/// `"Unknown"` as bytes.
pub open spec fn lit_lang_unknown() -> Seq<u8> {
    seq!['U' as u8, 'n' as u8, 'k' as u8, 'n' as u8, 'o' as u8, 'w' as u8, 'n' as u8]
}

/// Builds `"Unknown"` as a byte vector.
pub fn vec_lang_unknown() -> (r: Vec<u8>)
    ensures
        r@ == lit_lang_unknown(),
{
    let v: Vec<u8> = vec!['U' as u8, 'n' as u8, 'k' as u8, 'n' as u8, 'o' as u8, 'w' as u8, 'n' as u8];
    proof {
        assert(v@ =~= lit_lang_unknown());
    }
    v
}

/// `"dockerfile"` as bytes.
pub open spec fn lit_name_dockerfile() -> Seq<u8> {
    seq!['d' as u8, 'o' as u8, 'c' as u8, 'k' as u8, 'e' as u8, 'r' as u8, 'f' as u8, 'i' as u8, 'l' as u8, 'e' as u8]
}

/// Builds `"dockerfile"` as a byte vector.
pub fn vec_name_dockerfile() -> (r: Vec<u8>)
    ensures
        r@ == lit_name_dockerfile(),
{
    let v: Vec<u8> = vec!['d' as u8, 'o' as u8, 'c' as u8, 'k' as u8, 'e' as u8, 'r' as u8, 'f' as u8, 'i' as u8, 'l' as u8, 'e' as u8];
    proof {
        assert(v@ =~= lit_name_dockerfile());
    }
    v
}

/// `"makefile"` as bytes.
pub open spec fn lit_name_makefile() -> Seq<u8> {
    seq!['m' as u8, 'a' as u8, 'k' as u8, 'e' as u8, 'f' as u8, 'i' as u8, 'l' as u8, 'e' as u8]
}

/// Builds `"makefile"` as a byte vector.
pub fn vec_name_makefile() -> (r: Vec<u8>)
    ensures
        r@ == lit_name_makefile(),
{
    let v: Vec<u8> = vec!['m' as u8, 'a' as u8, 'k' as u8, 'e' as u8, 'f' as u8, 'i' as u8, 'l' as u8, 'e' as u8];
    proof {
        assert(v@ =~= lit_name_makefile());
    }
    v
}

/// `"go"` as bytes.
pub open spec fn lit_ext_go() -> Seq<u8> {
    seq!['g' as u8, 'o' as u8]
}

/// Builds `"go"` as a byte vector.
pub fn vec_ext_go() -> (r: Vec<u8>)
    ensures
        r@ == lit_ext_go(),
{
    let v: Vec<u8> = vec!['g' as u8, 'o' as u8];
    proof {
        assert(v@ =~= lit_ext_go());
    }
    v
}

/// `"rs"` as bytes.
pub open spec fn lit_ext_rs() -> Seq<u8> {
    seq!['r' as u8, 's' as u8]
}

/// Builds `"rs"` as a byte vector.
pub fn vec_ext_rs() -> (r: Vec<u8>)
    ensures
        r@ == lit_ext_rs(),
{
    let v: Vec<u8> = vec!['r' as u8, 's' as u8];
    proof {
        assert(v@ =~= lit_ext_rs());
    }
    v
}

/// `"md"` as bytes.
pub open spec fn lit_ext_md() -> Seq<u8> {
    seq!['m' as u8, 'd' as u8]
}

/// Builds `"md"` as a byte vector.
pub fn vec_ext_md() -> (r: Vec<u8>)
    ensures
        r@ == lit_ext_md(),
{
    let v: Vec<u8> = vec!['m' as u8, 'd' as u8];
    proof {
        assert(v@ =~= lit_ext_md());
    }
    v
}

/// `"json"` as bytes.
pub open spec fn lit_ext_json() -> Seq<u8> {
    seq!['j' as u8, 's' as u8, 'o' as u8, 'n' as u8]
}

/// Builds `"json"` as a byte vector.
pub fn vec_ext_json() -> (r: Vec<u8>)
    ensures
        r@ == lit_ext_json(),
{
    let v: Vec<u8> = vec!['j' as u8, 's' as u8, 'o' as u8, 'n' as u8];
    proof {
        assert(v@ =~= lit_ext_json());
    }
    v
}

/// `"js"` as bytes.
pub open spec fn lit_ext_js() -> Seq<u8> {
    seq!['j' as u8, 's' as u8]
}

/// Builds `"js"` as a byte vector.
pub fn vec_ext_js() -> (r: Vec<u8>)
    ensures
        r@ == lit_ext_js(),
{
    let v: Vec<u8> = vec!['j' as u8, 's' as u8];
    proof {
        assert(v@ =~= lit_ext_js());
    }
    v
}

/// `"ts"` as bytes.
pub open spec fn lit_ext_ts() -> Seq<u8> {
    seq!['t' as u8, 's' as u8]
}

/// Builds `"ts"` as a byte vector.
pub fn vec_ext_ts() -> (r: Vec<u8>)
    ensures
        r@ == lit_ext_ts(),
{
    let v: Vec<u8> = vec!['t' as u8, 's' as u8];
    proof {
        assert(v@ =~= lit_ext_ts());
    }
    v
}

/// `"yaml"` as bytes.
pub open spec fn lit_ext_yaml() -> Seq<u8> {
    seq!['y' as u8, 'a' as u8, 'm' as u8, 'l' as u8]
}

/// Builds `"yaml"` as a byte vector.
pub fn vec_ext_yaml() -> (r: Vec<u8>)
    ensures
        r@ == lit_ext_yaml(),
{
    let v: Vec<u8> = vec!['y' as u8, 'a' as u8, 'm' as u8, 'l' as u8];
    proof {
        assert(v@ =~= lit_ext_yaml());
    }
    v
}

/// `"yml"` as bytes.
pub open spec fn lit_ext_yml() -> Seq<u8> {
    seq!['y' as u8, 'm' as u8, 'l' as u8]
}

/// Builds `"yml"` as a byte vector.
pub fn vec_ext_yml() -> (r: Vec<u8>)
    ensures
        r@ == lit_ext_yml(),
{
    let v: Vec<u8> = vec!['y' as u8, 'm' as u8, 'l' as u8];
    proof {
        assert(v@ =~= lit_ext_yml());
    }
    v
}

/// `"toml"` as bytes.
pub open spec fn lit_ext_toml() -> Seq<u8> {
    seq!['t' as u8, 'o' as u8, 'm' as u8, 'l' as u8]
}

/// Builds `"toml"` as a byte vector.
pub fn vec_ext_toml() -> (r: Vec<u8>)
    ensures
        r@ == lit_ext_toml(),
{
    let v: Vec<u8> = vec!['t' as u8, 'o' as u8, 'm' as u8, 'l' as u8];
    proof {
        assert(v@ =~= lit_ext_toml());
    }
    v
}

/// `"sh"` as bytes.
pub open spec fn lit_ext_sh() -> Seq<u8> {
    seq!['s' as u8, 'h' as u8]
}

/// Builds `"sh"` as a byte vector.
pub fn vec_ext_sh() -> (r: Vec<u8>)
    ensures
        r@ == lit_ext_sh(),
{
    let v: Vec<u8> = vec!['s' as u8, 'h' as u8];
    proof {
        assert(v@ =~= lit_ext_sh());
    }
    v
}

/// `"bash"` as bytes.
pub open spec fn lit_ext_bash() -> Seq<u8> {
    seq!['b' as u8, 'a' as u8, 's' as u8, 'h' as u8]
}

/// Builds `"bash"` as a byte vector.
pub fn vec_ext_bash() -> (r: Vec<u8>)
    ensures
        r@ == lit_ext_bash(),
{
    let v: Vec<u8> = vec!['b' as u8, 'a' as u8, 's' as u8, 'h' as u8];
    proof {
        assert(v@ =~= lit_ext_bash());
    }
    v
}

/// `"html"` as bytes.
pub open spec fn lit_ext_html() -> Seq<u8> {
    seq!['h' as u8, 't' as u8, 'm' as u8, 'l' as u8]
}

/// Builds `"html"` as a byte vector.
pub fn vec_ext_html() -> (r: Vec<u8>)
    ensures
        r@ == lit_ext_html(),
{
    let v: Vec<u8> = vec!['h' as u8, 't' as u8, 'm' as u8, 'l' as u8];
    proof {
        assert(v@ =~= lit_ext_html());
    }
    v
}

/// `"htm"` as bytes.
pub open spec fn lit_ext_htm() -> Seq<u8> {
    seq!['h' as u8, 't' as u8, 'm' as u8]
}

/// Builds `"htm"` as a byte vector.
pub fn vec_ext_htm() -> (r: Vec<u8>)
    ensures
        r@ == lit_ext_htm(),
{
    let v: Vec<u8> = vec!['h' as u8, 't' as u8, 'm' as u8];
    proof {
        assert(v@ =~= lit_ext_htm());
    }
    v
}

/// `"css"` as bytes.
pub open spec fn lit_ext_css() -> Seq<u8> {
    seq!['c' as u8, 's' as u8, 's' as u8]
}

/// Builds `"css"` as a byte vector.
pub fn vec_ext_css() -> (r: Vec<u8>)
    ensures
        r@ == lit_ext_css(),
{
    let v: Vec<u8> = vec!['c' as u8, 's' as u8, 's' as u8];
    proof {
        assert(v@ =~= lit_ext_css());
    }
    v
}

/// `"sql"` as bytes.
pub open spec fn lit_ext_sql() -> Seq<u8> {
    seq!['s' as u8, 'q' as u8, 'l' as u8]
}

/// Builds `"sql"` as a byte vector.
pub fn vec_ext_sql() -> (r: Vec<u8>)
    ensures
        r@ == lit_ext_sql(),
{
    let v: Vec<u8> = vec!['s' as u8, 'q' as u8, 'l' as u8];
    proof {
        assert(v@ =~= lit_ext_sql());
    }
    v
}

/// `"py"` as bytes.
pub open spec fn lit_ext_py() -> Seq<u8> {
    seq!['p' as u8, 'y' as u8]
}

/// Builds `"py"` as a byte vector.
pub fn vec_ext_py() -> (r: Vec<u8>)
    ensures
        r@ == lit_ext_py(),
{
    let v: Vec<u8> = vec!['p' as u8, 'y' as u8];
    proof {
        assert(v@ =~= lit_ext_py());
    }
    v
}

/// `"java"` as bytes.
pub open spec fn lit_ext_java() -> Seq<u8> {
    seq!['j' as u8, 'a' as u8, 'v' as u8, 'a' as u8]
}

/// Builds `"java"` as a byte vector.
pub fn vec_ext_java() -> (r: Vec<u8>)
    ensures
        r@ == lit_ext_java(),
{
    let v: Vec<u8> = vec!['j' as u8, 'a' as u8, 'v' as u8, 'a' as u8];
    proof {
        assert(v@ =~= lit_ext_java());
    }
    v
}

/// `"c"` as bytes.
pub open spec fn lit_ext_c() -> Seq<u8> {
    seq!['c' as u8]
}

/// Builds `"c"` as a byte vector.
pub fn vec_ext_c() -> (r: Vec<u8>)
    ensures
        r@ == lit_ext_c(),
{
    let v: Vec<u8> = vec!['c' as u8];
    proof {
        assert(v@ =~= lit_ext_c());
    }
    v
}

/// `"h"` as bytes.
pub open spec fn lit_ext_h() -> Seq<u8> {
    seq!['h' as u8]
}

/// Builds `"h"` as a byte vector.
pub fn vec_ext_h() -> (r: Vec<u8>)
    ensures
        r@ == lit_ext_h(),
{
    let v: Vec<u8> = vec!['h' as u8];
    proof {
        assert(v@ =~= lit_ext_h());
    }
    v
}

/// `"cpp"` as bytes.
pub open spec fn lit_ext_cpp() -> Seq<u8> {
    seq!['c' as u8, 'p' as u8, 'p' as u8]
}

/// Builds `"cpp"` as a byte vector.
pub fn vec_ext_cpp() -> (r: Vec<u8>)
    ensures
        r@ == lit_ext_cpp(),
{
    let v: Vec<u8> = vec!['c' as u8, 'p' as u8, 'p' as u8];
    proof {
        assert(v@ =~= lit_ext_cpp());
    }
    v
}

/// `"hpp"` as bytes.
pub open spec fn lit_ext_hpp() -> Seq<u8> {
    seq!['h' as u8, 'p' as u8, 'p' as u8]
}

/// Builds `"hpp"` as a byte vector.
pub fn vec_ext_hpp() -> (r: Vec<u8>)
    ensures
        r@ == lit_ext_hpp(),
{
    let v: Vec<u8> = vec!['h' as u8, 'p' as u8, 'p' as u8];
    proof {
        assert(v@ =~= lit_ext_hpp());
    }
    v
}

/// `"cc"` as bytes.
pub open spec fn lit_ext_cc() -> Seq<u8> {
    seq!['c' as u8, 'c' as u8]
}

/// Builds `"cc"` as a byte vector.
pub fn vec_ext_cc() -> (r: Vec<u8>)
    ensures
        r@ == lit_ext_cc(),
{
    let v: Vec<u8> = vec!['c' as u8, 'c' as u8];
    proof {
        assert(v@ =~= lit_ext_cc());
    }
    v
}

/// `"cxx"` as bytes.
pub open spec fn lit_ext_cxx() -> Seq<u8> {
    seq!['c' as u8, 'x' as u8, 'x' as u8]
}

/// Builds `"cxx"` as a byte vector.
pub fn vec_ext_cxx() -> (r: Vec<u8>)
    ensures
        r@ == lit_ext_cxx(),
{
    let v: Vec<u8> = vec!['c' as u8, 'x' as u8, 'x' as u8];
    proof {
        assert(v@ =~= lit_ext_cxx());
    }
    v
}

/// `"tf"` as bytes.
pub open spec fn lit_ext_tf() -> Seq<u8> {
    seq!['t' as u8, 'f' as u8]
}

/// Builds `"tf"` as a byte vector.
pub fn vec_ext_tf() -> (r: Vec<u8>)
    ensures
        r@ == lit_ext_tf(),
{
    let v: Vec<u8> = vec!['t' as u8, 'f' as u8];
    proof {
        assert(v@ =~= lit_ext_tf());
    }
    v
}

/// `"txt"` as bytes.
pub open spec fn lit_ext_txt() -> Seq<u8> {
    seq!['t' as u8, 'x' as u8, 't' as u8]
}

/// Builds `"txt"` as a byte vector.
pub fn vec_ext_txt() -> (r: Vec<u8>)
    ensures
        r@ == lit_ext_txt(),
{
    let v: Vec<u8> = vec!['t' as u8, 'x' as u8, 't' as u8];
    proof {
        assert(v@ =~= lit_ext_txt());
    }
    v
}

/// `"text"` as bytes.
pub open spec fn lit_ext_text() -> Seq<u8> {
    seq!['t' as u8, 'e' as u8, 'x' as u8, 't' as u8]
}

/// Builds `"text"` as a byte vector.
pub fn vec_ext_text() -> (r: Vec<u8>)
    ensures
        r@ == lit_ext_text(),
{
    let v: Vec<u8> = vec!['t' as u8, 'e' as u8, 'x' as u8, 't' as u8];
    proof {
        assert(v@ =~= lit_ext_text());
    }
    v
}

/// `".git"` as bytes.
pub open spec fn lit_ig_git() -> Seq<u8> {
    seq!['.' as u8, 'g' as u8, 'i' as u8, 't' as u8]
}

/// Builds `".git"` as a byte vector.
pub fn vec_ig_git() -> (r: Vec<u8>)
    ensures
        r@ == lit_ig_git(),
{
    let v: Vec<u8> = vec!['.' as u8, 'g' as u8, 'i' as u8, 't' as u8];
    proof {
        assert(v@ =~= lit_ig_git());
    }
    v
}

/// `"node_modules"` as bytes.
pub open spec fn lit_ig_node_modules() -> Seq<u8> {
    seq!['n' as u8, 'o' as u8, 'd' as u8, 'e' as u8, '_' as u8, 'm' as u8, 'o' as u8, 'd' as u8, 'u' as u8, 'l' as u8, 'e' as u8, 's' as u8]
}

/// Builds `"node_modules"` as a byte vector.
pub fn vec_ig_node_modules() -> (r: Vec<u8>)
    ensures
        r@ == lit_ig_node_modules(),
{
    let v: Vec<u8> = vec!['n' as u8, 'o' as u8, 'd' as u8, 'e' as u8, '_' as u8, 'm' as u8, 'o' as u8, 'd' as u8, 'u' as u8, 'l' as u8, 'e' as u8, 's' as u8];
    proof {
        assert(v@ =~= lit_ig_node_modules());
    }
    v
}

/// `"dist"` as bytes.
pub open spec fn lit_ig_dist() -> Seq<u8> {
    seq!['d' as u8, 'i' as u8, 's' as u8, 't' as u8]
}

/// Builds `"dist"` as a byte vector.
pub fn vec_ig_dist() -> (r: Vec<u8>)
    ensures
        r@ == lit_ig_dist(),
{
    let v: Vec<u8> = vec!['d' as u8, 'i' as u8, 's' as u8, 't' as u8];
    proof {
        assert(v@ =~= lit_ig_dist());
    }
    v
}

/// `"build"` as bytes.
pub open spec fn lit_ig_build() -> Seq<u8> {
    seq!['b' as u8, 'u' as u8, 'i' as u8, 'l' as u8, 'd' as u8]
}

/// Builds `"build"` as a byte vector.
pub fn vec_ig_build() -> (r: Vec<u8>)
    ensures
        r@ == lit_ig_build(),
{
    let v: Vec<u8> = vec!['b' as u8, 'u' as u8, 'i' as u8, 'l' as u8, 'd' as u8];
    proof {
        assert(v@ =~= lit_ig_build());
    }
    v
}

/// `"out"` as bytes.
pub open spec fn lit_ig_out() -> Seq<u8> {
    seq!['o' as u8, 'u' as u8, 't' as u8]
}

/// Builds `"out"` as a byte vector.
pub fn vec_ig_out() -> (r: Vec<u8>)
    ensures
        r@ == lit_ig_out(),
{
    let v: Vec<u8> = vec!['o' as u8, 'u' as u8, 't' as u8];
    proof {
        assert(v@ =~= lit_ig_out());
    }
    v
}

/// `"vendor"` as bytes.
pub open spec fn lit_ig_vendor() -> Seq<u8> {
    seq!['v' as u8, 'e' as u8, 'n' as u8, 'd' as u8, 'o' as u8, 'r' as u8]
}

/// Builds `"vendor"` as a byte vector.
pub fn vec_ig_vendor() -> (r: Vec<u8>)
    ensures
        r@ == lit_ig_vendor(),
{
    let v: Vec<u8> = vec!['v' as u8, 'e' as u8, 'n' as u8, 'd' as u8, 'o' as u8, 'r' as u8];
    proof {
        assert(v@ =~= lit_ig_vendor());
    }
    v
}

/// `"target"` as bytes.
pub open spec fn lit_ig_target() -> Seq<u8> {
    seq!['t' as u8, 'a' as u8, 'r' as u8, 'g' as u8, 'e' as u8, 't' as u8]
}

/// Builds `"target"` as a byte vector.
pub fn vec_ig_target() -> (r: Vec<u8>)
    ensures
        r@ == lit_ig_target(),
{
    let v: Vec<u8> = vec!['t' as u8, 'a' as u8, 'r' as u8, 'g' as u8, 'e' as u8, 't' as u8];
    proof {
        assert(v@ =~= lit_ig_target());
    }
    v
}

/// `".cache"` as bytes.
pub open spec fn lit_ig_cache() -> Seq<u8> {
    seq!['.' as u8, 'c' as u8, 'a' as u8, 'c' as u8, 'h' as u8, 'e' as u8]
}

/// Builds `".cache"` as a byte vector.
pub fn vec_ig_cache() -> (r: Vec<u8>)
    ensures
        r@ == lit_ig_cache(),
{
    let v: Vec<u8> = vec!['.' as u8, 'c' as u8, 'a' as u8, 'c' as u8, 'h' as u8, 'e' as u8];
    proof {
        assert(v@ =~= lit_ig_cache());
    }
    v
}

/// `".tmp"` as bytes.
pub open spec fn lit_ig_tmp() -> Seq<u8> {
    seq!['.' as u8, 't' as u8, 'm' as u8, 'p' as u8]
}

/// Builds `".tmp"` as a byte vector.
pub fn vec_ig_tmp() -> (r: Vec<u8>)
    ensures
        r@ == lit_ig_tmp(),
{
    let v: Vec<u8> = vec!['.' as u8, 't' as u8, 'm' as u8, 'p' as u8];
    proof {
        assert(v@ =~= lit_ig_tmp());
    }
    v
}

/// `"coverage"` as bytes.
pub open spec fn lit_ig_coverage() -> Seq<u8> {
    seq!['c' as u8, 'o' as u8, 'v' as u8, 'e' as u8, 'r' as u8, 'a' as u8, 'g' as u8, 'e' as u8]
}

/// Builds `"coverage"` as a byte vector.
pub fn vec_ig_coverage() -> (r: Vec<u8>)
    ensures
        r@ == lit_ig_coverage(),
{
    let v: Vec<u8> = vec!['c' as u8, 'o' as u8, 'v' as u8, 'e' as u8, 'r' as u8, 'a' as u8, 'g' as u8, 'e' as u8];
    proof {
        assert(v@ =~= lit_ig_coverage());
    }
    v
}

/// `".xraycache"` as bytes.
pub open spec fn lit_ig_xraycache() -> Seq<u8> {
    seq!['.' as u8, 'x' as u8, 'r' as u8, 'a' as u8, 'y' as u8, 'c' as u8, 'a' as u8, 'c' as u8, 'h' as u8, 'e' as u8]
}

/// Builds `".xraycache"` as a byte vector.
pub fn vec_ig_xraycache() -> (r: Vec<u8>)
    ensures
        r@ == lit_ig_xraycache(),
{
    let v: Vec<u8> = vec!['.' as u8, 'x' as u8, 'r' as u8, 'a' as u8, 'y' as u8, 'c' as u8, 'a' as u8, 'c' as u8, 'h' as u8, 'e' as u8];
    proof {
        assert(v@ =~= lit_ig_xraycache());
    }
    v
}

/// `".ai-context"` as bytes.
pub open spec fn lit_ig_ai_context() -> Seq<u8> {
    seq!['.' as u8, 'a' as u8, 'i' as u8, '-' as u8, 'c' as u8, 'o' as u8, 'n' as u8, 't' as u8, 'e' as u8, 'x' as u8, 't' as u8]
}

/// Builds `".ai-context"` as a byte vector.
pub fn vec_ig_ai_context() -> (r: Vec<u8>)
    ensures
        r@ == lit_ig_ai_context(),
{
    let v: Vec<u8> = vec!['.' as u8, 'a' as u8, 'i' as u8, '-' as u8, 'c' as u8, 'o' as u8, 'n' as u8, 't' as u8, 'e' as u8, 'x' as u8, 't' as u8];
    proof {
        assert(v@ =~= lit_ig_ai_context());
    }
    v
}

/// `"go.mod"` as bytes.
pub open spec fn lit_mf_go_mod() -> Seq<u8> {
    seq!['g' as u8, 'o' as u8, '.' as u8, 'm' as u8, 'o' as u8, 'd' as u8]
}

/// Builds `"go.mod"` as a byte vector.
pub fn vec_mf_go_mod() -> (r: Vec<u8>)
    ensures
        r@ == lit_mf_go_mod(),
{
    let v: Vec<u8> = vec!['g' as u8, 'o' as u8, '.' as u8, 'm' as u8, 'o' as u8, 'd' as u8];
    proof {
        assert(v@ =~= lit_mf_go_mod());
    }
    v
}

/// `"Cargo.toml"` as bytes.
pub open spec fn lit_mf_cargo_toml() -> Seq<u8> {
    seq!['C' as u8, 'a' as u8, 'r' as u8, 'g' as u8, 'o' as u8, '.' as u8, 't' as u8, 'o' as u8, 'm' as u8, 'l' as u8]
}

/// Builds `"Cargo.toml"` as a byte vector.
pub fn vec_mf_cargo_toml() -> (r: Vec<u8>)
    ensures
        r@ == lit_mf_cargo_toml(),
{
    let v: Vec<u8> = vec!['C' as u8, 'a' as u8, 'r' as u8, 'g' as u8, 'o' as u8, '.' as u8, 't' as u8, 'o' as u8, 'm' as u8, 'l' as u8];
    proof {
        assert(v@ =~= lit_mf_cargo_toml());
    }
    v
}

/// `"package.json"` as bytes.
pub open spec fn lit_mf_package_json() -> Seq<u8> {
    seq!['p' as u8, 'a' as u8, 'c' as u8, 'k' as u8, 'a' as u8, 'g' as u8, 'e' as u8, '.' as u8, 'j' as u8, 's' as u8, 'o' as u8, 'n' as u8]
}

/// Builds `"package.json"` as a byte vector.
pub fn vec_mf_package_json() -> (r: Vec<u8>)
    ensures
        r@ == lit_mf_package_json(),
{
    let v: Vec<u8> = vec!['p' as u8, 'a' as u8, 'c' as u8, 'k' as u8, 'a' as u8, 'g' as u8, 'e' as u8, '.' as u8, 'j' as u8, 's' as u8, 'o' as u8, 'n' as u8];
    proof {
        assert(v@ =~= lit_mf_package_json());
    }
    v
}

/// `"null"` as bytes.
pub open spec fn lit_json_null() -> Seq<u8> {
    seq!['n' as u8, 'u' as u8, 'l' as u8, 'l' as u8]
}


/// `"true"` as bytes.
pub open spec fn lit_json_true() -> Seq<u8> {
    seq!['t' as u8, 'r' as u8, 'u' as u8, 'e' as u8]
}


/// `"false"` as bytes.
pub open spec fn lit_json_false() -> Seq<u8> {
    seq!['f' as u8, 'a' as u8, 'l' as u8, 's' as u8, 'e' as u8]
}


} // verus!
