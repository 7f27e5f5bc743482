//! Language classification.
//!
//! A pure mapping from a file's path to a language label: two special
//! file names match case-insensitively, then the extension is looked up
//! case-insensitively in a fixed table, and anything else is labelled
//! `"Unknown"`.

use vstd::prelude::*;
use crate::order::bytes_eq;
use crate::names::{
    lit_ext_bash,
    lit_ext_c,
    lit_ext_cc,
    lit_ext_cpp,
    lit_ext_css,
    lit_ext_cxx,
    lit_ext_go,
    lit_ext_h,
    lit_ext_hpp,
    lit_ext_htm,
    lit_ext_html,
    lit_ext_java,
    lit_ext_js,
    lit_ext_json,
    lit_ext_md,
    lit_ext_py,
    lit_ext_rs,
    lit_ext_sh,
    lit_ext_sql,
    lit_ext_text,
    lit_ext_tf,
    lit_ext_toml,
    lit_ext_ts,
    lit_ext_txt,
    lit_ext_yaml,
    lit_ext_yml,
    lit_lang_c,
    lit_lang_cpp,
    lit_lang_css,
    lit_lang_dockerfile,
    lit_lang_go,
    lit_lang_html,
    lit_lang_java,
    lit_lang_javascript,
    lit_lang_json,
    lit_lang_makefile,
    lit_lang_markdown,
    lit_lang_python,
    lit_lang_rust,
    lit_lang_shell,
    lit_lang_sql,
    lit_lang_terraform,
    lit_lang_text,
    lit_lang_toml,
    lit_lang_typescript,
    lit_lang_unknown,
    lit_lang_yaml,
    lit_name_dockerfile,
    lit_name_makefile,
    vec_ext_bash,
    vec_ext_c,
    vec_ext_cc,
    vec_ext_cpp,
    vec_ext_css,
    vec_ext_cxx,
    vec_ext_go,
    vec_ext_h,
    vec_ext_hpp,
    vec_ext_htm,
    vec_ext_html,
    vec_ext_java,
    vec_ext_js,
    vec_ext_json,
    vec_ext_md,
    vec_ext_py,
    vec_ext_rs,
    vec_ext_sh,
    vec_ext_sql,
    vec_ext_text,
    vec_ext_tf,
    vec_ext_toml,
    vec_ext_ts,
    vec_ext_txt,
    vec_ext_yaml,
    vec_ext_yml,
    vec_lang_c,
    vec_lang_cpp,
    vec_lang_css,
    vec_lang_dockerfile,
    vec_lang_go,
    vec_lang_html,
    vec_lang_java,
    vec_lang_javascript,
    vec_lang_json,
    vec_lang_makefile,
    vec_lang_markdown,
    vec_lang_python,
    vec_lang_rust,
    vec_lang_shell,
    vec_lang_sql,
    vec_lang_terraform,
    vec_lang_text,
    vec_lang_toml,
    vec_lang_typescript,
    vec_lang_unknown,
    vec_lang_yaml,
    vec_name_dockerfile,
    vec_name_makefile,
};

verus! {

/// ASCII uppercase letters mapped to lowercase; other bytes unchanged.
pub open spec fn lower_byte(b: u8) -> u8 {
    if ('A' as u8) <= b <= ('Z' as u8) {
        (b + 32) as u8
    } else {
        b
    }
}

/// Bytewise ASCII lowercasing.
pub open spec fn lower_bytes(s: Seq<u8>) -> Seq<u8> {
    s.map_values(|b: u8| lower_byte(b))
}

/// Lowercases the ASCII letters of `s`.
pub fn to_ascii_lower(s: &Vec<u8>) -> (r: Vec<u8>)
    ensures
        r@ == lower_bytes(s@),
{
    let mut out: Vec<u8> = Vec::new();
    let mut i: usize = 0;
    while i < s.len()
        invariant
            i <= s.len(),
            out@ =~= lower_bytes(s@).take(i as int),
        decreases s.len() - i,
    {
        let b = s[i];
        if 65 <= b && b <= 90 {
            out.push(b + 32);
        } else {
            out.push(b);
        }
        i = i + 1;
    }
    proof {
        assert(out@ =~= lower_bytes(s@));
    }
    out
}

/// The base name of a path: everything after the last `/`, or the whole
/// path when it has none.
pub open spec fn base_name(path: Seq<u8>) -> Seq<u8>
    decreases path.len(),
{
    if path.len() == 0 {
        path
    } else if path.last() == '/' as u8 {
        Seq::<u8>::empty()
    } else {
        base_name(path.drop_last()).push(path.last())
    }
}

/// Extracts the base name of `path`.
pub fn base_name_of(path: &Vec<u8>) -> (r: Vec<u8>)
    ensures
        r@ == base_name(path@),
{
    let mut out: Vec<u8> = Vec::new();
    let mut i: usize = 0;
    proof {
        assert(base_name(path@.take(0)) =~= Seq::<u8>::empty());
    }
    while i < path.len()
        invariant
            i <= path.len(),
            out@ == base_name(path@.take(i as int)),
        decreases path.len() - i,
    {
        proof {
            assert(path@.take(i + 1).drop_last() =~= path@.take(i as int));
            assert(path@.take(i + 1).last() == path@[i as int]);
        }
        if path[i] == 47 {
            out = Vec::new();
            proof {
                assert(out@ =~= base_name(path@.take(i + 1)));
            }
        } else {
            out.push(path[i]);
        }
        i = i + 1;
    }
    proof {
        assert(path@.take(path@.len() as int) =~= path@);
    }
    out
}

/// The position right after the last `.` of `name`, when a `.` stands
/// anywhere but first; the extension is what follows it.
pub open spec fn ext_split(name: Seq<u8>) -> Option<int>
    decreases name.len(),
{
    if name.len() <= 1 {
        None
    } else if name.last() == '.' as u8 {
        Some(name.len() as int)
    } else {
        ext_split(name.drop_last())
    }
}

/// The extension of a base name, `None` when it has none. A leading `.`
/// alone (a hidden file) begins no extension.
pub open spec fn ext_of(name: Seq<u8>) -> Option<Seq<u8>> {
    match ext_split(name) {
        Some(p) => Some(name.skip(p)),
        None => None,
    }
}

/// Extracts the extension of the base name `name`.
pub fn extension_of(name: &Vec<u8>) -> (r: Option<Vec<u8>>)
    ensures
        match r {
            Some(e) => ext_of(name@) == Some(e@),
            None => ext_of(name@) is None,
        },
{
    let n = name.len();
    let mut j: usize = n;
    proof {
        assert(name@.take(n as int) =~= name@);
    }
    while j > 1
        invariant
            j <= n,
            n == name@.len(),
            ext_split(name@) == ext_split(name@.take(j as int)),
        decreases j,
    {
        proof {
            assert(name@.take(j as int).drop_last() =~= name@.take(j - 1));
            assert(name@.take(j as int).last() == name@[j - 1]);
        }
        if name[j - 1] == 46 {
            let mut out: Vec<u8> = Vec::new();
            let mut i: usize = j;
            while i < n
                invariant
                    j <= i <= n,
                    n == name@.len(),
                    out@ =~= name@.subrange(j as int, i as int),
                decreases n - i,
            {
                out.push(name[i]);
                i = i + 1;
            }
            proof {
                assert(out@ =~= name@.skip(j as int));
            }
            return Some(out);
        }
        j = j - 1;
    }
    proof {
        if j == 0 {
            assert(name@.take(0).len() == 0);
        }
    }
    None
}

/// The language label of the lowercased extension `e`.
pub open spec fn lang_of_ext(e: Seq<u8>) -> Seq<u8> {
    if false {
        Seq::<u8>::empty()
    } else if e == lit_ext_go() {
        lit_lang_go()
    } else if e == lit_ext_rs() {
        lit_lang_rust()
    } else if e == lit_ext_md() {
        lit_lang_markdown()
    } else if e == lit_ext_json() {
        lit_lang_json()
    } else if e == lit_ext_js() {
        lit_lang_javascript()
    } else if e == lit_ext_ts() {
        lit_lang_typescript()
    } else if e == lit_ext_yaml() {
        lit_lang_yaml()
    } else if e == lit_ext_yml() {
        lit_lang_yaml()
    } else if e == lit_ext_toml() {
        lit_lang_toml()
    } else if e == lit_ext_sh() {
        lit_lang_shell()
    } else if e == lit_ext_bash() {
        lit_lang_shell()
    } else if e == lit_ext_html() {
        lit_lang_html()
    } else if e == lit_ext_htm() {
        lit_lang_html()
    } else if e == lit_ext_css() {
        lit_lang_css()
    } else if e == lit_ext_sql() {
        lit_lang_sql()
    } else if e == lit_ext_py() {
        lit_lang_python()
    } else if e == lit_ext_java() {
        lit_lang_java()
    } else if e == lit_ext_c() {
        lit_lang_c()
    } else if e == lit_ext_h() {
        lit_lang_c()
    } else if e == lit_ext_cpp() {
        lit_lang_cpp()
    } else if e == lit_ext_hpp() {
        lit_lang_cpp()
    } else if e == lit_ext_cc() {
        lit_lang_cpp()
    } else if e == lit_ext_cxx() {
        lit_lang_cpp()
    } else if e == lit_ext_tf() {
        lit_lang_terraform()
    } else if e == lit_ext_txt() {
        lit_lang_text()
    } else if e == lit_ext_text() {
        lit_lang_text()
    } else {
        lit_lang_unknown()
    }
}

/// The language label of a path: special names first, then the
/// extension table, else `"Unknown"`.
pub open spec fn detect_language_spec(path: Seq<u8>) -> Seq<u8> {
    let name = lower_bytes(base_name(path));
    if name == lit_name_dockerfile() {
        lit_lang_dockerfile()
    } else if name == lit_name_makefile() {
        lit_lang_makefile()
    } else {
        match ext_of(base_name(path)) {
            Some(e) => lang_of_ext(lower_bytes(e)),
            None => lit_lang_unknown(),
        }
    }
}

fn lang_of_ext_exec(e: Vec<u8>) -> (r: Vec<u8>)
    ensures
        r@ == lang_of_ext(e@),
{
    if bytes_eq(&e, &vec_ext_go()) {
        return vec_lang_go();
    }
    if bytes_eq(&e, &vec_ext_rs()) {
        return vec_lang_rust();
    }
    if bytes_eq(&e, &vec_ext_md()) {
        return vec_lang_markdown();
    }
    if bytes_eq(&e, &vec_ext_json()) {
        return vec_lang_json();
    }
    if bytes_eq(&e, &vec_ext_js()) {
        return vec_lang_javascript();
    }
    if bytes_eq(&e, &vec_ext_ts()) {
        return vec_lang_typescript();
    }
    if bytes_eq(&e, &vec_ext_yaml()) {
        return vec_lang_yaml();
    }
    if bytes_eq(&e, &vec_ext_yml()) {
        return vec_lang_yaml();
    }
    if bytes_eq(&e, &vec_ext_toml()) {
        return vec_lang_toml();
    }
    if bytes_eq(&e, &vec_ext_sh()) {
        return vec_lang_shell();
    }
    if bytes_eq(&e, &vec_ext_bash()) {
        return vec_lang_shell();
    }
    if bytes_eq(&e, &vec_ext_html()) {
        return vec_lang_html();
    }
    if bytes_eq(&e, &vec_ext_htm()) {
        return vec_lang_html();
    }
    if bytes_eq(&e, &vec_ext_css()) {
        return vec_lang_css();
    }
    if bytes_eq(&e, &vec_ext_sql()) {
        return vec_lang_sql();
    }
    if bytes_eq(&e, &vec_ext_py()) {
        return vec_lang_python();
    }
    if bytes_eq(&e, &vec_ext_java()) {
        return vec_lang_java();
    }
    if bytes_eq(&e, &vec_ext_c()) {
        return vec_lang_c();
    }
    if bytes_eq(&e, &vec_ext_h()) {
        return vec_lang_c();
    }
    if bytes_eq(&e, &vec_ext_cpp()) {
        return vec_lang_cpp();
    }
    if bytes_eq(&e, &vec_ext_hpp()) {
        return vec_lang_cpp();
    }
    if bytes_eq(&e, &vec_ext_cc()) {
        return vec_lang_cpp();
    }
    if bytes_eq(&e, &vec_ext_cxx()) {
        return vec_lang_cpp();
    }
    if bytes_eq(&e, &vec_ext_tf()) {
        return vec_lang_terraform();
    }
    if bytes_eq(&e, &vec_ext_txt()) {
        return vec_lang_text();
    }
    if bytes_eq(&e, &vec_ext_text()) {
        return vec_lang_text();
    }
    vec_lang_unknown()
}

/// Detects the language of the file at `path` from its base name and
/// extension, both matched case-insensitively.
pub fn detect_language(path: &Vec<u8>) -> (r: Vec<u8>)
    ensures
        r@ == detect_language_spec(path@),
{
    let base = base_name_of(path);
    let lowered = to_ascii_lower(&base);
    if bytes_eq(&lowered, &vec_name_dockerfile()) {
        return vec_lang_dockerfile();
    }
    if bytes_eq(&lowered, &vec_name_makefile()) {
        return vec_lang_makefile();
    }
    match extension_of(&base) {
        Some(e) => {
            let le = to_ascii_lower(&e);
            lang_of_ext_exec(le)
        },
        None => vec_lang_unknown(),
    }
}

} // verus!
