//! Line counting.
//!
//! A file's line count is the number of lines its text splits into:
//! `\n` separates lines, a final line without a trailing terminator
//! still counts, and `\r\n` counts as one separator. Oversized files
//! and files that are not valid UTF-8 are skipped (count zero), with
//! their byte size still reported.

use vstd::prelude::*;
use vstd::utf8::valid_utf8;

verus! {

/// Upper bound, in bytes, for files whose lines are counted.
pub const LOC_BIG_FILE_CAP_BYTES: u64 = 2097152;

/// Number of newline bytes in `s`.
pub open spec fn newline_count(s: Seq<u8>) -> nat
    decreases s.len(),
{
    if s.len() == 0 {
        0
    } else {
        newline_count(s.drop_last()) + if s.last() == '\n' as u8 {
            1nat
        } else {
            0nat
        }
    }
}

/// Number of lines of a text, given as its UTF-8 bytes: one per newline
/// byte, plus one for a non-empty final line without a terminator.
pub open spec fn line_count(s: Seq<u8>) -> nat {
    if s.len() == 0 {
        0
    } else if s.last() == '\n' as u8 {
        newline_count(s)
    } else {
        newline_count(s) + 1
    }
}

/// Per-file line-count result: line count, byte size, and whether the
/// file was skipped (oversized or not valid UTF-8).
pub struct LocStats {
    pub loc: u64,
    pub size: u64,
    pub skipped: bool,
}

proof fn lemma_newline_count_le_len(s: Seq<u8>)
    ensures
        newline_count(s) <= s.len(),
    decreases s.len(),
{
    if s.len() > 0 {
        lemma_newline_count_le_len(s.drop_last());
    }
}

proof fn lemma_newline_count_take_step(s: Seq<u8>, i: int)
    requires
        0 <= i < s.len(),
    ensures
        newline_count(s.take(i + 1)) == newline_count(s.take(i)) + if s[i] == '\n' as u8 {
            1nat
        } else {
            0nat
        },
{
    assert(s.take(i + 1).drop_last() =~= s.take(i));
    assert(s.take(i + 1).last() == s[i]);
}

/// Counts the lines of `content`, exactly as `line_count` states.
pub fn count_lines(content: &Vec<u8>) -> (r: u64)
    ensures
        r == line_count(content@),
{
    let n = content.len();
    let mut newlines: u64 = 0;
    let mut i: usize = 0;
    proof {
        assert(content@.take(0) =~= Seq::<u8>::empty());
    }
    while i < n
        invariant
            i <= n,
            n == content@.len(),
            newlines == newline_count(content@.take(i as int)),
            newlines <= i,
        decreases n - i,
    {
        proof {
            lemma_newline_count_take_step(content@, i as int);
        }
        if content[i] == 10 {
            newlines = newlines + 1;
        }
        i = i + 1;
    }
    proof {
        assert(content@.take(n as int) =~= content@);
    }
    if n == 0 {
        0
    } else if content[n - 1] == 10 {
        newlines
    } else {
        proof {
            lemma_newline_count_le_len(content@.drop_last());
        }
        newlines + 1
    }
}

/// Decides UTF-8 validity, one encoded scalar at a time: each leading
/// byte fixes a width, its continuation bytes must follow, and the
/// decoded codepoint must be neither an overlong encoding nor a
/// surrogate.
fn utf8_check(content: &Vec<u8>) -> (r: bool)
    ensures
        r == valid_utf8(content@),
{
    let n = content.len();
    let mut i: usize = 0;
    proof {
        assert(content@.skip(0) =~= content@);
    }
    loop
        invariant
            i <= n,
            n == content@.len(),
            valid_utf8(content@) == valid_utf8(content@.skip(i as int)),
        decreases n - i,
    {
        let ghost rest = content@.skip(i as int);
        if i == n {
            proof {
                assert(rest.len() == 0);
            }
            return true;
        }
        let b0 = content[i];
        proof {
            assert(rest[0] == content@[i as int]);
        }
        if b0 <= 0x7f {
            proof {
                assert(vstd::utf8::valid_first_scalar(rest));
                assert(vstd::utf8::length_of_first_scalar(rest) == 1);
                assert(vstd::utf8::pop_first_scalar(rest) =~= content@.skip(i + 1));
            }
            i = i + 1;
        } else if 0xc0 <= b0 && b0 <= 0xdf {
            if n - i < 2 {
                proof {
                    assert(!vstd::utf8::valid_first_scalar(rest));
                }
                return false;
            }
            let b1 = content[i + 1];
            proof {
                assert(rest[1] == content@[i + 1]);
            }
            if !(0x80 <= b1 && b1 <= 0xbf) {
                proof {
                    assert(!vstd::utf8::valid_first_scalar(rest));
                }
                return false;
            }
            let cp: u32 = (((b0 & 0x1f) as u32) << 6u32) | ((b1 & 0x3f) as u32);
            proof {
                assert(cp == vstd::utf8::decode_first_codepoint(rest));
                assert(vstd::utf8::length_of_first_codepoint(rest) == 2);
            }
            if cp < 0x80 {
                proof {
                    assert(!vstd::utf8::valid_first_scalar(rest));
                }
                return false;
            }
            if 0xd800 <= cp && cp <= 0xdfff {
                proof {
                    assert(!vstd::utf8::valid_first_scalar(rest));
                }
                return false;
            }
            proof {
                assert(vstd::utf8::valid_first_scalar(rest));
                assert(vstd::utf8::pop_first_scalar(rest) =~= content@.skip(i + 2));
            }
            i = i + 2;
        } else if 0xe0 <= b0 && b0 <= 0xef {
            if n - i < 3 {
                proof {
                    assert(!vstd::utf8::valid_first_scalar(rest));
                }
                return false;
            }
            let b1 = content[i + 1];
            let b2 = content[i + 2];
            proof {
                assert(rest[1] == content@[i + 1]);
                assert(rest[2] == content@[i + 2]);
            }
            if !(0x80 <= b1 && b1 <= 0xbf) || !(0x80 <= b2 && b2 <= 0xbf) {
                proof {
                    assert(!vstd::utf8::valid_first_scalar(rest));
                }
                return false;
            }
            let cp: u32 = (((b0 & 0x0f) as u32) << 12u32) | (((b1 & 0x3f) as u32) << 6u32) | ((b2
                & 0x3f) as u32);
            proof {
                assert(cp == vstd::utf8::decode_first_codepoint(rest));
                assert(vstd::utf8::length_of_first_codepoint(rest) == 3);
            }
            if cp < 0x800 {
                proof {
                    assert(!vstd::utf8::valid_first_scalar(rest));
                }
                return false;
            }
            if 0xd800 <= cp && cp <= 0xdfff {
                proof {
                    assert(!vstd::utf8::valid_first_scalar(rest));
                }
                return false;
            }
            proof {
                assert(vstd::utf8::valid_first_scalar(rest));
                assert(vstd::utf8::pop_first_scalar(rest) =~= content@.skip(i + 3));
            }
            i = i + 3;
        } else if 0xf0 <= b0 && b0 <= 0xf7 {
            if n - i < 4 {
                proof {
                    assert(!vstd::utf8::valid_first_scalar(rest));
                }
                return false;
            }
            let b1 = content[i + 1];
            let b2 = content[i + 2];
            let b3 = content[i + 3];
            proof {
                assert(rest[1] == content@[i + 1]);
                assert(rest[2] == content@[i + 2]);
                assert(rest[3] == content@[i + 3]);
            }
            if !(0x80 <= b1 && b1 <= 0xbf) || !(0x80 <= b2 && b2 <= 0xbf) || !(0x80 <= b3 && b3
                <= 0xbf) {
                proof {
                    assert(!vstd::utf8::valid_first_scalar(rest));
                }
                return false;
            }
            let cp: u32 = (((b0 & 0x07) as u32) << 18u32) | (((b1 & 0x3f) as u32) << 12u32) | (((
            b2 & 0x3f) as u32) << 6u32) | ((b3 & 0x3f) as u32);
            proof {
                assert(cp == vstd::utf8::decode_first_codepoint(rest));
                assert(vstd::utf8::length_of_first_codepoint(rest) == 4);
            }
            if !(0x10000 <= cp && cp <= 0x10ffff) {
                proof {
                    assert(!vstd::utf8::valid_first_scalar(rest));
                }
                return false;
            }
            if 0xd800 <= cp && cp <= 0xdfff {
                proof {
                    assert(!vstd::utf8::valid_first_scalar(rest));
                }
                return false;
            }
            proof {
                assert(vstd::utf8::valid_first_scalar(rest));
                assert(vstd::utf8::pop_first_scalar(rest) =~= content@.skip(i + 4));
            }
            i = i + 4;
        } else {
            proof {
                assert(!vstd::utf8::valid_first_scalar(rest));
            }
            return false;
        }
    }
}

/// What `compute_loc` reports for a file of `size` bytes whose readable
/// content is `content` (`None` when the file is over the cap and its
/// bytes were not read).
pub open spec fn loc_stats_spec(size: u64, content: Option<Seq<u8>>) -> LocStats {
    if size > LOC_BIG_FILE_CAP_BYTES {
        LocStats { loc: 0, size, skipped: true }
    } else if size == 0 {
        LocStats { loc: 0, size: 0, skipped: false }
    } else if valid_utf8(content->Some_0) {
        LocStats { loc: line_count(content->Some_0) as u64, size, skipped: false }
    } else {
        LocStats { loc: 0, size, skipped: true }
    }
}

/// Computes the line-count stats of one file.
///
/// Over the size cap the file is skipped unread; an empty file has zero
/// lines; content that is not valid UTF-8 is skipped; otherwise the
/// lines are counted. The byte size is reported in every case.
pub fn compute_loc(size: u64, content: Option<&Vec<u8>>) -> (r: LocStats)
    requires
        content is None ==> size > LOC_BIG_FILE_CAP_BYTES,
        content matches Some(c) ==> c@.len() == size,
    ensures
        r == loc_stats_spec(
            size,
            match content {
                Some(c) => Some(c@),
                None => None,
            },
        ),
{
    if size > LOC_BIG_FILE_CAP_BYTES {
        return LocStats { loc: 0, size, skipped: true };
    }
    let c = match content {
        Some(c) => c,
        None => {
            proof {
                assert(false);
            }
            unreached()
        },
    };
    if size == 0 {
        return LocStats { loc: 0, size: 0, skipped: false };
    }
    if utf8_check(c) {
        let loc = count_lines(c);
        LocStats { loc, size, skipped: false }
    } else {
        LocStats { loc: 0, size, skipped: true }
    }
}

} // verus!
