//! A byte-level model of filesystem paths.
//!
//! Paths are handled as sequences of bytes exactly as the operating system
//! hands them over. A separator is a forward slash or a backslash; the file
//! name is everything after the last separator; the extension is the part of
//! the file name after its last dot, provided that dot is not the file
//! name's first byte (a leading dot marks a hidden file, not an extension).
//! A trailing separator is taken literally: such a path has no file name and
//! therefore no extension.

use vstd::prelude::*;

verus! {

/// The byte `.`
pub const DOT: u8 = 46;
/// The byte `/`
pub const SLASH: u8 = 47;
/// The byte `\`
pub const BACKSLASH: u8 = 92;

/// ASCII lower-casing of a single byte; bytes outside `A`..=`Z` are kept.
pub open spec fn lower(b: u8) -> u8 {
    if 65 <= b && b <= 90 {
        (b + 32) as u8
    } else {
        b
    }
}

/// A path separator: forward slash or backslash.
pub open spec fn is_sep(b: u8) -> bool {
    b == SLASH || b == BACKSLASH
}

/// ASCII lower-casing of a single byte.
pub fn lower_ascii(b: u8) -> (r: u8)
    ensures
        r == lower(b),
{
    if 65 <= b && b <= 90 {
        b + 32
    } else {
        b
    }
}

/// Whether a byte is a path separator.
pub fn is_separator(b: u8) -> (r: bool)
    ensures
        r == is_sep(b),
{
    b == SLASH || b == BACKSLASH
}

/// Index of the first byte of the file name: one past the last separator,
/// or 0 when the path holds no separator.
pub open spec fn file_name_start(p: Seq<u8>) -> int
    decreases p.len(),
{
    if p.len() == 0 {
        0
    } else if is_sep(p.last()) {
        p.len() as int
    } else {
        file_name_start(p.drop_last())
    }
}

/// Index of the last dot within the file name, or -1 when the file name
/// holds no dot (the scan stops at the last separator).
pub open spec fn dot_index(p: Seq<u8>) -> int
    decreases p.len(),
{
    if p.len() == 0 {
        -1
    } else if p.last() == DOT {
        p.len() - 1
    } else if is_sep(p.last()) {
        -1
    } else {
        dot_index(p.drop_last())
    }
}

/// A path has an extension when its file name has a dot that is not the
/// file name's first byte.
pub open spec fn has_extension(p: Seq<u8>) -> bool {
    dot_index(p) > file_name_start(p)
}

/// The extension: the bytes of the file name after its last dot.
pub open spec fn extension_of(p: Seq<u8>) -> Seq<u8>
    recommends
        has_extension(p),
{
    p.subrange(dot_index(p) + 1, p.len() as int)
}

/// The file name starts within the path.
pub proof fn lemma_file_name_start_bounds(p: Seq<u8>)
    ensures
        0 <= file_name_start(p) <= p.len(),
    decreases p.len(),
{
    if p.len() > 0 && !is_sep(p.last()) {
        lemma_file_name_start_bounds(p.drop_last());
    }
}

/// The extension's dot, where there is one, lies within the path.
pub proof fn lemma_dot_index_bounds(p: Seq<u8>)
    ensures
        -1 <= dot_index(p) < p.len(),
        dot_index(p) >= 0 ==> p[dot_index(p)] == DOT,
    decreases p.len(),
{
    if p.len() > 0 && p.last() != DOT && !is_sep(p.last()) {
        lemma_dot_index_bounds(p.drop_last());
    }
}

/// Index of the byte right after the dot that starts the extension, or
/// `None` when the path has no extension.
pub fn extension_start(p: &Vec<u8>) -> (r: Option<usize>)
    ensures
        match r {
            Some(j) => has_extension(p@) && j == dot_index(p@) + 1,
            None => !has_extension(p@),
        },
{
    let ghost whole = p@;
    let mut i: usize = p.len();
    proof {
        assert(whole.take(i as int) =~= whole);
    }
    while i > 0
        invariant
            i <= p@.len(),
            whole == p@,
            dot_index(whole) == dot_index(whole.take(i as int)),
            file_name_start(whole) == file_name_start(whole.take(i as int)),
        decreases i,
    {
        let b = p[i - 1];
        proof {
            assert(whole.take(i as int).last() == b);
            assert(whole.take(i as int).drop_last() =~= whole.take(i as int - 1));
        }
        if b == DOT {
            // The dot at i - 1 is the last dot of the file name; it starts
            // an extension exactly when a non-separator byte precedes it.
            if i >= 2 && !is_separator(p[i - 2]) {
                proof {
                    assert(dot_index(whole) == i - 1);
                    assert(file_name_start(whole.take(i as int))
                        == file_name_start(whole.take(i as int - 1)));
                    assert(whole.take(i as int - 1).last() == whole[i - 2]);
                    assert(whole.take(i as int - 1).drop_last() =~= whole.take(i as int - 2));
                    assert(file_name_start(whole.take(i as int - 1))
                        == file_name_start(whole.take(i as int - 2)));
                    lemma_file_name_start_bounds(whole.take(i as int - 2));
                    assert(file_name_start(whole) <= i - 2);
                }
                return Some(i);
            } else {
                proof {
                    assert(dot_index(whole) == i - 1);
                    if i >= 2 {
                        assert(is_sep(whole[i - 2]));
                        assert(whole.take(i as int - 1).last() == whole[i - 2]);
                        assert(file_name_start(whole.take(i as int - 1)) == i - 1);
                    } else {
                        assert(file_name_start(whole.take(1int))
                            == file_name_start(whole.take(0int)));
                        assert(whole.take(0int).len() == 0);
                        assert(file_name_start(whole.take(0int)) == 0);
                    }
                    assert(file_name_start(whole) == i - 1);
                }
                return None;
            }
        }
        if is_separator(b) {
            proof {
                assert(dot_index(whole) == -1);
                lemma_file_name_start_bounds(whole);
            }
            return None;
        }
        i = i - 1;
    }
    proof {
        assert(whole.take(0int) =~= Seq::<u8>::empty());
        lemma_file_name_start_bounds(whole);
    }
    None
}

/// A fresh vector holding the same bytes.
pub fn copy_bytes(p: &Vec<u8>) -> (r: Vec<u8>)
    ensures
        r@ == p@,
{
    let mut out: Vec<u8> = Vec::new();
    let mut i: usize = 0;
    while i < p.len()
        invariant
            i <= p@.len(),
            out@ == p@.take(i as int),
        decreases p@.len() - i,
    {
        out.push(p[i]);
        proof {
            assert(p@.take(i as int).push(p@[i as int]) =~= p@.take(i as int + 1));
        }
        i = i + 1;
    }
    proof {
        assert(p@.take(p@.len() as int) =~= p@);
    }
    out
}

/// ASCII lower-casing of a byte sequence.
pub open spec fn lower_seq(s: Seq<u8>) -> Seq<u8> {
    s.map_values(|b: u8| lower(b))
}

/// The extension that marks a conversion candidate: `ts`.
pub open spec fn ts_ext() -> Seq<u8> {
    seq![116u8, 115u8]
}

/// The replacement suffix for derived output paths: `.mp4`.
pub open spec fn mp4_suffix() -> Seq<u8> {
    seq![46u8, 109u8, 112u8, 52u8]
}

/// A conversion candidate's path: its extension, lower-cased, is `ts`.
pub open spec fn is_ts_path(p: Seq<u8>) -> bool {
    has_extension(p) && lower_seq(extension_of(p)) == ts_ext()
}

/// Whether the path's extension, lower-cased, is `ts`.
pub fn is_ts_file(p: &Vec<u8>) -> (r: bool)
    ensures
        r == is_ts_path(p@),
{
    match extension_start(p) {
        None => false,
        Some(j) => {
            proof {
                lemma_dot_index_bounds(p@);
            }
            let ghost ext = extension_of(p@);
            proof {
                assert(ext.len() == p@.len() - j);
            }
            if p.len() - j == 2 {
                let r = lower_ascii(p[j]) == 116 && lower_ascii(p[j + 1]) == 115;
                proof {
                    assert(ext[0] == p@[j as int]);
                    assert(ext[1] == p@[j + 1]);
                    assert(lower_seq(ext)[0] == lower(p@[j as int]));
                    assert(lower_seq(ext)[1] == lower(p@[j + 1]));
                    if r {
                        assert(lower_seq(ext) =~= ts_ext());
                    }
                }
                r
            } else {
                proof {
                    assert(lower_seq(ext).len() != 2);
                }
                false
            }
        },
    }
}

/// The derived output path: the extension is replaced by `mp4`; a path
/// without an extension gets `.mp4` appended.
pub open spec fn output_path_of(p: Seq<u8>) -> Seq<u8> {
    if has_extension(p) {
        p.take(dot_index(p)) + mp4_suffix()
    } else {
        p + mp4_suffix()
    }
}

/// Computes the output path for an input path.
pub fn derive_output_path(p: &Vec<u8>) -> (r: Vec<u8>)
    ensures
        r@ == output_path_of(p@),
{
    let stem_end: usize = match extension_start(p) {
        Some(j) => {
            proof {
                lemma_dot_index_bounds(p@);
                lemma_file_name_start_bounds(p@);
            }
            j - 1
        },
        None => p.len(),
    };
    let mut out: Vec<u8> = Vec::new();
    let mut i: usize = 0;
    while i < stem_end
        invariant
            i <= stem_end,
            stem_end <= p@.len(),
            out@ == p@.take(i as int),
        decreases stem_end - i,
    {
        out.push(p[i]);
        proof {
            assert(p@.take(i as int).push(p@[i as int]) =~= p@.take(i as int + 1));
        }
        i = i + 1;
    }
    // the bytes of `.mp4`
    out.push(DOT);
    out.push(109);
    out.push(112);
    out.push(52);
    proof {
        if has_extension(p@) {
            assert(out@ =~= p@.take(dot_index(p@)) + mp4_suffix());
        } else {
            assert(p@.take(p@.len() as int) =~= p@);
            assert(out@ =~= p@ + mp4_suffix());
        }
    }
    out
}

/// A backslash becomes a forward slash; every other byte is kept.
pub open spec fn norm_byte(b: u8) -> u8 {
    if b == BACKSLASH {
        SLASH
    } else {
        b
    }
}

/// Separator normalization of a whole path.
pub open spec fn normalized(p: Seq<u8>) -> Seq<u8> {
    p.map_values(|b: u8| norm_byte(b))
}

/// Rewrites every backslash to a forward slash, byte for byte.
pub fn normalize_separators(p: &Vec<u8>) -> (r: Vec<u8>)
    ensures
        r@ == normalized(p@),
{
    let mut out: Vec<u8> = Vec::new();
    let mut i: usize = 0;
    while i < p.len()
        invariant
            i <= p@.len(),
            out@.len() == i,
            forall|k: int| 0 <= k < i ==> out@[k] == norm_byte(p@[k]),
        decreases p@.len() - i,
    {
        let b = p[i];
        if b == BACKSLASH {
            out.push(SLASH);
        } else {
            out.push(b);
        }
        i = i + 1;
    }
    proof {
        assert(out@ =~= normalized(p@));
    }
    out
}

/// Output path derivation replaces the extension only: every byte up to the
/// extension's dot — the directory part and the base name — is kept, and
/// what follows is exactly `.mp4`. The derivation depends on the path's
/// bytes alone, never on the file's contents.
pub proof fn lemma_output_path_replaces_extension_only(p: Seq<u8>)
    requires
        has_extension(p),
    ensures
        output_path_of(p).subrange(0, file_name_start(p))
            == p.subrange(0, file_name_start(p)),
        output_path_of(p).subrange(file_name_start(p), dot_index(p))
            == p.subrange(file_name_start(p), dot_index(p)),
        output_path_of(p).skip(dot_index(p)) == mp4_suffix(),
{
    lemma_dot_index_bounds(p);
    lemma_file_name_start_bounds(p);
    assert(output_path_of(p).subrange(0, file_name_start(p))
        =~= p.subrange(0, file_name_start(p)));
    assert(output_path_of(p).subrange(file_name_start(p), dot_index(p))
        =~= p.subrange(file_name_start(p), dot_index(p)));
    assert(output_path_of(p).skip(dot_index(p)) =~= mp4_suffix());
}

/// A candidate's derived output path is never the input path itself: the
/// replaced extension differs in length, so deleting the input after a
/// successful conversion cannot touch the output.
pub proof fn lemma_output_path_differs(p: Seq<u8>)
    requires
        is_ts_path(p),
    ensures
        output_path_of(p) != p,
{
    lemma_dot_index_bounds(p);
    lemma_file_name_start_bounds(p);
    assert(lower_seq(extension_of(p)).len() == 2);
    assert(p.len() == dot_index(p) + 3);
    assert(output_path_of(p).len() == dot_index(p) + 4);
}

} // verus!
