//! Path derivation on byte strings.
//!
//! Paths are raw byte strings with `/` as the separator, the model the
//! front end converts real paths into.  From an input path the crate
//! derives the output path `dir / (stem + ".mp4")`: `dir` is the given
//! output directory or, absent that, the input's parent; `stem` is the
//! input's file name minus its final extension, with the literal
//! `converted` standing in when no stem can be derived.

use vstd::prelude::*;
use crate::text::lower;

verus! {

/// Index of the last occurrence of `c` in `s`, if any.
pub open spec fn rfind(s: Seq<u8>, c: u8) -> Option<int>
    decreases s.len(),
{
    if s.len() == 0 {
        None
    } else if s.last() == c {
        Some(s.len() - 1)
    } else {
        rfind(s.drop_last(), c)
    }
}

/// `rfind` names the last occurrence: the byte there is `c` and none after
/// it is; `None` means `c` does not occur at all.
pub proof fn lemma_rfind(s: Seq<u8>, c: u8)
    ensures
        match rfind(s, c) {
            Some(i) => 0 <= i < s.len() && s[i] == c && forall|j: int|
                i < j < s.len() ==> s[j] != c,
            None => forall|j: int| 0 <= j < s.len() ==> s[j] != c,
        },
    decreases s.len(),
{
    if s.len() > 0 && s.last() != c {
        let t = s.drop_last();
        lemma_rfind(t, c);
        match rfind(t, c) {
            Some(i) => {
                assert(s[i] == t[i]);
                assert forall|j: int| i < j < s.len() implies s[j] != c by {
                    if j < s.len() - 1 {
                        assert(s[j] == t[j]);
                    }
                }
            },
            None => {
                assert forall|j: int| 0 <= j < s.len() implies s[j] != c by {
                    if j < s.len() - 1 {
                        assert(s[j] == t[j]);
                    }
                }
            },
        }
    }
}

/// Finds the last occurrence of `c` in `s`.
pub fn rfind_byte(s: &[u8], c: u8) -> (r: Option<usize>)
    ensures
        match r {
            Some(i) => i < s@.len() && s@[i as int] == c && rfind(s@, c) == Some(i as int),
            None => rfind(s@, c) is None,
        },
{
    let mut i: usize = s.len();
    while i > 0
        invariant
            i <= s@.len(),
            forall|j: int| i <= j < s@.len() ==> s@[j] != c,
        decreases i,
    {
        i = i - 1;
        if s[i] == c {
            proof {
                lemma_rfind(s@, c);
            }
            return Some(i);
        }
    }
    proof {
        lemma_rfind(s@, c);
    }
    None
}

/// The file-name part of a path: everything after the last `/`, or the
/// whole path when there is none.
pub open spec fn file_name_of(p: Seq<u8>) -> Seq<u8> {
    match rfind(p, '/' as u8) {
        Some(i) => p.subrange(i + 1, p.len() as int),
        None => p,
    }
}

/// The parent of a path: what stands before the last `/` (the root `/`
/// when that slash comes first), or the empty path (the current
/// directory) when there is no slash.  The empty path and the root have
/// no parent.
pub open spec fn parent_of(p: Seq<u8>) -> Option<Seq<u8>> {
    if p.len() == 0 || p == seq!['/' as u8] {
        None
    } else {
        match rfind(p, '/' as u8) {
            Some(i) => if i == 0 {
                Some(seq!['/' as u8])
            } else {
                Some(p.subrange(0, i))
            },
            None => Some(Seq::empty()),
        }
    }
}

/// The extension of a file name: the part after the last `.`, provided
/// that dot is not the name's first byte (a name that is nothing but a
/// leading dot and an extension-like tail hides no extension).
pub open spec fn extension_of(name: Seq<u8>) -> Option<Seq<u8>> {
    match rfind(name, '.' as u8) {
        Some(i) => if i == 0 {
            None
        } else {
            Some(name.subrange(i + 1, name.len() as int))
        },
        None => None,
    }
}

/// The stem of a file name: everything before the last `.`, or the whole
/// name when there is no dot.  Unlike `extension_of`, a leading dot does
/// cut: the stem of `.mts` is empty, so no stem can be derived from it.
pub open spec fn stem_of(name: Seq<u8>) -> Seq<u8> {
    match rfind(name, '.' as u8) {
        Some(i) => name.subrange(0, i),
        None => name,
    }
}

/// The extension bytes name `mts`, compared ASCII case-insensitively.
pub open spec fn is_mts_ext(e: Seq<u8>) -> bool {
    e.len() == 3 && lower(e[0]) == ('m' as u8) && lower(e[1]) == ('t' as u8) && lower(e[2])
        == ('s' as u8)
}

/// A file name selected for conversion: its extension is `mts`.
pub open spec fn is_mts_name(name: Seq<u8>) -> bool {
    match extension_of(name) {
        Some(e) => is_mts_ext(e),
        None => false,
    }
}

/// The bytes of `"converted"`, the fallback stem.
pub open spec fn converted_stem() -> Seq<u8> {
    seq![
        'c' as u8, 'o' as u8, 'n' as u8, 'v' as u8, 'e' as u8, 'r' as u8, 't' as u8,
        'e' as u8, 'd' as u8,
    ]
}

/// The bytes of `".mp4"`.
pub open spec fn mp4_suffix() -> Seq<u8> {
    seq!['.' as u8, 'm' as u8, 'p' as u8, '4' as u8]
}

/// The output file name derived from an input file name: the stem with
/// `.mp4` appended, the literal `converted` standing in for an empty stem.
pub open spec fn output_name_of(name: Seq<u8>) -> Seq<u8> {
    (if stem_of(name).len() == 0 {
        converted_stem()
    } else {
        stem_of(name)
    }) + mp4_suffix()
}

/// Joins a directory and a file name, adding a `/` unless the directory is
/// empty (the current directory) or already ends in one.
pub open spec fn join_path(dir: Seq<u8>, name: Seq<u8>) -> Seq<u8> {
    if dir.len() == 0 {
        name
    } else if dir.last() == ('/' as u8) {
        dir + name
    } else {
        dir + seq!['/' as u8] + name
    }
}

/// The derived output path of a conversion: the output directory (or,
/// absent that, the input's parent) joined with the output file name.
/// `None` when no output directory is given and the input has no parent.
pub open spec fn spec_output_path(input: Seq<u8>, outdir: Option<Seq<u8>>) -> Option<Seq<u8>> {
    let dir = match outdir {
        Some(d) => Some(d),
        None => parent_of(input),
    };
    match dir {
        Some(d) => Some(join_path(d, output_name_of(file_name_of(input)))),
        None => None,
    }
}

/// Two names of the same length that agree byte for byte once
/// lower-cased have their dots in the same places.
proof fn lemma_rfind_dot_case(a: Seq<u8>, b: Seq<u8>)
    requires
        a.len() == b.len(),
        forall|i: int| 0 <= i < a.len() ==> lower(a[i]) == lower(#[trigger] b[i]),
    ensures
        rfind(a, '.' as u8) == rfind(b, '.' as u8),
    decreases a.len(),
{
    if a.len() > 0 {
        assert(lower(a.last()) == lower(b.last()));
        assert(a.last() == ('.' as u8) <==> b.last() == ('.' as u8));
        if a.last() != ('.' as u8) {
            assert(forall|i: int|
                0 <= i < a.drop_last().len() ==> lower(a.drop_last()[i]) == lower(
                    #[trigger] b.drop_last()[i],
                ));
            lemma_rfind_dot_case(a.drop_last(), b.drop_last());
        }
    }
}

/// Law: file selection is ASCII case-insensitive: two names that agree
/// byte for byte once lower-cased — `X.MTS`, `x.Mts`, `x.mts` — are
/// selected alike.
pub proof fn lemma_selection_case_insensitive(a: Seq<u8>, b: Seq<u8>)
    requires
        a.len() == b.len(),
        forall|i: int| 0 <= i < a.len() ==> lower(a[i]) == lower(#[trigger] b[i]),
    ensures
        is_mts_name(a) == is_mts_name(b),
{
    lemma_rfind_dot_case(a, b);
    lemma_rfind(a, '.' as u8);
    match rfind(a, '.' as u8) {
        Some(i) => {
            if i > 0 {
                let ea = a.subrange(i + 1, a.len() as int);
                let eb = b.subrange(i + 1, b.len() as int);
                assert(forall|k: int| 0 <= k < ea.len() ==> lower(#[trigger] ea[k]) == lower(
                    eb[k],
                ));
                assert(is_mts_ext(ea) == is_mts_ext(eb));
            }
        },
        None => {},
    }
}

/// Decides `lower` on one byte.
pub fn lower_byte(b: u8) -> (r: u8)
    ensures
        r == lower(b),
{
    if ('A' as u8) <= b && b <= ('Z' as u8) {
        b + 32
    } else {
        b
    }
}

/// Decides whether a file name is selected for conversion: the extension
/// is `mts` under ASCII case-insensitive comparison.
pub fn is_mts_file_name(name: &Vec<u8>) -> (r: bool)
    ensures
        r == is_mts_name(name@),
{
    match rfind_byte(name.as_slice(), '.' as u8) {
        Some(i) => {
            if i == 0 {
                return false;
            }
            let ghost e = name@.subrange(i + 1, name@.len() as int);
            if name.len() - i - 1 != 3 {
                return false;
            }
            let r = lower_byte(name[i + 1]) == ('m' as u8) && lower_byte(name[i + 2]) == (
            't' as u8) && lower_byte(name[i + 3]) == ('s' as u8);
            proof {
                assert(e.len() == 3);
                assert(e[0] == name@[i + 1] && e[1] == name@[i + 2] && e[2] == name@[i + 3]);
            }
            r
        },
        None => false,
    }
}

/// Appends `src[lo..hi]` to `dst`.
fn append_range(dst: &mut Vec<u8>, src: &[u8], lo: usize, hi: usize)
    requires
        lo <= hi <= src@.len(),
    ensures
        final(dst)@ == old(dst)@ + src@.subrange(lo as int, hi as int),
{
    let ghost base = dst@;
    let mut i: usize = lo;
    while i < hi
        invariant
            lo <= i <= hi <= src@.len(),
            dst@ == base + src@.subrange(lo as int, i as int),
        decreases hi - i,
    {
        dst.push(src[i]);
        proof {
            assert(base + src@.subrange(lo as int, i as int + 1) =~= (base + src@.subrange(
                lo as int,
                i as int,
            )).push(src@[i as int]));
        }
        i = i + 1;
    }
}

/// Builds the output file name for an input file name.
pub fn output_file_name(name: &Vec<u8>) -> (r: Vec<u8>)
    ensures
        r@ == output_name_of(name@),
{
    let mut out: Vec<u8> = Vec::new();
    match rfind_byte(name.as_slice(), '.' as u8) {
        Some(i) => {
            append_range(&mut out, name.as_slice(), 0, i);
            proof {
                assert(out@ =~= stem_of(name@));
            }
        },
        None => {
            append_range(&mut out, name.as_slice(), 0, name.len());
            proof {
                assert(out@ =~= stem_of(name@));
            }
        },
    }
    if out.len() == 0 {
        let c: Vec<u8> = vec![
            'c' as u8, 'o' as u8, 'n' as u8, 'v' as u8, 'e' as u8, 'r' as u8, 't' as u8,
            'e' as u8, 'd' as u8,
        ];
        append_range(&mut out, c.as_slice(), 0, c.len());
        proof {
            assert(out@ =~= converted_stem());
        }
    }
    let suffix: Vec<u8> = vec!['.' as u8, 'm' as u8, 'p' as u8, '4' as u8];
    append_range(&mut out, suffix.as_slice(), 0, suffix.len());
    proof {
        assert(suffix@.subrange(0, 4) =~= mp4_suffix());
        assert(out@ =~= output_name_of(name@));
    }
    out
}

/// Computes the file-name part of a path.
pub fn path_file_name(p: &Vec<u8>) -> (r: Vec<u8>)
    ensures
        r@ == file_name_of(p@),
{
    let mut out: Vec<u8> = Vec::new();
    let n = p.len();
    match rfind_byte(p.as_slice(), '/' as u8) {
        Some(i) => {
            append_range(&mut out, p.as_slice(), i + 1, n);
        },
        None => {
            append_range(&mut out, p.as_slice(), 0, p.len());
            proof {
                assert(p@.subrange(0, p@.len() as int) =~= p@);
            }
        },
    }
    proof {
        assert(out@ =~= file_name_of(p@));
    }
    out
}

/// Computes the parent of a path, if one can be determined.
pub fn path_parent(p: &Vec<u8>) -> (r: Option<Vec<u8>>)
    ensures
        r.deep_view() == parent_of(p@),
{
    if p.len() == 0 {
        return None;
    }
    if p.len() == 1 && p[0] == ('/' as u8) {
        proof {
            assert(p@ =~= seq!['/' as u8]);
        }
        return None;
    }
    proof {
        assert(p@ != seq!['/' as u8]) by {
            if p@ == seq!['/' as u8] {
                assert(p@.len() == 1 && p@[0] == ('/' as u8));
            }
        }
    }
    match rfind_byte(p.as_slice(), '/' as u8) {
        Some(i) => {
            if i == 0 {
                let root: Vec<u8> = vec!['/' as u8];
                proof {
                    assert(root@ =~= seq!['/' as u8]);
                }
                Some(root)
            } else {
                let mut out: Vec<u8> = Vec::new();
                append_range(&mut out, p.as_slice(), 0, i);
                proof {
                    assert(out@ =~= p@.subrange(0, i as int));
                }
                Some(out)
            }
        },
        None => {
            let out: Vec<u8> = Vec::new();
            proof {
                assert(out@ =~= Seq::<u8>::empty());
            }
            Some(out)
        },
    }
}

/// Joins a directory and a file name.
pub fn path_join(dir: &Vec<u8>, name: &Vec<u8>) -> (r: Vec<u8>)
    ensures
        r@ == join_path(dir@, name@),
{
    let mut out: Vec<u8> = Vec::new();
    if dir.len() == 0 {
        append_range(&mut out, name.as_slice(), 0, name.len());
        proof {
            assert(out@ =~= join_path(dir@, name@));
        }
        return out;
    }
    append_range(&mut out, dir.as_slice(), 0, dir.len());
    if dir[dir.len() - 1] != ('/' as u8) {
        out.push('/' as u8);
    }
    append_range(&mut out, name.as_slice(), 0, name.len());
    proof {
        assert(dir@.subrange(0, dir@.len() as int) =~= dir@);
        assert(name@.subrange(0, name@.len() as int) =~= name@);
        assert(out@ =~= join_path(dir@, name@));
    }
    out
}

/// Derives the output path for an input path and an optional output
/// directory; `None` when no directory is given and the input has no
/// parent.
pub fn derive_output_path(input: &Vec<u8>, output_dir: Option<&Vec<u8>>) -> (r: Option<Vec<u8>>)
    ensures
        r.deep_view() == spec_output_path(input@, output_dir.deep_view()),
{
    let name = path_file_name(input);
    let out_name = output_file_name(&name);
    match output_dir {
        Some(d) => Some(path_join(d, &out_name)),
        None => {
            match path_parent(input) {
                Some(d) => Some(path_join(&d, &out_name)),
                None => None,
            }
        },
    }
}

} // verus!
