//! Which directory entries are analysed.

use vstd::prelude::*;

verus! {

/// The walk depth: the whole tree when recursive, else the directory's own
/// entries.
pub fn walk_depth(recursive: bool) -> (d: usize)
    ensures
        d == if recursive {
            usize::MAX
        } else {
            1
        },
{
    if recursive {
        usize::MAX
    } else {
        1
    }
}

/// `k` is the last `.` of `name`.
pub open spec fn is_last_dot(name: Seq<u8>, k: int) -> bool {
    &&& 0 <= k < name.len()
    &&& name[k] == 46u8
    &&& forall|j: int| k < j < name.len() ==> name[j] != 46u8
}

/// The extension of a file name, as `Path::extension` gives it: the part
/// after the last `.`, unless there is no `.`, or the only `.` starts the
/// name, or the name is `..`.
pub open spec fn file_extension(name: Seq<u8>) -> Option<Seq<u8>> {
    if name == seq![46u8, 46u8] {
        None
    } else if exists|k: int| is_last_dot(name, k) && k > 0 {
        Some(name.skip((choose|k: int| is_last_dot(name, k) && k > 0) + 1))
    } else {
        None
    }
}

/// The ASCII lower case of a byte.
pub open spec fn ascii_lower(b: u8) -> u8 {
    if 65 <= b <= 90 {
        (b + 32) as u8
    } else {
        b
    }
}

/// `e` is `wav` in any mix of ASCII cases.
pub open spec fn is_wav_extension(e: Seq<u8>) -> bool {
    e.len() == 3 && ascii_lower(e[0]) == 119u8 && ascii_lower(e[1]) == 97u8 && ascii_lower(e[2])
        == 118u8
}

/// A file with this name is a WAV file: its extension is `wav`, compared
/// without regard to ASCII case.
pub open spec fn is_wav_name(name: Seq<u8>) -> bool {
    match file_extension(name) {
        Some(e) => is_wav_extension(e),
        None => false,
    }
}

fn lower(b: u8) -> (r: u8)
    ensures
        r == ascii_lower(b),
{
    if 65 <= b && b <= 90 {
        b + 32
    } else {
        b
    }
}

/// Decide whether a file name (its bytes) names a WAV file.
pub fn is_wav_file_name(name: &[u8]) -> (r: bool)
    ensures
        r == is_wav_name(name@),
{
    let n = name.len();
    let mut k: usize = n;
    while k > 0 && name[k - 1] != 46u8
        invariant
            n == name@.len(),
            k <= n,
            forall|j: int| k <= j < n ==> name@[j] != 46u8,
        decreases k,
    {
        k = k - 1;
    }
    if n == 2 && name[0] == 46u8 && name[1] == 46u8 {
        assert(name@ =~= seq![46u8, 46u8]);
        return false;
    }
    if k <= 1 {
        proof {
            assert forall|m: int| !(is_last_dot(name@, m) && m > 0) by {
                if is_last_dot(name@, m) && m > 0 {
                    if k == 1 {
                        assert(name@[k - 1] == 46u8);
                    }
                }
            }
        }
        return false;
    }
    let dot = k - 1;
    proof {
        assert(is_last_dot(name@, dot as int) && dot > 0);
        let c = choose|m: int| is_last_dot(name@, m) && m > 0;
        if c < dot {
            assert(name@[dot as int] == 46u8);
        } else if c > dot {
            assert(name@[c] == 46u8);
        }
        assert(name@ != seq![46u8, 46u8]) by {
            if n == 2 {
                assert(name@.len() == 2);
            }
        }
    }
    if n - k != 3 {
        return false;
    }
    let r = lower(name[k]) == 119u8 && lower(name[k + 1]) == 97u8 && lower(name[k + 2]) == 118u8;
    proof {
        let e = name@.skip(k as int);
        assert(e[0] == name@[k as int] && e[1] == name@[k + 1] && e[2] == name@[k + 2]);
    }
    r
}

/// Whether a name ends in `.wav` depends only on the text after its last
/// `.`: for any non-empty stem (spaces, dots and all) and any extension
/// without a dot, the name is a WAV name exactly when the extension is
/// `w`, `a`, `v` in either case.
pub proof fn lemma_wav_by_extension_only(stem: Seq<u8>, e: Seq<u8>)
    requires
        stem.len() > 0,
        forall|i: int| 0 <= i < e.len() ==> e[i] != 46u8,
    ensures
        is_wav_name(stem + seq![46u8] + e) == (e.len() == 3 && (e[0] == 119u8 || e[0] == 87u8)
            && (e[1] == 97u8 || e[1] == 65u8) && (e[2] == 118u8 || e[2] == 86u8)),
{
    let name = stem + seq![46u8] + e;
    let k = stem.len() as int;
    assert(name[k] == 46u8);
    assert forall|j: int| k < j < name.len() implies name[j] != 46u8 by {
        assert(name[j] == e[j - k - 1]);
    }
    assert(is_last_dot(name, k) && k > 0);
    let c = choose|m: int| is_last_dot(name, m) && m > 0;
    if c < k {
        assert(name[k] == 46u8);
    } else if c > k {
        assert(name[c] == 46u8);
    }
    if name =~= seq![46u8, 46u8] {
        assert(e.len() == 0);
    }
    assert(name.skip(k + 1) =~= e);
}

/// A name without a `.` is never a WAV name.
pub proof fn lemma_no_dot_no_wav(name: Seq<u8>)
    requires
        forall|i: int| 0 <= i < name.len() ==> name[i] != 46u8,
    ensures
        !is_wav_name(name),
{
    if name =~= seq![46u8, 46u8] {
        assert(name[0] == 46u8);
    }
}

} // verus!
