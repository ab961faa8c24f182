//! String helpers used throughout the library.

use vstd::prelude::*;

verus! {

/// Decides view equality of two string slices.
#[verifier::loop_isolation(false)]
pub fn str_eq(a: &str, b: &str) -> (r: bool)
    ensures
        r == (a@ == b@),
{
    let n = a.unicode_len();
    let m = b.unicode_len();
    if n != m {
        return false;
    }
    for i in 0..n
        invariant
            forall|j: int| 0 <= j < i ==> a@[j] == b@[j],
    {
        if a.get_char(i) != b.get_char(i) {
            return false;
        }
    }
    proof {
        assert(a@ =~= b@);
    }
    true
}

/// Whether `v` holds a string whose characters equal `s`'s.
pub open spec fn contains_str(v: Seq<Seq<char>>, s: Seq<char>) -> bool {
    v.contains(s)
}

/// Decides `contains_str`.
#[verifier::loop_isolation(false)]
pub fn contains_string(v: &Vec<String>, s: &str) -> (r: bool)
    ensures
        r == contains_str(v.deep_view(), s@),
{
    let n = v.len();
    for i in 0..n
        invariant
            forall|j: int| 0 <= j < i ==> v.deep_view()[j] != s@,
    {
        if str_eq(v[i].as_str(), s) {
            assert(v.deep_view()[i as int] == s@);
            return true;
        }
    }
    assert(!v.deep_view().contains(s@));
    false
}

/// Appends the character `src@[i]` to `dst`.
pub fn append_char_of(dst: &mut String, src: &str, i: usize)
    requires
        i < src@.len(),
        i < usize::MAX,
    ensures
        final(dst)@ == old(dst)@.push(src@[i as int]),
{
    let piece = src.substring_char(i, i + 1);
    dst.append(piece);
    proof {
        assert(old(dst)@ + src@.subrange(i as int, i + 1) =~= old(dst)@.push(src@[i as int]));
    }
}

} // verus!
