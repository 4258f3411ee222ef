use vstd::prelude::*;
use vstd::string::StrSliceExecFns;

verus! {

/// Collect the characters of a string slice into a vector, so that parsing
/// code can index and look ahead by position.
pub fn str_chars(s: &str) -> (v: Vec<char>)
    ensures
        v@ == s@,
{
    let n = s.unicode_len();
    let mut v: Vec<char> = Vec::new();
    let mut i: usize = 0;
    while i < n
        invariant
            n == s@.len(),
            0 <= i <= n,
            v@ == s@.take(i as int),
        decreases n - i,
    {
        v.push(s.get_char(i));
        i += 1;
        proof {
            assert(v@ =~= s@.take(i as int));
        }
    }
    proof {
        assert(v@ =~= s@);
    }
    v
}


/// Character-for-character equality of two string slices.
pub fn str_eq(a: &str, b: &str) -> (r: bool)
    ensures
        r == (a@ == b@),
{
    let av = str_chars(a);
    let bv = str_chars(b);
    if av.len() != bv.len() {
        proof {
            assert(a@ != b@);
        }
        return false;
    }
    let mut i: usize = 0;
    while i < av.len()
        invariant
            av@ == a@,
            bv@ == b@,
            av@.len() == bv@.len(),
            0 <= i <= av@.len(),
            forall|j: int| 0 <= j < i ==> av@[j] == bv@[j],
        decreases av@.len() - i,
    {
        if av[i] != bv[i] {
            proof {
                assert(a@ != b@);
            }
            return false;
        }
        i += 1;
    }
    proof {
        assert(a@ =~= b@);
    }
    true
}

/// Spec view of an optional owned string.
pub open spec fn opt_str_view(o: Option<String>) -> Option<Seq<char>> {
    match o {
        Some(s) => Some(s@),
        None => None,
    }
}

} // verus!
