use vstd::prelude::*;
use vstd::string::StringSliceAdditionalSpecFns;

verus! {

/// Decides whether the byte span `s[a..b)` spells exactly the name `t`.
pub fn span_is(s: &[u8], a: usize, b: usize, t: &str) -> (r: bool)
    requires
        a <= b <= s@.len(),
    ensures
        r == (s@.subrange(a as int, b as int) == t.spec_bytes()),
{
    let tb: &[u8] = t.as_bytes();
    if b - a != tb.len() {
        proof {
            assert(s@.subrange(a as int, b as int).len() != t.spec_bytes().len());
        }
        return false;
    }
    let n = tb.len();
    let mut k: usize = 0;
    while k < n
        invariant
            a <= b <= s@.len(),
            n == tb.len() == b - a,
            tb@ == t.spec_bytes(),
            0 <= k <= n,
            forall|j: int| 0 <= j < k ==> s@[a + j] == tb@[j],
        decreases n - k,
    {
        if s[a + k] != tb[k] {
            proof {
                assert(s@.subrange(a as int, b as int)[k as int] != t.spec_bytes()[k as int]);
            }
            return false;
        }
        k = k + 1;
    }
    proof {
        assert(s@.subrange(a as int, b as int) =~= t.spec_bytes());
    }
    true
}

/// Decides whether the whole byte sequence spells exactly the name `t`.
pub fn bytes_is(s: &[u8], t: &str) -> (r: bool)
    ensures
        r == (s@ == t.spec_bytes()),
{
    let n = s.len();
    let r = span_is(s, 0, n, t);
    proof {
        assert(s@.subrange(0, n as int) =~= s@);
    }
    r
}

} // verus!
