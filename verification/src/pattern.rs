use vstd::prelude::*;

verus! {

/// `pat` occurs nowhere in `s` as a contiguous run of bytes.
pub open spec fn absent(s: Seq<u8>, pat: Seq<u8>) -> bool {
    forall|i: int| 0 <= i && i + pat.len() <= s.len() ==> #[trigger] s.subrange(i, i + pat.len())
        != pat
}

/// No byte of `s` equals `x`.
pub open spec fn free_of(s: Seq<u8>, x: u8) -> bool {
    forall|j: int| 0 <= j < s.len() ==> s[j] != x
}

/// A sequence free of one of `pat`'s bytes cannot contain `pat`.
pub proof fn lemma_absent_if_free(s: Seq<u8>, pat: Seq<u8>, k: int)
    requires
        0 <= k < pat.len(),
        free_of(s, pat[k]),
    ensures
        absent(s, pat),
{
    assert forall|i: int| 0 <= i && i + pat.len() <= s.len() implies #[trigger] s.subrange(
        i,
        i + pat.len(),
    ) != pat by {
        if s.subrange(i, i + pat.len()) == pat {
            assert(s.subrange(i, i + pat.len())[k] == s[i + k]);
            assert(s[i + k] == pat[k]);
        }
    }
}

/// Byte-freeness carries over concatenation.
pub proof fn lemma_free_concat(a: Seq<u8>, b: Seq<u8>, x: u8)
    requires
        free_of(a, x),
        free_of(b, x),
    ensures
        free_of(a + b, x),
{
    assert forall|j: int| 0 <= j < (a + b).len() implies (a + b)[j] != x by {
        if j < a.len() {
            assert((a + b)[j] == a[j]);
        } else {
            assert((a + b)[j] == b[j - a.len()]);
        }
    }
}

/// Absence carries over concatenation when `a` does not end in the last
/// byte of any proper prefix of `pat`: an occurrence straddling the
/// boundary would put exactly such a byte at the end of `a`.
pub proof fn lemma_absent_concat(a: Seq<u8>, b: Seq<u8>, pat: Seq<u8>)
    requires
        pat.len() >= 1,
        absent(a, pat),
        absent(b, pat),
        forall|k: int| 1 <= k < pat.len() ==> a.len() < k || a[a.len() - 1] != #[trigger] pat[k
            - 1],
    ensures
        absent(a + b, pat),
{
    assert forall|i: int| 0 <= i && i + pat.len() <= (a + b).len() implies #[trigger] (a
        + b).subrange(i, i + pat.len()) != pat by {
        if (a + b).subrange(i, i + pat.len()) == pat {
            if i + pat.len() <= a.len() {
                assert(a.subrange(i, i + pat.len()) =~= (a + b).subrange(i, i + pat.len()));
                assert(a.subrange(i, i + pat.len()) != pat);
            } else if i >= a.len() {
                assert(b.subrange(i - a.len(), i - a.len() + pat.len()) =~= (a + b).subrange(
                    i,
                    i + pat.len(),
                ));
                assert(b.subrange(i - a.len(), i - a.len() + pat.len()) != pat);
            } else {
                let k: int = a.len() - i;
                assert(1 <= k < pat.len());
                assert((a + b).subrange(i, i + pat.len())[k - 1] == (a + b)[i + k - 1]);
                assert((a + b)[i + k - 1] == a[a.len() - 1]);
                assert(a[a.len() - 1] == pat[k - 1]);
                assert(a.len() < k || a[a.len() - 1] != pat[k - 1]);
            }
        }
    }
}

/// In a sequence whose only escape byte stands first, a pattern that opens
/// with the escape byte can occur at position zero alone; if it does not
/// stand there either, it is absent.
pub proof fn lemma_absent_esc_seq(s: Seq<u8>, pat: Seq<u8>)
    requires
        pat.len() >= 1,
        pat[0] == 27,
        forall|j: int| 1 <= j < s.len() ==> #[trigger] s[j] != 27,
        s.len() >= pat.len() ==> s.subrange(0, pat.len() as int) != pat,
    ensures
        absent(s, pat),
{
    assert forall|i: int| 0 <= i && i + pat.len() <= s.len() implies #[trigger] s.subrange(
        i,
        i + pat.len(),
    ) != pat by {
        if s.subrange(i, i + pat.len()) == pat {
            if i >= 1 {
                assert(s.subrange(i, i + pat.len())[0] == s[i]);
                assert(s[i] == pat[0]);
                assert(s[i] != 27);
            } else {
                assert(s.subrange(0, pat.len() as int) == pat);
            }
        }
    }
}

} // verus!
