//! Verified find-and-replace over strings.
//!
//! Replacement is leftmost and non-overlapping: the text is scanned once
//! from the left, every occurrence of the pattern is replaced, and scanning
//! resumes after the replacement, so nothing the replacement itself spells
//! out is rescanned.

use vstd::prelude::*;

verus! {

/// `s` with every leftmost, non-overlapping occurrence of `pat` replaced by
/// `rep`.
pub open spec fn replace_spec(s: Seq<char>, pat: Seq<char>, rep: Seq<char>) -> Seq<char>
    recommends
        pat.len() > 0,
    decreases s.len(),
{
    if s.len() < pat.len() || pat.len() == 0 {
        s
    } else if s.subrange(0, pat.len() as int) == pat {
        rep + replace_spec(s.skip(pat.len() as int), pat, rep)
    } else {
        seq![s[0]] + replace_spec(s.skip(1), pat, rep)
    }
}

/// Whether `pat` occurs in `s` at position `i`.
fn matches_at(s: &str, s_len: usize, i: usize, pat: &str, pat_len: usize) -> (r: bool)
    requires
        s_len == s@.len(),
        pat_len == pat@.len(),
        i + pat_len <= s_len,
    ensures
        r == (s@.subrange(i as int, i + pat@.len()) == pat@),
{
    let mut j: usize = 0;
    while j < pat_len
        invariant
            0 <= j <= pat_len,
            s_len == s@.len(),
            pat_len == pat@.len(),
            i + pat_len <= s_len,
            forall|k: int| 0 <= k < j ==> s@[i + k] == pat@[k],
        decreases pat_len - j,
    {
        if s.get_char(i + j) != pat.get_char(j) {
            assert(s@.subrange(i as int, i + pat@.len())[j as int] != pat@[j as int]);
            return false;
        }
        j = j + 1;
    }
    proof {
        assert(s@.subrange(i as int, i + pat@.len()) =~= pat@);
    }
    true
}

/// `s` with every leftmost, non-overlapping occurrence of `pat` replaced by
/// `rep`.
pub fn replace_str(s: &str, pat: &str, rep: &str) -> (r: String)
    requires
        pat@.len() > 0,
    ensures
        r@ == replace_spec(s@, pat@, rep@),
{
    let s_len = s.unicode_len();
    let pat_len = pat.unicode_len();
    let mut out = String::new();
    let mut seg_start: usize = 0;
    let mut i: usize = 0;
    proof {
        assert(s@.skip(0) =~= s@);
        assert(out@ + s@.subrange(0, 0) + replace_spec(s@, pat@, rep@) =~= replace_spec(
            s@,
            pat@,
            rep@,
        ));
    }
    while i < s_len
        invariant
            s_len == s@.len(),
            pat_len == pat@.len(),
            pat_len > 0,
            0 <= seg_start <= i <= s_len,
            replace_spec(s@, pat@, rep@) == out@ + s@.subrange(seg_start as int, i as int)
                + replace_spec(s@.skip(i as int), pat@, rep@),
        decreases s_len - i,
    {
        if pat_len <= s_len - i && matches_at(s, s_len, i, pat, pat_len) {
            let ghost prev_out = out@;
            let segment = s.substring_char(seg_start, i);
            out.append(segment);
            out.append(rep);
            proof {
                assert(s@.skip(i as int).subrange(0, pat@.len() as int) =~= s@.subrange(
                    i as int,
                    i + pat@.len(),
                ));
                assert(s@.skip(i as int).skip(pat@.len() as int) =~= s@.skip(i + pat@.len()));
                assert(replace_spec(s@.skip(i as int), pat@, rep@) == rep@ + replace_spec(
                    s@.skip(i + pat@.len()),
                    pat@,
                    rep@,
                ));
                assert(prev_out + s@.subrange(seg_start as int, i as int) + rep@ =~= out@);
                assert(replace_spec(s@, pat@, rep@) =~= out@ + s@.subrange(
                    (i + pat_len) as int,
                    (i + pat_len) as int,
                ) + replace_spec(s@.skip(i + pat@.len()), pat@, rep@));
            }
            i = i + pat_len;
            seg_start = i;
        } else {
            proof {
                assert(s@.subrange(seg_start as int, i + 1) =~= s@.subrange(
                    seg_start as int,
                    i as int,
                ) + seq![s@[i as int]]);
                let t = s@.skip(i as int);
                assert(t[0] == s@[i as int]);
                assert(t.skip(1) =~= s@.skip(i + 1));
                if i + pat@.len() <= s@.len() {
                    assert(t.subrange(0, pat@.len() as int) =~= s@.subrange(
                        i as int,
                        i + pat@.len(),
                    ));
                } else {
                    assert(replace_spec(t, pat@, rep@) == t);
                    assert(replace_spec(t.skip(1), pat@, rep@) == t.skip(1));
                    assert(t =~= seq![t[0]] + t.skip(1));
                }
                assert(replace_spec(s@.skip(i as int), pat@, rep@) == seq![s@[i as int]]
                    + replace_spec(s@.skip(i + 1), pat@, rep@));
                assert(out@ + s@.subrange(seg_start as int, i as int) + (seq![s@[i as int]]
                    + replace_spec(s@.skip(i + 1), pat@, rep@)) =~= out@ + s@.subrange(
                    seg_start as int,
                    i + 1,
                ) + replace_spec(s@.skip(i + 1), pat@, rep@));
            }
            i = i + 1;
        }
    }
    let tail = s.substring_char(seg_start, s_len);
    out.append(tail);
    proof {
        assert(s@.skip(s_len as int) =~= Seq::<char>::empty());
        assert(replace_spec(Seq::<char>::empty(), pat@, rep@) == Seq::<char>::empty());
        assert(out@ =~= replace_spec(s@, pat@, rep@));
    }
    out
}

} // verus!
