//! Verified character-level string utilities: equality, substring matching,
//! single-pattern replacement and end-trimming, the building blocks of the
//! term rewriter and the serializers.

use vstd::prelude::*;

verus! {

/// Character-for-character string equality, decided without trusting any
/// outside comparison.
pub fn str_eq(a: &str, b: &str) -> (r: bool)
    ensures
        r == (a@ == b@),
{
    let alen = a.unicode_len();
    let blen = b.unicode_len();
    if alen != blen {
        return false;
    }
    let mut i: usize = 0;
    while i < alen
        invariant
            0 <= i <= alen,
            alen == a@.len(),
            blen == b@.len(),
            alen == blen,
            forall|j: int| 0 <= j < i ==> a@[j] == b@[j],
        decreases alen - i,
    {
        if a.get_char(i) != b.get_char(i) {
            return false;
        }
        i += 1;
    }
    proof {
        assert(a@ =~= b@);
    }
    true
}

/// What replacing every non-overlapping, left-to-right occurrence of `pat`
/// by `to` leaves of `s`. A pattern of length zero replaces nothing.
pub open spec fn replace_spec(s: Seq<char>, pat: Seq<char>, to: Seq<char>) -> Seq<char>
    decreases s.len(),
{
    if pat.len() == 0 || s.len() == 0 {
        s
    } else if matches_at(s, pat, 0) {
        to + replace_spec(s.skip(pat.len() as int), pat, to)
    } else {
        seq![s[0]] + replace_spec(s.skip(1), pat, to)
    }
}

/// True exactly when `pat` occurs in `s` starting at position `i`.
pub open spec fn matches_at(s: Seq<char>, pat: Seq<char>, i: int) -> bool {
    0 <= i && i + pat.len() <= s.len() && s.subrange(i, i + pat.len() as int) == pat
}

/// Decides `matches_at` on real strings.
pub fn check_match_at(s: &str, pat: &str, i: usize) -> (r: bool)
    requires
        i <= s@.len(),
    ensures
        r == matches_at(s@, pat@, i as int),
{
    let slen = s.unicode_len();
    let plen = pat.unicode_len();
    if plen > slen - i {
        return false;
    }
    let mut j: usize = 0;
    while j < plen
        invariant
            0 <= j <= plen,
            plen == pat@.len(),
            slen == s@.len(),
            i + plen <= slen,
            forall|k: int| 0 <= k < j ==> s@[i + k] == pat@[k],
        decreases plen - j,
    {
        if s.get_char(i + j) != pat.get_char(j) {
            proof {
                assert(s@.subrange(i as int, i + pat@.len() as int)[j as int] != pat@[j as int]);
            }
            return false;
        }
        j += 1;
    }
    proof {
        assert(s@.subrange(i as int, i + pat@.len() as int) =~= pat@);
    }
    true
}

/// Replaces every occurrence of `pat` in `s` by `to`, left to right.
pub fn replace_all(s: &str, pat: &str, to: &str) -> (r: String)
    requires
        pat@.len() > 0,
    ensures
        r@ == replace_spec(s@, pat@, to@),
{
    let mut out = String::new();
    let slen = s.unicode_len();
    let plen = pat.unicode_len();
    let mut i: usize = 0;
    proof {
        assert(s@.skip(0) =~= s@);
        assert(out@ + replace_spec(s@, pat@, to@) =~= replace_spec(s@, pat@, to@));
    }
    while i < slen
        invariant
            0 <= i <= slen,
            slen == s@.len(),
            plen == pat@.len(),
            plen > 0,
            replace_spec(s@, pat@, to@) == out@ + replace_spec(s@.skip(i as int), pat@, to@),
        decreases slen - i,
    {
        let ghost rest = s@.skip(i as int);
        if check_match_at(s, pat, i) {
            proof {
                assert(rest.subrange(0, plen as int) =~= s@.subrange(i as int, i + plen));
                assert(matches_at(rest, pat@, 0));
                assert(rest.skip(plen as int) =~= s@.skip(i + plen));
                assert(replace_spec(rest, pat@, to@) == to@ + replace_spec(
                    s@.skip(i + plen),
                    pat@,
                    to@,
                ));
                assert((out@ + to@) + replace_spec(s@.skip(i + plen), pat@, to@) =~= out@ + (to@
                    + replace_spec(s@.skip(i + plen), pat@, to@)));
            }
            out.append(to);
            i += plen;
        } else {
            proof {
                if matches_at(rest, pat@, 0) {
                    assert(s@.subrange(i as int, i + plen) =~= rest.subrange(0, plen as int));
                    assert(false);
                }
                assert(rest[0] == s@[i as int]);
                assert(replace_spec(rest, pat@, to@) == seq![s@[i as int]] + replace_spec(
                    s@.skip(i as int).skip(1),
                    pat@,
                    to@,
                ));
                assert(s@.skip(i as int).skip(1) =~= s@.skip(i + 1));
            }
            let piece = s.substring_char(i, i + 1);
            proof {
                assert(piece@ =~= seq![s@[i as int]]);
                assert((out@ + piece@) + replace_spec(s@.skip(i + 1), pat@, to@) =~= out@ + (
                seq![s@[i as int]] + replace_spec(s@.skip(i + 1), pat@, to@)));
            }
            out.append(piece);
            i += 1;
        }
    }
    proof {
        assert(s@.skip(slen as int) =~= Seq::<char>::empty());
        assert(replace_spec(Seq::<char>::empty(), pat@, to@) == Seq::<char>::empty());
        assert(out@ + Seq::<char>::empty() =~= out@);
    }
    out
}

/// The characters the term rewriter strips from both ends of a label.
pub open spec fn is_trim_char(c: char) -> bool {
    c == '<' || c == '>' || c == '"'
}

/// `s` without its leading run of trimmed characters.
pub open spec fn trim_start_spec(s: Seq<char>) -> Seq<char>
    decreases s.len(),
{
    if s.len() > 0 && is_trim_char(s[0]) {
        trim_start_spec(s.skip(1))
    } else {
        s
    }
}

/// `s` without its trailing run of trimmed characters.
pub open spec fn trim_end_spec(s: Seq<char>) -> Seq<char>
    decreases s.len(),
{
    if s.len() > 0 && is_trim_char(s[s.len() - 1]) {
        trim_end_spec(s.take(s.len() - 1))
    } else {
        s
    }
}

/// `s` with angle brackets and double quotes trimmed from both ends.
pub open spec fn trim_spec(s: Seq<char>) -> Seq<char> {
    trim_end_spec(trim_start_spec(s))
}

fn trim_char(c: char) -> (r: bool)
    ensures
        r == is_trim_char(c),
{
    c == '<' || c == '>' || c == '"'
}

/// Trims `<`, `>` and `"` from both ends of `s`.
pub fn trim_angles_quotes(s: &str) -> (r: String)
    ensures
        r@ == trim_spec(s@),
{
    let slen = s.unicode_len();
    let mut a: usize = 0;
    proof {
        assert(s@.skip(0) =~= s@);
    }
    while a < slen && trim_char(s.get_char(a))
        invariant
            0 <= a <= slen,
            slen == s@.len(),
            trim_start_spec(s@) == trim_start_spec(s@.skip(a as int)),
        decreases slen - a,
    {
        proof {
            assert(s@.skip(a as int)[0] == s@[a as int]);
            assert(s@.skip(a as int).skip(1) =~= s@.skip(a + 1));
        }
        a += 1;
    }
    let ghost t = s@.skip(a as int);
    proof {
        if a == slen {
            assert(t =~= Seq::<char>::empty());
        }
        assert(trim_start_spec(t) == t);
    }
    let mut b: usize = slen - a;
    proof {
        assert(t.take(b as int) =~= t);
    }
    while b > 0 && trim_char(s.get_char(a + b - 1))
        invariant
            0 <= b <= slen - a,
            0 <= a <= slen,
            slen == s@.len(),
            t == s@.skip(a as int),
            trim_end_spec(t) == trim_end_spec(t.take(b as int)),
        decreases b,
    {
        proof {
            assert(t.take(b as int)[b - 1] == s@[a + b - 1]);
            assert(t.take(b as int).take(b - 1) =~= t.take(b - 1));
        }
        b -= 1;
    }
    proof {
        if b > 0 {
            assert(t.take(b as int)[b - 1] == s@[a + b - 1]);
        }
        assert(trim_end_spec(t.take(b as int)) == t.take(b as int));
    }
    let r = s.substring_char(a, a + b);
    proof {
        assert(r@ =~= t.take(b as int));
    }
    r.to_owned()
}

} // verus!
