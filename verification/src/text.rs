//! String utilities: substring search, leftmost non-overlapping replacement,
//! and decimal rendering of integers.

use vstd::prelude::*;

verus! {

/// The characters of `pat` occur in `s` starting at position `i`.
pub open spec fn occurs_at(s: Seq<char>, pat: Seq<char>, i: int) -> bool {
    &&& 0 <= i
    &&& i + pat.len() <= s.len()
    &&& s.subrange(i, i + pat.len()) == pat
}

/// `pat` occurs somewhere in `s`.
pub open spec fn contains_pat(s: Seq<char>, pat: Seq<char>) -> bool {
    exists|i: int| occurs_at(s, pat, i)
}

/// One character of `t`, then `rep`, then the rest, recursively.
pub open spec fn inter_tail(t: Seq<char>, rep: Seq<char>) -> Seq<char>
    decreases t.len(),
{
    if t.len() == 0 {
        Seq::empty()
    } else {
        seq![t[0]] + rep + inter_tail(t.skip(1), rep)
    }
}

/// Replacing the empty pattern: `rep` at every character boundary of `s`.
pub open spec fn interleave(s: Seq<char>, rep: Seq<char>) -> Seq<char> {
    rep + inter_tail(s, rep)
}

/// Leftmost non-overlapping replacement of `pat` by `rep` in `s`.
pub open spec fn replace_all(s: Seq<char>, pat: Seq<char>, rep: Seq<char>) -> Seq<char>
    decreases s.len(),
{
    if pat.len() == 0 {
        interleave(s, rep)
    } else if s.len() < pat.len() {
        s
    } else if s.subrange(0, pat.len() as int) == pat {
        rep + replace_all(s.skip(pat.len() as int), pat, rep)
    } else {
        seq![s[0]] + replace_all(s.skip(1), pat, rep)
    }
}

/// How many leftmost non-overlapping occurrences of `pat` are in `s`.
pub open spec fn count_pat(s: Seq<char>, pat: Seq<char>) -> nat
    decreases s.len(),
{
    if pat.len() == 0 {
        s.len() + 1
    } else if s.len() < pat.len() {
        0
    } else if s.subrange(0, pat.len() as int) == pat {
        1 + count_pat(s.skip(pat.len() as int), pat)
    } else {
        count_pat(s.skip(1), pat)
    }
}

/// Does `pat` occur in `s` at exactly position `i`?
pub fn matches_at(s: &str, pat: &str, i: usize) -> (r: bool)
    requires
        i + pat@.len() <= s@.len(),
        s@.len() <= usize::MAX,
    ensures
        r == occurs_at(s@, pat@, i as int),
{
    let m: usize = pat.unicode_len();
    let mut j: usize = 0;
    while j < m
        invariant
            m == pat@.len(),
            j <= m,
            i + m <= s@.len(),
            s@.len() <= usize::MAX,
            forall|k: int| 0 <= k < j ==> s@[i + k] == pat@[k],
        decreases m - j,
    {
        let cs = s.get_char(i + j);
        let cp = pat.get_char(j);
        if cs != cp {
            assert(s@.subrange(i as int, i + pat@.len())[j as int] != pat@[j as int]);
            return false;
        }
        j += 1;
    }
    proof {
        assert(s@.subrange(i as int, i + pat@.len()) =~= pat@);
    }
    true
}

/// The first position at or after `from` where `pat` occurs in `s`, if any.
pub fn find_from(s: &str, pat: &str, from: usize) -> (r: Option<usize>)
    ensures
        match r {
            Some(i) => {
                &&& from <= i
                &&& occurs_at(s@, pat@, i as int)
                &&& forall|k: int| from <= k < i ==> !occurs_at(s@, pat@, k)
            },
            None => forall|k: int| from <= k ==> !occurs_at(s@, pat@, k),
        },
{
    let n: usize = s.unicode_len();
    let m: usize = pat.unicode_len();
    if m > n {
        return None;
    }
    if m == 0 {
        if from <= n {
            proof {
                assert(s@.subrange(from as int, from as int) =~= pat@);
            }
            return Some(from);
        }
        return None;
    }
    let mut i: usize = from;
    while i <= n - m
        invariant
            n == s@.len(),
            m == pat@.len(),
            1 <= m <= n,
            from <= i,
            forall|k: int| from <= k < i ==> !occurs_at(s@, pat@, k),
        decreases n - i,
    {
        if matches_at(s, pat, i) {
            return Some(i);
        }
        i += 1;
    }
    None
}

/// Does `pat` occur anywhere in `s`?
pub fn str_contains(s: &str, pat: &str) -> (r: bool)
    ensures
        r == contains_pat(s@, pat@),
{
    match find_from(s, pat, 0) {
        Some(i) => {
            proof {
                assert(occurs_at(s@, pat@, i as int));
            }
            true
        },
        None => {
            proof {
                assert(forall|k: int| !occurs_at(s@, pat@, k));
            }
            false
        },
    }
}

/// A pattern found in a text is still found after the text grows at the end.
pub proof fn lemma_contains_append(s: Seq<char>, t: Seq<char>, pat: Seq<char>)
    requires
        contains_pat(s, pat),
    ensures
        contains_pat(s + t, pat),
{
    let i = choose|i: int| occurs_at(s, pat, i);
    assert((s + t).subrange(i, i + pat.len() as int) =~= pat);
    assert(occurs_at(s + t, pat, i));
}

proof fn lemma_inter_tail_push(t: Seq<char>, rep: Seq<char>, c: char)
    ensures
        inter_tail(t.push(c), rep) == inter_tail(t, rep) + seq![c] + rep,
    decreases t.len(),
{
    if t.len() == 0 {
        assert(t.push(c).skip(1) =~= Seq::<char>::empty());
        assert(t.push(c)[0] == c);
        assert(inter_tail(Seq::<char>::empty(), rep) =~= Seq::<char>::empty());
        assert(inter_tail(t.push(c), rep) =~= inter_tail(t, rep) + seq![c] + rep);
    } else {
        assert(t.push(c).skip(1) =~= t.skip(1).push(c));
        lemma_inter_tail_push(t.skip(1), rep, c);
        assert(inter_tail(t.push(c), rep) =~= inter_tail(t, rep) + seq![c] + rep);
    }
}

/// How many leftmost non-overlapping occurrences of `pat` are in `s`.
pub fn count_matches(s: &str, pat: &str) -> (r: usize)
    requires
        s@.len() < usize::MAX,
    ensures
        r == count_pat(s@, pat@),
{
    let n: usize = s.unicode_len();
    let m: usize = pat.unicode_len();
    if m == 0 {
        return n + 1;
    }
    let mut i: usize = 0;
    let mut count: usize = 0;
    proof {
        assert(s@.skip(0) =~= s@);
    }
    while i < n
        invariant
            n == s@.len(),
            m == pat@.len(),
            m >= 1,
            i <= n,
            count <= i,
            count + count_pat(s@.skip(i as int), pat@) == count_pat(s@, pat@),
        decreases n - i,
    {
        if m <= n - i && matches_at(s, pat, i) {
            proof {
                assert(s@.skip(i as int).subrange(0, m as int) =~= s@.subrange(
                    i as int,
                    i + m,
                ));
                assert(s@.skip(i as int).skip(m as int) =~= s@.skip(i + m));
            }
            count += 1;
            i += m;
        } else {
            proof {
                if m <= n - i {
                    assert(s@.skip(i as int).subrange(0, m as int) =~= s@.subrange(
                        i as int,
                        i + m,
                    ));
                } else {
                    assert(s@.skip(i as int).len() < m);
                }
                assert(s@.skip(i as int).skip(1) =~= s@.skip(i + 1));
                if m <= n - i {
                    assert(s@.skip(i as int)[0] == s@[i as int]);
                }
            }
            i += 1;
        }
    }
    proof {
        assert(s@.skip(n as int) =~= Seq::<char>::empty());
    }
    count
}

/// Relies on String::with_capacity: returns the empty string (the capacity is
/// only an allocation hint).
#[verifier::external_body]
fn string_with_capacity(n: usize) -> (r: String)
    ensures
        r@ == Seq::<char>::empty(),
{
    String::with_capacity(n)
}

/// An empty string, pre-allocated for a replacement of `pattern` by
/// `replacement` in `original`.
pub fn with_capacity_for_replace(original: &str, pattern: &str, replacement: &str) -> (r: String)
    requires
        original@.len() < usize::MAX,
    ensures
        r@ == Seq::<char>::empty(),
{
    let count = count_matches(original, pattern);
    let grow = if replacement.unicode_len() >= pattern.unicode_len() {
        replacement.unicode_len() - pattern.unicode_len()
    } else {
        0
    };
    proof {
        assert((grow as u128) * (count as u128) <= 0xFFFFFFFFFFFFFFFFu128
            * 0xFFFFFFFFFFFFFFFFu128) by (nonlinear_arith)
            requires
                grow as u128 <= 0xFFFFFFFFFFFFFFFFu128,
                count as u128 <= 0xFFFFFFFFFFFFFFFFu128,
        ;
    }
    let product: u128 = (grow as u128) * (count as u128);
    let total: u128 = (original.unicode_len() as u128) + product;
    let estimated: usize = if total > usize::MAX as u128 {
        usize::MAX
    } else {
        total as usize
    };
    string_with_capacity(estimated)
}

/// Replace every leftmost non-overlapping occurrence of `pattern` in
/// `original` by `replacement`.
pub fn replace_efficient(original: &str, pattern: &str, replacement: &str) -> (r: String)
    ensures
        r@ == replace_all(original@, pattern@, replacement@),
{
    let n: usize = original.unicode_len();
    let m: usize = pattern.unicode_len();
    let mut result = String::new();
    if m == 0 {
        result.append(replacement);
        let mut i: usize = 0;
        proof {
            assert(original@.take(0) =~= Seq::<char>::empty());
            assert(inter_tail(Seq::<char>::empty(), replacement@) =~= Seq::<char>::empty());
            assert(result@ =~= interleave(original@.take(0), replacement@));
        }
        while i < n
            invariant
                n == original@.len(),
                0 == pattern@.len(),
                i <= n,
                result@ == interleave(original@.take(i as int), replacement@),
            decreases n - i,
        {
            let c = original.substring_char(i, i + 1);
            result.append(c);
            result.append(replacement);
            proof {
                assert(c@ =~= seq![original@[i as int]]);
                lemma_inter_tail_push(
                    original@.take(i as int),
                    replacement@,
                    original@[i as int],
                );
                assert(original@.take(i + 1) =~= original@.take(i as int).push(
                    original@[i as int],
                ));
            }
            i += 1;
        }
        proof {
            assert(original@.take(n as int) =~= original@);
        }
        return result;
    }
    let mut i: usize = 0;
    proof {
        assert(original@.skip(0) =~= original@);
        assert(result@ + replace_all(original@, pattern@, replacement@) =~= replace_all(
            original@,
            pattern@,
            replacement@,
        ));
    }
    while i < n
        invariant
            n == original@.len(),
            m == pattern@.len(),
            m >= 1,
            i <= n,
            result@ + replace_all(original@.skip(i as int), pattern@, replacement@)
                == replace_all(original@, pattern@, replacement@),
        decreases n - i,
    {
        if m <= n - i && matches_at(original, pattern, i) {
            result.append(replacement);
            proof {
                assert(original@.skip(i as int).subrange(0, m as int) =~= original@.subrange(
                    i as int,
                    i + m,
                ));
                assert(original@.skip(i as int).skip(m as int) =~= original@.skip(i + m));
            }
            i += m;
        } else {
            let c = original.substring_char(i, i + 1);
            result.append(c);
            proof {
                assert(c@ =~= seq![original@[i as int]]);
                if m <= n - i {
                    assert(original@.skip(i as int).subrange(0, m as int) =~= original@.subrange(
                        i as int,
                        i + m,
                    ));
                } else {
                    assert(original@.skip(i as int).len() < m);
                }
                assert(original@.skip(i as int).skip(1) =~= original@.skip(i + 1));
                if m <= n - i {
                    assert(original@.skip(i as int)[0] == original@[i as int]);
                }
            }
            i += 1;
        }
    }
    proof {
        assert(original@.skip(n as int) =~= Seq::<char>::empty());
    }
    result
}

/// Decide equality of two strings by their characters.
pub fn str_eq(a: &String, b: &String) -> (r: bool)
    ensures
        r == (a@ == b@),
{
    a.eq(b)
}

/// The character for one decimal digit.
pub open spec fn dec_digit(d: nat) -> char {
    if d == 0 {
        '0'
    } else if d == 1 {
        '1'
    } else if d == 2 {
        '2'
    } else if d == 3 {
        '3'
    } else if d == 4 {
        '4'
    } else if d == 5 {
        '5'
    } else if d == 6 {
        '6'
    } else if d == 7 {
        '7'
    } else if d == 8 {
        '8'
    } else {
        '9'
    }
}

/// The decimal digits of `n`, most significant first.
pub open spec fn dec_str(n: nat) -> Seq<char>
    decreases n,
{
    if n < 10 {
        seq![dec_digit(n)]
    } else {
        dec_str(n / 10) + seq![dec_digit(n % 10)]
    }
}

/// The string for one decimal digit.
fn digit_str(d: u64) -> (r: &'static str)
    requires
        d < 10,
    ensures
        r@ == seq![dec_digit(d as nat)],
{
    proof {
        reveal_strlit("0");
        reveal_strlit("1");
        reveal_strlit("2");
        reveal_strlit("3");
        reveal_strlit("4");
        reveal_strlit("5");
        reveal_strlit("6");
        reveal_strlit("7");
        reveal_strlit("8");
        reveal_strlit("9");
    }
    let r = if d == 0 {
        "0"
    } else if d == 1 {
        "1"
    } else if d == 2 {
        "2"
    } else if d == 3 {
        "3"
    } else if d == 4 {
        "4"
    } else if d == 5 {
        "5"
    } else if d == 6 {
        "6"
    } else if d == 7 {
        "7"
    } else if d == 8 {
        "8"
    } else {
        "9"
    };
    proof {
        assert(r@ =~= seq![dec_digit(d as nat)]);
    }
    r
}

/// Render `n` in decimal.
pub fn u64_to_string(n: u64) -> (r: String)
    ensures
        r@ == dec_str(n as nat),
    decreases n,
{
    if n < 10 {
        let mut s = String::new();
        s.append(digit_str(n));
        proof {
            assert(s@ =~= dec_str(n as nat));
        }
        s
    } else {
        let mut s = u64_to_string(n / 10);
        s.append(digit_str(n % 10));
        proof {
            assert(s@ =~= dec_str(n as nat));
        }
        s
    }
}

} // verus!
