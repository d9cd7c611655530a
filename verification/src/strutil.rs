//! Verified helpers over strings: equality, decimal parsing, and
//! query-parameter lookup.

use vstd::prelude::*;

verus! {

/// Character-wise string equality.
pub fn str_eq(a: &str, b: &str) -> (r: bool)
    ensures
        r == (a@ == b@),
{
    let la = a.unicode_len();
    let lb = b.unicode_len();
    if la != lb {
        proof {
            if a@ == b@ {
                assert(a@.len() == b@.len());
            }
        }
        return false;
    }
    let mut i: usize = 0;
    while i < la
        invariant
            la == a@.len(),
            la == b@.len(),
            i <= la,
            forall|j: int| 0 <= j < i ==> a@[j] == b@[j],
        decreases la - i,
    {
        if a.get_char(i) != b.get_char(i) {
            proof {
                if a@ == b@ {
                    assert(a@[i as int] == b@[i as int]);
                }
            }
            return false;
        }
        i = i + 1;
    }
    proof {
        assert(a@ =~= b@);
    }
    true
}

/// The numeric value of a decimal digit, or 10 for any other character.
pub open spec fn dec_char_val(c: char) -> u64 {
    if c == '0' {
        0
    } else if c == '1' {
        1
    } else if c == '2' {
        2
    } else if c == '3' {
        3
    } else if c == '4' {
        4
    } else if c == '5' {
        5
    } else if c == '6' {
        6
    } else if c == '7' {
        7
    } else if c == '8' {
        8
    } else if c == '9' {
        9
    } else {
        10
    }
}

pub open spec fn is_dec_char(c: char) -> bool {
    dec_char_val(c) < 10
}

/// The string is a nonempty run of decimal digits.
pub open spec fn all_dec(s: Seq<char>) -> bool {
    s.len() > 0 && forall|i: int| 0 <= i < s.len() ==> is_dec_char(#[trigger] s[i])
}

/// The number denoted by a run of decimal digits, most significant first.
pub open spec fn dec_val(s: Seq<char>) -> int
    decreases s.len(),
{
    if s.len() == 0 {
        0
    } else {
        dec_val(s.drop_last()) * 10 + dec_char_val(s.last())
    }
}

proof fn lemma_dec_val_nonneg(s: Seq<char>)
    ensures
        dec_val(s) >= 0,
    decreases s.len(),
{
    if s.len() > 0 {
        lemma_dec_val_nonneg(s.drop_last());
    }
}

/// A prefix never denotes more than the whole string.
proof fn lemma_dec_val_take_le(s: Seq<char>, k: int)
    requires
        0 <= k <= s.len(),
    ensures
        dec_val(s.take(k)) <= dec_val(s),
    decreases s.len(),
{
    if k == s.len() {
        assert(s.take(k) =~= s);
    } else {
        assert(s.drop_last().take(k) =~= s.take(k));
        lemma_dec_val_take_le(s.drop_last(), k);
        lemma_dec_val_nonneg(s.drop_last());
    }
}

fn dec_digit_of(c: char) -> (v: u64)
    ensures
        v == dec_char_val(c),
{
    match c {
        '0' => 0,
        '1' => 1,
        '2' => 2,
        '3' => 3,
        '4' => 4,
        '5' => 5,
        '6' => 6,
        '7' => 7,
        '8' => 8,
        '9' => 9,
        _ => 10,
    }
}

/// Parses a nonempty run of decimal digits into a number; any other
/// string, and any value above `u64::MAX`, is rejected.
pub fn parse_u64(s: &str) -> (r: Option<u64>)
    ensures
        r is Some <==> (all_dec(s@) && dec_val(s@) <= u64::MAX),
        r matches Some(n) ==> n == dec_val(s@),
{
    let n = s.unicode_len();
    if n == 0 {
        return None;
    }
    let mut acc: u64 = 0;
    let mut i: usize = 0;
    proof {
        assert(s@.take(0) =~= Seq::<char>::empty());
    }
    while i < n
        invariant
            n == s@.len(),
            0 < n,
            i <= n,
            forall|j: int| 0 <= j < i ==> is_dec_char(#[trigger] s@[j]),
            acc == dec_val(s@.take(i as int)),
        decreases n - i,
    {
        let c = s.get_char(i);
        let v = dec_digit_of(c);
        if v >= 10 {
            proof {
                assert(!is_dec_char(s@[i as int]));
            }
            return None;
        }
        proof {
            let ext = s@.take(i as int + 1);
            assert(ext.drop_last() =~= s@.take(i as int));
            assert(ext.last() == s@[i as int]);
        }
        let m10 = match acc.checked_mul(10) {
            Some(x) => x,
            None => {
                proof {
                    lemma_dec_val_take_le(s@, i as int + 1);
                }
                return None;
            },
        };
        let acc2 = match m10.checked_add(v) {
            Some(x) => x,
            None => {
                proof {
                    lemma_dec_val_take_le(s@, i as int + 1);
                }
                return None;
            },
        };
        acc = acc2;
        i = i + 1;
    }
    proof {
        assert(s@.take(n as int) =~= s@);
    }
    Some(acc)
}

/// The value under `k` among query pairs; as when the pairs are collected
/// into a map, a later pair shadows an earlier one with the same key.
pub open spec fn lookup_param(ps: Seq<(Seq<char>, Seq<char>)>, k: Seq<char>) -> Option<Seq<char>>
    decreases ps.len(),
{
    if ps.len() == 0 {
        None
    } else if ps.last().0 == k {
        Some(ps.last().1)
    } else {
        lookup_param(ps.drop_last(), k)
    }
}

/// The query pairs as sequences of characters.
pub open spec fn params_view(ps: Seq<(String, String)>) -> Seq<(Seq<char>, Seq<char>)> {
    ps.map_values(|p: (String, String)| (p.0@, p.1@))
}

/// Looks a key up among query pairs, the last occurrence winning.
pub fn get_param(ps: &Vec<(String, String)>, key: &str) -> (r: Option<String>)
    ensures
        match r {
            Option::Some(v) => lookup_param(params_view(ps@), key@) == Some(v@),
            Option::None => lookup_param(params_view(ps@), key@) is None,
        },
{
    let ghost pv = params_view(ps@);
    let mut i: usize = ps.len();
    proof {
        assert(pv.take(pv.len() as int) =~= pv);
    }
    while i > 0
        invariant
            i <= ps@.len(),
            pv == params_view(ps@),
            lookup_param(pv, key@) == lookup_param(pv.take(i as int), key@),
        decreases i,
    {
        i = i - 1;
        proof {
            let pre = pv.take(i as int + 1);
            assert(pre.last() == pv[i as int]);
            assert(pre.drop_last() =~= pv.take(i as int));
            assert(pv[i as int] == (ps@[i as int].0@, ps@[i as int].1@));
        }
        if str_eq(ps[i].0.as_str(), key) {
            return Some(ps[i].1.clone());
        }
    }
    proof {
        assert(pv.take(0) =~= Seq::<(Seq<char>, Seq<char>)>::empty());
    }
    None
}

} // verus!
