//! 256-bit identifiers used for blocks, transactions and recipients,
//! with verified hexadecimal rendering and parsing.

use vstd::prelude::*;

verus! {

/// A 256-bit hash value, stored as four 64-bit words in big-endian order:
/// `w0` holds the most significant word. Values of this type identify
/// blocks, transactions and output recipients; they are computed by the
/// node's hashing collaborator and treated here as opaque identifiers.
#[derive(Clone, Copy, PartialEq, Eq, Structural, Hash, Debug)]
pub struct H256 {
    pub w0: u64,
    pub w1: u64,
    pub w2: u64,
    pub w3: u64,
}

/// The lowercase hexadecimal digit for a value below 16.
pub open spec fn hex_digit_char(n: u64) -> char {
    if n == 0 {
        '0'
    } else if n == 1 {
        '1'
    } else if n == 2 {
        '2'
    } else if n == 3 {
        '3'
    } else if n == 4 {
        '4'
    } else if n == 5 {
        '5'
    } else if n == 6 {
        '6'
    } else if n == 7 {
        '7'
    } else if n == 8 {
        '8'
    } else if n == 9 {
        '9'
    } else if n == 10 {
        'a'
    } else if n == 11 {
        'b'
    } else if n == 12 {
        'c'
    } else if n == 13 {
        'd'
    } else if n == 14 {
        'e'
    } else {
        'f'
    }
}

/// The 16 hexadecimal digits of a 64-bit word, most significant first.
pub open spec fn word_hex(w: u64) -> Seq<char> {
    Seq::new(16, |i: int| hex_digit_char((w >> (((15 - i) * 4) as u64)) & 0xf))
}

/// The 64 hexadecimal digits of a hash, most significant first.
pub open spec fn hash_hex(h: H256) -> Seq<char> {
    word_hex(h.w0) + word_hex(h.w1) + word_hex(h.w2) + word_hex(h.w3)
}

/// The numeric value of a hexadecimal digit, or 16 for any other character.
pub open spec fn hex_char_val(c: char) -> u64 {
    if c == '0' {
        0
    } else if c == '1' {
        1
    } else if c == '2' {
        2
    } else if c == '3' {
        3
    } else if c == '4' {
        4
    } else if c == '5' {
        5
    } else if c == '6' {
        6
    } else if c == '7' {
        7
    } else if c == '8' {
        8
    } else if c == '9' {
        9
    } else if c == 'a' || c == 'A' {
        10
    } else if c == 'b' || c == 'B' {
        11
    } else if c == 'c' || c == 'C' {
        12
    } else if c == 'd' || c == 'D' {
        13
    } else if c == 'e' || c == 'E' {
        14
    } else if c == 'f' || c == 'F' {
        15
    } else {
        16
    }
}

pub open spec fn is_hex_char(c: char) -> bool {
    hex_char_val(c) < 16
}

/// The value of a sequence of hexadecimal digits, most significant first.
pub open spec fn hex_word_val(s: Seq<char>) -> int
    decreases s.len(),
{
    if s.len() == 0 {
        0
    } else {
        hex_word_val(s.drop_last()) * 16 + hex_char_val(s.last())
    }
}

/// 16 raised to the given power.
pub open spec fn pow16(n: nat) -> int
    decreases n,
{
    if n == 0 {
        1
    } else {
        16 * pow16((n - 1) as nat)
    }
}

proof fn lemma_pow16_pos(n: nat)
    ensures
        pow16(n) >= 1,
    decreases n,
{
    if n > 0 {
        lemma_pow16_pos((n - 1) as nat);
    }
}

proof fn lemma_pow16_le(a: nat, b: nat)
    requires
        a <= b,
    ensures
        pow16(a) <= pow16(b),
        pow16(a) >= 1,
    decreases b,
{
    if a == b {
        lemma_pow16_pos(a);
    } else {
        lemma_pow16_le(a, (b - 1) as nat);
    }
}

/// A sequence of at most 16 hexadecimal digits denotes a value below 16^len.
proof fn lemma_hex_word_val_bound(s: Seq<char>)
    requires
        forall|i: int| 0 <= i < s.len() ==> is_hex_char(#[trigger] s[i]),
    ensures
        0 <= hex_word_val(s) < pow16(s.len()),
    decreases s.len(),
{
    if s.len() > 0 {
        lemma_hex_word_val_bound(s.drop_last());
        assert(is_hex_char(s.last()));
    }
}

/// The string is exactly 64 hexadecimal digits.
pub open spec fn is_hex64(s: Seq<char>) -> bool {
    s.len() == 64 && forall|i: int| 0 <= i < 64 ==> is_hex_char(#[trigger] s[i])
}

/// The hash denoted by 64 hexadecimal digits, most significant first.
pub open spec fn h256_of_hex(s: Seq<char>) -> H256 {
    H256 {
        w0: hex_word_val(s.subrange(0, 16)) as u64,
        w1: hex_word_val(s.subrange(16, 32)) as u64,
        w2: hex_word_val(s.subrange(32, 48)) as u64,
        w3: hex_word_val(s.subrange(48, 64)) as u64,
    }
}

/// The single-character string for a hexadecimal digit.
fn hex_char_str(n: u64) -> (r: &'static str)
    requires
        n < 16,
    ensures
        r@ =~= seq![hex_digit_char(n)],
{
    proof {
        reveal_strlit("0");
        reveal_strlit("1");
        reveal_strlit("2");
        reveal_strlit("3");
        reveal_strlit("4");
        reveal_strlit("5");
        reveal_strlit("6");
        reveal_strlit("7");
        reveal_strlit("8");
        reveal_strlit("9");
        reveal_strlit("a");
        reveal_strlit("b");
        reveal_strlit("c");
        reveal_strlit("d");
        reveal_strlit("e");
        reveal_strlit("f");
    }
    if n == 0 {
        "0"
    } else if n == 1 {
        "1"
    } else if n == 2 {
        "2"
    } else if n == 3 {
        "3"
    } else if n == 4 {
        "4"
    } else if n == 5 {
        "5"
    } else if n == 6 {
        "6"
    } else if n == 7 {
        "7"
    } else if n == 8 {
        "8"
    } else if n == 9 {
        "9"
    } else if n == 10 {
        "a"
    } else if n == 11 {
        "b"
    } else if n == 12 {
        "c"
    } else if n == 13 {
        "d"
    } else if n == 14 {
        "e"
    } else {
        "f"
    }
}

/// Appends the 16 hexadecimal digits of a word to a string.
fn append_word_hex(s: &mut String, w: u64)
    ensures
        final(s)@ == old(s)@ + word_hex(w),
{
    let mut j: u64 = 0;
    proof {
        assert(old(s)@ + word_hex(w).take(0) =~= old(s)@);
    }
    while j < 16
        invariant
            j <= 16,
            s@ == old(s)@ + word_hex(w).take(j as int),
        decreases 16 - j,
    {
        let sh: u64 = (15 - j) * 4;
        let nib: u64 = (w >> sh) & 0xf;
        proof {
            assert((w >> sh) & 0xf < 16) by (bit_vector);
            assert(word_hex(w)[j as int] == hex_digit_char((w >> (((15 - j as int) * 4) as u64)) & 0xf));
        }
        let d = hex_char_str(nib);
        s.append(d);
        proof {
            assert(word_hex(w).take(j as int + 1) =~= word_hex(w).take(j as int).push(nib_char(w, j as int)));
            assert(s@ =~= old(s)@ + word_hex(w).take(j as int + 1));
        }
        j = j + 1;
    }
    proof {
        assert(word_hex(w).take(16) =~= word_hex(w));
    }
}

/// The digit of `w` at position `i` of its hexadecimal rendering.
pub open spec fn nib_char(w: u64, i: int) -> char {
    hex_digit_char((w >> (((15 - i) * 4) as u64)) & 0xf)
}

/// The numeric value of a hexadecimal digit character, or 16 otherwise.
fn hex_val_of(c: char) -> (v: u64)
    ensures
        v == hex_char_val(c),
{
    match c {
        '0' => 0,
        '1' => 1,
        '2' => 2,
        '3' => 3,
        '4' => 4,
        '5' => 5,
        '6' => 6,
        '7' => 7,
        '8' => 8,
        '9' => 9,
        'a' | 'A' => 10,
        'b' | 'B' => 11,
        'c' | 'C' => 12,
        'd' | 'D' => 13,
        'e' | 'E' => 14,
        'f' | 'F' => 15,
        _ => 16,
    }
}

/// Parses 16 hexadecimal digits of `s` starting at `start` into a word.
fn parse_hex_word(s: &str, start: usize) -> (r: Option<u64>)
    requires
        start + 16 <= s@.len(),
        s@.len() <= usize::MAX,
    ensures
        r is Some <==> (forall|i: int| start <= i < start + 16 ==> is_hex_char(#[trigger] s@[i])),
        r matches Some(w) ==> w == hex_word_val(s@.subrange(start as int, start as int + 16)),
{
    let mut acc: u64 = 0;
    let mut j: usize = 0;
    proof {
        assert(s@.subrange(start as int, start as int) =~= Seq::<char>::empty());
    }
    while j < 16
        invariant
            j <= 16,
            start + 16 <= s@.len(),
            s@.len() <= usize::MAX,
            forall|i: int| start <= i < start + j ==> is_hex_char(#[trigger] s@[i]),
            acc == hex_word_val(s@.subrange(start as int, start as int + j as int)),
        decreases 16 - j,
    {
        let c = s.get_char(start + j);
        let v = hex_val_of(c);
        if v >= 16 {
            assert(!is_hex_char(s@[start + j]));
            return None;
        }
        proof {
            let pre = s@.subrange(start as int, start as int + j as int);
            let ext = s@.subrange(start as int, start as int + j as int + 1);
            lemma_hex_word_val_bound(pre);
            lemma_pow16_le(j as nat, 15);
            assert(pow16(15) == 0x1000000000000000) by {
                reveal_with_fuel(pow16, 16);
            }
            assert(acc * 16 + v < pow16(j as nat) * 16 <= pow16(15) * 16) by (nonlinear_arith)
                requires
                    acc < pow16(j as nat),
                    v < 16,
                    pow16(j as nat) <= pow16(15),
                    acc >= 0,
            ;
            assert(ext.drop_last() =~= pre);
            assert(ext.last() == s@[start + j]);
        }
        acc = acc * 16 + v;
        j = j + 1;
    }
    Some(acc)
}

proof fn lemma_word_hex_chars(w: u64)
    ensures
        forall|i: int|
            0 <= i < 16 ==> is_hex_char(#[trigger] word_hex(w)[i]) && hex_char_val(word_hex(w)[i])
                == ((w >> (((15 - i) * 4) as u64)) & 0xf),
{
    assert forall|i: int|
        0 <= i < 16 implies is_hex_char(#[trigger] word_hex(w)[i]) && hex_char_val(word_hex(w)[i])
        == ((w >> (((15 - i) * 4) as u64)) & 0xf) by {
        let s: u64 = ((15 - i) * 4) as u64;
        let n: u64 = (w >> s) & 0xf;
        assert((w >> s) & 0xf < 16) by (bit_vector);
        assert(hex_char_val(hex_digit_char(n)) == n);
    }
}

proof fn lemma_word_hex_prefix(w: u64, k: int)
    requires
        1 <= k <= 16,
    ensures
        hex_word_val(word_hex(w).take(k)) == (w >> (((16 - k) * 4) as u64)),
    decreases k,
{
    lemma_word_hex_chars(w);
    let pre = word_hex(w).take(k);
    if k == 1 {
        assert(pre.drop_last() =~= Seq::<char>::empty());
        assert(pre.last() == word_hex(w)[0]);
        assert(hex_word_val(Seq::<char>::empty()) == 0);
        assert(hex_word_val(pre) == hex_char_val(word_hex(w)[0]));
        assert((w >> 60) & 0xf == (w >> 60)) by (bit_vector);
    } else {
        lemma_word_hex_prefix(w, k - 1);
        assert(pre.drop_last() =~= word_hex(w).take(k - 1));
        assert(pre.last() == word_hex(w)[k - 1]);
        let s: u64 = ((16 - k) * 4) as u64;
        let s4: u64 = ((17 - k) * 4) as u64;
        assert(((w >> s4) * 16 + ((w >> s) & 0xf)) == (w >> s)) by (bit_vector)
            requires
                s4 == s + 4,
                s <= 60,
        ;
    }
}

proof fn lemma_word_hex_val(w: u64)
    ensures
        hex_word_val(word_hex(w)) == w,
{
    lemma_word_hex_prefix(w, 16);
    assert(word_hex(w).take(16) =~= word_hex(w));
    assert(w >> 0u64 == w) by (bit_vector);
}

/// Rendering a hash in hexadecimal and parsing the rendering gives the
/// hash back: `from_hex` inverts `to_hex`.
pub proof fn lemma_hex_round_trip(h: H256)
    ensures
        is_hex64(hash_hex(h)),
        h256_of_hex(hash_hex(h)) == h,
{
    let s = hash_hex(h);
    lemma_word_hex_chars(h.w0);
    lemma_word_hex_chars(h.w1);
    lemma_word_hex_chars(h.w2);
    lemma_word_hex_chars(h.w3);
    assert forall|i: int| 0 <= i < 64 implies is_hex_char(#[trigger] s[i]) by {
        if i < 16 {
            assert(s[i] == word_hex(h.w0)[i]);
        } else if i < 32 {
            assert(s[i] == word_hex(h.w1)[i - 16]);
        } else if i < 48 {
            assert(s[i] == word_hex(h.w2)[i - 32]);
        } else {
            assert(s[i] == word_hex(h.w3)[i - 48]);
        }
    }
    assert(s.subrange(0, 16) =~= word_hex(h.w0));
    assert(s.subrange(16, 32) =~= word_hex(h.w1));
    assert(s.subrange(32, 48) =~= word_hex(h.w2));
    assert(s.subrange(48, 64) =~= word_hex(h.w3));
    lemma_word_hex_val(h.w0);
    lemma_word_hex_val(h.w1);
    lemma_word_hex_val(h.w2);
    lemma_word_hex_val(h.w3);
}

impl H256 {
    /// The 64-character lowercase hexadecimal rendering of the hash.
    pub fn to_hex(&self) -> (r: String)
        ensures
            r@ == hash_hex(*self),
    {
        let mut s = String::new();
        append_word_hex(&mut s, self.w0);
        append_word_hex(&mut s, self.w1);
        append_word_hex(&mut s, self.w2);
        append_word_hex(&mut s, self.w3);
        proof {
            assert(s@ =~= hash_hex(*self));
        }
        s
    }

    /// Parses a 64-character hexadecimal string into a hash; any other
    /// input is rejected.
    pub fn from_hex(s: &str) -> (r: Option<H256>)
        ensures
            r is Some <==> is_hex64(s@),
            r matches Some(h) ==> h == h256_of_hex(s@),
    {
        let n = s.unicode_len();
        if n != 64 {
            return None;
        }
        let w0 = match parse_hex_word(s, 0) {
            Some(w) => w,
            None => {
                return None;
            },
        };
        let w1 = match parse_hex_word(s, 16) {
            Some(w) => w,
            None => {
                return None;
            },
        };
        let w2 = match parse_hex_word(s, 32) {
            Some(w) => w,
            None => {
                return None;
            },
        };
        let w3 = match parse_hex_word(s, 48) {
            Some(w) => w,
            None => {
                return None;
            },
        };
        Some(H256 { w0, w1, w2, w3 })
    }
}

} // verus!
