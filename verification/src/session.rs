//! Session ids: 26 Crockford base-32 characters, 48 bits of milliseconds
//! followed by 80 bits of randomness, so that ids sort by creation time.
//! The clock and the randomness are the caller's.

use vstd::prelude::*;

verus! {

/// The Crockford base-32 digits, in order.
pub open spec fn alphabet() -> Seq<char> {
    "0123456789ABCDEFGHJKMNPQRSTVWXYZ"@
}

/// The 128-bit value an id spells: the low 48 bits of the time, 16 bits of
/// `high`, and `low`.
pub open spec fn id_value(millis: u64, high: u64, low: u64) -> u128 {
    (((millis & 0xffff_ffff_ffffu64) as u128) << 80u128) | (((high & 0xffffu64) as u128) << 64u128) | (low as u128)
}

/// The `i`-th base-32 digit of an id, most significant first.
pub open spec fn id_digit(v: u128, i: int) -> u128 {
    (v >> ((5 * (25 - i)) as u128)) & 0x1fu128
}

pub open spec fn spec_id_text(millis: u64, high: u64, low: u64) -> Seq<char> {
    Seq::new(26, |i: int| alphabet()[id_digit(id_value(millis, high, low), i) as int])
}

/// The id for a creation time in milliseconds and two random words.
pub fn id_text(millis: u64, high: u64, low: u64) -> (r: String)
    ensures
        r@ == spec_id_text(millis, high, low),
{
    let alpha = crate::text::chars_of("0123456789ABCDEFGHJKMNPQRSTVWXYZ");
    proof {
        reveal_strlit("0123456789ABCDEFGHJKMNPQRSTVWXYZ");
    }
    assert(alpha@ == alphabet());
    let value: u128 = (((millis & 0xffff_ffff_ffffu64) as u128) << 80u128) | (((high & 0xffffu64) as u128) << 64u128)
        | (low as u128);
    let mut out: Vec<char> = Vec::new();
    let mut i: usize = 0;
    while i < 26
        invariant
            i <= 26,
            alpha@ == alphabet(),
            alpha@.len() == 32,
            value == id_value(millis, high, low),
            out@ == spec_id_text(millis, high, low).take(i as int),
        decreases 26 - i,
    {
        let shift: u128 = (5 * (25 - i)) as u128;
        let d = (value >> shift) & 0x1fu128;
        assert(d < 32) by (bit_vector)
            requires
                d == (value >> shift) & 0x1fu128,
        ;
        out.push(alpha[d as usize]);
        assert(out@ =~= spec_id_text(millis, high, low).take(i as int + 1));
        i += 1;
    }
    assert(spec_id_text(millis, high, low).take(26) =~= spec_id_text(millis, high, low));
    crate::text::string_from_chars(&out)
}

/// The `i`-th base-32 digit of a 48-bit time, most significant first, for
/// `i` in `0..10`; `-1` names the (empty) digits above the first.
pub open spec fn time_prefix(m: u64, i: int) -> u64 {
    m >> ((5 * (9 - i)) as u64)
}

pub open spec fn time_digit(m: u64, i: int) -> u64 {
    time_prefix(m, i) & 0x1fu64
}

/// The first ten digits of an id spell the time.
proof fn lemma_time_digits(m: u64, h: u64, l: u64, i: int)
    requires
        m <= 0xffff_ffff_ffffu64,
        0 <= i < 10,
    ensures
        id_digit(id_value(m, h, l), i) == time_digit(m, i) as u128,
{
    let s: u64 = (5 * (9 - i)) as u64;
    let v: u128 = id_value(m, h, l);
    assert((v >> ((s as u128) + 80u128)) & 0x1fu128 == ((m >> s) & 0x1fu64) as u128) by (bit_vector)
        requires
            v == (((m & 0xffff_ffff_ffffu64) as u128) << 80u128) | (((h & 0xffffu64) as u128) << 64u128) | (l as u128),
            m <= 0xffff_ffff_ffffu64,
            s <= 45u64,
    ;
    assert((5 * (25 - i)) as u128 == (s as u128) + 80u128);
}

/// Where two times first differ, the earlier one has the smaller digit.
proof fn lemma_first_digit_difference(a: u64, b: u64, i: int) -> (k: int)
    requires
        a < b,
        b <= 0xffff_ffff_ffffu64,
        0 <= i <= 9,
        time_prefix(a, i - 1) == time_prefix(b, i - 1),
    ensures
        i <= k <= 9,
        forall|j: int| i <= j < k ==> time_digit(a, j) == time_digit(b, j),
        time_digit(a, k) < time_digit(b, k),
    decreases 9 - i,
{
    let s: u64 = (5 * (9 - i)) as u64;
    let x = a >> s;
    let y = b >> s;
    assert(time_prefix(a, i - 1) == x >> 5u64 && time_prefix(b, i - 1) == y >> 5u64) by {
        assert((a >> (s + 5u64)) == (a >> s) >> 5u64 && (b >> (s + 5u64)) == (b >> s) >> 5u64) by (bit_vector)
            requires
                s <= 45u64,
        ;
        assert((5 * (9 - (i - 1))) as u64 == s + 5u64);
    }
    if x == y {
        assert(i < 9) by {
            if i == 9 {
                assert(s == 0u64);
                assert(a >> 0u64 == a && b >> 0u64 == b) by (bit_vector);
            }
        }
        let k = lemma_first_digit_difference(a, b, i + 1);
        k
    } else {
        assert((x & 0x1fu64) < (y & 0x1fu64)) by (bit_vector)
            requires
                a < b,
                x == a >> s,
                y == b >> s,
                x != y,
                x >> 5u64 == y >> 5u64,
        ;
        i
    }
}

/// The alphabet is in character order.
proof fn lemma_alphabet_step(d: int)
    requires
        0 <= d < 31,
    ensures
        (alphabet()[d] as int) < (alphabet()[d + 1] as int),
{
    reveal_strlit("0123456789ABCDEFGHJKMNPQRSTVWXYZ");
    assert(d == 0 || d == 1 || d == 2 || d == 3 || d == 4 || d == 5 || d == 6 || d == 7 || d == 8 || d == 9
        || d == 10 || d == 11 || d == 12 || d == 13 || d == 14 || d == 15 || d == 16 || d == 17 || d == 18
        || d == 19 || d == 20 || d == 21 || d == 22 || d == 23 || d == 24 || d == 25 || d == 26 || d == 27
        || d == 28 || d == 29 || d == 30);
}

proof fn lemma_alphabet_increasing(d: int, e: int)
    requires
        0 <= d < e < 32,
    ensures
        (alphabet()[d] as int) < (alphabet()[e] as int),
    decreases e - d,
{
    lemma_alphabet_step(e - 1);
    if e > d + 1 {
        lemma_alphabet_increasing(d, e - 1);
    }
}

proof fn lemma_lex_first_difference(a: Seq<char>, b: Seq<char>, k: int)
    requires
        0 <= k < a.len(),
        k < b.len(),
        forall|j: int| 0 <= j < k ==> a[j] == b[j],
        (a[k] as int) < (b[k] as int),
    ensures
        crate::text::lex_lt(a, b),
    decreases k,
{
    if k > 0 {
        assert(a[0] == b[0]);
        lemma_lex_first_difference(a.drop_first(), b.drop_first(), k - 1);
    }
}

/// Ids sort by creation time: an id made at an earlier millisecond is
/// smaller in string order, whatever the random words, for every time the
/// id's 48 bits hold.
pub proof fn lemma_ids_sort_by_time(m1: u64, h1: u64, l1: u64, m2: u64, h2: u64, l2: u64)
    requires
        m1 < m2,
        m2 <= 0xffff_ffff_ffffu64,
    ensures
        crate::text::lex_lt(spec_id_text(m1, h1, l1), spec_id_text(m2, h2, l2)),
{
    let a = spec_id_text(m1, h1, l1);
    let b = spec_id_text(m2, h2, l2);
    assert(time_prefix(m1, -1) == 0u64 && time_prefix(m2, -1) == 0u64) by {
        assert((m1 >> 50u64) == 0u64 && (m2 >> 50u64) == 0u64) by (bit_vector)
            requires
                m1 < m2,
                m2 <= 0xffff_ffff_ffffu64,
        ;
    }
    let k = lemma_first_digit_difference(m1, m2, 0);
    assert forall|j: int| 0 <= j < k implies a[j] == b[j] by {
        lemma_time_digits(m1, h1, l1, j);
        lemma_time_digits(m2, h2, l2, j);
    }
    lemma_time_digits(m1, h1, l1, k);
    lemma_time_digits(m2, h2, l2, k);
    let td: u64 = time_digit(m2, k);
    let tp: u64 = time_prefix(m2, k);
    assert(td < 32) by (bit_vector)
        requires
            td == tp & 0x1fu64,
    ;
    lemma_alphabet_increasing(time_digit(m1, k) as int, time_digit(m2, k) as int);
    lemma_lex_first_difference(a, b, k);
}

} // verus!
