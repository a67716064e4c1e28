//! The hashes under which metrics and counters are kept: those of the metrics of
//! this library, and those of numbers of up to five digits, do not coincide.
use vstd::prelude::*;
use vstd::utf8::{encode_utf8, is_ascii_chars, is_ascii_chars_encode_utf8};

use crate::counters::{fnv_hash, hash_of_first, hash_step, metric_id, series_key, HASH_START};
use crate::number::{all_digits, decimal, is_digit};

verus! {

/// A hash after one more byte.
spec fn hash_one(hash: u64, a: u8) -> u64 {
    hash_step(hash, a)
}

/// A hash after two more bytes.
spec fn hash_two(hash: u64, a: u8, b: u8) -> u64 {
    hash_step(hash_one(hash, a), b)
}

/// A hash after three more bytes.
spec fn hash_three(hash: u64, a: u8, b: u8, c: u8) -> u64 {
    hash_step(hash_two(hash, a, b), c)
}

/// A hash after four more bytes.
spec fn hash_four(hash: u64, a: u8, b: u8, c: u8, d: u8) -> u64 {
    hash_step(hash_three(hash, a, b, c), d)
}

/// The bytes of the digits `0` to `9`.
spec fn digit_byte(byte: u8) -> bool {
    48 <= byte <= 57
}

// ---------------------------------------------------------------------------
// Digits
// ---------------------------------------------------------------------------

/// Hashes that agree after one more digit were close together before: they
/// differed in the lowest four bits at most, and not at all if and only if the
/// digits are the same.
proof fn lemma_digit_back(g: u64, h: u64, a: u8, b: u8)
    by (bit_vector)
    requires
        digit_byte(a),
        digit_byte(b),
        hash_step(g, a) == hash_step(h, b),
    ensures
        (g ^ h) < 16,
        g == h <==> a == b,
{
}

/// Hashes that agree after the same byte agreed before.
proof fn lemma_byte_back(g: u64, h: u64, byte: u8)
    by (bit_vector)
    requires
        hash_step(g, byte) == hash_step(h, byte),
    ensures
        g == h,
{
}

/// To be close together does not depend on the order.
proof fn lemma_close_both_ways(g: u64, h: u64)
    by (bit_vector)
    ensures
        g ^ h == h ^ g,
{
}

/// The hash of one digit is far from the one of nothing.
proof fn lemma_none_one(b1: u8)
    by (bit_vector)
    requires
        digit_byte(b1),
    ensures
        (HASH_START ^ hash_one(HASH_START, b1)) >= 16,
{
}

/// The hash of two digits is far from the one of nothing.
proof fn lemma_none_two(b1: u8, b2: u8)
    by (bit_vector)
    requires
        digit_byte(b1),
        digit_byte(b2),
    ensures
        (HASH_START ^ hash_two(HASH_START, b1, b2)) >= 16,
{
}

/// The hash of three digits is far from the one of nothing.
proof fn lemma_none_three(b1: u8, b2: u8, b3: u8)
    by (bit_vector)
    requires
        digit_byte(b1),
        digit_byte(b2),
        digit_byte(b3),
    ensures
        (HASH_START ^ hash_three(HASH_START, b1, b2, b3)) >= 16,
{
}

/// The hash of four digits is far from the one of nothing.
#[verifier::rlimit(100)]
#[verifier::spinoff_prover]
proof fn lemma_none_four(b1: u8, b2: u8, b3: u8, b4: u8)
    by (bit_vector)
    requires
        digit_byte(b1),
        digit_byte(b2),
        digit_byte(b3),
        digit_byte(b4),
    ensures
        (HASH_START ^ hash_four(HASH_START, b1, b2, b3, b4)) >= 16,
{
}

/// Two digits whose hashes are close together are the same.
proof fn lemma_one_one(a1: u8, b1: u8)
    by (bit_vector)
    requires
        digit_byte(a1),
        digit_byte(b1),
        (hash_one(HASH_START, a1) ^ hash_one(HASH_START, b1)) < 16,
    ensures
        a1 == b1,
{
}

/// The hashes of one digit and of two digits are far apart.
proof fn lemma_one_two(a1: u8, b1: u8, b2: u8)
    by (bit_vector)
    requires
        digit_byte(a1),
        digit_byte(b1),
        digit_byte(b2),
    ensures
        (hash_one(HASH_START, a1) ^ hash_two(HASH_START, b1, b2)) >= 16,
{
}

/// The hashes of one digit and of three digits are far apart.
proof fn lemma_one_three(a1: u8, b1: u8, b2: u8, b3: u8)
    by (bit_vector)
    requires
        digit_byte(a1),
        digit_byte(b1),
        digit_byte(b2),
        digit_byte(b3),
    ensures
        (hash_one(HASH_START, a1) ^ hash_three(HASH_START, b1, b2, b3)) >= 16,
{
}

/// The hashes of one digit and of four digits are far apart.
#[verifier::rlimit(100)]
#[verifier::spinoff_prover]
proof fn lemma_one_four(a1: u8, b1: u8, b2: u8, b3: u8, b4: u8)
    by (bit_vector)
    requires
        digit_byte(a1),
        digit_byte(b1),
        digit_byte(b2),
        digit_byte(b3),
        digit_byte(b4),
    ensures
        (hash_one(HASH_START, a1) ^ hash_four(HASH_START, b1, b2, b3, b4)) >= 16,
{
}

/// Digits, two of them, whose hashes are close together are the same.
proof fn lemma_two_two(a1: u8, a2: u8, b1: u8, b2: u8)
    by (bit_vector)
    requires
        digit_byte(a1),
        digit_byte(a2),
        digit_byte(b1),
        digit_byte(b2),
        (hash_two(HASH_START, a1, a2) ^ hash_two(HASH_START, b1, b2)) < 16,
    ensures
        a1 == b1,
        a2 == b2,
{
}

/// The hashes of two and of three digits are far apart.
proof fn lemma_two_three(a1: u8, a2: u8, b1: u8, b2: u8, b3: u8)
    by (bit_vector)
    requires
        digit_byte(a1),
        digit_byte(a2),
        digit_byte(b1),
        digit_byte(b2),
        digit_byte(b3),
    ensures
        (hash_two(HASH_START, a1, a2) ^ hash_three(HASH_START, b1, b2, b3)) >= 16,
{
}

/// The hashes of two and of four digits are far apart.
#[verifier::rlimit(100)]
#[verifier::spinoff_prover]
proof fn lemma_two_four(a1: u8, a2: u8, b1: u8, b2: u8, b3: u8, b4: u8)
    by (bit_vector)
    requires
        digit_byte(a1),
        digit_byte(a2),
        digit_byte(b1),
        digit_byte(b2),
        digit_byte(b3),
        digit_byte(b4),
    ensures
        (hash_two(HASH_START, a1, a2) ^ hash_four(HASH_START, b1, b2, b3, b4)) >= 16,
{
}

/// Digits, three of them, whose hashes are close together are the same.
#[verifier::rlimit(100)]
#[verifier::spinoff_prover]
proof fn lemma_three_three(a1: u8, a2: u8, a3: u8, b1: u8, b2: u8, b3: u8)
    by (bit_vector)
    requires
        digit_byte(a1),
        digit_byte(a2),
        digit_byte(a3),
        digit_byte(b1),
        digit_byte(b2),
        digit_byte(b3),
        (hash_three(HASH_START, a1, a2, a3) ^ hash_three(HASH_START, b1, b2, b3)) < 16,
    ensures
        a1 == b1,
        a2 == b2,
        a3 == b3,
{
}

/// The hashes of three and of four digits are far apart.
#[verifier::rlimit(100)]
#[verifier::spinoff_prover]
proof fn lemma_three_four(a1: u8, a2: u8, a3: u8, b1: u8, b2: u8, b3: u8, b4: u8)
    by (bit_vector)
    requires
        digit_byte(a1),
        digit_byte(a2),
        digit_byte(a3),
        digit_byte(b1),
        digit_byte(b2),
        digit_byte(b3),
        digit_byte(b4),
    ensures
        (hash_three(HASH_START, a1, a2, a3) ^ hash_four(HASH_START, b1, b2, b3, b4)) >= 16,
{
}

/// Four digits have hashes far apart if they differ first in the first.
#[verifier::rlimit(100)]
#[verifier::spinoff_prover]
proof fn lemma_four_differ_at_first(a1: u8, a2: u8, a3: u8, a4: u8, b1: u8, b2: u8, b3: u8, b4: u8)
    by (bit_vector)
    requires
        digit_byte(a1),
        digit_byte(a2),
        digit_byte(a3),
        digit_byte(a4),
        digit_byte(b1),
        digit_byte(b2),
        digit_byte(b3),
        digit_byte(b4),
        a1 < b1,
    ensures
        (hash_four(HASH_START, a1, a2, a3, a4) ^ hash_four(HASH_START, b1, b2, b3, b4)) >= 16,
{
}

/// Four digits have hashes far apart if they differ first in the second.
#[verifier::rlimit(100)]
#[verifier::spinoff_prover]
proof fn lemma_four_differ_at_second(a1: u8, a2: u8, a3: u8, a4: u8, b2: u8, b3: u8, b4: u8)
    by (bit_vector)
    requires
        digit_byte(a1),
        digit_byte(a2),
        digit_byte(a3),
        digit_byte(a4),
        digit_byte(b2),
        digit_byte(b3),
        digit_byte(b4),
        a2 < b2,
    ensures
        (hash_four(HASH_START, a1, a2, a3, a4) ^ hash_four(HASH_START, a1, b2, b3, b4)) >= 16,
{
}

/// Four digits have hashes far apart if they differ first in the third.
#[verifier::rlimit(100)]
#[verifier::spinoff_prover]
proof fn lemma_four_differ_at_third(a1: u8, a2: u8, a3: u8, a4: u8, b3: u8, b4: u8)
    by (bit_vector)
    requires
        digit_byte(a1),
        digit_byte(a2),
        digit_byte(a3),
        digit_byte(a4),
        digit_byte(b3),
        digit_byte(b4),
        a3 < b3,
    ensures
        (hash_four(HASH_START, a1, a2, a3, a4) ^ hash_four(HASH_START, a1, a2, b3, b4)) >= 16,
{
}

/// Four digits have hashes far apart if they differ first in the last.
proof fn lemma_four_differ_at_last(a1: u8, a2: u8, a3: u8, a4: u8, b4: u8)
    by (bit_vector)
    requires
        digit_byte(a1),
        digit_byte(a2),
        digit_byte(a3),
        digit_byte(a4),
        digit_byte(b4),
        a4 < b4,
    ensures
        (hash_four(HASH_START, a1, a2, a3, a4) ^ hash_four(HASH_START, a1, a2, a3, b4)) >= 16,
{
}

/// Four digits whose hashes are close together are the same.
proof fn lemma_four_four(a1: u8, a2: u8, a3: u8, a4: u8, b1: u8, b2: u8, b3: u8, b4: u8)
    requires
        digit_byte(a1),
        digit_byte(a2),
        digit_byte(a3),
        digit_byte(a4),
        digit_byte(b1),
        digit_byte(b2),
        digit_byte(b3),
        digit_byte(b4),
        (hash_four(HASH_START, a1, a2, a3, a4) ^ hash_four(HASH_START, b1, b2, b3, b4)) < 16,
    ensures
        a1 == b1,
        a2 == b2,
        a3 == b3,
        a4 == b4,
{
    lemma_close_both_ways(
        hash_four(HASH_START, a1, a2, a3, a4),
        hash_four(HASH_START, b1, b2, b3, b4),
    );
    if a1 < b1 {
        lemma_four_differ_at_first(a1, a2, a3, a4, b1, b2, b3, b4);
    } else if b1 < a1 {
        lemma_four_differ_at_first(b1, b2, b3, b4, a1, a2, a3, a4);
    } else if a2 < b2 {
        lemma_four_differ_at_second(a1, a2, a3, a4, b2, b3, b4);
    } else if b2 < a2 {
        lemma_four_differ_at_second(b1, b2, b3, b4, a2, a3, a4);
    } else if a3 < b3 {
        lemma_four_differ_at_third(a1, a2, a3, a4, b3, b4);
    } else if b3 < a3 {
        lemma_four_differ_at_third(b1, b2, b3, b4, a3, a4);
    } else if a4 < b4 {
        lemma_four_differ_at_last(a1, a2, a3, a4, b4);
    } else if b4 < a4 {
        lemma_four_differ_at_last(b1, b2, b3, b4, a4);
    }
}

/// Up to four digits are determined by what their hash is close to.
proof fn lemma_close_hashes(s: Seq<u8>, m: nat, t: Seq<u8>, n: nat)
    requires
        m <= 4,
        n <= 4,
        forall|i: int| 0 <= i < m ==> digit_byte(#[trigger] s[i]),
        forall|i: int| 0 <= i < n ==> digit_byte(#[trigger] t[i]),
        (hash_of_first(s, m) ^ hash_of_first(t, n)) < 16,
    ensures
        m == n,
        forall|i: int| 0 <= i < m ==> #[trigger] s[i] == t[i],
    decreases m,
{
    if m > n {
        lemma_close_both_ways(hash_of_first(s, m), hash_of_first(t, n));
        lemma_close_hashes(t, n, s, m);
    } else {
        lemma_close_in_order(s, m, t, n);
    }
}

/// As [`lemma_close_hashes`], where the second digits are at least as many as the
/// first.
#[verifier::spinoff_prover]
proof fn lemma_close_in_order(s: Seq<u8>, m: nat, t: Seq<u8>, n: nat)
    requires
        m <= n <= 4,
        forall|i: int| 0 <= i < m ==> digit_byte(#[trigger] s[i]),
        forall|i: int| 0 <= i < n ==> digit_byte(#[trigger] t[i]),
        (hash_of_first(s, m) ^ hash_of_first(t, n)) < 16,
    ensures
        m == n,
        forall|i: int| 0 <= i < m ==> #[trigger] s[i] == t[i],
{
    reveal_with_fuel(hash_of_first, 5);
    if m == 0 && n == 1 {
        lemma_none_one(t[0]);
    } else if m == 0 && n == 2 {
        lemma_none_two(t[0], t[1]);
    } else if m == 0 && n == 3 {
        lemma_none_three(t[0], t[1], t[2]);
    } else if m == 0 && n == 4 {
        lemma_none_four(t[0], t[1], t[2], t[3]);
    } else if m == 1 && n == 1 {
        lemma_one_one(s[0], t[0]);
    } else if m == 1 && n == 2 {
        lemma_one_two(s[0], t[0], t[1]);
    } else if m == 1 && n == 3 {
        lemma_one_three(s[0], t[0], t[1], t[2]);
    } else if m == 1 && n == 4 {
        lemma_one_four(s[0], t[0], t[1], t[2], t[3]);
    } else if m == 2 && n == 2 {
        lemma_two_two(s[0], s[1], t[0], t[1]);
    } else if m == 2 && n == 3 {
        lemma_two_three(s[0], s[1], t[0], t[1], t[2]);
    } else if m == 2 && n == 4 {
        lemma_two_four(s[0], s[1], t[0], t[1], t[2], t[3]);
    } else if m == 3 && n == 3 {
        lemma_three_three(s[0], s[1], s[2], t[0], t[1], t[2]);
    } else if m == 3 && n == 4 {
        lemma_three_four(s[0], s[1], s[2], t[0], t[1], t[2], t[3]);
    } else if m == 4 && n == 4 {
        lemma_four_four(s[0], s[1], s[2], s[3], t[0], t[1], t[2], t[3]);
    }
}

/// What begins alike has the same hash so far.
proof fn lemma_same_hash(s: Seq<u8>, t: Seq<u8>, count: nat)
    requires
        forall|i: int| 0 <= i < count ==> #[trigger] s[i] == t[i],
    ensures
        hash_of_first(s, count) == hash_of_first(t, count),
    decreases count,
{
    if count > 0 {
        lemma_same_hash(s, t, (count - 1) as nat);
        assert(s[count - 1] == t[count - 1]);
    }
}

/// Up to five digits are determined by their hash.
proof fn lemma_digit_hashes(s: Seq<u8>, m: nat, t: Seq<u8>, n: nat)
    requires
        1 <= m <= 5,
        1 <= n <= 5,
        forall|i: int| 0 <= i < m ==> digit_byte(#[trigger] s[i]),
        forall|i: int| 0 <= i < n ==> digit_byte(#[trigger] t[i]),
        hash_of_first(s, m) == hash_of_first(t, n),
    ensures
        m == n,
        forall|i: int| 0 <= i < m ==> #[trigger] s[i] == t[i],
{
    let (a, b) = ((m - 1) as nat, (n - 1) as nat);
    lemma_digit_back(hash_of_first(s, a), hash_of_first(t, b), s[m - 1], t[n - 1]);
    lemma_close_hashes(s, a, t, b);
    lemma_same_hash(s, t, a);
}

/// The bytes of a text of digits, with `end` behind it.
proof fn lemma_digit_bytes(text: Seq<char>, end: Seq<char>)
    requires
        all_digits(text),
        is_ascii_chars(end),
    ensures
        encode_utf8(text + end).len() == text.len() + end.len(),
        forall|i: int|
            0 <= i < text.len() ==> #[trigger] encode_utf8(text + end)[i] == text[i] as u8
                && digit_byte(encode_utf8(text + end)[i]),
        forall|i: int|
            text.len() <= i < text.len() + end.len() ==> #[trigger] encode_utf8(text + end)[i]
                == end[i - text.len()] as u8,
{
    let whole = text + end;
    assert forall|i: int| 0 <= i < whole.len() implies '\0' <= #[trigger] whole[i] <= '\u{7f}' by {
        if i < text.len() {
            assert(is_digit(text[i]));
        } else {
            assert(whole[i] == end[i - text.len()]);
        }
    }
    is_ascii_chars_encode_utf8(whole);
    assert forall|i: int|
        0 <= i < text.len() implies #[trigger] encode_utf8(whole)[i] == text[i] as u8
        && digit_byte(encode_utf8(whole)[i]) by {
        assert(is_digit(text[i]));
        assert(whole[i] == text[i]);
    }
    assert forall|i: int|
        text.len() <= i < whole.len() implies #[trigger] encode_utf8(whole)[i] == end[i
        - text.len()] as u8 by {
        assert(whole[i] == end[i - text.len()]);
    }
}

/// Texts of up to five digits, with the same text behind them, are determined by
/// the key of the counter that they select.
pub proof fn lemma_digit_keys(a: Seq<char>, b: Seq<char>, end: Seq<char>)
    requires
        1 <= a.len() <= 5,
        1 <= b.len() <= 5,
        all_digits(a),
        all_digits(b),
        is_ascii_chars(end),
        series_key(a + end) == series_key(b + end),
    ensures
        a == b,
{
    reveal(fnv_hash);
    let (s, t) = (encode_utf8(a + end), encode_utf8(b + end));
    lemma_digit_bytes(a, end);
    lemma_digit_bytes(b, end);
    lemma_common_end(s, a.len(), t, b.len(), end.len());
    lemma_digit_hashes(s, a.len(), t, b.len());
    assert forall|i: int| 0 <= i < a.len() implies a[i] == b[i] by {
        assert(is_digit(a[i]) && is_digit(b[i]));
        assert(s[i] == t[i]);
    }
    assert(a =~= b);
}

/// Where hashes agree after the same bytes, they agreed before those.
proof fn lemma_common_end(s: Seq<u8>, m: nat, t: Seq<u8>, n: nat, count: nat)
    requires
        forall|i: int| 0 <= i < count ==> #[trigger] s[m + i] == t[n + i],
        hash_of_first(s, m + count) == hash_of_first(t, n + count),
    ensures
        hash_of_first(s, m) == hash_of_first(t, n),
    decreases count,
{
    if count > 0 {
        let rest = (count - 1) as nat;
        assert(s[m + count - 1] == t[n + count - 1]) by {
            assert(s[m + rest as int] == t[n + rest as int]);
        }
        lemma_byte_back(hash_of_first(s, m + rest), hash_of_first(t, n + rest), s[m + count - 1]);
        lemma_common_end(s, m, t, n, rest);
    }
}

/// Numbers below a hundred thousand have up to five digits.
pub proof fn lemma_decimal_is_short(n: nat)
    requires
        n < 100_000,
    ensures
        1 <= decimal(n).len() <= 5,
{
    reveal_with_fuel(decimal, 5);
}

// ---------------------------------------------------------------------------
// Names
// ---------------------------------------------------------------------------

/// A hash grows by four bytes at once.
proof fn lemma_four_more(bytes: Seq<u8>, count: nat)
    ensures
        hash_of_first(bytes, count + 4) == hash_four(
            hash_of_first(bytes, count),
            bytes[count as int],
            bytes[count + 1int],
            bytes[count + 2int],
            bytes[count + 3int],
        ),
{
    reveal_with_fuel(hash_of_first, 5);
}

/// The bytes of a name that is not beyond ASCII.
proof fn lemma_name_bytes(name: Seq<char>)
    requires
        is_ascii_chars(name),
    ensures
        encode_utf8(name) == name.map_values(|c: char| c as u8),
{
    is_ascii_chars_encode_utf8(name);
    assert(encode_utf8(name) =~= name.map_values(|c: char| c as u8));
}

/// The identifier of `nginx_http_status_total`.
proof fn lemma_id_of_status_total()
    ensures
        metric_id("nginx_http_status_total"@) == 0xa212_07ff_1da6_4677,
{
    reveal(fnv_hash);
    reveal_strlit("nginx_http_status_total");
    let name = "nginx_http_status_total"@;
    lemma_name_bytes(name);
    let bytes = encode_utf8(name).push(0xff);
    assert(bytes.len() == 24);
    lemma_four_more(bytes, 0);
    lemma_four_more(bytes, 4);
    lemma_four_more(bytes, 8);
    lemma_four_more(bytes, 12);
    lemma_four_more(bytes, 16);
    lemma_four_more(bytes, 20);
    assert(
        hash_four(hash_four(hash_four(hash_four(hash_four(hash_four(HASH_START, 110, 103,
        105, 110), 120, 95, 104, 116), 116, 112, 95, 115), 116, 97, 116, 117), 115, 95, 116,
        111), 116, 97, 108, 255) == 0xa212_07ff_1da6_4677
    ) by (bit_vector);
}

/// The identifier of `nginx_http_status_class_total`.
proof fn lemma_id_of_status_class_total()
    ensures
        metric_id("nginx_http_status_class_total"@) == 0xada9_f17e_b612_a23e,
{
    reveal(fnv_hash);
    reveal_strlit("nginx_http_status_class_total");
    let name = "nginx_http_status_class_total"@;
    lemma_name_bytes(name);
    let bytes = encode_utf8(name).push(0xff);
    assert(bytes.len() == 30);
    lemma_four_more(bytes, 0);
    lemma_four_more(bytes, 4);
    lemma_four_more(bytes, 8);
    lemma_four_more(bytes, 12);
    lemma_four_more(bytes, 16);
    lemma_four_more(bytes, 20);
    lemma_four_more(bytes, 24);
    reveal_with_fuel(hash_of_first, 3);
    assert(
        hash_two(hash_four(hash_four(hash_four(hash_four(hash_four(hash_four(hash_four(HASH_START,
        110, 103, 105, 110), 120, 95, 104, 116), 116, 112, 95, 115), 116, 97, 116, 117),
        115, 95, 99, 108), 97, 115, 115, 95), 116, 111, 116, 97), 108, 255) ==
        0xada9_f17e_b612_a23e
    ) by (bit_vector);
}

/// The identifier of `nginx_http_502_total`.
proof fn lemma_id_of_502_total()
    ensures
        metric_id("nginx_http_502_total"@) == 0xd859_48ea_b9ce_07e4,
{
    reveal(fnv_hash);
    reveal_strlit("nginx_http_502_total");
    let name = "nginx_http_502_total"@;
    lemma_name_bytes(name);
    let bytes = encode_utf8(name).push(0xff);
    assert(bytes.len() == 21);
    lemma_four_more(bytes, 0);
    lemma_four_more(bytes, 4);
    lemma_four_more(bytes, 8);
    lemma_four_more(bytes, 12);
    lemma_four_more(bytes, 16);
    reveal_with_fuel(hash_of_first, 2);
    assert(
        hash_one(hash_four(hash_four(hash_four(hash_four(hash_four(HASH_START, 110, 103,
        105, 110), 120, 95, 104, 116), 116, 112, 95, 53), 48, 50, 95, 116), 111, 116, 97,
        108), 255) == 0xd859_48ea_b9ce_07e4
    ) by (bit_vector);
}

/// The identifier of `nginx_upstream_status_total`.
proof fn lemma_id_of_upstream_status_total()
    ensures
        metric_id("nginx_upstream_status_total"@) == 0x3d64_8663_48e5_2446,
{
    reveal(fnv_hash);
    reveal_strlit("nginx_upstream_status_total");
    let name = "nginx_upstream_status_total"@;
    lemma_name_bytes(name);
    let bytes = encode_utf8(name).push(0xff);
    assert(bytes.len() == 28);
    lemma_four_more(bytes, 0);
    lemma_four_more(bytes, 4);
    lemma_four_more(bytes, 8);
    lemma_four_more(bytes, 12);
    lemma_four_more(bytes, 16);
    lemma_four_more(bytes, 20);
    lemma_four_more(bytes, 24);
    assert(
        hash_four(hash_four(hash_four(hash_four(hash_four(hash_four(hash_four(HASH_START,
        110, 103, 105, 110), 120, 95, 117, 112), 115, 116, 114, 101), 97, 109, 95, 115),
        116, 97, 116, 117), 115, 95, 116, 111), 116, 97, 108, 255) == 0x3d64_8663_48e5_2446
    ) by (bit_vector);
}

/// The identifiers of four names.
pub proof fn lemma_metric_ids()
    ensures
        metric_id("nginx_http_status_total"@) == 0xa212_07ff_1da6_4677,
        metric_id("nginx_http_status_class_total"@) == 0xada9_f17e_b612_a23e,
        metric_id("nginx_http_502_total"@) == 0xd859_48ea_b9ce_07e4,
        metric_id("nginx_upstream_status_total"@) == 0x3d64_8663_48e5_2446,
{
    lemma_id_of_status_total();
    lemma_id_of_status_class_total();
    lemma_id_of_502_total();
    lemma_id_of_upstream_status_total();
}

} // verus!
