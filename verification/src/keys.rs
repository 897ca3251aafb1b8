//! Dispatch-table keys: decimal text read as numbers of a fixed width, and the
//! test whether a table has an entry for every key of its width.

use vstd::arithmetic::power2::*;
use vstd::prelude::*;
use vstd::relations::injective_on;
use vstd::set_lib::*;
use vstd::string::*;

use crate::graph::{entries_view, EntryView, JumpEntry};

verus! {

/// `c` is one of `0` .. `9`.
pub open spec fn is_digit(c: char) -> bool {
    '0' <= c && c <= '9'
}

/// The number a digit stands for.
pub open spec fn digit_value(c: char) -> nat {
    (c as u32 - '0' as u32) as nat
}

/// The number that a run of digits denotes, most significant digit first.
pub open spec fn decimal_value(s: Seq<char>) -> nat
    decreases s.len(),
{
    if s.len() == 0 {
        0
    } else {
        decimal_value(s.drop_last()) * 10 + digit_value(s.last())
    }
}

/// `s` is a non-empty run of digits.
pub open spec fn is_decimal(s: Seq<char>) -> bool {
    s.len() > 0 && forall|i: int| 0 <= i < s.len() ==> is_digit(#[trigger] s[i])
}

/// `s` is a minus sign and a non-empty run of digits.
pub open spec fn is_negative(s: Seq<char>) -> bool {
    s.len() > 0 && s[0] == '-' && is_decimal(s.skip(1))
}

/// The number, of `size` many, that a key denotes. A run of digits denotes
/// its value, if that is below `size`. A key with a minus sign is a key of
/// the upper half of the range, written as a signed number: `-v` denotes
/// `size - v`, if `v` is at least 1 and at most half of `size`. Any other
/// text denotes no number.
pub open spec fn key_index(key: Seq<char>, size: nat) -> Option<nat> {
    if is_decimal(key) {
        if decimal_value(key) < size {
            Some(decimal_value(key))
        } else {
            None
        }
    } else if is_negative(key) {
        let v = decimal_value(key.skip(1));
        if 0 < v && 2 * v <= size {
            Some((size - v) as nat)
        } else {
            None
        }
    } else {
        None
    }
}

/// One of the keys denotes `v`.
pub open spec fn has_key(keys: Seq<Seq<char>>, size: nat, v: nat) -> bool {
    exists|k: int| 0 <= k < keys.len() && #[trigger] key_index(keys[k], size) == Some(v)
}

/// The keys, read as numbers of `key_bits` bits, are exactly `0 .. 2^key_bits`:
/// each key denotes a number of that range, and each number of that range is
/// denoted by a key.
pub open spec fn covers(keys: Seq<Seq<char>>, key_bits: nat) -> bool {
    &&& forall|k: int|
        0 <= k < keys.len() ==> key_index(#[trigger] keys[k], pow2(key_bits)) is Some
    &&& forall|v: nat| v < pow2(key_bits) ==> #[trigger] has_key(keys, pow2(key_bits), v)
}

/// What the keys of a table denote, as a set.
pub open spec fn key_numbers(keys: Seq<Seq<char>>, size: nat) -> Set<Option<nat>> {
    Set::new(
        |o: Option<nat>|
            exists|k: int| 0 <= k < keys.len() && #[trigger] key_index(keys[k], size) == o,
    )
}

/// Every number below `size`, as a set.
pub open spec fn all_numbers(size: nat) -> Set<Option<nat>> {
    Set::new(|o: Option<nat>| o matches Some(v) && v < size)
}

/// The values of keys that are runs of digits, as a set.
pub open spec fn plain_values(keys: Seq<Seq<char>>) -> Set<nat> {
    Set::new(|v: nat| exists|k: int| 0 <= k < keys.len() && #[trigger] decimal_value(keys[k]) == v)
}

/// The keys of the entries of a table.
pub open spec fn entry_keys(entries: Seq<EntryView>) -> Seq<Seq<char>> {
    entries.map_values(|e: EntryView| e.key)
}

/// A run of digits denotes at least what any of its prefixes denotes.
pub proof fn lemma_prefix_value(s: Seq<char>, i: int)
    requires
        0 <= i <= s.len(),
        forall|j: int| 0 <= j < s.len() ==> is_digit(#[trigger] s[j]),
    ensures
        decimal_value(s.take(i)) <= decimal_value(s),
    decreases s.len() - i,
{
    if i == s.len() {
        assert(s.take(i) =~= s);
    } else {
        lemma_prefix_value(s.drop_last(), i);
        assert(s.drop_last().take(i) =~= s.take(i));
    }
}

/// A key denotes a number below `size`, if any.
pub proof fn lemma_index_in_range(key: Seq<char>, size: nat)
    ensures
        key_index(key, size) matches Some(v) ==> v < size,
{
}

/// Coverage is the equality of two sets: what the keys denote, and every
/// number of the table's width.
pub proof fn lemma_covers_is_set_equality(keys: Seq<Seq<char>>, key_bits: nat)
    ensures
        covers(keys, key_bits) <==> key_numbers(keys, pow2(key_bits)) == all_numbers(
            pow2(key_bits),
        ),
{
    let size = pow2(key_bits);
    let have = key_numbers(keys, size);
    let want = all_numbers(size);
    if covers(keys, key_bits) {
        assert forall|o: Option<nat>| have.contains(o) <==> want.contains(o) by {
            if have.contains(o) {
                let k = choose|k: int|
                    0 <= k < keys.len() && #[trigger] key_index(keys[k], size) == o;
                assert(key_index(keys[k], size) is Some);
                lemma_index_in_range(keys[k], size);
            }
            if want.contains(o) {
                assert(has_key(keys, size, o->0));
            }
        }
        assert(have =~= want);
    }
    if have == want {
        assert forall|k: int| 0 <= k < keys.len() implies key_index(
            #[trigger] keys[k],
            size,
        ) is Some by {
            assert(have.contains(key_index(keys[k], size)));
        }
        assert forall|v: nat| v < size implies #[trigger] has_key(keys, size, v) by {
            assert(want.contains(Some(v)));
            assert(have.contains(Some(v)));
        }
    }
}

/// Where every key is a run of digits, coverage says that the values of the
/// keys are exactly the numbers `0 .. 2^key_bits`.
pub proof fn lemma_covers_plain_keys(keys: Seq<Seq<char>>, key_bits: nat)
    requires
        forall|k: int| 0 <= k < keys.len() ==> is_decimal(#[trigger] keys[k]),
    ensures
        covers(keys, key_bits) <==> plain_values(keys) == Set::new(
            |v: nat| v < pow2(key_bits),
        ),
{
    let size = pow2(key_bits);
    let have = plain_values(keys);
    let want = Set::new(|v: nat| v < size);
    if covers(keys, key_bits) {
        assert forall|v: nat| have.contains(v) <==> want.contains(v) by {
            if have.contains(v) {
                let k = choose|k: int|
                    0 <= k < keys.len() && #[trigger] decimal_value(keys[k]) == v;
                assert(key_index(keys[k], size) is Some);
            }
            if want.contains(v) {
                assert(has_key(keys, size, v));
                let k = choose|k: int|
                    0 <= k < keys.len() && #[trigger] key_index(keys[k], size) == Some(v);
                assert(is_decimal(keys[k]));
                assert(decimal_value(keys[k]) == v);
            }
        }
        assert(have =~= want);
    }
    if have == want {
        assert forall|k: int| 0 <= k < keys.len() implies key_index(
            #[trigger] keys[k],
            size,
        ) is Some by {
            assert(is_decimal(keys[k]));
            assert(have.contains(decimal_value(keys[k])));
        }
        assert forall|v: nat| v < size implies #[trigger] has_key(keys, size, v) by {
            assert(want.contains(v));
            assert(have.contains(v));
            let k = choose|k: int| 0 <= k < keys.len() && #[trigger] decimal_value(keys[k]) == v;
            assert(is_decimal(keys[k]));
            assert(key_index(keys[k], size) == Some(v));
        }
    }
}

/// A table that covers its key range has at least as many entries as the
/// range has keys.
pub proof fn lemma_cover_needs_entries(keys: Seq<Seq<char>>, key_bits: nat)
    requires
        covers(keys, key_bits),
    ensures
        keys.len() >= pow2(key_bits),
{
    let bound = pow2(key_bits);
    let size = bound as int;
    let pick = |v: int|
        choose|k: int|
            0 <= k < keys.len() && #[trigger] key_index(keys[k], bound) == Some(v as nat);
    let numbers = set_int_range(0, size);
    let picked = numbers.map(pick);
    let places = set_int_range(0, keys.len() as int);
    lemma_int_range(0, size);
    lemma_int_range(0, keys.len() as int);
    assert forall|v: int| numbers.contains(v) implies 0 <= pick(v) < keys.len() && key_index(
        keys[pick(v)],
        bound,
    ) == Some(v as nat) by {
        assert(has_key(keys, bound, v as nat));
    }
    assert(injective_on(pick, numbers)) by {
        assert forall|a: int, b: int|
            numbers.contains(a) && numbers.contains(b) && #[trigger] pick(a) == #[trigger] pick(
                b,
            ) implies a == b by {
            assert(key_index(keys[pick(a)], bound) == Some(a as nat));
            assert(key_index(keys[pick(b)], bound) == Some(b as nat));
        }
    }
    lemma_map_size(numbers, picked, pick);
    assert(picked.subset_of(places)) by {
        assert forall|k: int| picked.contains(k) implies places.contains(k) by {
            let v = choose|v: int| numbers.contains(v) && k == pick(v);
            assert(0 <= pick(v) < keys.len());
        }
    }
    lemma_len_subset(picked, places);
}

/// Reads the characters of `key` from `from` on as a run of digits with a
/// value below `limit`.
fn parse_decimal(key: &str, from: usize, limit: u64) -> (r: Option<u64>)
    requires
        from <= key@.len(),
    ensures
        r matches Some(v) ==> is_decimal(key@.skip(from as int)) && v == decimal_value(
            key@.skip(from as int),
        ) && v < limit,
        r is None ==> !(is_decimal(key@.skip(from as int)) && decimal_value(
            key@.skip(from as int),
        ) < limit),
{
    let ghost digits = key@.skip(from as int);
    let len: usize = key.unicode_len();
    if len == from {
        return None;
    }
    let mut value: u64 = 0;
    let mut i: usize = from;
    while i < len
        invariant
            len == key@.len(),
            digits == key@.skip(from as int),
            from <= i <= len,
            from < len,
            forall|j: int| 0 <= j < i - from ==> is_digit(#[trigger] digits[j]),
            value == decimal_value(digits.take(i - from)),
            i > from ==> value < limit,
        decreases len - i,
    {
        let c: char = key.get_char(i);
        assert(digits[i - from] == c);
        if !(c >= '0' && c <= '9') {
            return None;
        }
        let digit: u64 = (c as u32 - '0' as u32) as u64;
        proof {
            assert(digits.take(i - from + 1).drop_last() =~= digits.take(i - from));
            assert(digits.take(i - from + 1).last() == c);
        }
        let wide: u128 = value as u128 * 10 + digit as u128;
        if wide >= limit as u128 {
            proof {
                if is_decimal(digits) {
                    lemma_prefix_value(digits, i - from + 1);
                }
            }
            return None;
        }
        value = wide as u64;
        i = i + 1;
    }
    proof {
        assert(digits.take(len - from) =~= digits);
    }
    Some(value)
}

/// Reads a key as a number of `size` many.
pub fn parse_index(key: &str, size: u64) -> (r: Option<u64>)
    ensures
        r matches Some(v) ==> key_index(key@, size as nat) == Some(v as nat),
        r is None ==> key_index(key@, size as nat) is None,
{
    let len: usize = key.unicode_len();
    if len == 0 {
        return None;
    }
    let first: char = key.get_char(0);
    if first == '-' {
        match parse_decimal(key, 1, size / 2 + 1) {
            Some(v) => {
                if v >= 1 {
                    Some(size - v)
                } else {
                    None
                }
            },
            None => None,
        }
    } else {
        proof {
            assert(key@.skip(0) =~= key@);
        }
        parse_decimal(key, 0, size)
    }
}

/// Whether the entries have a key for every number of `key_bits` bits.
pub fn covers_all_keys(entries: &Vec<JumpEntry>, key_bits: u16) -> (full: bool)
    ensures
        full == covers(entry_keys(entries_view(entries@)), key_bits as nat),
{
    let ghost keys = entry_keys(entries_view(entries@));
    let ghost bits = key_bits as nat;
    let count: usize = entries.len();
    if key_bits >= 64 {
        proof {
            lemma2_to64();
            if key_bits > 64 {
                lemma_pow2_strictly_increases(64, bits);
            }
            assert(keys.len() == count);
            if covers(keys, bits) {
                lemma_cover_needs_entries(keys, bits);
            }
        }
        return false;
    }
    proof {
        lemma2_to64();
        lemma2_to64_rest();
        if key_bits < 63 {
            lemma_pow2_strictly_increases(bits, 63);
        }
        vstd::bits::lemma_u64_shl_is_mul(1, key_bits as u64);
    }
    let size: u64 = 1u64 << (key_bits as u64);
    assert(size == pow2(bits));
    if (count as u64) < size {
        proof {
            if covers(keys, bits) {
                lemma_cover_needs_entries(keys, bits);
            }
        }
        return false;
    }
    let mut seen: Vec<bool> = Vec::new();
    let mut n: u64 = 0;
    while n < size
        invariant
            n <= size,
            size <= entries.len(),
            seen.len() == n,
            forall|v: int| 0 <= v < n ==> !(#[trigger] seen[v]),
        decreases size - n,
    {
        seen.push(false);
        n = n + 1;
    }
    let mut i: usize = 0;
    while i < entries.len()
        invariant
            0 <= i <= entries.len(),
            keys == entry_keys(entries_view(entries@)),
            bits == key_bits as nat,
            seen.len() == size,
            size == pow2(bits),
            forall|k: int| 0 <= k < i ==> key_index(#[trigger] keys[k], size as nat) is Some,
            forall|v: int|
                0 <= v < size ==> (#[trigger] seen[v] <==> exists|k: int|
                    0 <= k < i && #[trigger] key_index(keys[k], size as nat) == Some(v as nat)),
        decreases entries.len() - i,
    {
        let ghost before = seen@;
        match parse_index(entries[i].key.as_str(), size) {
            None => {
                assert(key_index(keys[i as int], pow2(bits)) is None);
                return false;
            },
            Some(v) => {
                proof {
                    lemma_index_in_range(keys[i as int], size as nat);
                }
                seen.set(v as usize, true);
                proof {
                    assert(key_index(keys[i as int], size as nat) == Some(v as nat));
                    assert forall|w: int| 0 <= w < size implies (#[trigger] seen[w] <==> exists|
                        k: int,
                    |
                        0 <= k < i + 1 && #[trigger] key_index(keys[k], size as nat) == Some(
                            w as nat,
                        )) by {
                        if w == v {
                            assert(key_index(keys[i as int], size as nat) == Some(w as nat));
                        } else {
                            assert(seen[w] == before[w]);
                            if before[w] {
                                let k = choose|k: int|
                                    0 <= k < i && #[trigger] key_index(keys[k], size as nat)
                                        == Some(w as nat);
                                assert(0 <= k < i + 1);
                            }
                            if exists|k: int|
                                0 <= k < i + 1 && #[trigger] key_index(keys[k], size as nat)
                                    == Some(w as nat) {
                                let k = choose|k: int|
                                    0 <= k < i + 1 && #[trigger] key_index(keys[k], size as nat)
                                        == Some(w as nat);
                                assert(k != i);
                                assert(0 <= k < i);
                            }
                        }
                    }
                }
            },
        }
        i = i + 1;
    }
    proof {
        assert forall|w: int| 0 <= w < size implies (#[trigger] seen[w] <==> has_key(
            keys,
            size as nat,
            w as nat,
        )) by {}
    }
    let mut v: u64 = 0;
    while v < size
        invariant
            0 <= v <= size,
            keys == entry_keys(entries_view(entries@)),
            bits == key_bits as nat,
            seen.len() == size,
            size == pow2(bits),
            forall|k: int|
                0 <= k < keys.len() ==> key_index(#[trigger] keys[k], size as nat) is Some,
            forall|w: int|
                0 <= w < size ==> (#[trigger] seen[w] <==> has_key(keys, size as nat, w as nat)),
            forall|w: int| 0 <= w < v ==> #[trigger] seen[w],
        decreases size - v,
    {
        if !seen[v as usize] {
            proof {
                assert(!seen[v as int]);
                assert(!has_key(keys, size as nat, v as nat));
            }
            return false;
        }
        v = v + 1;
    }
    proof {
        assert forall|w: nat| w < pow2(bits) implies #[trigger] has_key(keys, pow2(bits), w) by {
            assert(seen[w as int]);
        }
    }
    true
}

} // verus!
