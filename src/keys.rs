//! Cache keys of season snapshots, `season:<decimal id>`, and the list of
//! seasons that a key enumeration reveals.

use vstd::prelude::*;
use vstd::string::*;

verus! {

/// The decimal digit character of `d`, for `d < 10`.
pub open spec fn digit_char(d: nat) -> char {
    if d == 0 {
        '0'
    } else if d == 1 {
        '1'
    } else if d == 2 {
        '2'
    } else if d == 3 {
        '3'
    } else if d == 4 {
        '4'
    } else if d == 5 {
        '5'
    } else if d == 6 {
        '6'
    } else if d == 7 {
        '7'
    } else if d == 8 {
        '8'
    } else {
        '9'
    }
}

pub open spec fn is_digit(c: char) -> bool {
    '0' <= c <= '9'
}

pub open spec fn all_digits(s: Seq<char>) -> bool {
    forall|i: int| 0 <= i < s.len() ==> is_digit(#[trigger] s[i])
}

pub open spec fn digit_value(c: char) -> nat {
    (c as u32 - '0' as u32) as nat
}

/// The decimal notation of `n`, without leading zeros.
pub open spec fn decimal(n: nat) -> Seq<char>
    decreases n,
{
    if n < 10 {
        seq![digit_char(n)]
    } else {
        decimal(n / 10).push(digit_char(n % 10))
    }
}

/// The number that a string of decimal digits denotes.
pub open spec fn digits_value(s: Seq<char>) -> nat
    decreases s.len(),
{
    if s.len() == 0 {
        0
    } else {
        digits_value(s.drop_last()) * 10 + digit_value(s.last())
    }
}

pub open spec fn key_prefix() -> Seq<char> {
    seq!['s', 'e', 'a', 's', 'o', 'n', ':']
}

/// The cache key of a season.
pub open spec fn season_key_spec(season_id: nat) -> Seq<char> {
    key_prefix() + decimal(season_id)
}

/// The season id that a cache key names: the key is `season:` followed by
/// one or more decimal digits whose value fits in 32 bits.
pub open spec fn key_season_id(key: Seq<char>) -> Option<u32> {
    let digits = key.skip(7);
    if key.len() > 7 && key.take(7) == key_prefix() && all_digits(digits)
        && digits_value(digits) <= u32::MAX {
        Some(digits_value(digits) as u32)
    } else {
        None
    }
}

pub(crate) fn digit_str(d: u128) -> (r: &'static str)
    requires
        d < 10,
    ensures
        r@ == seq![digit_char(d as nat)],
{
    proof {
        reveal_strlit("0");
        reveal_strlit("1");
        reveal_strlit("2");
        reveal_strlit("3");
        reveal_strlit("4");
        reveal_strlit("5");
        reveal_strlit("6");
        reveal_strlit("7");
        reveal_strlit("8");
        reveal_strlit("9");
    }
    match d {
        0 => "0",
        1 => "1",
        2 => "2",
        3 => "3",
        4 => "4",
        5 => "5",
        6 => "6",
        7 => "7",
        8 => "8",
        _ => "9",
    }
}

/// Writes the decimal notation of `n` at the end of `s`.
pub(crate) fn append_decimal(s: &mut String, n: u128)
    ensures
        final(s)@ == old(s)@ + decimal(n as nat),
    decreases n,
{
    if n >= 10 {
        append_decimal(s, n / 10);
    }
    s.append(digit_str(n % 10));
    assert(s@ =~= old(s)@ + decimal(n as nat));
}

/// The cache key under which a season's snapshot is stored.
pub fn season_key(season_id: u32) -> (r: String)
    ensures
        r@ == season_key_spec(season_id as nat),
{
    let mut key = String::from_str("season:");
    proof {
        reveal_strlit("season:");
    }
    assert(key@ =~= key_prefix());
    append_decimal(&mut key, season_id as u128);
    key
}


pub proof fn lemma_digits_monotone(s: Seq<char>, i: int)
    requires
        0 <= i <= s.len(),
    ensures
        digits_value(s.take(i)) <= digits_value(s),
    decreases s.len() - i,
{
    if i < s.len() {
        lemma_digits_monotone(s, i + 1);
        assert(s.take(i + 1).drop_last() =~= s.take(i));
    } else {
        assert(s.take(i) =~= s);
    }
}

/// The season id that a cache key names, or `None` where the key is not
/// `season:` followed by the decimal digits of a 32-bit id.
pub fn parse_season_key(key: &str) -> (r: Option<u32>)
    ensures
        r == key_season_id(key@),
{
    let prefix = "season:";
    proof {
        reveal_strlit("season:");
    }
    let n = key.unicode_len();
    if n <= 7 {
        return None;
    }
    let mut i: usize = 0;
    while i < 7
        invariant
            n == key@.len(),
            n > 7,
            prefix@ == key_prefix(),
            i <= 7,
            key@.take(i as int) == prefix@.take(i as int),
        decreases 7 - i,
    {
        if key.get_char(i) != prefix.get_char(i) {
            assert(key@.take(7)[i as int] != key_prefix()[i as int]);
            return None;
        }
        assert(key@.take(i + 1) =~= key@.take(i as int).push(key@[i as int]));
        assert(prefix@.take(i + 1) =~= prefix@.take(i as int).push(prefix@[i as int]));
        i = i + 1;
    }
    assert(prefix@.take(7) =~= prefix@);
    let ghost digits = key@.skip(7);
    let mut value: u64 = 0;
    while i < n
        invariant
            n == key@.len(),
            7 <= i <= n,
            key@.take(7) == key_prefix(),
            digits == key@.skip(7),
            all_digits(digits.take(i - 7)),
            value == digits_value(digits.take(i - 7)),
            value <= u32::MAX,
        decreases n - i,
    {
        let c = key.get_char(i);
        assert(digits[i - 7] == c);
        if c < '0' || c > '9' {
            assert(!is_digit(digits[i - 7]));
            assert(!all_digits(digits));
            return None;
        }
        let d = (c as u32 - '0' as u32) as u64;
        assert(digits.take(i - 7 + 1).drop_last() =~= digits.take(i - 7));
        value = value * 10 + d;
        if value > 0xffff_ffff {
            proof {
                if all_digits(digits) {
                    lemma_digits_monotone(digits, i - 7 + 1);
                }
            }
            return None;
        }
        i = i + 1;
    }
    assert(digits.take(n - 7) =~= digits);
    Some(value as u32)
}


pub proof fn lemma_decimal_digits(n: nat)
    ensures
        decimal(n).len() >= 1,
        all_digits(decimal(n)),
        digits_value(decimal(n)) == n,
    decreases n,
{
    if n >= 10 {
        lemma_decimal_digits(n / 10);
        let d = n % 10;
        assert(decimal(n).drop_last() =~= decimal(n / 10));
        assert(is_digit(digit_char(d)) && digit_value(digit_char(d)) == d);
        assert(decimal(n).last() == digit_char(d));
        assert(n == (n / 10) * 10 + d);
        assert(digits_value(decimal(n)) == digits_value(decimal(n / 10)) * 10 + d);
    } else {
        assert(is_digit(digit_char(n)) && digit_value(digit_char(n)) == n);
        assert(decimal(n).drop_last() =~= Seq::<char>::empty());
        assert(digits_value(Seq::<char>::empty()) == 0);
        assert(decimal(n).last() == digit_char(n));
    }
}

/// Reading back the key of any season gives that season's id.
pub proof fn lemma_season_key_round_trip(season_id: u32)
    ensures
        key_season_id(season_key_spec(season_id as nat)) == Some(season_id),
{
    let key = season_key_spec(season_id as nat);
    lemma_decimal_digits(season_id as nat);
    assert(key.take(7) =~= key_prefix());
    assert(key.skip(7) =~= decimal(season_id as nat));
}


pub open spec fn strictly_descending(s: Seq<u32>) -> bool {
    forall|i: int, j: int| 0 <= i < j < s.len() ==> s[i] > s[j]
}

/// Puts `x` into a strictly descending list, keeping it strictly
/// descending; nothing changes where `x` is already there.
fn insert_descending(v: &mut Vec<u32>, x: u32)
    requires
        strictly_descending(old(v)@),
    ensures
        strictly_descending(final(v)@),
        forall|y: u32| final(v)@.contains(y) <==> (old(v)@.contains(y) || y == x),
{
    let mut p: usize = 0;
    while p < v.len() && v[p] > x
        invariant
            p <= v@.len(),
            forall|k: int| 0 <= k < p ==> v@[k] > x,
        decreases v@.len() - p,
    {
        p = p + 1;
    }
    if p < v.len() && v[p] == x {
        return;
    }
    v.insert(p, x);
    assert forall|y: u32| v@.contains(y) <==> (old(v)@.contains(y) || y == x) by {
        if old(v)@.contains(y) {
            let k = choose|k: int| 0 <= k < old(v)@.len() && old(v)@[k] == y;
            if k < p {
                assert(v@[k] == y);
            } else {
                assert(v@[k + 1] == y);
            }
        }
        if v@.contains(y) {
            let k = choose|k: int| 0 <= k < v@.len() && v@[k] == y;
            if k < p {
                assert(old(v)@[k] == y);
            } else if k > p {
                assert(old(v)@[k - 1] == y);
            }
        }
        if y == x {
            assert(v@[p as int] == x);
        }
    }
}

/// The season ids that a list of cache keys names, each once, in strictly
/// descending order. Keys that name no season are passed over.
pub fn available_seasons(keys: &Vec<String>) -> (r: Vec<u32>)
    ensures
        strictly_descending(r@),
        forall|x: u32|
            r@.contains(x) <==> exists|i: int|
                0 <= i < keys@.len() && key_season_id(#[trigger] keys@[i]@) == Some(x),
{
    let mut out: Vec<u32> = Vec::new();
    let mut i: usize = 0;
    while i < keys.len()
        invariant
            i <= keys@.len(),
            strictly_descending(out@),
            forall|x: u32|
                out@.contains(x) <==> exists|j: int|
                    0 <= j < i && key_season_id(#[trigger] keys@[j]@) == Some(x),
        decreases keys@.len() - i,
    {
        let parsed = parse_season_key(keys[i].as_str());
        let ghost before = out@;
        if let Some(id) = parsed {
            insert_descending(&mut out, id);
        }
        assert forall|x: u32|
            out@.contains(x) <==> exists|j: int|
                0 <= j < i + 1 && key_season_id(#[trigger] keys@[j]@) == Some(x) by {
            if out@.contains(x) && !before.contains(x) {
                assert(key_season_id(keys@[i as int]@) == Some(x));
            }
            if before.contains(x) {
                let j = choose|j: int| 0 <= j < i && key_season_id(#[trigger] keys@[j]@) == Some(x);
                assert(0 <= j < i + 1);
            }
        }
        i = i + 1;
    }
    out
}

} // verus!
