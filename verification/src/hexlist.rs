//! The exclusion list: identifiers parsed from a comma-separated list of
//! hexadecimal literals such as `"0x0A,0x1F"`. Each item is trimmed of
//! surrounding whitespace and must consist of the prefix `0x` followed by
//! hexadecimal digits whose value fits the identifier type; items of any
//! other shape are skipped.

use vstd::prelude::*;

verus! {

pub open spec fn is_space(b: u8) -> bool {
    b == 32 || b == 9 || b == 10 || b == 13
}

pub open spec fn is_hex_digit(b: u8) -> bool {
    (48 <= b <= 57) || (97 <= b <= 102) || (65 <= b <= 70)
}

pub open spec fn hex_digit_val(b: u8) -> int {
    if 48 <= b <= 57 {
        b - 48
    } else if 97 <= b <= 102 {
        b - 87
    } else {
        b - 55
    }
}

pub open spec fn all_hex(s: Seq<u8>) -> bool {
    forall|k: int| 0 <= k < s.len() ==> is_hex_digit(#[trigger] s[k])
}

/// The value of a big-endian string of hexadecimal digits.
pub open spec fn hex_value(s: Seq<u8>) -> int
    decreases s.len(),
{
    if s.len() == 0 {
        0
    } else {
        hex_value(s.drop_last()) * 16 + hex_digit_val(s.last())
    }
}

pub open spec fn trim_front(s: Seq<u8>) -> Seq<u8>
    decreases s.len(),
{
    if s.len() > 0 && is_space(s[0]) {
        trim_front(s.subrange(1, s.len() as int))
    } else {
        s
    }
}

pub open spec fn trim_back(s: Seq<u8>) -> Seq<u8>
    decreases s.len(),
{
    if s.len() > 0 && is_space(s.last()) {
        trim_back(s.drop_last())
    } else {
        s
    }
}

/// The bytes with surrounding whitespace removed.
pub open spec fn trim_spec(s: Seq<u8>) -> Seq<u8> {
    trim_back(trim_front(s))
}

/// One list item: after trimming it must read `0x` followed by at least one
/// hexadecimal digit, and the digits' value must fit; anything else is no
/// identifier.
pub open spec fn parse_token_spec(t: Seq<u8>) -> Option<u32> {
    let w = trim_spec(t);
    let digits = w.subrange(2, w.len() as int);
    if w.len() >= 3 && w[0] == 48 && w[1] == 120 && all_hex(digits) && hex_value(digits)
        <= u32::MAX {
        Some(hex_value(digits) as u32)
    } else {
        None
    }
}

/// The first separator (comma) at or after `pos`, or the end of the bytes.
pub open spec fn next_sep(s: Seq<u8>, pos: int) -> int
    decreases s.len() - pos,
{
    if pos >= s.len() || pos < 0 {
        s.len() as int
    } else if s[pos] == 44 {
        pos
    } else {
        next_sep(s, pos + 1)
    }
}

pub proof fn lemma_next_sep_bounds(s: Seq<u8>, pos: int)
    ensures
        pos <= next_sep(s, pos) || next_sep(s, pos) == s.len(),
        next_sep(s, pos) <= s.len(),
    decreases s.len() - pos,
{
    if !(pos >= s.len() || pos < 0) && s[pos] != 44 {
        lemma_next_sep_bounds(s, pos + 1);
    }
}

/// The identifiers parsed from the comma-separated items at or after `pos`.
/// (The clip of `pos` only keeps the item subrange well defined for
/// positions outside the bytes; parsing always starts at zero.)
pub open spec fn parse_list_from(s: Seq<u8>, pos: int) -> Seq<u32>
    decreases s.len() - pos
        via parse_list_from_decreases
{
    let j = next_sep(s, pos);
    let head = match parse_token_spec(s.subrange(if 0 <= pos <= s.len() { pos } else { 0 }, j)) {
        Some(v) => seq![v],
        None => Seq::empty(),
    };
    if j >= s.len() {
        head
    } else {
        head + parse_list_from(s, j + 1)
    }
}

#[via_fn]
proof fn parse_list_from_decreases(s: Seq<u8>, pos: int) {
    lemma_next_sep_bounds(s, pos);
}

/// The identifiers parsed from a whole exclusion list; an absent list parses
/// as an empty one.
pub open spec fn parse_list_spec(s: Seq<u8>) -> Seq<u32> {
    parse_list_from(s, 0)
}

proof fn lemma_hex_value_nonneg(s: Seq<u8>)
    requires
        all_hex(s),
    ensures
        hex_value(s) >= 0,
    decreases s.len(),
{
    if s.len() > 0 {
        assert(all_hex(s.drop_last()));
        lemma_hex_value_nonneg(s.drop_last());
        assert(hex_digit_val(s.last()) >= 0);
        assert(hex_value(s.drop_last()) * 16 >= 0) by (nonlinear_arith)
            requires hex_value(s.drop_last()) >= 0;
    }
}

/// A longer prefix of a digit string never has a smaller value.
proof fn lemma_hex_value_prefix_le(s: Seq<u8>, k: int)
    requires
        all_hex(s),
        0 <= k <= s.len(),
    ensures
        hex_value(s.take(k)) <= hex_value(s),
    decreases s.len() - k,
{
    if k < s.len() {
        lemma_hex_value_prefix_le(s, k + 1);
        assert(s.take(k + 1).drop_last() =~= s.take(k));
        assert(all_hex(s.take(k)));
        lemma_hex_value_nonneg(s.take(k));
        assert(hex_value(s.take(k)) * 16 >= hex_value(s.take(k))) by (nonlinear_arith)
            requires hex_value(s.take(k)) >= 0;
        assert(hex_digit_val(s.take(k + 1).last()) >= 0);
    } else {
        assert(s.take(k) =~= s);
    }
}

/// Whitespace at the front, up to `k`, is what `trim_front` removes.
proof fn lemma_trim_front_skip(s: Seq<u8>, k: int)
    requires
        0 <= k <= s.len(),
        forall|j: int| 0 <= j < k ==> is_space(#[trigger] s[j]),
        k == s.len() || !is_space(s[k]),
    ensures
        trim_front(s) == s.subrange(k, s.len() as int),
    decreases k,
{
    if k == 0 {
        assert(s.subrange(0, s.len() as int) =~= s);
    } else {
        let rest = s.subrange(1, s.len() as int);
        lemma_trim_front_skip(rest, k - 1);
        assert(rest.subrange(k - 1, rest.len() as int) =~= s.subrange(k, s.len() as int));
    }
}

/// Whitespace at the back, from `k` on, is what `trim_back` removes.
proof fn lemma_trim_back_take(s: Seq<u8>, k: int)
    requires
        0 <= k <= s.len(),
        forall|j: int| k <= j < s.len() ==> is_space(#[trigger] s[j]),
        k == 0 || !is_space(s[k - 1]),
    ensures
        trim_back(s) == s.take(k),
    decreases s.len() - k,
{
    if k == s.len() {
        assert(s.take(k) =~= s);
    } else {
        lemma_trim_back_take(s.drop_last(), k);
    }
}

/// Reads one trimmed item `bytes[lo..hi]` as a hexadecimal literal.
fn parse_token(bytes: &[u8], lo: usize, hi: usize) -> (r: Option<u32>)
    requires
        lo <= hi <= bytes@.len(),
    ensures
        r == parse_token_spec(bytes@.subrange(lo as int, hi as int)),
{
    let ghost t = bytes@.subrange(lo as int, hi as int);
    let mut a: usize = lo;
    while a < hi && is_space_byte(bytes[a])
        invariant
            lo <= a <= hi <= bytes@.len(),
            forall|j: int| lo <= j < a ==> is_space(#[trigger] bytes@[j]),
        decreases hi - a,
    {
        a = a + 1;
    }
    let mut b: usize = hi;
    while b > a && is_space_byte(bytes[b - 1])
        invariant
            a <= b <= hi <= bytes@.len(),
            forall|j: int| b <= j < hi ==> is_space(#[trigger] bytes@[j]),
        decreases b,
    {
        b = b - 1;
    }
    proof {
        lemma_trim_front_skip(t, a - lo);
        assert(t.subrange(a - lo, t.len() as int) =~= bytes@.subrange(a as int, hi as int));
        let front = bytes@.subrange(a as int, hi as int);
        lemma_trim_back_take(front, b - a);
        assert(front.take(b - a) =~= bytes@.subrange(a as int, b as int));
        assert(trim_spec(t) == bytes@.subrange(a as int, b as int));
    }
    let ghost w = trim_spec(t);
    if b - a < 3 {
        return None;
    }
    if bytes[a] != 48 || bytes[a + 1] != 120 {
        proof {
            assert(w[0] == bytes@[a as int]);
            assert(w[1] == bytes@[a as int + 1]);
        }
        return None;
    }
    proof {
        assert(w[0] == bytes@[a as int]);
        assert(w[1] == bytes@[a as int + 1]);
    }
    let ghost digits = w.subrange(2, w.len() as int);
    proof {
        assert(digits =~= bytes@.subrange(a as int + 2, b as int));
    }
    let mut val: u32 = 0;
    let mut k: usize = a + 2;
    while k < b
        invariant
            lo <= a,
            a + 2 <= k <= b <= hi <= bytes@.len(),
            t == bytes@.subrange(lo as int, hi as int),
            w == trim_spec(t),
            w == bytes@.subrange(a as int, b as int),
            w.len() >= 3,
            w[0] == 48 && w[1] == 120,
            digits == w.subrange(2, w.len() as int),
            digits == bytes@.subrange(a as int + 2, b as int),
            all_hex(digits.take(k - (a + 2))),
            val == hex_value(digits.take(k - (a + 2))),
        decreases b - k,
    {
        let c = bytes[k];
        let d: u32 = if 48 <= c && c <= 57 {
            (c - 48) as u32
        } else if 97 <= c && c <= 102 {
            (c - 87) as u32
        } else if 65 <= c && c <= 70 {
            (c - 55) as u32
        } else {
            proof {
                assert(digits[k - (a + 2)] == bytes@[k as int]);
                assert(!is_hex_digit(digits[k - (a + 2)]));
                assert(!all_hex(digits));
            }
            return None;
        };
        proof {
            assert(digits.take(k - (a + 2) + 1).drop_last() =~= digits.take(k - (a + 2)));
            assert(digits.take(k - (a + 2) + 1).last() == bytes@[k as int]);
        }
        if val > 0x0FFF_FFFF {
            proof {
                if all_hex(digits) {
                    let pre = digits.take(k - (a + 2) + 1);
                    assert(hex_value(pre) == val * 16 + d);
                    lemma_hex_value_prefix_le(digits, k - (a + 2) + 1);
                    assert(digits.take(digits.len() as int) =~= digits);
                    assert(hex_value(digits) > u32::MAX);
                }
            }
            return None;
        }
        val = val * 16 + d;
        k = k + 1;
    }
    proof {
        assert(digits.take(digits.len() as int) =~= digits);
        assert(w.len() >= 3 && w[0] == 48 && w[1] == 120);
        assert(all_hex(digits) && hex_value(digits) <= u32::MAX);
    }
    Some(val)
}

/// Whether a byte is ASCII whitespace.
fn is_space_byte(b: u8) -> (r: bool)
    ensures
        r == is_space(b),
{
    b == 32 || b == 9 || b == 10 || b == 13
}

/// Parses an exclusion list: a comma-separated sequence of hexadecimal
/// literals such as `"0x0A,0x0B"`, each trimmed of surrounding whitespace.
/// Items that are not such literals, or whose value does not fit, are
/// skipped. An absent or empty input yields no identifiers.
pub fn parse_hex_list(input: Option<String>) -> (r: Vec<u32>)
    ensures
        r@ == match input {
            Some(s) => parse_list_spec(vstd::utf8::encode_utf8(s@)),
            None => Seq::<u32>::empty(),
        },
{
    let mut out: Vec<u32> = Vec::new();
    let s = match input {
        None => {
            proof {
                assert(out@ =~= Seq::<u32>::empty());
            }
            return out;
        },
        Some(s) => s,
    };
    let bytes = s.as_str().as_bytes();
    let ghost b = bytes@;
    proof {
        assert(b == vstd::utf8::encode_utf8(s@));
    }
    let n = bytes.len();
    let mut pos: usize = 0;
    loop
        invariant_except_break
            parse_list_spec(b) =~= out@ + parse_list_from(b, pos as int),
        invariant
            pos <= n,
            n == b.len(),
            bytes@ == b,
        ensures
            out@ =~= parse_list_spec(b),
        decreases n - pos,
    {
        let mut j: usize = pos;
        while j < n && bytes[j] != 44
            invariant
                pos <= j <= n,
                n == b.len(),
                bytes@ == b,
                forall|k: int| pos <= k < j ==> b[k] != 44,
            decreases n - j,
        {
            j = j + 1;
        }
        proof {
            lemma_next_sep_at(b, pos as int, j as int);
        }
        let ghost head = match parse_token_spec(b.subrange(pos as int, j as int)) {
            Some(v) => seq![v],
            None => Seq::<u32>::empty(),
        };
        let ghost out_before = out@;
        match parse_token(bytes, pos, j) {
            Some(v) => out.push(v),
            None => {},
        }
        proof {
            assert(out@ =~= out_before + head);
        }
        if j >= n {
            proof {
                assert(parse_list_from(b, pos as int) == head);
                assert(out@ =~= parse_list_spec(b));
            }
            break;
        }
        proof {
            assert(parse_list_from(b, pos as int) == head + parse_list_from(b, j + 1));
            assert(out_before + parse_list_from(b, pos as int) =~= out@ + parse_list_from(
                b, j + 1,
            ));
        }
        pos = j + 1;
    }
    out
}

/// A scan that saw no separator up to `j`, and a separator or the end at `j`,
/// found the next separator.
proof fn lemma_next_sep_at(s: Seq<u8>, pos: int, j: int)
    requires
        0 <= pos <= j <= s.len(),
        forall|k: int| pos <= k < j ==> s[k] != 44,
        j == s.len() || s[j] == 44,
    ensures
        next_sep(s, pos) == j,
    decreases j - pos,
{
    if pos < j {
        lemma_next_sep_at(s, pos + 1, j);
    }
}

} // verus!
