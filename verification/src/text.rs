//! Character-level helpers shared by the router and the response writer:
//! exact string comparison, decimal rendering and parsing, and the spec-level
//! split and trim functions that the path matcher is specified with.
use vstd::prelude::*;

verus! {

/// Compares two string slices character by character.
pub fn str_eq(a: &str, b: &str) -> (r: bool)
    ensures
        r == (a@ == b@),
{
    let alen = a.unicode_len();
    let blen = b.unicode_len();
    if alen != blen {
        assert(a@ != b@) by {
            assert(a@.len() != b@.len());
        }
        return false;
    }
    let mut i: usize = 0;
    while i < alen
        invariant
            alen == a@.len(),
            blen == b@.len(),
            alen == blen,
            0 <= i <= alen,
            forall|j: int| 0 <= j < i ==> a@[j] == b@[j],
        decreases alen - i,
    {
        if a.get_char(i) != b.get_char(i) {
            return false;
        }
        i += 1;
    }
    proof {
        assert(a@ =~= b@);
    }
    true
}

/// Whether a character is a decimal digit.
pub open spec fn is_digit(c: char) -> bool {
    '0' <= c && c <= '9'
}

/// The numeric value of a digit character.
pub open spec fn digit_val(c: char) -> nat {
    (c as nat - '0' as nat) as nat
}

/// Whether every character of `s` is a decimal digit.
pub open spec fn all_digits(s: Seq<char>) -> bool {
    forall|i: int| 0 <= i < s.len() ==> is_digit(#[trigger] s[i])
}

/// The number denoted by a sequence of decimal digits (most significant first).
pub open spec fn dec_value(s: Seq<char>) -> nat
    decreases s.len(),
{
    if s.len() == 0 {
        0
    } else {
        dec_value(s.drop_last()) * 10 + digit_val(s.last())
    }
}

/// The canonical decimal rendering of a number, without leading zeros.
pub open spec fn dec_chars(n: nat) -> Seq<char>
    decreases n,
{
    if n < 10 {
        seq![digit_char(n)]
    } else {
        dec_chars(n / 10).push(digit_char(n % 10))
    }
}

/// The digit character for a value below ten.
pub open spec fn digit_char(n: nat) -> char {
    if n == 0 { '0' }
    else if n == 1 { '1' }
    else if n == 2 { '2' }
    else if n == 3 { '3' }
    else if n == 4 { '4' }
    else if n == 5 { '5' }
    else if n == 6 { '6' }
    else if n == 7 { '7' }
    else if n == 8 { '8' }
    else { '9' }
}

/// The canonical decimal rendering is never empty, consists of digits
/// alone, and parses back to the number it was made from: a written
/// `Content-Length` denotes exactly the length it was computed from.
pub proof fn lemma_dec_round_trip(n: nat)
    ensures
        dec_chars(n).len() > 0,
        all_digits(dec_chars(n)),
        dec_value(dec_chars(n)) == n,
    decreases n,
{
    assert('0' as nat == 48 && '1' as nat == 49 && '2' as nat == 50 && '3' as nat == 51
        && '4' as nat == 52 && '5' as nat == 53 && '6' as nat == 54 && '7' as nat == 55
        && '8' as nat == 56 && '9' as nat == 57);
    if n < 10 {
        assert(seq![digit_char(n)].drop_last() =~= Seq::<char>::empty());
        assert(dec_value(Seq::<char>::empty()) == 0);
        assert(digit_val(digit_char(n)) == n);
        assert(is_digit(digit_char(n)));
    } else {
        lemma_dec_round_trip(n / 10);
        let pre = dec_chars(n / 10);
        let d = digit_char(n % 10);
        assert(pre.push(d).drop_last() =~= pre);
        assert(pre.push(d).last() == d);
        assert(digit_val(d) == n % 10);
        vstd::arithmetic::div_mod::lemma_fundamental_div_mod(n as int, 10);
        assert(all_digits(pre.push(d))) by {
            assert(forall|i: int| 0 <= i < pre.len() ==> pre.push(d)[i] == pre[i]);
        }
    }
}

/// A single-character string for a digit value.
fn digit_str(d: u64) -> (r: &'static str)
    requires
        d < 10,
    ensures
        r@ =~= seq![digit_char(d as nat)],
{
    proof {
        reveal_strlit("0");
        reveal_strlit("1");
        reveal_strlit("2");
        reveal_strlit("3");
        reveal_strlit("4");
        reveal_strlit("5");
        reveal_strlit("6");
        reveal_strlit("7");
        reveal_strlit("8");
        reveal_strlit("9");
    }
    if d == 0 { "0" }
    else if d == 1 { "1" }
    else if d == 2 { "2" }
    else if d == 3 { "3" }
    else if d == 4 { "4" }
    else if d == 5 { "5" }
    else if d == 6 { "6" }
    else if d == 7 { "7" }
    else if d == 8 { "8" }
    else { "9" }
}

/// Renders a number in decimal, most significant digit first.
pub fn to_dec_string(n: u64) -> (r: String)
    ensures
        r@ == dec_chars(n as nat),
    decreases n,
{
    if n < 10 {
        String::from_str(digit_str(n))
    } else {
        let prefix = to_dec_string(n / 10);
        prefix.concat(digit_str(n % 10))
    }
}

} // verus!


verus! {

/// `s` with every leading `c` removed.
pub open spec fn trim_start_char(s: Seq<char>, c: char) -> Seq<char>
    decreases s.len(),
{
    if s.len() > 0 && s[0] == c {
        trim_start_char(s.skip(1), c)
    } else {
        s
    }
}

/// `s` with every trailing `c` removed.
pub open spec fn trim_end_char(s: Seq<char>, c: char) -> Seq<char>
    decreases s.len(),
{
    if s.len() > 0 && s.last() == c {
        trim_end_char(s.drop_last(), c)
    } else {
        s
    }
}

/// Removes every trailing `trail` and then every leading `lead` character.
pub fn trim_pair(s: &str, lead: char, trail: char) -> (r: &str)
    ensures
        r@ == trim_start_char(trim_end_char(s@, trail), lead),
{
    let n = s.unicode_len();
    let mut end: usize = n;
    proof {
        assert(s@.subrange(0, n as int) =~= s@);
    }
    while end > 0 && s.get_char(end - 1) == trail
        invariant
            0 <= end <= n,
            n == s@.len(),
            trim_end_char(s@, trail) == trim_end_char(s@.subrange(0, end as int), trail),
        decreases end,
    {
        proof {
            assert(s@.subrange(0, end as int).drop_last() =~= s@.subrange(0, end - 1));
        }
        end -= 1;
    }
    let ghost trimmed = s@.subrange(0, end as int);
    proof {
        assert(trim_end_char(s@, trail) == trimmed);
    }
    let mut start: usize = 0;
    while start < end && s.get_char(start) == lead
        invariant
            0 <= start <= end <= n,
            n == s@.len(),
            trim_end_char(s@, trail) == trimmed,
            trimmed == s@.subrange(0, end as int),
            trim_start_char(trimmed, lead) == trim_start_char(s@.subrange(start as int, end as int), lead),
        decreases end - start,
    {
        proof {
            assert(s@.subrange(start as int, end as int).skip(1) =~= s@.subrange(start + 1, end as int));
        }
        start += 1;
    }
    let r = s.substring_char(start, end);
    proof {
        assert(r@ == trim_start_char(trim_end_char(s@, trail), lead));
    }
    r
}

/// The pieces of `s` between occurrences of `sep`, in order; empty pieces kept.
/// A separator-free `s`, including the empty one, yields the single piece `s`.
pub open spec fn split_char(s: Seq<char>, sep: char) -> Seq<Seq<char>>
    decreases s.len(),
{
    if s.len() == 0 {
        seq![s]
    } else {
        let rest = split_char(s.drop_last(), sep);
        if s.last() == sep {
            rest.push(Seq::empty())
        } else {
            rest.update(rest.len() - 1, rest.last().push(s.last()))
        }
    }
}

/// Splitting yields at least one piece.
pub proof fn lemma_split_char_len(s: Seq<char>, sep: char)
    ensures
        split_char(s, sep).len() >= 1,
    decreases s.len(),
{
    if s.len() > 0 {
        lemma_split_char_len(s.drop_last(), sep);
    }
}

/// Splits `s` at every occurrence of `sep`, keeping empty pieces.
pub fn split_str(s: &str, sep: char) -> (r: Vec<String>)
    ensures
        r@.map_values(|x: String| x@) == split_char(s@, sep),
{
    let n = s.unicode_len();
    let mut segs: Vec<String> = Vec::new();
    let mut seg_start: usize = 0;
    let mut i: usize = 0;
    while i < n
        invariant
            0 <= seg_start <= i <= n,
            n == s@.len(),
            split_char(s@.subrange(0, i as int), sep)
                == segs@.map_values(|x: String| x@).push(s@.subrange(seg_start as int, i as int)),
        decreases n - i,
    {
        let ghost pre = s@.subrange(0, i as int);
        let ghost cur = s@.subrange(seg_start as int, i as int);
        let c = s.get_char(i);
        proof {
            assert(s@.subrange(0, i + 1).drop_last() =~= pre);
            assert(s@.subrange(0, i + 1).last() == s@[i as int]);
        }
        if c == sep {
            let piece = s.substring_char(seg_start, i).to_owned();
            segs.push(piece);
            seg_start = i + 1;
            proof {
                assert(segs@.map_values(|x: String| x@) =~= segs@.drop_last().map_values(|x: String| x@).push(cur));
                assert(s@.subrange(seg_start as int, i + 1) =~= Seq::<char>::empty());
                assert(split_char(s@.subrange(0, i + 1), sep)
                    == segs@.map_values(|x: String| x@).push(s@.subrange(seg_start as int, i + 1)));
            }
        } else {
            proof {
                let m = segs@.map_values(|x: String| x@);
                lemma_split_char_len(pre, sep);
                assert(m.push(cur).last() == cur);
                assert(m.push(cur).update(m.len() as int, cur.push(s@[i as int])) =~= m.push(cur.push(s@[i as int])));
                assert(cur.push(s@[i as int]) =~= s@.subrange(seg_start as int, i + 1));
                assert(split_char(s@.subrange(0, i + 1), sep)
                    == m.push(s@.subrange(seg_start as int, i + 1)));
            }
        }
        i += 1;
    }
    let piece = s.substring_char(seg_start, n).to_owned();
    segs.push(piece);
    proof {
        assert(s@.subrange(0, n as int) =~= s@);
        assert(segs@.map_values(|x: String| x@) =~= segs@.drop_last().map_values(|x: String| x@).push(s@.subrange(seg_start as int, n as int)));
    }
    segs
}

/// Parses a sequence of decimal digits as a machine-sized number.
/// Fails on the empty string, on any non-digit character, and on overflow.
pub fn parse_usize(s: &str) -> (r: Option<usize>)
    ensures
        match r {
            Some(v) => s@.len() > 0 && all_digits(s@) && dec_value(s@) <= usize::MAX && v == dec_value(s@),
            None => s@.len() == 0 || !all_digits(s@) || dec_value(s@) > usize::MAX,
        },
{
    let n = s.unicode_len();
    if n == 0 {
        return None;
    }
    let mut v: usize = 0;
    let mut i: usize = 0;
    while i < n
        invariant
            0 < n == s@.len(),
            0 <= i <= n,
            forall|j: int| 0 <= j < i ==> is_digit(#[trigger] s@[j]),
            v == dec_value(s@.subrange(0, i as int)),
        decreases n - i,
    {
        let c = s.get_char(i);
        if c < '0' || c > '9' {
            return None;
        }
        let d: usize = (c as u32 as usize) - 48;
        proof {
            assert(s@.subrange(0, i + 1).drop_last() =~= s@.subrange(0, i as int));
            assert(s@.subrange(0, i + 1).last() == s@[i as int]);
            assert(d == digit_val(s@[i as int]));
        }
        let scaled = match v.checked_mul(10) {
            Some(x) => x,
            None => {
                proof {
                    lemma_dec_value_extend(s@, i + 1);
                    assert(dec_value(s@.subrange(0, i + 1)) > usize::MAX) by {
                        assert(v * 10 > usize::MAX);
                    }
                }
                return None;
            },
        };
        let next = match scaled.checked_add(d) {
            Some(x) => x,
            None => {
                proof {
                    lemma_dec_value_extend(s@, i + 1);
                }
                return None;
            },
        };
        v = next;
        i += 1;
    }
    proof {
        assert(s@.subrange(0, n as int) =~= s@);
    }
    Some(v)
}

/// A prefix of a digit string never denotes more than the whole string.
proof fn lemma_dec_value_extend(s: Seq<char>, j: int)
    requires
        0 <= j <= s.len(),
    ensures
        dec_value(s.subrange(0, j)) <= dec_value(s),
    decreases s.len() - j,
{
    if j < s.len() {
        lemma_dec_value_extend(s, j + 1);
        let a = dec_value(s.subrange(0, j));
        let b = dec_value(s.subrange(0, j + 1));
        assert(s.subrange(0, j + 1).drop_last() =~= s.subrange(0, j));
        assert(b == a * 10 + digit_val(s.subrange(0, j + 1).last()));
        assert(a * 10 >= a) by (nonlinear_arith)
            requires a >= 0;
    } else {
        assert(s.subrange(0, j) =~= s);
    }
}

} // verus!
