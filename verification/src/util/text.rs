//! Decimal numbers written as text.

use vstd::prelude::*;

verus! {

/// A character among `'0'..='9'`.
pub open spec fn is_digit(c: char) -> bool {
    '0' <= c && c <= '9'
}

/// The value of a decimal digit.
pub open spec fn digit_value(c: char) -> int {
    (c as int) - ('0' as int)
}

/// The character of a digit value below ten.
pub open spec fn digit_char(d: int) -> char {
    (d + ('0' as int)) as char
}

pub open spec fn all_digits(s: Seq<char>) -> bool {
    forall|i: int| 0 <= i < s.len() ==> is_digit(#[trigger] s[i])
}

/// The number that a string of decimal digits denotes.
pub open spec fn digits_value(s: Seq<char>) -> int
    decreases s.len(),
{
    if s.len() == 0 {
        0
    } else {
        digits_value(s.drop_last()) * 10 + digit_value(s.last())
    }
}

/// The integer denoted by an optional sign followed by at least one decimal
/// digit, as std's `FromStr` for signed integers reads it.
pub open spec fn signed_value(s: Seq<char>) -> Option<int> {
    if s.len() > 0 && (s[0] == '+' || s[0] == '-') {
        let d = s.drop_first();
        if d.len() > 0 && all_digits(d) {
            Some(if s[0] == '-' { -digits_value(d) } else { digits_value(d) })
        } else {
            None
        }
    } else if s.len() > 0 && all_digits(s) {
        Some(digits_value(s))
    } else {
        None
    }
}

/// The integer denoted by an optional `'+'` followed by at least one decimal
/// digit, as std's `FromStr` for unsigned integers reads it.
pub open spec fn unsigned_value(s: Seq<char>) -> Option<int> {
    if s.len() > 0 && s[0] == '-' {
        None
    } else {
        signed_value(s)
    }
}

/// What `str::parse::<i32>` gives.
pub open spec fn parse_i32_spec(s: Seq<char>) -> Option<i32> {
    match signed_value(s) {
        Some(v) => if i32::MIN <= v <= i32::MAX { Some(v as i32) } else { None },
        None => None,
    }
}

/// What `str::parse::<u16>` gives.
pub open spec fn parse_u16_spec(s: Seq<char>) -> Option<u16> {
    match unsigned_value(s) {
        Some(v) => if 0 <= v <= u16::MAX { Some(v as u16) } else { None },
        None => None,
    }
}

/// The shortest decimal digits of a natural number.
pub open spec fn nat_digits(n: nat) -> Seq<char>
    decreases n,
{
    if n < 10 {
        seq![digit_char(n as int)]
    } else {
        nat_digits(n / 10).push(digit_char((n % 10) as int))
    }
}

/// How `Display` writes an integer: a `'-'` before negative numbers, then the
/// shortest decimal digits.
pub open spec fn int_text(v: int) -> Seq<char> {
    if v < 0 {
        seq!['-'] + nat_digits((-v) as nat)
    } else {
        nat_digits(v as nat)
    }
}

pub proof fn lemma_nat_digits(n: nat)
    ensures
        nat_digits(n).len() > 0,
        all_digits(nat_digits(n)),
        digits_value(nat_digits(n)) == n,
    decreases n,
{
    if n >= 10 {
        lemma_nat_digits(n / 10);
        let s = nat_digits(n);
        assert(s.drop_last() =~= nat_digits(n / 10));
        lemma_digit_char((n % 10) as int);
        assert(digits_value(s) == digits_value(s.drop_last()) * 10 + digit_value(s.last()));
    } else {
        lemma_digit_char(n as int);
        let s = nat_digits(n);
        assert(s.drop_last() =~= Seq::<char>::empty());
        assert(digits_value(s.drop_last()) == 0);
    }
}

pub proof fn lemma_digit_char(d: int)
    requires
        0 <= d < 10,
    ensures
        is_digit(digit_char(d)),
        digit_value(digit_char(d)) == d,
{
}

/// Reading back the text of an integer gives the integer.
pub proof fn lemma_int_text_parses(v: int)
    ensures
        signed_value(int_text(v)) == Some(v),
{
    if v < 0 {
        let n = (-v) as nat;
        lemma_nat_digits(n);
        assert(int_text(v).drop_first() =~= nat_digits(n));
    } else {
        lemma_nat_digits(v as nat);
    }
}

proof fn lemma_digits_value_prefix(s: Seq<char>, k: int)
    requires
        0 <= k <= s.len(),
        all_digits(s),
    ensures
        digits_value(s.subrange(0, k)) <= digits_value(s),
        digits_value(s) >= 0,
    decreases s.len(),
{
    if s.len() > 0 {
        lemma_digits_value_prefix(s.drop_last(), if k == s.len() { k - 1 } else { k });
        if k == s.len() {
            assert(s.subrange(0, k) =~= s);
        } else {
            assert(s.drop_last().subrange(0, k) =~= s.subrange(0, k));
        }
    }
}

/// Reads a run of decimal digits, giving `None` when a character is not a
/// digit or the value exceeds `bound`.
fn read_digits(s: &str, start: usize, bound: u64) -> (r: Option<u64>)
    requires
        start <= s@.len(),
        bound <= u32::MAX,
    ensures
        match r {
            Some(v) => all_digits(s@.skip(start as int)) && v == digits_value(s@.skip(start as int))
                && v <= bound,
            None => !(all_digits(s@.skip(start as int)) && digits_value(s@.skip(start as int))
                <= bound),
        },
{
    let n = s.unicode_len();
    let ghost d = s@.skip(start as int);
    let mut i = start;
    let mut acc: u64 = 0;
    while i < n
        invariant
            start <= i <= n,
            n == s@.len(),
            d == s@.skip(start as int),
            bound <= u32::MAX,
            all_digits(d.subrange(0, i - start)),
            acc == digits_value(d.subrange(0, i - start)),
            acc <= bound,
        decreases n - i,
    {
        let c = s.get_char(i);
        if !('0' <= c && c <= '9') {
            proof {
                assert(d[i - start] == c);
            }
            return None;
        }
        let dv = (c as u64) - ('0' as u64);
        let next = acc * 10 + dv;
        proof {
            let p = d.subrange(0, i - start + 1);
            assert(p.drop_last() =~= d.subrange(0, i - start));
            assert(p.last() == c);
        }
        if next > bound {
            proof {
                if all_digits(d) {
                    lemma_digits_value_prefix(d, i - start + 1);
                }
            }
            return None;
        }
        acc = next;
        i = i + 1;
    }
    proof {
        assert(d.subrange(0, i - start) =~= d);
    }
    Some(acc)
}

/// Parses a signed 32-bit integer as `str::parse::<i32>` does.
pub fn parse_i32(s: &str) -> (r: Option<i32>)
    ensures
        r == parse_i32_spec(s@),
{
    let n = s.unicode_len();
    if n == 0 {
        return None;
    }
    let c0 = s.get_char(0);
    if c0 == '+' || c0 == '-' {
        if n == 1 {
            return None;
        }
        let neg = c0 == '-';
        let bound: u64 = if neg { 2147483648 } else { 2147483647 };
        let r = read_digits(s, 1, bound);
        proof {
            assert(s@.skip(1) =~= s@.drop_first());
        }
        match r {
            Some(v) => {
                if neg {
                    Some((0 - (v as i64)) as i32)
                } else {
                    Some(v as i32)
                }
            },
            None => None,
        }
    } else {
        let r = read_digits(s, 0, 2147483647);
        proof {
            assert(s@.skip(0) =~= s@);
        }
        match r {
            Some(v) => Some(v as i32),
            None => None,
        }
    }
}

/// Parses an unsigned 16-bit integer as `str::parse::<u16>` does.
pub fn parse_u16(s: &str) -> (r: Option<u16>)
    ensures
        r == parse_u16_spec(s@),
{
    let n = s.unicode_len();
    if n == 0 {
        return None;
    }
    let c0 = s.get_char(0);
    if c0 == '-' {
        return None;
    }
    if c0 == '+' {
        if n == 1 {
            return None;
        }
        let r = read_digits(s, 1, 65535);
        proof {
            assert(s@.skip(1) =~= s@.drop_first());
        }
        match r {
            Some(v) => Some(v as u16),
            None => None,
        }
    } else {
        let r = read_digits(s, 0, 65535);
        proof {
            assert(s@.skip(0) =~= s@);
        }
        match r {
            Some(v) => Some(v as u16),
            None => None,
        }
    }
}

/// The one-character text of a digit.
fn digit_str(d: u64) -> (s: &'static str)
    requires
        d < 10,
    ensures
        s@ == seq![digit_char(d as int)],
{
    proof {
        reveal_strlit("0");
        reveal_strlit("1");
        reveal_strlit("2");
        reveal_strlit("3");
        reveal_strlit("4");
        reveal_strlit("5");
        reveal_strlit("6");
        reveal_strlit("7");
        reveal_strlit("8");
        reveal_strlit("9");
    }
    let s = match d {
        0 => "0",
        1 => "1",
        2 => "2",
        3 => "3",
        4 => "4",
        5 => "5",
        6 => "6",
        7 => "7",
        8 => "8",
        _ => "9",
    };
    assert(s@ =~= seq![digit_char(d as int)]);
    s
}

/// Appends the shortest decimal digits of `n` to `out`.
pub fn push_nat_digits(out: &mut String, n: u64)
    ensures
        final(out)@ == old(out)@ + nat_digits(n as nat),
{
    // The digits, least significant first.
    let mut rev: Vec<u64> = Vec::new();
    let mut m = n;
    let ghost mut k: nat = 0;
    while m >= 10
        invariant
            rev.len() == k,
            forall|j: int| 0 <= j < rev.len() ==> rev[j] < 10,
            m <= n,
            nat_digits(n as nat) =~= nat_digits(m as nat) + Seq::new(k, |j: int| digit_char(rev[k - 1 - j] as int)),
        decreases m,
    {
        proof {
            let tail = Seq::new(k, |j: int| digit_char(rev[k - 1 - j] as int));
            assert(nat_digits(m as nat) == nat_digits((m / 10) as nat).push(digit_char((m % 10) as int)));
        }
        let ghost old_rev = rev@;
        rev.push(m % 10);
        proof {
            let old_tail = Seq::new(k, |j: int| digit_char(old_rev[k - 1 - j] as int));
            let new_tail = Seq::new(k + 1, |j: int| digit_char(rev[k - j] as int));
            assert(new_tail =~= seq![digit_char((m % 10) as int)] + old_tail);
            k = k + 1;
        }
        m = m / 10;
    }
    out.append(digit_str(m));
    let mut i = rev.len();
    while i > 0
        invariant
            i <= rev.len(),
            rev.len() == k,
            forall|j: int| 0 <= j < rev.len() ==> rev[j] < 10,
            m < 10,
            nat_digits(n as nat) =~= seq![digit_char(m as int)] + Seq::new(k, |j: int| digit_char(rev[k - 1 - j] as int)),
            out@ =~= old(out)@ + seq![digit_char(m as int)] + Seq::new((k - i) as nat, |j: int| digit_char(rev[k - 1 - j] as int)),
        decreases i,
    {
        i = i - 1;
        out.append(digit_str(rev[i]));
    }
}

/// The text of a 32-bit integer, as `Display` writes it.
pub fn i32_text(v: i32) -> (r: String)
    ensures
        r@ == int_text(v as int),
{
    let mut out = String::new();
    if v < 0 {
        out.append("-");
        proof {
            reveal_strlit("-");
        }
        let m: i64 = 0 - (v as i64);
        push_nat_digits(&mut out, m as u64);
    } else {
        push_nat_digits(&mut out, v as u64);
    }
    out
}

} // verus!
