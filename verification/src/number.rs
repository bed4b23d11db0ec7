//! Decimal numerals: `to_string` on unsigned integers and `str::parse::<usize>`.

use vstd::prelude::*;
use crate::text::{chars_of, string_of};

verus! {

/// The numeral character of the digit `d`.
pub open spec fn digit_char(d: nat) -> char {
    (48 + d) as char
}

/// Whether `c` is one of `'0'..='9'`.
pub open spec fn is_digit(c: char) -> bool {
    48 <= c as u32 <= 57
}

/// The digit that the numeral character `c` stands for.
pub open spec fn digit_value(c: char) -> nat {
    (c as u32 - 48) as nat
}

/// The decimal numeral of `n`, without leading zeros.
pub open spec fn decimal(n: nat) -> Seq<char>
    decreases n,
{
    if n < 10 {
        seq![digit_char(n)]
    } else {
        decimal(n / 10).push(digit_char(n % 10))
    }
}

/// Whether every character of `s` is a numeral.
pub open spec fn all_digits(s: Seq<char>) -> bool {
    forall|i: int| 0 <= i < s.len() ==> is_digit(#[trigger] s[i])
}

/// The number that the numerals `s` denote.
pub open spec fn value(s: Seq<char>) -> nat
    decreases s.len(),
{
    if s.len() == 0 {
        0
    } else {
        value(s.drop_last()) * 10 + digit_value(s.last())
    }
}

/// `s` without one leading `'+'`.
pub open spec fn strip_plus(s: Seq<char>) -> Seq<char> {
    if s.len() > 0 && s[0] == '+' {
        s.drop_first()
    } else {
        s
    }
}

/// Whether `str::parse::<usize>` accepts `s`: an optional `'+'`, then at least
/// one numeral and nothing else, denoting a number that fits in `usize`.
pub open spec fn parses_as_usize(s: Seq<char>) -> bool {
    let ds = strip_plus(s);
    &&& ds.len() > 0
    &&& all_digits(ds)
    &&& value(ds) <= usize::MAX
}

/// The numeral character of a digit.
fn digit_to_char(d: usize) -> (c: char)
    requires
        d < 10,
    ensures
        c == digit_char(d as nat),
{
    let b: u8 = 48u8 + (d as u8);
    b as char
}

/// The decimal numeral of `n`, as `usize::to_string` writes it.
pub fn decimal_chars(n: usize) -> (r: Vec<char>)
    ensures
        r@ == decimal(n as nat),
    decreases n,
{
    if n < 10 {
        let mut v: Vec<char> = Vec::new();
        v.push(digit_to_char(n));
        v
    } else {
        let mut v = decimal_chars(n / 10);
        v.push(digit_to_char(n % 10));
        v
    }
}

/// The decimal numeral of `n`, as `usize::to_string` writes it.
pub fn usize_to_string(n: usize) -> (s: String)
    ensures
        s@ == decimal(n as nat),
{
    let v = decimal_chars(n);
    string_of(v.as_slice())
}

/// The number that `s` denotes, or `None` where `str::parse::<usize>` fails.
pub fn parse_usize_chars(s: &[char]) -> (r: Option<usize>)
    ensures
        r == (if parses_as_usize(s@) {
            Some(value(strip_plus(s@)) as usize)
        } else {
            None::<usize>
        }),
{
    let n = s.len();
    let mut i: usize = 0;
    if n > 0 && s[0] == '+' {
        i = 1;
    }
    let ghost start = i as int;
    let ghost ds = strip_plus(s@);
    assert(ds =~= s@.skip(start));
    if i == n {
        return None;
    }
    let mut acc: usize = 0;
    let mut overflow = false;
    assert(s@.subrange(start, i as int) =~= Seq::<char>::empty());
    while i < n
        invariant
            0 < n == s@.len(),
            ds == s@.skip(start),
            ds == strip_plus(s@),
            0 <= start <= i <= n,
            forall|k: int| start <= k < i ==> is_digit(#[trigger] s@[k]),
            !overflow ==> acc == value(s@.subrange(start, i as int)),
            overflow ==> value(s@.subrange(start, i as int)) > usize::MAX,
        decreases n - i,
    {
        let c = s[i];
        let u = c as u32;
        if u < 48 || u > 57 {
            assert(ds[i - start] == s@[i as int]);
            assert(!is_digit(ds[i - start]));
            return None;
        }
        let d: usize = (u - 48) as usize;
        let ghost pre = s@.subrange(start, i as int);
        let ghost cur = s@.subrange(start, i + 1);
        assert(cur.drop_last() =~= pre);
        assert(cur.last() == c);
        assert(value(cur) == value(pre) * 10 + d);
        if !overflow {
            if acc > (usize::MAX - d) / 10 {
                assert(acc * 10 + d > usize::MAX) by (nonlinear_arith)
                    requires
                        acc > (usize::MAX - d) / 10,
                        d < 10,
                ;
                overflow = true;
            } else {
                assert(acc * 10 + d <= usize::MAX) by (nonlinear_arith)
                    requires
                        acc <= (usize::MAX - d) / 10,
                        d < 10,
                ;
                acc = acc * 10 + d;
            }
        } else {
            assert(value(pre) * 10 + d > usize::MAX) by (nonlinear_arith)
                requires
                    value(pre) > usize::MAX,
            ;
        }
        i = i + 1;
    }
    assert(s@.subrange(start, n as int) =~= ds);
    if overflow {
        None
    } else {
        Some(acc)
    }
}

/// A customer number as the servers read it from a message: the number that
/// the whole text denotes, or 0 where `str::parse::<usize>` rejects it.
pub fn parse_customer_id(text: &str) -> (id: usize)
    ensures
        id == (if parses_as_usize(text@) {
            value(strip_plus(text@)) as usize
        } else {
            0
        }),
{
    let v = chars_of(text);
    match parse_usize_chars(v.as_slice()) {
        Some(n) => n,
        None => 0,
    }
}


/// The numeral of `n` is a non-empty run of digits that denotes `n`.
pub proof fn lemma_decimal(n: nat)
    ensures
        decimal(n).len() > 0,
        all_digits(decimal(n)),
        value(decimal(n)) == n,
    decreases n,
{
    if n < 10 {
        assert(decimal(n).drop_last() =~= Seq::<char>::empty());
        assert(digit_value(digit_char(n)) == n);
        assert(value(Seq::<char>::empty()) == 0);
        assert(value(decimal(n)) == value(decimal(n).drop_last()) * 10 + digit_value(decimal(n).last()));
    } else {
        lemma_decimal(n / 10);
        assert(decimal(n).drop_last() =~= decimal(n / 10));
        assert(digit_value(digit_char(n % 10)) == n % 10);
        assert(n == (n / 10) * 10 + n % 10);
        assert(value(decimal(n)) == value(decimal(n).drop_last()) * 10 + digit_value(decimal(n).last()));
    }
}

/// A number written with `usize::to_string` reads back, through
/// `str::parse::<usize>`, as the same number: the customer number that the API
/// server sends is the one that the proxy and VPN servers act on.
pub proof fn customer_id_round_trip(n: usize)
    ensures
        parses_as_usize(decimal(n as nat)),
        value(strip_plus(decimal(n as nat))) == n,
{
    lemma_decimal(n as nat);
    assert(is_digit(decimal(n as nat)[0]));
    assert(strip_plus(decimal(n as nat)) == decimal(n as nat));
}

} // verus!
