//! Character-level text handling: decimal integers and splitting at a separator.

use vstd::prelude::*;

verus! {

/// Appends a character to a string.
///
/// Trusted: calls `String::push`, which the standard library documents as appending the given
/// `char` to the end of the string.
#[verifier::external_body]
pub(crate) fn push_char(s: &mut String, c: char)
    ensures
        final(s)@ == old(s)@.push(c),
{
    s.push(c);
}

/// The characters of a string slice, in order.
pub fn chars_of(s: &str) -> (v: Vec<char>)
    ensures
        v@ == s@,
{
    let n = s.unicode_len();
    let mut v: Vec<char> = Vec::with_capacity(n);
    let mut i: usize = 0;
    while i < n
        invariant
            n == s@.len(),
            i <= n,
            v@ == s@.subrange(0, i as int),
        decreases n - i,
    {
        v.push(s.get_char(i));
        i += 1;
        assert(v@ =~= s@.subrange(0, i as int));
    }
    assert(v@ =~= s@);
    v
}

/// Appends the characters of `t` to a string.
pub fn push_chars(s: &mut String, t: &Vec<char>)
    ensures
        final(s)@ == old(s)@ + t@,
{
    let mut i: usize = 0;
    while i < t.len()
        invariant
            i <= t.len(),
            s@ == old(s)@ + t@.subrange(0, i as int),
        decreases t.len() - i,
    {
        push_char(s, t[i]);
        i += 1;
        assert(s@ =~= old(s)@ + t@.subrange(0, i as int));
    }
    assert(t@.subrange(0, t.len() as int) =~= t@);
}

/// The character of decimal digit `d`.
pub open spec fn digit_char(d: int) -> char {
    (d + 48) as char
}

pub open spec fn is_digit(c: char) -> bool {
    '0' <= c <= '9'
}

/// The decimal digits of a natural number, without leading zeros.
pub open spec fn natural_digits(n: nat) -> Seq<char>
    decreases n,
{
    if n < 10 {
        seq![digit_char(n as int)]
    } else {
        natural_digits(n / 10).push(digit_char((n % 10) as int))
    }
}

/// The decimal form of an integer, with a leading `-` when it is negative.
pub open spec fn decimal(v: int) -> Seq<char> {
    if v < 0 {
        seq!['-'] + natural_digits((-v) as nat)
    } else {
        natural_digits(v as nat)
    }
}

/// The value of a string of decimal digits.
pub open spec fn digits_value(s: Seq<char>) -> int
    decreases s.len(),
{
    if s.len() == 0 {
        0
    } else {
        10 * digits_value(s.drop_last()) + (s.last() as int - 48)
    }
}

pub open spec fn all_digits(s: Seq<char>) -> bool {
    forall|i: int| 0 <= i < s.len() ==> is_digit(#[trigger] s[i])
}

/// How `i32`'s `FromStr` reads a string: an optional `+` or `-`, then at least one ASCII digit
/// and nothing else, with a value that fits in an `i32`.
pub open spec fn parse_i32(s: Seq<char>) -> Option<i32> {
    let neg = s.len() > 0 && s[0] == '-';
    let body = if s.len() > 0 && (s[0] == '-' || s[0] == '+') {
        s.drop_first()
    } else {
        s
    };
    let v = if neg {
        -digits_value(body)
    } else {
        digits_value(body)
    };
    if body.len() > 0 && all_digits(body) && i32::MIN <= v <= i32::MAX {
        Some(v as i32)
    } else {
        None
    }
}

fn digit_to_char(d: u32) -> (c: char)
    requires
        d < 10,
    ensures
        c == digit_char(d as int),
{
    if d == 0 {
        '0'
    } else if d == 1 {
        '1'
    } else if d == 2 {
        '2'
    } else if d == 3 {
        '3'
    } else if d == 4 {
        '4'
    } else if d == 5 {
        '5'
    } else if d == 6 {
        '6'
    } else if d == 7 {
        '7'
    } else if d == 8 {
        '8'
    } else {
        '9'
    }
}

/// The decimal digits of `n`.
pub fn natural_to_chars(n: u64) -> (v: Vec<char>)
    ensures
        v@ == natural_digits(n as nat),
    decreases n,
{
    if n < 10 {
        let mut v: Vec<char> = Vec::new();
        v.push(digit_to_char(n as u32));
        assert(v@ =~= natural_digits(n as nat));
        v
    } else {
        let mut v = natural_to_chars(n / 10);
        v.push(digit_to_char((n % 10) as u32));
        v
    }
}

/// The decimal form of an `i32`, as `format!("{}", v)` writes it.
pub fn i32_to_chars(v: i32) -> (r: Vec<char>)
    ensures
        r@ == decimal(v as int),
{
    if v < 0 {
        let m: u64 = (-(v as i64)) as u64;
        let digits = natural_to_chars(m);
        let mut r: Vec<char> = Vec::new();
        r.push('-');
        let mut i: usize = 0;
        while i < digits.len()
            invariant
                i <= digits.len(),
                r@ == seq!['-'] + digits@.subrange(0, i as int),
            decreases digits.len() - i,
        {
            r.push(digits[i]);
            i += 1;
            assert(r@ =~= seq!['-'] + digits@.subrange(0, i as int));
        }
        assert(digits@.subrange(0, digits.len() as int) =~= digits@);
        r
    } else {
        natural_to_chars(v as u64)
    }
}

/// Reads the characters `s[lo..hi]` as an `i32`, as `str::parse::<i32>` does.
pub fn parse_i32_chars(s: &Vec<char>, lo: usize, hi: usize) -> (r: Option<i32>)
    requires
        lo <= hi <= s.len(),
    ensures
        r == parse_i32(s@.subrange(lo as int, hi as int)),
{
    let ghost t = s@.subrange(lo as int, hi as int);
    if lo == hi {
        return None;
    }
    let neg = s[lo] == '-';
    let start = if s[lo] == '-' || s[lo] == '+' {
        lo + 1
    } else {
        lo
    };
    let ghost body = s@.subrange(start as int, hi as int);
    assert(body =~= (if t.len() > 0 && (t[0] == '-' || t[0] == '+') {
        t.drop_first()
    } else {
        t
    }));
    if start == hi {
        return None;
    }
    let mut acc: i64 = 0;
    let mut i: usize = start;
    while i < hi
        invariant
            lo <= start <= i <= hi <= s.len(),
            body == s@.subrange(start as int, hi as int),
            t == s@.subrange(lo as int, hi as int),
            t.len() > 0,
            body.len() > 0,
            neg == (t[0] == '-'),
            body == (if t[0] == '-' || t[0] == '+' {
                t.drop_first()
            } else {
                t
            }),
            acc == digits_value(s@.subrange(start as int, i as int)),
            0 <= acc <= 2147483648,
            all_digits(s@.subrange(start as int, i as int)),
        decreases hi - i,
    {
        let c = s[i];
        if !('0' <= c && c <= '9') {
            assert(body[i - start] == c);
            assert(!all_digits(body));
            return None;
        }
        let d = (c as u32 - 48) as i64;
        let ghost prev = s@.subrange(start as int, i as int);
        let ghost next = s@.subrange(start as int, i + 1);
        assert(next.drop_last() =~= prev);
        let next_acc = 10 * acc + d;
        if next_acc > 2147483648 {
            proof {
                if all_digits(body) {
                    assert(next =~= body.subrange(0, next.len() as int));
                    lemma_digits_value_grows(body, next);
                }
            }
            return None;
        }
        acc = next_acc;
        i += 1;
        assert(all_digits(s@.subrange(start as int, i as int)));
    }
    assert(s@.subrange(start as int, hi as int) =~= body);
    if neg {
        Some((-acc) as i32)
    } else {
        if acc > 2147483647 {
            None
        } else {
            Some(acc as i32)
        }
    }
}

/// A string of digits is worth at least as much as any of its prefixes.
proof fn lemma_digits_value_grows(s: Seq<char>, p: Seq<char>)
    requires
        p.len() <= s.len(),
        p == s.subrange(0, p.len() as int),
        all_digits(s),
    ensures
        digits_value(p) <= digits_value(s),
        0 <= digits_value(p),
    decreases s.len(),
{
    lemma_digits_value_nonneg(p);
    if p.len() < s.len() {
        assert(s.drop_last().subrange(0, p.len() as int) =~= p);
        lemma_digits_value_grows(s.drop_last(), p);
        lemma_digits_value_nonneg(s.drop_last());
        assert(is_digit(s[s.len() - 1]));
    } else {
        assert(p =~= s);
    }
}

proof fn lemma_digits_value_nonneg(s: Seq<char>)
    requires
        all_digits(s),
    ensures
        0 <= digits_value(s),
    decreases s.len(),
{
    if s.len() > 0 {
        lemma_digits_value_nonneg(s.drop_last());
        assert(is_digit(s[s.len() - 1]));
    }
}


/// The pieces of `s` between occurrences of `sep`, as `str::split` gives them.
pub open spec fn split_on(s: Seq<char>, sep: char) -> Seq<Seq<char>>
    decreases s.len(),
{
    if s.len() == 0 {
        seq![Seq::empty()]
    } else {
        let p = split_on(s.drop_last(), sep);
        if s.last() == sep {
            p.push(Seq::empty())
        } else {
            p.update(p.len() - 1, p.last().push(s.last()))
        }
    }
}

/// Splitting always gives at least one piece.
pub proof fn lemma_split_on_nonempty(s: Seq<char>, sep: char)
    ensures
        split_on(s, sep).len() >= 1,
    decreases s.len(),
{
    if s.len() > 0 {
        lemma_split_on_nonempty(s.drop_last(), sep);
    }
}

/// A string without the separator is a single piece.
pub proof fn lemma_split_on_without_sep(s: Seq<char>, sep: char)
    requires
        forall|i: int| 0 <= i < s.len() ==> s[i] != sep,
    ensures
        split_on(s, sep) == seq![s],
    decreases s.len(),
{
    if s.len() > 0 {
        lemma_split_on_without_sep(s.drop_last(), sep);
        assert(s.drop_last().push(s.last()) =~= s);
        assert(seq![s.drop_last()].update(0, s.drop_last().push(s.last())) =~= seq![s]);
    } else {
        assert(s =~= Seq::<char>::empty());
    }
}

/// Splitting around a separator splits both sides.
pub proof fn lemma_split_on_join(a: Seq<char>, b: Seq<char>, sep: char)
    ensures
        split_on(a + seq![sep] + b, sep) == split_on(a, sep) + split_on(b, sep),
    decreases b.len(),
{
    lemma_split_on_nonempty(a, sep);
    lemma_split_on_nonempty(b, sep);
    if b.len() == 0 {
        assert((a + seq![sep] + b).drop_last() =~= a);
        assert(split_on(a, sep).push(Seq::empty()) =~= split_on(a, sep) + split_on(b, sep));
    } else {
        let b2 = b.drop_last();
        assert((a + seq![sep] + b).drop_last() =~= a + seq![sep] + b2);
        lemma_split_on_join(a, b2, sep);
        lemma_split_on_nonempty(b2, sep);
        let pa = split_on(a, sep);
        let pb = split_on(b2, sep);
        if b.last() == sep {
            assert((pa + pb).push(Seq::empty()) =~= pa + pb.push(Seq::empty()));
        } else {
            assert((pa + pb).update((pa + pb).len() - 1, (pa + pb).last().push(b.last())) =~= pa
                + pb.update(pb.len() - 1, pb.last().push(b.last())));
        }
    }
}

/// Where the pieces of `s[lo..hi]` between occurrences of `sep` lie in `s`.
pub fn split_ranges(s: &Vec<char>, lo: usize, hi: usize, sep: char) -> (r: Vec<(usize, usize)>)
    requires
        lo <= hi <= s.len(),
    ensures
        r.len() == split_on(s@.subrange(lo as int, hi as int), sep).len(),
        forall|k: int|
            0 <= k < r.len() ==> lo <= (#[trigger] r@[k]).0 <= r@[k].1 <= hi && s@.subrange(
                r@[k].0 as int,
                r@[k].1 as int,
            ) == split_on(s@.subrange(lo as int, hi as int), sep)[k],
{
    let mut r: Vec<(usize, usize)> = Vec::new();
    let mut start: usize = lo;
    let mut i: usize = lo;
    while i < hi
        invariant
            lo <= start <= i <= hi <= s.len(),
            r.len() + 1 == split_on(s@.subrange(lo as int, i as int), sep).len(),
            forall|k: int|
                0 <= k < r.len() ==> lo <= (#[trigger] r@[k]).0 <= r@[k].1 <= hi && s@.subrange(
                    r@[k].0 as int,
                    r@[k].1 as int,
                ) == split_on(s@.subrange(lo as int, i as int), sep)[k],
            s@.subrange(start as int, i as int) == split_on(s@.subrange(lo as int, i as int), sep).last(),
        decreases hi - i,
    {
        let ghost before = split_on(s@.subrange(lo as int, i as int), sep);
        assert(s@.subrange(lo as int, i + 1).drop_last() =~= s@.subrange(lo as int, i as int));
        proof {
            lemma_split_on_nonempty(s@.subrange(lo as int, i as int), sep);
        }
        if s[i] == sep {
            r.push((start, i));
            start = i + 1;
            assert(s@.subrange(start as int, i + 1) =~= Seq::<char>::empty());
        } else {
            assert(s@.subrange(start as int, i + 1) =~= s@.subrange(start as int, i as int).push(
                s@[i as int],
            ));
        }
        i += 1;
    }
    r.push((start, hi));
    r
}

/// The digits of a natural number are digits, and are worth the number.
pub proof fn lemma_natural_digits(n: nat)
    ensures
        natural_digits(n).len() > 0,
        all_digits(natural_digits(n)),
        digits_value(natural_digits(n)) == n,
    decreases n,
{
    assert(digit_char((n % 10) as int) as int == (n % 10) + 48);
    if n >= 10 {
        lemma_natural_digits(n / 10);
        let d = natural_digits(n);
        assert(d.drop_last() =~= natural_digits(n / 10));
        assert(d.last() == digit_char((n % 10) as int));
        assert(digits_value(d) == 10 * digits_value(natural_digits(n / 10)) + (n % 10));
        assert forall|i: int| 0 <= i < d.len() implies is_digit(#[trigger] d[i]) by {
            if i < d.len() - 1 {
                assert(d[i] == natural_digits(n / 10)[i]);
            }
        }
    } else {
        let d = natural_digits(n);
        assert(d.drop_last() =~= Seq::<char>::empty());
        assert(digits_value(d.drop_last()) == 0);
    }
}

/// Reading the decimal form of an `i32` gives the same number back.
pub proof fn lemma_parse_decimal(v: i32)
    ensures
        parse_i32(decimal(v as int)) == Some(v),
        forall|i: int| 0 <= i < decimal(v as int).len() ==> #[trigger] decimal(v as int)[i] != '_',
{
    let s = decimal(v as int);
    if v < 0 {
        lemma_natural_digits((-v) as nat);
        let d = natural_digits((-v) as nat);
        assert(s.drop_first() =~= d);
        assert forall|i: int| 0 <= i < s.len() implies #[trigger] s[i] != '_' by {
            if i > 0 {
                assert(s[i] == d[i - 1]);
                assert(is_digit(d[i - 1]));
            }
        }
    } else {
        lemma_natural_digits(v as nat);
        assert(is_digit(s[0]));
        assert forall|i: int| 0 <= i < s.len() implies #[trigger] s[i] != '_' by {
            assert(is_digit(s[i]));
        }
    }
}


/// Ten to the power `k`.
pub open spec fn pow10(k: nat) -> nat
    decreases k,
{
    if k == 0 {
        1
    } else {
        10 * pow10((k - 1) as nat)
    }
}

proof fn lemma_natural_digits_len(n: nat, k: nat)
    requires
        k >= 1,
        n < pow10(k),
    ensures
        natural_digits(n).len() <= k,
    decreases n,
{
    if n >= 10 {
        let k1 = (k - 1) as nat;
        if k1 == 0 {
            assert(pow10(k) == 10 * pow10(0));
        } else {
            assert(pow10(k) == 10 * pow10(k1));
            assert(n / 10 < pow10(k1)) by (nonlinear_arith)
                requires
                    n < 10 * pow10(k1),
            ;
            lemma_natural_digits_len(n / 10, k1);
        }
    }
}

/// The decimal form of an `i32` takes at most eleven characters.
pub proof fn lemma_decimal_i32_len(v: i32)
    ensures
        decimal(v as int).len() <= 11,
{
    reveal_with_fuel(pow10, 11);
    assert(pow10(10) == 10_000_000_000);
    if v < 0 {
        lemma_natural_digits_len((-v) as nat, 10);
    } else {
        lemma_natural_digits_len(v as nat, 10);
    }
}

} // verus!
