use vstd::prelude::*;

verus! {

/// Whether `c` is one of the ASCII decimal digits.
pub open spec fn is_digit(c: char) -> bool {
    '0' <= c && c <= '9'
}

/// The digits of base ten, in order.
pub open spec fn digit_chars() -> Seq<char> {
    seq!['0', '1', '2', '3', '4', '5', '6', '7', '8', '9']
}

/// The numeric value of a decimal digit.
pub open spec fn digit_value(c: char) -> int {
    c as int - '0' as int
}

/// The value of a string of decimal digits, most significant first.
pub open spec fn decimal_value(s: Seq<char>) -> int
    decreases s.len(),
{
    if s.len() == 0 {
        0
    } else {
        decimal_value(s.drop_last()) * 10 + digit_value(s.last())
    }
}

/// Whether every character of `s` is a decimal digit.
pub open spec fn all_digits(s: Seq<char>) -> bool {
    forall|i: int| 0 <= i < s.len() ==> is_digit(#[trigger] s[i])
}

/// The set index written by `s`: one or more decimal digits, with no sign or
/// space, whose value fits in 32 bits.
pub open spec fn parse_index(s: Seq<char>) -> Option<u32> {
    if s.len() > 0 && all_digits(s) && decimal_value(s) <= u32::MAX {
        Some(decimal_value(s) as u32)
    } else {
        None
    }
}

/// The shortest decimal writing of `n`, without leading zeros.
pub open spec fn decimal_digits(n: nat) -> Seq<char>
    decreases n,
{
    if n < 10 {
        seq![digit_chars()[n as int]]
    } else {
        decimal_digits(n / 10).push(digit_chars()[(n % 10) as int])
    }
}

/// Whether `s` is written without a superfluous leading zero.
pub open spec fn no_leading_zero(s: Seq<char>) -> bool {
    s.len() > 1 ==> s[0] != '0'
}

proof fn lemma_digit_chars()
    ensures
        forall|d: int|
            0 <= d < 10 ==> is_digit(#[trigger] digit_chars()[d]) && digit_value(digit_chars()[d])
                == d,
{
    let t = digit_chars();
    assert(t[0] == '0' && t[1] == '1' && t[2] == '2' && t[3] == '3' && t[4] == '4');
    assert(t[5] == '5' && t[6] == '6' && t[7] == '7' && t[8] == '8' && t[9] == '9');
}

/// A string of digits has a value of zero or more.
pub proof fn lemma_decimal_value_nonneg(s: Seq<char>)
    requires
        all_digits(s),
    ensures
        decimal_value(s) >= 0,
    decreases s.len(),
{
    if s.len() > 0 {
        lemma_decimal_value_nonneg(s.drop_last());
    }
}

/// Writing a number in decimal and reading it back gives the number.
pub proof fn lemma_digits_round_trip(n: nat)
    ensures
        decimal_digits(n).len() > 0,
        all_digits(decimal_digits(n)),
        no_leading_zero(decimal_digits(n)),
        decimal_value(decimal_digits(n)) == n,
        n > 0 ==> decimal_digits(n)[0] != '0',
    decreases n,
{
    lemma_digit_chars();
    let d = decimal_digits(n);
    if n < 10 {
        assert(d.drop_last() =~= Seq::<char>::empty());
        assert(d.last() == digit_chars()[n as int]);
        assert(decimal_value(d) == decimal_value(d.drop_last()) * 10 + digit_value(d.last()));
    } else {
        let q = decimal_digits(n / 10);
        lemma_digits_round_trip(n / 10);
        assert(d.drop_last() =~= q);
        assert(d[0] == q[0]);
        assert(d.last() == digit_chars()[(n % 10) as int]);
        assert(decimal_value(d) == decimal_value(q) * 10 + digit_value(d.last()));
        assert(all_digits(d)) by {
            assert forall|i: int| 0 <= i < d.len() implies is_digit(#[trigger] d[i]) by {
                if i < q.len() {
                    assert(d[i] == q[i]);
                }
            }
        }
    }
}

/// A digit string without a superfluous leading zero is the decimal writing
/// of its value.
pub proof fn lemma_value_round_trip(s: Seq<char>)
    requires
        s.len() > 0,
        all_digits(s),
        no_leading_zero(s),
    ensures
        decimal_digits(decimal_value(s) as nat) == s,
    decreases s.len(),
{
    lemma_digit_chars();
    lemma_decimal_value_nonneg(s);
    let n = decimal_value(s);
    let last = s.last();
    assert(is_digit(s[s.len() - 1]));
    if s.len() == 1 {
        assert(s.drop_last() =~= Seq::<char>::empty());
        assert(decimal_value(s) == digit_value(last));
        assert(decimal_digits(n as nat) =~= s);
    } else {
        let p = s.drop_last();
        assert(p[0] == s[0]);
        assert(all_digits(p)) by {
            assert forall|i: int| 0 <= i < p.len() implies is_digit(#[trigger] p[i]) by {
                assert(p[i] == s[i]);
            }
        }
        lemma_value_round_trip(p);
        lemma_decimal_value_nonneg(p);
        let q = decimal_value(p);
        // a leading digit other than zero makes the prefix at least one
        assert(q >= 1) by {
            lemma_prefix_positive(p);
        }
        assert(n / 10 == q);
        assert(n % 10 == digit_value(last));
        assert(decimal_digits(n as nat) =~= s);
    }
}

proof fn lemma_prefix_positive(s: Seq<char>)
    requires
        s.len() > 0,
        all_digits(s),
        s[0] != '0',
    ensures
        decimal_value(s) >= 1,
    decreases s.len(),
{
    assert(is_digit(s[s.len() - 1]));
    assert(decimal_value(s) == decimal_value(s.drop_last()) * 10 + digit_value(s.last()));
    if s.len() == 1 {
        assert(s.drop_last() =~= Seq::<char>::empty());
        assert(is_digit(s[0]));
    } else {
        let p = s.drop_last();
        assert(p[0] == s[0]);
        assert(all_digits(p)) by {
            assert forall|i: int| 0 <= i < p.len() implies is_digit(#[trigger] p[i]) by {
                assert(p[i] == s[i]);
            }
        }
        lemma_prefix_positive(p);
    }
}

/// Reads a set index: one or more decimal digits whose value fits in 32 bits.
pub fn parse_index_str(s: &str) -> (r: Option<u32>)
    ensures
        r == parse_index(s@),
{
    let n = s.unicode_len();
    if n == 0 {
        return None;
    }
    let mut value: u64 = 0;
    let mut overflowed = false;
    let mut i: usize = 0;
    while i < n
        invariant
            n == s@.len(),
            0 <= i <= n,
            all_digits(s@.subrange(0, i as int)),
            overflowed ==> decimal_value(s@.subrange(0, i as int)) > u32::MAX,
            !overflowed ==> value == decimal_value(s@.subrange(0, i as int)),
            value <= u32::MAX,
        decreases n - i,
    {
        let c = s.get_char(i);
        let ghost pre = s@.subrange(0, i as int);
        let ghost next = s@.subrange(0, i + 1);
        assert(next.drop_last() =~= pre);
        assert(next.last() == c);
        if !('0' <= c && c <= '9') {
            proof {
                assert(!is_digit(s@[i as int]));
            }
            return None;
        }
        assert(all_digits(next)) by {
            assert forall|k: int| 0 <= k < next.len() implies is_digit(#[trigger] next[k]) by {
                if k < i {
                    assert(next[k] == pre[k]);
                }
            }
        }
        proof {
            lemma_decimal_value_nonneg(pre);
        }
        if !overflowed {
            let d = (c as u32 - '0' as u32) as u64;
            let v = value * 10 + d;
            if v > 0xFFFF_FFFF {
                overflowed = true;
            } else {
                value = v;
            }
        }
        i = i + 1;
    }
    assert(s@.subrange(0, n as int) =~= s@);
    if overflowed {
        None
    } else {
        Some(value as u32)
    }
}

fn digit_str(d: u32) -> (r: &'static str)
    requires
        d < 10,
    ensures
        r@ == seq![digit_chars()[d as int]],
{
    proof {
        reveal_strlit("0");
        reveal_strlit("1");
        reveal_strlit("2");
        reveal_strlit("3");
        reveal_strlit("4");
        reveal_strlit("5");
        reveal_strlit("6");
        reveal_strlit("7");
        reveal_strlit("8");
        reveal_strlit("9");
    }
    let r = match d {
        0 => "0",
        1 => "1",
        2 => "2",
        3 => "3",
        4 => "4",
        5 => "5",
        6 => "6",
        7 => "7",
        8 => "8",
        _ => "9",
    };
    assert(r@ =~= seq![digit_chars()[d as int]]);
    r
}

/// Appends the decimal writing of `n` to `out`.
pub fn push_decimal(out: &mut String, n: u32)
    ensures
        final(out)@ == old(out)@ + decimal_digits(n as nat),
    decreases n,
{
    if n < 10 {
        out.append(digit_str(n));
    } else {
        push_decimal(out, n / 10);
        out.append(digit_str(n % 10));
        assert(decimal_digits(n as nat) == decimal_digits((n / 10) as nat).push(
            digit_chars()[(n % 10) as int],
        ));
        assert(final(out)@ =~= old(out)@ + decimal_digits(n as nat));
    }
}

} // verus!
