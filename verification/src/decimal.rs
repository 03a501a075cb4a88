use crate::element::Element;
use vstd::prelude::*;

verus! {

/// Whether `c` is one of the ten decimal digits.
pub open spec fn is_digit(c: char) -> bool {
    '0' <= c <= '9'
}

/// The number that the digit `c` stands for.
pub open spec fn digit_value(c: char) -> int {
    c as int - 48
}

/// The digit that stands for `d`, a number from zero to nine.
pub open spec fn digit_char(d: int) -> char {
    (d + 48) as u8 as char
}

/// Whether `s` holds decimal digits only.
pub open spec fn all_digits(s: Seq<char>) -> bool {
    forall|i: int| 0 <= i < s.len() ==> is_digit(#[trigger] s[i])
}

/// The number that the digits `s` stand for, read in base ten.
pub open spec fn digits_value(s: Seq<char>) -> int
    decreases s.len(),
{
    if s.len() == 0 {
        0
    } else {
        digits_value(s.drop_last()) * 10 + digit_value(s.last())
    }
}

/// The integer between `lo` and `hi` that `s` stands for, if there is one.
///
/// A number is written as an optional sign and at least one decimal digit,
/// and nothing else. The sign `+` is always accepted, the sign `-` only
/// where negative numbers exist at all, that is where `lo` is negative.
pub open spec fn number(s: Seq<char>, lo: int, hi: int) -> Option<int> {
    let negative = lo < 0 && s.len() > 0 && s[0] == '-';
    let signed = negative || (s.len() > 0 && s[0] == '+');
    let digits = if signed {
        s.drop_first()
    } else {
        s
    };
    let value = if negative {
        -digits_value(digits)
    } else {
        digits_value(digits)
    };
    if digits.len() > 0 && all_digits(digits) && lo <= value <= hi {
        Some(value)
    } else {
        None
    }
}

/// The decimal digits of `n`, which is not negative, without leading zeros.
pub open spec fn digits_of(n: int) -> Seq<char>
    decreases n,
{
    if n < 10 {
        seq![digit_char(n)]
    } else {
        digits_of(n / 10).push(digit_char(n % 10))
    }
}

/// The decimal form of `v`: its digits, after a `-` when it is negative.
pub open spec fn decimal(v: int) -> Seq<char> {
    if v < 0 {
        seq!['-'] + digits_of(-v)
    } else {
        digits_of(v)
    }
}

/// The decimal form of each of `values`.
pub open spec fn decimals(values: Seq<int>) -> Seq<Seq<char>> {
    Seq::new(values.len(), |k: int| decimal(values[k]))
}

/// Digits never stand for a negative number.
pub proof fn lemma_digits_value_nonnegative(s: Seq<char>)
    requires
        all_digits(s),
    ensures
        digits_value(s) >= 0,
    decreases s.len(),
{
    if s.len() > 0 {
        assert(all_digits(s.drop_last())) by {
            assert forall|i: int| 0 <= i < s.drop_last().len() implies is_digit(
                #[trigger] s.drop_last()[i],
            ) by {
                assert(s.drop_last()[i] == s[i]);
            }
        }
        lemma_digits_value_nonnegative(s.drop_last());
        assert(is_digit(s.last()));
    }
}

/// The first digits of a number stand for no more than all of them.
pub proof fn lemma_digits_value_prefix(s: Seq<char>, k: int)
    requires
        all_digits(s),
        0 <= k <= s.len(),
    ensures
        0 <= digits_value(s.take(k)) <= digits_value(s),
    decreases s.len(),
{
    if k == s.len() {
        assert(s.take(k) =~= s);
        lemma_digits_value_nonnegative(s);
    } else {
        let shorter = s.drop_last();
        assert(all_digits(shorter)) by {
            assert forall|i: int| 0 <= i < shorter.len() implies is_digit(#[trigger] shorter[i]) by {
                assert(shorter[i] == s[i]);
            }
        }
        lemma_digits_value_prefix(shorter, k);
        assert(shorter.take(k) =~= s.take(k));
        lemma_digits_value_nonnegative(shorter);
        assert(is_digit(s.last()));
    }
}

/// The digits of a number are digits, at least one, and stand for it.
pub proof fn lemma_digits_of(n: int)
    requires
        n >= 0,
    ensures
        digits_of(n).len() >= 1,
        all_digits(digits_of(n)),
        digits_value(digits_of(n)) == n,
    decreases n,
{
    if n < 10 {
        let only = seq![digit_char(n)];
        assert(only.drop_last() =~= Seq::<char>::empty());
        assert(digits_value(only) == digits_value(only.drop_last()) * 10 + digit_value(
            only.last(),
        ));
    } else {
        lemma_digits_of(n / 10);
        let before = digits_of(n / 10);
        let all = before.push(digit_char(n % 10));
        assert(all.drop_last() =~= before);
        assert(digits_value(all) == digits_value(before) * 10 + digit_value(all.last()));
    }
}

/// A decimal form is not empty and holds digits only, but for a `-` at
/// the start of a negative number.
pub proof fn lemma_decimal_shape(v: int)
    ensures
        decimal(v).len() >= 1,
        is_digit(decimal(v).last()),
        v < 0 ==> decimal(v)[0] == '-',
        v >= 0 ==> is_digit(decimal(v)[0]),
        forall|i: int| 0 <= i < decimal(v).len() ==> is_digit(#[trigger] decimal(v)[i]) || decimal(v)[i] == '-',
{
    if v < 0 {
        lemma_digits_of(-v);
        let digits = digits_of(-v);
        assert forall|i: int| 0 <= i < decimal(v).len() implies is_digit(
            #[trigger] decimal(v)[i],
        ) || decimal(v)[i] == '-' by {
            if i > 0 {
                assert(decimal(v)[i] == digits[i - 1]);
            }
        }
        assert(decimal(v).last() == digits.last());
    } else {
        lemma_digits_of(v);
    }
}

/// A decimal form read as a number gives the integer back, wherever the
/// integer lies within the bounds.
pub proof fn lemma_number_of_decimal(v: int, lo: int, hi: int)
    requires
        lo <= v <= hi,
    ensures
        number(decimal(v), lo, hi) == Some(v),
{
    lemma_decimal_shape(v);
    if v < 0 {
        lemma_digits_of(-v);
        assert(decimal(v).drop_first() =~= digits_of(-v));
    } else {
        lemma_digits_of(v);
    }
}

/// No magnitude beyond this one fits an element kind.
pub const MAGNITUDE_LIMIT: i128 = 0x1_0000_0000_0000_0000;

/// Reads `token` as an integer between `lo` and `hi`.
pub fn parse_number(token: &Vec<char>, lo: i128, hi: i128) -> (out: Option<i128>)
    requires
        -MAGNITUDE_LIMIT <= lo <= 0 <= hi <= MAGNITUDE_LIMIT,
    ensures
        match out {
            Some(value) => number(token@, lo as int, hi as int) == Some(value as int),
            None => number(token@, lo as int, hi as int) is None,
        },
{
    let n: usize = token.len();
    if n == 0 {
        return None;
    }
    let first: char = token[0];
    let negative: bool = lo < 0 && first == '-';
    let start: usize = if negative || first == '+' {
        1
    } else {
        0
    };
    let ghost digits = token@.subrange(start as int, n as int);
    proof {
        if start == 1 {
            assert(digits =~= token@.drop_first());
        } else {
            assert(digits =~= token@);
        }
    }
    if start == n {
        return None;
    }
    let mut magnitude: i128 = 0;
    let mut i: usize = start;
    assert(digits.take(0) =~= Seq::<char>::empty());
    while i < n
        invariant
            start <= i <= n,
            n == token@.len(),
            digits == token@.subrange(start as int, n as int),
            -MAGNITUDE_LIMIT <= lo <= 0 <= hi <= MAGNITUDE_LIMIT,
            negative == (lo < 0 && token@[0] == '-'),
            digits == if negative || token@[0] == '+' {
                token@.drop_first()
            } else {
                token@
            },
            all_digits(digits.take(i - start)),
            magnitude == digits_value(digits.take(i - start)),
            0 <= magnitude <= MAGNITUDE_LIMIT,
        decreases n - i,
    {
        let c: char = token[i];
        assert(digits[i - start] == c);
        if !('0' <= c && c <= '9') {
            return None;
        }
        let digit: i128 = (c as u32 - 48) as i128;
        magnitude = magnitude * 10 + digit;
        proof {
            let longer = digits.take(i + 1 - start);
            assert(longer.drop_last() =~= digits.take(i - start));
            assert(longer.last() == c);
            assert forall|p: int| 0 <= p < longer.len() implies is_digit(#[trigger] longer[p]) by {
                if p < longer.len() - 1 {
                    assert(longer[p] == digits.take(i - start)[p]);
                }
            }
            lemma_digits_value_nonnegative(longer);
        }
        if magnitude > MAGNITUDE_LIMIT {
            proof {
                if all_digits(digits) {
                    lemma_digits_value_prefix(digits, i + 1 - start);
                }
            }
            return None;
        }
        i += 1;
    }
    assert(digits.take(n - start) =~= digits);
    let value: i128 = if negative {
        -magnitude
    } else {
        magnitude
    };
    if lo <= value && value <= hi {
        Some(value)
    } else {
        None
    }
}

/// The decimal form of `v`.
pub fn decimal_of(v: i128) -> (out: Vec<char>)
    requires
        -MAGNITUDE_LIMIT <= v <= MAGNITUDE_LIMIT,
    ensures
        out@ == decimal(v as int),
{
    let negative: bool = v < 0;
    let magnitude: i128 = if negative {
        -v
    } else {
        v
    };
    let mut out: Vec<char> = Vec::new();
    out.insert(0, ((magnitude % 10) as u8 + 48) as char);
    let mut rest: i128 = magnitude / 10;
    assert(digits_of(magnitude as int) =~= (if rest > 0 {
        digits_of(rest as int)
    } else {
        Seq::<char>::empty()
    }) + out@);
    while rest > 0
        invariant
            0 <= rest <= magnitude,
            digits_of(magnitude as int) == (if rest > 0 {
                digits_of(rest as int)
            } else {
                Seq::<char>::empty()
            }) + out@,
        decreases rest,
    {
        let ghost before = out@;
        let ghost whole = rest as int;
        out.insert(0, ((rest % 10) as u8 + 48) as char);
        rest = rest / 10;
        assert(digits_of(whole) + before =~= (if rest > 0 {
            digits_of(rest as int)
        } else {
            Seq::<char>::empty()
        }) + out@);
    }
    assert(out@ =~= digits_of(magnitude as int));
    if negative {
        out.insert(0, '-');
        assert(out@ =~= seq!['-'] + digits_of(magnitude as int));
    }
    out
}

/// Reads `token` as an element of kind `T`.
pub fn parse_element<T: Element>(token: &Vec<char>) -> (out: Option<T>)
    ensures
        match out {
            Some(element) => number(token@, T::min_value(), T::max_value()) == Some(
                element.value(),
            ),
            None => number(token@, T::min_value(), T::max_value()) is None,
        },
{
    proof {
        T::lemma_bounds();
    }
    match parse_number(token, T::lower(), T::upper()) {
        Some(value) => Some(T::from_wide(value)),
        None => None,
    }
}

/// The decimal form of the value of `element`.
pub fn element_text<T: Element>(element: T) -> (out: Vec<char>)
    ensures
        out@ == decimal(element.value()),
{
    proof {
        T::lemma_bounds();
        element.lemma_value_in_range();
    }
    decimal_of(element.to_wide())
}

} // verus!
