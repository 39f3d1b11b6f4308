//! Character-level helpers shared by the version grammar: digit
//! classification, decimal values of digit runs, locating delimiters,
//! and rendering numbers back to decimal digit sequences.

use vstd::prelude::*;
use vstd::string::StrSliceExecFns;

verus! {

/// An ASCII decimal digit, by code point.
pub open spec fn is_digit(c: char) -> bool {
    48 <= c as u32 && c as u32 <= 57
}

/// The numeric value of one ASCII digit.
pub open spec fn digit_val(c: char) -> nat
    recommends
        is_digit(c),
{
    (c as u32 - 48) as nat
}

/// Every character of `s` is an ASCII digit.
pub open spec fn all_digits(s: Seq<char>) -> bool {
    forall|i: int| 0 <= i < s.len() ==> is_digit(#[trigger] s[i])
}

/// The value of a digit run read as a decimal number, most significant
/// digit first.
pub open spec fn digits_val(s: Seq<char>) -> nat
    decreases s.len(),
{
    if s.len() == 0 {
        0
    } else {
        digits_val(s.drop_last()) * 10 + digit_val(s.last())
    }
}

/// A digit run that parses as one unsigned 64-bit version component.
pub open spec fn is_numeric_component(s: Seq<char>) -> bool {
    s.len() > 0 && all_digits(s) && digits_val(s) <= u64::MAX
}

/// Index of the first occurrence of `c` in `s`, or -1 when absent.
pub open spec fn find_char(s: Seq<char>, c: char) -> int
    decreases s.len(),
{
    if s.len() == 0 {
        -1
    } else if s[0] == c {
        0
    } else {
        let r = find_char(s.drop_first(), c);
        if r < 0 {
            -1
        } else {
            r + 1
        }
    }
}

/// Index of the last occurrence of `c` in `s`, or -1 when absent.
pub open spec fn find_last_char(s: Seq<char>, c: char) -> int
    decreases s.len(),
{
    if s.len() == 0 {
        -1
    } else if s.last() == c {
        s.len() - 1
    } else {
        find_last_char(s.drop_last(), c)
    }
}

/// What `find_char` returns: the least index holding `c`, or -1 when no
/// index does.
pub proof fn lemma_find_char(s: Seq<char>, c: char)
    ensures
        -1 <= find_char(s, c) < s.len(),
        find_char(s, c) == -1 ==> forall|i: int| 0 <= i < s.len() ==> s[i] != c,
        find_char(s, c) >= 0 ==> {
            &&& find_char(s, c) < s.len()
            &&& s[find_char(s, c)] == c
            &&& forall|i: int| 0 <= i < find_char(s, c) ==> s[i] != c
        },
    decreases s.len(),
{
    if s.len() > 0 && s[0] != c {
        let t = s.drop_first();
        lemma_find_char(t, c);
        let r = find_char(t, c);
        if r < 0 {
            assert forall|i: int| 0 <= i < s.len() implies s[i] != c by {
                if i > 0 {
                    assert(s[i] == t[i - 1]);
                }
            }
        } else {
            assert(s[r + 1] == t[r]);
            assert forall|i: int| 0 <= i < r + 1 implies s[i] != c by {
                if i > 0 {
                    assert(s[i] == t[i - 1]);
                }
            }
        }
    }
}

/// What `find_last_char` returns: the greatest index holding `c`, or -1
/// when no index does.
pub proof fn lemma_find_last_char(s: Seq<char>, c: char)
    ensures
        -1 <= find_last_char(s, c) < s.len(),
        find_last_char(s, c) == -1 ==> forall|i: int| 0 <= i < s.len() ==> s[i] != c,
        find_last_char(s, c) >= 0 ==> {
            &&& find_last_char(s, c) < s.len()
            &&& s[find_last_char(s, c)] == c
            &&& forall|i: int| find_last_char(s, c) < i < s.len() ==> s[i] != c
        },
    decreases s.len(),
{
    if s.len() > 0 && s.last() != c {
        let t = s.drop_last();
        lemma_find_last_char(t, c);
        let r = find_last_char(t, c);
        if r < 0 {
            assert forall|i: int| 0 <= i < s.len() implies s[i] != c by {
                if i < s.len() - 1 {
                    assert(s[i] == t[i]);
                } else {
                    assert(s[i] == s.last());
                }
            }
        } else {
            assert(s[r] == t[r]);
            assert forall|i: int| r < i < s.len() implies s[i] != c by {
                if i < s.len() - 1 {
                    assert(s[i] == t[i]);
                } else {
                    assert(s[i] == s.last());
                }
            }
        }
    }
}

/// The character of one decimal digit.
pub open spec fn digit_char(n: nat) -> char
    recommends
        n < 10,
{
    if n == 0 {
        '0'
    } else if n == 1 {
        '1'
    } else if n == 2 {
        '2'
    } else if n == 3 {
        '3'
    } else if n == 4 {
        '4'
    } else if n == 5 {
        '5'
    } else if n == 6 {
        '6'
    } else if n == 7 {
        '7'
    } else if n == 8 {
        '8'
    } else {
        '9'
    }
}

/// The decimal rendering of `n`, most significant digit first, with no
/// leading zero except for zero itself.
pub open spec fn dec_digits(n: nat) -> Seq<char>
    decreases n,
{
    if n < 10 {
        seq![digit_char(n)]
    } else {
        dec_digits(n / 10).push(digit_char(n % 10))
    }
}

/// The character of a digit value reads back as that value.
pub proof fn lemma_digit_char_val(n: nat)
    requires
        n < 10,
    ensures
        is_digit(digit_char(n)),
        digit_val(digit_char(n)) == n,
{
    assert('0' as u32 == 48 && '1' as u32 == 49 && '2' as u32 == 50 && '3' as u32 == 51
        && '4' as u32 == 52 && '5' as u32 == 53 && '6' as u32 == 54 && '7' as u32 == 55
        && '8' as u32 == 56 && '9' as u32 == 57);
}

/// A decimal rendering consists of digits only and reads back as the
/// number it was rendered from.
pub proof fn lemma_dec_digits(n: nat)
    ensures
        dec_digits(n).len() >= 1,
        all_digits(dec_digits(n)),
        digits_val(dec_digits(n)) == n,
    decreases n,
{
    if n < 10 {
        lemma_digit_char_val(n);
        assert(dec_digits(n) =~= seq![digit_char(n)]);
        assert(dec_digits(n).drop_last() =~= Seq::<char>::empty());
        assert(digits_val(Seq::<char>::empty()) == 0);
        assert(dec_digits(n).last() == digit_char(n));
        assert(digits_val(dec_digits(n)) == digits_val(Seq::<char>::empty()) * 10 + digit_val(
            digit_char(n),
        ));
    } else {
        lemma_dec_digits(n / 10);
        lemma_digit_char_val(n % 10);
        let t = dec_digits(n / 10);
        let s = dec_digits(n);
        assert(s =~= t.push(digit_char(n % 10)));
        assert(s.drop_last() =~= t);
        assert(s.last() == digit_char(n % 10));
        assert forall|i: int| 0 <= i < s.len() implies is_digit(#[trigger] s[i]) by {
            if i < t.len() {
                assert(s[i] == t[i]);
            }
        }
        assert(digits_val(s) == digits_val(t) * 10 + digit_val(digit_char(n % 10)));
        assert((n / 10) * 10 + n % 10 == n) by (nonlinear_arith);
    }
}

/// Growing a digit run never shrinks its decimal value.
pub proof fn lemma_digits_val_take_le(s: Seq<char>, i: int, j: int)
    requires
        0 <= i <= j <= s.len(),
    ensures
        digits_val(s.subrange(0, i)) <= digits_val(s.subrange(0, j)),
    decreases j - i,
{
    if i < j {
        lemma_digits_val_take_le(s, i + 1, j);
        let a = s.subrange(0, i);
        let b = s.subrange(0, i + 1);
        assert(b.drop_last() =~= a);
        assert(digits_val(b) == digits_val(a) * 10 + digit_val(s[i]));
        assert(digits_val(a) * 10 >= digits_val(a)) by (nonlinear_arith);
    }
}

/// Collects the characters of `s` into a vector.
pub fn chars_of(s: &str) -> (r: Vec<char>)
    ensures
        r@ == s@,
{
    let n = s.unicode_len();
    let mut v: Vec<char> = Vec::new();
    let mut i: usize = 0;
    while i < n
        invariant
            n == s@.len(),
            i <= n,
            v@ =~= s@.take(i as int),
        decreases n - i,
    {
        let c = s.get_char(i);
        v.push(c);
        assert(v@ =~= s@.take(i + 1 as int));
        i = i + 1;
    }
    assert(v@ =~= s@);
    v
}

/// Parses a digit run as an unsigned 64-bit number; `None` when the run
/// is empty, holds a non-digit, or overflows.
pub fn parse_component(s: &Vec<char>, from: usize, to: usize) -> (r: Option<u64>)
    requires
        from <= to <= s@.len(),
    ensures
        r is Some <==> is_numeric_component(s@.subrange(from as int, to as int)),
        r is Some ==> r->0 == digits_val(s@.subrange(from as int, to as int)),
{
    let ghost comp = s@.subrange(from as int, to as int);
    if from == to {
        return None;
    }
    let mut acc: u64 = 0;
    let mut i: usize = from;
    while i < to
        invariant
            from <= i <= to <= s@.len(),
            comp == s@.subrange(from as int, to as int),
            all_digits(comp.subrange(0, i - from)),
            acc == digits_val(comp.subrange(0, i - from)),
        decreases to - i,
    {
        let c = s[i];
        let cu = c as u32;
        if cu < '0' as u32 || cu > '9' as u32 {
            assert(!is_digit(comp[i - from]));
            return None;
        }
        let d: u64 = (cu - '0' as u32) as u64;
        assert(is_digit(comp[i - from]) && digit_val(comp[i - from]) == d);
        let wide: u128 = acc as u128 * 10 + d as u128;
        proof {
            let pre = comp.subrange(0, i - from);
            let ext = comp.subrange(0, i + 1 - from);
            assert(ext.drop_last() =~= pre);
            assert(digits_val(ext) == digits_val(pre) * 10 + digit_val(comp[i - from]));
        }
        if wide > u64::MAX as u128 {
            proof {
                lemma_digits_val_take_le(comp, i + 1 - from, comp.len() as int);
                assert(comp.subrange(0, comp.len() as int) =~= comp);
            }
            return None;
        }
        acc = wide as u64;
        i = i + 1;
    }
    proof {
        assert(comp.subrange(0, comp.len() as int) =~= comp);
    }
    Some(acc)
}

/// Renders `n` as its decimal digit characters.
pub fn render_u64(n: u64) -> (r: Vec<char>)
    ensures
        r@ == dec_digits(n as nat),
    decreases n,
{
    let d: u64 = n % 10;
    let c: char = if d == 0 {
        '0'
    } else if d == 1 {
        '1'
    } else if d == 2 {
        '2'
    } else if d == 3 {
        '3'
    } else if d == 4 {
        '4'
    } else if d == 5 {
        '5'
    } else if d == 6 {
        '6'
    } else if d == 7 {
        '7'
    } else if d == 8 {
        '8'
    } else {
        '9'
    };
    assert(c == digit_char((n % 10) as nat));
    if n < 10 {
        let mut v: Vec<char> = Vec::new();
        v.push(c);
        assert(v@ =~= seq![digit_char(n as nat)]);
        v
    } else {
        let mut v = render_u64(n / 10);
        v.push(c);
        assert(v@ =~= dec_digits((n / 10) as nat).push(digit_char((n % 10) as nat)));
        v
    }
}

/// Relies on std's `String::from_iter` over characters: the resulting
/// string holds exactly the characters of `v`, in order.
#[verifier::external_body]
pub fn string_from_chars(v: &Vec<char>) -> (r: String)
    ensures
        r@ == v@,
{
    v.iter().collect()
}

} // verus!
