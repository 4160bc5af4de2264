//! Decimal numerals: the correspondence between an unsigned integer and its
//! sequence of ASCII digit characters, in both directions, with the lemmas the
//! rest of the crate needs.
use vstd::prelude::*;

verus! {

/// An ASCII decimal digit.
pub open spec fn is_digit(c: char) -> bool {
    '0' <= c && c <= '9'
}

/// Numeric value of a digit character.
pub open spec fn digit_val(c: char) -> int {
    c as int - '0' as int
}

/// The digit character for a value in 0..=9.
pub open spec fn digit_char(d: int) -> char {
    if d == 0 {
        '0'
    } else if d == 1 {
        '1'
    } else if d == 2 {
        '2'
    } else if d == 3 {
        '3'
    } else if d == 4 {
        '4'
    } else if d == 5 {
        '5'
    } else if d == 6 {
        '6'
    } else if d == 7 {
        '7'
    } else if d == 8 {
        '8'
    } else {
        '9'
    }
}

/// Value of a digit string read as a decimal numeral (0 for the empty string).
pub open spec fn digits_val(s: Seq<char>) -> int
    decreases s.len(),
{
    if s.len() == 0 {
        0
    } else {
        digits_val(s.drop_last()) * 10 + digit_val(s.last())
    }
}

/// The canonical decimal numeral of a non-negative integer (no leading zeros,
/// a single "0" for zero).
pub open spec fn spec_digits(n: int) -> Seq<char>
    decreases n,
{
    if n < 10 {
        seq![digit_char(if n < 0 { 0 } else { n })]
    } else {
        spec_digits(n / 10).push(digit_char(n % 10))
    }
}

pub proof fn lemma_digits_val_nonneg(s: Seq<char>)
    requires
        forall|i: int| 0 <= i < s.len() ==> is_digit(#[trigger] s[i]),
    ensures
        digits_val(s) >= 0,
    decreases s.len(),
{
    if s.len() > 0 {
        lemma_digits_val_nonneg(s.drop_last());
    }
}

/// Reading more digits never decreases the value.
pub proof fn lemma_digits_val_prefix(s: Seq<char>, i: int)
    requires
        forall|j: int| 0 <= j < s.len() ==> is_digit(#[trigger] s[j]),
        0 <= i <= s.len(),
    ensures
        digits_val(s.take(i)) <= digits_val(s),
    decreases s.len() - i,
{
    if i < s.len() {
        lemma_digits_val_prefix(s, i + 1);
        assert(s.take(i + 1).drop_last() =~= s.take(i));
        assert(s.take(i + 1).last() == s[i]);
        lemma_digits_val_nonneg(s.take(i));
        assert(digits_val(s.take(i + 1)) == digits_val(s.take(i)) * 10 + digit_val(s[i]));
        assert(digits_val(s.take(i)) * 10 >= digits_val(s.take(i)));
        assert(digit_val(s[i]) >= 0);
    } else {
        assert(s.take(i) =~= s);
    }
}

/// `spec_digits` yields digit characters only.
pub proof fn lemma_spec_digits_are_digits(n: int)
    ensures
        spec_digits(n).len() >= 1,
        forall|i: int| 0 <= i < spec_digits(n).len() ==> is_digit(#[trigger] spec_digits(n)[i]),
    decreases n,
{
    if n >= 10 {
        lemma_spec_digits_are_digits(n / 10);
        assert forall|i: int| 0 <= i < spec_digits(n).len() implies is_digit(
            #[trigger] spec_digits(n)[i],
        ) by {
            if i < spec_digits(n / 10).len() {
                assert(spec_digits(n)[i] == spec_digits(n / 10)[i]);
            } else {
                assert(spec_digits(n)[i] == digit_char(n % 10));
            }
        }
    }
}

/// The digit character for a value in 0..=9, as executable code.
pub fn digit_char_of(d: usize) -> (c: char)
    requires
        d < 10,
    ensures
        c == digit_char(d as int),
{
    if d == 0 {
        '0'
    } else if d == 1 {
        '1'
    } else if d == 2 {
        '2'
    } else if d == 3 {
        '3'
    } else if d == 4 {
        '4'
    } else if d == 5 {
        '5'
    } else if d == 6 {
        '6'
    } else if d == 7 {
        '7'
    } else if d == 8 {
        '8'
    } else {
        '9'
    }
}

/// Reads the digit characters `s[from..to]` as a decimal number.
pub fn parse_digits(s: &Vec<char>, from: usize, to: usize) -> (r: usize)
    requires
        from <= to <= s@.len(),
        forall|j: int| from <= j < to ==> is_digit(#[trigger] s@[j]),
        digits_val(s@.subrange(from as int, to as int)) <= usize::MAX,
    ensures
        r == digits_val(s@.subrange(from as int, to as int)),
{
    let ghost whole = s@.subrange(from as int, to as int);
    let mut acc: usize = 0;
    let mut i: usize = from;
    while i < to
        invariant
            from <= i <= to <= s@.len(),
            whole == s@.subrange(from as int, to as int),
            forall|j: int| from <= j < to ==> is_digit(#[trigger] s@[j]),
            digits_val(whole) <= usize::MAX,
            acc == digits_val(whole.take(i - from)),
        decreases to - i,
    {
        proof {
            assert(forall|j: int| 0 <= j < whole.len() ==> is_digit(#[trigger] whole[j]));
            lemma_digits_val_prefix(whole, i - from + 1);
            assert(whole.take(i - from + 1).drop_last() =~= whole.take(i - from));
            assert(whole.take(i - from + 1).last() == s@[i as int]);
            lemma_digits_val_nonneg(whole.take(i - from));
        }
        let c = s[i];
        let d = (c as u32) - ('0' as u32);
        acc = acc * 10 + (d as usize);
        i = i + 1;
    }
    proof {
        assert(whole.take(to - from) =~= whole);
    }
    acc
}

/// Reads the digit characters `s[from..to]` as a decimal number, detecting
/// values too large for `usize`.
pub fn parse_digits_checked(s: &Vec<char>, from: usize, to: usize) -> (r: Option<usize>)
    requires
        from <= to <= s@.len(),
        forall|j: int| from <= j < to ==> is_digit(#[trigger] s@[j]),
    ensures
        r matches Some(v) ==> digits_val(s@.subrange(from as int, to as int)) == v,
        r is None ==> digits_val(s@.subrange(from as int, to as int)) > usize::MAX,
{
    let ghost whole = s@.subrange(from as int, to as int);
    proof {
        assert(forall|j: int| 0 <= j < whole.len() ==> is_digit(#[trigger] whole[j]));
    }
    let mut acc: usize = 0;
    let mut i: usize = from;
    while i < to
        invariant
            from <= i <= to <= s@.len(),
            whole == s@.subrange(from as int, to as int),
            forall|j: int| from <= j < to ==> is_digit(#[trigger] s@[j]),
            forall|j: int| 0 <= j < whole.len() ==> is_digit(#[trigger] whole[j]),
            acc == digits_val(whole.take(i - from)),
        decreases to - i,
    {
        let c = s[i];
        let d = ((c as u32) - ('0' as u32)) as usize;
        proof {
            assert(whole.take(i - from + 1).drop_last() =~= whole.take(i - from));
            assert(whole.take(i - from + 1).last() == s@[i as int]);
            assert(digits_val(whole.take(i - from + 1)) == acc * 10 + d);
        }
        if acc > (usize::MAX - d) / 10 {
            proof {
                let x = (usize::MAX - d) as int;
                assert(x == (x / 10) * 10 + x % 10);
                assert(acc * 10 >= (x / 10) * 10 + 10);
                assert(acc * 10 + d > usize::MAX);
                lemma_digits_val_prefix(whole, i - from + 1);
            }
            return None;
        }
        proof {
            let x = (usize::MAX - d) as int;
            assert(x == (x / 10) * 10 + x % 10);
            assert(acc * 10 <= (x / 10) * 10);
            assert(acc * 10 + d <= usize::MAX);
        }
        acc = acc * 10 + d;
        i = i + 1;
    }
    proof {
        assert(whole.take(to - from) =~= whole);
    }
    Some(acc)
}

/// Renders a number as its decimal numeral.
pub fn digits_of(n: usize) -> (v: Vec<char>)
    ensures
        v@ == spec_digits(n as int),
{
    let mut v: Vec<char> = Vec::new();
    let mut cur: usize = n;
    while cur >= 10
        invariant
            spec_digits(n as int) == spec_digits(cur as int) + v@,
        decreases cur,
    {
        let c = digit_char_of(cur % 10);
        proof {
            assert(spec_digits(cur as int) == spec_digits((cur / 10) as int).push(
                digit_char((cur % 10) as int),
            ));
            assert(spec_digits((cur / 10) as int).push(c) + v@ =~= spec_digits((cur / 10) as int)
                + (seq![c] + v@));
        }
        v.insert(0, c);
        cur = cur / 10;
    }
    let c = digit_char_of(cur);
    proof {
        assert(spec_digits(cur as int) =~= seq![c]);
    }
    v.insert(0, c);
    proof {
        assert(v@ =~= spec_digits(n as int));
    }
    v
}

} // verus!
