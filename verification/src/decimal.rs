use vstd::prelude::*;

verus! {

/// Relies on String::push: appends one character to the string.
pub assume_specification[ String::push ](s: &mut String, c: char)
    ensures
        final(s)@ == old(s)@.push(c),
;

/// The character writing one decimal digit.
pub open spec fn char_of_digit(d: nat) -> char {
    if d == 0 {
        '0'
    } else if d == 1 {
        '1'
    } else if d == 2 {
        '2'
    } else if d == 3 {
        '3'
    } else if d == 4 {
        '4'
    } else if d == 5 {
        '5'
    } else if d == 6 {
        '6'
    } else if d == 7 {
        '7'
    } else if d == 8 {
        '8'
    } else {
        '9'
    }
}

/// Whether `c` is a decimal digit.
pub open spec fn is_digit_c(c: char) -> bool {
    c == '0' || c == '1' || c == '2' || c == '3' || c == '4' || c == '5' || c == '6' || c == '7'
        || c == '8' || c == '9'
}

/// The value of one decimal digit; ten for any other character.
pub open spec fn digit_val(c: char) -> nat {
    if c == '0' {
        0
    } else if c == '1' {
        1
    } else if c == '2' {
        2
    } else if c == '3' {
        3
    } else if c == '4' {
        4
    } else if c == '5' {
        5
    } else if c == '6' {
        6
    } else if c == '7' {
        7
    } else if c == '8' {
        8
    } else if c == '9' {
        9
    } else {
        10
    }
}

/// The canonical decimal writing of `n`: most significant digit first, no
/// leading zero except for zero itself.
pub open spec fn dec_spec(n: nat) -> Seq<char>
    decreases n,
{
    if n < 10 {
        seq![char_of_digit(n)]
    } else {
        dec_spec(n / 10).push(char_of_digit(n % 10))
    }
}

/// The number read from a digit string, most significant digit first.
pub open spec fn digits_val(ds: Seq<char>) -> nat
    decreases ds.len(),
{
    if ds.len() == 0 {
        0
    } else {
        digits_val(ds.drop_last()) * 10 + digit_val(ds.last())
    }
}

/// The decimal writing of a number holds digits alone, at least one of them.
pub proof fn lemma_dec_spec_digits(n: nat)
    ensures
        dec_spec(n).len() >= 1,
        forall|i: int| 0 <= i < dec_spec(n).len() ==> is_digit_c(#[trigger] dec_spec(n)[i]),
    decreases n,
{
    if n >= 10 {
        lemma_dec_spec_digits(n / 10);
    }
}

/// Reading back the decimal writing of `n` gives `n`.
pub proof fn lemma_digits_val_of_dec(n: nat)
    ensures
        digits_val(dec_spec(n)) == n,
    decreases n,
{
    assert(digits_val(Seq::<char>::empty()) == 0);
    if n < 10 {
        let ds = dec_spec(n);
        assert(ds.drop_last() =~= Seq::<char>::empty());
        assert(digits_val(ds.drop_last()) == 0);
        assert(ds.last() == char_of_digit(n));
        assert(digit_val(char_of_digit(n)) == n);
    } else {
        lemma_digits_val_of_dec(n / 10);
        let ds = dec_spec(n);
        assert(ds.drop_last() =~= dec_spec(n / 10));
        assert(digits_val(ds.drop_last()) == n / 10);
        assert(ds.last() == char_of_digit(n % 10));
        assert(digit_val(char_of_digit(n % 10)) == n % 10);
        assert(digits_val(ds) == (n / 10) * 10 + n % 10);
    }
}

/// A longer digit string never reads back smaller: dropping trailing digits
/// cannot raise the value.
pub proof fn lemma_digits_val_prefix(ds: Seq<char>, m: int)
    requires
        0 <= m <= ds.len(),
    ensures
        digits_val(ds.take(m)) <= digits_val(ds),
    decreases ds.len() - m,
{
    if m < ds.len() {
        lemma_digits_val_prefix(ds, m + 1);
        assert(ds.take(m + 1).drop_last() =~= ds.take(m));
        assert(digits_val(ds.take(m)) <= digits_val(ds.take(m + 1)));
    } else {
        assert(ds.take(m) =~= ds);
    }
}

/// The decimal writing of a number never starts with a superfluous zero.
pub proof fn lemma_dec_spec_no_leading_zero(n: nat)
    ensures
        dec_spec(n).len() > 1 ==> dec_spec(n)[0] != '0',
    decreases n,
{
    if n >= 10 {
        lemma_dec_spec_no_leading_zero(n / 10);
        lemma_dec_spec_digits(n / 10);
        let head = dec_spec(n / 10);
        assert(dec_spec(n) == head.push(char_of_digit(n % 10)));
        assert(dec_spec(n)[0] == head[0]);
        if n / 10 < 10 {
            assert(n / 10 >= 1);
            assert(head == seq![char_of_digit(n / 10)]);
            assert(char_of_digit(n / 10) != '0');
        } else {
            lemma_dec_spec_digits(n / 10 / 10);
            assert(head == dec_spec(n / 10 / 10).push(char_of_digit((n / 10) % 10)));
            assert(head.len() > 1);
        }
    }
}

/// A digit string with no superfluous leading zero is the decimal writing of
/// its own value: reading and re-writing gives the same text back.
pub proof fn lemma_dec_spec_of_digits(ds: Seq<char>)
    requires
        ds.len() >= 1,
        forall|i: int| 0 <= i < ds.len() ==> is_digit_c(#[trigger] ds[i]),
        ds.len() > 1 ==> ds[0] != '0',
    ensures
        dec_spec(digits_val(ds)) == ds,
    decreases ds.len(),
{
    assert(is_digit_c(ds[0]));
    assert(is_digit_c(ds.last()));
    assert(digits_val(Seq::<char>::empty()) == 0);
    if ds.len() == 1 {
        assert(ds.drop_last() =~= Seq::<char>::empty());
        assert(digits_val(ds.drop_last()) == 0);
        assert(ds.last() == ds[0]);
        assert(digits_val(ds) == digit_val(ds[0]));
        assert(digit_val(ds[0]) < 10);
        assert(char_of_digit(digit_val(ds[0])) == ds[0]);
        assert(dec_spec(digits_val(ds)) =~= ds);
    } else {
        let head = ds.drop_last();
        let d = digit_val(ds.last());
        assert(d < 10);
        lemma_dec_spec_of_digits(head);
        let one = ds.take(1);
        assert(one.drop_last() =~= Seq::<char>::empty());
        assert(digits_val(one.drop_last()) == 0);
        assert(one.last() == ds[0]);
        assert(digits_val(one) == digit_val(ds[0]));
        assert(digit_val(ds[0]) >= 1);
        assert(head.take(1) =~= one);
        lemma_digits_val_prefix(head, 1);
        assert(digits_val(head) >= 1);
        let v = digits_val(ds);
        assert(v == digits_val(head) * 10 + d);
        assert(v >= 10) by (nonlinear_arith)
            requires
                v == digits_val(head) * 10 + d,
                digits_val(head) >= 1,
        ;
        assert(v / 10 == digits_val(head) && v % 10 == d) by (nonlinear_arith)
            requires
                v == digits_val(head) * 10 + d,
                d < 10,
        ;
        assert(dec_spec(v) == dec_spec(digits_val(head)).push(char_of_digit(d)));
        assert(char_of_digit(digit_val(ds.last())) == ds.last());
        assert(dec_spec(v) =~= head.push(ds.last()));
        assert(head.push(ds.last()) =~= ds);
    }
}

/// The character writing one digit.
pub fn digit_char(d: u128) -> (c: char)
    requires
        d < 10,
    ensures
        c == char_of_digit(d as nat),
{
    if d == 0 {
        '0'
    } else if d == 1 {
        '1'
    } else if d == 2 {
        '2'
    } else if d == 3 {
        '3'
    } else if d == 4 {
        '4'
    } else if d == 5 {
        '5'
    } else if d == 6 {
        '6'
    } else if d == 7 {
        '7'
    } else if d == 8 {
        '8'
    } else {
        '9'
    }
}

/// The value of one digit character.
pub fn digit_value(c: char) -> (d: u8)
    requires
        is_digit_c(c),
    ensures
        d as nat == digit_val(c),
        d < 10,
{
    if c == '0' {
        0
    } else if c == '1' {
        1
    } else if c == '2' {
        2
    } else if c == '3' {
        3
    } else if c == '4' {
        4
    } else if c == '5' {
        5
    } else if c == '6' {
        6
    } else if c == '7' {
        7
    } else if c == '8' {
        8
    } else {
        9
    }
}

/// Whether `c` is a decimal digit.
pub fn is_digit(c: char) -> (r: bool)
    ensures
        r == is_digit_c(c),
{
    c == '0' || c == '1' || c == '2' || c == '3' || c == '4' || c == '5' || c == '6' || c == '7'
        || c == '8' || c == '9'
}

/// Writes `n` in decimal.
pub fn dec_u128(n: u128) -> (r: String)
    ensures
        r@ == dec_spec(n as nat),
    decreases n,
{
    if n < 10 {
        let mut s = String::new();
        s.push(digit_char(n));
        s
    } else {
        let mut s = dec_u128(n / 10);
        s.push(digit_char(n % 10));
        s
    }
}

/// Writes `n` in decimal.
pub fn dec_u64(n: u64) -> (r: String)
    ensures
        r@ == dec_spec(n as nat),
{
    dec_u128(n as u128)
}

} // verus!
