use vstd::prelude::*;
use vstd::string::*;

verus! {

/// The character of a decimal digit.
pub open spec fn digit_char(d: nat) -> char {
    if d == 0 {
        '0'
    } else if d == 1 {
        '1'
    } else if d == 2 {
        '2'
    } else if d == 3 {
        '3'
    } else if d == 4 {
        '4'
    } else if d == 5 {
        '5'
    } else if d == 6 {
        '6'
    } else if d == 7 {
        '7'
    } else if d == 8 {
        '8'
    } else {
        '9'
    }
}

/// The decimal digits of `n`, most significant first, without leading zeros.
pub open spec fn decimal_digits(n: nat) -> Seq<nat>
    decreases n,
{
    if n < 10 {
        seq![n]
    } else {
        decimal_digits(n / 10).push(n % 10)
    }
}

/// `n` written in decimal.
pub open spec fn decimal_text(n: nat) -> Seq<char> {
    decimal_digits(n).map_values(|d: nat| digit_char(d))
}

/// `n` written in decimal, as ASCII bytes.
pub open spec fn decimal_ascii(n: nat) -> Seq<u8> {
    decimal_digits(n).map_values(|d: nat| (d + 48) as u8)
}

/// `n` in decimal, left-padded with zeros to at least `width` characters.
pub open spec fn zero_padded(n: nat, width: nat) -> Seq<char> {
    let d = decimal_text(n);
    if d.len() < width {
        Seq::new((width - d.len()) as nat, |i: int| '0') + d
    } else {
        d
    }
}

/// The number that ASCII decimal digits spell.
pub open spec fn ascii_decimal_value(b: Seq<u8>) -> nat
    decreases b.len(),
{
    if b.len() == 0 {
        0
    } else {
        (ascii_decimal_value(b.drop_last()) * 10 + (b.last() - 48)) as nat
    }
}

/// Decimal digits read back as the number they were written from.
pub proof fn lemma_decimal_ascii_value(n: nat)
    ensures
        ascii_decimal_value(decimal_ascii(n)) == n,
    decreases n,
{
    let b = decimal_ascii(n);
    if n < 10 {
        assert(b =~= seq![(n + 48) as u8]);
        assert(b.drop_last() =~= Seq::<u8>::empty());
        assert(ascii_decimal_value(b) == ascii_decimal_value(b.drop_last()) * 10 + (b.last() - 48));
    } else {
        lemma_decimal_ascii_value(n / 10);
        assert(decimal_digits(n) == decimal_digits(n / 10).push(n % 10));
        assert(b =~= decimal_ascii(n / 10).push(((n % 10) + 48) as u8));
        assert(b.drop_last() =~= decimal_ascii(n / 10));
        assert(b.last() - 48 == n % 10);
        assert(ascii_decimal_value(b) == ascii_decimal_value(b.drop_last()) * 10 + (b.last() - 48));
        assert((n / 10) * 10 + n % 10 == n);
    }
}

fn digit_str(d: u64) -> (r: &'static str)
    requires
        d < 10,
    ensures
        r@ == seq![digit_char(d as nat)],
{
    proof {
        reveal_strlit("0");
        reveal_strlit("1");
        reveal_strlit("2");
        reveal_strlit("3");
        reveal_strlit("4");
        reveal_strlit("5");
        reveal_strlit("6");
        reveal_strlit("7");
        reveal_strlit("8");
        reveal_strlit("9");
    }
    if d == 0 {
        "0"
    } else if d == 1 {
        "1"
    } else if d == 2 {
        "2"
    } else if d == 3 {
        "3"
    } else if d == 4 {
        "4"
    } else if d == 5 {
        "5"
    } else if d == 6 {
        "6"
    } else if d == 7 {
        "7"
    } else if d == 8 {
        "8"
    } else {
        "9"
    }
}

/// `n` written in decimal.
pub fn decimal_string(n: u64) -> (r: String)
    ensures
        r@ == decimal_text(n as nat),
    decreases n,
{
    if n < 10 {
        let r = String::from_str(digit_str(n));
        assert(r@ =~= decimal_text(n as nat));
        r
    } else {
        let mut s = decimal_string(n / 10);
        s.append(digit_str(n % 10));
        assert(decimal_digits(n as nat) == decimal_digits((n / 10) as nat).push((n % 10) as nat));
        assert(s@ =~= decimal_text(n as nat));
        s
    }
}

/// `n` written in decimal, as ASCII bytes appended to `out`.
pub fn push_decimal(out: &mut Vec<u8>, n: u64)
    ensures
        final(out)@ == old(out)@ + decimal_ascii(n as nat),
    decreases n,
{
    if n < 10 {
        out.push((n as u8) + 48);
        assert(decimal_ascii(n as nat) =~= seq![((n as nat) + 48) as u8]);
    } else {
        push_decimal(out, n / 10);
        out.push(((n % 10) as u8) + 48);
        assert(decimal_digits(n as nat) == decimal_digits((n / 10) as nat).push((n % 10) as nat));
        assert(decimal_ascii(n as nat) =~= decimal_ascii((n / 10) as nat).push(
            (((n % 10) as nat) + 48) as u8,
        ));
    }
}

/// `n` in decimal, left-padded with zeros to at least `width` characters.
pub fn zero_padded_string(n: u64, width: usize) -> (r: String)
    ensures
        r@ == zero_padded(n as nat, width as nat),
{
    let d = decimal_string(n);
    let len = d.unicode_len();
    let mut s = String::new();
    proof {
        reveal_strlit("0");
    }
    let mut i: usize = len;
    while i < width
        invariant
            len == d@.len(),
            len <= i,
            len <= width ==> i <= width,
            len > width ==> i == len,
            s@ =~= Seq::new((i - len) as nat, |k: int| '0'),
        decreases width - i,
    {
        proof {
            reveal_strlit("0");
        }
        s.append("0");
        i = i + 1;
        assert(s@ =~= Seq::new((i - len) as nat, |k: int| '0'));
    }
    s.append(d.as_str());
    assert(s@ =~= zero_padded(n as nat, width as nat));
    s
}

/// Whether two texts hold the same characters.
pub fn same_text(a: &str, b: &str) -> (r: bool)
    ensures
        r == (a@ == b@),
{
    let n = a.unicode_len();
    if n != b.unicode_len() {
        return false;
    }
    let mut i: usize = 0;
    while i < n
        invariant
            n == a@.len(),
            n == b@.len(),
            i <= n,
            forall|k: int| 0 <= k < i ==> a@[k] == b@[k],
        decreases n - i,
    {
        if a.get_char(i) != b.get_char(i) {
            return false;
        }
        i = i + 1;
    }
    assert(a@ =~= b@);
    true
}

} // verus!
