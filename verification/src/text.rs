//! Decimal numbers and padding, as the emitter writes them.

use vstd::prelude::*;

verus! {

/// The character of a single decimal digit.
pub open spec fn digit_char(d: int) -> char {
    if d == 0 {
        '0'
    } else if d == 1 {
        '1'
    } else if d == 2 {
        '2'
    } else if d == 3 {
        '3'
    } else if d == 4 {
        '4'
    } else if d == 5 {
        '5'
    } else if d == 6 {
        '6'
    } else if d == 7 {
        '7'
    } else if d == 8 {
        '8'
    } else {
        '9'
    }
}

/// A natural number in decimal, without leading zeros.
pub open spec fn nat_text(n: nat) -> Seq<char>
    decreases n,
{
    if n < 10 {
        seq![digit_char(n as int)]
    } else {
        nat_text(n / 10).push(digit_char((n % 10) as int))
    }
}

/// An integer in decimal, with a minus sign in front of a negative one.
pub open spec fn int_text(v: int) -> Seq<char> {
    if v < 0 {
        seq!['-'] + nat_text((-v) as nat)
    } else {
        nat_text(v as nat)
    }
}

/// `k` blanks.
pub open spec fn spaces(k: nat) -> Seq<char> {
    Seq::new(k, |i: int| ' ')
}

/// `s`, followed by as many blanks as it takes to fill `width` columns.
pub open spec fn left_justified(s: Seq<char>, width: nat) -> Seq<char> {
    if s.len() >= width {
        s
    } else {
        s + spaces((width - s.len()) as nat)
    }
}

/// The decimal form of a number has at least one digit, and two from ten on.
pub proof fn lemma_nat_text_len(n: nat)
    ensures
        nat_text(n).len() >= 1,
        n >= 10 ==> nat_text(n).len() >= 2,
        n < 10 ==> nat_text(n).len() == 1,
    decreases n,
{
    if n >= 10 {
        lemma_nat_text_len(n / 10);
    }
}

/// No digit of a decimal form is a minus sign.
pub proof fn lemma_nat_text_no_minus(n: nat)
    ensures
        nat_text(n)[0] != '-',
    decreases n,
{
    if n >= 10 {
        lemma_nat_text_no_minus(n / 10);
        lemma_nat_text_len(n / 10);
    }
}

/// Two numbers with the same decimal form are the same number.
pub proof fn lemma_nat_text_injective(a: nat, b: nat)
    requires
        nat_text(a) == nat_text(b),
    ensures
        a == b,
    decreases a,
{
    lemma_nat_text_len(a);
    lemma_nat_text_len(b);
    if a < 10 {
        assert(nat_text(a)[0] == digit_char(a as int));
    } else {
        let sa = nat_text(a / 10);
        let sb = nat_text(b / 10);
        let da = digit_char((a % 10) as int);
        let db = digit_char((b % 10) as int);
        assert(sa.push(da).drop_last() =~= sa);
        assert(sb.push(db).drop_last() =~= sb);
        assert(sa.push(da).last() == da);
        lemma_nat_text_injective(a / 10, b / 10);
    }
}

/// Two integers with the same decimal form are the same integer.
pub proof fn lemma_int_text_injective(a: int, b: int)
    requires
        int_text(a) == int_text(b),
    ensures
        a == b,
{
    if a < 0 && b < 0 {
        let sa = nat_text((-a) as nat);
        let sb = nat_text((-b) as nat);
        assert((seq!['-'] + sa).subrange(1, 1 + sa.len() as int) =~= sa);
        assert((seq!['-'] + sb).subrange(1, 1 + sb.len() as int) =~= sb);
        assert((seq!['-'] + sa).len() == 1 + sa.len());
        lemma_nat_text_injective((-a) as nat, (-b) as nat);
    } else if a < 0 {
        lemma_nat_text_no_minus(b as nat);
    } else if b < 0 {
        lemma_nat_text_no_minus(a as nat);
    } else {
        lemma_nat_text_injective(a as nat, b as nat);
    }
}

fn digit_str(d: u64) -> (s: &'static str)
    requires
        d < 10,
    ensures
        s@ == seq![digit_char(d as int)],
{
    proof {
        reveal_strlit("0");
        reveal_strlit("1");
        reveal_strlit("2");
        reveal_strlit("3");
        reveal_strlit("4");
        reveal_strlit("5");
        reveal_strlit("6");
        reveal_strlit("7");
        reveal_strlit("8");
        reveal_strlit("9");
    }
    let s = if d == 0 {
        "0"
    } else if d == 1 {
        "1"
    } else if d == 2 {
        "2"
    } else if d == 3 {
        "3"
    } else if d == 4 {
        "4"
    } else if d == 5 {
        "5"
    } else if d == 6 {
        "6"
    } else if d == 7 {
        "7"
    } else if d == 8 {
        "8"
    } else {
        "9"
    };
    s
}

/// Appends `n` in decimal.
pub fn push_nat(buf: &mut String, n: u64)
    ensures
        final(buf)@ == old(buf)@ + nat_text(n as nat),
    decreases n,
{
    if n >= 10 {
        push_nat(buf, n / 10);
    }
    buf.append(digit_str(n % 10));
}

/// Appends `v` in decimal, with its sign where it is negative.
pub fn push_int(buf: &mut String, v: i64)
    ensures
        final(buf)@ == old(buf)@ + int_text(v as int),
{
    if v < 0 {
        let magnitude: u64 = if v == i64::MIN {
            9223372036854775808u64
        } else {
            (-v) as u64
        };
        proof {
            reveal_strlit("-");
        }
        buf.append("-");
        push_nat(buf, magnitude);
    } else {
        push_nat(buf, v as u64);
    }
}

/// Appends `k` blanks.
pub fn push_spaces(buf: &mut String, k: usize)
    ensures
        final(buf)@ == old(buf)@ + spaces(k as nat),
{
    let mut i: usize = 0;
    proof {
        reveal_strlit(" ");
    }
    while i < k
        invariant
            i <= k,
            buf@ == old(buf)@ + spaces(i as nat),
            " "@ =~= seq![' '],
        decreases k - i,
    {
        buf.append(" ");
        i = i + 1;
    }
}

/// Appends `s`, filled with blanks on the right up to `width` columns.
pub fn push_left_justified(buf: &mut String, s: &str, width: usize)
    ensures
        final(buf)@ == old(buf)@ + left_justified(s@, width as nat),
{
    let n = s.unicode_len();
    buf.append(s);
    if n < width {
        push_spaces(buf, width - n);
    }
}

} // verus!
