//! Decimal text of 32-bit signed integers, written and read back.
use vstd::prelude::*;

verus! {

pub open spec fn is_digit(c: char) -> bool {
    '0' <= c && c <= '9'
}

pub open spec fn digit_value(c: char) -> int {
    (c as u32) as int - ('0' as u32) as int
}

pub open spec fn digit_char(d: nat) -> char {
    ((d + ('0' as u32)) as u32) as char
}

pub open spec fn all_digits(s: Seq<char>) -> bool {
    forall|i: int| 0 <= i < s.len() ==> is_digit(#[trigger] s[i])
}

/// The value of a string of decimal digits, most significant first.
pub open spec fn digits_value(s: Seq<char>) -> int
    decreases s.len(),
{
    if s.len() == 0 {
        0
    } else {
        10 * digits_value(s.drop_last()) + digit_value(s.last())
    }
}

/// The integer an optionally signed run of digits denotes.
pub open spec fn int_value(s: Seq<char>) -> Option<int> {
    if s.len() > 1 && (s[0] == '-' || s[0] == '+') && all_digits(s.skip(1)) {
        if s[0] == '-' {
            Some(-digits_value(s.skip(1)))
        } else {
            Some(digits_value(s.skip(1)))
        }
    } else if s.len() > 0 && all_digits(s) {
        Some(digits_value(s))
    } else {
        None
    }
}

/// What reading `s` as an `i32` gives: the value when it is well formed
/// and fits.
pub open spec fn parsed_i32(s: Seq<char>) -> Option<i32> {
    match int_value(s) {
        Some(v) => if i32::MIN <= v <= i32::MAX {
            Some(v as i32)
        } else {
            None
        },
        None => None,
    }
}

/// Shortest decimal digits of `n`.
pub open spec fn nat_digits(n: nat) -> Seq<char>
    decreases n,
{
    if n < 10 {
        seq![digit_char(n)]
    } else {
        nat_digits(n / 10).push(digit_char(n % 10))
    }
}

/// Decimal text of `v`, with a leading `-` when negative.
pub open spec fn int_text(v: int) -> Seq<char> {
    if v < 0 {
        seq!['-'] + nat_digits((-v) as nat)
    } else {
        nat_digits(v as nat)
    }
}

proof fn lemma_digit_char(d: nat)
    requires
        d < 10,
    ensures
        is_digit(digit_char(d)),
        digit_value(digit_char(d)) == d,
{
}

pub proof fn lemma_nat_digits(n: nat)
    ensures
        nat_digits(n).len() > 0,
        all_digits(nat_digits(n)),
        digits_value(nat_digits(n)) == n,
    decreases n,
{
    if n < 10 {
        lemma_digit_char(n);
        assert(nat_digits(n).drop_last() =~= Seq::<char>::empty());
        assert(digits_value(Seq::<char>::empty()) == 0);
        assert(digits_value(nat_digits(n)) == 10 * digits_value(nat_digits(n).drop_last()) + digit_value(nat_digits(n).last()));
    } else {
        lemma_nat_digits(n / 10);
        lemma_digit_char(n % 10);
        let s = nat_digits(n);
        assert(s.drop_last() =~= nat_digits(n / 10));
        assert(s.last() == digit_char(n % 10));
        assert(digits_value(s) == 10 * digits_value(s.drop_last()) + digit_value(s.last()));
        assert(digits_value(s) == 10 * (n / 10) + (n % 10) as int);
        assert(n == 10 * (n / 10) + n % 10);
    }
}

pub proof fn lemma_int_text_chars(v: int)
    ensures
        int_text(v).len() > 0,
        forall|i: int| 0 <= i < int_text(v).len() ==> is_digit(#[trigger] int_text(v)[i]) || int_text(v)[i] == '-',
{
    if v < 0 {
        lemma_nat_digits((-v) as nat);
        let d = nat_digits((-v) as nat);
        assert forall|i: int| 0 <= i < int_text(v).len() implies is_digit(#[trigger] int_text(v)[i]) || int_text(v)[i] == '-' by {
            if i > 0 {
                assert(int_text(v)[i] == d[i - 1]);
            }
        }
    } else {
        lemma_nat_digits(v as nat);
    }
}

/// Reading back the decimal text of an `i32` gives the same value.
pub proof fn lemma_parse_int_text(v: i32)
    ensures
        parsed_i32(int_text(v as int)) == Some(v),
{
    if v < 0 {
        let m = (-(v as int)) as nat;
        lemma_nat_digits(m);
        let s = int_text(v as int);
        assert(s.skip(1) =~= nat_digits(m));
    } else {
        lemma_nat_digits(v as nat);
        assert(digit_value('-') < 0);
        assert(digit_value('+') < 0);
    }
}

proof fn lemma_digits_value_push(s: Seq<char>, c: char)
    ensures
        digits_value(s.push(c)) == 10 * digits_value(s) + digit_value(c),
{
    assert(s.push(c).drop_last() =~= s);
}

proof fn lemma_digits_value_nonneg(s: Seq<char>)
    requires
        all_digits(s),
    ensures
        digits_value(s) >= 0,
    decreases s.len(),
{
    if s.len() > 0 {
        assert(all_digits(s.drop_last()));
        lemma_digits_value_nonneg(s.drop_last());
    }
}

/// The value of a run of digits is at least that of any of its prefixes.
proof fn lemma_digits_value_grows(s: Seq<char>, i: int)
    requires
        all_digits(s),
        0 <= i <= s.len(),
    ensures
        digits_value(s.take(i)) <= digits_value(s),
    decreases s.len() - i,
{
    if i < s.len() {
        lemma_digits_value_grows(s, i + 1);
        assert(s.take(i + 1).drop_last() =~= s.take(i));
        assert(all_digits(s.take(i)));
        lemma_digits_value_nonneg(s.take(i));
        assert(is_digit(s[i]));
    } else {
        assert(s.take(i) =~= s);
    }
}

/// Appends the decimal text of `v` to `out`.
pub fn push_int_text(out: &mut Vec<char>, v: i32)
    ensures
        final(out)@ == old(out)@ + int_text(v as int),
{
    let neg = v < 0;
    let mut n: u64 = if neg {
        (-(v as i64)) as u64
    } else {
        v as u64
    };
    let ghost orig: nat = n as nat;
    let mut acc: Vec<char> = Vec::new();
    while n >= 10
        invariant
            nat_digits(orig) == nat_digits(n as nat) + acc@,
            n <= orig,
            orig <= 2147483648,
        decreases n,
    {
        let d = (n % 10) as u8;
        let c = (d + 48) as char;
        let ghost prev = acc@;
        proof {
            assert(nat_digits(n as nat) == nat_digits((n / 10) as nat).push(digit_char((n % 10) as nat)));
        }
        acc.insert(0, c);
        proof {
            assert(c == digit_char((n % 10) as nat));
            assert(nat_digits(n as nat) + prev =~= nat_digits((n / 10) as nat) + acc@);
        }
        n = n / 10;
    }
    let c = ((n as u8) + 48) as char;
    acc.insert(0, c);
    proof {
        assert(nat_digits(orig) =~= acc@);
    }
    if neg {
        out.push('-');
    }
    let mut i: usize = 0;
    let ghost start = out@;
    while i < acc.len()
        invariant
            i <= acc@.len(),
            out@ == start + acc@.take(i as int),
        decreases acc@.len() - i,
    {
        out.push(acc[i]);
        proof {
            assert(acc@.take(i as int + 1) =~= acc@.take(i as int).push(acc@[i as int]));
        }
        i = i + 1;
    }
    proof {
        assert(acc@.take(i as int) =~= acc@);
        if neg {
            assert(old(out)@ + int_text(v as int) =~= start + acc@);
        } else {
            assert(old(out)@ + int_text(v as int) =~= start + acc@);
        }
    }
}

/// Reads `s` as an `i32` the way `str::parse` does: an optional sign,
/// then one or more digits, with a value that fits.
pub fn parse_i32(s: &Vec<char>) -> (r: Option<i32>)
    ensures
        r == parsed_i32(s@),
{
    let n = s.len();
    if n == 0 {
        return None;
    }
    let neg = s[0] == '-';
    let start: usize = if s[0] == '-' || s[0] == '+' {
        1
    } else {
        0
    };
    if start == n {
        return None;
    }
    let ghost body = s@.skip(start as int);
    let mut acc: u64 = 0;
    let mut i = start;
    while i < n
        invariant
            start <= i <= n,
            n == s@.len(),
            start == 0 || start == 1,
            start == 1 <==> (s@[0] == '-' || s@[0] == '+'),
            neg <==> s@[0] == '-',
            body == s@.skip(start as int),
            all_digits(s@.subrange(start as int, i as int)),
            acc as int == digits_value(s@.subrange(start as int, i as int)),
            acc <= 2147483648,
        decreases n - i,
    {
        let c = s[i];
        if !('0' <= c && c <= '9') {
            proof {
                assert(body[i - start] == c);
                assert(!is_digit(s@[0]) || start == 0);
            }
            return None;
        }
        let d = (c as u32 - '0' as u32) as u64;
        let ghost prev = s@.subrange(start as int, i as int);
        proof {
            assert(s@.subrange(start as int, i + 1) =~= prev.push(c));
            lemma_digits_value_push(prev, c);
        }
        acc = acc * 10 + d;
        i = i + 1;
        if acc > 2147483648 {
            proof {
                if all_digits(body) {
                    assert(body.take(i - start) =~= s@.subrange(start as int, i as int));
                    lemma_digits_value_grows(body, i - start);
                }
                if start == 1 {
                    assert(!is_digit(s@[0]));
                }
                if start == 0 {
                    assert(body =~= s@);
                }
            }
            return None;
        }
    }
    proof {
        assert(s@.subrange(start as int, n as int) =~= body);
        if start == 0 {
            assert(body =~= s@);
        }
        if start == 1 {
            assert(!is_digit(s@[0]));
        }
    }
    if neg {
        Some((-(acc as i64)) as i32)
    } else if acc <= 2147483647 {
        Some(acc as i32)
    } else {
        None
    }
}

} // verus!
