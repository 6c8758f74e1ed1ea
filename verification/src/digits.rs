//! Decimal digit strings: the spec-level shape of a decimal number, exec
//! formatting and parsing of integers, and the lemmas that make the
//! representation canonical (formatting and parsing invert each other).

use vstd::prelude::*;

verus! {

/// The character standing for a single decimal digit value.
pub open spec fn digit_char(d: nat) -> char {
    if d == 0 {
        '0'
    } else if d == 1 {
        '1'
    } else if d == 2 {
        '2'
    } else if d == 3 {
        '3'
    } else if d == 4 {
        '4'
    } else if d == 5 {
        '5'
    } else if d == 6 {
        '6'
    } else if d == 7 {
        '7'
    } else if d == 8 {
        '8'
    } else {
        '9'
    }
}

/// The value of a decimal digit character; 10 for any other character.
pub open spec fn digit_val(c: char) -> nat {
    if c == '0' {
        0
    } else if c == '1' {
        1
    } else if c == '2' {
        2
    } else if c == '3' {
        3
    } else if c == '4' {
        4
    } else if c == '5' {
        5
    } else if c == '6' {
        6
    } else if c == '7' {
        7
    } else if c == '8' {
        8
    } else if c == '9' {
        9
    } else {
        10
    }
}

/// Whether `c` is an ASCII decimal digit.
pub open spec fn is_digit(c: char) -> bool {
    digit_val(c) < 10
}

/// The decimal digit string of `n`, most significant digit first, with no
/// leading zeros (zero itself is the single digit `0`).
pub open spec fn dec_seq(n: nat) -> Seq<char>
    decreases n,
{
    if n < 10 {
        seq![digit_char(n)]
    } else {
        dec_seq(n / 10).push(digit_char(n % 10))
    }
}

/// The decimal string of a possibly negative integer: a minus sign before
/// the digit string of the magnitude, and no sign for zero or positives.
pub open spec fn int_seq(n: int) -> Seq<char> {
    if n < 0 {
        seq!['-'] + dec_seq((-n) as nat)
    } else {
        dec_seq(n as nat)
    }
}

/// The value of a digit string read most significant digit first.
pub open spec fn seq_val(s: Seq<char>) -> nat
    decreases s.len(),
{
    if s.len() == 0 {
        0
    } else {
        seq_val(s.drop_last()) * 10 + digit_val(s.last())
    }
}

/// Whether every character of `s` is a decimal digit.
pub open spec fn all_digits(s: Seq<char>) -> bool {
    forall|i: int| 0 <= i < s.len() ==> is_digit(#[trigger] s[i])
}

/// A canonical digit string: nonempty, digits only, and no leading zero
/// except for the one-digit string `0`.
pub open spec fn canonical_digits(s: Seq<char>) -> bool {
    &&& s.len() >= 1
    &&& all_digits(s)
    &&& (s.len() == 1 || s[0] != '0')
}

/// The digit string of `n` is canonical and stands for `n`.
pub proof fn lemma_dec_seq_canonical(n: nat)
    ensures
        canonical_digits(dec_seq(n)),
        seq_val(dec_seq(n)) == n,
        n >= 1 ==> dec_seq(n)[0] != '0',
    decreases n,
{
    if n < 10 {
        assert(seq![digit_char(n)].drop_last() =~= Seq::<char>::empty());
        assert(seq_val(Seq::<char>::empty()) == 0);
        assert(seq_val(seq![digit_char(n)]) == digit_val(digit_char(n)));
        assert(digit_val(digit_char(n)) == n);
    } else {
        lemma_dec_seq_canonical(n / 10);
        let pre = dec_seq(n / 10);
        let d = n % 10;
        assert(pre.push(digit_char(d)).drop_last() =~= pre);
        assert(dec_seq(n).last() == digit_char(d));
        assert(digit_val(digit_char(d)) == d);
        assert(seq_val(dec_seq(n)) == seq_val(pre) * 10 + d);
        assert(seq_val(pre) * 10 + d == n);
        assert(dec_seq(n)[0] == pre[0]);
    }
}

/// A canonical digit string is the digit string of its value.
pub proof fn lemma_canonical_digits_unique(s: Seq<char>)
    requires
        canonical_digits(s),
    ensures
        dec_seq(seq_val(s)) == s,
    decreases s.len(),
{
    if s.len() == 1 {
        assert(s.drop_last() =~= Seq::<char>::empty());
        assert(seq_val(Seq::<char>::empty()) == 0);
        assert(is_digit(s[0]));
        assert(s.last() == s[0]);
        assert(seq_val(s) == digit_val(s[0]));
        assert(seq_val(s) < 10);
        assert(dec_seq(seq_val(s)) == seq![digit_char(digit_val(s[0]))]);
        assert(digit_char(digit_val(s[0])) == s[0]);
        assert(dec_seq(seq_val(s)) =~= s);
    } else {
        let pre = s.drop_last();
        let d = digit_val(s.last());
        lemma_seq_val_positive(pre);
        lemma_canonical_digits_unique(pre);
        let v = seq_val(s);
        assert(v == seq_val(pre) * 10 + d);
        assert(v / 10 == seq_val(pre) && v % 10 == d) by (nonlinear_arith)
            requires
                v == seq_val(pre) * 10 + d,
                0 <= d < 10,
        ;
        assert(dec_seq(v) == dec_seq(seq_val(pre)).push(digit_char(d)));
        assert(pre.push(s.last()) =~= s);
    }
}

/// A digit string with a nonzero leading digit has a positive value.
pub proof fn lemma_seq_val_positive(s: Seq<char>)
    requires
        s.len() >= 1,
        all_digits(s),
        s[0] != '0',
    ensures
        seq_val(s) >= 1,
    decreases s.len(),
{
    if s.len() == 1 {
        assert(s.drop_last() =~= Seq::<char>::empty());
    } else {
        assert(s.drop_last()[0] == s[0]);
        lemma_seq_val_positive(s.drop_last());
    }
}

/// Taking more digits never lowers the value read so far.
pub proof fn lemma_seq_val_extend_mono(s: Seq<char>, from: int, i: int, j: int)
    requires
        0 <= from <= i <= j <= s.len(),
    ensures
        seq_val(s.subrange(from, i)) <= seq_val(s.subrange(from, j)),
    decreases j - i,
{
    if i < j {
        let shorter = s.subrange(from, j - 1);
        assert(s.subrange(from, j).drop_last() =~= shorter);
        assert(seq_val(s.subrange(from, j)) == seq_val(shorter) * 10 + digit_val(
            s.subrange(from, j).last(),
        ));
        lemma_seq_val_extend_mono(s, from, i, j - 1);
    }
}

/// Distinct integers have distinct decimal strings.
pub proof fn lemma_int_seq_injective(a: int, b: int)
    requires
        int_seq(a) == int_seq(b),
    ensures
        a == b,
{
    lemma_dec_seq_canonical(if a < 0 {
        (-a) as nat
    } else {
        a as nat
    });
    lemma_dec_seq_canonical(if b < 0 {
        (-b) as nat
    } else {
        b as nat
    });
    if a < 0 && b < 0 {
        let sa = seq!['-'] + dec_seq((-a) as nat);
        let sb = seq!['-'] + dec_seq((-b) as nat);
        assert(sa.subrange(1, sa.len() as int) =~= dec_seq((-a) as nat));
        assert(sb.subrange(1, sb.len() as int) =~= dec_seq((-b) as nat));
        assert(dec_seq((-a) as nat) == dec_seq((-b) as nat));
        assert(seq_val(dec_seq((-a) as nat)) == seq_val(dec_seq((-b) as nat)));
    } else if a >= 0 && b >= 0 {
        assert(seq_val(dec_seq(a as nat)) == seq_val(dec_seq(b as nat)));
    } else if a < 0 && b >= 0 {
        assert(int_seq(a)[0] == '-');
        assert(is_digit(int_seq(b)[0]));
    } else {
        assert(int_seq(b)[0] == '-');
        assert(is_digit(int_seq(a)[0]));
    }
}

/// A one-character string for a single decimal digit value.
fn digit_str(d: u64) -> (r: &'static str)
    requires
        d < 10,
    ensures
        r@ == seq![digit_char(d as nat)],
{
    let r: &'static str = if d == 0 {
        "0"
    } else if d == 1 {
        "1"
    } else if d == 2 {
        "2"
    } else if d == 3 {
        "3"
    } else if d == 4 {
        "4"
    } else if d == 5 {
        "5"
    } else if d == 6 {
        "6"
    } else if d == 7 {
        "7"
    } else if d == 8 {
        "8"
    } else {
        "9"
    };
    proof {
        reveal_strlit("0");
        reveal_strlit("1");
        reveal_strlit("2");
        reveal_strlit("3");
        reveal_strlit("4");
        reveal_strlit("5");
        reveal_strlit("6");
        reveal_strlit("7");
        reveal_strlit("8");
        reveal_strlit("9");
        assert(r@ =~= seq![digit_char(d as nat)]);
    }
    r
}

/// The value of a decimal digit character; 10 for any other character.
fn char_digit(c: char) -> (r: u64)
    ensures
        r as nat == digit_val(c),
{
    if c == '0' {
        0
    } else if c == '1' {
        1
    } else if c == '2' {
        2
    } else if c == '3' {
        3
    } else if c == '4' {
        4
    } else if c == '5' {
        5
    } else if c == '6' {
        6
    } else if c == '7' {
        7
    } else if c == '8' {
        8
    } else if c == '9' {
        9
    } else {
        10
    }
}

/// Formats an unsigned integer as its canonical decimal digit string.
pub fn u64_string(n: u64) -> (r: String)
    ensures
        r@ == dec_seq(n as nat),
    decreases n,
{
    if n < 10 {
        digit_str(n).to_owned()
    } else {
        let mut s = u64_string(n / 10);
        s.append(digit_str(n % 10));
        proof {
            assert(s@ =~= dec_seq(n as nat));
        }
        s
    }
}

/// Formats a signed integer as its decimal string, minus sign first for
/// negative values.
pub fn i64_string(n: i64) -> (r: String)
    ensures
        r@ == int_seq(n as int),
{
    if n >= 0 {
        u64_string(n as u64)
    } else {
        let wide: i128 = n as i128;
        proof {
            assert(0 < -wide <= u64::MAX as int);
        }
        let mag: u64 = (-wide) as u64;
        let mut s = "-".to_owned();
        let digits = u64_string(mag);
        s.append(digits.as_str());
        proof {
            reveal_strlit("-");
            assert(s@ =~= int_seq(n as int));
        }
        s
    }
}

/// The end of the run of decimal digits that starts at `from`.
pub fn scan_digits(s: &str, from: usize) -> (r: usize)
    requires
        from <= s@.len(),
    ensures
        from <= r <= s@.len(),
        forall|k: int| from <= k < r ==> is_digit(#[trigger] s@[k]),
        r == s@.len() || !is_digit(s@[r as int]),
{
    let n = s.unicode_len();
    let mut i: usize = from;
    while i < n
        invariant
            from <= i <= n,
            n == s@.len(),
            forall|k: int| from <= k < i ==> is_digit(#[trigger] s@[k]),
        decreases n - i,
    {
        let c = s.get_char(i);
        if char_digit(c) >= 10 {
            return i;
        }
        i = i + 1;
    }
    i
}

/// Reads the digit substring `s[from..to]` as an unsigned integer; returns
/// its value exactly when that substring is a canonical digit string whose
/// value fits in a `u64`.
pub fn parse_digits_range(s: &str, from: usize, to: usize) -> (r: Option<u64>)
    requires
        from <= to <= s@.len(),
    ensures
        match r {
            Some(v) => canonical_digits(s@.subrange(from as int, to as int)) && seq_val(
                s@.subrange(from as int, to as int),
            ) == v,
            None => !canonical_digits(s@.subrange(from as int, to as int)) || seq_val(
                s@.subrange(from as int, to as int),
            ) > u64::MAX,
        },
{
    let ghost sub = s@.subrange(from as int, to as int);
    if from == to {
        return None;
    }
    let first = s.get_char(from);
    if first == '0' && to - from > 1 {
        assert(sub[0] == '0');
        return None;
    }
    let mut acc: u64 = 0;
    let mut i: usize = from;
    while i < to
        invariant
            from <= i <= to <= s@.len(),
            sub == s@.subrange(from as int, to as int),
            acc as nat == seq_val(s@.subrange(from as int, i as int)),
            all_digits(s@.subrange(from as int, i as int)),
        decreases to - i,
    {
        let c = s.get_char(i);
        let d = char_digit(c);
        let ghost prefix = s@.subrange(from as int, i as int);
        let ghost prefix1 = s@.subrange(from as int, i as int + 1);
        proof {
            assert(prefix1.drop_last() =~= prefix);
            assert(prefix1.last() == c);
        }
        if d >= 10 {
            assert(!is_digit(sub[i - from]));
            return None;
        }
        let widened = match acc.checked_mul(10) {
            Some(m) => m.checked_add(d),
            None => None,
        };
        match widened {
            Some(next) => {
                acc = next;
            },
            None => {
                proof {
                    assert(seq_val(prefix1) == seq_val(prefix) * 10 + digit_val(c));
                    assert(seq_val(prefix1) > u64::MAX);
                    lemma_seq_val_extend_mono(s@, from as int, i as int + 1, to as int);
                }
                return None;
            },
        }
        i = i + 1;
    }
    proof {
        assert(sub.len() >= 1);
        assert(sub.len() == 1 || sub[0] != '0');
    }
    Some(acc)
}

} // verus!
