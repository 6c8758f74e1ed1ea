//! The status record: a one-field JSON object carrying the millisecond
//! timestamp of the last successful render. The renderer writes the
//! canonical unspaced text; the route that serves the record back accepts
//! every well-formed reading of it — JSON whitespace around the tokens and
//! the JSON integer forms of the value, `-0` included — and treats
//! anything else as malformed. The module proves that parsing recognizes
//! exactly that grammar, that it inverts serialization, and that a poller
//! over a monotone clock never sees the timestamp go backwards.

use vstd::prelude::*;
use crate::digits::{
    int_seq, dec_seq, seq_val, canonical_digits, is_digit, i64_string, scan_digits,
    parse_digits_range, lemma_dec_seq_canonical, lemma_canonical_digits_unique,
    lemma_int_seq_injective,
};

verus! {

/// The parsed status record.
#[derive(Clone, Copy, PartialEq, Eq, Structural, Debug)]
pub struct StatusRecord {
    /// Milliseconds since the epoch at the last successful render.
    pub timestamp: i64,
}

/// Whether `c` is JSON whitespace.
pub open spec fn is_json_ws(c: char) -> bool {
    c == ' ' || c == '\t' || c == '\n' || c == '\r'
}

/// Whether `s[a..b]` is all JSON whitespace.
pub open spec fn ws_range(s: Seq<char>, a: int, b: int) -> bool {
    forall|i: int| a <= i < b ==> is_json_ws(#[trigger] s[i])
}

/// Whether `num` is a JSON integer denoting `t`: the canonical decimal
/// string of `t`, or `-0` for zero.
pub open spec fn json_int_text(num: Seq<char>, t: int) -> bool {
    num == int_seq(t) || (t == 0 && num == seq!['-', '0'])
}

/// Whether `s` is a status record text denoting `t`, with its tokens at
/// the given positions: whitespace, `{`, whitespace, the quoted key,
/// whitespace, `:`, whitespace, the integer at `[p3, pe)`, whitespace,
/// `}`, whitespace to the end.
pub open spec fn status_text_at(
    s: Seq<char>,
    t: int,
    p0: int,
    p1: int,
    p2: int,
    p3: int,
    pe: int,
    p4: int,
) -> bool {
    &&& 0 <= p0
    &&& p0 + 1 <= p1
    &&& p1 + 11 <= p2
    &&& p2 + 1 <= p3
    &&& p3 < pe
    &&& pe <= p4
    &&& p4 + 1 <= s.len()
    &&& ws_range(s, 0, p0)
    &&& s[p0] == '{'
    &&& ws_range(s, p0 + 1, p1)
    &&& s.subrange(p1, p1 + 11) == "\"timestamp\""@
    &&& ws_range(s, p1 + 11, p2)
    &&& s[p2] == ':'
    &&& ws_range(s, p2 + 1, p3)
    &&& json_int_text(s.subrange(p3, pe), t)
    &&& ws_range(s, pe, p4)
    &&& s[p4] == '}'
    &&& ws_range(s, p4 + 1, s.len() as int)
}

/// Whether `s` is a well-formed status record text denoting `t`.
pub open spec fn status_text(s: Seq<char>, t: int) -> bool {
    exists|p0: int, p1: int, p2: int, p3: int, pe: int, p4: int|
        status_text_at(s, t, p0, p1, p2, p3, pe, p4)
}

/// Whether `s` is a well-formed status record text of some timestamp that
/// fits in an `i64`.
pub open spec fn valid_status(s: Seq<char>) -> bool {
    exists|t: int| i64::MIN <= t <= i64::MAX && status_text(s, t)
}

/// The timestamp a status record text stands for, if any.
pub open spec fn status_value(s: Seq<char>) -> Option<int> {
    if valid_status(s) {
        Some(choose|t: int| i64::MIN <= t <= i64::MAX && status_text(s, t))
    } else {
        None
    }
}

/// The canonical text the renderer writes for timestamp `t`.
pub open spec fn status_seq(t: int) -> Seq<char> {
    "{\"timestamp\":"@ + int_seq(t) + "}"@
}

/// Serializes a status record as its canonical one-line JSON text.
pub fn status_json(t: i64) -> (r: String)
    ensures
        r@ == status_seq(t as int),
{
    let mut s = "{\"timestamp\":".to_owned();
    let digits = i64_string(t);
    s.append(digits.as_str());
    s.append("}");
    proof {
        assert(s@ =~= status_seq(t as int));
    }
    s
}

/// A decimal digit is none of the grammar's other characters.
proof fn lemma_digit_class(c: char)
    requires
        is_digit(c),
    ensures
        !is_json_ws(c),
        c != '}',
        c != '{',
        c != ':',
        c != '-',
        c != '"',
{
}

/// The characters a JSON integer text is made of.
proof fn lemma_json_int_chars(num: Seq<char>, t: int)
    requires
        json_int_text(num, t),
    ensures
        num.len() >= 1,
        is_digit(num[0]) || num[0] == '-',
        !is_json_ws(num[0]),
        num[0] == '-' ==> num.len() >= 2,
        forall|i: int| 1 <= i < num.len() ==> is_digit(#[trigger] num[i]),
{
    if num == int_seq(t) {
        if t < 0 {
            lemma_dec_seq_canonical((-t) as nat);
            assert(num[0] == '-');
            assert forall|i: int| 1 <= i < num.len() implies is_digit(#[trigger] num[i]) by {
                assert(num[i] == dec_seq((-t) as nat)[i - 1]);
            }
        } else {
            lemma_dec_seq_canonical(t as nat);
            assert(is_digit(num[0]));
            assert forall|i: int| 1 <= i < num.len() implies is_digit(#[trigger] num[i]) by {
                assert(is_digit(dec_seq(t as nat)[i]));
            }
        }
    } else {
        assert(num[0] == '-' && num[1] == '0');
    }
    if num[0] != '-' {
        lemma_digit_class(num[0]);
    }
}

/// A JSON integer text denotes one value.
proof fn lemma_json_int_value_unique(num: Seq<char>, t1: int, t2: int)
    requires
        json_int_text(num, t1),
        json_int_text(num, t2),
    ensures
        t1 == t2,
{
    if num == int_seq(t1) && num == int_seq(t2) {
        lemma_int_seq_injective(t1, t2);
    } else if num == int_seq(t1) {
        lemma_int_seq_not_minus_zero(t1);
    } else if num == int_seq(t2) {
        lemma_int_seq_not_minus_zero(t2);
    }
}

/// No integer's canonical text is `-0`.
proof fn lemma_int_seq_not_minus_zero(t: int)
    ensures
        int_seq(t) != seq!['-', '0'],
{
    lemma_dec_seq_canonical(if t < 0 {
        (-t) as nat
    } else {
        t as nat
    });
    if int_seq(t) == seq!['-', '0'] {
        if t < 0 {
            let d = dec_seq((-t) as nat);
            assert(d[0] == (seq!['-'] + d)[1]);
            assert(d =~= seq!['0']);
            assert(d.drop_last() =~= Seq::<char>::empty());
            assert(seq_val(Seq::<char>::empty()) == 0);
            assert(seq_val(d) == 0);
        } else {
            assert(is_digit(int_seq(t)[0]));
            lemma_digit_class(int_seq(t)[0]);
        }
    }
}

/// Two whitespace runs from the same start, each ending at a character
/// that is not whitespace (or at the end), end at the same place.
proof fn lemma_ws_boundary(s: Seq<char>, a: int, i: int, j: int)
    requires
        0 <= a,
        a <= i <= s.len(),
        a <= j <= s.len(),
        ws_range(s, a, i),
        ws_range(s, a, j),
        i == s.len() || !is_json_ws(s[i]),
        j == s.len() || !is_json_ws(s[j]),
    ensures
        i == j,
{
    if i < j {
        assert(is_json_ws(s[i]));
    }
    if j < i {
        assert(is_json_ws(s[j]));
    }
}

/// A record text's token positions are forced: they agree with the
/// positions a left-to-right scan finds.
proof fn lemma_positions_forced(
    s: Seq<char>,
    t: int,
    q0: int,
    q1: int,
    q2: int,
    q3: int,
    qe: int,
    q4: int,
    p0: int,
    p1: int,
    p2: int,
    p3: int,
    dstart: int,
    pe: int,
    p4: int,
)
    requires
        status_text_at(s, t, q0, q1, q2, q3, qe, q4),
        0 <= p0,
        p0 + 1 <= p1,
        p1 + 11 <= p2,
        p2 + 1 <= p3,
        p3 < s.len(),
        p3 <= dstart <= pe <= s.len(),
        pe <= p4 <= s.len(),
        ws_range(s, 0, p0),
        p0 == s.len() || !is_json_ws(s[p0]),
        ws_range(s, p0 + 1, p1),
        p1 == s.len() || !is_json_ws(s[p1]),
        ws_range(s, p1 + 11, p2),
        p2 == s.len() || !is_json_ws(s[p2]),
        ws_range(s, p2 + 1, p3),
        !is_json_ws(s[p3]),
        dstart == (if s[p3] == '-' {
            p3 + 1
        } else {
            p3
        }),
        forall|k: int| dstart <= k < pe ==> is_digit(#[trigger] s[k]),
        pe == s.len() || !is_digit(s[pe]),
        ws_range(s, pe, p4),
        p4 == s.len() || !is_json_ws(s[p4]),
    ensures
        q0 == p0,
        q1 == p1,
        q2 == p2,
        q3 == p3,
        qe == pe,
        q4 == p4,
{
    reveal_strlit("\"timestamp\"");
    assert(!is_json_ws('{'));
    lemma_ws_boundary(s, 0, p0, q0);
    assert(s[q1] == s.subrange(q1, q1 + 11)[0]);
    assert(!is_json_ws('"'));
    lemma_ws_boundary(s, p0 + 1, p1, q1);
    assert(!is_json_ws(':'));
    lemma_ws_boundary(s, p1 + 11, p2, q2);
    let num = s.subrange(q3, qe);
    lemma_json_int_chars(num, t);
    assert(s[q3] == num[0]);
    lemma_ws_boundary(s, p2 + 1, p3, q3);
    assert(qe == pe) by {
        if qe < pe {
            // the scan saw a digit where the record's number had ended
            assert(dstart <= qe) by {
                if s[p3] == '-' {
                    assert(num[0] == '-');
                    assert(qe >= q3 + 2);
                }
            }
            assert(is_digit(s[qe]));
            if qe < q4 {
                assert(is_json_ws(s[qe]));
            } else {
                assert(s[qe] == '}');
            }
            lemma_digit_class(s[qe]);
        }
        if pe < qe {
            // the record's number runs past the scanned digits
            assert(pe - q3 >= 1) by {
                if s[p3] == '-' {
                } else {
                    assert(num[0] == s[q3]);
                    if pe == q3 {
                        assert(is_digit(s[pe]) || s[pe] == '-');
                        lemma_digit_class(s[pe]);
                    }
                }
            }
            assert(s[pe] == num[pe - q3]);
            assert(is_digit(s[pe]));
        }
    }
    assert(!is_json_ws('}'));
    lemma_ws_boundary(s, pe, p4, q4);
}

/// A record text denotes one value.
proof fn lemma_status_text_value_unique(s: Seq<char>, t1: int, t2: int)
    requires
        status_text(s, t1),
        status_text(s, t2),
    ensures
        t1 == t2,
{
    let (a0, a1, a2, a3, ae, a4) = choose|a0: int, a1: int, a2: int, a3: int, ae: int, a4: int|
        status_text_at(s, t1, a0, a1, a2, a3, ae, a4);
    let (b0, b1, b2, b3, be, b4) = choose|b0: int, b1: int, b2: int, b3: int, be: int, b4: int|
        status_text_at(s, t2, b0, b1, b2, b3, be, b4);
    reveal_strlit("\"timestamp\"");
    assert(!is_json_ws('{'));
    lemma_ws_boundary(s, 0, a0, b0);
    assert(s[a1] == s.subrange(a1, a1 + 11)[0]);
    assert(s[b1] == s.subrange(b1, b1 + 11)[0]);
    assert(!is_json_ws('"'));
    lemma_ws_boundary(s, a0 + 1, a1, b1);
    assert(!is_json_ws(':'));
    lemma_ws_boundary(s, a1 + 11, a2, b2);
    let n1 = s.subrange(a3, ae);
    let n2 = s.subrange(b3, be);
    lemma_json_int_chars(n1, t1);
    lemma_json_int_chars(n2, t2);
    assert(s[a3] == n1[0]);
    assert(s[b3] == n2[0]);
    lemma_ws_boundary(s, a2 + 1, a3, b3);
    assert(ae == be) by {
        if ae < be {
            assert(s[ae] == n2[ae - b3]);
            assert(is_digit(s[ae]));
            if ae < a4 {
                assert(is_json_ws(s[ae]));
            } else {
                assert(s[ae] == '}');
            }
            lemma_digit_class(s[ae]);
        }
        if be < ae {
            assert(s[be] == n1[be - a3]);
            assert(is_digit(s[be]));
            if be < b4 {
                assert(is_json_ws(s[be]));
            } else {
                assert(s[be] == '}');
            }
            lemma_digit_class(s[be]);
        }
    }
    assert(n1 == n2);
    lemma_json_int_value_unique(n1, t1, t2);
}

/// The index of the first character at or after `from` that is not JSON
/// whitespace.
fn skip_ws(s: &str, from: usize) -> (r: usize)
    requires
        from <= s@.len(),
    ensures
        from <= r <= s@.len(),
        ws_range(s@, from as int, r as int),
        r == s@.len() || !is_json_ws(s@[r as int]),
{
    let n = s.unicode_len();
    let mut i: usize = from;
    while i < n
        invariant
            from <= i <= n,
            n == s@.len(),
            ws_range(s@, from as int, i as int),
        decreases n - i,
    {
        let c = s.get_char(i);
        if !(c == ' ' || c == '\t' || c == '\n' || c == '\r') {
            return i;
        }
        proof {
            assert(ws_range(s@, from as int, i as int + 1));
        }
        i = i + 1;
    }
    i
}

/// Whether `p` stands in `s` at position `at`.
fn match_at(s: &str, at: usize, p: &str) -> (r: bool)
    requires
        at <= s@.len(),
    ensures
        r == (at + p@.len() <= s@.len() && s@.subrange(at as int, at + p@.len()) == p@),
{
    let n = s.unicode_len();
    let pl = p.unicode_len();
    if pl > n - at {
        return false;
    }
    let mut i: usize = 0;
    while i < pl
        invariant
            0 <= i <= pl,
            at + pl <= n,
            n == s@.len(),
            pl == p@.len(),
            forall|k: int| 0 <= k < i ==> s@[at + k] == p@[k],
        decreases pl - i,
    {
        if s.get_char(at + i) != p.get_char(i) {
            proof {
                let sub = s@.subrange(at as int, at + p@.len());
                assert(sub[i as int] == s@[at + i]);
                assert(sub != p@) by {
                    if sub == p@ {
                        assert(sub[i as int] == p@[i as int]);
                    }
                }
            }
            return false;
        }
        i = i + 1;
    }
    proof {
        assert(s@.subrange(at as int, at + p@.len()) =~= p@);
    }
    true
}

/// Parses a status record text. Returns the timestamp exactly when the
/// text is a well-formed status record of some `i64` timestamp, and
/// nothing on any other text.
#[verifier::rlimit(100)]
pub fn parse_status(s: &str) -> (r: Option<i64>)
    ensures
        match r {
            Some(t) => status_value(s@) == Some(t as int),
            None => status_value(s@) is None,
        },
{
    proof {
        reveal_strlit("\"timestamp\"");
    }
    let n = s.unicode_len();
    let p0 = skip_ws(s, 0);
    if p0 == n || s.get_char(p0) != '{' {
        proof {
            assert forall|t: int| i64::MIN <= t <= i64::MAX implies !status_text(s@, t) by {
                if status_text(s@, t) {
                    let (q0, q1, q2, q3, qe, q4) = choose|
                        q0: int,
                        q1: int,
                        q2: int,
                        q3: int,
                        qe: int,
                        q4: int,
                    | status_text_at(s@, t, q0, q1, q2, q3, qe, q4);
                    assert(!is_json_ws('{'));
                    lemma_ws_boundary(s@, 0, p0 as int, q0);
                }
            }
        }
        return none_for_invalid(s);
    }
    let p1 = skip_ws(s, p0 + 1);
    if !match_at(s, p1, "\"timestamp\"") {
        proof {
            assert forall|t: int| i64::MIN <= t <= i64::MAX implies !status_text(s@, t) by {
                if status_text(s@, t) {
                    let (q0, q1, q2, q3, qe, q4) = choose|
                        q0: int,
                        q1: int,
                        q2: int,
                        q3: int,
                        qe: int,
                        q4: int,
                    | status_text_at(s@, t, q0, q1, q2, q3, qe, q4);
                    assert(!is_json_ws('{'));
                    lemma_ws_boundary(s@, 0, p0 as int, q0);
                    assert(s@[q1] == s@.subrange(q1, q1 + 11)[0]);
                    assert(!is_json_ws('"'));
                    lemma_ws_boundary(s@, p0 + 1, p1 as int, q1);
                }
            }
        }
        return none_for_invalid(s);
    }
    let p2 = skip_ws(s, p1 + 11);
    if p2 == n || s.get_char(p2) != ':' {
        proof {
            assert forall|t: int| i64::MIN <= t <= i64::MAX implies !status_text(s@, t) by {
                if status_text(s@, t) {
                    let (q0, q1, q2, q3, qe, q4) = choose|
                        q0: int,
                        q1: int,
                        q2: int,
                        q3: int,
                        qe: int,
                        q4: int,
                    | status_text_at(s@, t, q0, q1, q2, q3, qe, q4);
                    assert(!is_json_ws('{'));
                    lemma_ws_boundary(s@, 0, p0 as int, q0);
                    assert(s@[q1] == s@.subrange(q1, q1 + 11)[0]);
                    assert(!is_json_ws('"'));
                    lemma_ws_boundary(s@, p0 + 1, p1 as int, q1);
                    assert(!is_json_ws(':'));
                    lemma_ws_boundary(s@, p1 + 11, p2 as int, q2);
                }
            }
        }
        return none_for_invalid(s);
    }
    let p3 = skip_ws(s, p2 + 1);
    let neg = p3 < n && s.get_char(p3) == '-';
    let dstart = if neg {
        p3 + 1
    } else {
        p3
    };
    let pe = scan_digits(s, dstart);
    if pe == dstart {
        // no digits where the record's number must stand
        proof {
            assert forall|t: int| i64::MIN <= t <= i64::MAX implies !status_text(s@, t) by {
                if status_text(s@, t) {
                    let (q0, q1, q2, q3, qe, q4) = choose|
                        q0: int,
                        q1: int,
                        q2: int,
                        q3: int,
                        qe: int,
                        q4: int,
                    | status_text_at(s@, t, q0, q1, q2, q3, qe, q4);
                    assert(!is_json_ws('{'));
                    lemma_ws_boundary(s@, 0, p0 as int, q0);
                    assert(s@[q1] == s@.subrange(q1, q1 + 11)[0]);
                    assert(!is_json_ws('"'));
                    lemma_ws_boundary(s@, p0 + 1, p1 as int, q1);
                    assert(!is_json_ws(':'));
                    lemma_ws_boundary(s@, p1 + 11, p2 as int, q2);
                    let num = s@.subrange(q3, qe);
                    lemma_json_int_chars(num, t);
                    assert(s@[q3] == num[0]);
                    lemma_ws_boundary(s@, p2 + 1, p3 as int, q3);
                    if neg {
                        assert(num[0] == '-');
                        assert(num.len() >= 2);
                        assert(s@[p3 + 1] == num[1]);
                        assert(is_digit(s@[dstart as int]));
                    } else {
                        assert(is_digit(num[0]) || num[0] == '-');
                        assert(is_digit(s@[dstart as int]));
                    }
                }
            }
        }
        return none_for_invalid(s);
    }
    let p4 = skip_ws(s, pe);
    if p4 == n || s.get_char(p4) != '}' {
        proof {
            assert forall|t: int| i64::MIN <= t <= i64::MAX implies !status_text(s@, t) by {
                if status_text(s@, t) {
                    let (q0, q1, q2, q3, qe, q4) = choose|
                        q0: int,
                        q1: int,
                        q2: int,
                        q3: int,
                        qe: int,
                        q4: int,
                    | status_text_at(s@, t, q0, q1, q2, q3, qe, q4);
                    lemma_positions_forced(
                        s@, t, q0, q1, q2, q3, qe, q4,
                        p0 as int, p1 as int, p2 as int, p3 as int, dstart as int, pe as int,
                        p4 as int,
                    );
                }
            }
        }
        return none_for_invalid(s);
    }
    let p5 = skip_ws(s, p4 + 1);
    if p5 != n {
        // something other than whitespace follows the closing brace
        proof {
            assert forall|t: int| i64::MIN <= t <= i64::MAX implies !status_text(s@, t) by {
                if status_text(s@, t) {
                    let (q0, q1, q2, q3, qe, q4) = choose|
                        q0: int,
                        q1: int,
                        q2: int,
                        q3: int,
                        qe: int,
                        q4: int,
                    | status_text_at(s@, t, q0, q1, q2, q3, qe, q4);
                    lemma_positions_forced(
                        s@, t, q0, q1, q2, q3, qe, q4,
                        p0 as int, p1 as int, p2 as int, p3 as int, dstart as int, pe as int,
                        p4 as int,
                    );
                    assert(is_json_ws(s@[p5 as int]));
                }
            }
        }
        return none_for_invalid(s);
    }
    let ghost digitsub = s@.subrange(dstart as int, pe as int);
    let parsed = parse_digits_range(s, dstart, pe);
    proof {
        // for every t the text could denote, pin the number's digits
        assert forall|t: int|
            i64::MIN <= t <= i64::MAX && status_text(s@, t) implies ({
            &&& (neg && s@.subrange(p3 as int, pe as int) == seq!['-', '0'] ==> t == 0 && digitsub
                == seq!['0'])
            &&& (neg && s@.subrange(p3 as int, pe as int) != seq!['-', '0'] ==> t < 0 && digitsub
                == dec_seq((-t) as nat))
            &&& (!neg ==> t >= 0 && digitsub == dec_seq(t as nat))
        }) by {
            if status_text(s@, t) {
                let (q0, q1, q2, q3, qe, q4) = choose|
                    q0: int,
                    q1: int,
                    q2: int,
                    q3: int,
                    qe: int,
                    q4: int,
                | status_text_at(s@, t, q0, q1, q2, q3, qe, q4);
                lemma_positions_forced(
                    s@, t, q0, q1, q2, q3, qe, q4,
                    p0 as int, p1 as int, p2 as int, p3 as int, dstart as int, pe as int,
                    p4 as int,
                );
                let num = s@.subrange(q3, qe);
                lemma_json_int_chars(num, t);
                lemma_dec_seq_canonical(if t < 0 {
                    (-t) as nat
                } else {
                    t as nat
                });
                if neg {
                    assert(num[0] == s@[p3 as int]);
                    if num == int_seq(t) {
                        assert(t < 0) by {
                            if t >= 0 {
                                assert(is_digit(int_seq(t)[0]));
                                lemma_digit_class(int_seq(t)[0]);
                            }
                        }
                        let d = dec_seq((-t) as nat);
                        assert(num == seq!['-'] + d);
                        assert(digitsub =~= d) by {
                            assert(num.len() == 1 + d.len());
                            assert forall|k: int| 0 <= k < digitsub.len() implies digitsub[k] == d[k] by {
                                assert(digitsub[k] == s@[dstart + k]);
                                assert(num[1 + k] == s@[q3 + 1 + k]);
                                assert(num[1 + k] == d[k]);
                            }
                        }
                        lemma_int_seq_not_minus_zero(t);
                    } else {
                        assert(t == 0 && num == seq!['-', '0']);
                        assert(s@.subrange(p3 as int, pe as int) == num);
                        assert(digitsub =~= seq!['0']) by {
                            assert(digitsub[0] == s@[dstart as int]);
                            assert(num[1] == s@[q3 + 1]);
                            assert(num[1] == '0');
                        }
                    }
                } else {
                    assert(num[0] == s@[p3 as int]);
                    assert(num[0] != '-');
                    assert(num == int_seq(t));
                    assert(t >= 0) by {
                        if t < 0 {
                            assert(int_seq(t)[0] == '-');
                        }
                    }
                    assert(digitsub =~= dec_seq(t as nat));
                }
            }
        }
    }
    match parsed {
        None => {
            proof {
                assert forall|t: int| i64::MIN <= t <= i64::MAX implies !status_text(s@, t) by {
                    if status_text(s@, t) {
                        lemma_dec_seq_canonical(if t < 0 {
                            (-t) as nat
                        } else {
                            t as nat
                        });
                        if neg && s@.subrange(p3 as int, pe as int) == seq!['-', '0'] {
                            assert(digitsub == seq!['0']);
                            assert(canonical_digits(digitsub));
                            assert(digitsub.drop_last() =~= Seq::<char>::empty());
                            assert(seq_val(Seq::<char>::empty()) == 0);
                            assert(seq_val(digitsub) == 0);
                        }
                    }
                }
            }
            none_for_invalid(s)
        },
        Some(mag) => {
            if neg {
                if mag > 9223372036854775808u64 {
                    proof {
                        assert forall|t: int| i64::MIN <= t <= i64::MAX implies !status_text(
                            s@,
                            t,
                        ) by {
                            if status_text(s@, t) {
                                lemma_dec_seq_canonical(if t < 0 {
                                    (-t) as nat
                                } else {
                                    t as nat
                                });
                                if s@.subrange(p3 as int, pe as int) == seq!['-', '0'] {
                                    assert(digitsub == seq!['0']);
                                    assert(digitsub.drop_last() =~= Seq::<char>::empty());
                                    assert(seq_val(Seq::<char>::empty()) == 0);
                                    assert(seq_val(digitsub) == 0);
                                }
                            }
                        }
                    }
                    return none_for_invalid(s);
                }
                let tv: i64 = if mag == 9223372036854775808u64 {
                    i64::MIN
                } else {
                    -(mag as i64)
                };
                proof {
                    lemma_accept(s@, tv, p0 as int, p1 as int, p2 as int, p3 as int, pe as int,
                        p4 as int, true, mag);
                }
                Some(tv)
            } else {
                if mag > 9223372036854775807u64 {
                    proof {
                        assert forall|t: int| i64::MIN <= t <= i64::MAX implies !status_text(
                            s@,
                            t,
                        ) by {
                            if status_text(s@, t) {
                                lemma_dec_seq_canonical(if t < 0 {
                                    (-t) as nat
                                } else {
                                    t as nat
                                });
                            }
                        }
                    }
                    return none_for_invalid(s);
                }
                let tv: i64 = mag as i64;
                proof {
                    lemma_accept(s@, tv, p0 as int, p1 as int, p2 as int, p3 as int, pe as int,
                        p4 as int, false, mag);
                }
                Some(tv)
            }
        },
    }
}

/// Wraps the rejected outcome: on a text no `i64` timestamp's record can
/// be, the parser answers nothing.
fn none_for_invalid(s: &str) -> (r: Option<i64>)
    requires
        forall|t: int| i64::MIN <= t <= i64::MAX ==> !status_text(s@, t),
    ensures
        r is None,
        status_value(s@) is None,
{
    proof {
        assert(status_value(s@) is None) by {
            if valid_status(s@) {
                let tw = choose|tw: int| i64::MIN <= tw <= i64::MAX && status_text(s@, tw);
                assert(!status_text(s@, tw));
            }
        }
    }
    None
}

/// The accepted outcome: the scanned positions witness the record, and
/// its value is the parsed one.
proof fn lemma_accept(
    s: Seq<char>,
    tv: i64,
    p0: int,
    p1: int,
    p2: int,
    p3: int,
    pe: int,
    p4: int,
    neg: bool,
    mag: u64,
)
    requires
        0 <= p0,
        p0 + 1 <= p1,
        p1 + 11 <= p2,
        p2 + 1 <= p3,
        p3 < pe,
        pe <= p4,
        p4 + 1 <= s.len(),
        ws_range(s, 0, p0),
        s[p0] == '{',
        ws_range(s, p0 + 1, p1),
        s.subrange(p1, p1 + 11) == "\"timestamp\""@,
        ws_range(s, p1 + 11, p2),
        s[p2] == ':',
        ws_range(s, p2 + 1, p3),
        ws_range(s, pe, p4),
        s[p4] == '}',
        ws_range(s, p4 + 1, s.len() as int),
        neg ==> s[p3] == '-' && canonical_digits(s.subrange(p3 + 1, pe)) && seq_val(
            s.subrange(p3 + 1, pe),
        ) == mag && mag <= 9223372036854775808u64 && (tv as int) == -(mag as int),
        !neg ==> canonical_digits(s.subrange(p3, pe)) && seq_val(s.subrange(p3, pe)) == mag
            && mag <= 9223372036854775807u64 && (tv as int) == mag as int,
    ensures
        status_value(s) == Some(tv as int),
{
    let num = s.subrange(p3, pe);
    if neg {
        let digitsub = s.subrange(p3 + 1, pe);
        lemma_canonical_digits_unique(digitsub);
        if mag == 0 {
            assert(dec_seq(0) =~= seq!['0']);
            assert(num =~= seq!['-', '0']);
            assert(json_int_text(num, tv as int));
        } else {
            assert(num =~= seq!['-'] + dec_seq(mag as nat));
            assert(int_seq(tv as int) == seq!['-'] + dec_seq((-(tv as int)) as nat));
            assert(num == int_seq(tv as int));
            assert(json_int_text(num, tv as int));
        }
    } else {
        lemma_canonical_digits_unique(num);
        assert(num == dec_seq(mag as nat));
        assert(int_seq(tv as int) == dec_seq(mag as nat));
        assert(json_int_text(num, tv as int));
    }
    assert(status_text_at(s, tv as int, p0, p1, p2, p3, pe, p4));
    assert(status_text(s, tv as int));
    assert(valid_status(s));
    let t0 = choose|t0: int| i64::MIN <= t0 <= i64::MAX && status_text(s, t0);
    lemma_status_text_value_unique(s, t0, tv as int);
}

/// The canonical text the renderer writes is a well-formed record of its
/// timestamp.
proof fn lemma_status_seq_well_formed(t: int)
    ensures
        status_text(status_seq(t), t),
{
    reveal_strlit("{\"timestamp\":");
    reveal_strlit("}");
    reveal_strlit("\"timestamp\"");
    lemma_dec_seq_canonical(if t < 0 {
        (-t) as nat
    } else {
        t as nat
    });
    let s = status_seq(t);
    let ilen = int_seq(t).len() as int;
    assert(s.len() == 14 + ilen);
    assert(s[0] == '{');
    assert(s.subrange(1, 12) =~= "\"timestamp\""@);
    assert(s[12] == ':');
    assert(s.subrange(13, 13 + ilen) =~= int_seq(t));
    assert(s[13 + ilen] == '}');
    assert(json_int_text(s.subrange(13, 13 + ilen), t));
    assert(status_text_at(s, t, 0, 1, 12, 13, 13 + ilen, 13 + ilen));
}

/// Parsing inverts serialization: the canonical text of `t` stands for
/// `t`.
pub proof fn lemma_status_round_trip(t: i64)
    ensures
        status_value(status_seq(t as int)) == Some(t as int),
{
    lemma_status_seq_well_formed(t as int);
    assert(i64::MIN <= t as int <= i64::MAX && status_text(status_seq(t as int), t as int));
    assert(valid_status(status_seq(t as int)));
    let t0 = choose|t0: int| i64::MIN <= t0 <= i64::MAX && status_text(status_seq(t as int), t0);
    lemma_status_text_value_unique(status_seq(t as int), t0, t as int);
}

/// What a poller reads from successive status records: when the clock
/// values of a sequence of successful renders never decrease, the
/// timestamp parsed from a later record is never below the one parsed
/// from an earlier record.
pub proof fn lemma_poller_sees_nondecreasing(ts: Seq<i64>, i: int, j: int)
    requires
        0 <= i <= j < ts.len(),
        forall|k: int, l: int| 0 <= k <= l < ts.len() ==> (#[trigger] ts[k]) <= (#[trigger] ts[l]),
    ensures
        status_value(status_seq(ts[i] as int)) == Some(ts[i] as int),
        status_value(status_seq(ts[j] as int)) == Some(ts[j] as int),
        ts[i] <= ts[j],
{
    lemma_status_round_trip(ts[i]);
    lemma_status_round_trip(ts[j]);
}

} // verus!
