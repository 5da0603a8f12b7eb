//! Capture timestamps and their fixed-width rendering. Segment files are
//! named with a zero-padded `YYYY-MM-DD_HH-MM-SS` stamp, so the lexical
//! order of names is monotonic in capture time; the lemmas at the bottom
//! prove that. The current wall-clock reading comes from one trusted call
//! into chrono.

use vstd::prelude::*;
use crate::text::{lex_lt, lemma_lex_concat};

verus! {

/// One wall-clock reading, split into calendar fields.
#[derive(Clone, Copy, PartialEq, Eq, Structural)]
pub struct Timestamp {
    pub year: u32,
    pub month: u32,
    pub day: u32,
    pub hour: u32,
    pub minute: u32,
    pub second: u32,
}

impl Timestamp {
    /// Every field fits its fixed-width rendering.
    pub open spec fn wf(&self) -> bool {
        &&& self.year <= 9999
        &&& 1 <= self.month <= 12
        &&& 1 <= self.day <= 31
        &&& self.hour <= 23
        &&& self.minute <= 59
        &&& self.second <= 59
    }

    /// Strictly earlier, field by field from year to second.
    pub open spec fn lt(&self, other: &Timestamp) -> bool {
        if self.year != other.year {
            self.year < other.year
        } else if self.month != other.month {
            self.month < other.month
        } else if self.day != other.day {
            self.day < other.day
        } else if self.hour != other.hour {
            self.hour < other.hour
        } else if self.minute != other.minute {
            self.minute < other.minute
        } else {
            self.second < other.second
        }
    }
}

/// The character rendering one decimal digit.
pub open spec fn digit_char(d: int) -> char {
    if d == 0 {
        '0'
    } else if d == 1 {
        '1'
    } else if d == 2 {
        '2'
    } else if d == 3 {
        '3'
    } else if d == 4 {
        '4'
    } else if d == 5 {
        '5'
    } else if d == 6 {
        '6'
    } else if d == 7 {
        '7'
    } else if d == 8 {
        '8'
    } else {
        '9'
    }
}

/// Two-digit zero-padded rendering of `n < 100`.
pub open spec fn pad2(n: int) -> Seq<char> {
    seq![digit_char(n / 10), digit_char(n % 10)]
}

/// Four-digit zero-padded rendering of `n < 10000`.
pub open spec fn pad4(n: int) -> Seq<char> {
    seq![
        digit_char(n / 1000),
        digit_char((n / 100) % 10),
        digit_char((n / 10) % 10),
        digit_char(n % 10),
    ]
}

/// The full `YYYY-MM-DD_HH-MM-SS` stamp of a timestamp.
pub open spec fn spec_stamp(t: Timestamp) -> Seq<char> {
    pad4(t.year as int) + seq!['-'] + pad2(t.month as int) + seq!['-'] + pad2(t.day as int)
        + seq!['_'] + pad2(t.hour as int) + seq!['-'] + pad2(t.minute as int) + seq!['-'] + pad2(
        t.second as int,
    )
}

/// The date-only `YYYY-MM-DD` stamp of a timestamp.
pub open spec fn spec_date(t: Timestamp) -> Seq<char> {
    pad4(t.year as int) + seq!['-'] + pad2(t.month as int) + seq!['-'] + pad2(t.day as int)
}

/// Append one digit character.
fn push_digit(out: &mut String, d: u32)
    requires
        d < 10,
    ensures
        final(out)@ == old(out)@ + seq![digit_char(d as int)],
{
    let s: &str = match d {
        0 => "0",
        1 => "1",
        2 => "2",
        3 => "3",
        4 => "4",
        5 => "5",
        6 => "6",
        7 => "7",
        8 => "8",
        _ => "9",
    };
    proof {
        reveal_strlit("0");
        reveal_strlit("1");
        reveal_strlit("2");
        reveal_strlit("3");
        reveal_strlit("4");
        reveal_strlit("5");
        reveal_strlit("6");
        reveal_strlit("7");
        reveal_strlit("8");
        reveal_strlit("9");
        assert(s@ =~= seq![digit_char(d as int)]);
    }
    out.append(s);
}

/// Append the two-digit rendering of `n`.
fn push_pad2(out: &mut String, n: u32)
    requires
        n < 100,
    ensures
        final(out)@ == old(out)@ + pad2(n as int),
{
    push_digit(out, n / 10);
    push_digit(out, n % 10);
    proof {
        assert(final(out)@ =~= old(out)@ + pad2(n as int));
    }
}

/// Append the four-digit rendering of `n`.
fn push_pad4(out: &mut String, n: u32)
    requires
        n < 10000,
    ensures
        final(out)@ == old(out)@ + pad4(n as int),
{
    push_digit(out, n / 1000);
    push_digit(out, (n / 100) % 10);
    push_digit(out, (n / 10) % 10);
    push_digit(out, n % 10);
    proof {
        assert(final(out)@ =~= old(out)@ + pad4(n as int));
    }
}

/// Render the full fixed-width stamp of a timestamp.
pub fn format_stamp(t: &Timestamp) -> (r: String)
    requires
        t.wf(),
    ensures
        r@ == spec_stamp(*t),
{
    let mut out = String::new();
    push_pad4(&mut out, t.year);
    out.append("-");
    push_pad2(&mut out, t.month);
    out.append("-");
    push_pad2(&mut out, t.day);
    out.append("_");
    push_pad2(&mut out, t.hour);
    out.append("-");
    push_pad2(&mut out, t.minute);
    out.append("-");
    push_pad2(&mut out, t.second);
    proof {
        reveal_strlit("-");
        reveal_strlit("_");
        assert("-"@ =~= seq!['-']);
        assert("_"@ =~= seq!['_']);
        assert(out@ =~= spec_stamp(*t));
    }
    out
}

/// Render the date-only stamp of a timestamp.
pub fn format_date(t: &Timestamp) -> (r: String)
    requires
        t.wf(),
    ensures
        r@ == spec_date(*t),
{
    let mut out = String::new();
    push_pad4(&mut out, t.year);
    out.append("-");
    push_pad2(&mut out, t.month);
    out.append("-");
    push_pad2(&mut out, t.day);
    proof {
        reveal_strlit("-");
        assert("-"@ =~= seq!['-']);
        assert(out@ =~= spec_date(*t));
    }
    out
}

/// Relies on chrono: `Local::now` read once, then the `Datelike` accessors
/// `year`, `month`, `day` and the `Timelike` accessors `hour`, `minute`,
/// `second` on that reading. chrono documents month in 1..=12, day in
/// 1..=31, hour in 0..=23, minute and second in 0..=59; the year is an
/// arbitrary `i32`. The reading depends on the wall clock, so nothing
/// relates one call's result to another's.
#[verifier::external_body]
fn local_clock_fields() -> (r: (i32, u32, u32, u32, u32, u32))
    ensures
        1 <= r.1 <= 12,
        1 <= r.2 <= 31,
        r.3 <= 23,
        r.4 <= 59,
        r.5 <= 59,
{
    let t = chrono::Local::now();
    (
        chrono::Datelike::year(&t),
        chrono::Datelike::month(&t),
        chrono::Datelike::day(&t),
        chrono::Timelike::hour(&t),
        chrono::Timelike::minute(&t),
        chrono::Timelike::second(&t),
    )
}

/// The current local time as a well-formed timestamp; a year outside the
/// four-digit range is clamped so the rendering stays fixed-width.
pub fn now() -> (t: Timestamp)
    ensures
        t.wf(),
{
    let (y, mo, d, h, mi, s) = local_clock_fields();
    let year: u32 = if y < 0 {
        0
    } else if y > 9999 {
        9999
    } else {
        y as u32
    };
    Timestamp { year, month: mo, day: d, hour: h, minute: mi, second: s }
}

/// Digits render in order: a smaller digit gets a smaller character.
proof fn lemma_digit_char_mono(a: int, b: int)
    requires
        0 <= a < b <= 9,
    ensures
        digit_char(a) < digit_char(b),
{
}

/// A one-position comparison step: with equal-length heads, the rendering
/// comparison is decided by the heads, or passed to the tails.
proof fn lemma_step(x: Seq<char>, y: Seq<char>, u: Seq<char>, v: Seq<char>)
    requires
        x.len() == y.len(),
        lex_lt(x, y) || (x == y && lex_lt(u, v)),
    ensures
        lex_lt(x + u, y + v),
{
    lemma_lex_concat(x, y, u, v);
}

/// Singleton sequences compare as their characters do.
proof fn lemma_lex_single(c: char, d: char)
    ensures
        lex_lt(seq![c], seq![d]) == (c < d),
{
    reveal_with_fuel(lex_lt, 3);
    assert(seq![c].drop_first() =~= Seq::<char>::empty());
    assert(seq![d].drop_first() =~= Seq::<char>::empty());
}

/// Two-digit renderings compare as the numbers do.
proof fn lemma_pad2_mono(a: int, b: int)
    requires
        0 <= a < b <= 99,
    ensures
        lex_lt(pad2(a), pad2(b)),
{
    let a1 = seq![digit_char(a / 10)];
    let a0 = seq![digit_char(a % 10)];
    let b1 = seq![digit_char(b / 10)];
    let b0 = seq![digit_char(b % 10)];
    assert(pad2(a) =~= a1 + a0);
    assert(pad2(b) =~= b1 + b0);
    if a / 10 < b / 10 {
        lemma_digit_char_mono(a / 10, b / 10);
        lemma_lex_single(digit_char(a / 10), digit_char(b / 10));
    } else {
        assert(a / 10 == b / 10);
        assert(a % 10 < b % 10);
        lemma_digit_char_mono(a % 10, b % 10);
        lemma_lex_single(digit_char(a % 10), digit_char(b % 10));
        assert(a1 =~= b1);
    }
    lemma_step(a1, b1, a0, b0);
}

/// Four-digit renderings compare as the numbers do.
proof fn lemma_pad4_mono(a: int, b: int)
    requires
        0 <= a < b <= 9999,
    ensures
        lex_lt(pad4(a), pad4(b)),
{
    let a3 = seq![digit_char(a / 1000)];
    let a2 = seq![digit_char((a / 100) % 10)];
    let a1 = seq![digit_char((a / 10) % 10)];
    let a0 = seq![digit_char(a % 10)];
    let b3 = seq![digit_char(b / 1000)];
    let b2 = seq![digit_char((b / 100) % 10)];
    let b1 = seq![digit_char((b / 10) % 10)];
    let b0 = seq![digit_char(b % 10)];
    assert(pad4(a) =~= a3 + (a2 + (a1 + a0)));
    assert(pad4(b) =~= b3 + (b2 + (b1 + b0)));
    if a / 1000 < b / 1000 {
        lemma_digit_char_mono(a / 1000, b / 1000);
        lemma_lex_single(digit_char(a / 1000), digit_char(b / 1000));
    } else {
        assert(a / 1000 == b / 1000);
        assert(a3 =~= b3);
        if (a / 100) % 10 < (b / 100) % 10 {
            lemma_digit_char_mono((a / 100) % 10, (b / 100) % 10);
            lemma_lex_single(digit_char((a / 100) % 10), digit_char((b / 100) % 10));
        } else {
            assert(a / 100 == b / 100) by {
                assert(a / 100 == (a / 1000) * 10 + (a / 100) % 10) by (nonlinear_arith)
                    requires 0 <= a <= 9999;
                assert(b / 100 == (b / 1000) * 10 + (b / 100) % 10) by (nonlinear_arith)
                    requires 0 <= b <= 9999;
            }
            assert(a2 =~= b2);
            if (a / 10) % 10 < (b / 10) % 10 {
                lemma_digit_char_mono((a / 10) % 10, (b / 10) % 10);
                lemma_lex_single(digit_char((a / 10) % 10), digit_char((b / 10) % 10));
            } else {
                assert(a / 10 == b / 10) by {
                    assert(a / 10 == (a / 100) * 10 + (a / 10) % 10) by (nonlinear_arith)
                        requires 0 <= a <= 9999;
                    assert(b / 10 == (b / 100) * 10 + (b / 10) % 10) by (nonlinear_arith)
                        requires 0 <= b <= 9999;
                }
                assert(a1 =~= b1);
                assert(a % 10 < b % 10) by {
                    assert(a == (a / 10) * 10 + a % 10) by (nonlinear_arith)
                        requires 0 <= a <= 9999;
                    assert(b == (b / 10) * 10 + b % 10) by (nonlinear_arith)
                        requires 0 <= b <= 9999;
                }
                lemma_digit_char_mono(a % 10, b % 10);
                lemma_lex_single(digit_char(a % 10), digit_char(b % 10));
            }
            lemma_step(a1, b1, a0, b0);
        }
        lemma_step(a2, b2, a1 + a0, b1 + b0);
    }
    lemma_step(a3, b3, a2 + (a1 + a0), b2 + (b1 + b0));
}

/// Stamp ordering is the timestamp ordering: an earlier capture renders to
/// a lexically smaller stamp, which is what makes file-name order a
/// creation-order key.
pub proof fn lemma_stamp_monotonic(t1: Timestamp, t2: Timestamp)
    requires
        t1.wf(),
        t2.wf(),
        t1.lt(&t2),
    ensures
        lex_lt(spec_stamp(t1), spec_stamp(t2)),
        spec_stamp(t1).len() == spec_stamp(t2).len(),
{
    let y1 = pad4(t1.year as int);
    let y2 = pad4(t2.year as int);
    let tail1 = seq!['-'] + pad2(t1.month as int) + seq!['-'] + pad2(t1.day as int) + seq!['_']
        + pad2(t1.hour as int) + seq!['-'] + pad2(t1.minute as int) + seq!['-'] + pad2(
        t1.second as int,
    );
    let tail2 = seq!['-'] + pad2(t2.month as int) + seq!['-'] + pad2(t2.day as int) + seq!['_']
        + pad2(t2.hour as int) + seq!['-'] + pad2(t2.minute as int) + seq!['-'] + pad2(
        t2.second as int,
    );
    assert(spec_stamp(t1) =~= y1 + tail1);
    assert(spec_stamp(t2) =~= y2 + tail2);
    if t1.year < t2.year {
        lemma_pad4_mono(t1.year as int, t2.year as int);
    } else {
        assert(y1 == y2);
        lemma_tail_monotonic(t1, t2, tail1, tail2);
    }
    lemma_step(y1, y2, tail1, tail2);
}

/// The month-to-second part of the stamp is monotonic when the years agree.
proof fn lemma_tail_monotonic(t1: Timestamp, t2: Timestamp, tail1: Seq<char>, tail2: Seq<char>)
    requires
        t1.wf(),
        t2.wf(),
        t1.lt(&t2),
        t1.year == t2.year,
        tail1 == seq!['-'] + pad2(t1.month as int) + seq!['-'] + pad2(t1.day as int) + seq!['_']
            + pad2(t1.hour as int) + seq!['-'] + pad2(t1.minute as int) + seq!['-'] + pad2(
            t1.second as int,
        ),
        tail2 == seq!['-'] + pad2(t2.month as int) + seq!['-'] + pad2(t2.day as int) + seq!['_']
            + pad2(t2.hour as int) + seq!['-'] + pad2(t2.minute as int) + seq!['-'] + pad2(
            t2.second as int,
        ),
    ensures
        lex_lt(tail1, tail2),
{
    let parts1 = seq![
        pad2(t1.month as int),
        pad2(t1.day as int),
        pad2(t1.hour as int),
        pad2(t1.minute as int),
        pad2(t1.second as int),
    ];
    let parts2 = seq![
        pad2(t2.month as int),
        pad2(t2.day as int),
        pad2(t2.hour as int),
        pad2(t2.minute as int),
        pad2(t2.second as int),
    ];
    let f1 = seq![t1.month as int, t1.day as int, t1.hour as int, t1.minute as int, t1.second as int];
    let f2 = seq![t2.month as int, t2.day as int, t2.hour as int, t2.minute as int, t2.second as int];
    // peel one field at a time; at the first differing field lemma_pad2_mono
    // decides, every field before it renders identically
    assert(tail1 =~= seq!['-'] + (parts1[0] + (seq!['-'] + (parts1[1] + (seq!['_'] + (parts1[2] + (
    seq!['-'] + (parts1[3] + (seq!['-'] + parts1[4])))))))));
    assert(tail2 =~= seq!['-'] + (parts2[0] + (seq!['-'] + (parts2[1] + (seq!['_'] + (parts2[2] + (
    seq!['-'] + (parts2[3] + (seq!['-'] + parts2[4])))))))));
    if t1.month != t2.month {
        lemma_pad2_mono(f1[0], f2[0]);
        lemma_step(parts1[0], parts2[0], seq!['-'] + (parts1[1] + (seq!['_'] + (parts1[2] + (
        seq!['-'] + (parts1[3] + (seq!['-'] + parts1[4])))))), seq!['-'] + (parts2[1] + (seq!['_']
            + (parts2[2] + (seq!['-'] + (parts2[3] + (seq!['-'] + parts2[4])))))));
    } else if t1.day != t2.day {
        lemma_pad2_mono(f1[1], f2[1]);
        lemma_step(parts1[1], parts2[1], seq!['_'] + (parts1[2] + (seq!['-'] + (parts1[3] + (
        seq!['-'] + parts1[4])))), seq!['_'] + (parts2[2] + (seq!['-'] + (parts2[3] + (seq!['-']
            + parts2[4])))));
        lemma_step(seq!['-'], seq!['-'], parts1[1] + (seq!['_'] + (parts1[2] + (seq!['-'] + (
        parts1[3] + (seq!['-'] + parts1[4]))))), parts2[1] + (seq!['_'] + (parts2[2] + (seq!['-']
            + (parts2[3] + (seq!['-'] + parts2[4]))))));
        lemma_step(parts1[0], parts2[0], seq!['-'] + (parts1[1] + (seq!['_'] + (parts1[2] + (
        seq!['-'] + (parts1[3] + (seq!['-'] + parts1[4])))))), seq!['-'] + (parts2[1] + (seq!['_']
            + (parts2[2] + (seq!['-'] + (parts2[3] + (seq!['-'] + parts2[4])))))));
    } else if t1.hour != t2.hour {
        lemma_pad2_mono(f1[2], f2[2]);
        lemma_step(parts1[2], parts2[2], seq!['-'] + (parts1[3] + (seq!['-'] + parts1[4])),
            seq!['-'] + (parts2[3] + (seq!['-'] + parts2[4])));
        lemma_step(seq!['_'], seq!['_'], parts1[2] + (seq!['-'] + (parts1[3] + (seq!['-']
            + parts1[4]))), parts2[2] + (seq!['-'] + (parts2[3] + (seq!['-'] + parts2[4]))));
        lemma_step(parts1[1], parts2[1], seq!['_'] + (parts1[2] + (seq!['-'] + (parts1[3] + (
        seq!['-'] + parts1[4])))), seq!['_'] + (parts2[2] + (seq!['-'] + (parts2[3] + (seq!['-']
            + parts2[4])))));
        lemma_step(seq!['-'], seq!['-'], parts1[1] + (seq!['_'] + (parts1[2] + (seq!['-'] + (
        parts1[3] + (seq!['-'] + parts1[4]))))), parts2[1] + (seq!['_'] + (parts2[2] + (seq!['-']
            + (parts2[3] + (seq!['-'] + parts2[4]))))));
        lemma_step(parts1[0], parts2[0], seq!['-'] + (parts1[1] + (seq!['_'] + (parts1[2] + (
        seq!['-'] + (parts1[3] + (seq!['-'] + parts1[4])))))), seq!['-'] + (parts2[1] + (seq!['_']
            + (parts2[2] + (seq!['-'] + (parts2[3] + (seq!['-'] + parts2[4])))))));
    } else if t1.minute != t2.minute {
        lemma_pad2_mono(f1[3], f2[3]);
        lemma_step(parts1[3], parts2[3], seq!['-'] + parts1[4], seq!['-'] + parts2[4]);
        lemma_step(seq!['-'], seq!['-'], parts1[3] + (seq!['-'] + parts1[4]), parts2[3] + (
        seq!['-'] + parts2[4]));
        lemma_step(parts1[2], parts2[2], seq!['-'] + (parts1[3] + (seq!['-'] + parts1[4])),
            seq!['-'] + (parts2[3] + (seq!['-'] + parts2[4])));
        lemma_step(seq!['_'], seq!['_'], parts1[2] + (seq!['-'] + (parts1[3] + (seq!['-']
            + parts1[4]))), parts2[2] + (seq!['-'] + (parts2[3] + (seq!['-'] + parts2[4]))));
        lemma_step(parts1[1], parts2[1], seq!['_'] + (parts1[2] + (seq!['-'] + (parts1[3] + (
        seq!['-'] + parts1[4])))), seq!['_'] + (parts2[2] + (seq!['-'] + (parts2[3] + (seq!['-']
            + parts2[4])))));
        lemma_step(seq!['-'], seq!['-'], parts1[1] + (seq!['_'] + (parts1[2] + (seq!['-'] + (
        parts1[3] + (seq!['-'] + parts1[4]))))), parts2[1] + (seq!['_'] + (parts2[2] + (seq!['-']
            + (parts2[3] + (seq!['-'] + parts2[4]))))));
        lemma_step(parts1[0], parts2[0], seq!['-'] + (parts1[1] + (seq!['_'] + (parts1[2] + (
        seq!['-'] + (parts1[3] + (seq!['-'] + parts1[4])))))), seq!['-'] + (parts2[1] + (seq!['_']
            + (parts2[2] + (seq!['-'] + (parts2[3] + (seq!['-'] + parts2[4])))))));
    } else {
        lemma_pad2_mono(f1[4], f2[4]);
        lemma_step(seq!['-'], seq!['-'], parts1[4], parts2[4]);
        lemma_step(parts1[3], parts2[3], seq!['-'] + parts1[4], seq!['-'] + parts2[4]);
        lemma_step(seq!['-'], seq!['-'], parts1[3] + (seq!['-'] + parts1[4]), parts2[3] + (
        seq!['-'] + parts2[4]));
        lemma_step(parts1[2], parts2[2], seq!['-'] + (parts1[3] + (seq!['-'] + parts1[4])),
            seq!['-'] + (parts2[3] + (seq!['-'] + parts2[4])));
        lemma_step(seq!['_'], seq!['_'], parts1[2] + (seq!['-'] + (parts1[3] + (seq!['-']
            + parts1[4]))), parts2[2] + (seq!['-'] + (parts2[3] + (seq!['-'] + parts2[4]))));
        lemma_step(parts1[1], parts2[1], seq!['_'] + (parts1[2] + (seq!['-'] + (parts1[3] + (
        seq!['-'] + parts1[4])))), seq!['_'] + (parts2[2] + (seq!['-'] + (parts2[3] + (seq!['-']
            + parts2[4])))));
        lemma_step(seq!['-'], seq!['-'], parts1[1] + (seq!['_'] + (parts1[2] + (seq!['-'] + (
        parts1[3] + (seq!['-'] + parts1[4]))))), parts2[1] + (seq!['_'] + (parts2[2] + (seq!['-']
            + (parts2[3] + (seq!['-'] + parts2[4]))))));
        lemma_step(parts1[0], parts2[0], seq!['-'] + (parts1[1] + (seq!['_'] + (parts1[2] + (
        seq!['-'] + (parts1[3] + (seq!['-'] + parts1[4])))))), seq!['-'] + (parts2[1] + (seq!['_']
            + (parts2[2] + (seq!['-'] + (parts2[3] + (seq!['-'] + parts2[4])))))));
    }
    lemma_step(seq!['-'], seq!['-'], parts1[0] + (seq!['-'] + (parts1[1] + (seq!['_'] + (parts1[2]
        + (seq!['-'] + (parts1[3] + (seq!['-'] + parts1[4]))))))), parts2[0] + (seq!['-'] + (
    parts2[1] + (seq!['_'] + (parts2[2] + (seq!['-'] + (parts2[3] + (seq!['-'] + parts2[4]))))))));
    assert(tail1 =~= seq!['-'] + (parts1[0] + (seq!['-'] + (parts1[1] + (seq!['_'] + (parts1[2] + (
    seq!['-'] + (parts1[3] + (seq!['-'] + parts1[4])))))))));
}

} // verus!
