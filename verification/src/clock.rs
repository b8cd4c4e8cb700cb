//! Formatting of a number of seconds as a clock reading.

use vstd::prelude::*;
use crate::duration::{all_digits, digits_value};
use crate::text::{decimal_digits, digit_char, digit_to_char, push_signed_decimal, signed_decimal, string_from_chars};

verus! {

/// A number as std's `{:02}` prints it: zero-padded to two characters.
pub open spec fn pad2(v: int) -> Seq<char> {
    if 0 <= v < 10 {
        seq!['0', digit_char(v as nat)]
    } else {
        signed_decimal(v)
    }
}

/// The clock text of `secs`: `HH:MM:SS` from an hour on, `MM:SS` from a
/// minute on, and `00:SS` below that (negative values land in the last form).
pub open spec fn clock_text(secs: int) -> Seq<char> {
    if secs >= 3600 {
        pad2(secs / 3600) + seq![':'] + pad2((secs % 3600) / 60) + seq![':'] + pad2(secs % 60)
    } else if secs >= 60 {
        pad2(secs / 60) + seq![':'] + pad2(secs % 60)
    } else {
        seq!['0', '0', ':'] + pad2(secs)
    }
}

/// Appends `pad2(v)` to `out`.
fn push_pad2(out: &mut Vec<char>, v: i64)
    ensures
        final(out)@ == old(out)@ + pad2(v as int),
{
    if 0 <= v && v < 10 {
        out.push('0');
        let c = digit_to_char(v as u64);
        out.push(c);
        assert(out@ =~= old(out)@ + pad2(v as int));
    } else {
        push_signed_decimal(out, v);
    }
}

/// Formats a number of seconds as `HH:MM:SS`, `MM:SS` or `00:SS`.
pub fn format_time(secs: i64) -> (s: String)
    ensures
        s@ == clock_text(secs as int),
{
    let mut out: Vec<char> = Vec::new();
    if secs >= 3600 {
        push_pad2(&mut out, secs / 3600);
        out.push(':');
        push_pad2(&mut out, (secs % 3600) / 60);
        out.push(':');
        push_pad2(&mut out, secs % 60);
    } else if secs >= 60 {
        push_pad2(&mut out, secs / 60);
        out.push(':');
        push_pad2(&mut out, secs % 60);
    } else {
        out.push('0');
        out.push('0');
        out.push(':');
        push_pad2(&mut out, secs);
    }
    assert(out@ =~= clock_text(secs as int));
    string_from_chars(&out)
}

proof fn lemma_digit_char_injective(a: nat, b: nat)
    requires
        a < 10,
        b < 10,
        digit_char(a) == digit_char(b),
    ensures
        a == b,
{
}

proof fn lemma_decimal_shape(n: nat)
    ensures
        n < 10 ==> decimal_digits(n).len() == 1,
        n >= 10 ==> decimal_digits(n).len() >= 2,
        n >= 1 ==> decimal_digits(n)[0] != '0',
        n < 100 ==> decimal_digits(n).len() <= 2,
    decreases n,
{
    if n >= 10 {
        lemma_decimal_shape(n / 10);
        assert(decimal_digits(n)[0] == decimal_digits(n / 10)[0]);
    }
}

proof fn lemma_decimal_injective(a: nat, b: nat)
    requires
        decimal_digits(a) == decimal_digits(b),
    ensures
        a == b,
    decreases a,
{
    lemma_decimal_shape(a);
    lemma_decimal_shape(b);
    if a < 10 && b < 10 {
        lemma_digit_char_injective(a, b);
    } else if a >= 10 && b >= 10 {
        let da = decimal_digits(a);
        let db = decimal_digits(b);
        assert(da.last() == digit_char(a % 10));
        assert(db.last() == digit_char(b % 10));
        lemma_digit_char_injective(a % 10, b % 10);
        assert(da.drop_last() =~= decimal_digits(a / 10));
        assert(db.drop_last() =~= decimal_digits(b / 10));
        lemma_decimal_injective(a / 10, b / 10);
    }
}

proof fn lemma_pad2(v: int)
    requires
        v >= 0,
    ensures
        v < 100 ==> pad2(v).len() == 2,
        pad2(v).len() >= 2,
        v >= 1 ==> pad2(v) != seq!['0', '0'],
        v >= 1 && v < 100 ==> pad2(v)[0] != '0' || pad2(v)[1] != '0',
{
    lemma_decimal_shape(v as nat);
    if 1 <= v < 10 {
        assert(pad2(v)[1] == digit_char(v as nat));
    }
    if v >= 10 {
        assert(pad2(v)[0] != '0');
    }
}

proof fn lemma_pad2_injective(a: int, b: int)
    requires
        a >= 0,
        b >= 0,
        pad2(a) == pad2(b),
    ensures
        a == b,
{
    lemma_decimal_shape(a as nat);
    lemma_decimal_shape(b as nat);
    if a < 10 && b < 10 {
        assert(pad2(a)[1] == pad2(b)[1]);
        lemma_digit_char_injective(a as nat, b as nat);
    } else if a >= 10 && b >= 10 {
        lemma_decimal_injective(a as nat, b as nat);
    } else if a < 10 {
        assert(pad2(a)[0] == pad2(b)[0]);
    } else {
        assert(pad2(a)[0] == pad2(b)[0]);
    }
}

proof fn lemma_clock_shape(secs: int)
    requires
        secs >= 0,
    ensures
        secs < 3600 ==> clock_text(secs).len() == 5,
        secs >= 3600 ==> clock_text(secs).len() >= 8,
        60 <= secs < 3600 ==> clock_text(secs).subrange(0, 2) != seq!['0', '0'],
        secs < 60 ==> clock_text(secs).subrange(0, 2) == seq!['0', '0'],
{
    if secs >= 3600 {
        lemma_pad2(secs / 3600);
        lemma_pad2((secs % 3600) / 60);
        lemma_pad2(secs % 60);
    } else if secs >= 60 {
        lemma_pad2(secs / 60);
        lemma_pad2(secs % 60);
        assert(clock_text(secs).subrange(0, 2) =~= pad2(secs / 60));
    } else {
        lemma_pad2(secs);
        assert(clock_text(secs).subrange(0, 2) =~= seq!['0', '0']);
    }
}

/// Distinct non-negative numbers of seconds read differently on the clock,
/// and a reading below an hour is five characters long (`MM:SS`).
pub proof fn lemma_clock_text_injective(a: int, b: int)
    requires
        a >= 0,
        b >= 0,
    ensures
        clock_text(a) == clock_text(b) ==> a == b,
        a < 3600 ==> clock_text(a).len() == 5,
{
    lemma_clock_shape(a);
    lemma_clock_shape(b);
    if clock_text(a) == clock_text(b) {
        if a >= 3600 && b >= 3600 {
            let ta = clock_text(a);
            let n = ta.len() as int;
            lemma_pad2((a % 3600) / 60);
            lemma_pad2(a % 60);
            lemma_pad2((b % 3600) / 60);
            lemma_pad2(b % 60);
            assert(ta.subrange(0, n - 6) =~= pad2(a / 3600));
            assert(ta.subrange(0, n - 6) =~= pad2(b / 3600));
            assert(ta.subrange(n - 5, n - 3) =~= pad2((a % 3600) / 60));
            assert(ta.subrange(n - 5, n - 3) =~= pad2((b % 3600) / 60));
            assert(ta.subrange(n - 2, n) =~= pad2(a % 60));
            assert(ta.subrange(n - 2, n) =~= pad2(b % 60));
            lemma_pad2_injective(a / 3600, b / 3600);
            lemma_pad2_injective((a % 3600) / 60, (b % 3600) / 60);
            lemma_pad2_injective(a % 60, b % 60);
        } else if 60 <= a < 3600 && 60 <= b < 3600 {
            let ta = clock_text(a);
            lemma_pad2(a / 60);
            lemma_pad2(b / 60);
            assert(ta.subrange(0, 2) =~= pad2(a / 60));
            assert(ta.subrange(0, 2) =~= pad2(b / 60));
            assert(ta.subrange(3, 5) =~= pad2(a % 60));
            assert(ta.subrange(3, 5) =~= pad2(b % 60));
            lemma_pad2_injective(a / 60, b / 60);
            lemma_pad2_injective(a % 60, b % 60);
        } else if a < 60 && b < 60 {
            let ta = clock_text(a);
            lemma_pad2(a);
            lemma_pad2(b);
            assert(ta.subrange(3, 5) =~= pad2(a));
            assert(ta.subrange(3, 5) =~= pad2(b));
            lemma_pad2_injective(a, b);
        }
    }
}

proof fn lemma_digit_char_value(d: nat)
    requires
        d < 10,
    ensures
        (digit_char(d) as int) - ('0' as int) == d,
        crate::duration::is_digit(digit_char(d)),
{
    assert('0' as int == 48);
    assert('1' as int == 49);
    assert('2' as int == 50);
    assert('3' as int == 51);
    assert('4' as int == 52);
    assert('5' as int == 53);
    assert('6' as int == 54);
    assert('7' as int == 55);
    assert('8' as int == 56);
    assert('9' as int == 57);
}

proof fn lemma_decimal_reads_back(n: nat)
    ensures
        all_digits(decimal_digits(n)),
        digits_value(decimal_digits(n)) == n,
    decreases n,
{
    lemma_digit_char_value(n % 10);
    assert(digits_value(Seq::<char>::empty()) == 0);
    if n < 10 {
        assert(decimal_digits(n).drop_last() =~= Seq::<char>::empty());
        assert(decimal_digits(n).last() == digit_char(n));
    } else {
        lemma_decimal_reads_back(n / 10);
        let d = decimal_digits(n);
        assert(d.drop_last() =~= decimal_digits(n / 10));
        assert(d.last() == digit_char(n % 10));
        assert(digits_value(d) == digits_value(decimal_digits(n / 10)) * 10 + n % 10);
        assert forall|i: int| 0 <= i < d.len() implies crate::duration::is_digit(#[trigger] d[i]) by {
            if i < d.len() - 1 {
                assert(d[i] == decimal_digits(n / 10)[i]);
            }
        }
    }
}

proof fn lemma_pad2_reads_back(v: int)
    requires
        v >= 0,
    ensures
        all_digits(pad2(v)),
        digits_value(pad2(v)) == v,
        pad2(v).len() >= 2,
        v < 100 ==> pad2(v).len() == 2,
{
    lemma_pad2(v);
    if v < 10 {
        lemma_digit_char_value(v as nat);
        lemma_digit_char_value(0);
        let p = pad2(v);
        assert(digits_value(Seq::<char>::empty()) == 0);
        assert(seq!['0'].drop_last() =~= Seq::<char>::empty());
        assert(seq!['0'].last() == '0');
        assert(digits_value(seq!['0']) == 0);
        assert(p.drop_last() =~= seq!['0']);
        assert(seq!['0'].drop_last() =~= Seq::<char>::empty());
        assert forall|i: int| 0 <= i < p.len() implies crate::duration::is_digit(#[trigger] p[i]) by {}
    } else {
        lemma_decimal_reads_back(v as nat);
    }
}

/// A clock reading gives its seconds back: below an hour it is two fields of
/// two digits, `MM:SS`, with `MM * 60 + SS` the seconds; from an hour on it is
/// `H:MM:SS` with at least two hour digits and `H * 3600 + MM * 60 + SS` the
/// seconds; minutes and seconds fields are below 60.
pub proof fn lemma_clock_text_reads_back(secs: int)
    requires
        secs >= 0,
    ensures
        secs < 3600 ==> {
            let t = clock_text(secs);
            &&& t.len() == 5
            &&& t[2] == ':'
            &&& all_digits(t.subrange(0, 2))
            &&& all_digits(t.subrange(3, 5))
            &&& digits_value(t.subrange(3, 5)) < 60
            &&& digits_value(t.subrange(0, 2)) * 60 + digits_value(t.subrange(3, 5)) == secs
        },
        secs >= 3600 ==> {
            let t = clock_text(secs);
            let n = t.len() as int;
            &&& n >= 8
            &&& t[n - 6] == ':'
            &&& t[n - 3] == ':'
            &&& all_digits(t.subrange(0, n - 6))
            &&& all_digits(t.subrange(n - 5, n - 3))
            &&& all_digits(t.subrange(n - 2, n))
            &&& digits_value(t.subrange(n - 5, n - 3)) < 60
            &&& digits_value(t.subrange(n - 2, n)) < 60
            &&& digits_value(t.subrange(0, n - 6)) * 3600 + digits_value(t.subrange(n - 5, n - 3))
                * 60 + digits_value(t.subrange(n - 2, n)) == secs
        },
{
    let t = clock_text(secs);
    if secs >= 3600 {
        let h = secs / 3600;
        let m = (secs % 3600) / 60;
        let sec = secs % 60;
        lemma_pad2_reads_back(h);
        lemma_pad2_reads_back(m);
        lemma_pad2_reads_back(sec);
        let n = t.len() as int;
        assert(t.subrange(0, n - 6) =~= pad2(h));
        assert(t.subrange(n - 5, n - 3) =~= pad2(m));
        assert(t.subrange(n - 2, n) =~= pad2(sec));
        assert(h * 3600 + m * 60 + sec == secs) by (nonlinear_arith)
            requires
                h == secs / 3600,
                m == (secs % 3600) / 60,
                sec == secs % 60,
                secs >= 0,
        ;
    } else if secs >= 60 {
        let m = secs / 60;
        let sec = secs % 60;
        lemma_pad2_reads_back(m);
        lemma_pad2_reads_back(sec);
        assert(t.subrange(0, 2) =~= pad2(m));
        assert(t.subrange(3, 5) =~= pad2(sec));
    } else {
        lemma_pad2_reads_back(secs);
        lemma_digit_char_value(0);
        let z = t.subrange(0, 2);
        assert(digits_value(Seq::<char>::empty()) == 0);
        assert(seq!['0'].drop_last() =~= Seq::<char>::empty());
        assert(seq!['0'].last() == '0');
        assert(digits_value(seq!['0']) == 0);
        assert(z =~= seq!['0', '0']);
        assert(z.drop_last() =~= seq!['0']);
        assert(seq!['0'].drop_last() =~= Seq::<char>::empty());
        assert(t.subrange(3, 5) =~= pad2(secs));
        assert forall|i: int| 0 <= i < z.len() implies crate::duration::is_digit(#[trigger] z[i]) by {}
    }
}

} // verus!
