//! Character-level helpers: decimal rendering, whitespace trimming and
//! conversion between `&str`, `String` and `Vec<char>`.

use vstd::prelude::*;
use vstd::string::StrSliceExecFns;

verus! {

/// The character of a decimal digit `d` (0 to 9).
pub open spec fn digit_char(d: nat) -> char {
    if d == 0 { '0' }
    else if d == 1 { '1' }
    else if d == 2 { '2' }
    else if d == 3 { '3' }
    else if d == 4 { '4' }
    else if d == 5 { '5' }
    else if d == 6 { '6' }
    else if d == 7 { '7' }
    else if d == 8 { '8' }
    else { '9' }
}

/// The decimal digits of `n`, most significant first, without leading zeros
/// (`0` is the single digit `'0'`).
pub open spec fn decimal_digits(n: nat) -> Seq<char>
    decreases n,
{
    if n < 10 {
        seq![digit_char(n)]
    } else {
        decimal_digits(n / 10).push(digit_char(n % 10))
    }
}

/// The decimal text of an integer: a `'-'` before the digits of a negative one.
pub open spec fn signed_decimal(v: int) -> Seq<char> {
    if v < 0 {
        seq!['-'] + decimal_digits((-v) as nat)
    } else {
        decimal_digits(v as nat)
    }
}

/// `c` repeated `n` times.
pub open spec fn repeat_char(c: char, n: nat) -> Seq<char> {
    Seq::new(n, |i: int| c)
}

/// The character of the digit `d`.
pub fn digit_to_char(d: u64) -> (c: char)
    requires
        d < 10,
    ensures
        c == digit_char(d as nat),
{
    if d == 0 { '0' }
    else if d == 1 { '1' }
    else if d == 2 { '2' }
    else if d == 3 { '3' }
    else if d == 4 { '4' }
    else if d == 5 { '5' }
    else if d == 6 { '6' }
    else if d == 7 { '7' }
    else if d == 8 { '8' }
    else { '9' }
}

/// Appends the decimal digits of `n` to `out`.
pub fn push_decimal(out: &mut Vec<char>, n: u64)
    ensures
        final(out)@ == old(out)@ + decimal_digits(n as nat),
    decreases n,
{
    if n >= 10 {
        push_decimal(out, n / 10);
    }
    let c = digit_to_char(n % 10);
    out.push(c);
    proof {
        if n >= 10 {
            assert(decimal_digits(n as nat) == decimal_digits((n / 10) as nat).push(
                digit_char((n % 10) as nat),
            ));
            assert(old(out)@ + decimal_digits(n as nat) =~= old(out)@ + decimal_digits(
                (n / 10) as nat,
            ) + seq![c]);
        } else {
            assert(old(out)@ + decimal_digits(n as nat) =~= old(out)@ + seq![c]);
        }
    }
}

/// Appends the decimal text of `v` (with a leading `'-'` when negative) to `out`.
pub fn push_signed_decimal(out: &mut Vec<char>, v: i64)
    ensures
        final(out)@ == old(out)@ + signed_decimal(v as int),
{
    if v < 0 {
        out.push('-');
        let magnitude: u64 = if v == i64::MIN {
            9223372036854775808u64
        } else {
            (-v) as u64
        };
        push_decimal(out, magnitude);
        assert(out@ =~= old(out)@ + signed_decimal(v as int));
    } else {
        push_decimal(out, v as u64);
    }
}

/// Appends `n` copies of `c` to `out`.
pub fn push_repeated(out: &mut Vec<char>, c: char, n: usize)
    ensures
        final(out)@ == old(out)@ + repeat_char(c, n as nat),
{
    let mut i: usize = 0;
    while i < n
        invariant
            i <= n,
            out@ == old(out)@ + repeat_char(c, i as nat),
        decreases n - i,
    {
        out.push(c);
        i = i + 1;
        assert(out@ =~= old(out)@ + repeat_char(c, i as nat));
    }
}

/// Appends every character of `s` to `out`.
pub fn push_str_chars(out: &mut Vec<char>, s: &str)
    ensures
        final(out)@ == old(out)@ + s@,
{
    let v = collect_chars(s);
    let n = v.len();
    let mut i: usize = 0;
    while i < n
        invariant
            i <= n,
            n == v@.len(),
            v@ == s@,
            out@ == old(out)@ + s@.subrange(0, i as int),
        decreases n - i,
    {
        out.push(v[i]);
        i = i + 1;
        assert(out@ =~= old(out)@ + s@.subrange(0, i as int));
    }
    assert(s@.subrange(0, n as int) =~= s@);
}

/// The characters of `s`, in order.
pub fn chars_of(s: &str) -> (v: Vec<char>)
    ensures
        v@ == s@,
{
    collect_chars(s)
}

/// Collects the characters of `s` (std's `str::chars`, collected into a
/// `Vec`); the vector holds exactly those characters in order.
#[verifier::external_body]
fn collect_chars(s: &str) -> (v: Vec<char>)
    ensures
        v@ == s@,
{
    s.chars().collect()
}

/// The White_Space property of Unicode, which std's `char::is_whitespace` tests.
pub open spec fn is_white_space(c: char) -> bool {
    ||| '\u{9}' <= c <= '\u{d}'
    ||| c == ' '
    ||| c == '\u{85}'
    ||| c == '\u{a0}'
    ||| c == '\u{1680}'
    ||| '\u{2000}' <= c <= '\u{200a}'
    ||| c == '\u{2028}'
    ||| c == '\u{2029}'
    ||| c == '\u{202f}'
    ||| c == '\u{205f}'
    ||| c == '\u{3000}'
}

/// `s` without its leading White_Space characters.
pub open spec fn trim_start_chars(s: Seq<char>) -> Seq<char>
    decreases s.len(),
{
    if s.len() > 0 && is_white_space(s[0]) {
        trim_start_chars(s.drop_first())
    } else {
        s
    }
}

/// `s` without its trailing White_Space characters.
pub open spec fn trim_end_chars(s: Seq<char>) -> Seq<char>
    decreases s.len(),
{
    if s.len() > 0 && is_white_space(s.last()) {
        trim_end_chars(s.drop_last())
    } else {
        s
    }
}

/// `s` without leading and trailing White_Space characters, as std's `str::trim`.
pub open spec fn trim_chars(s: Seq<char>) -> Seq<char> {
    trim_end_chars(trim_start_chars(s))
}

/// True when every character of `s` has the White_Space property.
pub open spec fn all_white(s: Seq<char>) -> bool {
    forall|i: int| 0 <= i < s.len() ==> is_white_space(#[trigger] s[i])
}

proof fn lemma_trim_start_white_prefix(p: Seq<char>, x: Seq<char>)
    requires
        all_white(p),
    ensures
        trim_start_chars(p + x) == trim_start_chars(x),
    decreases p.len(),
{
    if p.len() > 0 {
        assert((p + x)[0] == p[0]);
        assert((p + x).drop_first() =~= p.drop_first() + x);
        lemma_trim_start_white_prefix(p.drop_first(), x);
    } else {
        assert(p + x =~= x);
    }
}

proof fn lemma_trim_end_white_suffix(x: Seq<char>, q: Seq<char>)
    requires
        all_white(q),
    ensures
        trim_end_chars(x + q) == trim_end_chars(x),
    decreases q.len(),
{
    if q.len() > 0 {
        assert((x + q).last() == q.last());
        assert((x + q).drop_last() =~= x + q.drop_last());
        lemma_trim_end_white_suffix(x, q.drop_last());
    } else {
        assert(x + q =~= x);
    }
}

proof fn lemma_trim_start_all_white(x: Seq<char>)
    requires
        all_white(x),
    ensures
        trim_start_chars(x).len() == 0,
    decreases x.len(),
{
    if x.len() > 0 {
        lemma_trim_start_all_white(x.drop_first());
    }
}

proof fn lemma_trim_both_white_suffix(s: Seq<char>, q: Seq<char>)
    requires
        all_white(q),
    ensures
        trim_end_chars(trim_start_chars(s + q)) == trim_end_chars(trim_start_chars(s)),
    decreases s.len(),
{
    if s.len() == 0 {
        assert(s + q =~= q);
        lemma_trim_start_all_white(q);
    } else if is_white_space(s[0]) {
        assert((s + q)[0] == s[0]);
        assert((s + q).drop_first() =~= s.drop_first() + q);
        lemma_trim_both_white_suffix(s.drop_first(), q);
    } else {
        assert((s + q)[0] == s[0]);
        lemma_trim_end_white_suffix(s, q);
    }
}

/// Whitespace around a text does not change what trimming leaves.
pub proof fn lemma_trim_ignores_surrounding_white(p: Seq<char>, s: Seq<char>, q: Seq<char>)
    requires
        all_white(p),
        all_white(q),
    ensures
        trim_chars(p + s + q) == trim_chars(s),
{
    assert(p + s + q =~= p + (s + q));
    lemma_trim_start_white_prefix(p, s + q);
    lemma_trim_both_white_suffix(s, q);
}

/// True for a character with the Unicode White_Space property, the
/// whitespace that std's `str::trim` removes.
pub fn is_whitespace(c: char) -> (b: bool)
    ensures
        b == is_white_space(c),
{
    ('\u{9}' <= c && c <= '\u{d}') || c == ' ' || c == '\u{85}' || c == '\u{a0}'
        || c == '\u{1680}' || ('\u{2000}' <= c && c <= '\u{200a}') || c == '\u{2028}'
        || c == '\u{2029}' || c == '\u{202f}' || c == '\u{205f}' || c == '\u{3000}'
}

/// Removes leading and trailing whitespace.
pub fn trim<'a>(s: &'a str) -> (t: &'a str)
    ensures
        t@ == trim_chars(s@),
{
    let v = chars_of(s);
    let n = v.len();
    let mut i: usize = 0;
    assert(v@.subrange(0, n as int) =~= v@);
    while i < n && is_whitespace(v[i])
        invariant
            i <= n,
            n == v@.len(),
            trim_start_chars(v@) == trim_start_chars(v@.subrange(i as int, n as int)),
        decreases n - i,
    {
        assert(v@.subrange(i as int, n as int).drop_first() =~= v@.subrange(i + 1, n as int));
        i = i + 1;
    }
    let ghost mid = v@.subrange(i as int, n as int);
    assert(trim_start_chars(mid) == mid);
    let mut j: usize = n;
    while j > i && is_whitespace(v[j - 1])
        invariant
            i <= j <= n,
            n == v@.len(),
            mid == v@.subrange(i as int, n as int),
            trim_end_chars(mid) == trim_end_chars(v@.subrange(i as int, j as int)),
        decreases j,
    {
        assert(v@.subrange(i as int, j as int).drop_last() =~= v@.subrange(i as int, j - 1));
        j = j - 1;
    }
    s.substring_char(i, j)
}

/// Builds a `String` from characters (std's `FromIterator<char>` for `String`);
/// the string holds exactly those characters in order.
#[verifier::external_body]
pub(crate) fn string_from_chars(chars: &Vec<char>) -> (s: String)
    ensures
        s@ == chars@,
{
    chars.iter().collect()
}

} // verus!
