//! Parsing of timer arguments: durations such as `30s`, `5min` or `2h`, and
//! labelled durations such as `work:25m`.
//!
//! The duration is found in the argument with the regular expression
//! `(?i)(\d+)(sec|s|min|m|h)` of the `regex` crate; everything around that
//! search (trimming, the number's parse, the unit's scale, the label) is
//! verified here.

use vstd::prelude::*;
use vstd::string::StrSliceExecFns;
use regex::Regex;
use crate::text::{all_white, chars_of, lemma_trim_ignores_surrounding_white, trim, trim_chars};

verus! {

/// Declares `regex::Regex` so that a compiled pattern can be held in a field.
#[verifier::external_type_specification]
#[verifier::external_body]
pub struct ExRegex(Regex);

/// The pattern with which a duration is found in a timer argument: a run of
/// digits followed by a unit, letters in any case.
pub const DURATION_PATTERN: &'static str = "(?i)(\\d+)(sec|s|min|m|h)";

/// The text of [`DURATION_PATTERN`].
pub open spec fn duration_pattern() -> Seq<char> {
    "(?i)(\\d+)(sec|s|min|m|h)"@
}

/// The number of seconds a timer lasts when its argument holds no duration,
/// or when the duration's number cannot be read.
pub const FALLBACK_SECONDS: u64 = 10;

/// What `Regex::captures` of the regular expression `pattern` finds in
/// `text`: the texts of its first and second groups in the leftmost match, or
/// nothing when there is no match.
pub uninterp spec fn regex_captures(pattern: Seq<char>, text: Seq<char>) -> Option<(Seq<char>, Seq<char>)>;

/// A compiled regular expression together with the pattern it was compiled
/// from. Its one constructor compiles [`DURATION_PATTERN`].
pub struct DurationPattern {
    re: Regex,
    pattern: Ghost<Seq<char>>,
}

/// Calls `regex::Regex::new` on `pattern`. `Regex::new` fails, and `unwrap`
/// would panic, on an invalid pattern, so the call is admitted only for
/// [`DURATION_PATTERN`], which is valid. Nothing is claimed of the compiled
/// value here: what matching with it gives is the contract of
/// [`DurationPattern::captures`], which rests on the field `pattern` recording
/// the text that `re` was compiled from.
#[verifier::external_body]
fn compile_regex(pattern: &str) -> (re: Regex)
    requires
        pattern@ == duration_pattern(),
{
    Regex::new(pattern).unwrap()
}

/// The view of a capture result as character sequences.
pub open spec fn captures_view(m: Option<(&str, &str)>) -> Option<(Seq<char>, Seq<char>)> {
    match m {
        Some((d, u)) => Some((d@, u@)),
        None => None,
    }
}

impl DurationPattern {
    /// Every value holds the duration pattern.
    #[verifier::type_invariant]
    spec fn holds_duration_pattern(self) -> bool {
        self.pattern@ == duration_pattern()
    }

    /// The text of the pattern this value was compiled from.
    pub closed spec fn pattern_text(self) -> Seq<char> {
        self.pattern@
    }

    /// Compiles [`DURATION_PATTERN`].
    pub fn new() -> (p: DurationPattern)
        ensures
            p.pattern_text() == duration_pattern(),
    {
        let re = compile_regex(DURATION_PATTERN);
        DurationPattern { re, pattern: Ghost(DURATION_PATTERN@) }
    }

    /// Calls `regex::Regex::captures` with the compiled pattern on `text`, and
    /// returns the texts of its two groups, as slices of `text`. For
    /// [`DURATION_PATTERN`] both groups take part in every match, so taking
    /// them cannot fail. The
    /// contract names the outcome [`regex_captures`] of the pattern the value
    /// was compiled from (its field `pattern`, set together with `re` by the
    /// only constructor) and `text`.
    #[verifier::external_body]
    fn captures<'a>(&self, text: &'a str) -> (m: Option<(&'a str, &'a str)>)
        requires
            self.pattern@ == duration_pattern(),
        ensures
            captures_view(m) == regex_captures(self.pattern@, text@),
    {
        match self.re.captures(text) {
            Some(c) => Some((c.get(1).unwrap().as_str(), c.get(2).unwrap().as_str())),
            None => None,
        }
    }

    /// What the duration pattern finds in `text` (see [`regex_captures`]).
    fn find<'a>(&self, text: &'a str) -> (m: Option<(&'a str, &'a str)>)
        ensures
            captures_view(m) == regex_captures(duration_pattern(), text@),
    {
        proof {
            use_type_invariant(self);
        }
        self.captures(text)
    }
}

/// True for an ASCII decimal digit.
pub open spec fn is_digit(c: char) -> bool {
    '0' <= c <= '9'
}

/// The value of a run of ASCII digits.
pub open spec fn digits_value(s: Seq<char>) -> nat
    decreases s.len(),
{
    if s.len() == 0 {
        0
    } else {
        digits_value(s.drop_last()) * 10 + ((s.last() as int - '0' as int) as nat)
    }
}

/// The digits part of a number text: the text without one leading `'+'`.
pub open spec fn unsigned_body(s: Seq<char>) -> Seq<char> {
    if s.len() > 0 && s[0] == '+' {
        s.drop_first()
    } else {
        s
    }
}

/// True when every character of `s` is an ASCII digit.
pub open spec fn all_digits(s: Seq<char>) -> bool {
    forall|i: int| 0 <= i < s.len() ==> is_digit(#[trigger] s[i])
}

/// What std's `str::parse::<u64>` gives: an optional `'+'`, then one or more
/// ASCII digits whose value fits in a `u64`; anything else is an error.
pub open spec fn parsed_u64(s: Seq<char>) -> Option<u64> {
    let body = unsigned_body(s);
    if body.len() > 0 && all_digits(body) && digits_value(body) <= u64::MAX {
        Some(digits_value(body) as u64)
    } else {
        None
    }
}

/// True when `c` is the lower-case ASCII letter `lower` in either case.
pub open spec fn same_letter(c: char, lower: char) -> bool {
    c == lower || (c as int) + 32 == lower as int
}

/// The unit's scale in seconds: 60 for `min` and `m`, 3600 for `h` (in any
/// letter case), and 1 for anything else (`sec`, `s`).
pub open spec fn unit_scale(u: Seq<char>) -> nat {
    if (u.len() == 3 && same_letter(u[0], 'm') && same_letter(u[1], 'i') && same_letter(u[2], 'n'))
        || (u.len() == 1 && same_letter(u[0], 'm')) {
        60
    } else if u.len() == 1 && same_letter(u[0], 'h') {
        3600
    } else {
        1
    }
}

/// The number of seconds a capture result stands for: the number (or
/// [`FALLBACK_SECONDS`] when it does not parse) times the unit's scale, and
/// [`FALLBACK_SECONDS`] when nothing was found.
pub open spec fn captured_seconds(m: Option<(Seq<char>, Seq<char>)>) -> int {
    match m {
        Some((d, u)) => {
            let v: int = match parsed_u64(d) {
                Some(v) => v as int,
                None => FALLBACK_SECONDS as int,
            };
            v * unit_scale(u)
        },
        None => FALLBACK_SECONDS as int,
    }
}

/// The seconds of the duration in the argument `s`, which is trimmed first.
pub open spec fn duration_seconds(s: Seq<char>) -> int {
    captured_seconds(regex_captures(duration_pattern(), trim_chars(s)))
}

/// True when the seconds of the argument `s` fit in a `u64`.
pub open spec fn duration_fits(s: Seq<char>) -> bool {
    duration_seconds(s) <= u64::MAX
}

proof fn lemma_digits_value_prefix(s: Seq<char>, k: int)
    requires
        0 <= k <= s.len(),
    ensures
        digits_value(s.subrange(0, k)) <= digits_value(s),
    decreases s.len(),
{
    if k < s.len() {
        assert(s.drop_last() =~= s.subrange(0, s.len() - 1));
        lemma_digits_value_prefix(s.drop_last(), k);
        assert(s.drop_last().subrange(0, k) =~= s.subrange(0, k));
    } else {
        assert(s.subrange(0, k) =~= s);
    }
}

/// Parses a decimal number as std's `str::parse::<u64>` does.
pub fn parse_u64(s: &str) -> (r: Option<u64>)
    ensures
        r == parsed_u64(s@),
{
    let v = chars_of(s);
    let n = v.len();
    let mut start: usize = 0;
    if n > 0 && v[0] == '+' {
        start = 1;
    }
    let ghost body = unsigned_body(s@);
    assert(body =~= v@.subrange(start as int, n as int));
    if start == n {
        return None;
    }
    let mut acc: u64 = 0;
    let mut i: usize = start;
    while i < n
        invariant
            start <= i <= n,
            n == v@.len(),
            v@ == s@,
            body =~= v@.subrange(start as int, n as int),
            body == unsigned_body(s@),
            start < n,
            forall|j: int| 0 <= j < i - start ==> is_digit(#[trigger] body[j]),
            acc as nat == digits_value(body.subrange(0, i - start)),
        decreases n - i,
    {
        let c = v[i];
        if !('0' <= c && c <= '9') {
            assert(body[i - start] == c);
            assert(!is_digit(body[i - start]));
            return None;
        }
        let d = (c as u32 - '0' as u32) as u64;
        let ghost pre = body.subrange(0, i - start);
        let ghost next = body.subrange(0, i - start + 1);
        assert(next.drop_last() =~= pre);
        assert(next.last() == c);
        assert(digits_value(next) == digits_value(pre) * 10 + d);
        match acc.checked_mul(10) {
            Some(m) => match m.checked_add(d) {
                Some(a) => {
                    acc = a;
                },
                None => {
                    proof {
                        lemma_digits_value_prefix(body, i - start + 1);
                        assert(digits_value(body) > u64::MAX);
                    }
                    return None;
                },
            },
            None => {
                proof {
                    lemma_digits_value_prefix(body, i - start + 1);
                    assert(digits_value(body) > u64::MAX);
                }
                return None;
            },
        }
        i = i + 1;
    }
    assert(body.subrange(0, n - start) =~= body);
    Some(acc)
}

/// A number text is read as std reads a `u64`: a non-empty run of ASCII
/// digits, leading zeros included, gives its decimal value where that fits
/// in a `u64` and nothing where it does not; one leading `'+'` changes
/// nothing; the empty text, a bare `'+'`, and a text with any other
/// character give nothing.
pub proof fn lemma_number_texts(s: Seq<char>)
    ensures
        s.len() > 0 && (forall|i: int| 0 <= i < s.len() ==> '0' <= #[trigger] s[i] <= '9') ==> (
        if digits_value(s) <= u64::MAX {
            parsed_u64(s) == Some(digits_value(s) as u64)
        } else {
            parsed_u64(s) is None
        }),
        s.len() > 0 && s[0] != '+' ==> parsed_u64(seq!['+'] + s) == parsed_u64(s),
        parsed_u64(seq![]) is None,
        parsed_u64(seq!['+']) is None,
        (exists|i: int| 0 <= i < s.len() && !('0' <= #[trigger] s[i] <= '9') && !(i == 0 && s[i] == '+'))
            ==> parsed_u64(s) is None,
        forall|c: char| '0' <= c <= '9' ==> digits_value(#[trigger] s.push(c)) == digits_value(s) * 10
            + (c as int - '0' as int),
{
    assert((seq!['+'] + s).drop_first() =~= s);
    assert(seq!['+'].drop_first() =~= seq![]);
    assert forall|c: char| '0' <= c <= '9' implies digits_value(#[trigger] s.push(c)) == digits_value(s)
        * 10 + (c as int - '0' as int) by {
        assert(s.push(c).drop_last() =~= s);
    }
    if exists|i: int| 0 <= i < s.len() && !('0' <= #[trigger] s[i] <= '9') && !(i == 0 && s[i] == '+') {
        let i = choose|i: int| 0 <= i < s.len() && !('0' <= #[trigger] s[i] <= '9') && !(i == 0 && s[i] == '+');
        let body = unsigned_body(s);
        if s.len() > 0 && s[0] == '+' {
            assert(body[i - 1] == s[i]);
        } else {
            assert(body[i] == s[i]);
        }
    }
}

/// A found duration counts its number in seconds for `s` and `sec`, in
/// minutes for `m` and `min`, and in hours for `h`, in either letter case; a
/// number that cannot be read counts as ten of its unit; and an argument
/// with no duration in it lasts ten seconds.
pub proof fn lemma_found_durations(d: Seq<char>)
    ensures
        d.len() > 0 && (forall|i: int| 0 <= i < d.len() ==> '0' <= #[trigger] d[i] <= '9')
            && digits_value(d) <= u64::MAX ==> {
            &&& captured_seconds(Some((d, seq!['s']))) == digits_value(d)
            &&& captured_seconds(Some((d, seq!['S', 'e', 'C']))) == digits_value(d)
            &&& captured_seconds(Some((d, seq!['m']))) == digits_value(d) * 60
            &&& captured_seconds(Some((d, seq!['M', 'i', 'N']))) == digits_value(d) * 60
            &&& captured_seconds(Some((d, seq!['H']))) == digits_value(d) * 3600
        },
        parsed_u64(d) is None ==> captured_seconds(Some((d, seq!['h']))) == 36000,
        parsed_u64(d) is None ==> captured_seconds(Some((d, seq!['s']))) == 10,
        captured_seconds(None) == 10,
{
    lemma_number_texts(d);
}

/// True when `c` is `lower` in either ASCII case.
fn is_letter(c: char, lower: char) -> (b: bool)
    requires
        'a' <= lower <= 'z',
    ensures
        b == same_letter(c, lower),
{
    c == lower || (c as u32) + 32 == lower as u32
}

/// The scale in seconds of a unit text (see [`unit_scale`]).
pub fn unit_seconds(u: &str) -> (r: u64)
    ensures
        r == unit_scale(u@),
{
    let v = chars_of(u);
    if (v.len() == 3 && is_letter(v[0], 'm') && is_letter(v[1], 'i') && is_letter(v[2], 'n'))
        || (v.len() == 1 && is_letter(v[0], 'm')) {
        60
    } else if v.len() == 1 && is_letter(v[0], 'h') {
        3600
    } else {
        1
    }
}

/// The seconds a capture result of the duration pattern stands for.
pub fn seconds_from_captures(m: Option<(&str, &str)>) -> (secs: u64)
    requires
        captured_seconds(captures_view(m)) <= u64::MAX,
    ensures
        secs == captured_seconds(captures_view(m)),
{
    match m {
        Some((d, u)) => {
            let v = match parse_u64(d) {
                Some(v) => v,
                None => FALLBACK_SECONDS,
            };
            let scale = unit_seconds(u);
            proof {
                assert(v as int * scale <= u64::MAX);
            }
            v * scale
        },
        None => FALLBACK_SECONDS,
    }
}

/// The seconds of the duration in a timer argument such as `30s`, `5min` or
/// `2h`: the argument is trimmed, the duration pattern is searched in it, and
/// its number is scaled by its unit; without a match it is
/// [`FALLBACK_SECONDS`], and a number that does not parse counts as
/// [`FALLBACK_SECONDS`] of its unit.
pub fn parse_duration(pattern: &DurationPattern, s: &str) -> (secs: u64)
    requires
        duration_fits(s@),
    ensures
        secs == duration_seconds(s@),
{
    let t = trim(s);
    let m = pattern.find(t);
    seconds_from_captures(m)
}

/// [`parse_duration`] where its result fits in a `u64`, and `None` where the
/// number times its unit exceeds `u64::MAX`.
pub fn try_parse_duration(pattern: &DurationPattern, s: &str) -> (r: Option<u64>)
    ensures
        match r {
            Some(secs) => duration_fits(s@) && secs == duration_seconds(s@),
            None => !duration_fits(s@),
        },
{
    let t = trim(s);
    let m = pattern.find(t);
    let ghost mv = captures_view(m);
    let fits = match &m {
        Some((d, u)) => {
            let v = match parse_u64(d) {
                Some(v) => v,
                None => FALLBACK_SECONDS,
            };
            let scale = unit_seconds(u);
            v.checked_mul(scale).is_some()
        },
        None => true,
    };
    if fits {
        Some(seconds_from_captures(m))
    } else {
        None
    }
}

/// The label of a timer argument that names none.
pub open spec fn default_label() -> Seq<char> {
    seq!['T', 'i', 'm', 'e', 'r']
}

/// The label of a timer argument: the trimmed text before its first `':'`,
/// or [`default_label`] when there is no `':'` or that text is blank.
pub open spec fn label_part(s: Seq<char>) -> Seq<char> {
    match s.index_of_first(':') {
        Some(k) => {
            let t = trim_chars(s.take(k));
            if t.len() == 0 {
                default_label()
            } else {
                t
            }
        },
        None => default_label(),
    }
}

/// The duration text of a timer argument: what follows its first `':'`, or
/// the whole argument when it has none.
pub open spec fn duration_part(s: Seq<char>) -> Seq<char> {
    match s.index_of_first(':') {
        Some(k) => s.skip(k + 1),
        None => s,
    }
}

/// The label a timer argument without one gets.
pub fn default_label_string() -> (s: String)
    ensures
        s@ == default_label(),
{
    let s = "Timer".to_owned();
    proof {
        reveal_strlit("Timer");
    }
    assert(s@ =~= default_label());
    s
}

/// Splits a timer argument into its label and its duration text.
pub fn split_label(s: &str) -> (r: (String, String))
    ensures
        r.0@ == label_part(s@),
        r.1@ == duration_part(s@),
{
    let v = chars_of(s);
    let n = v.len();
    let mut i: usize = 0;
    while i < n && v[i] != ':'
        invariant
            i <= n,
            n == v@.len(),
            forall|j: int| 0 <= j < i ==> v@[j] != ':',
        decreases n - i,
    {
        i = i + 1;
    }
    proof {
        s@.index_of_first_ensures(':');
    }
    if i < n {
        assert(s@.index_of_first(':') == Some(i as int)) by {
            assert(s@[i as int] == ':');
            assert(s@.contains(':'));
        }
        let before = s.substring_char(0, i);
        let after = s.substring_char(i + 1, n);
        assert(before@ =~= s@.take(i as int));
        assert(after@ =~= s@.skip(i + 1));
        let label = trim(before);
        let rest = after.to_owned();
        if label.is_empty() {
            (default_label_string(), rest)
        } else {
            (label.to_owned(), rest)
        }
    } else {
        assert(!s@.contains(':'));
        (default_label_string(), s.to_owned())
    }
}

/// Parses a timer argument `label:duration` (or a bare duration) into its
/// label and the seconds of its duration (see [`parse_duration`]).
pub fn parse_labeled_duration(pattern: &DurationPattern, s: &str) -> (r: (String, u64))
    requires
        duration_fits(duration_part(s@)),
    ensures
        r.0@ == label_part(s@),
        r.1 == duration_seconds(duration_part(s@)),
{
    let (label, rest) = split_label(s);
    let secs = parse_duration(pattern, rest.as_str());
    (label, secs)
}

/// [`parse_labeled_duration`] where the seconds fit in a `u64`, and `None`
/// where they do not.
pub fn try_parse_labeled_duration(pattern: &DurationPattern, s: &str) -> (r: Option<(String, u64)>)
    ensures
        match r {
            Some((label, secs)) => {
                &&& duration_fits(duration_part(s@))
                &&& label@ == label_part(s@)
                &&& secs == duration_seconds(duration_part(s@))
            },
            None => !duration_fits(duration_part(s@)),
        },
{
    let (label, rest) = split_label(s);
    match try_parse_duration(pattern, rest.as_str()) {
        Some(secs) => Some((label, secs)),
        None => None,
    }
}

/// Every timer argument gives a non-empty label; an argument without `':'`
/// is labelled `Timer` and is its own duration text, and one with a `':'`
/// keeps a non-blank label of its own.
pub proof fn lemma_labels(s: Seq<char>)
    ensures
        label_part(s).len() > 0,
        !s.contains(':') ==> label_part(s) == default_label() && duration_part(s) == s,
        s.contains(':') ==> duration_part(s).len() < s.len(),
{
    s.index_of_first_ensures(':');
}

/// Whitespace before or after a duration argument does not change its
/// seconds.
pub proof fn lemma_duration_ignores_surrounding_white(p: Seq<char>, s: Seq<char>, q: Seq<char>)
    requires
        all_white(p),
        all_white(q),
    ensures
        duration_seconds(p + s + q) == duration_seconds(s),
{
    lemma_trim_ignores_surrounding_white(p, s, q);
}

/// The upper-case form of an ASCII lower-case letter; other characters stay.
pub open spec fn ascii_upper(c: char) -> char {
    if 'a' <= c <= 'z' {
        ((c as int) - 32) as char
    } else {
        c
    }
}

/// The lower-case form of an ASCII upper-case letter; other characters stay.
pub open spec fn ascii_lower(c: char) -> char {
    if 'A' <= c <= 'Z' {
        ((c as int) + 32) as char
    } else {
        c
    }
}

proof fn lemma_letter_case(c: char, l: char)
    requires
        'a' <= l <= 'z',
    ensures
        same_letter(ascii_upper(c), l) == same_letter(c, l),
        same_letter(ascii_lower(c), l) == same_letter(c, l),
{
    if 'a' <= c <= 'z' {
        assert((((c as int) - 32) as char) as int == (c as int) - 32);
    }
    if 'A' <= c <= 'Z' {
        assert((((c as int) + 32) as char) as int == (c as int) + 32);
    }
}

/// The letter case of a unit text does not change its scale.
pub proof fn lemma_unit_scale_ignores_case(u: Seq<char>)
    ensures
        unit_scale(u.map_values(|c: char| ascii_upper(c))) == unit_scale(u),
        unit_scale(u.map_values(|c: char| ascii_lower(c))) == unit_scale(u),
{
    let up = u.map_values(|c: char| ascii_upper(c));
    let lo = u.map_values(|c: char| ascii_lower(c));
    if u.len() >= 1 {
        lemma_letter_case(u[0], 'm');
        lemma_letter_case(u[0], 'h');
    }
    if u.len() >= 3 {
        lemma_letter_case(u[1], 'i');
        lemma_letter_case(u[2], 'n');
    }
    if u.len() == 3 {
        assert(same_letter(up[0], 'm') == same_letter(u[0], 'm'));
        assert(same_letter(up[1], 'i') == same_letter(u[1], 'i'));
        assert(same_letter(up[2], 'n') == same_letter(u[2], 'n'));
        assert(same_letter(lo[0], 'm') == same_letter(u[0], 'm'));
        assert(same_letter(lo[1], 'i') == same_letter(u[1], 'i'));
        assert(same_letter(lo[2], 'n') == same_letter(u[2], 'n'));
    }
    if u.len() == 1 {
        assert(same_letter(up[0], 'm') == same_letter(u[0], 'm'));
        assert(same_letter(up[0], 'h') == same_letter(u[0], 'h'));
        assert(same_letter(lo[0], 'm') == same_letter(u[0], 'm'));
        assert(same_letter(lo[0], 'h') == same_letter(u[0], 'h'));
    }
}

} // verus!
