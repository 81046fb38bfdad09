//! Parsers for the line-oriented nonogram puzzle file format.
//!
//! Each line binds one key: `key: "quoted value"`, `key: value`,
//! `key: 48`, or `key: 1a,2b,3` (a comma-separated list of run hints, each
//! an integer optionally tagged with a lower-case color code). A color
//! definition line binds a color code to a `#rrggbb` value.
//!
//! Every parser takes the input string and returns the unparsed rest
//! together with the parsed value, or a [`ParseError`]. The grammar is
//! modelled by spec functions over `Seq<char>`; each parser's contract
//! states that it returns exactly what the spec-level parser yields.

use vstd::prelude::*;

verus! {

/// The input did not match the grammar of the parser that was applied.
#[derive(Debug, Clone, Copy, PartialEq, Eq)]
pub struct ParseError;

// ---------------------------------------------------------------------
// Character classes and scanning primitives
// ---------------------------------------------------------------------

pub open spec fn is_space_char(c: char) -> bool {
    c == ' ' || c == '\t'
}

/// The number of leading spaces and tabs of `s`.
pub open spec fn leading_spaces(s: Seq<char>) -> int
    decreases s.len(),
{
    if s.len() > 0 && is_space_char(s[0]) {
        1 + leading_spaces(s.drop_first())
    } else {
        0
    }
}

/// The index of the first occurrence of `stop` in `s`, or the length of
/// `s` when `stop` does not occur.
pub open spec fn spec_find(s: Seq<char>, stop: char) -> int
    decreases s.len(),
{
    if s.len() == 0 || s[0] == stop {
        0
    } else {
        1 + spec_find(s.drop_first(), stop)
    }
}

proof fn lemma_leading_spaces_is(s: Seq<char>, i: int)
    requires
        0 <= i <= s.len(),
        forall|k: int| 0 <= k < i ==> is_space_char(#[trigger] s[k]),
        i < s.len() ==> !is_space_char(s[i]),
    ensures
        leading_spaces(s) == i,
    decreases s.len(),
{
    if s.len() > 0 && is_space_char(s[0]) {
        let rest = s.drop_first();
        assert forall|k: int| 0 <= k < i - 1 implies is_space_char(#[trigger] rest[k]) by {
            assert(rest[k] == s[k + 1]);
        }
        assert(i - 1 < rest.len() ==> !is_space_char(rest[i - 1]));
        lemma_leading_spaces_is(rest, i - 1);
    }
}

proof fn lemma_find_is(s: Seq<char>, stop: char, i: int)
    requires
        0 <= i <= s.len(),
        forall|k: int| 0 <= k < i ==> (#[trigger] s[k]) != stop,
        i < s.len() ==> s[i] == stop,
    ensures
        spec_find(s, stop) == i,
    decreases s.len(),
{
    if s.len() > 0 && s[0] != stop {
        let rest = s.drop_first();
        assert forall|k: int| 0 <= k < i - 1 implies (#[trigger] rest[k]) != stop by {
            assert(rest[k] == s[k + 1]);
        }
        assert(i - 1 < rest.len() ==> rest[i - 1] == stop);
        lemma_find_is(rest, stop, i - 1);
    }
}

proof fn lemma_skip_skip(s: Seq<char>, a: int, b: int)
    requires
        0 <= a,
        0 <= b,
        a + b <= s.len(),
    ensures
        s.skip(a).skip(b) == s.skip(a + b),
{
    assert(s.skip(a).skip(b) =~= s.skip(a + b));
}

/// The index of the first character at or after `from` that is not a space
/// or tab.
fn scan_spaces(s: &str, from: usize) -> (i: usize)
    requires
        from <= s@.len(),
    ensures
        from <= i <= s@.len(),
        i - from == leading_spaces(s@.skip(from as int)),
        forall|k: int| from <= k < i ==> is_space_char(#[trigger] s@[k]),
        i < s@.len() ==> !is_space_char(s@[i as int]),
{
    let n = s.unicode_len();
    let mut i: usize = from;
    while i < n && (s.get_char(i) == ' ' || s.get_char(i) == '\t')
        invariant
            from <= i <= n,
            n == s@.len(),
            forall|k: int| from <= k < i ==> is_space_char(#[trigger] s@[k]),
        decreases n - i,
    {
        i = i + 1;
    }
    proof {
        let sub = s@.skip(from as int);
        assert forall|k: int| 0 <= k < i - from implies is_space_char(#[trigger] sub[k]) by {
            assert(sub[k] == s@[from + k]);
        }
        assert(i - from < sub.len() ==> !is_space_char(sub[i - from]));
        lemma_leading_spaces_is(sub, i - from);
    }
    i
}

/// The index of the first occurrence of `stop` at or after `from`, or the
/// length of `s`.
pub(crate) fn find_stop(s: &str, from: usize, stop: char) -> (i: usize)
    requires
        from <= s@.len(),
    ensures
        from <= i <= s@.len(),
        i - from == spec_find(s@.skip(from as int), stop),
        forall|k: int| from <= k < i ==> (#[trigger] s@[k]) != stop,
        i < s@.len() ==> s@[i as int] == stop,
{
    let n = s.unicode_len();
    let mut i: usize = from;
    while i < n && s.get_char(i) != stop
        invariant
            from <= i <= n,
            n == s@.len(),
            forall|k: int| from <= k < i ==> (#[trigger] s@[k]) != stop,
        decreases n - i,
    {
        i = i + 1;
    }
    proof {
        let sub = s@.skip(from as int);
        assert forall|k: int| 0 <= k < i - from implies (#[trigger] sub[k]) != stop by {
            assert(sub[k] == s@[from + k]);
        }
        assert(i - from < sub.len() ==> sub[i - from] == stop);
        lemma_find_is(sub, stop, i - from);
    }
    i
}

// ---------------------------------------------------------------------
// Spec-level grammar
// ---------------------------------------------------------------------

/// Strips the exact prefix `t`.
pub open spec fn spec_tag(s: Seq<char>, t: Seq<char>) -> Option<Seq<char>> {
    if t.is_prefix_of(s) {
        Some(s.skip(t.len() as int))
    } else {
        None
    }
}

/// Strips a single expected character.
pub open spec fn spec_char(s: Seq<char>, c: char) -> Option<Seq<char>> {
    if s.len() > 0 && s[0] == c {
        Some(s.drop_first())
    } else {
        None
    }
}

/// Strips `key`, optional spaces, `:`, optional spaces.
pub open spec fn spec_key_prefix(s: Seq<char>, key: Seq<char>) -> Option<Seq<char>> {
    match spec_tag(s, key) {
        None => None,
        Some(s1) => {
            let s2 = s1.skip(leading_spaces(s1));
            if s2.len() > 0 && s2[0] == ':' {
                let s3 = s2.drop_first();
                Some(s3.skip(leading_spaces(s3)))
            } else {
                None
            }
        },
    }
}

/// A quoted string: `"`, every character before the next `"`, `"`.
/// Yields the value and the rest after the closing quote.
pub open spec fn spec_quoted(s: Seq<char>) -> Option<(Seq<char>, Seq<char>)> {
    if s.len() > 0 && s[0] == '"' {
        let body = s.drop_first();
        let f = spec_find(body, '"');
        if f < body.len() {
            Some((body.take(f), body.skip(f + 1)))
        } else {
            None
        }
    } else {
        None
    }
}

/// Every character before the next newline (possibly none), and the rest
/// beginning at that newline (or empty).
pub open spec fn spec_till_newline(s: Seq<char>) -> (Seq<char>, Seq<char>) {
    let f = spec_find(s, '\n');
    (s.take(f), s.skip(f))
}

/// `key ':' "value" '\n'`: yields the rest after the newline and the value.
pub open spec fn spec_key_and_string(s: Seq<char>, key: Seq<char>) -> Option<(Seq<char>, Seq<char>)> {
    match spec_key_prefix(s, key) {
        None => None,
        Some(s1) => match spec_quoted(s1) {
            None => None,
            Some((val, s2)) => match spec_char(s2, '\n') {
                None => None,
                Some(rest) => Some((rest, val)),
            },
        },
    }
}

/// `key ':' value '\n'` with an unquoted value running to the end of the
/// line: yields the rest after the newline and the value.
pub open spec fn spec_key_and_unquoted_string(s: Seq<char>, key: Seq<char>) -> Option<
    (Seq<char>, Seq<char>),
> {
    match spec_key_prefix(s, key) {
        None => None,
        Some(s1) => {
            let (val, s2) = spec_till_newline(s1);
            match spec_char(s2, '\n') {
                None => None,
                Some(rest) => Some((rest, val)),
            }
        },
    }
}

/// A quoted value is preferred; an unquoted one is accepted otherwise.
pub open spec fn spec_license_value(s: Seq<char>) -> Option<(Seq<char>, Seq<char>)> {
    match spec_key_and_string(s, "license"@) {
        Some(r) => Some(r),
        None => spec_key_and_unquoted_string(s, "license"@),
    }
}

/// The contract shape of a parser returning a string value: the result is
/// exactly what the spec-level parser yields.
pub open spec fn str_result_matches(
    res: Option<(Seq<char>, Seq<char>)>,
    r: Result<(&str, &str), ParseError>,
) -> bool {
    match r {
        Ok((rest, val)) => res == Some((rest@, val@)),
        Err(_) => res is None,
    }
}

// ---------------------------------------------------------------------
// Executable parsers for string-valued keys
// ---------------------------------------------------------------------

/// Matches `key`, optional spaces, `:`, optional spaces, starting at the
/// beginning of `input`; yields the index of the first character after.
fn key_prefix(input: &str, key: &str) -> (r: Option<usize>)
    ensures
        match r {
            Some(p) => p <= input@.len() && spec_key_prefix(input@, key@) == Some(
                input@.skip(p as int),
            ),
            None => spec_key_prefix(input@, key@) is None,
        },
{
    let n = input.unicode_len();
    let klen = key.unicode_len();
    if n < klen {
        proof {
            assert(!key@.is_prefix_of(input@));
        }
        return None;
    }
    let mut k: usize = 0;
    while k < klen
        invariant
            k <= klen,
            klen == key@.len(),
            n == input@.len(),
            klen <= n,
            forall|j: int| 0 <= j < k ==> input@[j] == key@[j],
        decreases klen - k,
    {
        if input.get_char(k) != key.get_char(k) {
            proof {
                assert(!key@.is_prefix_of(input@)) by {
                    assert(input@.subrange(0, klen as int)[k as int] == input@[k as int]);
                }
            }
            return None;
        }
        k = k + 1;
    }
    proof {
        assert(key@ =~= input@.subrange(0, klen as int));
        assert(key@.is_prefix_of(input@));
    }
    let p1 = scan_spaces(input, klen);
    proof {
        lemma_skip_skip(input@, klen as int, p1 - klen);
    }
    if p1 >= n {
        return None;
    }
    if input.get_char(p1) != ':' {
        return None;
    }
    let p2 = p1 + 1;
    proof {
        assert(input@.skip(p1 as int).drop_first() =~= input@.skip(p2 as int));
    }
    let p3 = scan_spaces(input, p2);
    proof {
        lemma_skip_skip(input@, p2 as int, p3 - p2);
    }
    Some(p3)
}

/// Parses a quoted value beginning at `from`; yields the value's bounds and
/// the index after the closing quote.
fn quoted_at(input: &str, from: usize) -> (r: Option<(usize, usize)>)
    requires
        from <= input@.len(),
    ensures
        match r {
            Some((vend, rest)) => {
                &&& from < vend < rest <= input@.len()
                &&& spec_quoted(input@.skip(from as int)) == Some(
                    (
                        input@.subrange(from as int + 1, vend as int),
                        input@.skip(rest as int),
                    ),
                )
            },
            None => spec_quoted(input@.skip(from as int)) is None,
        },
{
    let n = input.unicode_len();
    if from >= n {
        return None;
    }
    if input.get_char(from) != '"' {
        return None;
    }
    proof {
        assert(input@.skip(from as int).drop_first() =~= input@.skip(from as int + 1));
    }
    let f = find_stop(input, from + 1, '"');
    if f >= n {
        return None;
    }
    proof {
        let body = input@.skip(from as int + 1);
        let fb = f - (from + 1);
        assert(body.take(fb) =~= input@.subrange(from as int + 1, f as int));
        assert(body.skip(fb + 1) =~= input@.skip(f as int + 1));
    }
    Some((f, f + 1))
}

/// `key ':' "value" '\n'`.
fn key_and_string<'a>(input: &'a str, key: &str) -> (r: Result<(&'a str, &'a str), ParseError>)
    ensures
        str_result_matches(spec_key_and_string(input@, key@), r),
{
    let n = input.unicode_len();
    let p = match key_prefix(input, key) {
        Some(p) => p,
        None => {
            return Err(ParseError);
        },
    };
    let (vend, restq) = match quoted_at(input, p) {
        Some(pair) => pair,
        None => {
            return Err(ParseError);
        },
    };
    if restq >= n {
        return Err(ParseError);
    }
    if input.get_char(restq) != '\n' {
        return Err(ParseError);
    }
    proof {
        assert(input@.skip(restq as int).drop_first() =~= input@.skip(restq as int + 1));
    }
    let val = input.substring_char(p + 1, vend);
    let rest = input.substring_char(restq + 1, n);
    proof {
        assert(val@ =~= input@.subrange(p as int + 1, vend as int));
        assert(rest@ =~= input@.skip(restq as int + 1));
    }
    Ok((rest, val))
}

/// `key ':' value '\n'` with the value running to the end of the line.
fn key_and_unquoted_string<'a>(input: &'a str, key: &str) -> (r: Result<
    (&'a str, &'a str),
    ParseError,
>)
    ensures
        str_result_matches(spec_key_and_unquoted_string(input@, key@), r),
{
    let n = input.unicode_len();
    let p = match key_prefix(input, key) {
        Some(p) => p,
        None => {
            return Err(ParseError);
        },
    };
    let f = find_stop(input, p, '\n');
    proof {
        let s1 = input@.skip(p as int);
        assert(s1.take(f - p) =~= input@.subrange(p as int, f as int));
        assert(s1.skip(f - p) =~= input@.skip(f as int));
    }
    if f >= n {
        return Err(ParseError);
    }
    proof {
        assert(input@.skip(f as int).drop_first() =~= input@.skip(f as int + 1));
    }
    let val = input.substring_char(p, f);
    let rest = input.substring_char(f + 1, n);
    proof {
        assert(val@ =~= input@.subrange(p as int, f as int));
        assert(rest@ =~= input@.skip(f as int + 1));
    }
    Ok((rest, val))
}

/// `catalogue: "value"`.
pub fn catalogue(input: &str) -> (r: Result<(&str, &str), ParseError>)
    ensures
        str_result_matches(spec_key_and_string(input@, "catalogue"@), r),
{
    key_and_string(input, "catalogue")
}

/// `title: "value"`.
pub fn title(input: &str) -> (r: Result<(&str, &str), ParseError>)
    ensures
        str_result_matches(spec_key_and_string(input@, "title"@), r),
{
    key_and_string(input, "title")
}

/// `by: "value"`.
pub fn by_author(input: &str) -> (r: Result<(&str, &str), ParseError>)
    ensures
        str_result_matches(spec_key_and_string(input@, "by"@), r),
{
    key_and_string(input, "by")
}

/// `copyright: "value"`.
pub fn copyright(input: &str) -> (r: Result<(&str, &str), ParseError>)
    ensures
        str_result_matches(spec_key_and_string(input@, "copyright"@), r),
{
    key_and_string(input, "copyright")
}

/// `license: "value"` or `license: value`.
pub fn license(input: &str) -> (r: Result<(&str, &str), ParseError>)
    ensures
        str_result_matches(spec_license_value(input@), r),
{
    match key_and_string(input, "license") {
        Ok(pair) => Ok(pair),
        Err(_) => key_and_unquoted_string(input, "license"),
    }
}

// ---------------------------------------------------------------------
// Integers
// ---------------------------------------------------------------------

pub open spec fn is_digit_char(c: char) -> bool {
    48 <= c as u32 <= 57
}

pub open spec fn digit_val(c: char) -> int {
    c as u32 - 48
}

/// The number of leading decimal digits of `s`.
pub open spec fn leading_digits(s: Seq<char>) -> int
    decreases s.len(),
{
    if s.len() > 0 && is_digit_char(s[0]) {
        1 + leading_digits(s.drop_first())
    } else {
        0
    }
}

/// The numeric value of a sequence of decimal digit characters.
pub open spec fn digits_val(s: Seq<char>) -> int
    decreases s.len(),
{
    if s.len() == 0 {
        0
    } else {
        digits_val(s.drop_last()) * 10 + digit_val(s.last())
    }
}

proof fn lemma_leading_digits_is(s: Seq<char>, i: int)
    requires
        0 <= i <= s.len(),
        forall|k: int| 0 <= k < i ==> is_digit_char(#[trigger] s[k]),
        i < s.len() ==> !is_digit_char(s[i]),
    ensures
        leading_digits(s) == i,
    decreases s.len(),
{
    if s.len() > 0 && is_digit_char(s[0]) {
        let rest = s.drop_first();
        assert forall|k: int| 0 <= k < i - 1 implies is_digit_char(#[trigger] rest[k]) by {
            assert(rest[k] == s[k + 1]);
        }
        assert(i - 1 < rest.len() ==> !is_digit_char(rest[i - 1]));
        lemma_leading_digits_is(rest, i - 1);
    }
}

proof fn lemma_leading_digits_bounds(s: Seq<char>)
    ensures
        0 <= leading_digits(s) <= s.len(),
        forall|k: int| 0 <= k < leading_digits(s) ==> is_digit_char(#[trigger] s[k]),
    decreases s.len(),
{
    if s.len() > 0 && is_digit_char(s[0]) {
        let rest = s.drop_first();
        lemma_leading_digits_bounds(rest);
        assert forall|k: int| 0 <= k < leading_digits(s) implies is_digit_char(#[trigger] s[k]) by {
            if k > 0 {
                assert(rest[k - 1] == s[k]);
            }
        }
    }
}

proof fn lemma_digits_val_nonneg(s: Seq<char>)
    requires
        forall|k: int| 0 <= k < s.len() ==> is_digit_char(#[trigger] s[k]),
    ensures
        digits_val(s) >= 0,
    decreases s.len(),
{
    if s.len() > 0 {
        let front = s.drop_last();
        assert forall|k: int| 0 <= k < front.len() implies is_digit_char(#[trigger] front[k]) by {
            assert(front[k] == s[k]);
        }
        lemma_digits_val_nonneg(front);
    }
}

/// The value of a digit string grows (weakly) as digits are appended.
proof fn lemma_digits_val_prefix_le(s: Seq<char>, i: int)
    requires
        0 <= i <= s.len(),
        forall|k: int| 0 <= k < s.len() ==> is_digit_char(#[trigger] s[k]),
    ensures
        digits_val(s.take(i)) <= digits_val(s),
    decreases s.len() - i,
{
    if i < s.len() {
        let a = s.take(i);
        let b = s.take(i + 1);
        assert(b.drop_last() =~= a);
        assert(b.last() == s[i]);
        assert forall|k: int| 0 <= k < a.len() implies is_digit_char(#[trigger] a[k]) by {
            assert(a[k] == s[k]);
        }
        lemma_digits_val_nonneg(a);
        assert(digits_val(b) == digits_val(a) * 10 + digit_val(s[i]));
        lemma_digits_val_prefix_le(s, i + 1);
    } else {
        assert(s.take(i) =~= s);
    }
}

/// The number of leading decimal digits starting at `from`.
fn scan_digits(s: &str, from: usize) -> (i: usize)
    requires
        from <= s@.len(),
    ensures
        from <= i <= s@.len(),
        i - from == leading_digits(s@.skip(from as int)),
        forall|k: int| from <= k < i ==> is_digit_char(#[trigger] s@[k]),
        i < s@.len() ==> !is_digit_char(s@[i as int]),
{
    let n = s.unicode_len();
    let mut i: usize = from;
    while i < n && s.get_char(i) as u32 >= 48 && s.get_char(i) as u32 <= 57
        invariant
            from <= i <= n,
            n == s@.len(),
            forall|k: int| from <= k < i ==> is_digit_char(#[trigger] s@[k]),
        decreases n - i,
    {
        i = i + 1;
    }
    proof {
        let sub = s@.skip(from as int);
        assert forall|k: int| 0 <= k < i - from implies is_digit_char(#[trigger] sub[k]) by {
            assert(sub[k] == s@[from + k]);
        }
        assert(i - from < sub.len() ==> !is_digit_char(sub[i - from]));
        lemma_leading_digits_is(sub, i - from);
    }
    i
}

/// The leading run of decimal digits of `s`, as a non-negative integer,
/// when there is at least one digit and the value fits in an `i64`.
pub open spec fn spec_int(s: Seq<char>) -> Option<(Seq<char>, i64)> {
    let d = leading_digits(s);
    if d == 0 {
        None
    } else if digits_val(s.take(d)) > i64::MAX {
        None
    } else {
        Some((s.skip(d), digits_val(s.take(d)) as i64))
    }
}

/// Parses the decimal integer beginning at `from`.
fn int_at(s: &str, from: usize) -> (r: Option<(usize, i64)>)
    requires
        from <= s@.len(),
    ensures
        match r {
            Some((p, v)) => from < p <= s@.len() && spec_int(s@.skip(from as int)) == Some(
                (s@.skip(p as int), v),
            ),
            None => spec_int(s@.skip(from as int)) is None,
        },
{
    let end = scan_digits(s, from);
    proof {
        let sub = s@.skip(from as int);
        assert(sub.take(end - from) =~= s@.subrange(from as int, end as int));
        lemma_skip_skip(s@, from as int, end - from);
    }
    if end == from {
        return None;
    }
    let ghost digits = s@.subrange(from as int, end as int);
    let mut acc: u128 = 0;
    let mut over = false;
    let mut i: usize = from;
    proof {
        assert(digits.subrange(0, 0) =~= Seq::<char>::empty());
    }
    while i < end
        invariant
            from <= i <= end <= s@.len(),
            digits == s@.subrange(from as int, end as int),
            forall|k: int| from <= k < end ==> is_digit_char(#[trigger] s@[k]),
            !over ==> acc == digits_val(digits.subrange(0, i - from)) && acc <= i64::MAX,
            over ==> digits_val(digits) > i64::MAX,
        decreases end - i,
    {
        proof {
            assert(digits.subrange(0, i - from + 1).drop_last() =~= digits.subrange(
                0,
                i - from,
            ));
            assert(digits.subrange(0, i - from + 1).last() == s@[i as int]);
        }
        if !over {
            let c = s.get_char(i);
            let d: u128 = (c as u32 - 48) as u128;
            let next: u128 = acc * 10 + d;
            if next > i64::MAX as u128 {
                proof {
                    assert(digits_val(digits.subrange(0, i - from + 1)) == next);
                    assert forall|k: int| 0 <= k < digits.len() implies is_digit_char(
                        #[trigger] digits[k],
                    ) by {
                        assert(digits[k] == s@[from + k]);
                    }
                    lemma_digits_val_prefix_le(digits, i - from + 1);
                    assert(digits.take(i - from + 1) =~= digits.subrange(0, i - from + 1));
                }
                over = true;
            } else {
                acc = next;
            }
        }
        i = i + 1;
    }
    if over {
        proof {
            assert(digits =~= s@.skip(from as int).take(end - from));
        }
        return None;
    }
    proof {
        assert(digits.subrange(0, end - from) =~= digits);
        assert(digits =~= s@.skip(from as int).take(end - from));
    }
    Some((end, acc as i64))
}

/// `key ':' integer '\n'`: yields the rest after the newline and the value.
pub open spec fn spec_key_and_int(s: Seq<char>, key: Seq<char>) -> Option<(Seq<char>, i64)> {
    match spec_key_prefix(s, key) {
        None => None,
        Some(s1) => match spec_int(s1) {
            None => None,
            Some((s2, v)) => match spec_char(s2, '\n') {
                None => None,
                Some(rest) => Some((rest, v)),
            },
        },
    }
}

/// The contract shape of a parser returning an integer value.
pub open spec fn int_result_matches(
    res: Option<(Seq<char>, i64)>,
    r: Result<(&str, i64), ParseError>,
) -> bool {
    match r {
        Ok((rest, v)) => res == Some((rest@, v)),
        Err(_) => res is None,
    }
}

fn key_and_int<'a>(input: &'a str, key: &str) -> (r: Result<(&'a str, i64), ParseError>)
    ensures
        int_result_matches(spec_key_and_int(input@, key@), r),
{
    let n = input.unicode_len();
    let p = match key_prefix(input, key) {
        Some(p) => p,
        None => {
            return Err(ParseError);
        },
    };
    let (p2, v) = match int_at(input, p) {
        Some(pair) => pair,
        None => {
            return Err(ParseError);
        },
    };
    if p2 >= n {
        return Err(ParseError);
    }
    if input.get_char(p2) != '\n' {
        return Err(ParseError);
    }
    proof {
        assert(input@.skip(p2 as int).drop_first() =~= input@.skip(p2 as int + 1));
    }
    let rest = input.substring_char(p2 + 1, n);
    proof {
        assert(rest@ =~= input@.skip(p2 as int + 1));
    }
    Ok((rest, v))
}

/// `width: 48`.
pub fn width(input: &str) -> (r: Result<(&str, i64), ParseError>)
    ensures
        int_result_matches(spec_key_and_int(input@, "width"@), r),
{
    key_and_int(input, "width")
}

/// `height: 62`.
pub fn height(input: &str) -> (r: Result<(&str, i64), ParseError>)
    ensures
        int_result_matches(spec_key_and_int(input@, "height"@), r),
{
    key_and_int(input, "height")
}

// ---------------------------------------------------------------------
// Run hints: `1a,2b,3`
// ---------------------------------------------------------------------

pub open spec fn is_lowercase_char(c: char) -> bool {
    97 <= c as u32 <= 122
}

/// A single lower-case letter.
pub open spec fn spec_one_letter(s: Seq<char>) -> Option<(Seq<char>, char)> {
    if s.len() > 0 && is_lowercase_char(s[0]) {
        Some((s.drop_first(), s[0]))
    } else {
        None
    }
}

/// One run hint: an integer, optionally tagged with a lower-case color
/// letter.
pub open spec fn spec_hint(s: Seq<char>) -> Option<(Seq<char>, (i64, Option<char>))> {
    match spec_int(s) {
        None => None,
        Some((s1, v)) => match spec_one_letter(s1) {
            Some((s2, c)) => Some((s2, (v, Some(c)))),
            None => Some((s1, (v, None))),
        },
    }
}

proof fn lemma_spec_hint_consumes(s: Seq<char>)
    ensures
        spec_hint(s) matches Some((rest, h)) ==> rest.len() < s.len(),
{
    lemma_leading_digits_bounds(s);
}

/// The continuation of a hint list after one hint: further `,`-separated
/// hints as long as a comma is followed by a hint; a comma not followed by
/// a hint is left unconsumed.
pub open spec fn spec_hints_tail(s: Seq<char>) -> (Seq<char>, Seq<(i64, Option<char>)>)
    decreases s.len(),
    via spec_hints_tail_dec
{
    if s.len() > 0 && s[0] == ',' {
        match spec_hint(s.drop_first()) {
            Some((s1, h)) => {
                let r = spec_hints_tail(s1);
                (r.0, seq![h] + r.1)
            },
            None => (s, Seq::empty()),
        }
    } else {
        (s, Seq::empty())
    }
}

#[via_fn]
proof fn spec_hints_tail_dec(s: Seq<char>) {
    if s.len() > 0 && s[0] == ',' {
        lemma_spec_hint_consumes(s.drop_first());
    }
}

/// A possibly empty `,`-separated list of hints.
pub open spec fn spec_hints(s: Seq<char>) -> (Seq<char>, Seq<(i64, Option<char>)>) {
    match spec_hint(s) {
        None => (s, Seq::empty()),
        Some((s1, h)) => {
            let r = spec_hints_tail(s1);
            (r.0, seq![h] + r.1)
        },
    }
}

/// Parses the hint beginning at `from`.
fn hint_at(s: &str, from: usize) -> (r: Option<(usize, (i64, Option<char>))>)
    requires
        from <= s@.len(),
    ensures
        match r {
            Some((p, h)) => from < p <= s@.len() && spec_hint(s@.skip(from as int)) == Some(
                (s@.skip(p as int), h),
            ),
            None => spec_hint(s@.skip(from as int)) is None,
        },
{
    let n = s.unicode_len();
    match int_at(s, from) {
        None => None,
        Some((p1, v)) => {
            if p1 < n {
                let c = s.get_char(p1);
                if c as u32 >= 97 && c as u32 <= 122 {
                    proof {
                        assert(s@.skip(p1 as int).drop_first() =~= s@.skip(p1 as int + 1));
                    }
                    return Some((p1 + 1, (v, Some(c))));
                }
            }
            Some((p1, (v, None)))
        },
    }
}

/// Parses the `,`-separated hint list beginning at `from`.
fn hints_at(s: &str, from: usize) -> (r: (usize, Vec<(i64, Option<char>)>))
    requires
        from <= s@.len(),
    ensures
        from <= r.0 <= s@.len(),
        spec_hints(s@.skip(from as int)).0 == s@.skip(r.0 as int),
        spec_hints(s@.skip(from as int)).1 == r.1@,
{
    let n = s.unicode_len();
    let mut acc: Vec<(i64, Option<char>)> = Vec::new();
    let mut p: usize = from;
    match hint_at(s, from) {
        None => {
            return (from, acc);
        },
        Some((p1, h)) => {
            acc.push(h);
            p = p1;
            proof {
                assert(acc@ =~= seq![h]);
            }
        },
    }
    let mut done = false;
    while !done
        invariant
            from <= p <= n,
            n == s@.len(),
            !done ==> spec_hints(s@.skip(from as int)).0 == spec_hints_tail(s@.skip(p as int)).0
                && spec_hints(s@.skip(from as int)).1 == acc@ + spec_hints_tail(
                s@.skip(p as int),
            ).1,
            done ==> spec_hints(s@.skip(from as int)).0 == s@.skip(p as int) && spec_hints(
                s@.skip(from as int),
            ).1 == acc@,
        decreases n - p + (if done {
            0int
        } else {
            1int
        }),
    {
        if p < n && s.get_char(p) == ',' {
            proof {
                assert(s@.skip(p as int).drop_first() =~= s@.skip(p as int + 1));
            }
            match hint_at(s, p + 1) {
                Some((p2, h)) => {
                    proof {
                        let t2 = spec_hints_tail(s@.skip(p2 as int));
                        assert(acc@ + (seq![h] + t2.1) =~= acc@.push(h) + t2.1);
                    }
                    acc.push(h);
                    p = p2;
                },
                None => {
                    proof {
                        assert(acc@ + Seq::<(i64, Option<char>)>::empty() =~= acc@);
                    }
                    done = true;
                },
            }
        } else {
            proof {
                assert(acc@ + Seq::<(i64, Option<char>)>::empty() =~= acc@);
            }
            done = true;
        }
    }
    (p, acc)
}

/// `key ':' hints '\n'`: yields the rest after the newline and the hints.
pub open spec fn spec_key_and_hints(s: Seq<char>, key: Seq<char>) -> Option<
    (Seq<char>, Seq<(i64, Option<char>)>),
> {
    match spec_key_prefix(s, key) {
        None => None,
        Some(s1) => {
            let (s2, hs) = spec_hints(s1);
            match spec_char(s2, '\n') {
                None => None,
                Some(rest) => Some((rest, hs)),
            }
        },
    }
}

/// The contract shape of a parser returning a hint list.
pub open spec fn hints_result_matches(
    res: Option<(Seq<char>, Seq<(i64, Option<char>)>)>,
    r: Result<(&str, Vec<(i64, Option<char>)>), ParseError>,
) -> bool {
    match r {
        Ok((rest, v)) => res == Some((rest@, v@)),
        Err(_) => res is None,
    }
}

fn key_and_sequence_of_lines<'a>(input: &'a str, key: &str) -> (r: Result<
    (&'a str, Vec<(i64, Option<char>)>),
    ParseError,
>)
    ensures
        hints_result_matches(spec_key_and_hints(input@, key@), r),
{
    let n = input.unicode_len();
    let p = match key_prefix(input, key) {
        Some(p) => p,
        None => {
            return Err(ParseError);
        },
    };
    let (p2, hs) = hints_at(input, p);
    if p2 >= n {
        return Err(ParseError);
    }
    if input.get_char(p2) != '\n' {
        return Err(ParseError);
    }
    proof {
        assert(input@.skip(p2 as int).drop_first() =~= input@.skip(p2 as int + 1));
    }
    let rest = input.substring_char(p2 + 1, n);
    proof {
        assert(rest@ =~= input@.skip(p2 as int + 1));
    }
    Ok((rest, hs))
}

/// `rows: 1a,2b,3`.
pub fn rows(input: &str) -> (r: Result<(&str, Vec<(i64, Option<char>)>), ParseError>)
    ensures
        hints_result_matches(spec_key_and_hints(input@, "rows"@), r),
{
    key_and_sequence_of_lines(input, "rows")
}

/// `columns: 17f,323,4z`.
pub fn columns(input: &str) -> (r: Result<(&str, Vec<(i64, Option<char>)>), ParseError>)
    ensures
        hints_result_matches(spec_key_and_hints(input@, "columns"@), r),
{
    key_and_sequence_of_lines(input, "columns")
}

// ---------------------------------------------------------------------
// Goal lines: `goal: "00110101"`
// ---------------------------------------------------------------------

/// A goal answer is `0`, `1`, or a lower-case color letter.
pub open spec fn is_answer_char(c: char) -> bool {
    c == '0' || c == '1' || is_lowercase_char(c)
}

/// The number of leading answer characters of `s`.
pub open spec fn leading_answers(s: Seq<char>) -> int
    decreases s.len(),
{
    if s.len() > 0 && is_answer_char(s[0]) {
        1 + leading_answers(s.drop_first())
    } else {
        0
    }
}

proof fn lemma_leading_answers_is(s: Seq<char>, i: int)
    requires
        0 <= i <= s.len(),
        forall|k: int| 0 <= k < i ==> is_answer_char(#[trigger] s[k]),
        i < s.len() ==> !is_answer_char(s[i]),
    ensures
        leading_answers(s) == i,
    decreases s.len(),
{
    if s.len() > 0 && is_answer_char(s[0]) {
        let rest = s.drop_first();
        assert forall|k: int| 0 <= k < i - 1 implies is_answer_char(#[trigger] rest[k]) by {
            assert(rest[k] == s[k + 1]);
        }
        assert(i - 1 < rest.len() ==> !is_answer_char(rest[i - 1]));
        lemma_leading_answers_is(rest, i - 1);
    }
}

/// The index of the first character at or after `from` that is not an
/// answer character.
fn scan_answers(s: &str, from: usize) -> (i: usize)
    requires
        from <= s@.len(),
    ensures
        from <= i <= s@.len(),
        i - from == leading_answers(s@.skip(from as int)),
{
    let n = s.unicode_len();
    let mut i: usize = from;
    while i < n && (s.get_char(i) == '0' || s.get_char(i) == '1' || (s.get_char(i) as u32 >= 97
        && s.get_char(i) as u32 <= 122))
        invariant
            from <= i <= n,
            n == s@.len(),
            forall|k: int| from <= k < i ==> is_answer_char(#[trigger] s@[k]),
        decreases n - i,
    {
        i = i + 1;
    }
    proof {
        let sub = s@.skip(from as int);
        assert forall|k: int| 0 <= k < i - from implies is_answer_char(#[trigger] sub[k]) by {
            assert(sub[k] == s@[from + k]);
        }
        assert(i - from < sub.len() ==> !is_answer_char(sub[i - from]));
        lemma_leading_answers_is(sub, i - from);
    }
    i
}

/// `goal ':' '"' answers '"' '\n'`: yields the rest after the newline and
/// the sequence of answer characters.
pub open spec fn spec_goal(s: Seq<char>) -> Option<(Seq<char>, Seq<char>)> {
    match spec_key_prefix(s, "goal"@) {
        None => None,
        Some(s1) => {
            if s1.len() > 0 && s1[0] == '"' {
                let body = s1.drop_first();
                let a = leading_answers(body);
                let s2 = body.skip(a);
                if s2.len() >= 2 && s2[0] == '"' && s2[1] == '\n' {
                    Some((s2.skip(2), body.take(a)))
                } else {
                    None
                }
            } else {
                None
            }
        },
    }
}

/// The characters of `s` between `from` and `to`.
fn chars_of_range(s: &str, from: usize, to: usize) -> (v: Vec<char>)
    requires
        from <= to <= s@.len(),
    ensures
        v@ == s@.subrange(from as int, to as int),
{
    let mut v: Vec<char> = Vec::new();
    let mut i: usize = from;
    while i < to
        invariant
            from <= i <= to <= s@.len(),
            v@ == s@.subrange(from as int, i as int),
        decreases to - i,
    {
        proof {
            assert(s@.subrange(from as int, i as int + 1) =~= s@.subrange(
                from as int,
                i as int,
            ).push(s@[i as int]));
        }
        v.push(s.get_char(i));
        i = i + 1;
    }
    v
}

/// `goal: "00110101"`.
pub fn goal(input: &str) -> (r: Result<(&str, Vec<char>), ParseError>)
    ensures
        match r {
            Ok((rest, v)) => spec_goal(input@) == Some((rest@, v@)),
            Err(_) => spec_goal(input@) is None,
        },
{
    let n = input.unicode_len();
    let p = match key_prefix(input, "goal") {
        Some(p) => p,
        None => {
            return Err(ParseError);
        },
    };
    if p >= n {
        return Err(ParseError);
    }
    if input.get_char(p) != '"' {
        return Err(ParseError);
    }
    proof {
        assert(input@.skip(p as int).drop_first() =~= input@.skip(p as int + 1));
    }
    let aend = scan_answers(input, p + 1);
    proof {
        let body = input@.skip(p as int + 1);
        let a = aend - (p + 1);
        assert(body.take(a) =~= input@.subrange(p as int + 1, aend as int));
        lemma_skip_skip(input@, p as int + 1, a);
    }
    if aend >= n {
        return Err(ParseError);
    }
    if input.get_char(aend) != '"' {
        return Err(ParseError);
    }
    if aend + 1 >= n {
        return Err(ParseError);
    }
    if input.get_char(aend + 1) != '\n' {
        return Err(ParseError);
    }
    proof {
        assert(input@.skip(aend as int).skip(2) =~= input@.skip(aend as int + 2));
    }
    let v = chars_of_range(input, p + 1, aend);
    let rest = input.substring_char(aend + 2, n);
    proof {
        assert(rest@ =~= input@.skip(aend as int + 2));
    }
    Ok((rest, v))
}

// ---------------------------------------------------------------------
// Colors: `#2F14DF` and `color: a #2F14DF`
// ---------------------------------------------------------------------

/// A red/green/blue color parsed from a `#rrggbb` code.
#[derive(Debug, PartialEq)]
pub struct Color {
    pub red: u8,
    pub green: u8,
    pub blue: u8,
}

pub open spec fn is_hex_digit_char(c: char) -> bool {
    is_digit_char(c) || 97 <= c as u32 <= 102 || 65 <= c as u32 <= 70
}

pub open spec fn hex_digit_val(c: char) -> int {
    if is_digit_char(c) {
        digit_val(c)
    } else if 97 <= c as u32 {
        c as u32 - 87
    } else {
        c as u32 - 55
    }
}

/// The numeric value of a sequence of hexadecimal digit characters.
pub open spec fn hex_val(s: Seq<char>) -> int
    decreases s.len(),
{
    if s.len() == 0 {
        0
    } else {
        hex_val(s.drop_last()) * 16 + hex_digit_val(s.last())
    }
}

/// Reports whether `c` is a hexadecimal digit.
pub fn is_hex_digit(c: char) -> (r: bool)
    ensures
        r == is_hex_digit_char(c),
{
    let u = c as u32;
    (48 <= u && u <= 57) || (97 <= u && u <= 102) || (65 <= u && u <= 70)
}

proof fn lemma_hex_val_nonneg(s: Seq<char>)
    requires
        forall|k: int| 0 <= k < s.len() ==> is_hex_digit_char(#[trigger] s[k]),
    ensures
        hex_val(s) >= 0,
    decreases s.len(),
{
    if s.len() > 0 {
        let front = s.drop_last();
        assert forall|k: int| 0 <= k < front.len() implies is_hex_digit_char(
            #[trigger] front[k],
        ) by {
            assert(front[k] == s[k]);
        }
        lemma_hex_val_nonneg(front);
    }
}

/// The value of a hex digit string grows (weakly) as digits are appended.
proof fn lemma_hex_val_prefix_le(s: Seq<char>, i: int)
    requires
        0 <= i <= s.len(),
        forall|k: int| 0 <= k < s.len() ==> is_hex_digit_char(#[trigger] s[k]),
    ensures
        hex_val(s.take(i)) <= hex_val(s),
    decreases s.len() - i,
{
    if i < s.len() {
        let a = s.take(i);
        let b = s.take(i + 1);
        assert(b.drop_last() =~= a);
        assert(b.last() == s[i]);
        assert forall|k: int| 0 <= k < a.len() implies is_hex_digit_char(#[trigger] a[k]) by {
            assert(a[k] == s[k]);
        }
        lemma_hex_val_nonneg(a);
        assert(hex_val(b) == hex_val(a) * 16 + hex_digit_val(s[i]));
        lemma_hex_val_prefix_le(s, i + 1);
    } else {
        assert(s.take(i) =~= s);
    }
}

pub open spec fn all_hex(s: Seq<char>) -> bool {
    forall|k: int| 0 <= k < s.len() ==> is_hex_digit_char(#[trigger] s[k])
}

/// A non-empty all-hex digit string read as a number, when the value fits
/// in a `u8`.
pub open spec fn spec_from_hex_digits(t: Seq<char>) -> Option<u8> {
    if t.len() > 0 && all_hex(t) && hex_val(t) <= u8::MAX {
        Some(hex_val(t) as u8)
    } else {
        None
    }
}

/// The whole of `s` read as a hexadecimal number, after an optional
/// leading `+`: defined when at least one digit follows, every character
/// is a hex digit, and the value fits in a `u8`.
pub open spec fn spec_from_hex(s: Seq<char>) -> Option<u8> {
    if s.len() > 0 && s[0] == '+' {
        spec_from_hex_digits(s.drop_first())
    } else {
        spec_from_hex_digits(s)
    }
}

/// Reads the whole input as a hexadecimal `u8`, as `u8::from_str_radix`
/// with radix 16 does: an optional `+` sign, then one or more hex digits,
/// rejecting values over `u8::MAX`.
pub fn from_hex(input: &str) -> (r: Result<u8, ParseError>)
    ensures
        match r {
            Ok(v) => spec_from_hex(input@) == Some(v),
            Err(_) => spec_from_hex(input@) is None,
        },
{
    let n = input.unicode_len();
    let start: usize = if n > 0 && input.get_char(0) == '+' {
        1
    } else {
        0
    };
    let ghost t = if start == 1 {
        input@.drop_first()
    } else {
        input@
    };
    proof {
        assert(t =~= input@.skip(start as int));
    }
    if n == start {
        return Err(ParseError);
    }
    let mut acc: u128 = 0;
    let mut over = false;
    let mut i: usize = start;
    proof {
        assert(t.subrange(0, 0) =~= Seq::<char>::empty());
    }
    while i < n
        invariant
            start <= i <= n,
            start <= 1,
            (start == 1) <==> (input@.len() > 0 && input@[0] == '+'),
            n == input@.len(),
            t == input@.skip(start as int),
            t.len() == n - start,
            forall|k: int| 0 <= k < i - start ==> is_hex_digit_char(#[trigger] t[k]),
            !over ==> acc == hex_val(t.subrange(0, i - start)) && acc <= u8::MAX,
            over ==> exists|j: int|
                0 <= j <= t.len() && (forall|k: int|
                    0 <= k < j ==> is_hex_digit_char(#[trigger] t[k])) && hex_val(
                    t.subrange(0, j),
                ) > u8::MAX,
        decreases n - i,
    {
        let c = input.get_char(i);
        let u = c as u32;
        let hexdig = (48 <= u && u <= 57) || (97 <= u && u <= 102) || (65 <= u && u <= 70);
        if !hexdig {
            proof {
                assert(input@.skip(1) =~= input@.drop_first());
                assert(input@.skip(0) =~= input@);
                assert(t[i - start] == input@[i as int]);
                assert(!all_hex(t)) by {
                    assert(!is_hex_digit_char(t[i - start]));
                }
            }
            return Err(ParseError);
        }
        proof {
            assert(t[i - start] == input@[i as int]);
            assert(t.subrange(0, i - start + 1).drop_last() =~= t.subrange(0, i - start));
            assert(t.subrange(0, i - start + 1).last() == t[i - start]);
        }
        if !over {
            let d: u128 = if u <= 57 {
                (u - 48) as u128
            } else if u >= 97 {
                (u - 87) as u128
            } else {
                (u - 55) as u128
            };
            let next: u128 = acc * 16 + d;
            if next > u8::MAX as u128 {
                over = true;
                proof {
                    assert(hex_val(t.subrange(0, i - start + 1)) == next);
                }
            } else {
                acc = next;
            }
        }
        i = i + 1;
    }
    proof {
        assert(input@.skip(1) =~= input@.drop_first());
        assert(input@.skip(0) =~= input@);
        assert(all_hex(t));
    }
    if over {
        proof {
            let j = choose|j: int|
                0 <= j <= t.len() && (forall|k: int|
                    0 <= k < j ==> is_hex_digit_char(#[trigger] t[k])) && hex_val(
                    t.subrange(0, j),
                ) > u8::MAX;
            assert(t.subrange(0, j) =~= t.take(j));
            lemma_hex_val_prefix_le(t, j);
        }
        return Err(ParseError);
    }
    proof {
        assert(t.subrange(0, t.len() as int) =~= t);
    }
    Ok(acc as u8)
}

pub open spec fn all_digits(s: Seq<char>) -> bool {
    forall|k: int| 0 <= k < s.len() ==> is_digit_char(#[trigger] s[k])
}

/// A non-empty all-digit string read as a number, when the value fits in a
/// `u32`.
pub open spec fn spec_int_from_str_digits(t: Seq<char>) -> Option<u32> {
    if t.len() > 0 && all_digits(t) && digits_val(t) <= u32::MAX {
        Some(digits_val(t) as u32)
    } else {
        None
    }
}

/// The whole of `s` read as a decimal number, after an optional leading
/// `+`: defined when at least one digit follows, every character is a
/// digit, and the value fits in a `u32`.
pub open spec fn spec_int_from_str(s: Seq<char>) -> Option<u32> {
    if s.len() > 0 && s[0] == '+' {
        spec_int_from_str_digits(s.drop_first())
    } else {
        spec_int_from_str_digits(s)
    }
}

/// Reads the whole input as a decimal `u32`, as `u32::from_str_radix` with
/// radix 10 does: an optional `+` sign, then one or more digits, rejecting
/// values over `u32::MAX`.
pub fn int_from_str(input: &str) -> (r: Result<u32, ParseError>)
    ensures
        match r {
            Ok(v) => spec_int_from_str(input@) == Some(v),
            Err(_) => spec_int_from_str(input@) is None,
        },
{
    let n = input.unicode_len();
    let start: usize = if n > 0 && input.get_char(0) == '+' {
        1
    } else {
        0
    };
    let ghost t = if start == 1 {
        input@.drop_first()
    } else {
        input@
    };
    proof {
        assert(t =~= input@.skip(start as int));
    }
    if n == start {
        return Err(ParseError);
    }
    let mut acc: u64 = 0;
    let mut over = false;
    let mut i: usize = start;
    proof {
        assert(t.subrange(0, 0) =~= Seq::<char>::empty());
    }
    while i < n
        invariant
            start <= i <= n,
            start <= 1,
            (start == 1) <==> (input@.len() > 0 && input@[0] == '+'),
            n == input@.len(),
            t == input@.skip(start as int),
            t.len() == n - start,
            forall|k: int| 0 <= k < i - start ==> is_digit_char(#[trigger] t[k]),
            !over ==> acc == digits_val(t.subrange(0, i - start)) && acc <= u32::MAX,
            over ==> exists|j: int|
                0 <= j <= t.len() && (forall|k: int|
                    0 <= k < j ==> is_digit_char(#[trigger] t[k])) && digits_val(
                    t.subrange(0, j),
                ) > u32::MAX,
        decreases n - i,
    {
        let c = input.get_char(i);
        let u = c as u32;
        if !(48 <= u && u <= 57) {
            proof {
                assert(input@.skip(1) =~= input@.drop_first());
                assert(input@.skip(0) =~= input@);
                assert(t[i - start] == input@[i as int]);
                assert(!all_digits(t)) by {
                    assert(!is_digit_char(t[i - start]));
                }
            }
            return Err(ParseError);
        }
        proof {
            assert(t[i - start] == input@[i as int]);
            assert(t.subrange(0, i - start + 1).drop_last() =~= t.subrange(0, i - start));
            assert(t.subrange(0, i - start + 1).last() == t[i - start]);
        }
        if !over {
            let d: u64 = (u - 48) as u64;
            let next: u64 = acc * 10 + d;
            if next > u32::MAX as u64 {
                over = true;
                proof {
                    assert(digits_val(t.subrange(0, i - start + 1)) == next);
                }
            } else {
                acc = next;
            }
        }
        i = i + 1;
    }
    proof {
        assert(input@.skip(1) =~= input@.drop_first());
        assert(input@.skip(0) =~= input@);
        assert(all_digits(t));
    }
    if over {
        proof {
            let j = choose|j: int|
                0 <= j <= t.len() && (forall|k: int|
                    0 <= k < j ==> is_digit_char(#[trigger] t[k])) && digits_val(
                    t.subrange(0, j),
                ) > u32::MAX;
            assert(t.subrange(0, j) =~= t.take(j));
            lemma_digits_val_prefix_le(t, j);
        }
        return Err(ParseError);
    }
    proof {
        assert(t.subrange(0, t.len() as int) =~= t);
    }
    Ok(acc as u32)
}

/// Exactly two hexadecimal digits, read as a `u8`.
pub open spec fn spec_hex_primary(s: Seq<char>) -> Option<(Seq<char>, u8)> {
    if s.len() >= 2 && is_hex_digit_char(s[0]) && is_hex_digit_char(s[1]) {
        Some((s.skip(2), (hex_digit_val(s[0]) * 16 + hex_digit_val(s[1])) as u8))
    } else {
        None
    }
}

/// Parses the two-digit hex byte beginning at `from`.
fn hex_primary_at(s: &str, from: usize) -> (r: Option<(usize, u8)>)
    requires
        from <= s@.len(),
    ensures
        match r {
            Some((p, v)) => p == from + 2 && p <= s@.len() && spec_hex_primary(
                s@.skip(from as int),
            ) == Some((s@.skip(p as int), v)),
            None => spec_hex_primary(s@.skip(from as int)) is None,
        },
{
    let n = s.unicode_len();
    if n - from < 2 {
        return None;
    }
    let c0 = s.get_char(from);
    let c1 = s.get_char(from + 1);
    if !is_hex_digit(c0) {
        return None;
    }
    if !is_hex_digit(c1) {
        return None;
    }
    let u0 = c0 as u32;
    let u1 = c1 as u32;
    let h0: u32 = if u0 <= 57 {
        u0 - 48
    } else if u0 >= 97 {
        u0 - 87
    } else {
        u0 - 55
    };
    let h1: u32 = if u1 <= 57 {
        u1 - 48
    } else if u1 >= 97 {
        u1 - 87
    } else {
        u1 - 55
    };
    proof {
        lemma_skip_skip(s@, from as int, 2);
    }
    Some((from + 2, (h0 * 16 + h1) as u8))
}

/// `'#' rrggbb`: yields the rest and the three byte values.
pub open spec fn spec_hex_color(s: Seq<char>) -> Option<(Seq<char>, Color)> {
    match spec_char(s, '#') {
        None => None,
        Some(s1) => match spec_hex_primary(s1) {
            None => None,
            Some((s2, red)) => match spec_hex_primary(s2) {
                None => None,
                Some((s3, green)) => match spec_hex_primary(s3) {
                    None => None,
                    Some((s4, blue)) => Some((s4, Color { red, green, blue })),
                },
            },
        },
    }
}

/// Parses the `#rrggbb` color code beginning at `from`.
fn hex_color_at(s: &str, from: usize) -> (r: Option<(usize, Color)>)
    requires
        from <= s@.len(),
    ensures
        match r {
            Some((p, c)) => from < p <= s@.len() && spec_hex_color(s@.skip(from as int)) == Some(
                (s@.skip(p as int), c),
            ),
            None => spec_hex_color(s@.skip(from as int)) is None,
        },
{
    let n = s.unicode_len();
    if from >= n {
        return None;
    }
    if s.get_char(from) != '#' {
        return None;
    }
    proof {
        assert(s@.skip(from as int).drop_first() =~= s@.skip(from as int + 1));
    }
    let (p1, red) = match hex_primary_at(s, from + 1) {
        Some(pair) => pair,
        None => {
            return None;
        },
    };
    let (p2, green) = match hex_primary_at(s, p1) {
        Some(pair) => pair,
        None => {
            return None;
        },
    };
    let (p3, blue) = match hex_primary_at(s, p2) {
        Some(pair) => pair,
        None => {
            return None;
        },
    };
    Some((p3, Color { red, green, blue }))
}

/// `#2F14DF`.
pub fn hex_color(input: &str) -> (r: Result<(&str, Color), ParseError>)
    ensures
        match r {
            Ok((rest, c)) => spec_hex_color(input@) == Some((rest@, c)),
            Err(_) => spec_hex_color(input@) is None,
        },
{
    let n = input.unicode_len();
    proof {
        assert(input@.skip(0) =~= input@);
    }
    let (p, c) = match hex_color_at(input, 0) {
        Some(pair) => pair,
        None => {
            return Err(ParseError);
        },
    };
    let rest = input.substring_char(p, n);
    proof {
        assert(rest@ =~= input@.skip(p as int));
    }
    Ok((rest, c))
}

/// `color ':' letter spaces '#rrggbb' '\n'`: yields the rest after the
/// newline, the color code letter, and the color.
pub open spec fn spec_color(s: Seq<char>) -> Option<(Seq<char>, (char, Color))> {
    match spec_key_prefix(s, "color"@) {
        None => None,
        Some(s1) => match spec_one_letter(s1) {
            None => None,
            Some((s2, label)) => {
                let s3 = s2.skip(leading_spaces(s2));
                match spec_hex_color(s3) {
                    None => None,
                    Some((s4, col)) => match spec_char(s4, '\n') {
                        None => None,
                        Some(rest) => Some((rest, (label, col))),
                    },
                }
            },
        },
    }
}

/// `color: a #2F14DF`.
pub fn color(input: &str) -> (r: Result<(&str, (char, Color)), ParseError>)
    ensures
        match r {
            Ok((rest, lc)) => spec_color(input@) == Some((rest@, lc)),
            Err(_) => spec_color(input@) is None,
        },
{
    let n = input.unicode_len();
    let p = match key_prefix(input, "color") {
        Some(p) => p,
        None => {
            return Err(ParseError);
        },
    };
    if p >= n {
        return Err(ParseError);
    }
    let label = input.get_char(p);
    let lu = label as u32;
    if !(97 <= lu && lu <= 122) {
        return Err(ParseError);
    }
    proof {
        assert(input@.skip(p as int).drop_first() =~= input@.skip(p as int + 1));
    }
    let p2 = scan_spaces(input, p + 1);
    proof {
        lemma_skip_skip(input@, p as int + 1, p2 - (p + 1));
    }
    let (p3, col) = match hex_color_at(input, p2) {
        Some(pair) => pair,
        None => {
            return Err(ParseError);
        },
    };
    if p3 >= n {
        return Err(ParseError);
    }
    if input.get_char(p3) != '\n' {
        return Err(ParseError);
    }
    proof {
        assert(input@.skip(p3 as int).drop_first() =~= input@.skip(p3 as int + 1));
    }
    let rest = input.substring_char(p3 + 1, n);
    proof {
        assert(rest@ =~= input@.skip(p3 as int + 1));
    }
    Ok((rest, (label, col)))
}

} // verus!
