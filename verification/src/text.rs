//! Character classes and small string utilities shared by the other modules.
//!
//! Strings are modelled by their view, a `Seq<char>`.

use vstd::prelude::*;
use vstd::string::StringExecFns;

verus! {

/// `String::push` appends one character.
pub assume_specification[ String::push ](s: &mut String, c: char)
    ensures
        final(s)@ == old(s)@.push(c),
;

/// An ASCII decimal digit.
pub open spec fn is_digit(c: char) -> bool {
    '0' <= c && c <= '9'
}

/// An ASCII lowercase letter.
pub open spec fn is_lower(c: char) -> bool {
    'a' <= c && c <= 'z'
}

/// Every character of `s` is an ASCII lowercase letter.
pub open spec fn all_lower(s: Seq<char>) -> bool {
    forall|i: int| 0 <= i < s.len() ==> is_lower(#[trigger] s[i])
}

/// Every character of `s` is an ASCII decimal digit.
pub open spec fn all_digits(s: Seq<char>) -> bool {
    forall|i: int| 0 <= i < s.len() ==> is_digit(#[trigger] s[i])
}

/// The numeric value of a decimal digit character.
pub open spec fn digit_value(c: char) -> nat {
    (c as int - 48) as nat
}

/// The character of a decimal digit `d < 10`.
pub open spec fn digit_char(d: nat) -> char {
    (d + 48) as char
}

/// The value of a string of decimal digits, most significant digit first.
pub open spec fn decimal_value(s: Seq<char>) -> nat
    decreases s.len(),
{
    if s.len() == 0 {
        0
    } else {
        decimal_value(s.drop_last()) * 10 + digit_value(s.last())
    }
}

/// The decimal rendering of `n`, without leading zeros.
pub open spec fn decimal(n: nat) -> Seq<char>
    decreases n,
{
    if n < 10 {
        seq![digit_char(n)]
    } else {
        decimal(n / 10).push(digit_char(n % 10))
    }
}

/// A digit string is canonical when it is what `decimal` produces: non-empty
/// and without a leading zero, unless it is the single digit zero.
pub open spec fn canonical_digits(s: Seq<char>) -> bool {
    &&& s.len() > 0
    &&& all_digits(s)
    &&& (s[0] == '0' ==> s.len() == 1)
}

/// The rendering of a number is canonical, and begins with a zero only
/// for the number zero.
pub proof fn lemma_decimal_is_canonical(n: nat)
    ensures
        canonical_digits(decimal(n)),
        decimal(n)[0] == '0' <==> n == 0,
    decreases n,
{
    if n >= 10 {
        lemma_decimal_is_canonical(n / 10);
        let p = decimal(n / 10);
        let r = decimal(n);
        assert(r == p.push(digit_char(n % 10)));
        assert(r[0] == p[0]);
        assert forall|i: int| 0 <= i < r.len() implies is_digit(#[trigger] r[i]) by {
            if i < p.len() {
                assert(r[i] == p[i]);
            }
        }
    }
}

/// Rendering a number and reading the digits back gives the number.
pub proof fn lemma_decimal_value_of_decimal(n: nat)
    ensures
        decimal_value(decimal(n)) == n,
    decreases n,
{
    if n < 10 {
        let s = decimal(n);
        assert(s.drop_last().len() == 0);
        assert(decimal_value(s.drop_last()) == 0);
    } else {
        lemma_decimal_value_of_decimal(n / 10);
        let p = decimal(n / 10);
        let r = decimal(n);
        assert(r.drop_last() == p);
    }
}

/// A canonical digit string is the rendering of its own value.
pub proof fn lemma_decimal_of_decimal_value(s: Seq<char>)
    requires
        canonical_digits(s),
    ensures
        decimal(decimal_value(s)) == s,
        s[0] != '0' ==> decimal_value(s) > 0,
    decreases s.len(),
{
    let last = s.last();
    assert(is_digit(last));
    if s.len() == 1 {
        assert(s.drop_last().len() == 0);
        assert(decimal_value(s.drop_last()) == 0);
        assert(decimal_value(s) == digit_value(last));
        assert(decimal(decimal_value(s)) == seq![last]);
    } else {
        let p = s.drop_last();
        assert(p[0] == s[0]);
        assert forall|i: int| 0 <= i < p.len() implies is_digit(#[trigger] p[i]) by {
            assert(p[i] == s[i]);
        }
        lemma_decimal_of_decimal_value(p);
        let v = decimal_value(p);
        assert(v > 0);
        let n = decimal_value(s);
        assert(n == v * 10 + digit_value(last));
        assert(n >= 10);
        assert(n / 10 == v && n % 10 == digit_value(last)) by (nonlinear_arith)
            requires
                n == v * 10 + digit_value(last),
                digit_value(last) < 10,
        ;
        assert(decimal(n) == p.push(last));
        assert(p.push(last) == s);
    }
}

/// Reading more digits never gives a smaller value.
pub proof fn lemma_decimal_value_prefix(s: Seq<char>, k: int)
    requires
        0 <= k <= s.len(),
    ensures
        decimal_value(s.take(k)) <= decimal_value(s),
    decreases s.len() - k,
{
    if k == s.len() {
        assert(s.take(k) == s);
    } else {
        lemma_decimal_value_prefix(s.drop_last(), k);
        assert(s.drop_last().take(k) == s.take(k));
        assert(decimal_value(s.drop_last()) * 10 >= decimal_value(s.drop_last())) by (nonlinear_arith);
    }
}

/// The characters of a string, as a vector.
pub fn chars_of(s: &str) -> (v: Vec<char>)
    ensures
        v@ == s@,
{
    let mut v: Vec<char> = Vec::new();
    for c in it: s.chars()
        invariant
            v@ == it.seq().take(it.index() as int),
            it.seq() == s@,
    {
        v.push(c);
    }
    v
}

/// The string made of the characters `v[from..to]`.
pub(crate) fn string_of_range(v: &Vec<char>, from: usize, to: usize) -> (s: String)
    requires
        from <= to <= v.len(),
    ensures
        s@ == v@.subrange(from as int, to as int),
{
    let mut s = String::new();
    let mut i: usize = from;
    while i < to
        invariant
            from <= i <= to <= v.len(),
            s@ == v@.subrange(from as int, i as int),
        decreases to - i,
    {
        s.push(v[i]);
        i += 1;
    }
    s
}

/// The string made of the characters of `v`.
pub fn string_of(v: &Vec<char>) -> (s: String)
    ensures
        s@ == v@,
        s@.len() <= usize::MAX,
{
    let s = string_of_range(v, 0, v.len());
    assert(v@.subrange(0, v.len() as int) == v@);
    s
}

/// Whether two strings hold the same characters.
pub fn text_eq(a: &str, b: &str) -> (r: bool)
    ensures
        r == (a@ == b@),
{
    let x = chars_of(a);
    let y = chars_of(b);
    if x.len() != y.len() {
        return false;
    }
    let mut i: usize = 0;
    while i < x.len()
        invariant
            i <= x.len(),
            x.len() == y.len(),
            x@ == a@,
            y@ == b@,
            x@.take(i as int) == y@.take(i as int),
        decreases x.len() - i,
    {
        if x[i] != y[i] {
            assert(x@[i as int] != y@[i as int]);
            return false;
        }
        assert(x@.take(i + 1) == x@.take(i as int).push(x@[i as int]));
        assert(y@.take(i + 1) == y@.take(i as int).push(y@[i as int]));
        i += 1;
    }
    assert(x@.take(x.len() as int) == x@);
    assert(y@.take(y.len() as int) == y@);
    true
}

/// The decimal digits of `n`.
pub fn render_number(n: u32) -> (s: String)
    ensures
        s@ == decimal(n as nat),
{
    let mut digits: Vec<char> = Vec::new();
    let mut rest: u32 = n;
    // Collect the digits least significant first.
    loop
        invariant_except_break
            decimal(n as nat) == decimal(rest as nat) + digits@.reverse(),
        ensures
            decimal(n as nat) == digits@.reverse(),
        decreases rest,
    {
        let d: u32 = rest % 10;
        let c: char = ((d + 48) as u8) as char;
        assert(c == digit_char(d as nat));
        let ghost before = digits@;
        digits.push(c);
        assert(digits@.reverse() == seq![c] + before.reverse());
        if rest < 10 {
            assert(decimal(rest as nat) == seq![c]);
            break;
        }
        assert(decimal(rest as nat) == decimal(rest as nat / 10).push(c));
        assert(decimal(rest as nat / 10).push(c) + before.reverse() == decimal(rest as nat / 10)
            + (seq![c] + before.reverse()));
        rest = rest / 10;
    }
    let mut s = String::new();
    let mut i: usize = digits.len();
    while i > 0
        invariant
            i <= digits.len(),
            s@ == digits@.reverse().take(digits.len() - i),
        decreases i,
    {
        i -= 1;
        s.push(digits[i]);
        assert(digits@.reverse().take(digits.len() - i) == digits@.reverse().take(
            digits.len() - i - 1,
        ).push(digits@[i as int]));
    }
    assert(digits@.reverse().take(digits.len() as int) == digits@.reverse());
    s
}

/// Reads `v[from..to]`, which must hold decimal digits only, as a number.
/// Returns `None` exactly when the value does not fit in a `u32`.
pub(crate) fn read_number(v: &Vec<char>, from: usize, to: usize) -> (r: Option<u32>)
    requires
        from <= to <= v.len(),
        all_digits(v@.subrange(from as int, to as int)),
    ensures
        r == (if decimal_value(v@.subrange(from as int, to as int)) <= u32::MAX {
            Some(decimal_value(v@.subrange(from as int, to as int)) as u32)
        } else {
            None
        }),
{
    let ghost run = v@.subrange(from as int, to as int);
    let mut acc: u32 = 0;
    let mut i: usize = from;
    while i < to
        invariant
            from <= i <= to <= v.len(),
            run == v@.subrange(from as int, to as int),
            all_digits(run),
            acc == decimal_value(run.take(i - from)),
        decreases to - i,
    {
        let c: char = v[i];
        assert(c == run[i - from]);
        assert(is_digit(c));
        let d: u32 = (c as u32) - 48;
        let ghost next = run.take(i - from + 1);
        assert(next.drop_last() == run.take(i - from));
        assert(next.last() == c);
        assert(decimal_value(next) == acc * 10 + d);
        if acc > 429496729 || (acc == 429496729 && d > 5) {
            proof {
                lemma_decimal_value_prefix(run, i - from + 1);
            }
            return None;
        }
        acc = acc * 10 + d;
        i += 1;
    }
    assert(run.take(to - from) == run);
    Some(acc)
}

/// Whether `c` is white space: whether it has the Unicode property
/// `White_Space`.
pub uninterp spec fn is_space(c: char) -> bool;

/// `char::is_whitespace` says whether a character has the Unicode property
/// `White_Space`.
pub assume_specification[ char::is_whitespace ](c: char) -> (r: bool)
    ensures
        r == is_space(c),
;

/// `s` without the white space at its start.
pub open spec fn trim_start_spec(s: Seq<char>) -> Seq<char>
    decreases s.len(),
{
    if s.len() > 0 && is_space(s[0]) {
        trim_start_spec(s.skip(1))
    } else {
        s
    }
}

/// `s` without the white space at its end.
pub open spec fn trim_end_spec(s: Seq<char>) -> Seq<char>
    decreases s.len(),
{
    if s.len() > 0 && is_space(s.last()) {
        trim_end_spec(s.drop_last())
    } else {
        s
    }
}

/// `s` without the white space at its start and at its end.
pub open spec fn trim_spec(s: Seq<char>) -> Seq<char> {
    trim_end_spec(trim_start_spec(s))
}

/// `s` is empty or white space only.
pub open spec fn is_blank(s: Seq<char>) -> bool {
    forall|i: int| 0 <= i < s.len() ==> is_space(#[trigger] s[i])
}

/// What is left of `s` once the white space at its start is gone begins
/// at the first character that is no white space.
pub proof fn lemma_trim_start_is(s: Seq<char>, k: int)
    requires
        0 <= k <= s.len(),
        forall|i: int| 0 <= i < k ==> is_space(#[trigger] s[i]),
        k < s.len() ==> !is_space(s[k]),
    ensures
        trim_start_spec(s) == s.skip(k),
    decreases k,
{
    if k > 0 {
        let t = s.skip(1);
        assert forall|i: int| 0 <= i < k - 1 implies is_space(#[trigger] t[i]) by {
            assert(t[i] == s[i + 1]);
        }
        if k < s.len() {
            assert(t[k - 1] == s[k]);
        }
        lemma_trim_start_is(t, k - 1);
        assert(t.skip(k - 1) == s.skip(k));
    } else {
        assert(s.skip(0) == s);
    }
}

/// What is left of `s` once the white space at its end is gone ends
/// after the last character that is no white space.
pub proof fn lemma_trim_end_is(s: Seq<char>, k: int)
    requires
        0 <= k <= s.len(),
        forall|i: int| k <= i < s.len() ==> is_space(#[trigger] s[i]),
        k > 0 ==> !is_space(s[k - 1]),
    ensures
        trim_end_spec(s) == s.take(k),
    decreases s.len() - k,
{
    if k < s.len() {
        let t = s.drop_last();
        assert forall|i: int| k <= i < t.len() implies is_space(#[trigger] t[i]) by {
            assert(t[i] == s[i]);
        }
        if k > 0 {
            assert(t[k - 1] == s[k - 1]);
        }
        lemma_trim_end_is(t, k);
        assert(t.take(k) == s.take(k));
    } else {
        assert(s.take(k) == s);
    }
}

/// A text is blank exactly when nothing is left of it once the white space
/// around it is gone.
pub proof fn lemma_blank_trims_to_nothing(s: Seq<char>)
    ensures
        is_blank(s) <==> trim_spec(s).len() == 0,
        is_blank(s) <==> trim_start_spec(s).len() == 0,
    decreases s.len(),
{
    if s.len() > 0 && is_space(s[0]) {
        let t = s.skip(1);
        lemma_blank_trims_to_nothing(t);
        if is_blank(t) {
            assert forall|i: int| 0 <= i < s.len() implies is_space(#[trigger] s[i]) by {
                if i > 0 {
                    assert(s[i] == t[i - 1]);
                }
            }
        } else {
            let i = choose|i: int| 0 <= i < t.len() && !is_space(#[trigger] t[i]);
            assert(s[i + 1] == t[i]);
        }
    } else if s.len() > 0 {
        assert(!is_space(s[0]));
        lemma_trim_end_keeps_first(s);
    }
}

/// A text that begins with a character that is no white space keeps that
/// character when the white space at its end goes.
pub proof fn lemma_trim_end_keeps_first(s: Seq<char>)
    requires
        s.len() > 0,
        !is_space(s[0]),
    ensures
        trim_end_spec(s).len() > 0,
    decreases s.len(),
{
    if is_space(s.last()) {
        assert(s.len() > 1);
        assert(s.drop_last()[0] == s[0]);
        lemma_trim_end_keeps_first(s.drop_last());
    }
}

/// The position of the first character of `v` that is no white space, or
/// the length of `v` where there is none.
fn first_non_space(v: &Vec<char>) -> (k: usize)
    ensures
        k <= v.len(),
        trim_start_spec(v@) == v@.skip(k as int),
{
    let mut k: usize = 0;
    while k < v.len() && v[k].is_whitespace()
        invariant
            k <= v.len(),
            forall|i: int| 0 <= i < k ==> is_space(#[trigger] v@[i]),
        decreases v.len() - k,
    {
        k += 1;
    }
    proof {
        lemma_trim_start_is(v@, k as int);
    }
    k
}

/// The position after the last character of `v[from..]` that is no white
/// space, or `from` where there is none.
fn after_last_non_space(v: &Vec<char>, from: usize) -> (k: usize)
    requires
        from <= v.len(),
    ensures
        from <= k <= v.len(),
        trim_end_spec(v@.skip(from as int)) == v@.subrange(from as int, k as int),
{
    let mut k: usize = v.len();
    while k > from && v[k - 1].is_whitespace()
        invariant
            from <= k <= v.len(),
            forall|i: int| k <= i < v.len() ==> is_space(#[trigger] v@[i]),
        decreases k,
    {
        k -= 1;
    }
    proof {
        let t = v@.skip(from as int);
        assert forall|i: int| k - from <= i < t.len() implies is_space(#[trigger] t[i]) by {
            assert(t[i] == v@[i + from]);
        }
        if k > from {
            assert(t[k - from - 1] == v@[k - 1]);
        }
        lemma_trim_end_is(t, k - from);
        assert(t.take(k - from) == v@.subrange(from as int, k as int));
    }
    k
}

/// The text without the white space at its start and at its end.
pub fn trimmed(s: &str) -> (r: String)
    ensures
        r@ == trim_spec(s@),
{
    let v = chars_of(s);
    let from = first_non_space(&v);
    let to = after_last_non_space(&v, from);
    string_of_range(&v, from, to)
}

/// The text without the white space at its start.
pub fn trimmed_start(s: &str) -> (r: String)
    ensures
        r@ == trim_start_spec(s@),
{
    let v = chars_of(s);
    let from = first_non_space(&v);
    assert(v@.skip(from as int) == v@.subrange(from as int, v.len() as int));
    string_of_range(&v, from, v.len())
}

/// The text without the white space at its end.
pub fn trimmed_end(s: &str) -> (r: String)
    ensures
        r@ == trim_end_spec(s@),
{
    let v = chars_of(s);
    let to = after_last_non_space(&v, 0);
    assert(v@.skip(0) == v@);
    string_of_range(&v, 0, to)
}

/// Whether the text is empty or white space only.
pub fn blank(s: &str) -> (r: bool)
    ensures
        r == is_blank(s@),
{
    let v = chars_of(s);
    let from = first_non_space(&v);
    proof {
        lemma_blank_trims_to_nothing(v@);
    }
    from == v.len()
}

/// `text` begins with `prefix`.
pub open spec fn starts_with(text: Seq<char>, prefix: Seq<char>) -> bool {
    prefix.len() <= text.len() && text.take(prefix.len() as int) == prefix
}

/// Whether `chars[at..]` begins with `prefix`.
pub(crate) fn has_prefix_at(chars: &Vec<char>, at: usize, prefix: &Vec<char>) -> (r: bool)
    requires
        at <= chars.len(),
    ensures
        r == starts_with(chars@.skip(at as int), prefix@),
{
    let n: usize = prefix.len();
    if n > chars.len() - at {
        return false;
    }
    let ghost rest = chars@.skip(at as int);
    let mut i: usize = 0;
    while i < n
        invariant
            i <= n,
            n == prefix.len(),
            at + n <= chars.len(),
            rest == chars@.skip(at as int),
            rest.take(i as int) == prefix@.take(i as int),
        decreases n - i,
    {
        if chars[at + i] != prefix[i] {
            assert(rest.take(n as int)[i as int] == chars@[at + i]);
            return false;
        }
        assert(rest[i as int] == chars@[at + i]);
        assert(rest.take(i + 1) == rest.take(i as int).push(rest[i as int]));
        assert(prefix@.take(i + 1) == prefix@.take(i as int).push(prefix@[i as int]));
        i += 1;
    }
    assert(prefix@.take(n as int) == prefix@);
    true
}

/// `text` with every occurrence of `from` replaced by `to`. Occurrences are
/// found from left to right and do not overlap. `from` must not be empty.
pub open spec fn replace_spec(text: Seq<char>, from: Seq<char>, to: Seq<char>) -> Seq<char>
    decreases text.len(),
{
    if from.len() == 0 || text.len() == 0 {
        text
    } else if starts_with(text, from) {
        to + replace_spec(text.skip(from.len() as int), from, to)
    } else {
        seq![text[0]] + replace_spec(text.skip(1), from, to)
    }
}

/// The text with every occurrence of `from` replaced by `to`; with an empty
/// `from` the text is returned as it is.
pub fn replace_all(text: &str, from: &str, to: &str) -> (r: String)
    ensures
        r@ == replace_spec(text@, from@, to@),
{
    let chars = chars_of(text);
    let pattern = chars_of(from);
    if pattern.len() == 0 {
        return string_of(&chars);
    }
    let n: usize = chars.len();
    let mut out = String::new();
    let mut i: usize = 0;
    assert(chars@.skip(0) == chars@);
    while i < n
        invariant
            i <= n,
            n == chars.len(),
            chars@ == text@,
            pattern@ == from@,
            pattern.len() > 0,
            out@ + replace_spec(chars@.skip(i as int), from@, to@) == replace_spec(
                text@,
                from@,
                to@,
            ),
        decreases n - i,
    {
        let ghost rest = chars@.skip(i as int);
        let ghost before = out@;
        if has_prefix_at(&chars, i, &pattern) {
            out.append(to);
            assert(rest.skip(pattern.len() as int) == chars@.skip(i + pattern.len()));
            assert((before + to@) + replace_spec(rest.skip(pattern.len() as int), from@, to@)
                == before + (to@ + replace_spec(rest.skip(pattern.len() as int), from@, to@)));
            i += pattern.len();
        } else {
            out.push(chars[i]);
            assert(rest.skip(1) == chars@.skip(i + 1));
            assert(rest[0] == chars@[i as int]);
            assert(before.push(rest[0]) + replace_spec(rest.skip(1), from@, to@) == before + (
                seq![rest[0]] + replace_spec(rest.skip(1), from@, to@)));
            i += 1;
        }
    }
    assert(chars@.skip(n as int).len() == 0);
    assert(out@ + Seq::<char>::empty() == out@);
    out
}

/// The views of a sequence of strings.
pub open spec fn texts_of(v: Seq<String>) -> Seq<Seq<char>> {
    Seq::new(v.len(), |i: int| v[i]@)
}

/// Whether one of the strings of `v` is `name`.
pub fn holds(v: &Vec<String>, name: &str) -> (r: bool)
    ensures
        r == texts_of(v@).contains(name@),
{
    let mut i: usize = 0;
    while i < v.len()
        invariant
            i <= v.len(),
            forall|j: int| 0 <= j < i ==> texts_of(v@)[j] != name@,
        decreases v.len() - i,
    {
        if text_eq(v[i].as_str(), name) {
            assert(texts_of(v@)[i as int] == name@);
            return true;
        }
        i += 1;
    }
    false
}

/// The texts of `parts` with `separator` between them.
pub open spec fn join_spec(parts: Seq<Seq<char>>, separator: Seq<char>) -> Seq<char>
    decreases parts.len(),
{
    if parts.len() == 0 {
        Seq::empty()
    } else if parts.len() == 1 {
        parts[0]
    } else {
        join_spec(parts.drop_last(), separator) + separator + parts.last()
    }
}

/// The strings of `v` with `separator` between them.
pub fn join(v: &Vec<String>, separator: &str) -> (r: String)
    ensures
        r@ == join_spec(texts_of(v@), separator@),
{
    let mut out = String::new();
    let mut i: usize = 0;
    assert(texts_of(v@).take(0).len() == 0);
    while i < v.len()
        invariant
            i <= v.len(),
            out@ == join_spec(texts_of(v@).take(i as int), separator@),
        decreases v.len() - i,
    {
        let ghost next = texts_of(v@).take(i + 1);
        assert(next.drop_last() == texts_of(v@).take(i as int));
        assert(next.last() == v@[i as int]@);
        if i > 0 {
            out.append(separator);
        } else {
            assert(out@ + v@[i as int]@ == v@[i as int]@);
        }
        out.append(v[i].as_str());
        i += 1;
    }
    assert(texts_of(v@).take(v.len() as int) == texts_of(v@));
    out
}

/// The position of the first line feed of `s`, or the length of `s` where
/// there is none.
pub open spec fn first_newline(s: Seq<char>) -> int
    decreases s.len(),
{
    if s.len() == 0 || s[0] == '\n' {
        0
    } else {
        1 + first_newline(s.skip(1))
    }
}

/// `line` without the carriage return at its end, if it has one.
pub open spec fn strip_return(line: Seq<char>) -> Seq<char> {
    if line.len() > 0 && line.last() == '\r' {
        line.drop_last()
    } else {
        line
    }
}

/// The lines of a text. A line ends with a line feed, or with a carriage
/// return and a line feed; neither belongs to the line. What follows the
/// last line feed is a line too, unless it is empty.
pub open spec fn lines_spec(s: Seq<char>) -> Seq<Seq<char>>
    decreases s.len(),
{
    if s.len() == 0 {
        Seq::empty()
    } else {
        let k = first_newline(s);
        if k < 0 || k >= s.len() {
            seq![s]
        } else {
            seq![strip_return(s.take(k))] + lines_spec(s.skip(k + 1))
        }
    }
}

/// The first line feed of `s` is at `k` when there is none before `k` and
/// one at `k`, or `k` is the length of `s`.
pub proof fn lemma_first_newline_is(s: Seq<char>, k: int)
    requires
        0 <= k <= s.len(),
        forall|i: int| 0 <= i < k ==> #[trigger] s[i] != '\n',
        k < s.len() ==> s[k] == '\n',
    ensures
        first_newline(s) == k,
    decreases k,
{
    if k > 0 {
        let t = s.skip(1);
        assert forall|i: int| 0 <= i < k - 1 implies #[trigger] t[i] != '\n' by {
            assert(t[i] == s[i + 1]);
        }
        if k < s.len() {
            assert(t[k - 1] == s[k]);
        }
        lemma_first_newline_is(t, k - 1);
        assert(s[0] != '\n');
    }
}

/// The lines of a text.
pub fn lines(text: &str) -> (r: Vec<String>)
    ensures
        texts_of(r@) == lines_spec(text@),
{
    let chars = chars_of(text);
    let n: usize = chars.len();
    let mut out: Vec<String> = Vec::new();
    let mut i: usize = 0;
    assert(chars@.skip(0) == chars@);
    assert(texts_of(out@) + lines_spec(chars@) == lines_spec(chars@));
    while i < n
        invariant
            i <= n,
            n == chars.len(),
            chars@ == text@,
            texts_of(out@) + lines_spec(chars@.skip(i as int)) == lines_spec(text@),
        decreases n - i,
    {
        let ghost rest = chars@.skip(i as int);
        let ghost before = texts_of(out@);
        let mut j: usize = i;
        while j < n && chars[j] != '\n'
            invariant
                i <= j <= n,
                n == chars.len(),
                forall|t: int| i <= t < j ==> #[trigger] chars@[t] != '\n',
            decreases n - j,
        {
            j += 1;
        }
        proof {
            assert forall|t: int| 0 <= t < j - i implies #[trigger] rest[t] != '\n' by {
                assert(rest[t] == chars@[i + t]);
            }
            if j < n {
                assert(rest[j - i] == chars@[j as int]);
            }
            lemma_first_newline_is(rest, j - i);
            assert(rest.take(j - i) == chars@.subrange(i as int, j as int));
        }
        if j == n {
            out.push(string_of_range(&chars, i, n));
            assert(rest.take(n - i) == rest);
            assert(texts_of(out@) == before.push(rest));
            assert(before.push(rest) == before + seq![rest]);
            assert(chars@.skip(n as int).len() == 0);
            assert(before + seq![rest] + lines_spec(chars@.skip(n as int)) == before + seq![rest]);
            i = n;
        } else {
            let end: usize = if j > i && chars[j - 1] == '\r' {
                j - 1
            } else {
                j
            };
            let line = string_of_range(&chars, i, end);
            proof {
                let whole = chars@.subrange(i as int, j as int);
                if j > i && chars@[j - 1] == '\r' {
                    assert(whole.last() == chars@[j - 1]);
                    assert(whole.drop_last() == chars@.subrange(i as int, end as int));
                } else if j > i {
                    assert(whole.last() == chars@[j - 1]);
                }
                assert(line@ == strip_return(whole));
                assert(rest.skip(j - i + 1) == chars@.skip(j + 1));
            }
            out.push(line);
            assert(texts_of(out@) == before.push(line@));
            assert(before.push(line@) + lines_spec(chars@.skip(j + 1)) == before + (seq![line@]
                + lines_spec(chars@.skip(j + 1))));
            i = j + 1;
        }
    }
    assert(chars@.skip(n as int).len() == 0);
    assert(texts_of(out@) + Seq::<Seq<char>>::empty() == texts_of(out@));
    out
}

/// Whether `c` is a letter or a number in the sense of Unicode: whether it
/// has the property `Alphabetic` or one of the numeric categories.
pub uninterp spec fn is_alnum(c: char) -> bool;

/// `char::is_alphanumeric` says whether a character is alphabetic or
/// numeric in the sense of Unicode.
pub assume_specification[ char::is_alphanumeric ](c: char) -> (r: bool)
    ensures
        r == is_alnum(c),
;

} // verus!
