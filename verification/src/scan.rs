//! The scanner that splits the text of an identifier into its components.

use vstd::prelude::*;
use crate::component::{parts_of, valid_part, IdComponent, Part};
use crate::error::{Failure, IdError};
use crate::text::{all_digits, chars_of, decimal_value, is_digit, is_lower, read_number,
    string_of_range};

verus! {

/// Whether `c` is a digit (`digits` set) or a lowercase letter (`digits`
/// clear).
pub open spec fn of_class(c: char, digits: bool) -> bool {
    if digits {
        is_digit(c)
    } else {
        is_lower(c)
    }
}

/// Whether `c` is a digit (`digits` set) or a lowercase letter (`digits`
/// clear).
pub fn has_class(c: char, digits: bool) -> (r: bool)
    ensures
        r == of_class(c, digits),
{
    if digits {
        c >= '0' && c <= '9'
    } else {
        c >= 'a' && c <= 'z'
    }
}

/// The length of the longest prefix of `s` made of digits (`digits` set) or
/// of lowercase letters (`digits` clear).
pub open spec fn run_length(s: Seq<char>, digits: bool) -> nat
    decreases s.len(),
{
    if s.len() > 0 && of_class(s[0], digits) {
        1 + run_length(s.skip(1), digits)
    } else {
        0
    }
}

/// A run of length `k` is the longest prefix of its class: every one of its
/// characters is of the class, and the character after it, if any, is not.
pub proof fn lemma_run_length_is(s: Seq<char>, digits: bool, k: int)
    requires
        0 <= k <= s.len(),
        forall|i: int| 0 <= i < k ==> of_class(#[trigger] s[i], digits),
        k < s.len() ==> !of_class(s[k], digits),
    ensures
        run_length(s, digits) == k,
    decreases k,
{
    if k > 0 {
        let t = s.skip(1);
        assert forall|i: int| 0 <= i < k - 1 implies of_class(#[trigger] t[i], digits) by {
            assert(t[i] == s[i + 1]);
        }
        if k < s.len() {
            assert(t[k - 1] == s[k]);
        }
        lemma_run_length_is(t, digits, k - 1);
    } else if s.len() > 0 {
        assert(!of_class(s[0], digits));
    }
}

/// The characters of a run are of its class.
pub proof fn lemma_run_length_class(s: Seq<char>, digits: bool)
    ensures
        run_length(s, digits) <= s.len(),
        forall|i: int| 0 <= i < run_length(s, digits) ==> of_class(#[trigger] s[i], digits),
        run_length(s, digits) < s.len() ==> !of_class(s[run_length(s, digits) as int], digits),
    decreases s.len(),
{
    if s.len() > 0 && of_class(s[0], digits) {
        let t = s.skip(1);
        lemma_run_length_class(t, digits);
        let k = run_length(s, digits);
        assert forall|i: int| 0 <= i < k implies of_class(#[trigger] s[i], digits) by {
            if i > 0 {
                assert(s[i] == t[i - 1]);
            }
        }
        if k < s.len() {
            assert(s[k as int] == t[k - 1]);
        }
    }
}

/// The components that the text `s` splits into, when a number (`numeric`
/// set) or letters (`numeric` clear) are expected first.
///
/// The text is read run by run. A run must not be empty, and a character
/// that is neither a digit nor a lowercase letter makes the format invalid.
/// A run of digits that ends properly must have a value that fits in 32
/// bits.
pub open spec fn scan(s: Seq<char>, numeric: bool) -> Result<Seq<Part>, Failure>
    decreases s.len(),
{
    let k = run_length(s, numeric);
    if s.len() == 0 {
        Ok(Seq::empty())
    } else if k == 0 || k > s.len() {
        Err(Failure::InvalidFormat(seq![s[0]]))
    } else {
        let run = s.take(k as int);
        let rest = s.skip(k as int);
        if rest.len() > 0 && !is_digit(rest[0]) && !is_lower(rest[0]) {
            Err(Failure::InvalidFormat(seq![rest[0]]))
        } else if numeric && decimal_value(run) > u32::MAX {
            Err(Failure::ParseError(run))
        } else {
            let part = if numeric {
                Part::Numeric(decimal_value(run))
            } else {
                Part::Alpha(run)
            };
            match scan(rest, !numeric) {
                Ok(parts) => Ok(seq![part] + parts),
                Err(f) => Err(f),
            }
        }
    }
}

/// What parsing the text `s` gives: the components of the identifier, or
/// the first thing that is wrong with the text.
pub open spec fn parse_spec(s: Seq<char>) -> Result<Seq<Part>, Failure> {
    if s.len() == 0 {
        Err(Failure::EmptyId)
    } else {
        scan(s, true)
    }
}

/// The parts that a scan gives are valid and alternate, beginning with the
/// class that was expected; a non-empty text gives at least one part.
pub proof fn lemma_scan_shape(s: Seq<char>, numeric: bool)
    ensures
        scan(s, numeric) matches Ok(parts) ==> {
            &&& (s.len() > 0 ==> parts.len() > 0)
            &&& forall|i: int| 0 <= i < parts.len() ==> valid_part(#[trigger] parts[i])
            &&& forall|i: int|
                0 <= i < parts.len() ==> ((#[trigger] parts[i]) is Numeric <==> (i % 2 == 0)
                    == numeric)
        },
    decreases s.len(),
{
    let k = run_length(s, numeric);
    if s.len() > 0 && 0 < k <= s.len() {
        let run = s.take(k as int);
        let rest = s.skip(k as int);
        lemma_scan_shape(rest, !numeric);
        lemma_run_length_class(s, numeric);
        if let Ok(parts) = scan(s, numeric) {
            let tail = scan(rest, !numeric)->Ok_0;
            let part = parts[0];
            assert(parts == seq![part] + tail);
            if !numeric {
                assert forall|i: int| 0 <= i < run.len() implies is_lower(#[trigger] run[i]) by {
                    assert(run[i] == s[i]);
                }
            }
            assert(valid_part(part));
            assert forall|i: int| 0 <= i < parts.len() implies valid_part(#[trigger] parts[i]) by {
                if i > 0 {
                    assert(parts[i] == tail[i - 1]);
                }
            }
            assert forall|i: int| 0 <= i < parts.len() implies ((#[trigger] parts[i]) is Numeric
                <==> (i % 2 == 0) == numeric) by {
                if i > 0 {
                    assert(parts[i] == tail[i - 1]);
                }
            }
        }
    }
}

/// The model of a result that holds components.
pub open spec fn scan_outcome(r: Result<Vec<IdComponent>, IdError>) -> Result<
    Seq<Part>,
    Failure,
> {
    match r {
        Ok(v) => Ok(parts_of(v@)),
        Err(e) => Err(e@),
    }
}

/// Puts the parts read so far in front of what the rest of the text gives.
pub open spec fn continue_with(done: Seq<Part>, rest: Result<Seq<Part>, Failure>) -> Result<
    Seq<Part>,
    Failure,
> {
    match rest {
        Ok(parts) => Ok(done + parts),
        Err(f) => Err(f),
    }
}

/// Splits the text of an identifier into its components.
///
/// The text is read from left to right as runs of digits and runs of
/// lowercase letters, beginning with digits. An empty text, a text that
/// begins with anything but a digit, a character that is neither a digit
/// nor a lowercase letter, and a number that does not fit in 32 bits are
/// errors.
pub fn parse_id_string(s: &str) -> (r: Result<Vec<IdComponent>, IdError>)
    ensures
        scan_outcome(r) == parse_spec(s@),
{
    let chars = chars_of(s);
    let n: usize = chars.len();
    if n == 0 {
        return Err(IdError::EmptyId);
    }
    let mut components: Vec<IdComponent> = Vec::new();
    let mut expecting_numeric: bool = true;
    let mut i: usize = 0;
    assert(chars@.skip(0) == chars@);
    assert(Seq::<Part>::empty() + scan(chars@, true)->Ok_0 == scan(chars@, true)->Ok_0);
    while i < n
        invariant
            i <= n,
            n == chars.len(),
            chars@ == s@,
            continue_with(parts_of(components@), scan(chars@.skip(i as int), expecting_numeric))
                == scan(chars@, true),
        decreases n - i,
    {
        let ghost rest = chars@.skip(i as int);
        // Find the end of the run that begins here.
        let mut j: usize = i;
        while j < n && has_class(chars[j], expecting_numeric)
            invariant
                i <= j <= n,
                n == chars.len(),
                forall|t: int|
                    i <= t < j ==> of_class(#[trigger] chars@[t], expecting_numeric),
            decreases n - j,
        {
            j += 1;
        }
        proof {
            assert forall|t: int| 0 <= t < j - i implies of_class(
                #[trigger] rest[t],
                expecting_numeric,
            ) by {
                assert(rest[t] == chars@[i + t]);
            }
            if j < n {
                assert(rest[j - i] == chars@[j as int]);
            }
            lemma_run_length_is(rest, expecting_numeric, j - i);
        }
        if j == i {
            let mut fragment = String::new();
            fragment.push(chars[i]);
            assert(fragment@ == seq![rest[0]]);
            return Err(IdError::InvalidFormat(fragment));
        }
        let ghost run = rest.take(j - i);
        let ghost after = rest.skip(j - i);
        assert(run == chars@.subrange(i as int, j as int));
        assert(after == chars@.skip(j as int));
        if j < n {
            let c: char = chars[j];
            assert(after[0] == c);
            if !(c >= '0' && c <= '9') && !(c >= 'a' && c <= 'z') {
                let mut fragment = String::new();
                fragment.push(c);
                assert(fragment@ == seq![after[0]]);
                return Err(IdError::InvalidFormat(fragment));
            }
        }
        let ghost before = parts_of(components@);
        if expecting_numeric {
            assert(all_digits(run)) by {
                assert forall|t: int| 0 <= t < run.len() implies is_digit(#[trigger] run[t]) by {
                    assert(run[t] == rest[t]);
                }
            }
            match read_number(&chars, i, j) {
                Some(value) => {
                    components.push(IdComponent::Numeric(value));
                },
                None => {
                    return Err(IdError::ParseError(string_of_range(&chars, i, j)));
                },
            }
        } else {
            components.push(IdComponent::Alpha(string_of_range(&chars, i, j)));
        }
        proof {
            let part = components@[components@.len() - 1]@;
            assert(parts_of(components@) == before.push(part));
            let tail = scan(after, !expecting_numeric);
            if let Ok(parts) = tail {
                assert(before.push(part) + parts == before + (seq![part] + parts));
            }
        }
        i = j;
        expecting_numeric = !expecting_numeric;
    }
    assert(chars@.skip(n as int).len() == 0);
    assert(parts_of(components@) + Seq::<Part>::empty() == parts_of(components@));
    Ok(components)
}

} // verus!
