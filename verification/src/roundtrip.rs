//! Writing an identifier and reading it back.

use vstd::prelude::*;
use crate::component::{render_part, valid_part, Part};
use crate::error::Failure;
use crate::id::{render, valid_id};
use crate::scan::{lemma_run_length_class, lemma_run_length_is, of_class, parse_spec, run_length,
    scan};
use crate::text::{canonical_digits, is_digit, is_lower, lemma_decimal_is_canonical,
    lemma_decimal_of_decimal_value, lemma_decimal_value_of_decimal};

verus! {

/// The parts are valid and alternate, beginning with a number (`numeric`
/// set) or with letters (`numeric` clear).
pub open spec fn shaped(parts: Seq<Part>, numeric: bool) -> bool {
    &&& forall|i: int| 0 <= i < parts.len() ==> valid_part(#[trigger] parts[i])
    &&& forall|i: int|
        0 <= i < parts.len() ==> ((#[trigger] parts[i]) is Numeric <==> (i % 2 == 0) == numeric)
}

/// No number in the text is written with a zero in front of it: a `0` that
/// begins a run of digits is the whole run.
pub open spec fn canonical_text(s: Seq<char>) -> bool {
    forall|i: int|
        0 <= i < s.len() && #[trigger] s[i] == '0' && (i == 0 || !is_digit(s[i - 1])) ==> (i + 1
            == s.len() || !is_digit(s[i + 1]))
}

/// The text of a sequence of parts is the text of the first part followed
/// by the text of the others.
pub proof fn lemma_render_front(parts: Seq<Part>)
    requires
        parts.len() > 0,
    ensures
        render(parts) == render_part(parts[0]) + render(parts.skip(1)),
    decreases parts.len(),
{
    let front = parts.drop_last();
    let tail = parts.skip(1);
    if parts.len() == 1 {
        assert(front.len() == 0);
        assert(tail.len() == 0);
        assert(render(front) == Seq::<char>::empty());
        assert(render(tail) == Seq::<char>::empty());
        assert(render(parts) == Seq::<char>::empty() + render_part(parts[0]));
        assert(Seq::<char>::empty() + render_part(parts[0]) == render_part(parts[0])
            + Seq::<char>::empty());
    } else {
        lemma_render_front(front);
        assert(front[0] == parts[0]);
        assert(front.skip(1) == tail.drop_last());
        assert(tail.last() == parts.last());
        assert(render(tail) == render(tail.drop_last()) + render_part(parts.last()));
        assert((render_part(parts[0]) + render(tail.drop_last())) + render_part(parts.last())
            == render_part(parts[0]) + (render(tail.drop_last()) + render_part(parts.last())));
    }
}

/// The text of a valid part is not empty and made of digits for a number,
/// of lowercase letters for letters.
pub proof fn lemma_render_part_class(p: Part)
    requires
        valid_part(p),
    ensures
        render_part(p).len() > 0,
        forall|i: int|
            0 <= i < render_part(p).len() ==> of_class(#[trigger] render_part(p)[i], p is Numeric),
{
    match p {
        Part::Numeric(n) => {
            lemma_decimal_is_canonical(n);
        },
        Part::Alpha(s) => {},
    }
}

/// Reading the text of valid, alternating parts gives the parts back.
pub proof fn lemma_scan_render(parts: Seq<Part>, numeric: bool)
    requires
        shaped(parts, numeric),
    ensures
        scan(render(parts), numeric) == Ok::<Seq<Part>, Failure>(parts),
    decreases parts.len(),
{
    if parts.len() == 0 {
        assert(parts =~= Seq::<Part>::empty());
    } else {
        let p = parts[0];
        let tail = parts.skip(1);
        let s = render(parts);
        let run = render_part(p);
        let rest = render(tail);
        lemma_render_front(parts);
        assert(valid_part(p));
        assert(p is Numeric <==> numeric);
        lemma_render_part_class(p);
        assert forall|i: int| 0 <= i < tail.len() implies valid_part(#[trigger] tail[i]) by {
            assert(tail[i] == parts[i + 1]);
        }
        assert forall|i: int| 0 <= i < tail.len() implies ((#[trigger] tail[i]) is Numeric <==> (i
            % 2 == 0) == !numeric) by {
            assert(tail[i] == parts[i + 1]);
        }
        lemma_scan_render(tail, !numeric);
        let k = run.len() as int;
        assert forall|i: int| 0 <= i < k implies of_class(#[trigger] s[i], numeric) by {
            assert(s[i] == run[i]);
        }
        if tail.len() > 0 {
            lemma_render_front(tail);
            lemma_render_part_class(tail[0]);
            assert(rest[0] == render_part(tail[0])[0]);
            assert(s[k] == rest[0]);
            assert(of_class(rest[0], !numeric));
        } else {
            assert(rest.len() == 0);
        }
        lemma_run_length_is(s, numeric, k);
        assert(s.take(k) == run);
        assert(s.skip(k) == rest);
        match p {
            Part::Numeric(n) => {
                lemma_decimal_value_of_decimal(n);
            },
            Part::Alpha(t) => {},
        }
        assert(seq![p] + tail == parts);
    }
}

/// The text that a scan read without error is the text of the parts it
/// gave, provided that no number in it has a zero in front.
pub proof fn lemma_render_scan(s: Seq<char>, numeric: bool)
    requires
        scan(s, numeric) is Ok,
        canonical_text(s),
    ensures
        render(scan(s, numeric)->Ok_0) == s,
    decreases s.len(),
{
    let parts = scan(s, numeric)->Ok_0;
    if s.len() == 0 {
        assert(s =~= Seq::<char>::empty());
    } else {
        let k = run_length(s, numeric) as int;
        lemma_run_length_class(s, numeric);
        let run = s.take(k);
        let rest = s.skip(k);
        let tail = scan(rest, !numeric)->Ok_0;
        let part = parts[0];
        assert(parts == seq![part] + tail);
        assert(parts.skip(1) == tail);
        assert forall|i: int|
            0 <= i < rest.len() && #[trigger] rest[i] == '0' && (i == 0 || !is_digit(
                rest[i - 1],
            )) implies (i + 1 == rest.len() || !is_digit(rest[i + 1])) by {
            assert(rest[i] == s[i + k]);
            if i == 0 {
                assert(is_digit(rest[0]));
                assert(!of_class(s[k], numeric));
                assert(!numeric);
                assert(of_class(s[k - 1], numeric));
            } else {
                assert(rest[i - 1] == s[i + k - 1]);
            }
            if i + 1 < rest.len() {
                assert(rest[i + 1] == s[i + k + 1]);
            }
        }
        lemma_render_scan(rest, !numeric);
        if numeric {
            assert forall|i: int| 0 <= i < run.len() implies is_digit(#[trigger] run[i]) by {
                assert(run[i] == s[i]);
                assert(of_class(s[i], numeric));
            }
            if run[0] == '0' {
                assert(s[0] == '0');
                if k > 1 {
                    assert(of_class(s[1], numeric));
                }
            }
            assert(canonical_digits(run));
            lemma_decimal_of_decimal_value(run);
        }
        assert(render_part(part) == run);
        lemma_render_front(parts);
        assert(run + rest == s);
    }
}

/// Writing a valid identifier and reading the text back gives the same
/// identifier.
pub proof fn lemma_parse_of_render(parts: Seq<Part>)
    requires
        valid_id(parts),
    ensures
        parse_spec(render(parts)) == Ok::<Seq<Part>, Failure>(parts),
{
    lemma_scan_render(parts, true);
    lemma_render_front(parts);
    lemma_render_part_class(parts[0]);
}

/// Reading a text as an identifier and writing the identifier gives the
/// same text, for every text that reads as an identifier and in which no
/// number has a zero in front.
pub proof fn lemma_render_of_parse(s: Seq<char>)
    requires
        parse_spec(s) is Ok,
        canonical_text(s),
    ensures
        render(parse_spec(s)->Ok_0) == s,
{
    lemma_render_scan(s, true);
}

/// A text that a scan reads without error holds digits and lowercase
/// letters only, and begins with a character of the class that was
/// expected.
pub proof fn lemma_scan_accepts(s: Seq<char>, numeric: bool)
    requires
        scan(s, numeric) is Ok,
    ensures
        forall|i: int| 0 <= i < s.len() ==> is_digit(#[trigger] s[i]) || is_lower(s[i]),
        s.len() > 0 ==> of_class(s[0], numeric),
    decreases s.len(),
{
    if s.len() > 0 {
        let k = run_length(s, numeric) as int;
        lemma_run_length_class(s, numeric);
        let rest = s.skip(k);
        lemma_scan_accepts(rest, !numeric);
        assert forall|i: int| 0 <= i < s.len() implies is_digit(#[trigger] s[i]) || is_lower(
            s[i],
        ) by {
            if i < k {
                assert(of_class(s[i], numeric));
            } else {
                assert(s[i] == rest[i - k]);
            }
        }
    }
}

/// Only a text that is not empty, begins with a digit and holds nothing
/// but digits and lowercase letters reads as an identifier: an empty
/// text, a text that begins with a letter, an uppercase letter and any
/// other character make the reading fail.
pub proof fn lemma_parse_accepts(s: Seq<char>)
    requires
        parse_spec(s) is Ok,
    ensures
        s.len() > 0,
        is_digit(s[0]),
        forall|i: int| 0 <= i < s.len() ==> is_digit(#[trigger] s[i]) || is_lower(s[i]),
        valid_id(parse_spec(s)->Ok_0),
{
    lemma_scan_accepts(s, true);
    crate::scan::lemma_scan_shape(s, true);
}

} // verus!
