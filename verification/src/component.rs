//! One component of an identifier: a number or a run of lowercase letters.

use vstd::prelude::*;
use crate::alpha::{alpha_succ, increment_alpha_string, is_all_lower, is_alpha_text,
    lemma_succ_is_alpha};
use crate::error::{Failure, IdError};
use crate::text::{all_digits, chars_of, decimal, decimal_value, is_digit, read_number,
    render_number};

verus! {

/// A single component of an identifier.
#[derive(Debug, Clone, PartialEq, Eq, PartialOrd, Ord)]
pub enum IdComponent {
    /// A number, such as `1`, `42` or `123`.
    Numeric(u32),
    /// A run of lowercase letters, such as `a`, `z`, `aa` or `abc`.
    Alpha(String),
}

/// The mathematical model of an [`IdComponent`].
pub ghost enum Part {
    Numeric(nat),
    Alpha(Seq<char>),
}

impl View for IdComponent {
    type V = Part;

    open spec fn view(&self) -> Part {
        match self {
            IdComponent::Numeric(n) => Part::Numeric(*n as nat),
            IdComponent::Alpha(s) => Part::Alpha(s@),
        }
    }
}

/// The models of a sequence of components.
pub open spec fn parts_of(v: Seq<IdComponent>) -> Seq<Part> {
    Seq::new(v.len(), |i: int| v[i]@)
}

/// A numeric part fits in 32 bits; an alphabetic part is a non-empty run of
/// the letters `a` to `z`.
pub open spec fn valid_part(p: Part) -> bool {
    match p {
        Part::Numeric(n) => n <= u32::MAX,
        Part::Alpha(s) => is_alpha_text(s),
    }
}

/// How a part is written: a number in decimal, letters as they are.
pub open spec fn render_part(p: Part) -> Seq<char> {
    match p {
        Part::Numeric(n) => decimal(n),
        Part::Alpha(s) => s,
    }
}

/// The part that follows `p` among its siblings, or why there is none.
pub open spec fn part_succ(p: Part) -> Result<Part, Failure> {
    match p {
        Part::Numeric(n) => if n >= u32::MAX {
            Err(Failure::Overflow(decimal(n)))
        } else {
            Ok(Part::Numeric(n + 1))
        },
        Part::Alpha(s) => if is_alpha_text(s) {
            Ok(Part::Alpha(alpha_succ(s)))
        } else {
            Err(Failure::InvalidComponent(s))
        },
    }
}

/// `a` comes before `b` in the order of the dictionary, character by
/// character; a text comes after each of its proper prefixes.
pub open spec fn text_before(a: Seq<char>, b: Seq<char>) -> bool
    decreases a.len(),
{
    if b.len() == 0 {
        false
    } else if a.len() == 0 {
        true
    } else if a[0] != b[0] {
        a[0] < b[0]
    } else {
        text_before(a.skip(1), b.skip(1))
    }
}

/// The order of parts: numbers by their value, letters as in the
/// dictionary, and any number before any letters.
pub open spec fn part_before(a: Part, b: Part) -> bool {
    match a {
        Part::Numeric(n) => match b {
            Part::Numeric(m) => n < m,
            Part::Alpha(_) => true,
        },
        Part::Alpha(s) => match b {
            Part::Numeric(_) => false,
            Part::Alpha(t) => text_before(s, t),
        },
    }
}

/// What reading a whole string as one component gives: a number where the
/// string is an optional `+` and digits whose value fits in 32 bits,
/// else the letters, if the string is a non-empty run of `a` to `z`.
pub open spec fn read_part(s: Seq<char>) -> Result<Part, Failure> {
    let digits = if s.len() > 0 && s[0] == '+' {
        s.skip(1)
    } else {
        s
    };
    if digits.len() > 0 && all_digits(digits) && decimal_value(digits) <= u32::MAX {
        Ok(Part::Numeric(decimal_value(digits)))
    } else if is_alpha_text(s) {
        Ok(Part::Alpha(s))
    } else {
        Err(Failure::InvalidComponent(s))
    }
}

/// The model of a result that holds a component.
pub open spec fn part_outcome(r: Result<IdComponent, IdError>) -> Result<Part, Failure> {
    match r {
        Ok(c) => Ok(c@),
        Err(e) => Err(e@),
    }
}

/// The successor of a valid part is valid.
pub proof fn lemma_part_succ_valid(p: Part)
    requires
        valid_part(p),
    ensures
        part_succ(p) matches Ok(q) ==> valid_part(q) && (q is Numeric <==> p is Numeric),
        part_succ(p) is Err <==> p == Part::Numeric(u32::MAX as nat),
{
    match p {
        Part::Numeric(n) => {},
        Part::Alpha(s) => {
            lemma_succ_is_alpha(s);
        },
    }
}

/// Whether every character of `v[from..]` is a decimal digit.
fn is_all_digits_from(v: &Vec<char>, from: usize) -> (r: bool)
    requires
        from <= v.len(),
    ensures
        r == all_digits(v@.skip(from as int)),
{
    let mut i: usize = from;
    while i < v.len()
        invariant
            from <= i <= v.len(),
            forall|j: int| from <= j < i ==> is_digit(#[trigger] v@[j]),
        decreases v.len() - i,
    {
        let c: char = v[i];
        if !(c >= '0' && c <= '9') {
            assert(v@.skip(from as int)[i - from] == c);
            return false;
        }
        i += 1;
    }
    assert forall|j: int| 0 <= j < v@.skip(from as int).len() implies is_digit(
        #[trigger] v@.skip(from as int)[j],
    ) by {
        assert(v@.skip(from as int)[j] == v@[j + from]);
    }
    true
}

/// Whether `a` comes before `b` in the order of the dictionary.
fn text_precedes(a: &str, b: &str) -> (r: bool)
    ensures
        r == text_before(a@, b@),
{
    let x = chars_of(a);
    let y = chars_of(b);
    let mut i: usize = 0;
    assert(x@.skip(0) == x@);
    assert(y@.skip(0) == y@);
    while i < x.len() && i < y.len()
        invariant
            i <= x.len(),
            i <= y.len(),
            x@ == a@,
            y@ == b@,
            text_before(a@, b@) == text_before(x@.skip(i as int), y@.skip(i as int)),
        decreases x.len() - i,
    {
        assert(x@.skip(i as int)[0] == x@[i as int]);
        assert(y@.skip(i as int)[0] == y@[i as int]);
        if x[i] != y[i] {
            return x[i] < y[i];
        }
        assert(x@.skip(i as int).skip(1) == x@.skip(i + 1));
        assert(y@.skip(i as int).skip(1) == y@.skip(i + 1));
        i += 1;
    }
    i < y.len()
}

impl IdComponent {
    /// A numeric component.
    pub fn numeric(value: u32) -> (r: Self)
        ensures
            r@ == Part::Numeric(value as nat),
    {
        IdComponent::Numeric(value)
    }

    /// An alphabetic component. The text must be a non-empty run of the
    /// letters `a` to `z`; anything else is an invalid component.
    pub fn alpha(value: &str) -> (r: Result<Self, IdError>)
        ensures
            part_outcome(r) == (if is_alpha_text(value@) {
                Ok::<Part, Failure>(Part::Alpha(value@))
            } else {
                Err::<Part, Failure>(Failure::InvalidComponent(value@))
            }),
    {
        let chars = chars_of(value);
        if chars.len() == 0 {
            return Err(IdError::InvalidComponent(value.to_string()));
        }
        if !is_all_lower(&chars) {
            return Err(IdError::InvalidComponent(value.to_string()));
        }
        Ok(IdComponent::Alpha(value.to_string()))
    }

    /// The next component in sequence. A number at the largest value
    /// overflows; letters never do.
    pub fn increment(&self) -> (r: Result<Self, IdError>)
        ensures
            part_outcome(r) == part_succ(self@),
            r matches Ok(IdComponent::Alpha(t)) ==> t@.len() <= usize::MAX,
    {
        match self {
            IdComponent::Numeric(n) => {
                if *n == u32::MAX {
                    Err(IdError::Overflow(render_number(*n)))
                } else {
                    Ok(IdComponent::Numeric(*n + 1))
                }
            },
            IdComponent::Alpha(s) => {
                match increment_alpha_string(s.as_str()) {
                    Ok(t) => Ok(IdComponent::Alpha(t)),
                    Err(e) => Err(e),
                }
            },
        }
    }

    /// Whether this is a numeric component.
    pub fn is_numeric(&self) -> (r: bool)
        ensures
            r == (self@ is Numeric),
    {
        match self {
            IdComponent::Numeric(_) => true,
            IdComponent::Alpha(_) => false,
        }
    }

    /// Whether this is an alphabetic component.
    pub fn is_alpha(&self) -> (r: bool)
        ensures
            r == (self@ is Alpha),
    {
        match self {
            IdComponent::Numeric(_) => false,
            IdComponent::Alpha(_) => true,
        }
    }

    /// The component as text: a number in decimal, letters as they are.
    pub fn as_str(&self) -> (r: String)
        ensures
            r@ == render_part(self@),
    {
        match self {
            IdComponent::Numeric(n) => render_number(*n),
            IdComponent::Alpha(s) => s.clone(),
        }
    }

    /// Whether the component meets its invariant: letters are a non-empty
    /// run of `a` to `z`.
    pub fn is_valid(&self) -> (r: bool)
        ensures
            r == valid_part(self@),
    {
        match self {
            IdComponent::Numeric(_) => true,
            IdComponent::Alpha(s) => {
                let chars = chars_of(s.as_str());
                chars.len() > 0 && is_all_lower(&chars)
            },
        }
    }

    /// Whether two components are the same.
    pub fn same_as(&self, other: &IdComponent) -> (r: bool)
        ensures
            r == (self@ == other@),
    {
        match self {
            IdComponent::Numeric(n) => match other {
                IdComponent::Numeric(m) => *n == *m,
                IdComponent::Alpha(_) => false,
            },
            IdComponent::Alpha(s) => match other {
                IdComponent::Numeric(_) => false,
                IdComponent::Alpha(t) => crate::text::text_eq(s.as_str(), t.as_str()),
            },
        }
    }

    /// Whether this component comes before `other` in the order of
    /// components.
    pub fn precedes(&self, other: &IdComponent) -> (r: bool)
        ensures
            r == part_before(self@, other@),
    {
        match self {
            IdComponent::Numeric(n) => match other {
                IdComponent::Numeric(m) => *n < *m,
                IdComponent::Alpha(_) => true,
            },
            IdComponent::Alpha(s) => match other {
                IdComponent::Numeric(_) => false,
                IdComponent::Alpha(t) => text_precedes(s.as_str(), t.as_str()),
            },
        }
    }

    /// A copy of the component.
    pub fn duplicate(&self) -> (r: Self)
        ensures
            r@ == self@,
    {
        match self {
            IdComponent::Numeric(n) => IdComponent::Numeric(*n),
            IdComponent::Alpha(s) => IdComponent::Alpha(s.clone()),
        }
    }

    /// Reads a whole string as one component: a number if it is one, else
    /// letters.
    pub fn parse(s: &str) -> (r: Result<Self, IdError>)
        ensures
            part_outcome(r) == read_part(s@),
    {
        let chars = chars_of(s);
        let n: usize = chars.len();
        let start: usize = if n > 0 && chars[0] == '+' {
            1
        } else {
            0
        };
        assert(chars@.skip(start as int) == chars@.subrange(start as int, n as int));
        assert(chars@.skip(0) == chars@);
        assert(chars@.skip(start as int).len() == n - start);
        if start < n && is_all_digits_from(&chars, start) {
            match read_number(&chars, start, n) {
                Some(value) => {
                    return Ok(IdComponent::Numeric(value));
                },
                None => {},
            }
        }
        IdComponent::alpha(s)
    }
}

impl core::str::FromStr for IdComponent {
    type Err = IdError;

    /// Reads a whole string as one component, as [`IdComponent::parse`]
    /// does.
    fn from_str(s: &str) -> (r: Result<Self, IdError>)
        ensures
            part_outcome(r) == read_part(s@),
    {
        IdComponent::parse(s)
    }
}

} // verus!
