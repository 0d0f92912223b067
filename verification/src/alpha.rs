//! Counting with letters: `a, b, …, z, aa, ab, …, az, ba, …, zz, aaa, …`.
//!
//! A non-empty string of lowercase letters is read as a numeral in bijective
//! base 26, where `a` is the digit one and `z` the digit twenty-six.

use vstd::prelude::*;
use crate::error::{Failure, IdError};
use crate::text::{all_lower, chars_of, is_lower, string_of};

verus! {

/// A non-empty string of lowercase letters.
pub open spec fn is_alpha_text(s: Seq<char>) -> bool {
    s.len() > 0 && all_lower(s)
}

/// Every character of `s` is `z`.
pub open spec fn all_z(s: Seq<char>) -> bool {
    forall|i: int| 0 <= i < s.len() ==> #[trigger] s[i] == 'z'
}

/// The letter after `c` in the alphabet.
pub open spec fn letter_after(c: char) -> char {
    (c as int + 1) as char
}

/// The string that follows `s` in the counting order: the last letter moves
/// on by one; a final `z` turns into `a` and carries to the left; a carry
/// out of the first position puts a new `a` in front.
pub open spec fn alpha_succ(s: Seq<char>) -> Seq<char>
    decreases s.len(),
{
    if s.len() == 0 {
        seq!['a']
    } else if s.last() == 'z' {
        alpha_succ(s.drop_last()).push('a')
    } else {
        s.drop_last().push(letter_after(s.last()))
    }
}

/// The number that `s` denotes in bijective base 26.
pub open spec fn alpha_value(s: Seq<char>) -> nat
    decreases s.len(),
{
    if s.len() == 0 {
        0
    } else {
        alpha_value(s.drop_last()) * 26 + ((s.last() as int - 97 + 1) as nat)
    }
}

/// `26` to the power `n`.
pub open spec fn pow26(n: nat) -> nat
    decreases n,
{
    if n == 0 {
        1
    } else {
        26 * pow26((n - 1) as nat)
    }
}

/// The successor of a string of lowercase letters is again one, and is
/// never empty.
pub proof fn lemma_succ_is_alpha(s: Seq<char>)
    requires
        all_lower(s),
    ensures
        is_alpha_text(alpha_succ(s)),
    decreases s.len(),
{
    if s.len() == 0 {
    } else if s.last() == 'z' {
        let p = s.drop_last();
        assert forall|i: int| 0 <= i < p.len() implies is_lower(#[trigger] p[i]) by {
            assert(p[i] == s[i]);
        }
        lemma_succ_is_alpha(p);
        let q = alpha_succ(p);
        let r = q.push('a');
        assert forall|i: int| 0 <= i < r.len() implies is_lower(#[trigger] r[i]) by {
            if i < q.len() {
                assert(r[i] == q[i]);
            }
        }
    } else {
        let p = s.drop_last();
        let c = s.last();
        assert(is_lower(c));
        let r = p.push(letter_after(c));
        assert forall|i: int| 0 <= i < r.len() implies is_lower(#[trigger] r[i]) by {
            if i < p.len() {
                assert(r[i] == s[i]);
            }
        }
    }
}

/// The successor denotes the next number.
pub proof fn lemma_succ_value(s: Seq<char>)
    requires
        all_lower(s),
    ensures
        alpha_value(alpha_succ(s)) == alpha_value(s) + 1,
    decreases s.len(),
{
    if s.len() == 0 {
        let r = seq!['a'];
        assert(r.drop_last().len() == 0);
        assert(alpha_value(r.drop_last()) == 0);
    } else if s.last() == 'z' {
        let p = s.drop_last();
        assert forall|i: int| 0 <= i < p.len() implies is_lower(#[trigger] p[i]) by {
            assert(p[i] == s[i]);
        }
        lemma_succ_value(p);
        let q = alpha_succ(p);
        let r = q.push('a');
        assert(r.drop_last() == q);
        assert(r.last() == 'a');
    } else {
        let p = s.drop_last();
        let c = s.last();
        assert(is_lower(c));
        let r = p.push(letter_after(c));
        assert(r.drop_last() == p);
        assert(r.last() == letter_after(c));
    }
}

/// The successor is one character longer when every character was `z`, and
/// as long as before otherwise.
pub proof fn lemma_succ_len(s: Seq<char>)
    ensures
        alpha_succ(s).len() == s.len() + (if all_z(s) { 1int } else { 0int }),
    decreases s.len(),
{
    if s.len() == 0 {
    } else if s.last() == 'z' {
        let p = s.drop_last();
        lemma_succ_len(p);
        if all_z(p) {
            assert forall|i: int| 0 <= i < s.len() implies #[trigger] s[i] == 'z' by {
                if i < p.len() {
                    assert(p[i] == s[i]);
                }
            }
        } else {
            let i = choose|i: int| 0 <= i < p.len() && #[trigger] p[i] != 'z';
            assert(s[i] == p[i]);
        }
    } else {
        assert(s[s.len() - 1] != 'z');
    }
}

/// Two strings of lowercase letters that denote the same number are the
/// same string.
pub proof fn lemma_value_injective(s: Seq<char>, t: Seq<char>)
    requires
        all_lower(s),
        all_lower(t),
        alpha_value(s) == alpha_value(t),
    ensures
        s == t,
    decreases s.len(),
{
    if s.len() == 0 || t.len() == 0 {
        if s.len() > 0 {
            assert(is_lower(s.last()));
            assert(alpha_value(s.drop_last()) * 26 >= 0) by (nonlinear_arith);
        }
        if t.len() > 0 {
            assert(is_lower(t.last()));
            assert(alpha_value(t.drop_last()) * 26 >= 0) by (nonlinear_arith);
        }
        assert(s =~= t);
    } else {
        let p = s.drop_last();
        let q = t.drop_last();
        assert(is_lower(s.last()));
        assert(is_lower(t.last()));
        let a = (s.last() as int - 96);
        let b = (t.last() as int - 96);
        let x = alpha_value(p);
        let y = alpha_value(q);
        assert(x == y && a == b) by (nonlinear_arith)
            requires
                x * 26 + a == y * 26 + b,
                1 <= a <= 26,
                1 <= b <= 26,
                x >= 0,
                y >= 0,
        ;
        assert forall|i: int| 0 <= i < p.len() implies is_lower(#[trigger] p[i]) by {
            assert(p[i] == s[i]);
        }
        assert forall|i: int| 0 <= i < q.len() implies is_lower(#[trigger] q[i]) by {
            assert(q[i] == t[i]);
        }
        lemma_value_injective(p, q);
        assert(s == p.push(s.last()));
        assert(t == q.push(t.last()));
    }
}

/// A string of `n` lowercase letters denotes a number below `26^(n+1)`.
pub proof fn lemma_value_bound(s: Seq<char>)
    requires
        all_lower(s),
    ensures
        alpha_value(s) + 2 <= pow26(s.len() + 1),
    decreases s.len(),
{
    if s.len() == 0 {
        assert(pow26(1) == 26 * pow26(0));
    } else {
        let p = s.drop_last();
        assert forall|i: int| 0 <= i < p.len() implies is_lower(#[trigger] p[i]) by {
            assert(p[i] == s[i]);
        }
        lemma_value_bound(p);
        assert(is_lower(s.last()));
        assert(pow26(s.len() + 1) == 26 * pow26(s.len()));
        assert(p.len() + 1 == s.len());
    }
}

/// `26^n` grows with `n`.
pub proof fn lemma_pow26_monotonic(a: nat, b: nat)
    requires
        a <= b,
    ensures
        pow26(a) <= pow26(b),
        pow26(a) >= 1,
    decreases b,
{
    if a == 0 {
        if b > 0 {
            lemma_pow26_monotonic(0, (b - 1) as nat);
        }
    } else {
        lemma_pow26_monotonic((a - 1) as nat, (b - 1) as nat);
    }
}

/// Whether every character of `v` is a lowercase letter.
pub fn is_all_lower(v: &Vec<char>) -> (r: bool)
    ensures
        r == all_lower(v@),
{
    let mut i: usize = 0;
    while i < v.len()
        invariant
            i <= v.len(),
            forall|j: int| 0 <= j < i ==> is_lower(#[trigger] v@[j]),
        decreases v.len() - i,
    {
        let c: char = v[i];
        if !(c >= 'a' && c <= 'z') {
            assert(!is_lower(v@[i as int]));
            return false;
        }
        i += 1;
    }
    true
}

/// The result that [`increment_alpha_string`] owes for the input `s`.
pub open spec fn increment_spec(s: Seq<char>) -> Result<Seq<char>, Failure> {
    if is_alpha_text(s) {
        Ok(alpha_succ(s))
    } else {
        Err(Failure::InvalidComponent(s))
    }
}

/// Steps a string of lowercase letters on by one: `a` gives `b`, `z` gives
/// `aa`, `az` gives `ba`, `zz` gives `aaa`.
///
/// An empty string, or one that holds anything but the letters `a` to `z`,
/// is rejected as an invalid component.
pub fn increment_alpha_string(s: &str) -> (r: Result<String, IdError>)
    ensures
        match r {
            Ok(t) => increment_spec(s@) == Ok::<Seq<char>, Failure>(t@) && t@.len()
                <= usize::MAX,
            Err(e) => increment_spec(s@) == Err::<Seq<char>, Failure>(e@),
        },
{
    let mut chars: Vec<char> = chars_of(s);
    if chars.len() == 0 || !is_all_lower(&chars) {
        return Err(IdError::InvalidComponent(s.to_string()));
    }
    let ghost orig = chars@;
    let n: usize = chars.len();
    let mut carry: bool = true;
    let mut i: usize = n;
    assert(orig.take(n as int) == orig);
    assert(alpha_succ(orig) + chars@.skip(n as int) == alpha_succ(orig));
    // Work from the right, as when adding one to a number.
    while i > 0 && carry
        invariant
            i <= n,
            n == orig.len(),
            chars@.len() == n,
            all_lower(orig),
            carry ==> chars@.take(i as int) == orig.take(i as int),
            carry ==> alpha_succ(orig) == alpha_succ(orig.take(i as int)) + chars@.skip(i as int),
            !carry ==> alpha_succ(orig) == chars@,
        decreases i,
    {
        i -= 1;
        let c: char = chars[i];
        let ghost head = orig.take(i + 1);
        let ghost tail = chars@.skip(i + 1);
        assert(head.drop_last() == orig.take(i as int));
        assert(head.last() == orig[i as int]);
        assert(c == chars@.take(i + 1)[i as int]);
        assert(c == orig[i as int]);
        assert(is_lower(orig[i as int]));
        if c == 'z' {
            chars.set(i, 'a');
            assert(chars@.skip(i as int) == seq!['a'] + tail);
            assert(alpha_succ(head) == alpha_succ(orig.take(i as int)).push('a'));
            assert(alpha_succ(orig.take(i as int)).push('a') + tail == alpha_succ(
                orig.take(i as int),
            ) + (seq!['a'] + tail));
            assert(chars@.take(i as int) == orig.take(i as int));
        } else {
            let next: char = ((c as u8) + 1) as char;
            assert(next == letter_after(c));
            chars.set(i, next);
            carry = false;
            assert(alpha_succ(head) == orig.take(i as int).push(next));
            assert(chars@ == orig.take(i as int).push(next) + tail);
        }
    }
    // A carry out of the first position makes the string one letter longer.
    if carry {
        let ghost before = chars@;
        assert(i == 0);
        assert(orig.take(0) =~= Seq::<char>::empty());
        assert(alpha_succ(Seq::<char>::empty()) == seq!['a']);
        assert(before.skip(0) =~= before);
        assert(alpha_succ(orig) == seq!['a'] + before);
        chars.insert(0, 'a');
        assert(chars@ =~= seq!['a'] + before);
    }
    assert(chars@ == alpha_succ(orig));
    Ok(string_of(&chars))
}

} // verus!
