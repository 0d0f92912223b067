//! Identifiers: a non-empty sequence of components that alternate between
//! numbers and letters, starting with a number, such as `1`, `1a` or `1a2b`.

use vstd::prelude::*;
use vstd::string::StringExecFns;
use crate::alpha::{alpha_value, lemma_pow26_monotonic, lemma_succ_value, lemma_value_bound,
    pow26};
use crate::component::{lemma_part_succ_valid, part_before, part_succ, parts_of, render_part,
    valid_part, Part};
use crate::error::Failure;
pub use crate::component::IdComponent;
pub use crate::config::IdConfig;
pub use crate::error::IdError;
pub use crate::manager::IdManager;
use crate::scan::{lemma_scan_shape, parse_id_string, parse_spec};
use crate::text::decimal;

verus! {

/// A complete identifier.
#[derive(Debug, PartialEq, Eq, PartialOrd, Ord)]
pub struct Id {
    components: Vec<IdComponent>,
}

/// Components at even positions are numbers, those at odd positions letters.
pub open spec fn alternates(parts: Seq<Part>) -> bool {
    forall|i: int| 0 <= i < parts.len() ==> ((#[trigger] parts[i]) is Numeric <==> i % 2 == 0)
}

/// Every component meets its own invariant.
pub open spec fn all_valid(parts: Seq<Part>) -> bool {
    forall|i: int| 0 <= i < parts.len() ==> valid_part(#[trigger] parts[i])
}

/// The invariant of an identifier: at least one component, alternating
/// between numbers and letters from a number on, each component valid.
pub open spec fn valid_id(parts: Seq<Part>) -> bool {
    &&& parts.len() > 0
    &&& alternates(parts)
    &&& all_valid(parts)
}

/// The canonical text of an identifier: its components written one after
/// the other, with nothing between them.
pub open spec fn render(parts: Seq<Part>) -> Seq<char>
    decreases parts.len(),
{
    if parts.len() == 0 {
        Seq::empty()
    } else {
        render(parts.drop_last()) + render_part(parts.last())
    }
}

/// What is wrong with the part `p` at position `i`, if anything: first its
/// class, then its content.
pub open spec fn offence(p: Part, i: int) -> Option<Failure> {
    if (p is Numeric) != (i % 2 == 0) {
        Some(Failure::InvalidFormat(render_part(p)))
    } else if !valid_part(p) {
        Some(Failure::InvalidComponent(render_part(p)))
    } else {
        None
    }
}

/// The first offence at a position from `from` on.
pub open spec fn first_offence(parts: Seq<Part>, from: int) -> Option<Failure>
    decreases parts.len() - from,
{
    if from < 0 || from >= parts.len() {
        None
    } else if offence(parts[from], from) is Some {
        offence(parts[from], from)
    } else {
        first_offence(parts, from + 1)
    }
}

/// What building an identifier from `parts` gives.
pub open spec fn assemble(parts: Seq<Part>) -> Result<Seq<Part>, Failure> {
    if parts.len() == 0 {
        Err(Failure::EmptyId)
    } else {
        match first_offence(parts, 0) {
            Some(f) => Err(f),
            None => Ok(parts),
        }
    }
}

/// `a` is a proper prefix of `b`.
pub open spec fn is_ancestor(a: Seq<Part>, b: Seq<Part>) -> bool {
    a.len() < b.len() && b.take(a.len() as int) == a
}

/// `a` and `b` have the same depth and differ at most in the last component.
pub open spec fn is_sibling(a: Seq<Part>, b: Seq<Part>) -> bool {
    a.len() == b.len() && a.take(a.len() - 1) == b.take(b.len() - 1)
}

/// The order of identifiers: by the first component in which they differ,
/// an identifier coming after each of its ancestors.
pub open spec fn id_before(a: Seq<Part>, b: Seq<Part>) -> bool
    decreases a.len(),
{
    if b.len() == 0 {
        false
    } else if a.len() == 0 {
        true
    } else if a[0] != b[0] {
        part_before(a[0], b[0])
    } else {
        id_before(a.skip(1), b.skip(1))
    }
}

/// The identifier after `parts` among its siblings.
pub open spec fn sibling_after(parts: Seq<Part>) -> Result<Seq<Part>, Failure> {
    match part_succ(parts.last()) {
        Ok(p) => Ok(parts.drop_last().push(p)),
        Err(f) => Err(f),
    }
}

/// How far the last component is from the end of its sequence: a measure
/// that every sibling step makes smaller.
pub open spec fn steps_left(parts: Seq<Part>) -> int {
    match parts.last() {
        Part::Numeric(n) => u32::MAX - n,
        Part::Alpha(s) => pow26(usize::MAX as nat + 1) - alpha_value(s),
    }
}

/// The first child of `parts`: a letter `a` under a number, a number `1`
/// under letters.
pub open spec fn child_of(parts: Seq<Part>) -> Seq<Part> {
    if parts.len() % 2 == 0 {
        parts.push(Part::Numeric(1))
    } else {
        parts.push(Part::Alpha(seq!['a']))
    }
}

/// The model of a result that holds an identifier.
pub open spec fn outcome(r: Result<Id, IdError>) -> Result<Seq<Part>, Failure> {
    match r {
        Ok(id) => Ok(id@),
        Err(e) => Err(e@),
    }
}

/// No position from `from` on offends exactly when `first_offence` finds
/// nothing.
pub proof fn lemma_first_offence(parts: Seq<Part>, from: int)
    requires
        0 <= from,
    ensures
        first_offence(parts, from) is None <==> (forall|i: int|
            from <= i < parts.len() ==> offence(#[trigger] parts[i], i) is None),
    decreases parts.len() - from,
{
    if from < parts.len() {
        lemma_first_offence(parts, from + 1);
    }
}

/// An identifier can be built from a sequence of parts exactly when the
/// sequence meets the invariant; any other sequence is refused.
pub proof fn lemma_assemble_valid(parts: Seq<Part>)
    ensures
        assemble(parts) is Ok <==> valid_id(parts),
        assemble(parts) is Ok ==> assemble(parts) == Ok::<Seq<Part>, Failure>(parts),
{
    lemma_first_offence(parts, 0);
    if valid_id(parts) {
        assert forall|i: int| 0 <= i < parts.len() implies offence(#[trigger] parts[i], i)
            is None by {
            assert(valid_part(parts[i]));
        }
    }
    if assemble(parts) is Ok {
        assert forall|i: int| 0 <= i < parts.len() implies (#[trigger] parts[i]) is Numeric
            <==> i % 2 == 0 by {
            assert(offence(parts[i], i) is None);
        }
        assert forall|i: int| 0 <= i < parts.len() implies valid_part(#[trigger] parts[i]) by {
            assert(offence(parts[i], i) is None);
        }
    }
}

/// A non-empty prefix of a valid identifier is a valid identifier.
pub proof fn lemma_prefix_valid(parts: Seq<Part>, k: int)
    requires
        valid_id(parts),
        1 <= k <= parts.len(),
    ensures
        valid_id(parts.take(k)),
{
    let p = parts.take(k);
    assert forall|i: int| 0 <= i < p.len() implies ((#[trigger] p[i]) is Numeric <==> i % 2
        == 0) by {
        assert(p[i] == parts[i]);
    }
    assert forall|i: int| 0 <= i < p.len() implies valid_part(#[trigger] p[i]) by {
        assert(p[i] == parts[i]);
    }
}

/// The next sibling of a valid identifier is valid, has the same depth and
/// the same parent; there is none exactly when the last component is a
/// number at its largest value.
pub proof fn lemma_sibling_valid(parts: Seq<Part>)
    requires
        valid_id(parts),
    ensures
        sibling_after(parts) matches Ok(next) ==> valid_id(next) && is_sibling(parts, next),
        sibling_after(parts) is Err <==> parts.last() == Part::Numeric(u32::MAX as nat),
        sibling_after(parts) is Err ==> sibling_after(parts) == Err::<Seq<Part>, Failure>(
            Failure::Overflow(decimal(u32::MAX as nat)),
        ),
{
    let last = parts.last();
    assert(valid_part(last));
    lemma_part_succ_valid(last);
    if let Ok(q) = part_succ(last) {
        let next = parts.drop_last().push(q);
        assert(last is Numeric <==> (parts.len() - 1) % 2 == 0);
        assert forall|i: int| 0 <= i < next.len() implies ((#[trigger] next[i]) is Numeric <==> i
            % 2 == 0) by {
            if i < parts.len() - 1 {
                assert(next[i] == parts[i]);
            }
        }
        assert forall|i: int| 0 <= i < next.len() implies valid_part(#[trigger] next[i]) by {
            if i < parts.len() - 1 {
                assert(next[i] == parts[i]);
            }
        }
        assert(next.take(next.len() - 1) == parts.take(parts.len() - 1));
    }
}

/// The first child of a valid identifier is valid, one deeper, and has the
/// identifier as its parent.
pub proof fn lemma_child_valid(parts: Seq<Part>)
    requires
        valid_id(parts),
    ensures
        valid_id(child_of(parts)),
        child_of(parts).drop_last() == parts,
        is_ancestor(parts, child_of(parts)),
        child_of(parts).last() is Numeric <==> parts.last() is Alpha,
{
    let c = child_of(parts);
    assert(c.drop_last() == parts);
    assert(c.take(parts.len() as int) == parts);
    assert(parts.last() is Numeric <==> (parts.len() - 1) % 2 == 0);
    assert forall|i: int| 0 <= i < c.len() implies ((#[trigger] c[i]) is Numeric <==> i % 2
        == 0) by {
        if i < parts.len() {
            assert(c[i] == parts[i]);
        }
    }
    assert forall|i: int| 0 <= i < c.len() implies valid_part(#[trigger] c[i]) by {
        if i < parts.len() {
            assert(c[i] == parts[i]);
        }
    }
}

/// If `a` is strictly shorter than `b` and a prefix of it, then `a` is an
/// ancestor of `b` and `b` is not an ancestor of `a`.
pub proof fn lemma_ancestor_antisymmetric(a: Seq<Part>, b: Seq<Part>)
    requires
        a.len() < b.len(),
        b.take(a.len() as int) == a,
    ensures
        is_ancestor(a, b),
        !is_ancestor(b, a),
{
}

/// Any two root identifiers are siblings of each other.
pub proof fn lemma_roots_are_siblings(a: Seq<Part>, b: Seq<Part>)
    requires
        valid_id(a),
        valid_id(b),
        a.len() == 1,
        b.len() == 1,
    ensures
        is_sibling(a, b),
        is_sibling(b, a),
{
    assert(a.take(0) == b.take(0));
}

/// A copy of a vector of components.
fn duplicate_all(v: &Vec<IdComponent>, upto: usize) -> (r: Vec<IdComponent>)
    requires
        upto <= v.len(),
    ensures
        parts_of(r@) == parts_of(v@).take(upto as int),
{
    let mut r: Vec<IdComponent> = Vec::new();
    let mut i: usize = 0;
    while i < upto
        invariant
            i <= upto <= v.len(),
            parts_of(r@) == parts_of(v@).take(i as int),
        decreases upto - i,
    {
        let ghost before = parts_of(r@);
        r.push(v[i].duplicate());
        assert(parts_of(r@) == before.push(v@[i as int]@));
        assert(parts_of(v@).take(i + 1) == parts_of(v@).take(i as int).push(v@[i as int]@));
        i += 1;
    }
    r
}

impl View for Id {
    type V = Seq<Part>;

    /// The models of the components, in order.
    closed spec fn view(&self) -> Seq<Part> {
        parts_of(self.components@)
    }
}

impl Id {
    #[verifier::type_invariant]
    spec fn well_formed(self) -> bool {
        valid_id(self@)
    }

    /// Builds an identifier from components. The sequence must not be empty,
    /// must alternate between numbers and letters from a number on, and
    /// every component must be valid; the first component that is out of
    /// place or invalid is reported.
    pub fn new(components: Vec<IdComponent>) -> (r: Result<Self, IdError>)
        ensures
            outcome(r) == assemble(parts_of(components@)),
            r matches Ok(id) ==> valid_id(id@),
    {
        if components.len() == 0 {
            return Err(IdError::EmptyId);
        }
        let ghost parts = parts_of(components@);
        let mut i: usize = 0;
        while i < components.len()
            invariant
                i <= components.len(),
                parts == parts_of(components@),
                first_offence(parts, 0) == first_offence(parts, i as int),
            decreases components.len() - i,
        {
            let component = &components[i];
            assert(parts[i as int] == component@);
            let should_be_numeric: bool = i % 2 == 0;
            if should_be_numeric != component.is_numeric() {
                return Err(IdError::InvalidFormat(component.as_str()));
            }
            if !component.is_valid() {
                return Err(IdError::InvalidComponent(component.as_str()));
            }
            i += 1;
        }
        proof {
            lemma_assemble_valid(parts);
        }
        Ok(Id { components })
    }

    /// The root identifier with the number `n`.
    pub fn from_number(n: u32) -> (r: Self)
        ensures
            r@ == seq![Part::Numeric(n as nat)],
            valid_id(r@),
    {
        let mut components: Vec<IdComponent> = Vec::new();
        components.push(IdComponent::Numeric(n));
        assert(parts_of(components@) == seq![Part::Numeric(n as nat)]);
        Id { components }
    }

    /// Reads an identifier from its text, such as `1a2b3`.
    pub fn parse(s: &str) -> (r: Result<Self, IdError>)
        ensures
            outcome(r) == parse_spec(s@),
            r matches Ok(id) ==> valid_id(id@),
    {
        match parse_id_string(s) {
            Ok(components) => {
                proof {
                    lemma_scan_shape(s@, true);
                    lemma_assemble_valid(parts_of(components@));
                }
                Id::new(components)
            },
            Err(e) => Err(e),
        }
    }

    /// The components, in order.
    pub fn components(&self) -> (r: &[IdComponent])
        ensures
            parts_of(r@) == self@,
            valid_id(self@),
    {
        proof {
            use_type_invariant(self);
        }
        self.components.as_slice()
    }

    /// The number of components.
    pub fn depth(&self) -> (r: usize)
        ensures
            r == self@.len(),
            r >= 1,
            valid_id(self@),
    {
        proof {
            use_type_invariant(self);
        }
        self.components.len()
    }

    /// Whether the identifier is a root: a single number.
    pub fn is_root(&self) -> (r: bool)
        ensures
            r == (self@.len() == 1),
            r ==> self@[0] is Numeric,
    {
        proof {
            use_type_invariant(self);
        }
        self.components.len() == 1 && self.components[0].is_numeric()
    }

    /// The identifier without its last component; a root has none.
    pub fn parent(&self) -> (r: Result<Option<Self>, IdError>)
        ensures
            r is Ok,
            r->Ok_0 is None <==> self@.len() == 1,
            r->Ok_0 matches Some(p) ==> p@ == self@.drop_last() && valid_id(p@),
    {
        proof {
            use_type_invariant(self);
        }
        let n: usize = self.components.len();
        if n <= 1 {
            return Ok(None);
        }
        let components = duplicate_all(&self.components, n - 1);
        proof {
            lemma_prefix_valid(self@, n - 1);
            assert(self@.take(n - 1) == self@.drop_last());
        }
        Ok(Some(Id { components }))
    }

    /// The next sibling: the same identifier with its last component
    /// incremented. Fails with an overflow only when the last component is
    /// a number at its largest value.
    pub fn next_sibling(&self) -> (r: Result<Self, IdError>)
        ensures
            outcome(r) == sibling_after(self@),
            r matches Ok(id) ==> valid_id(id@) && is_sibling(self@, id@),
            r matches Ok(id) ==> 0 <= steps_left(id@) < steps_left(self@),
            r is Err <==> self@.last() == Part::Numeric(u32::MAX as nat),
            valid_id(self@),
    {
        proof {
            use_type_invariant(self);
            lemma_sibling_valid(self@);
        }
        let n: usize = self.components.len();
        assert(self@.last() == self.components@[n - 1]@);
        match self.components[n - 1].increment() {
            Ok(last) => {
                let mut components = duplicate_all(&self.components, n - 1);
                proof {
                    if let Part::Alpha(t) = last@ {
                        let s = self@.last()->Alpha_0;
                        assert(valid_part(self@.last()));
                        crate::alpha::lemma_succ_is_alpha(s);
                        lemma_succ_value(s);
                        lemma_value_bound(t);
                        lemma_pow26_monotonic(t.len() + 1, usize::MAX as nat + 1);
                    }
                }
                components.push(last);
                assert(parts_of(components@) == self@.drop_last().push(last@));
                Ok(Id { components })
            },
            Err(e) => Err(e),
        }
    }

    /// The first child: the same identifier with one more component, a
    /// letter `a` after a number and a number `1` after letters.
    pub fn first_child(&self) -> (r: Self)
        ensures
            r@ == child_of(self@),
            valid_id(r@),
            valid_id(self@),
    {
        proof {
            use_type_invariant(self);
            lemma_child_valid(self@);
        }
        let n: usize = self.components.len();
        let mut components = duplicate_all(&self.components, n);
        assert(self@.take(n as int) == self@);
        let next = if n % 2 == 0 {
            IdComponent::Numeric(1)
        } else {
            let a = String::from_str("a");
            proof {
                reveal_strlit("a");
            }
            assert(a@ == seq!['a']);
            IdComponent::Alpha(a)
        };
        components.push(next);
        assert(parts_of(components@) == self@.push(next@));
        Id { components }
    }

    /// Whether this identifier is an ancestor of `other`: strictly shorter,
    /// and a prefix of it.
    pub fn is_ancestor_of(&self, other: &Id) -> (r: bool)
        ensures
            r == is_ancestor(self@, other@),
    {
        let n: usize = self.components.len();
        if n >= other.components.len() {
            return false;
        }
        let mut i: usize = 0;
        while i < n
            invariant
                i <= n,
                n == self.components.len(),
                n < other.components.len(),
                other@.take(i as int) == self@.take(i as int),
            decreases n - i,
        {
            if !self.components[i].same_as(&other.components[i]) {
                assert(other@.take(n as int)[i as int] != self@[i as int]);
                return false;
            }
            assert(other@.take(i + 1) == other@.take(i as int).push(other@[i as int]));
            assert(self@.take(i + 1) == self@.take(i as int).push(self@[i as int]));
            i += 1;
        }
        assert(self@.take(n as int) == self@);
        true
    }

    /// Whether this identifier is a descendant of `other`.
    pub fn is_descendant_of(&self, other: &Id) -> (r: bool)
        ensures
            r == is_ancestor(other@, self@),
    {
        other.is_ancestor_of(self)
    }

    /// Whether this identifier and `other` are siblings: of the same depth
    /// and with the same parent. All roots are siblings.
    pub fn is_sibling_of(&self, other: &Id) -> (r: bool)
        ensures
            r == is_sibling(self@, other@),
    {
        proof {
            use_type_invariant(self);
        }
        let n: usize = self.components.len();
        if n != other.components.len() {
            return false;
        }
        let mut i: usize = 0;
        while i < n - 1
            invariant
                i <= n - 1,
                n >= 1,
                n == self.components.len(),
                n == other.components.len(),
                other@.take(i as int) == self@.take(i as int),
            decreases n - i,
        {
            if !self.components[i].same_as(&other.components[i]) {
                assert(other@.take(n - 1)[i as int] != self@.take(n - 1)[i as int]);
                return false;
            }
            assert(other@.take(i + 1) == other@.take(i as int).push(other@[i as int]));
            assert(self@.take(i + 1) == self@.take(i as int).push(self@[i as int]));
            i += 1;
        }
        true
    }

    /// All ancestors, from the root down to the parent.
    pub fn ancestors(&self) -> (r: Vec<Id>)
        ensures
            r@.len() == self@.len() - 1,
            forall|i: int| 0 <= i < r@.len() ==> (#[trigger] r@[i])@ == self@.take(i + 1),
            forall|i: int| 0 <= i < r@.len() ==> is_ancestor((#[trigger] r@[i])@, self@),
            forall|i: int| 0 <= i < r@.len() ==> valid_id((#[trigger] r@[i])@),
    {
        proof {
            use_type_invariant(self);
        }
        let n: usize = self.components.len();
        let mut ancestors: Vec<Id> = Vec::new();
        let mut i: usize = 1;
        while i < n
            invariant
                1 <= i <= n,
                n == self.components.len(),
                valid_id(self@),
                ancestors@.len() == i - 1,
                forall|j: int| 0 <= j < ancestors@.len() ==> (#[trigger] ancestors@[j])@
                    == self@.take(j + 1),
            decreases n - i,
        {
            let components = duplicate_all(&self.components, i);
            proof {
                lemma_prefix_valid(self@, i as int);
            }
            ancestors.push(Id { components });
            i += 1;
        }
        assert forall|j: int| 0 <= j < ancestors@.len() implies is_ancestor(
            (#[trigger] ancestors@[j])@,
            self@,
        ) && valid_id(ancestors@[j]@) by {
            assert(self@.take(j + 1).len() == j + 1);
            lemma_prefix_valid(self@, j + 1);
        }
        ancestors
    }

    /// The canonical text: the components written one after the other.
    pub fn to_string(&self) -> (r: String)
        ensures
            r@ == render(self@),
            valid_id(self@),
    {
        proof {
            use_type_invariant(self);
        }
        let mut text = String::new();
        let mut i: usize = 0;
        assert(self@.take(0).len() == 0);
        while i < self.components.len()
            invariant
                i <= self.components.len(),
                text@ == render(self@.take(i as int)),
            decreases self.components.len() - i,
        {
            let piece = self.components[i].as_str();
            proof {
                let next = self@.take(i + 1);
                assert(next.drop_last() == self@.take(i as int));
                assert(next.last() == self.components@[i as int]@);
            }
            text.append(piece.as_str());
            i += 1;
        }
        assert(self@.take(self.components.len() as int) == self@);
        text
    }

    /// Whether this identifier comes before `other` in the order of
    /// identifiers.
    pub fn precedes(&self, other: &Id) -> (r: bool)
        ensures
            r == id_before(self@, other@),
    {
        let n: usize = self.components.len();
        let m: usize = other.components.len();
        let mut i: usize = 0;
        assert(self@.skip(0) == self@);
        assert(other@.skip(0) == other@);
        while i < n && i < m
            invariant
                i <= n,
                i <= m,
                n == self.components.len(),
                m == other.components.len(),
                id_before(self@, other@) == id_before(self@.skip(i as int), other@.skip(i as int)),
            decreases n - i,
        {
            assert(self@.skip(i as int)[0] == self@[i as int]);
            assert(other@.skip(i as int)[0] == other@[i as int]);
            if !self.components[i].same_as(&other.components[i]) {
                return self.components[i].precedes(&other.components[i]);
            }
            assert(self@.skip(i as int).skip(1) == self@.skip(i + 1));
            assert(other@.skip(i as int).skip(1) == other@.skip(i + 1));
            i += 1;
        }
        i < m
    }

    /// Whether two identifiers are the same.
    pub fn same_as(&self, other: &Id) -> (r: bool)
        ensures
            r == (self@ == other@),
    {
        let n: usize = self.components.len();
        if n != other.components.len() {
            return false;
        }
        let mut i: usize = 0;
        while i < n
            invariant
                i <= n,
                n == self.components.len(),
                n == other.components.len(),
                other@.take(i as int) == self@.take(i as int),
            decreases n - i,
        {
            if !self.components[i].same_as(&other.components[i]) {
                assert(other@[i as int] != self@[i as int]);
                return false;
            }
            assert(other@.take(i + 1) == other@.take(i as int).push(other@[i as int]));
            assert(self@.take(i + 1) == self@.take(i as int).push(self@[i as int]));
            i += 1;
        }
        assert(self@.take(n as int) == self@);
        assert(other@.take(n as int) == other@);
        true
    }
}

impl Clone for Id {
    fn clone(&self) -> (r: Self)
        ensures
            r@ == self@,
    {
        proof {
            use_type_invariant(self);
        }
        let n: usize = self.components.len();
        let components = duplicate_all(&self.components, n);
        assert(self@.take(n as int) == self@);
        Id { components }
    }
}

impl core::str::FromStr for Id {
    type Err = IdError;

    /// Reads an identifier from its text, as [`Id::parse`] does.
    fn from_str(s: &str) -> (r: Result<Self, IdError>)
        ensures
            outcome(r) == parse_spec(s@),
    {
        Id::parse(s)
    }
}

} // verus!
