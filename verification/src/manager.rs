//! The identifier manager: finds identifiers in file names and generates
//! identifiers that are not in use yet.

use vstd::prelude::*;
use crate::component::Part;
use crate::config::{IdConfig, MATCH_RULE_FUZZY, MATCH_RULE_SEPARATOR};
use crate::error::{Failure, IdError};
use crate::id::{child_of, is_sibling, outcome, render, sibling_after, steps_left, valid_id, Id};
use crate::pattern::{first_match, regex_find};
use crate::roundtrip::lemma_parse_accepts;
use crate::scan::parse_spec;
use crate::text::{chars_of, has_prefix_at, is_digit, is_lower, starts_with, string_of_range,
    text_eq};

verus! {

/// The regular expression of a run of identifier characters at the start of
/// a text, where letters of any script count.
pub const UNICODE_RUN_PATTERN: &'static str = "^[0-9\\p{L}]+";

/// The ways in which a file name can hold an identifier.
#[derive(Debug, Clone, Copy, PartialEq, Eq)]
pub enum FilenamePattern {
    /// The file name is the identifier and nothing else.
    Exact,
    /// The identifier is followed by the separator.
    BeforeSeparator,
    /// The identifier is followed by a character that cannot be part of it.
    BeforeBoundary,
}

/// An identifier character where only ASCII counts: a digit or a lowercase
/// letter.
pub open spec fn plain_id_char(c: char) -> bool {
    is_digit(c) || is_lower(c)
}

/// The length of the longest prefix of `name` made of digits and lowercase
/// letters.
pub open spec fn plain_run(name: Seq<char>) -> nat
    decreases name.len(),
{
    if name.len() > 0 && plain_id_char(name[0]) {
        1 + plain_run(name.skip(1))
    } else {
        0
    }
}

/// The length of the longest run of identifier characters at the start of
/// `name`. Without `unicode` these are the digits and the lowercase
/// letters; with it, the digits and the letters of any script.
pub open spec fn leading_run(name: Seq<char>, unicode: bool) -> nat {
    if unicode {
        match first_match(UNICODE_RUN_PATTERN@, name) {
            Some((start, end)) => if start == 0 && end <= name.len() {
                end
            } else {
                0
            },
            None => 0,
        }
    } else {
        plain_run(name)
    }
}

/// Whether `pattern` accepts the file name `name`, whose leading run of
/// identifier characters has the length `run`.
pub open spec fn pattern_accepts(
    pattern: FilenamePattern,
    name: Seq<char>,
    run: nat,
    separator: Seq<char>,
) -> bool {
    match pattern {
        FilenamePattern::Exact => run == name.len(),
        FilenamePattern::BeforeSeparator => starts_with(name.skip(run as int), separator),
        FilenamePattern::BeforeBoundary => run < name.len(),
    }
}

/// The patterns of a matching rule, in the order in which they are tried.
/// A rule that is not known counts as `strict`.
pub open spec fn patterns_for(rule: Seq<char>) -> Seq<FilenamePattern> {
    if rule == MATCH_RULE_SEPARATOR@ {
        seq![FilenamePattern::BeforeSeparator]
    } else if rule == MATCH_RULE_FUZZY@ {
        seq![FilenamePattern::BeforeBoundary, FilenamePattern::Exact]
    } else {
        seq![FilenamePattern::Exact]
    }
}

/// Whether a matching rule accepts a file name whose leading run of
/// identifier characters has the length `run`: `separator` wants the
/// separator right after the run, `fuzzy` wants nothing, and `strict`, like
/// any other rule, wants the run to be the whole name.
pub open spec fn rule_accepts(
    rule: Seq<char>,
    name: Seq<char>,
    run: nat,
    separator: Seq<char>,
) -> bool {
    if rule == MATCH_RULE_SEPARATOR@ {
        starts_with(name.skip(run as int), separator)
    } else if rule == MATCH_RULE_FUZZY@ {
        true
    } else {
        run == name.len()
    }
}

/// The identifier that a file name holds under a configuration, if any:
/// the leading run of identifier characters, where it is not empty, the
/// matching rule accepts the name, and the run is the text of an
/// identifier.
pub open spec fn extract_spec(name: Seq<char>, config: IdConfig) -> Option<Seq<Part>> {
    let run = leading_run(name, config.allow_unicode);
    if 0 < run <= name.len() && rule_accepts(config.match_rule@, name, run, config.separator@) {
        match parse_spec(name.take(run as int)) {
            Ok(parts) => Some(parts),
            Err(_) => None,
        }
    } else {
        None
    }
}

/// A rule accepts a name exactly when one of its patterns does.
pub proof fn lemma_rule_patterns(rule: Seq<char>, name: Seq<char>, run: nat, separator: Seq<char>)
    requires
        run <= name.len(),
    ensures
        rule_accepts(rule, name, run, separator) <==> exists|i: int|
            0 <= i < patterns_for(rule).len() && pattern_accepts(
                #[trigger] patterns_for(rule)[i],
                name,
                run,
                separator,
            ),
{
    let patterns = patterns_for(rule);
    if rule_accepts(rule, name, run, separator) {
        if rule == MATCH_RULE_SEPARATOR@ {
            assert(pattern_accepts(patterns[0], name, run, separator));
        } else if rule == MATCH_RULE_FUZZY@ {
            if run < name.len() {
                assert(pattern_accepts(patterns[0], name, run, separator));
            } else {
                assert(pattern_accepts(patterns[1], name, run, separator));
            }
        } else {
            assert(pattern_accepts(patterns[0], name, run, separator));
        }
    }
}

/// The longest prefix of digits and lowercase letters: its characters are
/// of that kind, and the one after it, if any, is not.
pub proof fn lemma_plain_run_class(name: Seq<char>)
    ensures
        plain_run(name) <= name.len(),
        forall|i: int| 0 <= i < plain_run(name) ==> plain_id_char(#[trigger] name[i]),
        plain_run(name) < name.len() ==> !plain_id_char(name[plain_run(name) as int]),
    decreases name.len(),
{
    if name.len() > 0 && plain_id_char(name[0]) {
        let t = name.skip(1);
        lemma_plain_run_class(t);
        let k = plain_run(name);
        assert forall|i: int| 0 <= i < k implies plain_id_char(#[trigger] name[i]) by {
            if i > 0 {
                assert(name[i] == t[i - 1]);
            }
        }
        if k < name.len() {
            assert(name[k as int] == t[k - 1]);
        }
    }
}

/// Where only ASCII counts, the rule `strict`, like any rule that is not
/// known, finds an identifier in a file name exactly when the whole name
/// reads as an identifier, and finds that identifier then.
pub proof fn lemma_strict_takes_the_whole_name(name: Seq<char>, config: IdConfig)
    requires
        !config.allow_unicode,
        config.match_rule@ != MATCH_RULE_SEPARATOR@,
        config.match_rule@ != MATCH_RULE_FUZZY@,
    ensures
        extract_spec(name, config) == (match parse_spec(name) {
            Ok(parts) => Some(parts),
            Err(_) => None::<Seq<Part>>,
        }),
{
    lemma_plain_run_class(name);
    let run = plain_run(name);
    if parse_spec(name) is Ok {
        lemma_parse_accepts(name);
        if run < name.len() {
            assert(is_digit(name[run as int]) || is_lower(name[run as int]));
        }
        assert(name.take(run as int) == name);
    } else if run == name.len() {
        assert(name.take(run as int) == name);
    }
}

/// Where only ASCII counts, the rule `fuzzy` finds an identifier in a file
/// name exactly when the leading run of digits and lowercase letters reads
/// as an identifier, whatever follows the run.
pub proof fn lemma_fuzzy_takes_the_leading_run(name: Seq<char>, config: IdConfig)
    requires
        !config.allow_unicode,
        config.match_rule@ == MATCH_RULE_FUZZY@,
    ensures
        extract_spec(name, config) == (match parse_spec(name.take(plain_run(name) as int)) {
            Ok(parts) => Some(parts),
            Err(_) => None::<Seq<Part>>,
        }),
{
    lemma_plain_run_class(name);
    reveal_strlit("fuzzy");
    reveal_strlit("separator");
    assert(MATCH_RULE_FUZZY@.len() != MATCH_RULE_SEPARATOR@.len());
    if plain_run(name) == 0 {
        assert(name.take(0).len() == 0);
    }
}

/// The longest prefix of digits and lowercase letters has the length `k`
/// when its characters are of that kind and the next one, if any, is not.
pub proof fn lemma_plain_run_is(name: Seq<char>, k: int)
    requires
        0 <= k <= name.len(),
        forall|i: int| 0 <= i < k ==> plain_id_char(#[trigger] name[i]),
        k < name.len() ==> !plain_id_char(name[k]),
    ensures
        plain_run(name) == k,
    decreases k,
{
    if k > 0 {
        let t = name.skip(1);
        assert forall|i: int| 0 <= i < k - 1 implies plain_id_char(#[trigger] t[i]) by {
            assert(t[i] == name[i + 1]);
        }
        if k < name.len() {
            assert(t[k - 1] == name[k]);
        }
        lemma_plain_run_is(t, k - 1);
    } else if name.len() > 0 {
        assert(!plain_id_char(name[0]));
    }
}

/// The length of the leading run of identifier characters of a file name.
fn leading_run_length(name: &str, chars: &Vec<char>, unicode: bool) -> (r: usize)
    requires
        chars@ == name@,
    ensures
        r == leading_run(name@, unicode),
        r <= chars.len(),
{
    if unicode {
        match regex_find(UNICODE_RUN_PATTERN, name) {
            Some((start, end)) => {
                if start == 0 && end <= chars.len() {
                    end
                } else {
                    0
                }
            },
            None => 0,
        }
    } else {
        let mut j: usize = 0;
        while j < chars.len() && ((chars[j] >= '0' && chars[j] <= '9') || (chars[j] >= 'a'
            && chars[j] <= 'z'))
            invariant
                j <= chars.len(),
                forall|i: int| 0 <= i < j ==> plain_id_char(#[trigger] chars@[i]),
            decreases chars.len() - j,
        {
            j += 1;
        }
        proof {
            lemma_plain_run_is(chars@, j as int);
        }
        j
    }
}

/// The identifier `k` sibling steps after `parts`.
pub open spec fn sibling_at(parts: Seq<Part>, k: nat) -> Result<Seq<Part>, Failure>
    decreases k,
{
    if k == 0 {
        Ok(parts)
    } else {
        match sibling_at(parts, (k - 1) as nat) {
            Ok(p) => sibling_after(p),
            Err(f) => Err(f),
        }
    }
}

/// The checker can be asked about any text.
pub open spec fn always_answers<F: Fn(&str) -> bool>(f: F) -> bool {
    forall|s: &str| call_requires(f, (s,))
}

/// The checker `f` was asked about `text` and said `answer`.
pub open spec fn said<F: Fn(&str) -> bool>(f: F, text: Seq<char>, answer: bool) -> bool {
    exists|s: &str| s@ == text && #[trigger] call_ensures(f, (s,), answer)
}

/// The checker `f` said of each of the first `count` identifiers of the
/// sibling sequence that begins with `first` that it exists.
pub open spec fn all_taken<F: Fn(&str) -> bool>(f: F, first: Seq<Part>, count: nat) -> bool {
    forall|j: nat|
        j < count ==> ((#[trigger] sibling_at(first, j)) matches Ok(p) && said(
            f,
            render(p),
            true,
        ))
}

/// `r` is what a search along the sibling sequence from `first` on gives
/// under the checker `f`: the first identifier that the checker did not
/// report as existing, every one before it having been reported so; or the
/// overflow that ended the sequence before such an identifier was found.
pub open spec fn searched<F: Fn(&str) -> bool>(
    f: F,
    first: Seq<Part>,
    r: Result<Seq<Part>, Failure>,
) -> bool {
    exists|k: nat| #[trigger]
        all_taken(f, first, k) && match r {
            Ok(parts) => sibling_at(first, k) == Ok::<Seq<Part>, Failure>(parts) && said(
                f,
                render(parts),
                false,
            ),
            Err(e) => sibling_at(first, k) == Err::<Seq<Part>, Failure>(e),
        }
}

/// The checker `f` never gives two answers about one text.
pub open spec fn consistent<F: Fn(&str) -> bool>(f: F) -> bool {
    forall|text: Seq<char>| !(said(f, text, true) && said(f, text, false))
}

/// Under a checker that never gives two answers about one text, a search
/// has one outcome only: the first identifier of the sequence that does
/// not exist.
pub proof fn lemma_search_is_determined<F: Fn(&str) -> bool>(
    f: F,
    first: Seq<Part>,
    a: Result<Seq<Part>, Failure>,
    b: Result<Seq<Part>, Failure>,
)
    requires
        consistent(f),
        searched(f, first, a),
        searched(f, first, b),
    ensures
        a == b,
{
    let i = choose|k: nat| #[trigger]
        all_taken(f, first, k) && match a {
            Ok(parts) => sibling_at(first, k) == Ok::<Seq<Part>, Failure>(parts) && said(
                f,
                render(parts),
                false,
            ),
            Err(e) => sibling_at(first, k) == Err::<Seq<Part>, Failure>(e),
        };
    let j = choose|k: nat| #[trigger]
        all_taken(f, first, k) && match b {
            Ok(parts) => sibling_at(first, k) == Ok::<Seq<Part>, Failure>(parts) && said(
                f,
                render(parts),
                false,
            ),
            Err(e) => sibling_at(first, k) == Err::<Seq<Part>, Failure>(e),
        };
    if i < j {
        assert(sibling_at(first, i) matches Ok(p) && said(f, render(p), true));
    } else if j < i {
        assert(sibling_at(first, j) matches Ok(p) && said(f, render(p), true));
    }
}

/// One step of a search for an identifier that is not in use.
#[derive(Debug)]
pub enum SearchStep {
    /// The candidate is free: the search ends with it.
    Found(Id),
    /// The candidate is taken: its next sibling is to be tried.
    Retry(Id),
}

/// Decides how a search goes on once the checker has answered for a
/// candidate: a candidate that is not taken is the result; for one that is
/// taken the next sibling is tried, and where there is none the search ends
/// with the overflow.
pub fn search_step(candidate: Id, taken: bool) -> (r: Result<SearchStep, IdError>)
    ensures
        match r {
            Ok(SearchStep::Found(id)) => !taken && id@ == candidate@,
            Ok(SearchStep::Retry(id)) => taken && sibling_after(candidate@) == Ok::<
                Seq<Part>,
                Failure,
            >(id@) && valid_id(id@) && is_sibling(candidate@, id@) && 0 <= steps_left(id@)
                < steps_left(candidate@),
            Err(e) => taken && sibling_after(candidate@) == Err::<Seq<Part>, Failure>(e@),
        },
{
    if !taken {
        return Ok(SearchStep::Found(candidate));
    }
    match candidate.next_sibling() {
        Ok(next) => Ok(SearchStep::Retry(next)),
        Err(e) => Err(e),
    }
}

/// Finds identifiers in file names and generates identifiers that are not
/// in use, by asking a checker whether an identifier exists.
pub struct IdManager<F> {
    config: IdConfig,
    existence_checker: F,
}

impl<F: Fn(&str) -> bool> IdManager<F> {
    /// The checker that says whether an identifier exists.
    pub closed spec fn checker(self) -> F {
        self.existence_checker
    }

    /// The configuration of the manager.
    pub closed spec fn settings(self) -> IdConfig {
        self.config
    }

    /// A manager with a configuration and a checker.
    pub fn new(config: IdConfig, existence_checker: F) -> (r: Self)
        ensures
            r.checker() == existence_checker,
            r.settings() == config,
    {
        IdManager { config, existence_checker }
    }

    /// The patterns of the configured matching rule, in the order in which
    /// they are tried.
    pub fn get_filename_patterns(&self) -> (r: Vec<FilenamePattern>)
        ensures
            r@ == patterns_for(self.settings().match_rule@),
    {
        let rule = self.config.match_rule.as_str();
        let mut patterns: Vec<FilenamePattern> = Vec::new();
        if text_eq(rule, MATCH_RULE_SEPARATOR) {
            patterns.push(FilenamePattern::BeforeSeparator);
        } else if text_eq(rule, MATCH_RULE_FUZZY) {
            patterns.push(FilenamePattern::BeforeBoundary);
            patterns.push(FilenamePattern::Exact);
        } else {
            patterns.push(FilenamePattern::Exact);
        }
        patterns
    }

    /// Reads a text as an identifier.
    pub fn validate_id(&self, id_str: &str) -> (r: Result<Id, IdError>)
        ensures
            outcome(r) == parse_spec(id_str@),
            r matches Ok(id) ==> valid_id(id@),
    {
        Id::parse(id_str)
    }

    /// Asks the checker whether an identifier exists.
    pub fn id_exists(&self, id: &Id) -> (r: bool)
        requires
            always_answers(self.checker()),
        ensures
            said(self.checker(), render(id@), r),
    {
        let text = id.to_string();
        (self.existence_checker)(text.as_str())
    }
    /// Finds the identifier in a file name, under the configured matching
    /// rule. The leading run of identifier characters is the candidate; the
    /// patterns of the rule are tried in order, and the first one that
    /// accepts the name and whose candidate reads as an identifier gives
    /// the result. A name without a match is no error.
    pub fn extract_from_filename(&self, filename: &str) -> (r: Option<Id>)
        ensures
            match r {
                Some(id) => extract_spec(filename@, self.settings()) == Some(id@) && valid_id(id@),
                None => extract_spec(filename@, self.settings()) is None,
            },
    {
        let chars = chars_of(filename);
        let run: usize = leading_run_length(filename, &chars, self.config.allow_unicode);
        if run == 0 {
            return None;
        }
        let separator = chars_of(self.config.separator.as_str());
        let patterns = self.get_filename_patterns();
        let candidate = string_of_range(&chars, 0, run);
        assert(candidate@ == filename@.take(run as int));
        proof {
            lemma_rule_patterns(
                self.config.match_rule@,
                filename@,
                run as nat,
                self.config.separator@,
            );
        }
        let mut i: usize = 0;
        while i < patterns.len()
            invariant
                i <= patterns.len(),
                chars@ == filename@,
                separator@ == self.config.separator@,
                0 < run <= chars.len(),
                run == leading_run(filename@, self.config.allow_unicode),
                candidate@ == filename@.take(run as int),
                patterns@ == patterns_for(self.config.match_rule@),
                forall|j: int|
                    0 <= j < i ==> !(pattern_accepts(
                        #[trigger] patterns@[j],
                        filename@,
                        run as nat,
                        separator@,
                    ) && parse_spec(candidate@) is Ok),
            decreases patterns.len() - i,
        {
            let accepted: bool = match patterns[i] {
                FilenamePattern::Exact => run == chars.len(),
                FilenamePattern::BeforeSeparator => has_prefix_at(&chars, run, &separator),
                FilenamePattern::BeforeBoundary => run < chars.len(),
            };
            if accepted {
                match Id::parse(candidate.as_str()) {
                    Ok(id) => {
                        proof {
                            assert(pattern_accepts(
                                patterns_for(self.config.match_rule@)[i as int],
                                filename@,
                                run as nat,
                                self.config.separator@,
                            ));
                            lemma_rule_patterns(
                                self.config.match_rule@,
                                filename@,
                                run as nat,
                                self.config.separator@,
                            );
                        }
                        return Some(id);
                    },
                    Err(_) => {},
                }
            }
            i += 1;
        }
        None
    }

    /// The position of the first of `filenames` that holds the identifier
    /// `id`, if there is one.
    pub fn find_file(&self, filenames: &Vec<String>, id: &Id) -> (r: Option<usize>)
        ensures
            match r {
                Some(i) => i < filenames@.len() && extract_spec(
                    filenames@[i as int]@,
                    self.settings(),
                ) == Some(id@) && forall|j: int|
                    0 <= j < i ==> extract_spec(#[trigger] filenames@[j]@, self.settings())
                        != Some(id@),
                None => forall|j: int|
                    0 <= j < filenames@.len() ==> extract_spec(
                        #[trigger] filenames@[j]@,
                        self.settings(),
                    ) != Some(id@),
            },
    {
        let mut i: usize = 0;
        while i < filenames.len()
            invariant
                i <= filenames.len(),
                forall|j: int|
                    0 <= j < i ==> extract_spec(#[trigger] filenames@[j]@, self.settings())
                        != Some(id@),
            decreases filenames.len() - i,
        {
            match self.extract_from_filename(filenames[i].as_str()) {
                Some(found) => {
                    if found.same_as(id) {
                        return Some(i);
                    }
                },
                None => {},
            }
            i += 1;
        }
        None
    }

    /// Walks the sibling sequence from `first` on and returns the first
    /// identifier that the checker does not report as existing.
    fn first_free(&self, first: Id) -> (r: Result<Id, IdError>)
        requires
            always_answers(self.checker()),
            valid_id(first@),
        ensures
            searched(self.checker(), first@, outcome(r)),
            r matches Ok(id) ==> valid_id(id@) && is_sibling(first@, id@),
    {
        let ghost start = first@;
        let ghost mut k: nat = 0;
        let mut candidate = first;
        loop
            invariant
                always_answers(self.checker()),
                start == first@,
                valid_id(candidate@),
                is_sibling(start, candidate@),
                sibling_at(start, k) == Ok::<Seq<Part>, Failure>(candidate@),
                all_taken(self.checker(), start, k),
            decreases steps_left(candidate@),
        {
            let taken = self.id_exists(&candidate);
            let ghost asked = candidate@;
            match search_step(candidate, taken) {
                Ok(SearchStep::Found(id)) => {
                    assert(all_taken(self.checker(), start, k) && sibling_at(start, k) == Ok::<
                        Seq<Part>,
                        Failure,
                    >(id@) && said(self.checker(), render(id@), false));
                    return Ok(id);
                },
                Ok(SearchStep::Retry(next)) => {
                    proof {
                        assert(sibling_at(start, k + 1) == sibling_after(asked));
                        k = k + 1;
                    }
                    candidate = next;
                },
                Err(e) => {
                    proof {
                        assert(sibling_at(start, k + 1) == sibling_after(asked));
                        assert(all_taken(self.checker(), start, k + 1) && sibling_at(start, k + 1)
                            == Err::<Seq<Part>, Failure>(e@));
                    }
                    return Err(e);
                },
            }
        }
    }

    /// The next sibling of `current_id` that is not in use: the siblings
    /// after it are tried in order, and the first one that the checker does
    /// not report as existing is returned. An overflow of the sequence
    /// before such a sibling is found is an error.
    pub fn next_available_sibling(&self, current_id: &Id) -> (r: Result<Id, IdError>)
        requires
            always_answers(self.checker()),
        ensures
            match sibling_after(current_id@) {
                Ok(first) => searched(self.checker(), first, outcome(r)),
                Err(f) => outcome(r) == Err::<Seq<Part>, Failure>(f),
            },
            r matches Ok(id) ==> valid_id(id@) && is_sibling(current_id@, id@),
    {
        match current_id.next_sibling() {
            Ok(first) => self.first_free(first),
            Err(e) => Err(e),
        }
    }

    /// The first child of `parent_id` that is not in use: the first child
    /// and its siblings are tried in order, and the first one that the
    /// checker does not report as existing is returned. An overflow of the
    /// sequence before such a child is found is an error.
    pub fn next_available_child(&self, parent_id: &Id) -> (r: Result<Id, IdError>)
        requires
            always_answers(self.checker()),
        ensures
            searched(self.checker(), child_of(parent_id@), outcome(r)),
            r matches Ok(id) ==> valid_id(id@) && id@.drop_last() == parent_id@,
    {
        let first = parent_id.first_child();
        proof {
            crate::id::lemma_child_valid(parent_id@);
        }
        let r = self.first_free(first);
        proof {
            if let Ok(id) = &r {
                assert(id@.drop_last() == id@.take(id@.len() - 1));
                assert(child_of(parent_id@).take(child_of(parent_id@).len() - 1) == parent_id@);
            }
        }
        r
    }
}

} // verus!
