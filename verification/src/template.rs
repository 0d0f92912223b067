//! Templates for new notes: which placeholders a template holds, whether
//! the required ones are there, and the content of a note made from a
//! template or without one.

use vstd::prelude::*;
use vstd::hash_map::StringHashMap;
use vstd::string::StringExecFns;
use crate::config::TemplateConfig;
use crate::pattern::{all_matches, regex_find_all, spans_of};
use crate::text::{blank, chars_of, holds, is_blank, join, join_spec, replace_all, replace_spec,
    string_of_range, text_eq, texts_of, trim_spec, trim_start_spec, trimmed, trimmed_start};

verus! {

/// The regular expression of a placeholder: a name of word characters
/// between two pairs of braces.
pub const PLACEHOLDER_PATTERN: &'static str = "\\{\\{(\\w+)\\}\\}";

/// The name of the placeholder for the title of the note.
pub const TITLE: &'static str = "title";

/// The name of the placeholder for the link to the parent note.
pub const LINK: &'static str = "link";

/// The placeholder for the title, as it stands in a template.
pub const TITLE_PLACEHOLDER: &'static str = "{{title}}";

/// The placeholder for the link, as it stands in a template.
pub const LINK_PLACEHOLDER: &'static str = "{{link}}";

/// What the message about missing placeholders says before their names.
pub const MISSING_MESSAGE_HEAD: &'static str = "Template missing required placeholder(s): {{";

/// What stands between two names in the message about missing placeholders.
pub const MISSING_MESSAGE_BETWEEN: &'static str = "}}, {{";

/// What the message about missing placeholders says after their names.
pub const MISSING_MESSAGE_TAIL: &'static str = "}}";

/// What a heading begins with.
pub const HEADING_MARK: &'static str = "# ";

/// An empty line between two paragraphs.
pub const PARAGRAPH_BREAK: &'static str = "\n\n";

/// What stands between a directory and a file in a path.
pub const PATH_SEPARATOR: &'static str = "/";

/// The complaint about a directory of templates without a default template.
pub const NO_DEFAULT_TEMPLATE: &'static str =
    "Template directory specified but no default template name provided";

/// The complaint about a configuration that names no template.
pub const NO_TEMPLATE: &'static str = "No template file or directory specified";

/// What can go wrong with templates.
#[derive(Debug, Clone, PartialEq)]
pub enum TemplateError {
    /// The template did not pass validation.
    ValidationError(String),
    /// A required placeholder is missing.
    MissingPlaceholder(String),
    /// The configuration of the templates makes no sense.
    ConfigError(String),
    /// The template could not be processed.
    ProcessingError(String),
}

/// What the validation of a template found.
#[derive(Debug, Clone, PartialEq)]
pub struct ValidationResult {
    /// Whether the template passed.
    pub valid: bool,
    /// What is wrong, if the template did not pass.
    pub message: Option<String>,
    /// The required placeholders that are missing.
    pub missing_placeholders: Vec<String>,
    /// The placeholders that were found.
    pub found_placeholders: Vec<String>,
}

impl ValidationResult {
    /// The result of a validation that passed.
    pub fn success(found_placeholders: Vec<String>) -> (r: Self)
        ensures
            r.valid,
            r.message is None,
            r.missing_placeholders@.len() == 0,
            r.found_placeholders == found_placeholders,
    {
        ValidationResult {
            valid: true,
            message: None,
            missing_placeholders: Vec::new(),
            found_placeholders,
        }
    }

    /// The result of a validation that failed.
    pub fn failure(message: String, missing: Vec<String>, found: Vec<String>) -> (r: Self)
        ensures
            !r.valid,
            r.message == Some(message),
            r.missing_placeholders == missing,
            r.found_placeholders == found,
    {
        ValidationResult {
            valid: false,
            message: Some(message),
            missing_placeholders: missing,
            found_placeholders: found,
        }
    }
}

/// The name between the braces of a placeholder that spans `span` in
/// `text`, where the span is long enough to hold the braces.
pub open spec fn span_name(text: Seq<char>, span: (nat, nat)) -> Option<Seq<char>> {
    if span.0 + 4 <= span.1 <= text.len() {
        Some(text.subrange(span.0 as int + 2, span.1 as int - 2))
    } else {
        None
    }
}

/// The names of the placeholders at `spans`, each once, in the order of
/// their first occurrence.
pub open spec fn distinct_names(text: Seq<char>, spans: Seq<(nat, nat)>) -> Seq<Seq<char>>
    decreases spans.len(),
{
    if spans.len() == 0 {
        Seq::empty()
    } else {
        let before = distinct_names(text, spans.drop_last());
        match span_name(text, spans.last()) {
            Some(name) => if before.contains(name) {
                before
            } else {
                before.push(name)
            },
            None => before,
        }
    }
}

/// The names of the placeholders of a template, each once, in the order of
/// their first occurrence.
pub open spec fn placeholders(content: Seq<char>) -> Seq<Seq<char>> {
    distinct_names(content, all_matches(PLACEHOLDER_PATTERN@, content))
}

/// The required placeholders that are not among `found`: the title first,
/// then the link.
pub open spec fn missing(found: Seq<Seq<char>>, config: TemplateConfig) -> Seq<Seq<char>> {
    (if config.require_title && !found.contains(TITLE@) {
        seq![TITLE@]
    } else {
        Seq::<Seq<char>>::empty()
    }) + (if config.require_link && !found.contains(LINK@) {
        seq![LINK@]
    } else {
        Seq::<Seq<char>>::empty()
    })
}

/// The message that names the missing placeholders, each between braces.
pub open spec fn missing_message(names: Seq<Seq<char>>) -> Seq<char> {
    MISSING_MESSAGE_HEAD@ + join_spec(names, MISSING_MESSAGE_BETWEEN@) + MISSING_MESSAGE_TAIL@
}

/// `result` is the outcome of a validation that found the placeholders
/// `found`, under the requirements of `config`.
pub open spec fn validated(
    found: Seq<Seq<char>>,
    config: TemplateConfig,
    result: ValidationResult,
) -> bool {
    &&& texts_of(result.found_placeholders@) =~= found
    &&& texts_of(result.missing_placeholders@) =~= missing(found, config)
    &&& result.valid == (missing(found, config).len() == 0)
    &&& match result.message {
        Some(m) => !result.valid && m@ == missing_message(missing(found, config)),
        None => result.valid,
    }
}

/// The content of a note made from `template`: every title placeholder
/// replaced by the title, then every link placeholder by the link.
pub open spec fn substituted(template: Seq<char>, title: Seq<char>, backlink: Seq<char>) -> Seq<
    char,
> {
    replace_spec(replace_spec(template, TITLE_PLACEHOLDER@, title), LINK_PLACEHOLDER@, backlink)
}

/// The content of a note made without a template: the title as a heading,
/// unless it is blank, and after an empty line the link, unless it is blank.
pub open spec fn builtin_content(title: Seq<char>, backlink: Seq<char>) -> Seq<char> {
    let heading = if is_blank(title) {
        Seq::<char>::empty()
    } else {
        HEADING_MARK@ + trim_start_spec(title)
    };
    if is_blank(backlink) {
        heading
    } else if heading.len() == 0 {
        backlink
    } else {
        heading + PARAGRAPH_BREAK@ + backlink
    }
}

/// The path of the template that a configuration names: the file, where
/// one is given; else the default template in the directory, where a
/// directory is given; and an error where neither is given or the default
/// template has no name. White space around each setting does not count.
pub open spec fn template_path(config: TemplateConfig) -> Result<Seq<char>, Seq<char>> {
    if !is_blank(config.file@) {
        Ok(trim_spec(config.file@))
    } else if !is_blank(config.directory@) {
        if is_blank(config.default_template@) {
            Err(NO_DEFAULT_TEMPLATE@)
        } else {
            Ok(trim_spec(config.directory@) + PATH_SEPARATOR@ + trim_spec(config.default_template@))
        }
    } else {
        Err(NO_TEMPLATE@)
    }
}

/// The rules of templates.
pub struct TemplateService;

impl TemplateService {
    /// Whether notes are made from a template: templates are enabled and a
    /// template file is named.
    pub fn should_use_template(config: &TemplateConfig) -> (r: bool)
        ensures
            r == (config.enabled && !is_blank(config.file@)),
    {
        config.enabled && !blank(config.file.as_str())
    }

    /// Checks that a template holds the placeholders that the configuration
    /// requires.
    pub fn validate_template(content: &str, config: &TemplateConfig) -> (r: ValidationResult)
        ensures
            validated(placeholders(content@), *config, r),
    {
        let found = Self::extract_placeholders(content);
        Self::check_placeholders(found, config)
    }

    /// Decides the outcome of a validation from the placeholders that were
    /// found: the template passes when no required placeholder is missing.
    pub fn check_placeholders(found: Vec<String>, config: &TemplateConfig) -> (r:
        ValidationResult)
        ensures
            validated(texts_of(found@), *config, r),
    {
        let mut missing_placeholders: Vec<String> = Vec::new();
        if config.require_title && !holds(&found, TITLE) {
            missing_placeholders.push(String::from_str(TITLE));
        }
        let ghost first = texts_of(missing_placeholders@);
        if config.require_link && !holds(&found, LINK) {
            missing_placeholders.push(String::from_str(LINK));
            assert(texts_of(missing_placeholders@) == first.push(LINK@));
        }
        assert(texts_of(missing_placeholders@) =~= missing(texts_of(found@), *config));
        if missing_placeholders.len() == 0 {
            ValidationResult::success(found)
        } else {
            let mut message = String::from_str(MISSING_MESSAGE_HEAD);
            let names = join(&missing_placeholders, MISSING_MESSAGE_BETWEEN);
            message.append(names.as_str());
            message.append(MISSING_MESSAGE_TAIL);
            ValidationResult::failure(message, missing_placeholders, found)
        }
    }

    /// The names of the placeholders of a template, each once, in the
    /// order of their first occurrence.
    pub fn extract_placeholders(content: &str) -> (r: Vec<String>)
        ensures
            texts_of(r@) == placeholders(content@),
    {
        let chars = chars_of(content);
        let spans = regex_find_all(PLACEHOLDER_PATTERN, content);
        let ghost all = all_matches(PLACEHOLDER_PATTERN@, content@);
        let mut names: Vec<String> = Vec::new();
        let mut i: usize = 0;
        assert(all.take(0).len() == 0);
        assert(texts_of(names@) =~= Seq::<Seq<char>>::empty());
        while i < spans.len()
            invariant
                i <= spans.len(),
                chars@ == content@,
                spans_of(spans@) == all,
                texts_of(names@) == distinct_names(content@, all.take(i as int)),
            decreases spans.len() - i,
        {
            let start: usize = spans[i].0;
            let end: usize = spans[i].1;
            proof {
                let next = all.take(i + 1);
                assert(next.drop_last() == all.take(i as int));
                assert(next.last() == all[i as int]);
                assert(all[i as int] == spans_of(spans@)[i as int]);
            }
            if end >= 4 && start <= end - 4 && end <= chars.len() {
                let name = string_of_range(&chars, start + 2, end - 2);
                if !holds(&names, name.as_str()) {
                    let ghost before = texts_of(names@);
                    names.push(name);
                    assert(texts_of(names@) == before.push(name@));
                }
            }
            i += 1;
        }
        assert(all.take(spans.len() as int) == all);
        names
    }

    /// The content of a new note: made from the template where one is
    /// given, else in the built-in form.
    pub fn generate_content(template_content: Option<&str>, title: &str, backlink_content: &str)
        -> (r: String)
        ensures
            r@ == (match template_content {
                Some(template) => substituted(template@, title@, backlink_content@),
                None => builtin_content(title@, backlink_content@),
            }),
    {
        match template_content {
            Some(template) => Self::substitute_placeholders(template, title, backlink_content),
            None => Self::generate_builtin_content(title, backlink_content),
        }
    }

    /// Replaces the title and link placeholders of a template; other
    /// placeholders stay as they are.
    pub fn substitute_placeholders(template: &str, title: &str, backlink: &str) -> (r: String)
        ensures
            r@ == substituted(template@, title@, backlink@),
    {
        let with_title = replace_all(template, TITLE_PLACEHOLDER, title);
        replace_all(with_title.as_str(), LINK_PLACEHOLDER, backlink)
    }

    /// The built-in form of a note: a heading with the title, an empty
    /// line, the link to the parent.
    pub fn generate_builtin_content(title: &str, backlink: &str) -> (r: String)
        ensures
            r@ == builtin_content(title@, backlink@),
    {
        let mut content = String::new();
        let mut has_heading: bool = false;
        if !blank(title) {
            content.append(HEADING_MARK);
            let rest = trimmed_start(title);
            content.append(rest.as_str());
            has_heading = true;
            proof {
                reveal_strlit("# ");
                assert(content@.len() > 0);
            }
        }
        if !blank(backlink) {
            if has_heading {
                content.append(PARAGRAPH_BREAK);
            } else {
                assert(content@ + backlink@ == backlink@);
            }
            content.append(backlink);
        }
        content
    }

    /// The path of the template file that the configuration names.
    pub fn resolve_template_path(config: &TemplateConfig) -> (r: Result<String, TemplateError>)
        ensures
            match r {
                Ok(path) => template_path(*config) == Ok::<Seq<char>, Seq<char>>(path@),
                Err(e) => e matches TemplateError::ConfigError(m) && template_path(*config)
                    == Err::<Seq<char>, Seq<char>>(m@),
            },
    {
        if !blank(config.file.as_str()) {
            Ok(trimmed(config.file.as_str()))
        } else if !blank(config.directory.as_str()) {
            if blank(config.default_template.as_str()) {
                return Err(TemplateError::ConfigError(String::from_str(NO_DEFAULT_TEMPLATE)));
            }
            let mut path = trimmed(config.directory.as_str());
            let name = trimmed(config.default_template.as_str());
            path.append(PATH_SEPARATOR);
            path.append(name.as_str());
            Ok(path)
        } else {
            Err(TemplateError::ConfigError(String::from_str(NO_TEMPLATE)))
        }
    }
    /// The values of the placeholders by name: the title under `title`, the
    /// link under `link`.
    pub fn create_template_context(title: &str, backlink: &str) -> (r: StringHashMap<String>)
        ensures
            r@.dom() =~= set![TITLE@, LINK@],
            r@[TITLE@]@ == title@,
            r@[LINK@]@ == backlink@,
    {
        let mut context: StringHashMap<String> = StringHashMap::new();
        context.insert(String::from_str(TITLE), String::from_str(title));
        context.insert(String::from_str(LINK), String::from_str(backlink));
        proof {
            reveal_strlit("title");
            reveal_strlit("link");
            assert(TITLE@.len() != LINK@.len());
        }
        context
    }
}

/// A plain template: title, link, and room for notes.
pub const BASIC_TEMPLATE: &'static str = "# {{title}}\n\
\n\
{{link}}\n\
\n\
## Notes\n\
\n\
";

/// A template for notes on a source.
pub const ACADEMIC_TEMPLATE: &'static str = "# {{title}}\n\
\n\
**Source:** {{link}}\n\
\n\
## Summary\n\
\n\
## Key Points\n\
\n\
- \n\
\n\
## Questions\n\
\n\
- \n\
\n\
## Related Ideas\n\
\n\
- \n\
\n\
## References\n\
\n\
";

/// A template for the notes of a meeting.
pub const MEETING_TEMPLATE: &'static str = "# Meeting: {{title}}\n\
\n\
**Previous Meeting:** {{link}}\n\
\n\
**Date:** \n\
**Attendees:** \n\
\n\
## Agenda\n\
\n\
- \n\
\n\
## Discussion Notes\n\
\n\
## Decisions Made\n\
\n\
- \n\
\n\
## Action Items\n\
\n\
- [ ] \n\
\n\
## Next Meeting\n\
\n\
**Date:** \n\
**Topics:** \n\
\n\
";

/// A template for the notes of a day.
pub const DAILY_TEMPLATE: &'static str = "# {{title}}\n\
\n\
{{link}}\n\
\n\
## Today's Focus\n\
\n\
- \n\
\n\
## Notes\n\
\n\
## Completed\n\
\n\
- [ ] \n\
\n\
## Tomorrow\n\
\n\
- \n\
\n\
";

/// The name of the plain example template.
pub const KIND_BASIC: &'static str = "basic";

/// The name of the example template for notes on a source.
pub const KIND_ACADEMIC: &'static str = "academic";

/// The name of the example template for meetings.
pub const KIND_MEETING: &'static str = "meeting";

/// The name of the example template for a day.
pub const KIND_DAILY: &'static str = "daily";

/// The example template of a kind, for the four kinds that there are.
pub open spec fn example_spec(kind: Seq<char>) -> Option<Seq<char>> {
    if kind == KIND_BASIC@ {
        Some(BASIC_TEMPLATE@)
    } else if kind == KIND_ACADEMIC@ {
        Some(ACADEMIC_TEMPLATE@)
    } else if kind == KIND_MEETING@ {
        Some(MEETING_TEMPLATE@)
    } else if kind == KIND_DAILY@ {
        Some(DAILY_TEMPLATE@)
    } else {
        None
    }
}

/// The plain example template.
pub fn generate_basic_template() -> (r: String)
    ensures
        r@ == BASIC_TEMPLATE@,
{
    String::from_str(BASIC_TEMPLATE)
}

/// The example template for notes on a source.
pub fn generate_academic_template() -> (r: String)
    ensures
        r@ == ACADEMIC_TEMPLATE@,
{
    String::from_str(ACADEMIC_TEMPLATE)
}

/// The example template for meetings.
pub fn generate_meeting_template() -> (r: String)
    ensures
        r@ == MEETING_TEMPLATE@,
{
    String::from_str(MEETING_TEMPLATE)
}

/// The example template for a day.
pub fn generate_daily_template() -> (r: String)
    ensures
        r@ == DAILY_TEMPLATE@,
{
    String::from_str(DAILY_TEMPLATE)
}

/// The example template of the kind `kind`: `basic`, `academic`, `meeting`
/// or `daily`. There is none of any other kind.
pub fn example_template(kind: &str) -> (r: Option<String>)
    ensures
        match r {
            Some(t) => example_spec(kind@) == Some(t@),
            None => example_spec(kind@) is None,
        },
{
    if text_eq(kind, KIND_BASIC) {
        Some(generate_basic_template())
    } else if text_eq(kind, KIND_ACADEMIC) {
        Some(generate_academic_template())
    } else if text_eq(kind, KIND_MEETING) {
        Some(generate_meeting_template())
    } else if text_eq(kind, KIND_DAILY) {
        Some(generate_daily_template())
    } else {
        None
    }
}

/// The map from names to contents that a list of templates stands for; a
/// later entry wins over an earlier one of the same name.
pub open spec fn table(entries: Seq<(String, String)>) -> Map<Seq<char>, Seq<char>>
    decreases entries.len(),
{
    if entries.len() == 0 {
        Map::empty()
    } else {
        table(entries.drop_last()).insert(entries.last().0@, entries.last().1@)
    }
}

/// The names of the table are the names of the entries.
pub proof fn lemma_table_names(entries: Seq<(String, String)>, name: Seq<char>)
    ensures
        table(entries).contains_key(name) <==> exists|i: int|
            0 <= i < entries.len() && (#[trigger] entries[i]).0@ == name,
    decreases entries.len(),
{
    if entries.len() > 0 {
        let front = entries.drop_last();
        lemma_table_names(front, name);
        if table(entries).contains_key(name) {
            if entries.last().0@ == name {
                assert(entries[entries.len() - 1].0@ == name);
            } else {
                let i = choose|i: int| 0 <= i < front.len() && (#[trigger] front[i]).0@ == name;
                assert(entries[i].0@ == name);
            }
        }
        if exists|i: int| 0 <= i < entries.len() && (#[trigger] entries[i]).0@ == name {
            let i = choose|i: int| 0 <= i < entries.len() && (#[trigger] entries[i]).0@ == name;
            if i < front.len() {
                assert(front[i].0@ == name);
            }
        }
    }
}

/// The table holds, under a name, the content of the last entry of that
/// name.
pub proof fn lemma_table_last(entries: Seq<(String, String)>, i: int)
    requires
        0 <= i < entries.len(),
        forall|j: int| i < j < entries.len() ==> (#[trigger] entries[j]).0@ != entries[i].0@,
    ensures
        table(entries).contains_key(entries[i].0@),
        table(entries)[entries[i].0@] == entries[i].1@,
    decreases entries.len(),
{
    let front = entries.drop_last();
    if i < entries.len() - 1 {
        assert forall|j: int| i < j < front.len() implies (#[trigger] front[j]).0@
            != front[i].0@ by {
            assert(front[j] == entries[j]);
            assert(front[i] == entries[i]);
        }
        lemma_table_last(front, i);
        assert(front[i] == entries[i]);
        assert(entries[entries.len() - 1].0@ != entries[i].0@);
    }
}

/// A set of templates, each under its name.
pub struct TemplateManager {
    /// Every registration, in order; the last one of a name is the one
    /// that counts.
    templates: Vec<(String, String)>,
}

impl View for TemplateManager {
    type V = Map<Seq<char>, Seq<char>>;

    /// The content of each template, by name.
    closed spec fn view(&self) -> Map<Seq<char>, Seq<char>> {
        table(self.templates@)
    }
}

impl TemplateManager {
    /// A manager without templates.
    pub fn new() -> (r: Self)
        ensures
            r@ == Map::<Seq<char>, Seq<char>>::empty(),
    {
        TemplateManager { templates: Vec::new() }
    }

    /// Puts a template under a name; a template that was there under the
    /// same name is replaced.
    pub fn register_template(&mut self, name: String, content: String)
        ensures
            final(self)@ == old(self)@.insert(name@, content@),
    {
        let ghost before = self.templates@;
        self.templates.push((name, content));
        assert(self.templates@.drop_last() == before);
    }

    /// The template under a name, if there is one.
    pub fn get_template(&self, name: &str) -> (r: Option<&String>)
        ensures
            match r {
                Some(content) => self@.contains_key(name@) && self@[name@] == content@,
                None => !self@.contains_key(name@),
            },
    {
        let mut i: usize = self.templates.len();
        while i > 0
            invariant
                i <= self.templates.len(),
                forall|j: int|
                    i <= j < self.templates@.len() ==> (#[trigger] self.templates@[j]).0@ != name@,
            decreases i,
        {
            i -= 1;
            if text_eq(self.templates[i].0.as_str(), name) {
                proof {
                    lemma_table_last(self.templates@, i as int);
                }
                return Some(&self.templates[i].1);
            }
        }
        proof {
            lemma_table_names(self.templates@, name@);
        }
        None
    }

    /// The names of the templates, each once.
    pub fn list_templates(&self) -> (r: Vec<&String>)
        ensures
            forall|name: Seq<char>|
                self@.contains_key(name) <==> exists|i: int|
                    0 <= i < r@.len() && (#[trigger] r@[i])@ == name,
            forall|i: int, j: int|
                0 <= i < j < r@.len() ==> (#[trigger] r@[i])@ != (#[trigger] r@[j])@,
    {
        let mut names: Vec<&String> = Vec::new();
        let mut i: usize = 0;
        while i < self.templates.len()
            invariant
                i <= self.templates.len(),
                forall|k: int|
                    0 <= k < i ==> exists|j: int|
                        0 <= j < names@.len() && (#[trigger] names@[j])@ == (
                        #[trigger] self.templates@[k]).0@,
                forall|j: int|
                    0 <= j < names@.len() ==> exists|k: int|
                        0 <= k < i && (#[trigger] self.templates@[k]).0@ == (
                        #[trigger] names@[j])@,
                forall|a: int, b: int|
                    0 <= a < b < names@.len() ==> (#[trigger] names@[a])@ != (
                    #[trigger] names@[b])@,
            decreases self.templates.len() - i,
        {
            let name: &String = &self.templates[i].0;
            let mut known: bool = false;
            let mut j: usize = 0;
            while j < names.len() && !known
                invariant
                    j <= names.len(),
                    known ==> exists|t: int| 0 <= t < names@.len() && (#[trigger] names@[t])@
                        == name@,
                    !known ==> forall|t: int| 0 <= t < j ==> (#[trigger] names@[t])@ != name@,
                decreases names.len() - j + (if known { 0int } else { 1int }),
            {
                if text_eq(names[j].as_str(), name.as_str()) {
                    known = true;
                } else {
                    j += 1;
                }
            }
            if !known {
                let ghost before = names@;
                names.push(name);
                assert(forall|t: int| 0 <= t < before.len() ==> names@[t] == before[t]);
                assert(names@[before.len() as int]@ == self.templates@[i as int].0@);
            }
            i += 1;
        }
        proof {
            assert forall|name: Seq<char>|
                self@.contains_key(name) <==> exists|i: int|
                    0 <= i < names@.len() && (#[trigger] names@[i])@ == name by {
                lemma_table_names(self.templates@, name);
                if self@.contains_key(name) {
                    let k = choose|k: int|
                        0 <= k < self.templates@.len() && (#[trigger] self.templates@[k]).0@
                            == name;
                    let j = choose|j: int|
                        0 <= j < names@.len() && (#[trigger] names@[j])@ == (
                        #[trigger] self.templates@[k]).0@;
                    assert(names@[j]@ == name);
                }
                if exists|i: int| 0 <= i < names@.len() && (#[trigger] names@[i])@ == name {
                    let j = choose|j: int| 0 <= j < names@.len() && (#[trigger] names@[j])@ == name;
                    let k = choose|k: int|
                        0 <= k < self.templates@.len() && (#[trigger] self.templates@[k]).0@ == (
                        #[trigger] names@[j])@;
                    assert(self.templates@[k].0@ == name);
                }
            }
        }
        names
    }
}

} // verus!
