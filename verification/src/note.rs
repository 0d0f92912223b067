//! The text of notes: file names, links between notes, where a link goes
//! in an existing note, and the title of a note.

use vstd::prelude::*;
use vstd::string::StringExecFns;
use crate::config::{LinkingConfig, ZettelConfig};
use crate::text::{blank, chars_of, has_prefix_at, is_alnum, is_blank, join, join_spec, lines,
    lines_spec, replace_all, replace_spec, starts_with, string_of_range, text_eq, texts_of,
    trim_end_spec, trim_spec, trimmed, trimmed_end};

verus! {

/// What the file name of a note ends with.
pub const NOTE_EXTENSION: &'static str = ".md";

/// What a link begins with.
pub const LINK_OPEN: &'static str = "[[";

/// What a link ends with.
pub const LINK_CLOSE: &'static str = "]]";

/// What stands between the file name and the title in a link.
pub const LINK_BAR: &'static str = "|";

/// The mark for the identifier in a custom link format.
pub const ID_MARK: &'static str = "{id}";

/// The mark for the file name in a custom link format.
pub const FILENAME_MARK: &'static str = "{filename}";

/// The mark for the title in a custom link format.
pub const TITLE_MARK: &'static str = "{title}";

/// What a heading begins with.
pub const HEADING: &'static str = "# ";

/// The heading of the section for links.
pub const LINKS_HEADING: &'static str = "## Links";

/// A heading under which links are kept too.
pub const RELATED_HEADING: &'static str = "## Related";

/// A heading under which links are kept too.
pub const CHILDREN_HEADING: &'static str = "## Children";

/// The end of a line followed by an empty line.
pub const BLANK_LINE: &'static str = "\n\n";

/// The end of a line.
pub const LINE_FEED: &'static str = "\n";

/// The name of the insertion point after the title.
pub const AFTER_TITLE: &'static str = "after_title";

/// The name of the insertion point in the section for links.
pub const SECTION: &'static str = "section";

/// The file name of a note: the identifier, then separator and title where
/// there is a title and titles belong in file names, then the extension.
pub open spec fn filename_spec(
    id: Seq<char>,
    title: Option<Seq<char>>,
    add_title: bool,
    separator: Seq<char>,
) -> Seq<char> {
    match title {
        Some(t) => if add_title {
            id + separator + t + NOTE_EXTENSION@
        } else {
            id + NOTE_EXTENSION@
        },
        None => id + NOTE_EXTENSION@,
    }
}

/// The text of a link to a note. A custom format has its marks for the
/// identifier, the file name and the title replaced, in this order, the
/// file name standing in for a missing title. Without one the link is the
/// file name in double brackets, with the title after a bar where titles
/// are shown and there is one.
pub open spec fn link_spec(
    id: Seq<char>,
    filename: Seq<char>,
    title: Option<Seq<char>>,
    format: Option<Seq<char>>,
    use_title_alias: bool,
) -> Seq<char> {
    match format {
        Some(f) => replace_spec(
            replace_spec(replace_spec(f, ID_MARK@, id), FILENAME_MARK@, filename),
            TITLE_MARK@,
            match title {
                Some(t) => t,
                None => filename,
            },
        ),
        None => match title {
            Some(t) => if use_title_alias {
                LINK_OPEN@ + filename + LINK_BAR@ + t + LINK_CLOSE@
            } else {
                LINK_OPEN@ + filename + LINK_CLOSE@
            },
            None => LINK_OPEN@ + filename + LINK_CLOSE@,
        },
    }
}

/// `existing` with `addition` after it, an empty line between them; white
/// space at the end of `existing` goes, and a blank `existing` goes
/// altogether.
pub open spec fn at_end_spec(existing: Seq<char>, addition: Seq<char>) -> Seq<char> {
    if trim_end_spec(existing).len() == 0 {
        addition
    } else {
        trim_end_spec(existing) + BLANK_LINE@ + addition
    }
}

/// The position of the first line from `from` on that begins with one of
/// `marks`, or the number of lines where there is none.
pub open spec fn first_line_with(ls: Seq<Seq<char>>, marks: Seq<Seq<char>>, from: int) -> int
    decreases ls.len() - from,
{
    if from < 0 || from >= ls.len() {
        ls.len() as int
    } else if exists|m: int| 0 <= m < marks.len() && starts_with(ls[from], #[trigger] marks[m]) {
        from
    } else {
        first_line_with(ls, marks, from + 1)
    }
}

/// `existing` with `addition` after its first heading, an empty line
/// before and after it. Where there is no heading, `addition` comes first,
/// and `existing` follows after an empty line unless it is blank.
pub open spec fn after_title_spec(existing: Seq<char>, addition: Seq<char>) -> Seq<char> {
    let ls = lines_spec(existing);
    let i = first_line_with(ls, seq![HEADING@], 0);
    if i < ls.len() {
        join_spec(
            ls.take(i + 1) + seq![Seq::<char>::empty(), addition, Seq::<char>::empty()] + ls.skip(
                i + 1,
            ),
            LINE_FEED@,
        )
    } else if is_blank(existing) {
        addition
    } else {
        addition + BLANK_LINE@ + existing
    }
}

/// The headings under which links are kept.
pub open spec fn section_marks() -> Seq<Seq<char>> {
    seq![LINKS_HEADING@, RELATED_HEADING@, CHILDREN_HEADING@]
}

/// `existing` with `addition` under its first heading for links, an empty
/// line before it and, where more lines follow, after it. Where there is
/// no such heading, a new one is put at the end with `addition` under it,
/// if `create_section` is set; else `addition` goes to the end.
pub open spec fn in_section_spec(
    existing: Seq<char>,
    addition: Seq<char>,
    create_section: bool,
) -> Seq<char> {
    let ls = lines_spec(existing);
    let i = first_line_with(ls, section_marks(), 0);
    if i < ls.len() {
        if i + 1 < ls.len() {
            join_spec(
                ls.take(i + 1) + seq![Seq::<char>::empty(), addition, Seq::<char>::empty()]
                    + ls.skip(i + 1),
                LINE_FEED@,
            )
        } else {
            join_spec(ls.take(i + 1) + seq![Seq::<char>::empty(), addition], LINE_FEED@)
        }
    } else if create_section {
        if trim_end_spec(existing).len() == 0 {
            LINKS_HEADING@ + BLANK_LINE@ + addition
        } else {
            trim_end_spec(existing) + BLANK_LINE@ + LINKS_HEADING@ + BLANK_LINE@ + addition
        }
    } else {
        at_end_spec(existing, addition)
    }
}

/// `existing` with `addition` at the place that `insertion_point` names:
/// after the title, in the section for links, or, for any other name, at
/// the end.
pub open spec fn insert_spec(
    existing: Seq<char>,
    addition: Seq<char>,
    insertion_point: Seq<char>,
    create_section: bool,
) -> Seq<char> {
    if insertion_point == AFTER_TITLE@ {
        after_title_spec(existing, addition)
    } else if insertion_point == SECTION@ {
        in_section_spec(existing, addition, create_section)
    } else {
        at_end_spec(existing, addition)
    }
}

/// The title that one of the first `limit` lines from `from` on gives as a
/// heading, white space around it gone.
pub open spec fn heading_title(ls: Seq<Seq<char>>, from: int, limit: int) -> Option<Seq<char>>
    decreases ls.len() - from,
{
    if from < 0 || from >= ls.len() || from >= limit {
        None
    } else if starts_with(ls[from], HEADING@) {
        Some(trim_spec(ls[from].skip(HEADING@.len() as int)))
    } else {
        heading_title(ls, from + 1, limit)
    }
}

/// `s` without the characters at its start that are neither letters nor
/// numbers.
pub open spec fn skip_punctuation(s: Seq<char>) -> Seq<char>
    decreases s.len(),
{
    if s.len() > 0 && !is_alnum(s[0]) {
        skip_punctuation(s.skip(1))
    } else {
        s
    }
}

/// The title that a file name gives: what follows the identifier, from the
/// first letter or number on.
pub open spec fn filename_title(stem: Seq<char>, id: Seq<char>) -> Seq<char> {
    if starts_with(stem, id) {
        skip_punctuation(stem.skip(id.len() as int))
    } else {
        skip_punctuation(stem)
    }
}

/// The title of a note: the first heading among the first five lines of
/// its content, else what its file name gives.
pub open spec fn title_spec(content: Seq<char>, stem: Seq<char>, id: Seq<char>) -> Seq<char> {
    match heading_title(lines_spec(content), 0, 5) {
        Some(t) => t,
        None => filename_title(stem, id),
    }
}

/// Whether a file of the name `filename` is the note `id`: the name ends
/// with the extension of notes, and what stands before the extension is
/// the identifier, alone or followed by a character that is neither a
/// letter nor a number.
pub open spec fn names_note(filename: Seq<char>, id: Seq<char>) -> bool {
    let n = filename.len() - NOTE_EXTENSION@.len();
    &&& n >= 0
    &&& filename.skip(n) == NOTE_EXTENSION@
    &&& starts_with(filename.take(n), id)
    &&& (n == id.len() || !is_alnum(filename[id.len() as int]))
}

/// The file name of a new note.
pub fn generate_filename(id: &str, title: &Option<String>, config: &ZettelConfig) -> (r: String)
    ensures
        r@ == filename_spec(
            id@,
            match title {
                Some(t) => Some(t@),
                None => None,
            },
            config.note.add_title,
            config.id.separator@,
        ),
{
    let mut name = String::from_str(id);
    match title {
        Some(t) => {
            if config.note.add_title {
                name.append(config.id.separator.as_str());
                name.append(t.as_str());
            }
        },
        None => {},
    }
    name.append(NOTE_EXTENSION);
    name
}

/// The text of a link to the note `id` in the file `filename`.
pub fn generate_link_text(id: &str, filename: &str, title: Option<&str>, config: &LinkingConfig)
    -> (r: String)
    ensures
        r@ == link_spec(
            id@,
            filename@,
            match title {
                Some(t) => Some(t@),
                None => None,
            },
            match config.format {
                Some(f) => Some(f@),
                None => None,
            },
            config.use_title_alias,
        ),
{
    match &config.format {
        Some(format) => {
            let with_id = replace_all(format.as_str(), ID_MARK, id);
            let with_filename = replace_all(with_id.as_str(), FILENAME_MARK, filename);
            let shown: &str = match title {
                Some(t) => t,
                None => filename,
            };
            replace_all(with_filename.as_str(), TITLE_MARK, shown)
        },
        None => {
            let mut link = String::from_str(LINK_OPEN);
            link.append(filename);
            match title {
                Some(t) => {
                    if config.use_title_alias {
                        link.append(LINK_BAR);
                        link.append(t);
                    }
                },
                None => {},
            }
            link.append(LINK_CLOSE);
            link
        },
    }
}

/// Puts `new_content` at the end of `existing_content`.
pub fn insert_at_end(existing_content: &str, new_content: &str) -> (r: String)
    ensures
        r@ == at_end_spec(existing_content@, new_content@),
{
    let mut text = trimmed_end(existing_content);
    if text.as_str().unicode_len() == 0 {
        String::from_str(new_content)
    } else {
        text.append(BLANK_LINE);
        text.append(new_content);
        text
    }
}

/// Whether `line` begins with `mark`.
fn begins_with(line: &str, mark: &str) -> (r: bool)
    ensures
        r == starts_with(line@, mark@),
{
    let chars = chars_of(line);
    let prefix = chars_of(mark);
    assert(chars@.skip(0) == chars@);
    has_prefix_at(&chars, 0, &prefix)
}

/// The position of the first line that begins with one of `marks`.
fn find_line(ls: &Vec<String>, marks: &Vec<String>) -> (r: usize)
    ensures
        r == first_line_with(texts_of(ls@), texts_of(marks@), 0),
        r <= ls.len(),
{
    let mut i: usize = 0;
    while i < ls.len()
        invariant
            i <= ls.len(),
            first_line_with(texts_of(ls@), texts_of(marks@), 0) == first_line_with(
                texts_of(ls@),
                texts_of(marks@),
                i as int,
            ),
        decreases ls.len() - i,
    {
        let mut m: usize = 0;
        while m < marks.len()
            invariant
                m <= marks.len(),
                i < ls.len(),
                first_line_with(texts_of(ls@), texts_of(marks@), 0) == first_line_with(
                    texts_of(ls@),
                    texts_of(marks@),
                    i as int,
                ),
                forall|t: int|
                    0 <= t < m ==> !starts_with(
                        texts_of(ls@)[i as int],
                        #[trigger] texts_of(marks@)[t],
                    ),
            decreases marks.len() - m,
        {
            if begins_with(ls[i].as_str(), marks[m].as_str()) {
                assert(starts_with(texts_of(ls@)[i as int], texts_of(marks@)[m as int]));
                return i;
            }
            m += 1;
        }
        i += 1;
    }
    i
}

/// Appends copies of `source[from..]` to `out`.
fn append_lines(out: &mut Vec<String>, source: &Vec<String>, from: usize, to: usize)
    requires
        from <= to <= source.len(),
    ensures
        texts_of(final(out)@) == texts_of(old(out)@) + texts_of(source@).subrange(
            from as int,
            to as int,
        ),
{
    let ghost before = texts_of(out@);
    let mut i: usize = from;
    assert(before + texts_of(source@).subrange(from as int, from as int) == before);
    while i < to
        invariant
            from <= i <= to <= source.len(),
            texts_of(out@) == before + texts_of(source@).subrange(from as int, i as int),
        decreases to - i,
    {
        let ghost so_far = texts_of(out@);
        out.push(source[i].clone());
        assert(texts_of(out@) == so_far.push(source@[i as int]@));
        assert(texts_of(source@).subrange(from as int, i + 1) == texts_of(source@).subrange(
            from as int,
            i as int,
        ).push(source@[i as int]@));
        i += 1;
    }
}

/// The lines `ls` with an empty line and `addition` after line `at`, and,
/// where `gap` is set, an empty line before the lines that follow.
fn splice(ls: &Vec<String>, at: usize, addition: &str, gap: bool) -> (r: String)
    requires
        at < ls.len(),
    ensures
        r@ == join_spec(
            texts_of(ls@).take(at + 1) + (if gap {
                seq![Seq::<char>::empty(), addition@, Seq::<char>::empty()]
            } else {
                seq![Seq::<char>::empty(), addition@]
            }) + (if gap {
                texts_of(ls@).skip(at + 1)
            } else {
                Seq::<Seq<char>>::empty()
            }),
            LINE_FEED@,
        ),
{
    let mut out: Vec<String> = Vec::new();
    assert(texts_of(out@) =~= Seq::<Seq<char>>::empty());
    append_lines(&mut out, ls, 0, at + 1);
    let ghost head = texts_of(ls@).take(at + 1);
    assert(texts_of(out@) =~= head);
    out.push(String::new());
    assert(texts_of(out@) =~= head + seq![Seq::<char>::empty()]);
    out.push(String::from_str(addition));
    assert(texts_of(out@) =~= head + seq![Seq::<char>::empty(), addition@]);
    if gap {
        out.push(String::new());
        assert(texts_of(out@) =~= head + seq![Seq::<char>::empty(), addition@, Seq::<char>::empty()]);
        append_lines(&mut out, ls, at + 1, ls.len());
        assert(texts_of(ls@).skip(at + 1) == texts_of(ls@).subrange(at + 1, ls.len() as int));
    } else {
        assert(texts_of(out@) + Seq::<Seq<char>>::empty() == texts_of(out@));
    }
    join(&out, LINE_FEED)
}

/// Puts `new_content` after the first heading of `existing_content`.
pub fn insert_after_title(existing_content: &str, new_content: &str) -> (r: String)
    ensures
        r@ == after_title_spec(existing_content@, new_content@),
{
    let ls = lines(existing_content);
    let mut marks: Vec<String> = Vec::new();
    marks.push(String::from_str(HEADING));
    assert(texts_of(marks@) =~= seq![HEADING@]);
    let i = find_line(&ls, &marks);
    if i < ls.len() {
        splice(&ls, i, new_content, true)
    } else if blank(existing_content) {
        String::from_str(new_content)
    } else {
        let mut text = String::from_str(new_content);
        text.append(BLANK_LINE);
        text.append(existing_content);
        text
    }
}

/// Puts `new_content` under the heading for links of `existing_content`.
pub fn insert_in_links_section(existing_content: &str, new_content: &str, create_section: bool)
    -> (r: String)
    ensures
        r@ == in_section_spec(existing_content@, new_content@, create_section),
{
    let ls = lines(existing_content);
    let mut marks: Vec<String> = Vec::new();
    marks.push(String::from_str(LINKS_HEADING));
    marks.push(String::from_str(RELATED_HEADING));
    marks.push(String::from_str(CHILDREN_HEADING));
    assert(texts_of(marks@) =~= section_marks());
    let i = find_line(&ls, &marks);
    if i < ls.len() {
        let gap: bool = i + 1 < ls.len();
        let r = splice(&ls, i, new_content, gap);
        proof {
            let head = texts_of(ls@).take(i + 1);
            assert(head + seq![Seq::<char>::empty(), new_content@] + Seq::<Seq<char>>::empty()
                == head + seq![Seq::<char>::empty(), new_content@]);
        }
        r
    } else if create_section {
        let mut text = trimmed_end(existing_content);
        if text.as_str().unicode_len() == 0 {
            let mut section = String::from_str(LINKS_HEADING);
            section.append(BLANK_LINE);
            section.append(new_content);
            section
        } else {
            text.append(BLANK_LINE);
            text.append(LINKS_HEADING);
            text.append(BLANK_LINE);
            text.append(new_content);
            text
        }
    } else {
        insert_at_end(existing_content, new_content)
    }
}

/// Puts `content` into `existing_content` at the place that
/// `insertion_point` names.
pub fn insert_content(
    existing_content: &str,
    content: &str,
    insertion_point: &str,
    create_section: bool,
) -> (r: String)
    ensures
        r@ == insert_spec(existing_content@, content@, insertion_point@, create_section),
{
    if text_eq(insertion_point, AFTER_TITLE) {
        insert_after_title(existing_content, content)
    } else if text_eq(insertion_point, SECTION) {
        insert_in_links_section(existing_content, content, create_section)
    } else {
        insert_at_end(existing_content, content)
    }
}

/// What is left of `chars[from..]` from the first letter or number on.
fn from_first_alnum(chars: &Vec<char>, from: usize) -> (r: String)
    requires
        from <= chars.len(),
    ensures
        r@ == skip_punctuation(chars@.skip(from as int)),
{
    let mut k: usize = from;
    assert(chars@.skip(from as int).skip(0) == chars@.skip(from as int));
    while k < chars.len() && !chars[k].is_alphanumeric()
        invariant
            from <= k <= chars.len(),
            skip_punctuation(chars@.skip(from as int)) == skip_punctuation(chars@.skip(k as int)),
        decreases chars.len() - k,
    {
        assert(chars@.skip(k as int)[0] == chars@[k as int]);
        assert(chars@.skip(k as int).skip(1) == chars@.skip(k + 1));
        k += 1;
    }
    proof {
        if k < chars.len() {
            assert(chars@.skip(k as int)[0] == chars@[k as int]);
        }
        assert(chars@.skip(k as int) == chars@.subrange(k as int, chars.len() as int));
    }
    string_of_range(chars, k, chars.len())
}

/// The title of a note, from its content and the name of its file without
/// the extension; `id` is the identifier that the file name holds, or
/// empty.
pub fn note_title(content: &str, stem: &str, id: &str) -> (r: String)
    ensures
        r@ == title_spec(content@, stem@, id@),
{
    let ls = lines(content);
    let mark = chars_of(HEADING);
    let mut i: usize = 0;
    while i < ls.len() && i < 5
        invariant
            i <= ls.len(),
            mark@ == HEADING@,
            texts_of(ls@) == lines_spec(content@),
            heading_title(texts_of(ls@), 0, 5) == heading_title(texts_of(ls@), i as int, 5),
        decreases ls.len() - i,
    {
        let line = chars_of(ls[i].as_str());
        assert(line@.skip(0) == line@);
        assert(texts_of(ls@)[i as int] == line@);
        if has_prefix_at(&line, 0, &mark) {
            let rest = string_of_range(&line, mark.len(), line.len());
            assert(line@.skip(mark.len() as int) == line@.subrange(
                mark.len() as int,
                line.len() as int,
            ));
            return trimmed(rest.as_str());
        }
        i += 1;
    }
    let name = chars_of(stem);
    let prefix = chars_of(id);
    assert(name@.skip(0) == name@);
    if has_prefix_at(&name, 0, &prefix) {
        from_first_alnum(&name, prefix.len())
    } else {
        from_first_alnum(&name, 0)
    }
}

/// Whether a file of the name `filename` is the note `id`.
pub fn filename_names_note(filename: &str, id: &str) -> (r: bool)
    ensures
        r == names_note(filename@, id@),
{
    let name = chars_of(filename);
    let extension = chars_of(NOTE_EXTENSION);
    let wanted = chars_of(id);
    if name.len() < extension.len() {
        return false;
    }
    let n: usize = name.len() - extension.len();
    if !has_prefix_at(&name, n, &extension) {
        assert(name@.skip(n as int).len() == extension@.len());
        assert(name@.skip(n as int).take(extension@.len() as int) == name@.skip(n as int));
        return false;
    }
    assert(name@.skip(n as int).take(extension@.len() as int) == name@.skip(n as int));
    if wanted.len() > n {
        return false;
    }
    assert(name@.skip(0) == name@);
    let begins: bool = has_prefix_at(&name, 0, &wanted);
    assert(name@.take(n as int).take(wanted@.len() as int) == name@.take(wanted@.len() as int));
    if !begins {
        return false;
    }
    n == wanted.len() || !name[wanted.len()].is_alphanumeric()
}

/// What stands between identifier and title in the file names that a list
/// shows.
pub const TITLE_SEPARATOR: &'static str = " - ";

/// The position of the first occurrence of `pattern` in `text` at or after
/// `from`, if there is one.
pub open spec fn first_occurrence(text: Seq<char>, pattern: Seq<char>, from: int) -> Option<int>
    decreases text.len() + 1 - from,
{
    if from < 0 || from > text.len() {
        None
    } else if starts_with(text.skip(from), pattern) {
        Some(from)
    } else {
        first_occurrence(text, pattern, from + 1)
    }
}

/// `text` ends with `suffix`.
pub open spec fn ends_with(text: Seq<char>, suffix: Seq<char>) -> bool {
    suffix.len() <= text.len() && text.skip(text.len() - suffix.len()) == suffix
}

/// The title that the file name of a note shows in a list: what stands
/// between the first separator and the next one, or the end of the name,
/// without the extension of notes. There is none where the name holds no
/// separator, where that part does not end with the extension, and where
/// nothing is left of it.
pub open spec fn listed_title_spec(filename: Seq<char>) -> Option<Seq<char>> {
    match first_occurrence(filename, TITLE_SEPARATOR@, 0) {
        None => None,
        Some(a) => {
            let from = a + TITLE_SEPARATOR@.len();
            let part = match first_occurrence(filename, TITLE_SEPARATOR@, from) {
                Some(b) => filename.subrange(from, b),
                None => filename.skip(from),
            };
            if ends_with(part, NOTE_EXTENSION@) && part.len() > NOTE_EXTENSION@.len() {
                Some(part.take(part.len() - NOTE_EXTENSION@.len()))
            } else {
                None
            }
        },
    }
}

/// The position of the first occurrence of `pattern` in `chars` at or
/// after `from`.
fn find_from(chars: &Vec<char>, pattern: &Vec<char>, from: usize) -> (r: Option<usize>)
    requires
        from <= chars.len(),
    ensures
        match r {
            Some(i) => first_occurrence(chars@, pattern@, from as int) == Some(i as int) && from
                <= i && i + pattern.len() <= chars.len(),
            None => first_occurrence(chars@, pattern@, from as int) is None,
        },
{
    let mut i: usize = from;
    loop
        invariant
            from <= i <= chars.len(),
            first_occurrence(chars@, pattern@, from as int) == first_occurrence(
                chars@,
                pattern@,
                i as int,
            ),
        decreases chars.len() - i,
    {
        if has_prefix_at(chars, i, pattern) {
            return Some(i);
        }
        if i == chars.len() {
            assert(first_occurrence(chars@, pattern@, i + 1) is None);
            return None;
        }
        i += 1;
    }
}

/// The title that the file name of a note shows in a list.
pub fn listed_title(filename: &str) -> (r: Option<String>)
    ensures
        match r {
            Some(t) => listed_title_spec(filename@) == Some(t@),
            None => listed_title_spec(filename@) is None,
        },
{
    let chars = chars_of(filename);
    let separator = chars_of(TITLE_SEPARATOR);
    let extension = chars_of(NOTE_EXTENSION);
    let first = match find_from(&chars, &separator, 0) {
        Some(a) => a,
        None => {
            return None;
        },
    };
    let from: usize = first + separator.len();
    let to: usize = match find_from(&chars, &separator, from) {
        Some(b) => b,
        None => chars.len(),
    };
    let ghost part = chars@.subrange(from as int, to as int);
    assert(chars@.skip(from as int) == chars@.subrange(from as int, chars.len() as int));
    if to - from <= extension.len() {
        return None;
    }
    let cut: usize = to - extension.len();
    let ends: bool = has_prefix_at(&chars, cut, &extension) && cut + extension.len() == to;
    proof {
        let tail = part.skip(part.len() - extension@.len());
        assert(tail == chars@.subrange(cut as int, to as int));
        assert(chars@.skip(cut as int).take(extension@.len() as int) == chars@.subrange(
            cut as int,
            to as int,
        ));
        assert(part.take(part.len() - extension@.len()) == chars@.subrange(
            from as int,
            cut as int,
        ));
    }
    if ends {
        Some(string_of_range(&chars, from, cut))
    } else {
        None
    }
}

/// The title that the first heading from line `from` on gives, white space
/// around the line and around the title gone.
pub open spec fn first_heading(ls: Seq<Seq<char>>, from: int) -> Option<Seq<char>>
    decreases ls.len() - from,
{
    if from < 0 || from >= ls.len() {
        None
    } else if starts_with(trim_spec(ls[from]), HEADING@) {
        Some(trim_spec(trim_spec(ls[from]).skip(HEADING@.len() as int)))
    } else {
        first_heading(ls, from + 1)
    }
}

/// The title of a document: that of its first heading, wherever it
/// stands.
pub fn document_title(content: &str) -> (r: Option<String>)
    ensures
        match r {
            Some(t) => first_heading(lines_spec(content@), 0) == Some(t@),
            None => first_heading(lines_spec(content@), 0) is None,
        },
{
    let ls = lines(content);
    let mark = chars_of(HEADING);
    let mut i: usize = 0;
    while i < ls.len()
        invariant
            i <= ls.len(),
            mark@ == HEADING@,
            texts_of(ls@) == lines_spec(content@),
            first_heading(texts_of(ls@), 0) == first_heading(texts_of(ls@), i as int),
        decreases ls.len() - i,
    {
        let line = chars_of(trimmed(ls[i].as_str()).as_str());
        assert(line@.skip(0) == line@);
        assert(line@ == trim_spec(texts_of(ls@)[i as int]));
        if has_prefix_at(&line, 0, &mark) {
            let rest = string_of_range(&line, mark.len(), line.len());
            assert(line@.skip(mark.len() as int) == line@.subrange(
                mark.len() as int,
                line.len() as int,
            ));
            return Some(trimmed(rest.as_str()));
        }
        i += 1;
    }
    None
}

} // verus!
