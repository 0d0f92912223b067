use std::collections::HashSet;
use zettel_core::alpha::increment_alpha_string;
use zettel_core::id::{Id, IdComponent, IdConfig, IdError, IdManager};
use zettel_core::manager::{search_step, FilenamePattern, SearchStep};
use zettel_core::scan::parse_id_string;

fn manager_with(rule: &str, separator: &str, unicode: bool) -> IdManager<fn(&str) -> bool> {
    fn nothing_exists(_: &str) -> bool {
        false
    }
    IdManager::new(
        IdConfig {
            match_rule: rule.to_string(),
            separator: separator.to_string(),
            allow_unicode: unicode,
            max_depth: 10,
        },
        nothing_exists as fn(&str) -> bool,
    )
}

#[test]
fn round_trip_of_canonical_texts() {
    for text in ["1", "0", "1a", "1a2", "1a2b3c", "42z123a5", "999z999z999", "10aa20", "4294967295"] {
        assert_eq!(Id::parse(text).unwrap().to_string(), text);
    }
}

#[test]
fn round_trip_of_identifiers() {
    let mut id = Id::from_number(7);
    for _ in 0..6 {
        let text = id.to_string();
        assert_eq!(Id::parse(&text).unwrap(), id);
        id = id.first_child().next_sibling().unwrap();
    }
}

#[test]
fn leading_zeros_are_not_written_back() {
    assert_eq!(Id::parse("01").unwrap().to_string(), "1");
    assert_eq!(Id::parse("1a007").unwrap().to_string(), "1a7");
    assert_eq!(Id::parse("000").unwrap(), Id::from_number(0));
}

#[test]
fn components_alternate() {
    let id = Id::parse("12ab34cd5").unwrap();
    for (i, component) in id.components().iter().enumerate() {
        assert_eq!(component.is_numeric(), i % 2 == 0);
        assert_eq!(component.is_alpha(), i % 2 == 1);
    }
    let child = id.first_child();
    assert!(child.components()[5].is_alpha());
    assert!(child.first_child().components()[6].is_numeric());
}

#[test]
fn construction_refuses_what_does_not_alternate() {
    assert_eq!(Id::new(vec![]), Err(IdError::EmptyId));
    assert_eq!(
        Id::new(vec![IdComponent::alpha("a").unwrap()]),
        Err(IdError::InvalidFormat("a".to_string()))
    );
    assert_eq!(
        Id::new(vec![IdComponent::numeric(1), IdComponent::numeric(22)]),
        Err(IdError::InvalidFormat("22".to_string()))
    );
    assert_eq!(
        Id::new(vec![IdComponent::numeric(1), IdComponent::Alpha("A".to_string())]),
        Err(IdError::InvalidComponent("A".to_string()))
    );
    assert_eq!(
        Id::new(vec![IdComponent::numeric(1), IdComponent::Alpha(String::new())]),
        Err(IdError::InvalidComponent(String::new()))
    );
}

#[test]
fn alphabetic_increment() {
    assert_eq!(increment_alpha_string("a").unwrap(), "b");
    assert_eq!(increment_alpha_string("y").unwrap(), "z");
    assert_eq!(increment_alpha_string("z").unwrap(), "aa");
    assert_eq!(increment_alpha_string("az").unwrap(), "ba");
    assert_eq!(increment_alpha_string("zz").unwrap(), "aaa");
    assert_eq!(increment_alpha_string("zaz").unwrap(), "zba");
    assert_eq!(increment_alpha_string("azz").unwrap(), "baa");
}

#[test]
fn alphabetic_increment_grows_only_from_all_z() {
    let mut text = "a".to_string();
    for _ in 0..1500 {
        let next = increment_alpha_string(&text).unwrap();
        let all_z = text.chars().all(|c| c == 'z');
        assert_eq!(next.len(), text.len() + if all_z { 1 } else { 0 });
        assert!(next.chars().all(|c| c.is_ascii_lowercase()));
        text = next;
    }
    // 1500 steps after "a", the first numeral, comes the numeral 1501.
    assert_eq!(text, "bes");
}

#[test]
fn alphabetic_increment_refuses_other_texts() {
    assert_eq!(increment_alpha_string(""), Err(IdError::InvalidComponent(String::new())));
    assert_eq!(increment_alpha_string("aB"), Err(IdError::InvalidComponent("aB".to_string())));
    assert_eq!(increment_alpha_string("a1"), Err(IdError::InvalidComponent("a1".to_string())));
    assert_eq!(increment_alpha_string("é"), Err(IdError::InvalidComponent("é".to_string())));
}

#[test]
fn sibling_generation() {
    assert_eq!(Id::parse("1a2").unwrap().next_sibling().unwrap().to_string(), "1a3");
    assert_eq!(Id::parse("1z").unwrap().next_sibling().unwrap().to_string(), "1aa");
    assert_eq!(Id::parse("9").unwrap().next_sibling().unwrap().to_string(), "10");
    assert_eq!(Id::parse("1a99").unwrap().next_sibling().unwrap().depth(), 3);
}

#[test]
fn child_generation_alternates_class() {
    assert_eq!(Id::parse("1").unwrap().first_child().to_string(), "1a");
    assert_eq!(Id::parse("1a").unwrap().first_child().to_string(), "1a1");
    let id = Id::parse("3b7").unwrap();
    assert_eq!(id.first_child().parent().unwrap(), Some(id));
}

#[test]
fn ancestors_are_not_descendants() {
    let texts = ["1", "1a", "1a2", "1a2b", "1a2b3"];
    for (i, a) in texts.iter().enumerate() {
        for b in texts.iter().skip(i + 1) {
            let a = Id::parse(a).unwrap();
            let b = Id::parse(b).unwrap();
            assert!(a.is_ancestor_of(&b));
            assert!(!b.is_ancestor_of(&a));
            assert!(b.is_descendant_of(&a));
            assert!(!a.is_descendant_of(&b));
        }
    }
    let id = Id::parse("1a").unwrap();
    assert!(!id.is_ancestor_of(&id));
    assert!(!id.is_ancestor_of(&Id::parse("1b2").unwrap()));
}

#[test]
fn roots_are_siblings() {
    let one = Id::parse("1").unwrap();
    let two = Id::parse("2").unwrap();
    let big = Id::from_number(u32::MAX);
    assert!(one.is_sibling_of(&two));
    assert!(two.is_sibling_of(&one));
    assert!(one.is_sibling_of(&big));
    assert!(one.is_sibling_of(&one));
    assert!(!Id::parse("1a").unwrap().is_sibling_of(&Id::parse("2a").unwrap()));
}

#[test]
fn availability_search() {
    let existing: HashSet<String> =
        ["1", "2", "1a", "1b", "1a1"].iter().map(|s| s.to_string()).collect();
    let manager = IdManager::new(IdConfig::default(), |id: &str| existing.contains(id));
    let one = Id::parse("1").unwrap();
    assert_eq!(manager.next_available_sibling(&one).unwrap().to_string(), "3");
    assert_eq!(manager.next_available_child(&one).unwrap(), Id::parse("1c").unwrap());
    assert_eq!(manager.next_available_child(&Id::parse("1a").unwrap()).unwrap().to_string(), "1a2");
    assert_eq!(manager.next_available_child(&Id::parse("2").unwrap()).unwrap().to_string(), "2a");
}

#[test]
fn availability_search_asks_in_order_and_stops() {
    let asked = std::cell::RefCell::new(Vec::new());
    let manager = IdManager::new(IdConfig::default(), |id: &str| {
        asked.borrow_mut().push(id.to_string());
        id != "1d"
    });
    let found = manager.next_available_child(&Id::parse("1").unwrap()).unwrap();
    assert_eq!(found.to_string(), "1d");
    assert_eq!(*asked.borrow(), vec!["1a", "1b", "1c", "1d"]);
}

#[test]
fn availability_search_surfaces_overflow() {
    let manager = IdManager::new(IdConfig::default(), |_: &str| true);
    let last = Id::from_number(u32::MAX - 2);
    assert_eq!(
        manager.next_available_sibling(&last),
        Err(IdError::Overflow("4294967295".to_string()))
    );
    let top = Id::from_number(u32::MAX);
    assert_eq!(
        manager.next_available_sibling(&top),
        Err(IdError::Overflow("4294967295".to_string()))
    );
}

#[test]
fn search_steps() {
    let id = Id::parse("1a").unwrap();
    match search_step(id.clone(), false).unwrap() {
        SearchStep::Found(found) => assert_eq!(found, id),
        SearchStep::Retry(_) => panic!("a free candidate is the result"),
    }
    match search_step(id.clone(), true).unwrap() {
        SearchStep::Retry(next) => assert_eq!(next.to_string(), "1b"),
        SearchStep::Found(_) => panic!("a taken candidate is not the result"),
    }
    assert!(search_step(Id::from_number(u32::MAX), true).is_err());
    assert!(search_step(Id::from_number(u32::MAX), false).is_ok());
}

#[test]
fn overflow_boundary() {
    let top = Id::from_number(u32::MAX);
    assert_eq!(top.next_sibling(), Err(IdError::Overflow("4294967295".to_string())));
    let deep = Id::parse("1a4294967295").unwrap();
    assert_eq!(deep.next_sibling(), Err(IdError::Overflow("4294967295".to_string())));
    assert_eq!(Id::from_number(u32::MAX - 1).next_sibling().unwrap(), top);
    assert!(Id::parse("1zzzz").unwrap().next_sibling().is_ok());
}

#[test]
fn numbers_beyond_the_range_are_parse_errors() {
    assert_eq!(Id::parse("4294967296"), Err(IdError::ParseError("4294967296".to_string())));
    assert_eq!(Id::parse("1a99999999999b"), Err(IdError::ParseError("99999999999".to_string())));
    assert_eq!(Id::parse("4294967295").unwrap(), Id::from_number(u32::MAX));
    // A run that is never closed is not read as a number.
    assert_eq!(Id::parse("99999999999-"), Err(IdError::InvalidFormat("-".to_string())));
}

#[test]
fn invalid_input_rejection() {
    assert_eq!(Id::parse(""), Err(IdError::EmptyId));
    assert_eq!(Id::parse("a1"), Err(IdError::InvalidFormat("a".to_string())));
    assert_eq!(Id::parse("1A"), Err(IdError::InvalidFormat("A".to_string())));
    assert_eq!(Id::parse("1-2"), Err(IdError::InvalidFormat("-".to_string())));
    assert_eq!(Id::parse("1 a"), Err(IdError::InvalidFormat(" ".to_string())));
    assert_eq!(Id::parse("1é"), Err(IdError::InvalidFormat("é".to_string())));
    assert_eq!(parse_id_string(""), Err(IdError::EmptyId));
    assert_eq!(IdError::InvalidFormat("-".to_string()).fragment(), "-");
    assert_eq!(IdError::EmptyId.fragment(), "");
}

#[test]
fn component_constructors() {
    assert_eq!(IdComponent::alpha(""), Err(IdError::InvalidComponent(String::new())));
    assert_eq!(IdComponent::alpha("aBc"), Err(IdError::InvalidComponent("aBc".to_string())));
    assert_eq!(IdComponent::alpha("abc"), Ok(IdComponent::Alpha("abc".to_string())));
    assert_eq!(IdComponent::numeric(0).as_str(), "0");
    assert_eq!(IdComponent::numeric(1000).as_str(), "1000");
    assert_eq!(IdComponent::numeric(u32::MAX).as_str(), "4294967295");
    assert_eq!(
        IdComponent::numeric(u32::MAX).increment(),
        Err(IdError::Overflow("4294967295".to_string()))
    );
    assert_eq!(
        IdComponent::Alpha("Z".to_string()).increment(),
        Err(IdError::InvalidComponent("Z".to_string()))
    );
    assert!(IdComponent::numeric(3).same_as(&IdComponent::numeric(3)));
    assert!(!IdComponent::numeric(3).same_as(&IdComponent::alpha("c").unwrap()));
    assert!(IdComponent::alpha("ab").unwrap().is_valid());
    assert!(!IdComponent::Alpha("a b".to_string()).is_valid());
    assert_eq!(IdComponent::alpha("ab").unwrap().duplicate(), IdComponent::alpha("ab").unwrap());
}

#[test]
fn component_from_text() {
    assert_eq!(IdComponent::parse("+5"), Ok(IdComponent::Numeric(5)));
    assert_eq!(IdComponent::parse("007"), Ok(IdComponent::Numeric(7)));
    assert_eq!(IdComponent::parse("4294967295"), Ok(IdComponent::Numeric(u32::MAX)));
    assert_eq!(
        IdComponent::parse("4294967296"),
        Err(IdError::InvalidComponent("4294967296".to_string()))
    );
    assert_eq!(IdComponent::parse("+"), Err(IdError::InvalidComponent("+".to_string())));
    assert_eq!(IdComponent::parse("-5"), Err(IdError::InvalidComponent("-5".to_string())));
    assert_eq!(IdComponent::parse("ab"), Ok(IdComponent::Alpha("ab".to_string())));
}

#[test]
fn filename_extraction_per_rule() {
    let strict = manager_with("strict", " - ", false);
    assert_eq!(strict.extract_from_filename("1a2.md"), None);
    assert_eq!(strict.extract_from_filename("1a2"), Some(Id::parse("1a2").unwrap()));
    assert_eq!(strict.extract_from_filename(""), None);

    let fuzzy = manager_with("fuzzy", " - ", false);
    for name in ["1a2_note.md", "1a2.md", "1a2-note.md", "1a2 note", "1a2"] {
        assert_eq!(fuzzy.extract_from_filename(name).unwrap().to_string(), "1a2");
    }
    assert_eq!(fuzzy.extract_from_filename("_1a2.md"), None);
    assert_eq!(fuzzy.extract_from_filename("note.md"), None);
    assert_eq!(fuzzy.extract_from_filename("1a2B.md").unwrap().to_string(), "1a2");

    let separator = manager_with("separator", " - ", false);
    assert_eq!(separator.extract_from_filename("1a2 - Title.md").unwrap().to_string(), "1a2");
    assert_eq!(separator.extract_from_filename("1a2.md"), None);
    assert_eq!(separator.extract_from_filename("1a2 -Title.md"), None);
    assert_eq!(separator.extract_from_filename("1a2 - ").unwrap().to_string(), "1a2");

    let unknown = manager_with("anything", " - ", false);
    assert_eq!(unknown.extract_from_filename("1a2.md"), None);
    assert_eq!(unknown.extract_from_filename("7").unwrap().to_string(), "7");
}

#[test]
fn filename_extraction_takes_the_longest_run() {
    // The separator begins with a character of identifiers: the run takes it.
    let separator = manager_with("separator", "a", false);
    assert_eq!(separator.extract_from_filename("1aa.md"), None);
    let separator = manager_with("separator", "_", false);
    assert_eq!(separator.extract_from_filename("12ab_x").unwrap().to_string(), "12ab");
}

#[test]
fn filename_extraction_with_letters_of_any_script() {
    let fuzzy = manager_with("fuzzy", " - ", true);
    assert_eq!(fuzzy.extract_from_filename("1a2.md").unwrap().to_string(), "1a2");
    assert_eq!(fuzzy.extract_from_filename("1a2_é.md").unwrap().to_string(), "1a2");
    // The run takes the letter, and is no identifier then.
    assert_eq!(fuzzy.extract_from_filename("1a2é.md"), None);
    assert_eq!(fuzzy.extract_from_filename("1a2B.md"), None);
    assert_eq!(fuzzy.extract_from_filename(".md"), None);
    let plain = manager_with("fuzzy", " - ", false);
    assert_eq!(plain.extract_from_filename("1a2é.md").unwrap().to_string(), "1a2");
}

#[test]
fn patterns_of_the_rules() {
    assert_eq!(manager_with("strict", "", false).get_filename_patterns(), vec![FilenamePattern::Exact]);
    assert_eq!(
        manager_with("separator", "", false).get_filename_patterns(),
        vec![FilenamePattern::BeforeSeparator]
    );
    assert_eq!(
        manager_with("fuzzy", "", false).get_filename_patterns(),
        vec![FilenamePattern::BeforeBoundary, FilenamePattern::Exact]
    );
    assert_eq!(manager_with("other", "", false).get_filename_patterns(), vec![FilenamePattern::Exact]);
}

#[test]
fn finding_the_file_of_a_note() {
    let manager = manager_with("fuzzy", " - ", false);
    let names: Vec<String> =
        ["readme.md", "1.md", "1a - x.md", "1a.md", "2.md"].iter().map(|s| s.to_string()).collect();
    assert_eq!(manager.find_file(&names, &Id::parse("1a").unwrap()), Some(2));
    assert_eq!(manager.find_file(&names, &Id::parse("2").unwrap()), Some(4));
    assert_eq!(manager.find_file(&names, &Id::parse("3").unwrap()), None);
}

#[test]
fn identifiers_compare() {
    let a = Id::parse("1a2").unwrap();
    assert!(a.same_as(&Id::parse("1a2").unwrap()));
    assert!(!a.same_as(&Id::parse("1a3").unwrap()));
    assert!(!a.same_as(&Id::parse("1a").unwrap()));
    assert!(Id::parse("1a").unwrap() < Id::parse("1b").unwrap());
    assert!(Id::parse("2").unwrap() < Id::parse("10").unwrap());
}

#[test]
fn order_of_identifiers() {
    let texts = ["1", "1a", "1a1", "1a2", "1a10", "1aa", "1b", "2", "2a", "10", "10z", "10zz", "11"];
    let ids: Vec<Id> = texts.iter().map(|t| Id::parse(t).unwrap()).collect();
    for a in &ids {
        for b in &ids {
            assert_eq!(a.precedes(b), a < b);
        }
    }
    assert!(Id::parse("2").unwrap().precedes(&Id::parse("10").unwrap()));
    assert!(Id::parse("1aa").unwrap().precedes(&Id::parse("1b").unwrap()));
    assert!(Id::parse("1").unwrap().precedes(&Id::parse("1a").unwrap()));
    assert!(!Id::parse("1a").unwrap().precedes(&Id::parse("1a").unwrap()));
}

#[test]
fn order_of_components() {
    let parts = [
        IdComponent::numeric(0),
        IdComponent::numeric(9),
        IdComponent::numeric(10),
        IdComponent::alpha("a").unwrap(),
        IdComponent::alpha("aa").unwrap(),
        IdComponent::alpha("ab").unwrap(),
        IdComponent::alpha("b").unwrap(),
    ];
    for (i, a) in parts.iter().enumerate() {
        for (j, b) in parts.iter().enumerate() {
            assert_eq!(a.precedes(b), i < j);
            assert_eq!(a.precedes(b), a < b);
        }
    }
}
