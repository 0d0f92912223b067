use std::collections::HashSet;
use zettel_core::alpha::increment_alpha_string;
use zettel_core::id::{Id, IdComponent, IdConfig, IdManager};
use zettel_core::scan::parse_id_string;

#[test]
fn test_id_component_creation() {
    let num = IdComponent::numeric(42);
    assert_eq!(num.as_str(), "42");
    assert!(num.is_numeric());
    assert!(!num.is_alpha());

    let alpha = IdComponent::alpha("abc").unwrap();
    assert_eq!(alpha.as_str(), "abc");
    assert!(alpha.is_alpha());
    assert!(!alpha.is_numeric());

    assert!(IdComponent::alpha("").is_err());
    assert!(IdComponent::alpha("ABC").is_err());
    assert!(IdComponent::alpha("a1b").is_err());
    assert!(IdComponent::alpha("123").is_err());
}

#[test]
fn test_component_increment() {
    let num = IdComponent::numeric(5);
    let next = num.increment().unwrap();
    assert_eq!(next, IdComponent::numeric(6));

    let max_num = IdComponent::numeric(u32::MAX);
    assert!(max_num.increment().is_err());

    let alpha = IdComponent::alpha("a").unwrap();
    let next = alpha.increment().unwrap();
    assert_eq!(next, IdComponent::alpha("b").unwrap());

    let z = IdComponent::alpha("z").unwrap();
    let next = z.increment().unwrap();
    assert_eq!(next, IdComponent::alpha("aa").unwrap());

    let az = IdComponent::alpha("az").unwrap();
    let next = az.increment().unwrap();
    assert_eq!(next, IdComponent::alpha("ba").unwrap());
}

#[test]
fn test_alpha_string_increment() {
    assert_eq!(increment_alpha_string("a").unwrap(), "b");
    assert_eq!(increment_alpha_string("z").unwrap(), "aa");
    assert_eq!(increment_alpha_string("az").unwrap(), "ba");
    assert_eq!(increment_alpha_string("zz").unwrap(), "aaa");
    assert_eq!(increment_alpha_string("abc").unwrap(), "abd");
    assert_eq!(increment_alpha_string("abz").unwrap(), "aca");

    assert!(increment_alpha_string("").is_err());
}

#[test]
fn test_id_parsing() {
    let id = Id::parse("1").unwrap();
    assert_eq!(id.components().len(), 1);
    assert!(id.is_root());
    assert_eq!(id.depth(), 1);

    let id = Id::parse("1a").unwrap();
    assert_eq!(id.components().len(), 2);
    assert!(!id.is_root());
    assert_eq!(id.depth(), 2);

    let id = Id::parse("1a2b3c").unwrap();
    assert_eq!(id.components().len(), 6);
    assert_eq!(id.depth(), 6);

    let id = Id::parse("42z123a5").unwrap();
    assert_eq!(id.components().len(), 5);
    assert_eq!(id.components()[0], IdComponent::numeric(42));
    assert_eq!(id.components()[1], IdComponent::alpha("z").unwrap());
    assert_eq!(id.components()[2], IdComponent::numeric(123));
    assert_eq!(id.components()[3], IdComponent::alpha("a").unwrap());
    assert_eq!(id.components()[4], IdComponent::numeric(5));

    assert!(Id::parse("").is_err());
    assert!(Id::parse("a").is_err());
    assert!(Id::parse("1A").is_err());
    assert!(Id::parse("1-2").is_err());
    assert!(Id::parse("1 a").is_err());
}

#[test]
fn test_id_display() {
    let id = Id::parse("1a2b").unwrap();
    assert_eq!(id.to_string(), "1a2b");
    assert_eq!(format!("{}", id.to_string()), "1a2b");
}

#[test]
fn test_id_from_str() {
    let id: Id = "1a2".parse().unwrap();
    assert_eq!(id.to_string(), "1a2");

    let result: Result<Id, _> = "invalid".parse();
    assert!(result.is_err());
}

#[test]
fn test_id_relationships() {
    let root = Id::parse("1").unwrap();
    let child = Id::parse("1a").unwrap();
    let grandchild = Id::parse("1a2").unwrap();
    let sibling = Id::parse("2").unwrap();
    let child_sibling = Id::parse("1b").unwrap();

    assert_eq!(child.parent().unwrap(), Some(root.clone()));
    assert_eq!(grandchild.parent().unwrap(), Some(child.clone()));
    assert_eq!(root.parent().unwrap(), None);

    assert!(root.is_ancestor_of(&child));
    assert!(root.is_ancestor_of(&grandchild));
    assert!(child.is_ancestor_of(&grandchild));
    assert!(!child.is_ancestor_of(&root));
    assert!(!root.is_ancestor_of(&sibling));

    assert!(child.is_descendant_of(&root));
    assert!(grandchild.is_descendant_of(&root));
    assert!(grandchild.is_descendant_of(&child));
    assert!(!root.is_descendant_of(&child));

    assert!(root.is_sibling_of(&sibling));
    assert!(child.is_sibling_of(&child_sibling));
    assert!(!root.is_sibling_of(&child));
    assert!(!child.is_sibling_of(&grandchild));
}

#[test]
fn test_ancestors() {
    let id = Id::parse("1a2b").unwrap();
    let ancestors = id.ancestors();

    assert_eq!(ancestors.len(), 3);
    assert_eq!(ancestors[0].to_string(), "1");
    assert_eq!(ancestors[1].to_string(), "1a");
    assert_eq!(ancestors[2].to_string(), "1a2");

    let root = Id::parse("1").unwrap();
    assert_eq!(root.ancestors().len(), 0);
}

#[test]
fn test_id_generation() {
    let id = Id::parse("1a2").unwrap();

    let sibling = id.next_sibling().unwrap();
    assert_eq!(sibling.to_string(), "1a3");

    let child = id.first_child();
    assert_eq!(child.to_string(), "1a2a");

    let grandchild = child.first_child();
    assert_eq!(grandchild.to_string(), "1a2a1");

    let root = Id::parse("1").unwrap();
    let root_child = root.first_child();
    assert_eq!(root_child.to_string(), "1a");
}

#[test]
fn test_id_from_number() {
    let id = Id::from_number(42);
    assert_eq!(id.to_string(), "42");
    assert!(id.is_root());
    assert_eq!(id.depth(), 1);
}

#[test]
fn test_id_manager_with_default_config() {
    let config = IdConfig::default();
    let manager = IdManager::new(config, |_: &str| false);

    assert_eq!(
        manager.extract_from_filename("1a2_note.md").map(|id| id.to_string()),
        Some("1a2".to_string())
    );
    assert_eq!(
        manager.extract_from_filename("1a2-note.md").map(|id| id.to_string()),
        Some("1a2".to_string())
    );
    assert_eq!(
        manager.extract_from_filename("1a2.md").map(|id| id.to_string()),
        Some("1a2".to_string())
    );
}

#[test]
fn test_id_manager_strict_matching() {
    let config = IdConfig {
        match_rule: "strict".to_string(),
        separator: " - ".to_string(),
        allow_unicode: false,
        max_depth: 10,
    };
    let manager = IdManager::new(config, |_: &str| false);

    assert_eq!(
        manager.extract_from_filename("1a2").map(|id| id.to_string()),
        Some("1a2".to_string())
    );
    assert_eq!(manager.extract_from_filename("1a2.md"), None);
    assert_eq!(manager.extract_from_filename("1a2-note.md"), None);
}

#[test]
fn test_id_manager_separator_matching() {
    let config = IdConfig {
        match_rule: "separator".to_string(),
        separator: " - ".to_string(),
        allow_unicode: false,
        max_depth: 10,
    };
    let manager = IdManager::new(config, |_: &str| false);

    assert_eq!(
        manager.extract_from_filename("1a2 - My Note.md").map(|id| id.to_string()),
        Some("1a2".to_string())
    );
    assert_eq!(
        manager.extract_from_filename("1a2 - Another Note Title.md").map(|id| id.to_string()),
        Some("1a2".to_string())
    );
    assert_eq!(manager.extract_from_filename("1a2.md"), None);
}

#[test]
fn test_id_manager_generation_with_existing_ids() {
    let mut existing_ids = HashSet::new();
    existing_ids.insert("1".to_string());
    existing_ids.insert("1a".to_string());
    existing_ids.insert("2".to_string());
    existing_ids.insert("3".to_string());

    let current = Id::parse("1").unwrap();
    {
        let manager = IdManager::new(IdConfig::default(), |id: &str| existing_ids.contains(id));

        let next_sibling = manager.next_available_sibling(&current).unwrap();
        assert_eq!(next_sibling.to_string(), "4");

        let next_child = manager.next_available_child(&current).unwrap();
        assert_eq!(next_child.to_string(), "1b");
    }

    existing_ids.insert("1b".to_string());
    existing_ids.insert("1c".to_string());
    let manager = IdManager::new(IdConfig::default(), |id: &str| existing_ids.contains(id));
    let next_child = manager.next_available_child(&current).unwrap();
    assert_eq!(next_child.to_string(), "1d");
}

#[test]
fn test_id_validation() {
    let config = IdConfig::default();
    let manager = IdManager::new(config, |_: &str| false);

    assert!(manager.validate_id("1").is_ok());
    assert!(manager.validate_id("1a").is_ok());
    assert!(manager.validate_id("1a2b3c").is_ok());
    assert!(manager.validate_id("42z").is_ok());

    assert!(manager.validate_id("").is_err());
    assert!(manager.validate_id("a").is_err());
    assert!(manager.validate_id("1A").is_err());
    assert!(manager.validate_id("1-2").is_err());
}

#[test]
fn test_id_exists() {
    let mut existing_ids = HashSet::new();
    existing_ids.insert("1".to_string());
    existing_ids.insert("1a2".to_string());

    let config = IdConfig::default();
    let manager = IdManager::new(config, |id: &str| existing_ids.contains(id));

    let id1 = Id::parse("1").unwrap();
    let id2 = Id::parse("1a2").unwrap();
    let id3 = Id::parse("2").unwrap();

    assert!(manager.id_exists(&id1));
    assert!(manager.id_exists(&id2));
    assert!(!manager.id_exists(&id3));
}

#[test]
fn test_edge_cases() {
    let zz = IdComponent::alpha("zz").unwrap();
    let incremented = zz.increment().unwrap();
    assert_eq!(incremented, IdComponent::alpha("aaa").unwrap());

    let zzz = IdComponent::alpha("zzz").unwrap();
    let incremented = zzz.increment().unwrap();
    assert_eq!(incremented, IdComponent::alpha("aaaa").unwrap());

    let complex = Id::parse("999z999z999").unwrap();
    assert_eq!(complex.depth(), 5);
    assert!(complex.is_descendant_of(&Id::parse("999").unwrap()));
    assert!(complex.is_descendant_of(&Id::parse("999z").unwrap()));
    assert!(complex.is_descendant_of(&Id::parse("999z999").unwrap()));
    assert!(complex.is_descendant_of(&Id::parse("999z999z").unwrap()));

    let id = Id::parse("999z999z999").unwrap();
    let sibling = id.next_sibling().unwrap();
    assert_eq!(sibling.to_string(), "999z999z1000");
}

#[test]
fn test_component_parsing() {
    let comp: IdComponent = "42".parse().unwrap();
    assert_eq!(comp, IdComponent::numeric(42));

    let comp: IdComponent = "0".parse().unwrap();
    assert_eq!(comp, IdComponent::numeric(0));

    let comp: IdComponent = "abc".parse().unwrap();
    assert_eq!(comp, IdComponent::alpha("abc").unwrap());

    let comp: IdComponent = "z".parse().unwrap();
    assert_eq!(comp, IdComponent::alpha("z").unwrap());

    let result: Result<IdComponent, _> = "".parse();
    assert!(result.is_err());

    let result: Result<IdComponent, _> = "ABC".parse();
    assert!(result.is_err());

    let result: Result<IdComponent, _> = "a1b".parse();
    assert!(result.is_err());
}

#[test]
fn test_parse_id_string_function() {
    let components = parse_id_string("1a2b").unwrap();
    assert_eq!(components.len(), 4);
    assert_eq!(components[0], IdComponent::numeric(1));
    assert_eq!(components[1], IdComponent::alpha("a").unwrap());
    assert_eq!(components[2], IdComponent::numeric(2));
    assert_eq!(components[3], IdComponent::alpha("b").unwrap());

    let components = parse_id_string("42").unwrap();
    assert_eq!(components.len(), 1);
    assert_eq!(components[0], IdComponent::numeric(42));

    // A text that begins with a letter is no identifier.
    assert!(parse_id_string("z").is_err());

    assert!(parse_id_string("").is_err());
    assert!(parse_id_string("1A").is_err());
    assert!(parse_id_string("a1").is_err());
}

#[test]
fn test_id_new_validation() {
    let components = vec![
        IdComponent::numeric(1),
        IdComponent::alpha("a").unwrap(),
        IdComponent::numeric(2),
    ];
    assert!(Id::new(components).is_ok());

    let components = vec![IdComponent::alpha("a").unwrap(), IdComponent::numeric(1)];
    assert!(Id::new(components).is_err());

    let components = vec![IdComponent::numeric(1), IdComponent::numeric(2)];
    assert!(Id::new(components).is_err());

    let components = vec![
        IdComponent::numeric(1),
        IdComponent::alpha("a").unwrap(),
        IdComponent::alpha("b").unwrap(),
    ];
    assert!(Id::new(components).is_err());

    assert!(Id::new(vec![]).is_err());
}

#[test]
fn test_overflow_handling() {
    let large_comp = IdComponent::numeric(u32::MAX);
    assert!(large_comp.increment().is_err());

    let large_id = Id::from_number(u32::MAX);
    assert_eq!(large_id.to_string(), u32::MAX.to_string());

    assert!(large_id.next_sibling().is_err());
}
