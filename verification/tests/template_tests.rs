use zettel_core::config::TemplateConfig;
use zettel_core::template::{
    example_template, generate_basic_template, TemplateError, TemplateManager, TemplateService,
    ValidationResult,
};

fn names(list: &[&str]) -> Vec<String> {
    list.iter().map(|s| s.to_string()).collect()
}

#[test]
fn placeholders_are_found_once_and_in_order() {
    assert_eq!(TemplateService::extract_placeholders("# {{title}}"), names(&["title"]));
    assert_eq!(
        TemplateService::extract_placeholders("{{title}} and {{link}}"),
        names(&["title", "link"])
    );
    assert_eq!(TemplateService::extract_placeholders("{{title}} {{title}}"), names(&["title"]));
    assert_eq!(
        TemplateService::extract_placeholders("{{link}}{{date_2}}{{link}}{{title}}"),
        names(&["link", "date_2", "title"])
    );
    assert_eq!(TemplateService::extract_placeholders("{{{title}}}"), names(&["title"]));
    assert_eq!(TemplateService::extract_placeholders("{{émile}} {{}} {{a b}} {x}"), names(&["émile"]));
    assert!(TemplateService::extract_placeholders("no placeholders").is_empty());
}

#[test]
fn validation_of_templates() {
    let config = TemplateConfig::default();
    let result = TemplateService::validate_template("# {{title}}\n\nParent: {{link}}", &config);
    assert_eq!(result, ValidationResult::success(names(&["title", "link"])));

    let result = TemplateService::validate_template("# {{title}}", &config);
    assert!(!result.valid);
    assert_eq!(
        result.message,
        Some("Template missing required placeholder(s): {{link}}".to_string())
    );
    assert_eq!(result.missing_placeholders, names(&["link"]));
    assert_eq!(result.found_placeholders, names(&["title"]));

    let result = TemplateService::validate_template("nothing", &config);
    assert_eq!(
        result.message,
        Some("Template missing required placeholder(s): {{title}}, {{link}}".to_string())
    );
    assert_eq!(result.missing_placeholders, names(&["title", "link"]));

    let lenient = TemplateConfig { require_title: false, require_link: false, ..config };
    assert!(TemplateService::validate_template("nothing", &lenient).valid);
}

#[test]
fn validation_from_found_placeholders() {
    let config = TemplateConfig { require_link: false, ..TemplateConfig::default() };
    let result = TemplateService::check_placeholders(names(&["date"]), &config);
    assert_eq!(
        result,
        ValidationResult::failure(
            "Template missing required placeholder(s): {{title}}".to_string(),
            names(&["title"]),
            names(&["date"]),
        )
    );
    assert!(TemplateService::check_placeholders(names(&["title"]), &config).valid);
}

#[test]
fn content_from_a_template() {
    assert_eq!(
        TemplateService::generate_content(
            Some("# {{title}}\n\nParent: {{link}}"),
            "My Note",
            "[[parent]]"
        ),
        "# My Note\n\nParent: [[parent]]"
    );
    assert_eq!(
        TemplateService::generate_content(Some("{{title}}{{title}} {{date}}"), "x", "y"),
        "xx {{date}}"
    );
    // The link is put in after the title: a title may hold its placeholder.
    assert_eq!(
        TemplateService::substitute_placeholders("{{title}}", "{{link}}", "up"),
        "up"
    );
}

#[test]
fn content_without_a_template() {
    assert_eq!(
        TemplateService::generate_content(None, "My Note", "[[parent]]"),
        "# My Note\n\n[[parent]]"
    );
    assert_eq!(TemplateService::generate_content(None, "My Note", ""), "# My Note");
    assert_eq!(TemplateService::generate_content(None, "  ", "[[parent]]"), "[[parent]]");
    assert_eq!(TemplateService::generate_content(None, "", " "), "");
    assert_eq!(TemplateService::generate_builtin_content("  Title  ", " up "), "# Title  \n\n up ");
}

#[test]
fn whether_a_template_is_used() {
    let mut config = TemplateConfig::default();
    assert!(!TemplateService::should_use_template(&config));
    config.enabled = true;
    assert!(!TemplateService::should_use_template(&config));
    config.file = "  ".to_string();
    assert!(!TemplateService::should_use_template(&config));
    config.file = "note.md".to_string();
    assert!(TemplateService::should_use_template(&config));
    config.enabled = false;
    assert!(!TemplateService::should_use_template(&config));
}

#[test]
fn path_of_the_template() {
    let mut config = TemplateConfig::default();
    assert_eq!(
        TemplateService::resolve_template_path(&config),
        Err(TemplateError::ConfigError("No template file or directory specified".to_string()))
    );
    config.directory = " templates ".to_string();
    assert_eq!(
        TemplateService::resolve_template_path(&config),
        Ok("templates/default".to_string())
    );
    config.default_template = " ".to_string();
    assert_eq!(
        TemplateService::resolve_template_path(&config),
        Err(TemplateError::ConfigError(
            "Template directory specified but no default template name provided".to_string()
        ))
    );
    config.file = " t/note.md\n".to_string();
    assert_eq!(TemplateService::resolve_template_path(&config), Ok("t/note.md".to_string()));
}

#[test]
fn context_of_a_template() {
    let context = TemplateService::create_template_context("My Note", "[[up]]");
    assert_eq!(context.len(), 2);
    assert_eq!(context.get("title"), Some(&"My Note".to_string()));
    assert_eq!(context.get("link"), Some(&"[[up]]".to_string()));
    assert_eq!(context.get("date"), None);
}

#[test]
fn templates_by_name() {
    let mut manager = TemplateManager::new();
    assert!(manager.list_templates().is_empty());
    assert_eq!(manager.get_template("daily"), None);
    manager.register_template("daily".to_string(), "one".to_string());
    manager.register_template("meeting".to_string(), "two".to_string());
    manager.register_template("daily".to_string(), "three".to_string());
    assert_eq!(manager.get_template("daily"), Some(&"three".to_string()));
    assert_eq!(manager.get_template("meeting"), Some(&"two".to_string()));
    assert_eq!(manager.get_template("basic"), None);
    assert_eq!(manager.list_templates(), vec!["daily", "meeting"]);
}

#[test]
fn example_templates() {
    assert_eq!(generate_basic_template(), "# {{title}}\n\n{{link}}\n\n## Notes\n\n");
    assert_eq!(example_template("basic"), Some(generate_basic_template()));
    let meeting = example_template("meeting").unwrap();
    assert!(meeting.starts_with("# Meeting: {{title}}\n\n**Previous Meeting:** {{link}}\n\n**Date:** \n"));
    assert!(meeting.ends_with("## Next Meeting\n\n**Date:** \n**Topics:** \n\n"));
    let academic = example_template("academic").unwrap();
    assert!(academic.contains("## Key Points\n\n- \n\n## Questions"));
    assert!(example_template("daily").unwrap().contains("## Completed\n\n- [ ] \n\n## Tomorrow"));
    assert_eq!(example_template("weekly"), None);
    let config = TemplateConfig::default();
    for kind in ["basic", "academic", "meeting", "daily"] {
        assert!(TemplateService::validate_template(&example_template(kind).unwrap(), &config).valid);
    }
}
