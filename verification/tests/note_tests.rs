use zettel_core::config::{
    ConfigError, ConfigManager, EnvOverrides, LinkingConfig, ZettelConfig,
};
use zettel_core::note::{
    document_title, filename_names_note, generate_filename, generate_link_text,
    insert_after_title, insert_at_end, insert_content, insert_in_links_section, listed_title,
    note_title,
};
use zettel_core::text::{blank, join, lines, replace_all, trimmed, trimmed_end, trimmed_start};

#[test]
fn file_names_of_notes() {
    let mut config = ZettelConfig::default();
    assert_eq!(generate_filename("1a2", &Some("Title".to_string()), &config), "1a2.md");
    assert_eq!(generate_filename("1a2", &None, &config), "1a2.md");
    config.note.add_title = true;
    assert_eq!(generate_filename("1a2", &Some("Title".to_string()), &config), "1a2 - Title.md");
    assert_eq!(generate_filename("1a2", &None, &config), "1a2.md");
    config.id.separator = "_".to_string();
    assert_eq!(generate_filename("7", &Some("x y".to_string()), &config), "7_x y.md");
}

#[test]
fn links_between_notes() {
    let mut config = LinkingConfig::default();
    assert_eq!(generate_link_text("1a", "1a - Note", Some("Note"), &config), "[[1a - Note]]");
    config.use_title_alias = true;
    assert_eq!(generate_link_text("1a", "1a - Note", Some("Note"), &config), "[[1a - Note|Note]]");
    assert_eq!(generate_link_text("1a", "1a", None, &config), "[[1a]]");
    config.format = Some("{id}: [{title}]({filename}.md) {id}".to_string());
    assert_eq!(generate_link_text("1a", "file", Some("Note"), &config), "1a: [Note](file.md) 1a");
    assert_eq!(generate_link_text("1a", "file", None, &config), "1a: [file](file.md) 1a");
}

#[test]
fn insertion_at_the_end() {
    assert_eq!(insert_at_end("# Title\n\ntext\n\n", "[[1a]]"), "# Title\n\ntext\n\n[[1a]]");
    assert_eq!(insert_at_end("", "[[1a]]"), "[[1a]]");
    assert_eq!(insert_at_end(" \n\t", "[[1a]]"), "[[1a]]");
    assert_eq!(insert_content("text", "[[1a]]", "end", true), "text\n\n[[1a]]");
    assert_eq!(insert_content("text", "[[1a]]", "elsewhere", true), "text\n\n[[1a]]");
}

#[test]
fn insertion_after_the_title() {
    assert_eq!(
        insert_after_title("intro\n# Title\ntext\nmore\n", "[[1a]]"),
        "intro\n# Title\n\n[[1a]]\n\ntext\nmore"
    );
    assert_eq!(insert_after_title("# Title", "[[1a]]"), "# Title\n\n[[1a]]\n");
    assert_eq!(insert_after_title("#Title\ntext", "[[1a]]"), "[[1a]]\n\n#Title\ntext");
    assert_eq!(insert_after_title(" \n", "[[1a]]"), "[[1a]]");
    assert_eq!(
        insert_content("# A\r\n# B", "x", "after_title", false),
        "# A\n\nx\n\n# B"
    );
}

#[test]
fn insertion_in_the_section_for_links() {
    assert_eq!(
        insert_in_links_section("# T\n## Links\n[[1]]\n", "[[2]]", false),
        "# T\n## Links\n\n[[2]]\n\n[[1]]"
    );
    assert_eq!(
        insert_in_links_section("# T\n## Related notes", "[[2]]", false),
        "# T\n## Related notes\n\n[[2]]"
    );
    assert_eq!(
        insert_in_links_section("## Children\n## Links\n", "[[2]]", true),
        "## Children\n\n[[2]]\n\n## Links"
    );
    assert_eq!(insert_in_links_section("# T\n", "[[2]]", true), "# T\n\n## Links\n\n[[2]]");
    assert_eq!(insert_in_links_section("", "[[2]]", true), "## Links\n\n[[2]]");
    assert_eq!(insert_in_links_section("# T\n", "[[2]]", false), "# T\n\n[[2]]");
    assert_eq!(insert_content("# T", "[[2]]", "section", true), "# T\n\n## Links\n\n[[2]]");
}

#[test]
fn titles_of_notes() {
    assert_eq!(note_title("intro\n#  My Title \ntext", "1a - File", "1a"), "My Title");
    assert_eq!(note_title("a\nb\nc\nd\n# Fifth", "1a", "1a"), "Fifth");
    assert_eq!(note_title("a\nb\nc\nd\ne\n# Sixth", "1a - File Name", "1a"), "File Name");
    assert_eq!(note_title("", "1a_-_x", "1a"), "x");
    assert_eq!(note_title("", "Untitled", ""), "Untitled");
    assert_eq!(note_title("#none", "2b", "1a"), "2b");
}

#[test]
fn files_that_are_a_note() {
    assert!(filename_names_note("1a.md", "1a"));
    assert!(filename_names_note("1a - Title.md", "1a"));
    assert!(filename_names_note("1a_x.md", "1a"));
    assert!(!filename_names_note("1a2.md", "1a"));
    assert!(!filename_names_note("1ab.md", "1a"));
    assert!(!filename_names_note("1aé.md", "1a"));
    assert!(!filename_names_note("1a.txt", "1a"));
    assert!(!filename_names_note("1a", "1a"));
    assert!(!filename_names_note("2.md", "1a"));
    assert!(!filename_names_note(".md", "1a"));
    assert!(filename_names_note(".md", ""));
}

#[test]
fn white_space_around_texts() {
    assert_eq!(trimmed("  a b \n"), "a b");
    assert_eq!(trimmed("\u{a0}a\u{2003}"), "a");
    assert_eq!(trimmed(" \t\n"), "");
    assert_eq!(trimmed_start("  a b "), "a b ");
    assert_eq!(trimmed_end("  a b \r\n"), "  a b");
    assert!(blank(""));
    assert!(blank(" \n\t"));
    assert!(!blank(" x "));
}

#[test]
fn replacing_and_joining() {
    assert_eq!(replace_all("aaa", "aa", "b"), "ba");
    assert_eq!(replace_all("a-b-c", "-", "--"), "a--b--c");
    assert_eq!(replace_all("abc", "", "x"), "abc");
    assert_eq!(replace_all("{{t}}{{t}}", "{{t}}", ""), "");
    assert_eq!(replace_all("ab", "abc", "x"), "ab");
    let parts: Vec<String> = ["a", "", "c"].iter().map(|s| s.to_string()).collect();
    assert_eq!(join(&parts, ", "), "a, , c");
    assert_eq!(join(&Vec::new(), ", "), "");
    assert_eq!(join(&parts[..1].to_vec(), ", "), "a");
}

#[test]
fn lines_of_texts() {
    for text in ["", "a", "a\n", "a\nb", "\n", "\n\n", "a\r\nb\r\n", "a\r", "a\r\n\rb", "\r\n", "x\n\ny"] {
        let expected: Vec<String> = text.lines().map(|l| l.to_string()).collect();
        assert_eq!(lines(text), expected);
    }
    assert_eq!(lines("a\r\nb\n\nc"), vec!["a", "b", "", "c"]);
}

#[test]
fn loading_a_configuration() {
    let none = EnvOverrides { vault: None, editor: None, match_rule: None };
    let loaded = ConfigManager::load_config(None, None, &none).unwrap();
    assert_eq!(loaded.id.match_rule, "fuzzy");
    assert_eq!(loaded.id.separator, " - ");
    assert_eq!(loaded.id.max_depth, 10);
    assert_eq!(loaded.vault.exclude_dirs, vec!["_layouts", "templates", "scripts"]);
    assert_eq!(loaded.note.extension, "md");
    assert_eq!(loaded.note.date_format, "%Y-%m-%d");
    assert_eq!(loaded.template.default_template, "default");
    assert_eq!(loaded.output.default_format, "human");
    assert_eq!(loaded.output.color, "auto");
    assert_eq!(loaded.output.pager, "auto");
    assert_eq!(loaded.performance.cache_max_age, 3600);
    assert_eq!(loaded.performance.cache_max_size, 100);

    let mut global = ZettelConfig::default();
    global.id.separator = "_".to_string();
    let mut vault = ZettelConfig::default();
    vault.id.match_rule = "strict".to_string();
    let loaded = ConfigManager::load_config(Some(global.clone()), Some(vault), &none).unwrap();
    assert_eq!(loaded.id.match_rule, "strict");
    assert_eq!(loaded.id.separator, " - ");
    let loaded = ConfigManager::load_config(Some(global), None, &none).unwrap();
    assert_eq!(loaded.id.separator, "_");

    let env = EnvOverrides {
        vault: Some("/notes".to_string()),
        editor: Some("hx".to_string()),
        match_rule: Some("separator".to_string()),
    };
    let loaded = ConfigManager::load_config(None, None, &env).unwrap();
    assert_eq!(loaded.vault.default_path, Some("/notes".to_string()));
    assert_eq!(loaded.editor.command, Some("hx".to_string()));
    assert_eq!(loaded.id.match_rule, "separator");

    let env = EnvOverrides { vault: None, editor: None, match_rule: Some("loose".to_string()) };
    assert_eq!(
        ConfigManager::load_config(None, None, &env).err(),
        Some(ConfigError::ValidationError(
            "Invalid match_rule 'loose'. Must be one of: strict, separator, fuzzy".to_string()
        ))
    );
}

#[test]
fn complaints_about_a_configuration() {
    let mut config = ZettelConfig::default();
    config.id.match_rule = "separator".to_string();
    config.id.separator = String::new();
    assert_eq!(
        ConfigManager::validate_config(&config),
        Err(ConfigError::ValidationError(
            "Separator cannot be empty when match_rule is 'separator'".to_string()
        ))
    );
    let mut config = ZettelConfig::default();
    config.template.enabled = true;
    assert_eq!(
        ConfigManager::validate_config(&config),
        Err(ConfigError::ValidationError(
            "Template file or directory must be specified when templates are enabled".to_string()
        ))
    );
    config.template.directory = "templates".to_string();
    assert_eq!(ConfigManager::validate_config(&config), Ok(()));
    config.output.default_format = "yaml".to_string();
    assert_eq!(
        ConfigManager::validate_config(&config),
        Err(ConfigError::ValidationError(
            "Invalid output format 'yaml'. Must be one of: human, json, csv, xml".to_string()
        ))
    );
    for format in ["human", "json", "csv", "xml"] {
        config.output.default_format = format.to_string();
        assert!(ConfigManager::validate_config(&config).is_ok());
    }
}

#[test]
fn text_of_the_default_configuration() {
    let text = ConfigManager::generate_default_config();
    assert!(text.starts_with("# Zettel Configuration File\n#\n# This file controls"));
    assert!(text.contains("\n[id]\n# ID matching rule: \"strict\", \"separator\", or \"fuzzy\"\nmatch_rule = \"fuzzy\"\n\n# Separator"));
    assert!(text.ends_with("# Use parallel processing for file operations\nparallel_processing = true\n"));
    assert_eq!(text.lines().count(), 78);
    assert!(ConfigManager::try_load_global_config().unwrap().is_none());
    let merged = ConfigManager::merge_configs(ZettelConfig::default(), {
        let mut other = ZettelConfig::default();
        other.note.extension = "txt".to_string();
        other
    });
    assert_eq!(merged.note.extension, "txt");
}

#[test]
fn titles_in_lists() {
    assert_eq!(listed_title("1a - My Note.md"), Some("My Note".to_string()));
    assert_eq!(listed_title("1a.md"), None);
    assert_eq!(listed_title("1a - .md"), None);
    assert_eq!(listed_title("1a - Title"), None);
    assert_eq!(listed_title("1a - One - Two.md"), None);
    assert_eq!(listed_title("1a - x.md - y"), Some("x".to_string()));
    assert_eq!(listed_title(" - t.md"), Some("t".to_string()));
}

#[test]
fn titles_of_documents() {
    assert_eq!(document_title("text

  # The Title  
more"), Some("The Title".to_string()));
    assert_eq!(document_title("# First
# Second"), Some("First".to_string()));
    assert_eq!(document_title("## Section
#none"), None);
    assert_eq!(document_title(""), None);
}
