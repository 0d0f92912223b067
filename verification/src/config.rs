//! The configuration of a vault: every setting with its default, and the
//! rules that a configuration must meet.

use vstd::prelude::*;
use vstd::string::StringExecFns;
use crate::text::text_eq;

verus! {

/// Why a configuration could not be loaded or was refused.
#[derive(Debug, Clone, PartialEq)]
pub enum ConfigError {
    /// A configuration file is missing; the payload is its path.
    FileNotFound(String),
    /// A configuration file is not valid TOML.
    ParseError { file: String, error: String },
    /// A setting has a value that is not allowed; the payload says which.
    ValidationError(String),
    /// A configuration file could not be read; the payload is the message
    /// of the operating system.
    IoError(String),
}

/// The complete configuration, one section per area.
#[derive(Debug, Clone)]
pub struct ZettelConfig {
    pub vault: VaultConfig,
    pub id: IdConfig,
    pub note: NoteConfig,
    pub template: TemplateConfig,
    pub linking: LinkingConfig,
    pub editor: EditorConfig,
    pub output: OutputConfig,
    pub performance: PerformanceConfig,
}

/// Settings of the vault as a whole.
#[derive(Debug, Clone)]
pub struct VaultConfig {
    /// The vault to use when none is given.
    pub default_path: Option<String>,
    /// Whether the search index is rebuilt when files change.
    pub auto_index: bool,
    /// Whether a backup is made before a destructive operation.
    pub backup_on_change: bool,
    /// Directories, relative to the vault, that are left alone.
    pub exclude_dirs: Vec<String>,
    /// File patterns that are left alone.
    pub exclude_patterns: Vec<String>,
}

/// How identifiers are found in file names.
#[derive(Debug, Clone)]
pub struct IdConfig {
    /// The matching rule: `strict`, `separator` or `fuzzy`.
    pub match_rule: String,
    /// What stands between identifier and title in a file name.
    pub separator: String,
    /// Whether letters of any script count as identifier characters.
    pub allow_unicode: bool,
    /// The greatest depth of the hierarchy; zero for no limit.
    pub max_depth: u32,
}

/// How new notes are named and where they go.
#[derive(Debug, Clone)]
pub struct NoteConfig {
    /// Whether the title is part of the file name.
    pub add_title: bool,
    /// Whether the title is added as an alias in the front matter.
    pub add_alias: bool,
    /// The extension of new notes.
    pub extension: String,
    /// The directory of new notes, relative to the vault.
    pub default_directory: String,
    /// Whether notes go into directories named by date.
    pub use_date_directories: bool,
    /// The format of those directory names.
    pub date_format: String,
}

/// Whether and how templates are used for new notes.
#[derive(Debug, Clone)]
pub struct TemplateConfig {
    /// Whether a template is used at all.
    pub enabled: bool,
    /// The template file, relative to the vault.
    pub file: String,
    /// A directory of templates.
    pub directory: String,
    /// The template to take from the directory.
    pub default_template: String,
    /// Whether a template must hold the title placeholder.
    pub require_title: bool,
    /// Whether a template must hold the link placeholder.
    pub require_link: bool,
}

/// How parent and child notes are linked.
#[derive(Debug, Clone)]
pub struct LinkingConfig {
    /// Whether a new child is linked from its parent.
    pub insert_in_parent: bool,
    /// Whether a new child links to its parent.
    pub insert_in_child: bool,
    /// Whether links show the title.
    pub use_title_alias: bool,
    /// A custom format for links.
    pub format: Option<String>,
}

/// How the editor is started.
#[derive(Debug, Clone)]
pub struct EditorConfig {
    /// The editor command.
    pub command: Option<String>,
    /// Arguments for the editor.
    pub args: Vec<String>,
    /// Whether to wait for the editor to exit.
    pub wait: bool,
    /// The working directory of the editor, relative to the vault.
    pub working_directory: Option<String>,
}

/// How output is formatted.
#[derive(Debug, Clone)]
pub struct OutputConfig {
    /// The default format: `human`, `json`, `csv` or `xml`.
    pub default_format: String,
    /// Colour: `auto`, `always` or `never`.
    pub color: String,
    /// Pager: `auto`, `always` or `never`.
    pub pager: String,
    /// The format of dates.
    pub date_format: String,
    /// Whether dates are shown relative to today.
    pub relative_dates: bool,
}

/// Caching and parallelism.
#[derive(Debug, Clone)]
pub struct PerformanceConfig {
    /// Whether the file system cache is used.
    pub cache_enabled: bool,
    /// The greatest age of a cache entry, in seconds.
    pub cache_max_age: u64,
    /// The greatest size of the cache, in megabytes.
    pub cache_max_size: u64,
    /// Whether files are processed in parallel.
    pub parallel_processing: bool,
    /// The greatest number of threads.
    pub max_threads: Option<usize>,
}

/// Settings taken from the environment; they override the files.
#[derive(Debug, Clone)]
pub struct EnvOverrides {
    /// The vault path.
    pub vault: Option<String>,
    /// The editor command.
    pub editor: Option<String>,
    /// The matching rule.
    pub match_rule: Option<String>,
}

/// The matching rule under which a file name is the identifier and nothing
/// else.
pub const MATCH_RULE_STRICT: &'static str = "strict";

/// The matching rule under which the separator follows the identifier.
pub const MATCH_RULE_SEPARATOR: &'static str = "separator";

/// The matching rule under which anything that is no identifier character may
/// follow the identifier.
pub const MATCH_RULE_FUZZY: &'static str = "fuzzy";

/// The separator between identifier and title, unless another is set.
pub const DEFAULT_SEPARATOR: &'static str = " - ";

/// The extension of new notes, unless another is set.
pub const DEFAULT_EXTENSION: &'static str = "md";

/// The name of the template that is taken from a directory of templates.
pub const DEFAULT_TEMPLATE_NAME: &'static str = "default";

/// The format of dates, unless another is set.
pub const DEFAULT_DATE_FORMAT: &'static str = "%Y-%m-%d";

/// The output format for people.
pub const FORMAT_HUMAN: &'static str = "human";

/// The output format JSON.
pub const FORMAT_JSON: &'static str = "json";

/// The output format CSV.
pub const FORMAT_CSV: &'static str = "csv";

/// The output format XML.
pub const FORMAT_XML: &'static str = "xml";

/// The setting that leaves colour and pager to the terminal.
pub const AUTO: &'static str = "auto";

/// What the complaint about a matching rule says before the rule.
pub const MATCH_RULE_MESSAGE_HEAD: &'static str = "Invalid match_rule '";

/// What the complaint about a matching rule says after the rule.
pub const MATCH_RULE_MESSAGE_TAIL: &'static str = "'. Must be one of: strict, separator, fuzzy";

/// The complaint about an empty separator.
pub const SEPARATOR_MESSAGE: &'static str =
    "Separator cannot be empty when match_rule is 'separator'";

/// The complaint about templates that are enabled but not named.
pub const TEMPLATE_MESSAGE: &'static str =
    "Template file or directory must be specified when templates are enabled";

/// What the complaint about an output format says before the format.
pub const FORMAT_MESSAGE_HEAD: &'static str = "Invalid output format '";

/// What the complaint about an output format says after the format.
pub const FORMAT_MESSAGE_TAIL: &'static str = "'. Must be one of: human, json, csv, xml";

/// The text of a configuration file that holds every default, with a
/// comment on each setting.
pub const DEFAULT_CONFIG_TEXT: &'static str = "# Zettel Configuration File\n\
#\n\
# This file controls how the zettel CLI tool behaves.\n\
# Lines starting with # are comments and are ignored.\n\
\n\
[vault]\n\
# Default vault path if not specified via --vault or ZETTEL_VAULT\n\
# default_path = \"~/notes\"\n\
\n\
# Automatically rebuild search index when files change\n\
auto_index = true\n\
\n\
# Create backup files before destructive operations\n\
backup_on_change = false\n\
\n\
[id]\n\
# ID matching rule: \"strict\", \"separator\", or \"fuzzy\"\n\
match_rule = \"fuzzy\"\n\
\n\
# Separator between ID and title in filenames\n\
separator = \" - \"\n\
\n\
# Allow Unicode characters in IDs (may cause filesystem issues)\n\
allow_unicode = false\n\
\n\
[note]\n\
# Include note title in filename\n\
add_title = false\n\
\n\
# Add note title as frontmatter alias\n\
add_alias = false\n\
\n\
# File extension for new notes\n\
extension = \"md\"\n\
\n\
[template]\n\
# Use custom template files\n\
enabled = false\n\
\n\
# Path to template file (relative to vault root)\n\
# file = \"templates/note.md\"\n\
\n\
[linking]\n\
# Insert link to child in parent when creating children\n\
insert_in_parent = true\n\
\n\
# Insert link to parent in child when creating children\n\
insert_in_child = true\n\
\n\
# Use title as display text in links\n\
use_title_alias = false\n\
\n\
[editor]\n\
# Editor command (overrides ZETTEL_EDITOR and EDITOR env vars)\n\
# command = \"helix\"\n\
\n\
# Arguments to pass to editor (supports {file}, {line}, {col} placeholders)\n\
# args = [\"+{line}:{col}\"]\n\
\n\
[output]\n\
# Default output format: \"human\", \"json\", \"csv\"\n\
default_format = \"human\"\n\
\n\
# Color output: \"auto\", \"always\", \"never\"\n\
color = \"auto\"\n\
\n\
# Use pager for long output: \"auto\", \"always\", \"never\"\n\
pager = \"auto\"\n\
\n\
[performance]\n\
# Enable file system caching\n\
cache_enabled = true\n\
\n\
# Maximum cache age in seconds\n\
cache_max_age = 3600\n\
\n\
# Use parallel processing for file operations\n\
parallel_processing = true\n\
";

/// The default of a setting that is on.
pub fn default_true() -> (r: bool)
    ensures
        r,
{
    true
}

/// The default of a setting that is off.
pub fn default_false() -> (r: bool)
    ensures
        !r,
{
    false
}

/// The default matching rule.
pub fn default_match_rule() -> (r: String)
    ensures
        r@ == MATCH_RULE_FUZZY@,
{
    String::from_str(MATCH_RULE_FUZZY)
}

/// The default separator between identifier and title.
pub fn default_separator() -> (r: String)
    ensures
        r@ == DEFAULT_SEPARATOR@,
{
    String::from_str(DEFAULT_SEPARATOR)
}

/// The default extension of notes.
pub fn default_extension() -> (r: String)
    ensures
        r@ == DEFAULT_EXTENSION@,
{
    String::from_str(DEFAULT_EXTENSION)
}

/// The default name of the template in a directory of templates.
pub fn default_template_name() -> (r: String)
    ensures
        r@ == DEFAULT_TEMPLATE_NAME@,
{
    String::from_str(DEFAULT_TEMPLATE_NAME)
}

/// The default format of dates.
pub fn default_date_format() -> (r: String)
    ensures
        r@ == DEFAULT_DATE_FORMAT@,
{
    String::from_str(DEFAULT_DATE_FORMAT)
}

/// The default output format.
pub fn default_output_format() -> (r: String)
    ensures
        r@ == FORMAT_HUMAN@,
{
    String::from_str(FORMAT_HUMAN)
}

/// The default colour setting.
pub fn default_color() -> (r: String)
    ensures
        r@ == AUTO@,
{
    String::from_str(AUTO)
}

/// The default pager setting.
pub fn default_pager() -> (r: String)
    ensures
        r@ == AUTO@,
{
    String::from_str(AUTO)
}

/// The default greatest depth of the hierarchy.
pub fn default_max_depth() -> (r: u32)
    ensures
        r == 10,
{
    10
}

/// The default greatest age of a cache entry, in seconds.
pub fn default_cache_max_age() -> (r: u64)
    ensures
        r == 3600,
{
    3600
}

/// The default greatest size of the cache, in megabytes.
pub fn default_cache_max_size() -> (r: u64)
    ensures
        r == 100,
{
    100
}

impl Default for VaultConfig {
    fn default() -> (r: Self)
        ensures
            r.default_path is None,
            r.auto_index,
            !r.backup_on_change,
            r.exclude_dirs@.len() == 3,
            r.exclude_dirs@[0]@ == "_layouts"@,
            r.exclude_dirs@[1]@ == "templates"@,
            r.exclude_dirs@[2]@ == "scripts"@,
            r.exclude_patterns@.len() == 0,
    {
        let mut exclude_dirs: Vec<String> = Vec::new();
        exclude_dirs.push(String::from_str("_layouts"));
        exclude_dirs.push(String::from_str("templates"));
        exclude_dirs.push(String::from_str("scripts"));
        VaultConfig {
            default_path: None,
            auto_index: true,
            backup_on_change: false,
            exclude_dirs,
            exclude_patterns: Vec::new(),
        }
    }
}

impl Default for IdConfig {
    fn default() -> (r: Self)
        ensures
            r.match_rule@ == MATCH_RULE_FUZZY@,
            r.separator@ == DEFAULT_SEPARATOR@,
            !r.allow_unicode,
            r.max_depth == 10,
    {
        IdConfig {
            match_rule: default_match_rule(),
            separator: default_separator(),
            allow_unicode: false,
            max_depth: default_max_depth(),
        }
    }
}

impl Default for NoteConfig {
    fn default() -> (r: Self)
        ensures
            !r.add_title,
            !r.add_alias,
            r.extension@ == DEFAULT_EXTENSION@,
            r.default_directory@.len() == 0,
            !r.use_date_directories,
            r.date_format@ == DEFAULT_DATE_FORMAT@,
    {
        NoteConfig {
            add_title: false,
            add_alias: false,
            extension: default_extension(),
            default_directory: String::new(),
            use_date_directories: false,
            date_format: default_date_format(),
        }
    }
}

impl Default for TemplateConfig {
    fn default() -> (r: Self)
        ensures
            !r.enabled,
            r.file@.len() == 0,
            r.directory@.len() == 0,
            r.default_template@ == DEFAULT_TEMPLATE_NAME@,
            r.require_title,
            r.require_link,
    {
        TemplateConfig {
            enabled: false,
            file: String::new(),
            directory: String::new(),
            default_template: default_template_name(),
            require_title: true,
            require_link: true,
        }
    }
}

impl Default for LinkingConfig {
    fn default() -> (r: Self)
        ensures
            r.insert_in_parent,
            r.insert_in_child,
            !r.use_title_alias,
            r.format is None,
    {
        LinkingConfig {
            insert_in_parent: true,
            insert_in_child: true,
            use_title_alias: false,
            format: None,
        }
    }
}

impl Default for EditorConfig {
    fn default() -> (r: Self)
        ensures
            r.command is None,
            r.args@.len() == 0,
            r.wait,
            r.working_directory is None,
    {
        EditorConfig { command: None, args: Vec::new(), wait: true, working_directory: None }
    }
}

impl Default for OutputConfig {
    fn default() -> (r: Self)
        ensures
            r.default_format@ == FORMAT_HUMAN@,
            r.color@ == AUTO@,
            r.pager@ == AUTO@,
            r.date_format@ == DEFAULT_DATE_FORMAT@,
            r.relative_dates,
    {
        OutputConfig {
            default_format: default_output_format(),
            color: default_color(),
            pager: default_pager(),
            date_format: default_date_format(),
            relative_dates: true,
        }
    }
}

impl Default for PerformanceConfig {
    fn default() -> (r: Self)
        ensures
            r.cache_enabled,
            r.cache_max_age == 3600,
            r.cache_max_size == 100,
            r.parallel_processing,
            r.max_threads is None,
    {
        PerformanceConfig {
            cache_enabled: true,
            cache_max_age: default_cache_max_age(),
            cache_max_size: default_cache_max_size(),
            parallel_processing: true,
            max_threads: None,
        }
    }
}

impl Default for ZettelConfig {
    fn default() -> (r: Self)
        ensures
            has_defaults(r),
            complaint(r) is None,
    {
        proof {
            reveal_strlit("fuzzy");
            reveal_strlit("separator");
            assert(MATCH_RULE_FUZZY@.len() != MATCH_RULE_SEPARATOR@.len());
        }
        ZettelConfig {
            vault: VaultConfig::default(),
            id: IdConfig::default(),
            note: NoteConfig::default(),
            template: TemplateConfig::default(),
            linking: LinkingConfig::default(),
            editor: EditorConfig::default(),
            output: OutputConfig::default(),
            performance: PerformanceConfig::default(),
        }
    }
}

/// Whether `rule` names one of the three matching rules.
pub open spec fn known_match_rule(rule: Seq<char>) -> bool {
    rule == MATCH_RULE_STRICT@ || rule == MATCH_RULE_SEPARATOR@ || rule == MATCH_RULE_FUZZY@
}

/// Whether `format` names one of the four output formats.
pub open spec fn known_output_format(format: Seq<char>) -> bool {
    format == FORMAT_HUMAN@ || format == FORMAT_JSON@ || format == FORMAT_CSV@ || format
        == FORMAT_XML@
}

/// The first thing that is wrong with a configuration, as a message, or
/// nothing. The matching rule is looked at first, then the separator, then
/// the template settings, then the output format.
pub open spec fn complaint(config: ZettelConfig) -> Option<Seq<char>> {
    if !known_match_rule(config.id.match_rule@) {
        Some(MATCH_RULE_MESSAGE_HEAD@ + config.id.match_rule@ + MATCH_RULE_MESSAGE_TAIL@)
    } else if config.id.match_rule@ == MATCH_RULE_SEPARATOR@ && config.id.separator@.len() == 0 {
        Some(SEPARATOR_MESSAGE@)
    } else if config.template.enabled && config.template.file@.len() == 0
        && config.template.directory@.len() == 0 {
        Some(TEMPLATE_MESSAGE@)
    } else if !known_output_format(config.output.default_format@) {
        Some(FORMAT_MESSAGE_HEAD@ + config.output.default_format@ + FORMAT_MESSAGE_TAIL@)
    } else {
        None
    }
}

/// The configuration after the settings of the environment were applied.
pub open spec fn overridden(before: ZettelConfig, after: ZettelConfig, env: EnvOverrides) -> bool {
    &&& match env.vault {
        Some(v) => after.vault.default_path matches Some(p) && p@ == v@,
        None => after.vault.default_path == before.vault.default_path,
    }
    &&& match env.editor {
        Some(e) => after.editor.command matches Some(c) && c@ == e@,
        None => after.editor.command == before.editor.command,
    }
    &&& match env.match_rule {
        Some(m) => after.id.match_rule@ == m@,
        None => after.id.match_rule == before.id.match_rule,
    }
    &&& after.vault.auto_index == before.vault.auto_index
    &&& after.vault.backup_on_change == before.vault.backup_on_change
    &&& after.vault.exclude_dirs == before.vault.exclude_dirs
    &&& after.vault.exclude_patterns == before.vault.exclude_patterns
    &&& after.id.separator == before.id.separator
    &&& after.id.allow_unicode == before.id.allow_unicode
    &&& after.id.max_depth == before.id.max_depth
    &&& after.note == before.note
    &&& after.template == before.template
    &&& after.linking == before.linking
    &&& after.editor.args == before.editor.args
    &&& after.editor.wait == before.editor.wait
    &&& after.editor.working_directory == before.editor.working_directory
    &&& after.output == before.output
    &&& after.performance == before.performance
}

/// Every setting has its default value.
pub open spec fn has_defaults(c: ZettelConfig) -> bool {
    &&& c.vault.default_path is None
    &&& c.vault.auto_index
    &&& !c.vault.backup_on_change
    &&& c.vault.exclude_dirs@.len() == 3
    &&& c.vault.exclude_dirs@[0]@ == "_layouts"@
    &&& c.vault.exclude_dirs@[1]@ == "templates"@
    &&& c.vault.exclude_dirs@[2]@ == "scripts"@
    &&& c.vault.exclude_patterns@.len() == 0
    &&& c.id.match_rule@ == MATCH_RULE_FUZZY@
    &&& c.id.separator@ == DEFAULT_SEPARATOR@
    &&& !c.id.allow_unicode
    &&& c.id.max_depth == 10
    &&& !c.note.add_title
    &&& !c.note.add_alias
    &&& c.note.extension@ == DEFAULT_EXTENSION@
    &&& c.note.default_directory@.len() == 0
    &&& !c.note.use_date_directories
    &&& c.note.date_format@ == DEFAULT_DATE_FORMAT@
    &&& !c.template.enabled
    &&& c.template.file@.len() == 0
    &&& c.template.directory@.len() == 0
    &&& c.template.default_template@ == DEFAULT_TEMPLATE_NAME@
    &&& c.template.require_title
    &&& c.template.require_link
    &&& c.linking.insert_in_parent
    &&& c.linking.insert_in_child
    &&& !c.linking.use_title_alias
    &&& c.linking.format is None
    &&& c.editor.command is None
    &&& c.editor.args@.len() == 0
    &&& c.editor.wait
    &&& c.editor.working_directory is None
    &&& c.output.default_format@ == FORMAT_HUMAN@
    &&& c.output.color@ == AUTO@
    &&& c.output.pager@ == AUTO@
    &&& c.output.date_format@ == DEFAULT_DATE_FORMAT@
    &&& c.output.relative_dates
    &&& c.performance.cache_enabled
    &&& c.performance.cache_max_age == 3600
    &&& c.performance.cache_max_size == 100
    &&& c.performance.parallel_processing
    &&& c.performance.max_threads is None
}

/// `base` is the configuration that the files give: that of the vault if
/// there is one, else the global one if there is one, else the defaults.
pub open spec fn is_base(
    base: ZettelConfig,
    global: Option<ZettelConfig>,
    vault: Option<ZettelConfig>,
) -> bool {
    match vault {
        Some(v) => base == v,
        None => match global {
            Some(g) => base == g,
            None => has_defaults(base),
        },
    }
}

/// Loads, merges and checks configurations.
pub struct ConfigManager;

impl ConfigManager {
    /// Puts a configuration together from its sources: the defaults, over
    /// them the global configuration if there is one, over that the
    /// configuration of the vault if there is one, over that the settings
    /// of the environment. The result is checked before it is handed out.
    pub fn load_config(
        global: Option<ZettelConfig>,
        vault: Option<ZettelConfig>,
        env: &EnvOverrides,
    ) -> (r: Result<ZettelConfig, ConfigError>)
        ensures
            exists|base: ZettelConfig, merged: ZettelConfig|
                #![trigger overridden(base, merged, *env)]
                {
                    &&& is_base(base, global, vault)
                    &&& overridden(base, merged, *env)
                    &&& match r {
                        Ok(config) => config == merged && complaint(merged) is None,
                        Err(e) => e matches ConfigError::ValidationError(m) && complaint(merged)
                            == Some(m@),
                    }
                },
    {
        let mut config = ZettelConfig::default();
        match global {
            Some(g) => {
                config = Self::merge_configs(config, g);
            },
            None => {},
        }
        match vault {
            Some(v) => {
                config = Self::merge_configs(config, v);
            },
            None => {},
        }
        let ghost base = config;
        Self::apply_env_overrides(&mut config, env);
        match Self::validate_config(&config) {
            Ok(()) => {
                assert(is_base(base, global, vault) && overridden(base, config, *env));
                Ok(config)
            },
            Err(e) => {
                assert(is_base(base, global, vault) && overridden(base, config, *env));
                Err(e)
            },
        }
    }

    /// The text of a configuration file that holds every default.
    pub fn generate_default_config() -> (r: String)
        ensures
            r@ == DEFAULT_CONFIG_TEXT@,
    {
        String::from_str(DEFAULT_CONFIG_TEXT)
    }

    /// The global configuration. None is kept, so there is never one.
    pub fn try_load_global_config() -> (r: Result<Option<ZettelConfig>, ConfigError>)
        ensures
            r matches Ok(c) && c is None,
    {
        Ok(None)
    }

    /// Merges two configurations; the second one wins as a whole.
    pub fn merge_configs(base: ZettelConfig, override_config: ZettelConfig) -> (r: ZettelConfig)
        ensures
            r == override_config,
    {
        override_config
    }

    /// Applies the settings of the environment: the vault path, the editor
    /// command and the matching rule, each where it is set.
    pub fn apply_env_overrides(config: &mut ZettelConfig, env: &EnvOverrides)
        ensures
            overridden(*old(config), *final(config), *env),
    {
        match &env.vault {
            Some(vault) => {
                config.vault.default_path = Some(vault.clone());
            },
            None => {},
        }
        match &env.editor {
            Some(editor) => {
                config.editor.command = Some(editor.clone());
            },
            None => {},
        }
        match &env.match_rule {
            Some(match_rule) => {
                config.id.match_rule = match_rule.clone();
            },
            None => {},
        }
    }

    /// Checks a configuration and reports the first thing that is wrong
    /// with it.
    pub fn validate_config(config: &ZettelConfig) -> (r: Result<(), ConfigError>)
        ensures
            match r {
                Ok(_) => complaint(*config) is None,
                Err(e) => e matches ConfigError::ValidationError(m) && complaint(*config) == Some(
                    m@,
                ),
            },
    {
        let rule = config.id.match_rule.as_str();
        let is_separator = text_eq(rule, MATCH_RULE_SEPARATOR);
        if !(text_eq(rule, MATCH_RULE_STRICT) || is_separator || text_eq(rule, MATCH_RULE_FUZZY)) {
            let mut message = String::from_str(MATCH_RULE_MESSAGE_HEAD);
            message.append(rule);
            message.append(MATCH_RULE_MESSAGE_TAIL);
            return Err(ConfigError::ValidationError(message));
        }
        if is_separator && config.id.separator.as_str().unicode_len() == 0 {
            return Err(ConfigError::ValidationError(String::from_str(SEPARATOR_MESSAGE)));
        }
        if config.template.enabled {
            if config.template.file.as_str().unicode_len() == 0
                && config.template.directory.as_str().unicode_len() == 0 {
                return Err(ConfigError::ValidationError(String::from_str(TEMPLATE_MESSAGE)));
            }
        }
        let format = config.output.default_format.as_str();
        if !(text_eq(format, FORMAT_HUMAN) || text_eq(format, FORMAT_JSON) || text_eq(
            format,
            FORMAT_CSV,
        ) || text_eq(format, FORMAT_XML)) {
            let mut message = String::from_str(FORMAT_MESSAGE_HEAD);
            message.append(format);
            message.append(FORMAT_MESSAGE_TAIL);
            return Err(ConfigError::ValidationError(message));
        }
        Ok(())
    }
}

} // verus!
