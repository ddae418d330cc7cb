//! `ravel.toml` configuration: its schema, its validation, how the file is
//! found by walking up from a directory, and how the command line chooses
//! between an explicit file, discovery and the defaults.

use vstd::prelude::*;

use crate::formatter::style::FormatStyle;
use crate::text::{decimal, decimal_string};

verus! {

/// The name of the configuration file looked for in each directory.
pub const CONFIG_FILE_NAME: &'static str = "ravel.toml";

/// The smallest accepted width.
pub const MIN_WIDTH: u32 = 1;

/// The largest accepted width.
pub const MAX_WIDTH: u32 = 1000;

pub const DEFAULT_LINE_WIDTH: u32 = 80;

pub const DEFAULT_INDENT_WIDTH: u32 = 2;

/// The whole configuration file.
#[derive(Debug, Clone, Copy, PartialEq, Eq, Structural)]
pub struct Config {
    pub format: FormatConfig,
    pub lint: LintConfig,
}

/// The `[format]` table.
#[derive(Debug, Clone, Copy, PartialEq, Eq, Structural)]
pub struct FormatConfig {
    pub line_width: u32,
    pub indent_width: u32,
}

/// The `[lint]` table, which has no settings yet.
#[derive(Debug, Clone, Copy, PartialEq, Eq, Structural)]
pub struct LintConfig {}

/// Why a configuration could not be had.
#[allow(inconsistent_fields)]
#[derive(Debug)]
pub enum ConfigError {
    /// The file could not be read.
    Io { path: String, message: String },
    /// The file is not valid TOML for the schema; `line` and `column` are
    /// 1-based.
    Parse { path: String, line: usize, column: usize, message: String },
    /// A value is out of range.
    InvalidValue { path: Option<String>, field: String, message: String },
}

impl Default for FormatConfig {
    fn default() -> (c: Self)
        ensures
            c.line_width == DEFAULT_LINE_WIDTH,
            c.indent_width == DEFAULT_INDENT_WIDTH,
    {
        FormatConfig { line_width: DEFAULT_LINE_WIDTH, indent_width: DEFAULT_INDENT_WIDTH }
    }
}

impl Default for LintConfig {
    fn default() -> (c: Self) {
        LintConfig {  }
    }
}

impl Default for Config {
    fn default() -> (c: Self)
        ensures
            c.format.line_width == DEFAULT_LINE_WIDTH,
            c.format.indent_width == DEFAULT_INDENT_WIDTH,
    {
        Config { format: FormatConfig::default(), lint: LintConfig::default() }
    }
}

/// A width is accepted when it lies in `MIN_WIDTH..=MAX_WIDTH`.
pub open spec fn width_ok(value: u32) -> bool {
    MIN_WIDTH <= value <= MAX_WIDTH
}

/// A width is accepted exactly when it lies between 1 and 1000, the
/// bounds that the error message names.
pub proof fn law_width_bounds(value: u32)
    ensures
        width_ok(value) <==> 1 <= value <= 1000,
{
}

/// The message of an out-of-range width.
pub open spec fn width_message(value: u32) -> Seq<char> {
    "must be between 1 and 1000, got "@ + decimal(value as nat)
}

pub open spec fn opt_str(p: Option<&str>) -> Option<Seq<char>> {
    match p {
        Some(s) => Some(s@),
        None => None,
    }
}

pub open spec fn opt_string(p: Option<String>) -> Option<Seq<char>> {
    match p {
        Some(s) => Some(s@),
        None => None,
    }
}

/// `e` is the error for field `field` holding the out-of-range `value`, found
/// in the file `path` if it is known.
pub open spec fn is_width_error(e: ConfigError, field: Seq<char>, value: u32, path: Option<
    Seq<char>,
>) -> bool {
    match e {
        ConfigError::InvalidValue { path: p, field: f, message: m } => opt_string(p) == path && f@
            == field && m@ == width_message(value),
        _ => false,
    }
}

fn path_string(path: Option<&str>) -> (r: Option<String>)
    ensures
        opt_string(r) == opt_str(path),
{
    match path {
        Some(p) => Some(String::from_str(p)),
        None => None,
    }
}

fn validate_width(field: &str, value: u32, path: Option<&str>) -> (r: Result<(), ConfigError>)
    ensures
        r is Ok <==> width_ok(value),
        r matches Err(e) ==> is_width_error(e, field@, value, opt_str(path)),
{
    if value < MIN_WIDTH || value > MAX_WIDTH {
        let mut message = String::from_str("must be between 1 and 1000, got ");
        let digits = decimal_string(value as u64);
        message.append(digits.as_str());
        return Err(
            ConfigError::InvalidValue {
                path: path_string(path),
                field: String::from_str(field),
                message,
            },
        );
    }
    Ok(())
}

impl FormatConfig {
    /// Check both widths, the line width first; `path` names the file the
    /// values came from, when there is one.
    pub fn validate(&self, path: Option<&str>) -> (r: Result<(), ConfigError>)
        ensures
            r is Ok <==> width_ok(self.line_width) && width_ok(self.indent_width),
            !width_ok(self.line_width) ==> (r matches Err(e) && is_width_error(
                e,
                "line-width"@,
                self.line_width,
                opt_str(path),
            )),
            width_ok(self.line_width) && !width_ok(self.indent_width) ==> (r matches Err(e)
                && is_width_error(e, "indent-width"@, self.indent_width, opt_str(path))),
    {
        validate_width("line-width", self.line_width, path)?;
        validate_width("indent-width", self.indent_width, path)?;
        Ok(())
    }
}

impl<'a> From<&'a FormatConfig> for FormatStyle {
    fn from(config: &'a FormatConfig) -> (s: FormatStyle) {
        FormatStyle {
            line_width: config.line_width as usize,
            indent_width: config.indent_width as usize,
        }
    }
}

impl<'a> vstd::std_specs::convert::FromSpecImpl<&'a FormatConfig> for FormatStyle {
    open spec fn obeys_from_spec() -> bool {
        true
    }

    open spec fn from_spec(config: &'a FormatConfig) -> FormatStyle {
        FormatStyle {
            line_width: config.line_width as usize,
            indent_width: config.indent_width as usize,
        }
    }
}

/// The `[format]` table with the command line's overrides applied.
pub open spec fn overridden(format: FormatConfig, line_width: Option<u32>, indent_width: Option<u32>) -> FormatConfig {
    FormatConfig {
        line_width: match line_width {
            Some(w) => w,
            None => format.line_width,
        },
        indent_width: match indent_width {
            Some(w) => w,
            None => format.indent_width,
        },
    }
}

/// The style the command line formats with: the configured widths, each
/// replaced by its `--line-width` / `--indent-width` override when given,
/// then checked as [`FormatConfig::validate`] checks them (with no file).
pub fn style_with_overrides(
    format: FormatConfig,
    line_width: Option<u32>,
    indent_width: Option<u32>,
) -> (r: Result<FormatStyle, ConfigError>)
    ensures
        ({
            let c = overridden(format, line_width, indent_width);
            &&& r is Ok <==> width_ok(c.line_width) && width_ok(c.indent_width)
            &&& r matches Ok(s) ==> s.line_width == c.line_width && s.indent_width == c.indent_width
            &&& !width_ok(c.line_width) ==> (r matches Err(e) && is_width_error(
                e,
                "line-width"@,
                c.line_width,
                None,
            ))
            &&& width_ok(c.line_width) && !width_ok(c.indent_width) ==> (r matches Err(e)
                && is_width_error(e, "indent-width"@, c.indent_width, None))
        }),
{
    let mut config = format;
    if let Some(w) = line_width {
        config.line_width = w;
    }
    if let Some(w) = indent_width {
        config.indent_width = w;
    }
    config.validate(None)?;
    Ok(FormatStyle::from(&config))
}

/// What one directory on the way up holds: a configuration file, and a
/// `.git` entry that marks the root of a repository.
#[derive(Debug)]
pub struct DirectoryProbe {
    pub dir: String,
    pub has_config_file: bool,
    pub has_git: bool,
}

/// Where to read the configuration from.
#[derive(Debug)]
pub enum ConfigSource {
    /// Use the defaults.
    Defaults,
    /// Read this file.
    File(String),
    /// Look for `ravel.toml` from the anchor directory upwards.
    Discover,
}

/// The directory, among `dirs[i..]` (the start directory, then its parents),
/// whose configuration file is used: the first that has one, unless a
/// directory holding `.git` comes before it.
pub open spec fn discovered(dirs: Seq<DirectoryProbe>, i: int) -> Option<int>
    decreases dirs.len() - i,
{
    if i < 0 || i >= dirs.len() {
        None
    } else if dirs[i].has_config_file {
        Some(i)
    } else if dirs[i].has_git {
        None
    } else {
        discovered(dirs, i + 1)
    }
}

/// Discovery takes the configuration file of the start directory when it
/// has one; whatever it finds is a directory with a configuration file, with
/// neither a configuration file nor a repository root before it; and when
/// it finds nothing, every configuration file lies beyond a repository
/// root.
pub proof fn law_discovery(dirs: Seq<DirectoryProbe>)
    ensures
        dirs.len() > 0 && dirs[0].has_config_file ==> discovered(dirs, 0) == Some(0int),
        discovered(dirs, 0) matches Some(i) ==> 0 <= i < dirs.len() && dirs[i].has_config_file
            && forall|j: int| 0 <= j < i ==> !(#[trigger] dirs[j]).has_config_file && !dirs[j].has_git,
        discovered(dirs, 0) is None ==> forall|j: int|
            0 <= j < dirs.len() && (#[trigger] dirs[j]).has_config_file ==> exists|m: int|
                0 <= m < j && (#[trigger] dirs[m]).has_git,
{
    lemma_discovered_from(dirs, 0);
}

proof fn lemma_discovered_from(dirs: Seq<DirectoryProbe>, i: int)
    requires
        0 <= i,
    ensures
        discovered(dirs, i) matches Some(r) ==> i <= r < dirs.len() && dirs[r].has_config_file
            && forall|j: int| i <= j < r ==> !(#[trigger] dirs[j]).has_config_file && !dirs[j].has_git,
        discovered(dirs, i) is None ==> forall|j: int|
            i <= j < dirs.len() && (#[trigger] dirs[j]).has_config_file ==> exists|m: int|
                i <= m < j && (#[trigger] dirs[m]).has_git,
    decreases dirs.len() - i,
{
    if i < dirs.len() && !dirs[i].has_config_file && !dirs[i].has_git {
        lemma_discovered_from(dirs, i + 1);
        if discovered(dirs, i) is None {
            assert forall|j: int|
                i <= j < dirs.len() && (#[trigger] dirs[j]).has_config_file implies exists|m: int|
                    i <= m < j && (#[trigger] dirs[m]).has_git by {
                if j > i {
                    let m = choose|m: int| i + 1 <= m < j && (#[trigger] dirs[m]).has_git;
                    assert(i <= m < j && dirs[m].has_git);
                }
            }
        }
    } else if i < dirs.len() && !dirs[i].has_config_file && dirs[i].has_git {
        assert forall|j: int|
            i <= j < dirs.len() && (#[trigger] dirs[j]).has_config_file implies exists|m: int|
                i <= m < j && (#[trigger] dirs[m]).has_git by {
            assert(dirs[i].has_git);
        }
    }
}

impl Config {
    /// Check the values of the configuration read from `path`.
    pub fn validate(&self, path: Option<&str>) -> (r: Result<(), ConfigError>)
        ensures
            r is Ok <==> width_ok(self.format.line_width) && width_ok(self.format.indent_width),
            !width_ok(self.format.line_width) ==> (r matches Err(e) && is_width_error(
                e,
                "line-width"@,
                self.format.line_width,
                opt_str(path),
            )),
            width_ok(self.format.line_width) && !width_ok(self.format.indent_width) ==> (r matches Err(
                e,
            ) && is_width_error(e, "indent-width"@, self.format.indent_width, opt_str(path))),
    {
        self.format.validate(path)
    }

    /// Walk the start directory and its ancestors, given in that order: the
    /// index of the directory whose `ravel.toml` applies, or `None` when a
    /// repository root (a directory with `.git`) or the filesystem root comes
    /// first. A configuration file in the repository root itself is found.
    pub fn discover(ancestors: &[DirectoryProbe]) -> (r: Option<usize>)
        ensures
            crate::ast::opt_index(r) == discovered(ancestors@, 0),
    {
        let mut i: usize = 0;
        while i < ancestors.len()
            invariant
                discovered(ancestors@, 0) == discovered(ancestors@, i as int),
            decreases ancestors@.len() - i,
        {
            if ancestors[i].has_config_file {
                return Some(i);
            }
            if ancestors[i].has_git {
                return None;
            }
            i += 1;
        }
        None
    }

    /// Choose where the configuration comes from: `--no-config` wins, then an
    /// explicit `--config` file, and otherwise discovery.
    pub fn resolve(explicit: Option<&str>, no_config: bool) -> (r: ConfigSource)
        ensures
            no_config ==> r is Defaults,
            !no_config && explicit is Some ==> (r matches ConfigSource::File(p) && p@
                == explicit.unwrap()@),
            !no_config && explicit is None ==> r is Discover,
    {
        if no_config {
            return ConfigSource::Defaults;
        }
        match explicit {
            Some(path) => ConfigSource::File(String::from_str(path)),
            None => ConfigSource::Discover,
        }
    }
}

/// The text of a configuration error, as the command line prints it.
pub open spec fn config_error_text(e: ConfigError) -> Seq<char> {
    match e {
        ConfigError::Io { path, message } => "failed to read "@ + path@ + ": "@ + message@,
        ConfigError::Parse { path, line, column, message } => path@ + ":"@ + decimal(line as nat)
            + ":"@ + decimal(column as nat) + ": "@ + message@,
        ConfigError::InvalidValue { path, field, message } => match path {
            Some(p) => p@ + ": invalid `"@ + field@ + "`: "@ + message@,
            None => "invalid `"@ + field@ + "`: "@ + message@,
        },
    }
}

impl ConfigError {
    /// The text of the error.
    pub fn to_message(&self) -> (r: String)
        ensures
            r@ == config_error_text(*self),
    {
        match self {
            ConfigError::Io { path, message } => {
                let mut out = String::from_str("failed to read ");
                out.append(path.as_str());
                out.append(": ");
                out.append(message.as_str());
                out
            },
            ConfigError::Parse { path, line, column, message } => {
                let mut out = path.clone();
                out.append(":");
                let l = decimal_string(*line as u64);
                out.append(l.as_str());
                out.append(":");
                let c = decimal_string(*column as u64);
                out.append(c.as_str());
                out.append(": ");
                out.append(message.as_str());
                out
            },
            ConfigError::InvalidValue { path, field, message } => {
                let mut out = match path {
                    Some(p) => {
                        let mut o = p.clone();
                        o.append(": invalid `");
                        o
                    },
                    None => String::from_str("invalid `"),
                };
                out.append(field.as_str());
                out.append("`: ");
                out.append(message.as_str());
                out
            },
        }
    }
}

} // verus!
