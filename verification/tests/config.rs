use ravel::config::{Config, ConfigError, ConfigSource, DirectoryProbe, FormatConfig};
use ravel::formatter::FormatStyle;
use ravel::text::byte_offset_to_line_col;

#[test]
fn default_config_matches_format_style_default() {
    let config = Config::default();
    let style = FormatStyle::from(&config.format);
    assert_eq!(style, FormatStyle::default());
}

#[test]
fn validate_accepts_widths_in_range() {
    let config = FormatConfig {
        line_width: 1000,
        indent_width: 1,
    };
    assert!(config.validate(None).is_ok());
}

#[test]
fn validate_rejects_zero_line_width_with_path() {
    let config = FormatConfig {
        line_width: 0,
        indent_width: 2,
    };
    match config.validate(Some("ravel.toml")) {
        Err(ConfigError::InvalidValue {
            path,
            field,
            message,
        }) => {
            assert_eq!(path.as_deref(), Some("ravel.toml"));
            assert_eq!(field, "line-width");
            assert_eq!(message, "must be between 1 and 1000, got 0");
        }
        other => panic!("expected InvalidValue, got {other:?}"),
    }
}

#[test]
fn validate_rejects_huge_indent_width() {
    let config = FormatConfig {
        line_width: 80,
        indent_width: 10000,
    };
    let err = config.validate(None).unwrap_err();
    assert_eq!(
        err.to_message(),
        "invalid `indent-width`: must be between 1 and 1000, got 10000"
    );
}

#[test]
fn line_width_is_checked_before_indent_width() {
    let config = Config {
        format: FormatConfig {
            line_width: 1001,
            indent_width: 0,
        },
        lint: Default::default(),
    };
    match config.validate(None) {
        Err(ConfigError::InvalidValue { field, .. }) => assert_eq!(field, "line-width"),
        other => panic!("expected InvalidValue, got {other:?}"),
    }
}

fn probe(dir: &str, has_config_file: bool, has_git: bool) -> DirectoryProbe {
    DirectoryProbe {
        dir: dir.to_string(),
        has_config_file,
        has_git,
    }
}

#[test]
fn discover_finds_the_nearest_config_file() {
    let dirs = vec![
        probe("/a/b/c", false, false),
        probe("/a/b", true, false),
        probe("/a", true, false),
    ];
    assert_eq!(Config::discover(&dirs), Some(1));
}

#[test]
fn discover_stops_at_a_repository_root() {
    let dirs = vec![
        probe("/repo/src", false, false),
        probe("/repo", false, true),
        probe("/", true, false),
    ];
    assert_eq!(Config::discover(&dirs), None);
}

#[test]
fn discover_uses_a_config_file_in_the_repository_root() {
    let dirs = vec![probe("/repo/src", false, false), probe("/repo", true, true)];
    assert_eq!(Config::discover(&dirs), Some(1));
}

#[test]
fn resolve_prefers_no_config_then_explicit_then_discovery() {
    assert!(matches!(
        Config::resolve(Some("custom.toml"), true),
        ConfigSource::Defaults
    ));
    match Config::resolve(Some("custom.toml"), false) {
        ConfigSource::File(path) => assert_eq!(path, "custom.toml"),
        other => panic!("expected File, got {other:?}"),
    }
    assert!(matches!(Config::resolve(None, false), ConfigSource::Discover));
}

#[test]
fn parse_error_message_names_file_line_and_column() {
    let err = ConfigError::Parse {
        path: "/tmp/oops.toml".to_string(),
        line: 2,
        column: 1,
        message: "unknown field `bogus`".to_string(),
    };
    assert_eq!(err.to_message(), "/tmp/oops.toml:2:1: unknown field `bogus`");
}

#[test]
fn byte_offsets_map_to_lines_and_columns() {
    let text = "[format]\nbogus = 1\n";
    assert_eq!(byte_offset_to_line_col(text, 0), (1, 1));
    assert_eq!(byte_offset_to_line_col(text, 9), (2, 1));
    assert_eq!(byte_offset_to_line_col(text, 14), (2, 6));
    assert_eq!(byte_offset_to_line_col(text, 1000), (3, 1));
    assert_eq!(byte_offset_to_line_col("é\nx", 3), (2, 1));
    assert_eq!(byte_offset_to_line_col("éa", 2), (1, 2));
}
