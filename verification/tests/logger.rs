use rbuilder::log_filter::is_sliced_between_chars;
use rbuilder::logger::{LogFormat, LoggerConfig};
use std::path::PathBuf;

fn config(env_filter: &str, file: Option<&str>, json: bool, color: bool) -> LoggerConfig {
    LoggerConfig {
        env_filter: env_filter.to_string(),
        log_file_path: file.map(PathBuf::from),
        log_json: json,
        log_color: color,
    }
}

#[test]
fn default_logs_text_without_colors() {
    let config = LoggerConfig::default();
    assert_eq!(config.env_filter, "");
    assert_eq!(config.log_file_path, None);
    assert!(!config.log_json && !config.log_color);
    let plan = config.init_tracing().unwrap();
    assert_eq!(plan.env_filter, "");
    assert_eq!(plan.file, None);
    assert_eq!(plan.format, LogFormat::Text { ansi: false });
}

#[test]
fn log_is_what_the_configuration_asks_for() {
    let plan = config("info,rbuilder=debug", Some("/tmp/log"), false, true).init_tracing().unwrap();
    assert_eq!(plan.env_filter, "info,rbuilder=debug");
    assert_eq!(plan.file, Some(PathBuf::from("/tmp/log")));
    assert_eq!(plan.format, LogFormat::Text { ansi: true });
}

#[test]
fn colors_do_not_matter_for_json() {
    for color in [false, true] {
        assert_eq!(config("info", None, true, color).init_tracing().unwrap().format, LogFormat::Json);
        assert_eq!(config("=", None, true, color).plan().format, LogFormat::Json);
    }
}

#[test]
fn unreadable_directives_are_refused() {
    let bad = "rbuilder=nolevel";
    let expected = tracing_subscriber::EnvFilter::try_new(bad).unwrap_err().to_string();
    let reason = config(bad, Some("/tmp/log"), false, false).init_tracing().unwrap_err();
    assert_eq!(reason, expected);
    assert!(!reason.is_empty());
}

fn is_read_as_by_the_parser(text: &str) {
    assert!(is_sliced_between_chars(text));
    let parsed = tracing_subscriber::EnvFilter::try_new(text).map_err(|err| err.to_string());
    match config(text, Some("/tmp/log"), false, true).try_init_tracing().unwrap() {
        Ok(plan) => {
            assert!(parsed.is_ok());
            assert_eq!(plan.env_filter, text);
            assert_eq!(plan.file, Some(PathBuf::from("/tmp/log")));
            assert_eq!(plan.format, LogFormat::Text { ansi: true });
        }
        Err(reason) => assert_eq!(reason, parsed.unwrap_err()),
    }
    assert_eq!(
        config(text, None, false, false).init_tracing().is_ok(),
        tracing_subscriber::EnvFilter::try_new(text).is_ok()
    );
}

#[test]
fn directives_that_are_sliced_between_characters_are_read() {
    for text in [
        "",
        ",",
        "info",
        " info",
        "info, rbuilder=debug",
        "  rbuilder[span{field=1}]=debug",
        "\u{e9}=info",
        "\u{e9}, a",
        "a\u{a0}",
        " \u{e9}",
        "info,\u{3000}a",
        "a, b\u{e9},c",
        "\t\u{e9}",
        "\u{3000}",
        " \u{e9}a=info",
        " [\u{e9}a]",
        " a=\u{e9}",
    ] {
        is_read_as_by_the_parser(text);
    }
}

#[test]
fn nothing_is_sliced_after_what_is_refused() {
    for text in [
        "=, \u{e9}=info",
        "a=nolevel, \u{e9}=info",
        "\t!\u{e9}=info",
        " [\u{e9}",
        "    [a=({xxx\u{e9}}]=info",
        "  [a]\u{e9}=info",
    ] {
        is_read_as_by_the_parser(text);
        assert!(config(text, None, false, false).init_tracing().is_err());
    }
}

#[test]
fn directives_that_are_sliced_inside_a_character_are_told_apart() {
    for text in [
        " \u{e9}=info",
        "  \u{e9}a=info",
        "\u{a0}a=info",
        "info, \u{e9}=info",
        " \u{e9}=info,=",
        "\u{3000}[a]",
        " [\u{e9}]",
        " [\u{e9}{a}]",
        " [{\u{e9}}]",
        " a[\u{e9}]=info",
        "    [bbb{xxx\u{e9}}]=info",
    ] {
        assert!(!is_sliced_between_chars(text));
        assert!(config(text, None, false, false).try_init_tracing().is_none());
    }
}
