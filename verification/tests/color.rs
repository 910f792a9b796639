//! Tests of the colour mode, and of the last words of the program.
use colored::Colorize;
use netfyr_cli::{failure_text, resolve_color_mode, ColorMode};

/// Color mode "never" must not panic.
#[test]
fn test_resolve_color_mode_never_does_not_panic() {
    resolve_color_mode(&ColorMode::Never, false);
    colored::control::unset_override();
}

/// Color mode "always" must not panic.
#[test]
fn test_resolve_color_mode_always_does_not_panic() {
    resolve_color_mode(&ColorMode::Always, false);
    colored::control::unset_override();
}

/// Color mode "auto" must not panic.
#[test]
fn test_resolve_color_mode_auto_does_not_panic() {
    assert_eq!(resolve_color_mode(&ColorMode::Auto, false), None);
}

/// Even with --color=always, NO_COLOR must force colors off.
#[test]
fn test_resolve_color_mode_no_color_env_var_disables_colors_even_with_always_flag() {
    colored::control::set_override(true);
    resolve_color_mode(&ColorMode::Always, true);
    let colored_output = "test".red().to_string();
    assert_eq!(
        colored_output, "test",
        "NO_COLOR env var must disable colors even when --color=always; got: {:?}",
        colored_output
    );
    colored::control::unset_override();
}

/// --color=never disables colors (colored string has no ANSI codes).
#[test]
fn test_resolve_color_mode_never_disables_colored_output() {
    colored::control::set_override(true);
    resolve_color_mode(&ColorMode::Never, false);
    let colored_output = "test".red().to_string();
    assert_eq!(
        colored_output, "test",
        "--color=never must disable ANSI codes; got: {:?}",
        colored_output
    );
    colored::control::unset_override();
}

/// --color=always enables colors (colored string has ANSI codes).
#[test]
fn test_resolve_color_mode_always_enables_colored_output() {
    colored::control::set_override(false);
    resolve_color_mode(&ColorMode::Always, false);
    let colored_output = "test".red().to_string();
    assert_ne!(
        colored_output, "test",
        "--color=always must produce ANSI-coded output; got: {:?}",
        colored_output
    );
    colored::control::unset_override();
}

#[test]
fn settings_are_returned() {
    assert_eq!(resolve_color_mode(&ColorMode::Always, true), Some(false));
    assert_eq!(resolve_color_mode(&ColorMode::Auto, true), Some(false));
    assert_eq!(resolve_color_mode(&ColorMode::Never, false), Some(false));
    assert_eq!(resolve_color_mode(&ColorMode::Always, false), Some(true));
    assert_eq!(failure_text("no such file"), "Error: no such file");
}
