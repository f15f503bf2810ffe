use tamper_protection::cli::{
    args_handler, get_color_mode, help, paint, set_color_mode, CliColor, CliMode, OutputConfig,
    HELP_TEXT,
};

fn args(words: &[&str]) -> Vec<String> {
    words.iter().map(|w| w.to_string()).collect()
}

fn mode(words: &[&str]) -> CliMode {
    let mut config = OutputConfig::new();
    args_handler(&args(words), &mut config)
}

#[test]
fn color_mode_starts_on_and_can_be_set() {
    let mut config = OutputConfig::new();
    assert!(get_color_mode(&config));
    set_color_mode(&mut config, false);
    assert!(!get_color_mode(&config));
    set_color_mode(&mut config, true);
    assert!(get_color_mode(&config));
}

#[test]
fn args_handler_finds_the_mode() {
    assert_eq!(mode(&["prog", "help"]), CliMode::Help);
    assert_eq!(mode(&["prog", "-h"]), CliMode::Help);
    assert_eq!(mode(&["prog", "--help"]), CliMode::Help);
    assert_eq!(mode(&["prog", "folder", "salt"]), CliMode::GetHash);
    assert_eq!(mode(&["prog", "hash", "folder", "salt"]), CliMode::Validate);
}

#[test]
fn args_handler_reports_what_it_cannot_read() {
    assert_eq!(mode(&[]), CliMode::Error);
    assert_eq!(mode(&["prog"]), CliMode::Error);
    assert_eq!(mode(&["prog", "folder"]), CliMode::Error);
    assert_eq!(mode(&["prog", "HELP"]), CliMode::Error);
    assert_eq!(mode(&["prog", "a", "b", "c", "d"]), CliMode::Error);
    assert_eq!(mode(&["no"]), CliMode::Error);
    assert_eq!(mode(&["nocolor", "no"]), CliMode::Error);
}

#[test]
fn args_handler_drops_color_flags_at_the_end() {
    let mut config = OutputConfig::new();
    assert_eq!(args_handler(&args(&["prog", "folder", "salt", "no"]), &mut config), CliMode::GetHash);
    assert!(!get_color_mode(&config));

    let mut config = OutputConfig::new();
    assert_eq!(
        args_handler(&args(&["prog", "help", "nocolor", "no"]), &mut config),
        CliMode::Help
    );
    assert!(!get_color_mode(&config));

    let mut config = OutputConfig::new();
    assert_eq!(
        args_handler(&args(&["prog", "h", "f", "s", "nocolor"]), &mut config),
        CliMode::Validate
    );
    assert!(!get_color_mode(&config));
}

#[test]
fn args_handler_keeps_color_without_a_flag() {
    let mut config = OutputConfig::new();
    assert_eq!(args_handler(&args(&["prog", "folder", "salt"]), &mut config), CliMode::GetHash);
    assert!(get_color_mode(&config));

    // A color flag that is not at the end is an argument like any other.
    let mut config = OutputConfig::new();
    assert_eq!(args_handler(&args(&["prog", "no", "salt"]), &mut config), CliMode::GetHash);
    assert!(get_color_mode(&config));

    let mut config = OutputConfig { color: false };
    assert_eq!(args_handler(&args(&["prog", "folder", "salt"]), &mut config), CliMode::GetHash);
    assert!(!get_color_mode(&config));
}

#[test]
fn help_names_every_operation() {
    let text = help();
    assert_eq!(text, HELP_TEXT);
    assert!(text.contains("tamperProtection <folder_path> <salt> [no | nocolor]"));
    assert!(text.contains("tamperProtection <-h | --help | help> [no | nocolor]"));
    assert!(text.contains("tamperProtection <hash_code> <folder_path> <salt> [no | nocolor]"));
}

#[test]
fn paint_wraps_text_in_its_color() {
    let on = OutputConfig { color: true };
    assert_eq!(paint("hi", CliColor::Default, &on), "\x1b[0mhi\x1b[0m");
    assert_eq!(paint("hi", CliColor::Blue, &on), "\x1b[94m\x1b[103mhi\x1b[0m");
    assert_eq!(paint("hi", CliColor::Yellow, &on), "\x1b[93m\x1b[104mhi\x1b[0m");
    assert_eq!(paint("hi", CliColor::Green, &on), "\x1b[92m\x1b[105mhi\x1b[0m");
    assert_eq!(paint("hi", CliColor::Red, &on), "\x1b[91m\x1b[106mhi\x1b[0m");
}

#[test]
fn paint_without_color_only_resets() {
    let off = OutputConfig { color: false };
    assert_eq!(paint("hi", CliColor::Red, &off), "hi\x1b[0m");
    assert_eq!(paint("", CliColor::Blue, &off), "\x1b[0m");
}
