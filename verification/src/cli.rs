//! The command line: which operation is asked for, and how text is shown on
//! a terminal.

use vstd::prelude::*;
use vstd::string::StringExecFns;

verus! {

/// The operation that a command line asks for.
#[derive(Clone, Copy, Debug, PartialEq, Eq, Structural)]
pub enum CliMode {
    Help,
    GetHash,
    Validate,
    Error,
}

/// The colors in which text can be shown.
#[derive(Clone, Copy, Debug, PartialEq, Eq, Structural)]
pub enum CliColor {
    Default,
    Blue,
    Yellow,
    Green,
    Red,
}

/// How output is shown. It is handed to whatever shows text; nothing is
/// shared behind the caller's back.
#[derive(Clone, Copy, Debug, PartialEq, Eq, Structural)]
pub struct OutputConfig {
    pub color: bool,
}

impl OutputConfig {
    /// The configuration at the start: text is shown in color.
    pub fn new() -> (config: OutputConfig)
        ensures
            config.color,
    {
        OutputConfig { color: true }
    }
}

/// Whether text is shown in color.
pub fn get_color_mode(config: &OutputConfig) -> (value: bool)
    ensures
        value == config.color,
{
    config.color
}

/// Switches color on or off.
pub fn set_color_mode(config: &mut OutputConfig, value: bool)
    ensures
        final(config).color == value,
{
    config.color = value;
}

/// The text that explains the command line.
pub const HELP_TEXT: &'static str = "
Tamper Protection - Folder Hash Code Calculator
- Usage:
    - tamperProtection <folder_path> <salt> [no | nocolor]               Calculate hash for a folder
    - tamperProtection <-h | --help | help> [no | nocolor]               Show help information
    - tamperProtection <hash_code> <folder_path> <salt> [no | nocolor]   Validate folder integrity

- Example:
    - tamperProtection ./my_folder my_salt
    - tamperProtection help
    - tamperProtection my_folder_hash_code ./my_folder my_salt
    - tamperProtection my_folder_hash_code ./my_folder my_salt nocolor
    ";

/// The help text, to be shown in the default color.
pub fn help() -> (text: &'static str)
    ensures
        text@ == HELP_TEXT@,
{
    HELP_TEXT
}

/// The escape sequence that switches a terminal to a color.
pub open spec fn color_code(color: CliColor) -> Seq<char> {
    match color {
        CliColor::Default => "\x1b[0m"@,
        CliColor::Blue => "\x1b[94m\x1b[103m"@,
        CliColor::Yellow => "\x1b[93m\x1b[104m"@,
        CliColor::Green => "\x1b[92m\x1b[105m"@,
        CliColor::Red => "\x1b[91m\x1b[106m"@,
    }
}

/// A text as it is sent to the terminal: after the escape sequence of its
/// color, where color is on, and before the sequence that resets the
/// terminal.
pub open spec fn painted(text: Seq<char>, color: CliColor, in_color: bool) -> Seq<char> {
    (if in_color {
        color_code(color)
    } else {
        Seq::empty()
    }) + text + "\x1b[0m"@
}

/// Prepares a text for the terminal.
pub fn paint(text: &str, color: CliColor, config: &OutputConfig) -> (line: String)
    ensures
        line@ == painted(text@, color, config.color),
{
    let code = match color {
        CliColor::Default => "\x1b[0m",
        CliColor::Blue => "\x1b[94m\x1b[103m",
        CliColor::Yellow => "\x1b[93m\x1b[104m",
        CliColor::Green => "\x1b[92m\x1b[105m",
        CliColor::Red => "\x1b[91m\x1b[106m",
    };
    let mut line = String::new();
    if config.color {
        line.append(code);
    }
    line.append(text);
    line.append("\x1b[0m");
    line
}

/// Whether an argument switches color off.
pub open spec fn is_color_flag(arg: Seq<char>) -> bool {
    arg == "no"@ || arg == "nocolor"@
}

/// Whether an argument asks for the help text.
pub open spec fn is_help_flag(arg: Seq<char>) -> bool {
    arg == "-h"@ || arg == "--help"@ || arg == "help"@
}

/// The number of arguments that are left when every color flag at the end
/// is dropped.
pub open spec fn positional_len(args: Seq<Seq<char>>) -> nat
    decreases args.len(),
{
    if args.len() > 0 && is_color_flag(args.last()) {
        positional_len(args.drop_last())
    } else {
        args.len()
    }
}

/// The operation that a command line asks for. The first argument is the
/// name of the program. The arguments are counted without the color flags
/// at the end.
pub open spec fn mode_of(args: Seq<Seq<char>>) -> CliMode {
    let count = positional_len(args);
    if count == 2 {
        if is_help_flag(args[1]) {
            CliMode::Help
        } else {
            CliMode::Error
        }
    } else if count == 3 {
        CliMode::GetHash
    } else if count == 4 {
        CliMode::Validate
    } else {
        CliMode::Error
    }
}

fn text_is(text: &String, literal: &str) -> (same: bool)
    ensures
        same == (text@ == literal@),
{
    let other = String::from_str(literal);
    *text == other
}

/// Reads a command line: finds the operation it asks for, and switches color
/// off where it ends in a color flag.
pub fn args_handler(args: &Vec<String>, config: &mut OutputConfig) -> (mode: CliMode)
    ensures
        mode == mode_of(args.deep_view()),
        final(config).color == (old(config).color && positional_len(args.deep_view())
            == args.len()),
{
    let ghost all = args.deep_view();
    let mut count: usize = args.len();
    assert(all.take(count as int) =~= all);
    while count > 0 && (text_is(&args[count - 1], "no") || text_is(&args[count - 1], "nocolor"))
        invariant
            count <= args.len(),
            all == args.deep_view(),
            positional_len(all) == positional_len(all.take(count as int)),
            config.color == (old(config).color && count == args.len()),
        decreases count,
    {
        proof {
            let kept = all.take(count as int);
            assert(kept.drop_last() =~= all.take(count - 1));
        }
        count -= 1;
        config.color = false;
    }
    if count == 2 {
        let first = &args[1];
        if text_is(first, "-h") || text_is(first, "--help") || text_is(first, "help") {
            CliMode::Help
        } else {
            CliMode::Error
        }
    } else if count == 3 {
        CliMode::GetHash
    } else if count == 4 {
        CliMode::Validate
    } else {
        CliMode::Error
    }
}

} // verus!
