//! ANSI terminal colouring: every helper wraps its text between an escape
//! introducer carrying the colour code and a reset sequence.

use vstd::prelude::*;

verus! {

/// The colours and text attributes the reporting layer uses.
#[derive(Debug, Clone, Copy, PartialEq, Eq, Structural)]
pub enum Color {
    Red,
    Green,
    Yellow,
    Orange,
    EnvOrange,
    SystemPurple,
    Blue,
    Magenta,
    Cyan,
    Teal,
    White,
    BgRed,
    BgGreen,
    BgYellow,
    BgBlue,
    BgMagenta,
    BgCyan,
    BgWhite,
    Bold,
    Italic,
    Underline,
    Dim,
    Highlight,
    Success,
    Warning,
    Repository,
    Description,
}

/// The ANSI SGR code of each colour.
pub open spec fn ansi_code_spec(c: Color) -> Seq<char> {
    match c {
        Color::Red => "31"@,
        Color::Green => "32"@,
        Color::Yellow => "33"@,
        Color::Orange => "38;5;208"@,
        Color::EnvOrange => "38;5;166"@,
        Color::SystemPurple => "38;5;97"@,
        Color::Blue => "34"@,
        Color::Magenta => "35"@,
        Color::Cyan => "36"@,
        Color::Teal => "38;5;37"@,
        Color::White => "37"@,
        Color::BgRed => "41"@,
        Color::BgGreen => "42"@,
        Color::BgYellow => "43"@,
        Color::BgBlue => "44"@,
        Color::BgMagenta => "45"@,
        Color::BgCyan => "46"@,
        Color::BgWhite => "47"@,
        Color::Bold => "1"@,
        Color::Italic => "3"@,
        Color::Underline => "4"@,
        Color::Dim => "2"@,
        Color::Highlight => "1;36"@,
        Color::Success => "1;32"@,
        Color::Warning => "1;33"@,
        Color::Repository => "1;35"@,
        Color::Description => "2;37"@,
    }
}

impl Color {
    /// The ANSI SGR code of the colour, as [`ansi_code_spec`] describes.
    pub fn ansi_code(self) -> (r: &'static str)
        ensures
            r@ == ansi_code_spec(self),
    {
        match self {
            Color::Red => "31",
            Color::Green => "32",
            Color::Yellow => "33",
            Color::Orange => "38;5;208",
            Color::EnvOrange => "38;5;166",
            Color::SystemPurple => "38;5;97",
            Color::Blue => "34",
            Color::Magenta => "35",
            Color::Cyan => "36",
            Color::Teal => "38;5;37",
            Color::White => "37",
            Color::BgRed => "41",
            Color::BgGreen => "42",
            Color::BgYellow => "43",
            Color::BgBlue => "44",
            Color::BgMagenta => "45",
            Color::BgCyan => "46",
            Color::BgWhite => "47",
            Color::Bold => "1",
            Color::Italic => "3",
            Color::Underline => "4",
            Color::Dim => "2",
            Color::Highlight => "1;36",
            Color::Success => "1;32",
            Color::Warning => "1;33",
            Color::Repository => "1;35",
            Color::Description => "2;37",
        }
    }
}

/// `s` wrapped in the escape sequence that selects `code` and the reset
/// sequence.
pub open spec fn colorize_code_spec(s: Seq<char>, code: Seq<char>) -> Seq<char> {
    "\u{1b}["@ + code + "m"@ + s + "\u{1b}[0m"@
}

/// `s` coloured with `color`.
pub open spec fn colorize_spec(s: Seq<char>, color: Color) -> Seq<char> {
    colorize_code_spec(s, ansi_code_spec(color))
}

fn colorize_code(s: &str, code: &str) -> (r: String)
    ensures
        r@ == colorize_code_spec(s@, code@),
{
    let mut r = String::from_str("\u{1b}[");
    r.append(code);
    r.append("m");
    r.append(s);
    r.append("\u{1b}[0m");
    r
}

/// Wraps `s` in the ANSI escape sequences that select `color` and reset it.
pub fn colorize(s: &str, color: Color) -> (r: String)
    ensures
        r@ == colorize_spec(s@, color),
{
    colorize_code(s, color.ansi_code())
}

/// Colours `s` red.
pub fn red(s: &str) -> (r: String)
    ensures
        r@ == colorize_spec(s@, Color::Red),
{
    colorize(s, Color::Red)
}

/// Colours `s` green.
pub fn green(s: &str) -> (r: String)
    ensures
        r@ == colorize_spec(s@, Color::Green),
{
    colorize(s, Color::Green)
}

/// Colours `s` yellow.
pub fn yellow(s: &str) -> (r: String)
    ensures
        r@ == colorize_spec(s@, Color::Yellow),
{
    colorize(s, Color::Yellow)
}

/// Colours `s` orange.
pub fn orange(s: &str) -> (r: String)
    ensures
        r@ == colorize_spec(s@, Color::Orange),
{
    colorize(s, Color::Orange)
}

/// Colours `s` in the shade used for environment entries.
pub fn env_orange(s: &str) -> (r: String)
    ensures
        r@ == colorize_spec(s@, Color::EnvOrange),
{
    colorize(s, Color::EnvOrange)
}

/// Colours `s` in the shade used for the system section.
pub fn system_purple(s: &str) -> (r: String)
    ensures
        r@ == colorize_spec(s@, Color::SystemPurple),
{
    colorize(s, Color::SystemPurple)
}

/// Colours `s` blue.
pub fn blue(s: &str) -> (r: String)
    ensures
        r@ == colorize_spec(s@, Color::Blue),
{
    colorize(s, Color::Blue)
}

/// Colours `s` magenta.
pub fn magenta(s: &str) -> (r: String)
    ensures
        r@ == colorize_spec(s@, Color::Magenta),
{
    colorize(s, Color::Magenta)
}

/// Colours `s` cyan.
pub fn cyan(s: &str) -> (r: String)
    ensures
        r@ == colorize_spec(s@, Color::Cyan),
{
    colorize(s, Color::Cyan)
}

/// Colours `s` teal.
pub fn teal(s: &str) -> (r: String)
    ensures
        r@ == colorize_spec(s@, Color::Teal),
{
    colorize(s, Color::Teal)
}

/// Colours `s` white.
pub fn white(s: &str) -> (r: String)
    ensures
        r@ == colorize_spec(s@, Color::White),
{
    colorize(s, Color::White)
}

/// Gives `s` a red background.
pub fn bg_red(s: &str) -> (r: String)
    ensures
        r@ == colorize_spec(s@, Color::BgRed),
{
    colorize(s, Color::BgRed)
}

/// Gives `s` a green background.
pub fn bg_green(s: &str) -> (r: String)
    ensures
        r@ == colorize_spec(s@, Color::BgGreen),
{
    colorize(s, Color::BgGreen)
}

/// Gives `s` a yellow background.
pub fn bg_yellow(s: &str) -> (r: String)
    ensures
        r@ == colorize_spec(s@, Color::BgYellow),
{
    colorize(s, Color::BgYellow)
}

/// Gives `s` a blue background.
pub fn bg_blue(s: &str) -> (r: String)
    ensures
        r@ == colorize_spec(s@, Color::BgBlue),
{
    colorize(s, Color::BgBlue)
}

/// Gives `s` a magenta background.
pub fn bg_magenta(s: &str) -> (r: String)
    ensures
        r@ == colorize_spec(s@, Color::BgMagenta),
{
    colorize(s, Color::BgMagenta)
}

/// Gives `s` a cyan background.
pub fn bg_cyan(s: &str) -> (r: String)
    ensures
        r@ == colorize_spec(s@, Color::BgCyan),
{
    colorize(s, Color::BgCyan)
}

/// Gives `s` a white background.
pub fn bg_white(s: &str) -> (r: String)
    ensures
        r@ == colorize_spec(s@, Color::BgWhite),
{
    colorize(s, Color::BgWhite)
}

/// Renders `s` bold.
pub fn bold(s: &str) -> (r: String)
    ensures
        r@ == colorize_spec(s@, Color::Bold),
{
    colorize(s, Color::Bold)
}

/// Renders `s` italic.
pub fn italic(s: &str) -> (r: String)
    ensures
        r@ == colorize_spec(s@, Color::Italic),
{
    colorize(s, Color::Italic)
}

/// Underlines `s`.
pub fn underline(s: &str) -> (r: String)
    ensures
        r@ == colorize_spec(s@, Color::Underline),
{
    colorize(s, Color::Underline)
}

/// Dims `s`.
pub fn dim(s: &str) -> (r: String)
    ensures
        r@ == colorize_spec(s@, Color::Dim),
{
    colorize(s, Color::Dim)
}

/// Renders `s` highlighted: bold cyan.
pub fn highlight(s: &str) -> (r: String)
    ensures
        r@ == colorize_spec(s@, Color::Highlight),
{
    colorize(s, Color::Highlight)
}

/// Renders `s` as a success mark: bold green.
pub fn success(s: &str) -> (r: String)
    ensures
        r@ == colorize_spec(s@, Color::Success),
{
    colorize(s, Color::Success)
}

/// Renders `s` as a warning: bold yellow.
pub fn warning(s: &str) -> (r: String)
    ensures
        r@ == colorize_spec(s@, Color::Warning),
{
    colorize(s, Color::Warning)
}

/// Renders `s` as a repository name: bold magenta.
pub fn repository(s: &str) -> (r: String)
    ensures
        r@ == colorize_spec(s@, Color::Repository),
{
    colorize(s, Color::Repository)
}

/// Renders `s` as a package description: dim white.
pub fn description(s: &str) -> (r: String)
    ensures
        r@ == colorize_spec(s@, Color::Description),
{
    colorize(s, Color::Description)
}

} // verus!
