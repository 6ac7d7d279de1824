//! The command line: its arguments as plain values, and the decisions the command-line
//! program makes from them. Parsing the arguments is the caller's part.

use vstd::prelude::*;
use crate::calls::{shell_words_of, split_words};
use crate::config::Config;
use crate::document::is_markdown_path;
use crate::paths::{extension_of, extension_range, file_name, file_name_range};
use crate::render::Theme;
use crate::text::{chars_of, string_of};

verus! {

/// An IP address.
#[derive(Clone, Copy, Debug, PartialEq, Eq, Structural)]
pub enum IpAddress {
    V4(u8, u8, u8, u8),
    V6(u16, u16, u16, u16, u16, u16, u16, u16),
}

/// `glow serve`: a local documentation website.
#[derive(Clone, Debug)]
pub struct ServeArgs {
    /// Documentation root.
    pub path: String,
    /// Listen on all IPv4 interfaces so other devices can connect.
    pub lan: bool,
    /// Address to bind; the loopback address when unset.
    pub host: Option<IpAddress>,
    /// Port to bind; zero selects a free port.
    pub port: u16,
    /// Open the site in the default browser.
    pub open: bool,
}

impl ServeArgs {
    /// The address to listen on: every IPv4 interface with `--lan`, else `--host`, else
    /// the loopback address, so that network access stays opt-in.
    pub fn bind_ip(&self) -> (r: IpAddress)
        ensures
            self.lan ==> r == IpAddress::V4(0, 0, 0, 0),
            !self.lan ==> r == match self.host {
                Some(h) => h,
                None => IpAddress::V4(127, 0, 0, 1),
            },
    {
        if self.lan {
            IpAddress::V4(0, 0, 0, 0)
        } else {
            match self.host {
                Some(h) => h,
                None => IpAddress::V4(127, 0, 0, 1),
            }
        }
    }
}

/// `glow share`: publish a folder through a Cloudflare Quick Tunnel.
#[derive(Clone, Debug)]
pub struct ShareArgs {
    /// Documentation root.
    pub path: String,
    /// Explicit `cloudflared` executable.
    pub cloudflared: Option<String>,
    /// Seconds to wait for the public URL.
    pub timeout: u64,
    /// Open the public URL in the default browser.
    pub open: bool,
}

/// `glow list`: print every discovered document.
#[derive(Clone, Debug)]
pub struct ListArgs {
    pub path: String,
    /// Emit JSON.
    pub json: bool,
}

/// What `glow config` does.
#[derive(Clone, Copy, Debug, PartialEq, Eq, Structural)]
pub enum ConfigAction {
    /// Print the active configuration path.
    Path,
    /// Create a documented default configuration file.
    Init { force: bool },
    /// Open the configuration in `$EDITOR`.
    Edit,
    /// Print the resolved configuration.
    Show,
}

/// `glow config`.
#[derive(Clone, Copy, Debug)]
pub struct ConfigArgs {
    pub action: Option<ConfigAction>,
}

impl ConfigArgs {
    /// The action to run: editing when none is given.
    pub fn action_or_default(&self) -> (r: ConfigAction)
        ensures
            r == match self.action {
                Some(a) => a,
                None => ConfigAction::Edit,
            },
    {
        match self.action {
            Some(a) => a,
            None => ConfigAction::Edit,
        }
    }
}

/// The shells completions are generated for.
#[derive(Clone, Copy, Debug, PartialEq, Eq, Structural)]
pub enum Shell {
    Bash,
    Elvish,
    Fish,
    PowerShell,
    Zsh,
}

/// A subcommand.
#[derive(Clone, Debug)]
pub enum Command {
    Serve(ServeArgs),
    Share(ShareArgs),
    List(ListArgs),
    Config(ConfigArgs),
    Completion { shell: Shell },
}

/// The command line.
#[derive(Clone, Debug)]
pub struct Cli {
    /// Markdown file, folder, URL, repository shortcut, or `-` for standard input.
    pub source: Option<String>,
    pub pager: bool,
    pub tui: bool,
    pub style: Option<Theme>,
    pub width: Option<usize>,
    pub all: bool,
    pub line_numbers: bool,
    pub preserve_new_lines: bool,
    pub mouse: bool,
    /// Configuration file to read.
    pub config: Option<String>,
    pub command: Option<Command>,
}

/// The settings with the command line's flags applied: a flag turns its setting on, and a
/// given style or width replaces the configured one.
pub open spec fn overridden(cli: Cli, c: Config) -> Config {
    Config {
        theme: match cli.style {
            Some(t) => t,
            None => c.theme,
        },
        width: match cli.width {
            Some(w) => w,
            None => c.width,
        },
        pager: c.pager || cli.pager,
        tui: c.tui || cli.tui,
        include_hidden: c.include_hidden || cli.all,
        line_numbers: c.line_numbers || cli.line_numbers,
        preserve_newlines: c.preserve_newlines || cli.preserve_new_lines,
        mouse: c.mouse || cli.mouse,
    }
}

/// Applies the command line to the settings (see `overridden`); the pager and the
/// browser together are refused.
pub fn apply_cli_overrides(cli: &Cli, config: &mut Config) -> (r: Result<(), String>)
    ensures
        *final(config) == overridden(*cli, *old(config)),
        r is Err <==> (final(config).pager && final(config).tui),
        r matches Err(m) ==> m@ == "cannot use both --pager and --tui"@,
{
    config.pager = config.pager || cli.pager;
    config.tui = config.tui || cli.tui;
    config.include_hidden = config.include_hidden || cli.all;
    config.line_numbers = config.line_numbers || cli.line_numbers;
    config.preserve_newlines = config.preserve_newlines || cli.preserve_new_lines;
    config.mouse = config.mouse || cli.mouse;
    match cli.style {
        Some(t) => config.theme = t,
        None => {},
    }
    match cli.width {
        Some(w) => config.width = w,
        None => {},
    }
    if config.pager && config.tui {
        return Err(String::from_str("cannot use both --pager and --tui"));
    }
    Ok(())
}

/// A loaded source is rendered as Markdown when its name has no extension or a Markdown
/// one.
pub open spec fn renders_as_markdown(name: Seq<char>) -> bool {
    match file_name(name) {
        Some(n) => extension_of(n) is None || is_markdown_path(name),
        None => true,
    }
}

pub fn source_name_is_markdown(name: &str) -> (r: bool)
    ensures
        r == renders_as_markdown(name@),
{
    let p = chars_of(name);
    match file_name_range(p.as_slice()) {
        None => true,
        Some((a, b)) => match extension_range(p.as_slice(), a, b) {
            None => true,
            Some(_) => crate::document::is_markdown_chars(p.as_slice()),
        },
    }
}

/// The language a non-Markdown source is shown as: its file extension, or `text`.
pub open spec fn source_language(name: Seq<char>) -> Seq<char> {
    match file_name(name) {
        Some(n) => match extension_of(n) {
            Some(e) => e,
            None => "text"@,
        },
        None => "text"@,
    }
}

/// A non-Markdown source shown as a fenced code block in its language.
pub fn fenced_source(name: &str, content: &str) -> (r: String)
    ensures
        r@ == "```"@ + source_language(name@) + "\n"@ + content@ + "\n```"@,
{
    let p = chars_of(name);
    let language = match file_name_range(p.as_slice()) {
        None => String::from_str("text"),
        Some((a, b)) => match extension_range(p.as_slice(), a, b) {
            None => String::from_str("text"),
            Some((c, d)) => string_of(p.as_slice(), c, d),
        },
    };
    let mut r = String::from_str("```");
    r.append(language.as_str());
    r.append("\n");
    r.append(content);
    r.append("\n```");
    r
}

/// The width to render at: a configured width (at least 8), else the terminal's width
/// capped at 120, or 80 when it is unknown (at least 8 either way).
pub open spec fn chosen_width(configured: usize, terminal: Option<u16>) -> usize {
    if configured > 0 {
        if configured < 8 { 8 } else { configured }
    } else {
        let w: usize = match terminal {
            Some(t) => if t > 120 { 120 } else { t as usize },
            None => 80,
        };
        if w < 8 { 8 } else { w }
    }
}

pub fn render_width(configured: usize, terminal: Option<u16>) -> (r: usize)
    ensures
        r == chosen_width(configured, terminal),
{
    if configured > 0 {
        return if configured < 8 { 8 } else { configured };
    }
    let w: usize = match terminal {
        Some(t) => if t > 120 { 120 } else { t as usize },
        None => 80,
    };
    if w < 8 { 8 } else { w }
}

// ---------------------------------------------------------------- helper programs

/// What splitting a command line gave: its words, or why it could not be split.
pub open spec fn split_view(r: Result<Vec<String>, String>) -> Result<Seq<Seq<char>>, Seq<char>> {
    match r {
        Ok(v) => Ok(crate::text::string_views(v@)),
        Err(m) => Err(m@),
    }
}

/// `shell_words::split` as the trusted item states it.
pub open spec fn split_result(s: Seq<char>) -> Result<Seq<Seq<char>>, Seq<char>> {
    match shell_words_of(s) {
        Some(w) => Ok(w),
        None => Err("missing closing quote"@),
    }
}

/// A program and its arguments from the words of the variable `var`: an error when the
/// value could not be split or holds no word.
pub open spec fn command_of(words: Result<Seq<Seq<char>>, Seq<char>>, var: Seq<char>) -> Result<(Seq<char>, Seq<Seq<char>>), Seq<char>> {
    match words {
        Err(why) => Err("cannot parse $"@ + var + ": "@ + why),
        Ok(w) => if w.len() == 0 {
            Err("$"@ + var + " is empty"@)
        } else {
            Ok((w[0], w.drop_first()))
        },
    }
}

pub open spec fn command_view(r: Result<(String, Vec<String>), String>) -> Result<(Seq<char>, Seq<Seq<char>>), Seq<char>> {
    match r {
        Ok((p, a)) => Ok((p@, crate::text::string_views(a@))),
        Err(m) => Err(m@),
    }
}

/// The program and arguments given by the words of `$var` (see `command_of`).
pub fn command_from_words(words: Result<Vec<String>, String>, var: &str) -> (r: Result<(String, Vec<String>), String>)
    ensures
        command_view(r) == command_of(split_view(words), var@),
{
    match words {
        Err(why) => {
            let mut m = String::from_str("cannot parse $");
            m.append(var);
            m.append(": ");
            m.append(why.as_str());
            Err(m)
        },
        Ok(mut words) => {
            if words.len() == 0 {
                let mut m = String::from_str("$");
                m.append(var);
                m.append(" is empty");
                return Err(m);
            }
            let ghost all = crate::text::string_views(words@);
            let program = words.remove(0);
            assert(crate::text::string_views(words@) == all.drop_first());
            Ok((program, words))
        },
    }
}

/// The pager's command line: `$PAGER` (`pager`), or `less -R`.
pub open spec fn pager_text(pager: Option<Seq<char>>) -> Seq<char> {
    match pager {
        Some(p) => p,
        None => "less -R"@,
    }
}

/// The pager to show rendered output with, and its arguments.
pub fn pager_command(pager: Option<String>) -> (r: Result<(String, Vec<String>), String>)
    ensures
        command_view(r) == command_of(split_result(pager_text(crate::tunnel::text_of(pager))), "PAGER"@),
{
    let text = match pager {
        Some(p) => p,
        None => String::from_str("less -R"),
    };
    command_from_words(split_words(text.as_str()), "PAGER")
}

/// The editor's command line: `$VISUAL`, else `$EDITOR`, else `notepad` on Windows and `vi`
/// elsewhere.
pub open spec fn editor_text(visual: Option<Seq<char>>, editor: Option<Seq<char>>, windows: bool) -> Seq<char> {
    match visual {
        Some(v) => v,
        None => match editor {
            Some(e) => e,
            None => if windows {
                "notepad"@
            } else {
                "vi"@
            },
        },
    }
}

/// The editor to open a file with, and its arguments (the file comes last).
pub fn editor_command(visual: Option<String>, editor: Option<String>, windows: bool) -> (r: Result<(String, Vec<String>), String>)
    ensures
        command_view(r) == command_of(
            split_result(editor_text(crate::tunnel::text_of(visual), crate::tunnel::text_of(editor), windows)),
            "EDITOR"@,
        ),
{
    let text = match visual {
        Some(v) => v,
        None => match editor {
            Some(e) => e,
            None => if windows {
                String::from_str("notepad")
            } else {
                String::from_str("vi")
            },
        },
    };
    command_from_words(split_words(text.as_str()), "EDITOR")
}

// ---------------------------------------------------------------- what to do

/// The source the program reads: `-` (standard input) whenever input is piped in, else
/// the argument given, if any.
pub fn chosen_source(source: Option<String>, piped_stdin: bool) -> (r: Option<String>)
    ensures
        piped_stdin ==> (r matches Some(s) && s@ == "-"@),
        !piped_stdin ==> r == source,
{
    if piped_stdin {
        Some(String::from_str("-"))
    } else {
        source
    }
}

/// What the program does with its source.
pub enum Launch {
    /// Browse the current folder.
    BrowseCurrent,
    /// Browse this folder.
    Browse(String),
    /// Browse the folder holding this file.
    BrowseFolderOf(String),
    /// Render this source to the terminal.
    Render(String),
}

/// No source browses the current folder; a folder is browsed; with `--tui` a file's folder
/// is browsed; anything else is rendered.
pub fn launch(source: Option<String>, is_dir: bool, is_file: bool, tui: bool) -> (r: Launch)
    ensures
        source is None ==> r is BrowseCurrent,
        source matches Some(s) ==> if is_dir {
            (r matches Launch::Browse(p) && p == s)
        } else if tui && is_file {
            (r matches Launch::BrowseFolderOf(p) && p == s)
        } else {
            (r matches Launch::Render(p) && p == s)
        },
{
    match source {
        None => Launch::BrowseCurrent,
        Some(s) => if is_dir {
            Launch::Browse(s)
        } else if tui && is_file {
            Launch::BrowseFolderOf(s)
        } else {
            Launch::Render(s)
        },
    }
}

/// Every flag given on the command line turns its setting on, a setting already on stays
/// on, and a setting neither configured nor flagged stays off; a given style or width
/// replaces the configured one and an absent one keeps it. Applying the same command line
/// twice changes nothing more.
pub proof fn lemma_flags_turn_settings_on(cli: Cli, c: Config)
    ensures
        ({
            let r = overridden(cli, c);
            &&& (cli.pager || c.pager) == r.pager
            &&& (cli.tui || c.tui) == r.tui
            &&& (cli.all || c.include_hidden) == r.include_hidden
            &&& (cli.line_numbers || c.line_numbers) == r.line_numbers
            &&& (cli.preserve_new_lines || c.preserve_newlines) == r.preserve_newlines
            &&& (cli.mouse || c.mouse) == r.mouse
            &&& r.theme == (if cli.style is Some { cli.style->0 } else { c.theme })
            &&& r.width == (if cli.width is Some { cli.width->0 } else { c.width })
            &&& overridden(cli, r) == r
        }),
{
}

} // verus!
