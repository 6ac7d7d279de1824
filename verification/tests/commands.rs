use glow::cli::{
    apply_cli_overrides, chosen_source, command_from_words, editor_command, fenced_source, launch,
    pager_command, render_width, source_name_is_markdown, Cli, IpAddress, Launch, ServeArgs,
};
use glow::config::{default_config_path, find_config_file, Config, Environment};
use glow::render::Theme;

fn cli() -> Cli {
    Cli {
        source: None,
        pager: false,
        tui: false,
        style: None,
        width: None,
        all: false,
        line_numbers: false,
        preserve_new_lines: false,
        mouse: false,
        config: None,
        command: None,
    }
}

fn serve(lan: bool, host: Option<IpAddress>) -> ServeArgs {
    ServeArgs { path: ".".to_string(), lan, host, port: 0, open: false }
}

#[test]
fn serving_binds_loopback_unless_asked() {
    assert_eq!(serve(false, None).bind_ip(), IpAddress::V4(127, 0, 0, 1));
    assert_eq!(serve(true, None).bind_ip(), IpAddress::V4(0, 0, 0, 0));
    assert_eq!(serve(false, Some(IpAddress::V4(192, 0, 2, 8))).bind_ip(), IpAddress::V4(192, 0, 2, 8));
}

#[test]
fn flags_override_the_configuration() {
    let mut config = Config::default();
    let mut args = cli();
    args.style = Some(Theme::Light);
    args.width = Some(72);
    args.all = true;
    assert!(apply_cli_overrides(&args, &mut config).is_ok());
    assert_eq!(config.theme, Theme::Light);
    assert_eq!(config.width, 72);
    assert!(config.include_hidden);
    let mut both = cli();
    both.pager = true;
    both.tui = true;
    let mut config = Config::default();
    assert_eq!(apply_cli_overrides(&both, &mut config), Err("cannot use both --pager and --tui".to_string()));
}

#[test]
fn environment_overrides_and_rejects_bad_values() {
    let mut env = Environment {
        style: Some("LIGHT".to_string()),
        width: Some("92".to_string()),
        pager: Some("yes".to_string()),
        tui: None,
        all: Some("  ".to_string()),
        line_numbers: Some("1".to_string()),
        preserve_newlines: Some("off".to_string()),
        mouse: None,
    };
    let config = Config::default().apply_environment(&env).expect("valid environment");
    assert_eq!(config.theme, Theme::Light);
    assert_eq!(config.width, 92);
    assert!(config.pager);
    assert!(!config.include_hidden);
    assert!(config.line_numbers);
    env.mouse = Some("maybe".to_string());
    assert_eq!(
        Config::default().apply_environment(&env),
        Err("GLOW_MOUSE must be true or false".to_string())
    );
}

#[test]
fn configuration_file_locations() {
    let none: Option<String> = None;
    assert_eq!(default_config_path(&Some("/cfg".to_string()), &none, &none), "/cfg/glow.yml");
    assert_eq!(default_config_path(&none, &Some("/xdg/".to_string()), &none), "/xdg/glow/glow.yml");
    assert_eq!(default_config_path(&Some("  ".to_string()), &none, &Some("/home/me/.config".to_string())), "/home/me/.config/glow/glow.yml");
    assert_eq!(find_config_file("/c/glow.yml", true, false), Some("/c/glow.yml".to_string()));
    assert_eq!(find_config_file("/c/glow.yml", false, true), Some("/c/glow.yaml".to_string()));
    assert_eq!(find_config_file("/c/glow.yml", false, false), None);
}

#[test]
fn sources_are_fenced_unless_markdown_and_widths_are_clamped() {
    assert!(source_name_is_markdown("README"));
    assert!(source_name_is_markdown("notes.MD"));
    assert!(!source_name_is_markdown("main.rs"));
    assert_eq!(fenced_source("main.rs", "fn main() {}"), "```rs\nfn main() {}\n```");
    assert_eq!(render_width(0, Some(200)), 120);
    assert_eq!(render_width(0, None), 80);
    assert_eq!(render_width(3, Some(100)), 8);
    assert_eq!(render_width(100, Some(40)), 100);
}

#[test]
fn helper_programs_come_from_the_environment() {
    assert_eq!(
        pager_command(None),
        Ok(("less".to_string(), vec!["-R".to_string()]))
    );
    assert_eq!(
        pager_command(Some("most -s 'a b'".to_string())),
        Ok(("most".to_string(), vec!["-s".to_string(), "a b".to_string()]))
    );
    assert_eq!(pager_command(Some("   ".to_string())), Err("$PAGER is empty".to_string()));
    assert_eq!(
        pager_command(Some("less 'open".to_string())),
        Err("cannot parse $PAGER: missing closing quote".to_string())
    );
    assert_eq!(editor_command(None, None, false), Ok(("vi".to_string(), vec![])));
    assert_eq!(editor_command(None, None, true), Ok(("notepad".to_string(), vec![])));
    assert_eq!(
        editor_command(Some("code -w".to_string()), Some("nano".to_string()), false),
        Ok(("code".to_string(), vec!["-w".to_string()]))
    );
    assert_eq!(
        command_from_words(Err("missing closing quote".to_string()), "EDITOR"),
        Err("cannot parse $EDITOR: missing closing quote".to_string())
    );
}

#[test]
fn what_the_program_does_with_its_source() {
    assert_eq!(chosen_source(Some("a.md".to_string()), true), Some("-".to_string()));
    assert_eq!(chosen_source(Some("a.md".to_string()), false), Some("a.md".to_string()));
    assert!(matches!(launch(None, false, false, false), Launch::BrowseCurrent));
    assert!(matches!(launch(Some("docs".to_string()), true, false, false), Launch::Browse(p) if p == "docs"));
    assert!(matches!(launch(Some("a.md".to_string()), false, true, true), Launch::BrowseFolderOf(p) if p == "a.md"));
    assert!(matches!(launch(Some("a.md".to_string()), false, true, false), Launch::Render(p) if p == "a.md"));
}
