use glow::tunnel::{
    extract_trycloudflare_url, remember_diagnostic, spawn_error_message, startup_exit_message,
    startup_step, startup_timeout_message, tunnel_arguments, tunnel_local_url, StartupAction,
    StartupEvent,
};

#[test]
fn extracts_a_quick_tunnel_origin_from_decorated_output() {
    let line = "INF | https://daring-labyrinth-example.trycloudflare.com |";
    assert_eq!(
        extract_trycloudflare_url(line).as_deref(),
        Some("https://daring-labyrinth-example.trycloudflare.com")
    );
}

#[test]
fn rejects_lookalikes_and_urls_with_extra_authority_or_location_data() {
    for line in [
        "https://demo.trycloudflare.com.evil.test",
        "https://trycloudflare.com",
        "https://nested.demo.trycloudflare.com",
        "https://user@demo.trycloudflare.com",
        "https://demo.trycloudflare.com:443",
        "https://demo.trycloudflare.com/admin",
        "https://demo.trycloudflare.com?next=evil",
        "http://demo.trycloudflare.com",
        "https://-demo.trycloudflare.com",
        "https://demo_.trycloudflare.com",
    ] {
        assert_eq!(extract_trycloudflare_url(line), None, "accepted {line}");
    }
}

#[test]
fn accepts_a_trailing_slash_and_finds_the_url_among_words() {
    assert_eq!(
        extract_trycloudflare_url("Visit it at https://quiet-river.trycloudflare.com/ now").as_deref(),
        Some("https://quiet-river.trycloudflare.com")
    );
    assert_eq!(extract_trycloudflare_url("no url here"), None);
}

#[test]
fn diagnostics_keep_the_last_twelve_nonempty_lines() {
    let mut lines = Vec::new();
    for i in 0..20 {
        remember_diagnostic(&mut lines, format!("line {i}"));
    }
    remember_diagnostic(&mut lines, "   ".to_string());
    assert_eq!(lines.len(), 12);
    assert_eq!(lines[0], "line 8");
    assert_eq!(lines[11], "line 19");
}

#[test]
fn diagnostics_are_trimmed_and_cut_to_240_characters() {
    let mut lines = Vec::new();
    remember_diagnostic(&mut lines, format!("  {}  ", "x".repeat(300)));
    assert_eq!(lines.len(), 1);
    assert_eq!(lines[0].chars().count(), 240);
}

#[test]
fn startup_becomes_ready_on_the_tunnel_url() {
    let mut lines = Vec::new();
    let first = startup_step(&mut lines, StartupEvent::Line("starting tunnel".to_string()));
    assert!(matches!(first, StartupAction::Continue));
    let ready = startup_step(
        &mut lines,
        StartupEvent::Line("| https://bright-sky.trycloudflare.com |".to_string()),
    );
    match ready {
        StartupAction::Ready(url) => assert_eq!(url, "https://bright-sky.trycloudflare.com"),
        _ => panic!("expected the tunnel to be ready"),
    }
}

#[test]
fn early_exit_and_timeout_messages_carry_recent_output() {
    let mut lines = Vec::new();
    remember_diagnostic(&mut lines, "credentials rejected".to_string());
    let exit = startup_exit_message("exit status: 7", &lines);
    assert!(exit.starts_with("cloudflared exited before publishing a public URL (exit status: 7)"));
    assert!(exit.contains("credentials rejected"));
    let timeout = startup_timeout_message("30", &Vec::new());
    assert_eq!(timeout, "cloudflared did not publish a trycloudflare.com URL within 30 seconds");
}

#[test]
fn quick_tunnel_arguments_and_local_url() {
    let url = tunnel_local_url(43123).expect("port");
    assert_eq!(url, "http://127.0.0.1:43123");
    assert_eq!(
        tunnel_arguments(&url),
        vec!["tunnel", "--no-autoupdate", "--url", "http://127.0.0.1:43123"]
    );
    assert!(tunnel_local_url(0).is_err());
}

#[test]
fn spawn_errors_explain_what_to_install() {
    let missing = spawn_error_message(true, "cloudflared", "http://127.0.0.1:1", "not found");
    assert!(missing.starts_with("cloudflared was not found (tried cloudflared)"));
    let other = spawn_error_message(false, "cf", "http://127.0.0.1:1", "denied");
    assert_eq!(other, "failed to start cloudflared (cf) for http://127.0.0.1:1: denied");
}
