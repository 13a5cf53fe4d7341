use monolith::opts::resolve_no_color;
use monolith::opts::FlagValues;
use monolith::opts::Options;

#[test]
fn defaults() {
    let options: Options = Options::default();

    assert_eq!(options.no_audio, false);
    assert_eq!(options.base_url, None);
    assert_eq!(options.no_css, false);
    assert_eq!(options.charset, None);
    assert_eq!(options.no_frames, false);
    assert_eq!(options.no_fonts, false);
    assert_eq!(options.no_images, false);
    assert_eq!(options.isolate, false);
    assert_eq!(options.no_js, false);
    assert_eq!(options.insecure, false);
    assert_eq!(options.no_metadata, false);
    assert_eq!(options.output, None);
    assert_eq!(options.silent, false);
    assert_eq!(options.timeout, 120);
    assert_eq!(
        options.user_agent,
        String::from(
            "Mozilla/5.0 (X11; Ubuntu; Linux x86_64; rv:73.0) Gecko/20100101 Firefox/73.0"
        )
    );
    assert_eq!(options.no_video, false);

    assert_eq!(options.target, "".to_string());
}

#[test]
fn default_optional_fields_absent() {
    let options: Options = Options::default();
    assert!(options.headers.is_none());
    assert_eq!(options.no_color, false);
    assert_eq!(options.ignore_errors, false);
    assert_eq!(options.unwrap_noscript, false);
}

#[test]
fn color_enabled_on_terminal_without_overrides() {
    // stderr is a terminal, the no-color variable is unset, TERM unset or
    // not `dumb`: color stays enabled, so `no_color` is false.
    assert_eq!(resolve_no_color(false, true, None), false);
    assert_eq!(resolve_no_color(false, true, Some("xterm-256color")), false);
}

#[test]
fn no_color_variable_disables_color() {
    // The variable being set at all disables color, whatever the terminal
    // state (a value of "" still counts as set).
    assert_eq!(resolve_no_color(true, true, None), true);
    assert_eq!(resolve_no_color(true, true, Some("xterm")), true);
    assert_eq!(resolve_no_color(true, false, None), true);
}

#[test]
fn dumb_terminal_disables_color() {
    assert_eq!(resolve_no_color(false, true, Some("dumb")), true);
    assert_eq!(resolve_no_color(false, true, Some("dumber")), false);
    assert_eq!(resolve_no_color(false, true, Some("dum")), false);
}

#[test]
fn redirected_stderr_disables_color() {
    assert_eq!(resolve_no_color(false, false, None), true);
    assert_eq!(resolve_no_color(false, false, Some("xterm")), true);
}

#[test]
fn apply_color_environment_touches_only_no_color() {
    let mut options: Options = Options::default();
    options.target = String::from("https://example.com/");
    options.no_images = true;
    options.apply_color_environment(false, true, Some("dumb"));
    assert_eq!(options.no_color, true);
    assert_eq!(options.target, "https://example.com/".to_string());
    assert_eq!(options.no_images, true);
    assert_eq!(options.timeout, 120);

    options.apply_color_environment(false, true, Some("xterm"));
    assert_eq!(options.no_color, false);
}

#[test]
fn flag_values_round_trip() {
    let f = FlagValues {
        no_audio: true,
        base_url: Some("http://localhost/".to_string()),
        no_css: false,
        charset: Some("UTF-8".to_string()),
        ignore_errors: true,
        no_frames: false,
        no_fonts: true,
        no_images: false,
        isolate: true,
        no_js: false,
        insecure: true,
        no_metadata: false,
        output: Some("page.html".to_string()),
        silent: true,
        timeout: 42,
        user_agent: "agent".to_string(),
        headers: None,
        no_video: true,
        target: "https://example.com/".to_string(),
        unwrap_noscript: true,
    };
    let options = Options::from_flag_values(f);
    assert_eq!(options.no_color, false);
    let back = options.into_flag_values();
    assert_eq!(back.no_audio, true);
    assert_eq!(back.base_url, Some("http://localhost/".to_string()));
    assert_eq!(back.no_css, false);
    assert_eq!(back.charset, Some("UTF-8".to_string()));
    assert_eq!(back.ignore_errors, true);
    assert_eq!(back.no_frames, false);
    assert_eq!(back.no_fonts, true);
    assert_eq!(back.no_images, false);
    assert_eq!(back.isolate, true);
    assert_eq!(back.no_js, false);
    assert_eq!(back.insecure, true);
    assert_eq!(back.no_metadata, false);
    assert_eq!(back.output, Some("page.html".to_string()));
    assert_eq!(back.silent, true);
    assert_eq!(back.timeout, 42);
    assert_eq!(back.user_agent, "agent".to_string());
    assert!(back.headers.is_none());
    assert_eq!(back.no_video, true);
    assert_eq!(back.target, "https://example.com/".to_string());
    assert_eq!(back.unwrap_noscript, true);
}
