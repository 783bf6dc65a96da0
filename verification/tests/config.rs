use ytm_core::config::{record_browser, Config, Lyrics, Shift, LEGACY_STUB, TEMPLATE};

fn seconds(s: f64) -> Shift {
    if s.is_finite() {
        Shift::Nanos((s * 1e9).round() as i64)
    } else {
        Shift::NotFinite
    }
}

/// The settings in a file, as they are used where no key is found.
fn parse(src: &str) -> Config {
    let file: toml::Table = src.parse().expect("valid toml");
    let mut c = Config::default();
    if let Some(t) = file.get("lyrics").and_then(|t| t.as_table()) {
        match t.get("offset") {
            Some(toml::Value::Integer(i)) => c.lyrics.offset = seconds(*i as f64),
            Some(toml::Value::Float(f)) => c.lyrics.offset = seconds(*f),
            _ => {}
        }
        let text = |k: &str| t.get(k).and_then(|v| v.as_str()).map(|s| s.to_string());
        if let Some(v) = text("translate-to") {
            c.lyrics.translate_to = v;
        }
        if let Some(v) = t.get("ai-translation").and_then(|v| v.as_bool()) {
            c.lyrics.ai_translation = v;
        }
        if let Some(v) = text("ai-model") {
            c.lyrics.ai_model = v;
        }
        if let Some(v) = text("ai-key-env") {
            c.lyrics.ai_key_env = v;
        }
    }
    if let Some(t) = file.get("auth").and_then(|t| t.as_table()) {
        if let Some(v) = t.get("auto-reauth").and_then(|v| v.as_bool()) {
            c.auth.auto_reauth = v;
        }
        if let Some(v) = t.get("cookie-browser").and_then(|v| v.as_str()) {
            c.auth.cookie_browser = v.to_string();
        }
    }
    let has_key = c.lyrics.ai_key(None).is_some();
    c.validated(&known(), has_key)
}

/// Some languages, with the one whose code has capitals in it.
fn known() -> Vec<String> {
    ["en", "fr", "nl", "zh", "zh-TW"].map(String::from).to_vec()
}

/// The shift in seconds.
fn offset(c: &Config) -> f64 {
    match c.lyrics.offset {
        Shift::Nanos(n) => n as f64 / 1e9,
        Shift::NotFinite => panic!("not finite"),
    }
}

fn recorded(src: &str, browser: &str) -> String {
    record_browser(src, browser).expect("valid toml").expect("changed")
}

#[test]
fn ai_translation_is_off_unless_asked_for() {
    // The whole point of the flag: an install nobody has configured behaves
    // exactly as it did before the backend existed, and bills nothing.
    assert!(!parse("").lyrics.ai_translation);
    assert!(!parse("[lyrics]\n").lyrics.ai_translation);
    assert!(!Config::default().lyrics.ai_translation);
    assert!(!parse(TEMPLATE).lyrics.ai_translation);
}

#[test]
fn the_flag_alone_is_enough_to_turn_it_on() {
    // Model and key-variable names default to something usable, so nobody
    // has to name a model to get started.
    let mut c = Config::with_model("haiku-4-5");
    assert!(!c.lyrics.ai_translation);
    c.lyrics.ai_translation = true;
    let lyrics = c.validated(&known(), true).lyrics;
    assert_eq!(lyrics.ai_model, "haiku-4-5");
    assert_eq!(lyrics.ai_key_env, "ANTHROPIC_API_KEY");
    assert!(lyrics.ai_translation);
}

#[test]
fn the_flag_off_means_the_free_backend_whatever_else_is_set() {
    // With the flag off a key lying around in the shell can't switch backends.
    let lyrics = parse("[lyrics]\nai-translation = false\nai-model = \"opus-5\"\n").lyrics;
    let key = lyrics.ai_key(Some("key".to_string()));
    assert!(lyrics.backend(key).ai.is_none());
}

#[test]
fn an_empty_model_turns_the_flag_back_off() {
    let lyrics = parse("[lyrics]\nai-translation = true\nai-model = \"\"\n").lyrics;
    assert!(!lyrics.ai_translation);
    let key = lyrics.ai_key(Some("key".to_string()));
    assert!(lyrics.backend(key).ai.is_none());
}

#[test]
fn a_key_variable_that_names_nothing_yields_no_key() {
    let lyrics =
        parse("[lyrics]\nai-translation = true\nai-key-env = \"YTM_NO_SUCH_VAR_XYZ\"\n").lyrics;
    assert!(lyrics.ai_key(None).is_none());
    assert!(lyrics.backend(lyrics.ai_key(None)).ai.is_none());
}

#[test]
fn an_empty_config_means_no_shift() {
    assert_eq!(offset(&parse("")), 0.0);
    assert_eq!(offset(&parse("[lyrics]\n")), 0.0);
    assert_eq!(offset(&Config::default()), 0.0);
}

#[test]
fn the_template_parses_and_is_all_defaults() {
    // Every setting in it is commented out, so it must read as untouched.
    let from_template = parse(TEMPLATE);
    assert_eq!(offset(&from_template), offset(&Config::default()));
}

#[test]
fn a_whole_number_of_seconds_is_accepted() {
    assert_eq!(offset(&parse("[lyrics]\noffset = -1\n")), -1.0);
    assert_eq!(offset(&parse("[lyrics]\noffset = 2\n")), 2.0);
    assert_eq!(offset(&parse("[lyrics]\noffset = -0.3\n")), -0.3);
}

#[test]
fn negative_is_early_and_positive_is_late() {
    let at = |offset: f64| {
        Lyrics {
            offset: seconds(offset),
            ..Default::default()
        }
        .lyric_time(10_000_000_000)
    };
    // Early: the lookup runs ahead of the clock, so the line due at 10.5s
    // is already active at 10s.
    assert_eq!(at(-0.5), 10_500_000_000);
    // Late: the lookup lags, so the line due at 10s is still to come.
    assert_eq!(at(0.5), 9_500_000_000);
    assert_eq!(at(0.0), 10_000_000_000);
}

#[test]
fn absurd_offsets_are_clamped_rather_than_obeyed() {
    // A user typing milliseconds would otherwise land in another verse.
    assert_eq!(offset(&parse("[lyrics]\noffset = -300\n")), -30.0);
    assert_eq!(offset(&parse("[lyrics]\noffset = 1000.0\n")), 30.0);
    assert_eq!(offset(&parse("[lyrics]\noffset = nan\n")), 0.0);
    assert_eq!(offset(&parse("[lyrics]\noffset = inf\n")), 0.0);
}

#[test]
fn translation_is_off_until_a_language_is_named() {
    assert_eq!(parse("").lyrics.translate_to, "");
    assert_eq!(parse("[lyrics]\noffset = 0.0\n").lyrics.translate_to, "");
    assert_eq!(Config::default().lyrics.translate_to, "");
    // The template names none, so a fresh install fetches nothing.
    assert_eq!(parse(TEMPLATE).lyrics.translate_to, "");
}

#[test]
fn a_language_is_read_in_kebab_case_and_normalised() {
    let to = |src: &str| parse(src).lyrics.translate_to;
    assert_eq!(to("[lyrics]\ntranslate-to = \"zh\"\n"), "zh");
    assert_eq!(to("[lyrics]\ntranslate-to = \" FR \"\n"), "fr");
    // The one code with capitals in it.
    assert_eq!(to("[lyrics]\ntranslate-to = \"zh-tw\"\n"), "zh-TW");
}

#[test]
fn a_language_nobody_translates_into_turns_the_feature_off() {
    let to = |src: &str| parse(src).lyrics.translate_to;
    assert_eq!(to("[lyrics]\ntranslate-to = \"chinese\"\n"), "");
    assert_eq!(to("[lyrics]\ntranslate-to = \"\"\n"), "");
    assert_eq!(to("[lyrics]\ntranslate-to = \"  \"\n"), "");
}

#[test]
fn a_code_that_no_language_has_turns_the_feature_off() {
    let to = |known: &[String], want: &str| {
        let mut c = Config::default();
        c.lyrics.translate_to = want.to_string();
        c.validated(known, false).lyrics.translate_to
    };
    assert_eq!(to(&known(), "zzz"), "");
    assert_eq!(to(&known(), "zh-HK"), "");
    assert_eq!(to(&[], "zh"), "");
    // The first spelling counts, and stays.
    let two = ["ZH-tw", "zh-TW"].map(String::from);
    assert_eq!(to(&two, "zh-TW"), "ZH-tw");
    assert_eq!(to(&two, "ZH-tw"), "ZH-tw");
}

#[test]
fn a_bad_language_does_not_cost_the_offset() {
    let c = parse("[lyrics]\noffset = -0.4\ntranslate-to = \"nope\"\n");
    assert_eq!(offset(&c), -0.4);
    assert_eq!(c.lyrics.translate_to, "");
}

#[test]
fn unknown_keys_do_not_discard_the_rest() {
    // Forward compatibility: a setting from a newer version, or a stray
    // key, must not cost the user the settings that are valid.
    let c = parse("[lyrics]\noffset = -0.4\nsomething_else = true\n");
    assert_eq!(offset(&c), -0.4);
}

#[test]
fn auth_defaults_to_asking_nothing_it_cannot_answer() {
    let c = Config::default();
    // On by default, but inert until a browser is on record — there is
    // nothing to run yt-dlp against until then.
    assert!(c.auth.auto_reauth);
    assert!(c.auth.cookie_browser.is_empty());
    assert_eq!(parse("").auth.cookie_browser, "");
    assert!(parse("").auth.auto_reauth);
}

#[test]
fn auth_settings_are_read_in_kebab_case() {
    // The names as they appear in the file, which is what the user types.
    let c = parse("[auth]\nauto-reauth = false\ncookie-browser = \"firefox\"\n");
    assert!(!c.auth.auto_reauth);
    assert_eq!(c.auth.cookie_browser, "firefox");
}

#[test]
fn a_broken_auth_section_does_not_cost_the_lyrics_settings() {
    // Whole-file fallback would silently undo an offset the user tuned.
    let c = parse("[lyrics]\noffset = -0.4\n\n[auth]\nsomething-new = 1\n");
    assert_eq!(offset(&c), -0.4);
    assert!(c.auth.auto_reauth);
}

#[test]
fn recording_the_browser_keeps_the_file_as_the_user_left_it() {
    let src = "\
# my notes
[lyrics]
# tuned by ear
offset = -0.35

[auth]
auto-reauth = true
";
    let out = recorded(src, "firefox");
    assert!(out.contains("# my notes"), "comments survive: {out}");
    assert!(out.contains("# tuned by ear"));
    assert!(out.contains("offset = -0.35"), "values survive: {out}");
    assert!(out.contains("auto-reauth = true"));
    assert!(out.contains("cookie-browser = \"firefox\""));
    // And it still reads back as the same settings.
    let c = parse(&out);
    assert_eq!(offset(&c), -0.35);
    assert_eq!(c.auth.cookie_browser, "firefox");
}

#[test]
fn recording_the_browser_creates_the_section_when_absent() {
    let out = recorded("[lyrics]\noffset = 0.5\n", "chrome");
    let c = parse(&out);
    assert_eq!(c.auth.cookie_browser, "chrome");
    assert_eq!(offset(&c), 0.5);

    // Including into the shipped template, which has it commented out.
    let c = parse(&recorded(TEMPLATE, "brave"));
    assert_eq!(c.auth.cookie_browser, "brave");
    assert!(c.auth.auto_reauth);
}

#[test]
fn recording_the_browser_replaces_an_earlier_one() {
    let out = recorded("[auth]\ncookie-browser = \"chrome\"\n", "firefox");
    assert_eq!(parse(&out).auth.cookie_browser, "firefox");
    assert_eq!(
        out.matches("cookie-browser").count(),
        1,
        "not duplicated: {out}"
    );
}

#[test]
fn a_recorded_browser_is_not_written_again() {
    let out = recorded("", "firefox");
    assert_eq!(record_browser(&out, "firefox"), Ok(None));
    assert!(record_browser("[auth", "firefox").is_err());
    assert_eq!(LEGACY_STUB, "# yt-music-tui configuration\n");
}

#[test]
fn a_model_needs_the_flag_a_name_and_a_key() {
    let mut c = Config::default();
    assert_eq!(c.lyrics.ai_model, "");
    assert_eq!(c.lyrics.ai_key_env, "ANTHROPIC_API_KEY");
    c.lyrics.ai_translation = true;
    c.lyrics.ai_model = " haiku-4-5 ".to_string();
    c.lyrics.translate_to = " nl ".to_string();
    assert_eq!(c.wanted_language(), "nl");
    let key = c.lyrics.ai_key(Some("secret".to_string()));
    assert_eq!(key.as_deref(), Some("secret"));
    let c = c.validated(&known(), true);
    assert!(c.lyrics.ai_translation);
    let backend = c.lyrics.backend(key);
    assert_eq!(backend.to, "nl");
    let ai = backend.ai.unwrap();
    assert_eq!((ai.model.as_str(), ai.api_key.as_str()), ("haiku-4-5", "secret"));
    assert!(c.lyrics.ai_key(Some("  ".to_string())).is_none());
    let nameless = Lyrics { ai_key_env: " ".to_string(), ..Default::default() };
    assert_eq!(nameless.key_variable(), None);
    assert!(nameless.ai_key(Some("secret".to_string())).is_none());
}
