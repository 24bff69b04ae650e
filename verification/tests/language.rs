use alvr_dashboard_core::language::{
    detect_system_locale, init, language_option, set_language_option, tr, Catalog, Language,
    LanguageOption, LanguageSources, LanguageState, Locale,
};

fn sources() -> LanguageSources {
    LanguageSources {
        english: r#"{"Settings": "Settings", "Logs": "Logs"}"#.to_string(),
        simplified_chinese: r#"{"Settings": "设置", "Logs": "日志"}"#.to_string(),
    }
}

#[test]
fn missing_keys_fall_back_to_source_text() {
    let language = Language::from_locale(Locale::SimplifiedChinese, &sources()).unwrap();
    assert_eq!(language.translate("missing key"), "missing key");
    assert_eq!(language.translate("Settings"), "设置");
}

#[test]
fn invalid_json_is_refused() {
    assert!(Language::from_json("not json").is_none());
    assert!(Language::from_json(r#"{"a": 1}"#).is_none());
    assert!(Language::from_json(r#"["a"]"#).is_none());
    let broken = LanguageSources { english: "{".to_string(), simplified_chinese: "{}".to_string() };
    assert!(Catalog::new(&broken).is_none());
}

#[test]
fn later_duplicate_keys_win() {
    let language = Language::from_json(r#"{"k": "first", "k": "second"}"#).unwrap();
    assert_eq!(language.translate("k"), "second");
    let built = Language::from_entries(vec![
        ("a".to_string(), "1".to_string()),
        ("a".to_string(), "2".to_string()),
    ]);
    assert_eq!(built.translate("a"), "2");
}

#[test]
fn option_text_round_trips() {
    for option in [LanguageOption::SystemDefault, LanguageOption::English, LanguageOption::SimplifiedChinese] {
        assert_eq!(LanguageOption::from_str(option.as_str()), option);
        assert_eq!(LanguageOption::from_str(&format!("  {}\n", option.as_str())), option);
    }
    assert_eq!(LanguageOption::English.as_str(), "en-US");
    assert_eq!(LanguageOption::SimplifiedChinese.as_str(), "zh-CN");
    assert_eq!(LanguageOption::SystemDefault.as_str(), "system");
    assert_eq!(LanguageOption::from_str("fr-FR"), LanguageOption::SystemDefault);
    assert_eq!(LanguageOption::from_str("EN-us"), LanguageOption::SystemDefault);
}

#[test]
fn option_locale() {
    assert_eq!(LanguageOption::SystemDefault.locale(Locale::SimplifiedChinese), Locale::SimplifiedChinese);
    assert_eq!(LanguageOption::English.locale(Locale::SimplifiedChinese), Locale::English);
    assert_eq!(LanguageOption::SimplifiedChinese.locale(Locale::English), Locale::SimplifiedChinese);
}

#[test]
fn system_locale_detection() {
    let s = |v: &str| Some(v.to_string());
    assert_eq!(detect_system_locale(None, None, None, None), Locale::English);
    assert_eq!(detect_system_locale(s("zh_CN.UTF-8"), None, None, None), Locale::SimplifiedChinese);
    assert_eq!(detect_system_locale(None, None, s("ZH_tw"), None), Locale::SimplifiedChinese);
    assert_eq!(detect_system_locale(s("en_US"), s("zh_CN"), None, None), Locale::English);
    assert_eq!(detect_system_locale(s(""), s("zh_CN"), None, None), Locale::English);
    assert_eq!(detect_system_locale(None, None, None, s("zh")), Locale::SimplifiedChinese);
    assert_eq!(detect_system_locale(s("z"), None, None, None), Locale::English);
}

#[test]
fn tr_uses_the_system_locale_once() {
    let catalog = Catalog::new(&sources()).unwrap();
    let mut state = LanguageState::new();
    assert_eq!(tr(&mut state, &catalog, "Settings", Locale::SimplifiedChinese), "设置");
    assert_eq!(state.language, Some(Locale::SimplifiedChinese));
    assert_eq!(tr(&mut state, &catalog, "Logs", Locale::English), "日志");
    assert_eq!(tr(&mut state, &catalog, "Unknown", Locale::English), "Unknown");
    assert_eq!(state.option, None);
}

#[test]
fn chosen_option_is_read_back_and_persisted() {
    let mut state = LanguageState::new();
    assert_eq!(set_language_option(&mut state, LanguageOption::English, Locale::English), None);
    assert_eq!(language_option(&mut state), LanguageOption::English);
    assert_eq!(state.language, None);

    let mut state = LanguageState::new();
    init(&mut state, Some("zh-CN\n"), Locale::English);
    assert_eq!(state.option, Some(LanguageOption::SimplifiedChinese));
    assert_eq!(state.language, Some(Locale::SimplifiedChinese));
    assert!(state.has_path);
    let written = set_language_option(&mut state, LanguageOption::SystemDefault, Locale::English);
    assert_eq!(written, Some("system"));
    assert_eq!(state.language, Some(Locale::English));

    let mut restarted = LanguageState::new();
    init(&mut restarted, written, Locale::SimplifiedChinese);
    assert_eq!(language_option(&mut restarted), LanguageOption::SystemDefault);
    assert_eq!(restarted.language, Some(Locale::SimplifiedChinese));
}

#[test]
fn language_option_defaults_to_system() {
    let mut state = LanguageState::new();
    assert_eq!(language_option(&mut state), LanguageOption::SystemDefault);
    let mut state = LanguageState::new();
    init(&mut state, None, Locale::English);
    assert_eq!(state.option, Some(LanguageOption::SystemDefault));
    let mut state = LanguageState::new();
    set_language_option(&mut state, LanguageOption::English, Locale::English);
    init(&mut state, Some("zh-CN"), Locale::English);
    assert_eq!(state.option, Some(LanguageOption::English));
    assert_eq!(state.language, Some(Locale::SimplifiedChinese));
}
