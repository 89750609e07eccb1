//! Languages and the remembered backend.

use ocs_pi::lang::{
    backend_mode_path, backend_modes, detect_lang, initial_backend_mode, known_mode, lang,
    lang_from_override, load_backend_mode_from, panel_title, save_backend_mode,
    save_backend_mode_to, tag_to_lang, tr, tr_args, tr_one, tr_two, Lang,
};

#[test]
fn tr_follows_the_active_language_and_interpolates() {
    let zh = "中文样例";
    let en = "english sample";
    for active in [Lang::Zh, Lang::En] {
        match active {
            Lang::Zh => assert_eq!(tr(active, zh, en), zh),
            Lang::En => assert_eq!(tr(active, zh, en), en),
        }
        let rendered = tr_args(active, "失败：{e}", "failed: {e}", &[("e", "x".to_string())]);
        match active {
            Lang::Zh => assert_eq!(rendered, "失败：x"),
            Lang::En => assert_eq!(rendered, "failed: x"),
        }
        // Placeholders never survive interpolation.
        for text in [
            tr_args(
                active,
                "{a} 和 {b}",
                "{a} and {b}",
                &[("a", "1".into()), ("b", "2".into())],
            ),
            tr_args(active, "没有占位", "no placeholder", &[]),
        ] {
            assert!(!text.contains('{') || !text.contains('}'));
        }
    }
}

#[test]
fn interpolation_gives_exact_texts() {
    assert_eq!(
        tr_args(Lang::En, "{a} 和 {b}", "{a} and {b}", &[("a", "1".into()), ("b", "2".into())]),
        "1 and 2"
    );
    // Values are put in one after the other: a later key is replaced inside an
    // earlier value too.
    assert_eq!(
        tr_args(Lang::En, "", "{a}{b}", &[("a", "{b}".into()), ("b", "x".into())]),
        "xx"
    );
    assert_eq!(tr_one(Lang::Zh, "压缩失败：{e}", "", "e", "满"), "压缩失败：满");
    assert_eq!(tr_two(Lang::En, "", "{a}-{b}-{a}", "a", "1", "b", "2"), "1-2-1");
}

#[test]
fn language_resolution_rules() {
    assert_eq!(lang_from_override("zh"), Some(Lang::Zh));
    assert_eq!(lang_from_override("zh-CN"), Some(Lang::Zh));
    assert_eq!(lang_from_override(" ZH_TW "), Some(Lang::Zh));
    assert_eq!(lang_from_override("en"), Some(Lang::En));
    assert_eq!(lang_from_override("de-DE"), Some(Lang::En));
    assert_eq!(lang_from_override("   "), None);
    // locale tags: only Chinese is Chinese, everything else (incl. none) is English
    assert_eq!(tag_to_lang(Some("zh_CN.UTF-8")), Lang::Zh);
    assert_eq!(tag_to_lang(Some("zh")), Lang::Zh);
    assert_eq!(tag_to_lang(Some("en-US")), Lang::En);
    assert_eq!(tag_to_lang(Some("C.UTF-8")), Lang::En);
    assert_eq!(tag_to_lang(None), Lang::En);
    // the title is bilingual too
    assert!(matches!(panel_title(Lang::Zh), "Pi 助手" | "Pi Assistant"));
    assert_eq!(panel_title(Lang::Zh), "Pi 助手");
    assert_eq!(panel_title(Lang::En), "Pi Assistant");
}

#[test]
fn host_language_beats_environment() {
    assert_eq!(detect_lang(Some("zh-CN"), Some("en_US"), None, None), Lang::Zh);
    assert_eq!(detect_lang(Some("en"), Some("zh_CN"), Some("zh"), Some("zh")), Lang::En);
    assert_eq!(detect_lang(None, Some("zh_CN"), Some("en"), Some("en")), Lang::Zh);
    assert_eq!(detect_lang(None, None, Some("zh"), Some("en")), Lang::Zh);
    assert_eq!(detect_lang(None, None, None, Some("zh")), Lang::Zh);
    assert_eq!(detect_lang(None, None, None, None), Lang::En);
    // The override wins unless it is blank.
    assert_eq!(lang(Some("en"), Lang::Zh), Lang::En);
    assert_eq!(lang(Some("  "), Lang::Zh), Lang::Zh);
    assert_eq!(lang(None, Lang::En), Lang::En);
}

#[test]
fn backend_mode_round_trips_and_rejects_junk() {
    let path = backend_mode_path(Some("/tmp/ocs-pi-mode-test"));
    assert_eq!(path.as_deref(), Some("/tmp/ocs-pi-mode-test/pi-panel-backend.txt"));
    let mut file: Option<String> = None;
    for mode in backend_modes() {
        if let Some(text) = save_backend_mode_to(&mode) {
            file = Some(text);
        }
        assert_eq!(load_backend_mode_from(file.as_deref()).as_deref(), Some(mode.as_str()));
    }
    // Case and surrounding whitespace are normalised.
    file = Some("  RPC \n".to_string());
    assert_eq!(load_backend_mode_from(file.as_deref()).as_deref(), Some("rpc"));
    // Unknown values are neither written nor read back.
    if let Some(text) = save_backend_mode_to("carrier-pigeon") {
        file = Some(text);
    }
    assert_eq!(load_backend_mode_from(file.as_deref()).as_deref(), Some("rpc"));
    file = Some("carrier-pigeon".to_string());
    assert_eq!(load_backend_mode_from(file.as_deref()), None);
    // A missing file is not an error.
    assert_eq!(load_backend_mode_from(None), None);
}

#[test]
fn chosen_mode_is_written_with_its_path() {
    assert_eq!(
        save_backend_mode(Some("/home/u/.config/OpenCADStudio"), " Web "),
        Some((
            "/home/u/.config/OpenCADStudio/pi-panel-backend.txt".to_string(),
            "web\n".to_string()
        ))
    );
    assert_eq!(save_backend_mode(Some("/c"), "x"), None);
    assert_eq!(save_backend_mode(None, "web"), None);
    assert_eq!(backend_mode_path(None), None);
    assert_eq!(known_mode(" AUTO\n").as_deref(), Some("auto"));
    assert_eq!(known_mode("autox"), None);
    assert_eq!(backend_modes(), vec!["auto", "web", "rpc"]);
}

#[test]
fn start_mode_prefers_stored_then_environment() {
    assert_eq!(initial_backend_mode(Some("rpc\n"), Some("web")), "rpc");
    assert_eq!(initial_backend_mode(Some("junk"), Some(" WEB ")), "web");
    assert_eq!(initial_backend_mode(None, Some("rpc")), "rpc");
    assert_eq!(initial_backend_mode(None, Some("carrier-pigeon")), "auto");
    assert_eq!(initial_backend_mode(None, None), "auto");
}
