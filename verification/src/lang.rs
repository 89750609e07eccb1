//! The panel's two languages, and the backend mode it remembers.

use vstd::prelude::*;

use crate::paths::join;
use crate::text::{replace, same, starts, to_lower, trim};

verus! {

broadcast use crate::model::group_views;

/// Which language the panel renders in.
#[derive(Debug, Clone, Copy, PartialEq, Eq, Structural)]
pub enum Lang {
    Zh,
    En,
}

/// The Chinese or the English of a pair.
pub open spec fn pick<T>(lang: Lang, zh: T, en: T) -> T {
    match lang {
        Lang::Zh => zh,
        Lang::En => en,
    }
}

/// What an explicit language setting says; nothing if it is blank.
pub open spec fn override_lang(value: Seq<char>) -> Option<Lang> {
    let v = crate::text::lower(crate::text::trimmed(value));
    if v.len() == 0 {
        None
    } else if crate::text::begins(v, "zh"@) {
        Some(Lang::Zh)
    } else {
        Some(Lang::En)
    }
}

/// The language of a locale tag: Chinese for `zh…`, else English.
pub open spec fn tag_lang(tag: Option<Seq<char>>) -> Lang {
    match tag {
        Some(t) => if crate::text::begins(crate::text::lower(crate::text::trimmed(t)), "zh"@) {
            Lang::Zh
        } else {
            Lang::En
        },
        None => Lang::En,
    }
}

/// `a`, or else `b`.
pub open spec fn or<T>(a: Option<T>, b: Option<T>) -> Option<T> {
    match a {
        Some(_) => a,
        None => b,
    }
}

/// `OCS_PI_LANG`: `zh…` is Chinese, anything else that is not blank is
/// English, and blank is no override.
pub fn lang_from_override(value: &str) -> (out: Option<Lang>)
    ensures
        out == override_lang(value@),
{
    let v = to_lower(trim(value).as_str());
    if v.as_str().is_empty() {
        None
    } else if starts(v.as_str(), "zh") {
        Some(Lang::Zh)
    } else {
        Some(Lang::En)
    }
}

/// The language of a locale tag.
pub fn tag_to_lang(tag: Option<&str>) -> (out: Lang)
    ensures
        out == tag_lang(tag.deep_view()),
{
    match tag {
        Some(t) => if starts(to_lower(trim(t).as_str()).as_str(), "zh") {
            Lang::Zh
        } else {
            Lang::En
        },
        None => Lang::En,
    }
}

/// The language without an override: the one the host resolved, else the first
/// of the locale variables `LC_ALL`, `LC_MESSAGES` and `LANG` that is set.
pub fn detect_lang(
    host: Option<&str>,
    lc_all: Option<&str>,
    lc_messages: Option<&str>,
    lang_var: Option<&str>,
) -> (out: Lang)
    ensures
        out == tag_lang(
            or(
                host.deep_view(),
                or(lc_all.deep_view(), or(lc_messages.deep_view(), lang_var.deep_view())),
            ),
        ),
{
    if host.is_some() {
        tag_to_lang(host)
    } else if lc_all.is_some() {
        tag_to_lang(lc_all)
    } else if lc_messages.is_some() {
        tag_to_lang(lc_messages)
    } else {
        tag_to_lang(lang_var)
    }
}

/// The panel language: the override if it says something, else the detected
/// one.
pub fn lang(forced: Option<&str>, detected: Lang) -> (out: Lang)
    ensures
        out == match forced {
            Some(value) => match override_lang(value@) {
                Some(lang) => lang,
                None => detected,
            },
            None => detected,
        },
{
    match forced {
        Some(value) => match lang_from_override(value) {
            Some(lang) => lang,
            None => detected,
        },
        None => detected,
    }
}

/// One visible string in the language of the panel.
pub fn tr(lang: Lang, zh: &'static str, en: &'static str) -> (out: &'static str)
    ensures
        out@ == pick(lang, zh@, en@),
{
    match lang {
        Lang::Zh => zh,
        Lang::En => en,
    }
}

/// `{key}`, the placeholder of `key`.
pub open spec fn placeholder(key: Seq<char>) -> Seq<char> {
    seq!['{'] + key + seq!['}']
}

/// `template` with the placeholders of `args` replaced, one after the other.
pub open spec fn filled(template: Seq<char>, args: Seq<(Seq<char>, Seq<char>)>) -> Seq<char>
    decreases args.len(),
{
    if args.len() == 0 {
        template
    } else {
        crate::text::replaced(
            filled(template, args.drop_last()),
            placeholder(args.last().0),
            args.last().1,
        )
    }
}

/// One visible string in the language of the panel, its `{name}` placeholders
/// replaced.
pub fn tr_args(lang: Lang, zh: &str, en: &str, args: &[(&str, String)]) -> (out: String)
    ensures
        out@ == filled(pick(lang, zh@, en@), args.deep_view()),
{
    let mut out = match lang {
        Lang::Zh => zh.to_owned(),
        Lang::En => en.to_owned(),
    };
    let ghost all = args.deep_view();
    assert(all.take(0) =~= Seq::empty());
    let mut i: usize = 0;
    while i < args.len()
        invariant
            i <= args@.len(),
            all == args.deep_view(),
            out@ == filled(pick(lang, zh@, en@), all.take(i as int)),
        decreases args@.len() - i,
    {
        let mut mark = String::new();
        mark.push('{');
        mark.append(args[i].0);
        mark.push('}');
        assert(mark@ =~= placeholder(args@[i as int].0@));
        assert(all.take(i + 1).drop_last() =~= all.take(i as int));
        assert(all.take(i + 1).last() == (args@[i as int].0@, args@[i as int].1@));
        out = replace(out.as_str(), mark.as_str(), args[i].1.as_str());
        i += 1;
    }
    assert(all.take(i as int) =~= all);
    out
}

/// [`tr_args`] with one placeholder.
pub fn tr_one(lang: Lang, zh: &str, en: &str, key: &str, value: &str) -> (out: String)
    ensures
        out@ == filled(pick(lang, zh@, en@), seq![(key@, value@)]),
{
    let mut args: Vec<(&str, String)> = Vec::new();
    args.push((key, value.to_owned()));
    let args = args.as_slice();
    assert(args.deep_view() =~= seq![(key@, value@)]);
    tr_args(lang, zh, en, args)
}

/// [`tr_args`] with two placeholders.
pub fn tr_two(lang: Lang, zh: &str, en: &str, key: &str, value: &str, key2: &str, value2: &str) -> (out:
    String)
    ensures
        out@ == filled(pick(lang, zh@, en@), seq![(key@, value@), (key2@, value2@)]),
{
    let mut args: Vec<(&str, String)> = Vec::new();
    args.push((key, value.to_owned()));
    args.push((key2, value2.to_owned()));
    let args = args.as_slice();
    assert(args.deep_view() =~= seq![(key@, value@), (key2@, value2@)]);
    tr_args(lang, zh, en, args)
}

/// Panel title, used by the dock chrome and the panel header.
pub fn panel_title(lang: Lang) -> (out: &'static str)
    ensures
        out@ == pick(lang, "Pi 助手"@, "Pi Assistant"@),
{
    tr(lang, "Pi 助手", "Pi Assistant")
}

// ── Backend mode ────────────────────────────────────────────────────────────

/// A backend mode the panel can run in.
pub open spec fn is_mode(mode: Seq<char>) -> bool {
    mode == "auto"@ || mode == "web"@ || mode == "rpc"@
}

/// A mode as the user may write it, brought to its one form.
pub open spec fn normal_mode(text: Seq<char>) -> Option<Seq<char>> {
    let mode = crate::text::lower(crate::text::trimmed(text));
    if is_mode(mode) {
        Some(mode)
    } else {
        None
    }
}

/// The name of the file that remembers the mode.
pub open spec fn mode_file() -> Seq<char> {
    "pi-panel-backend.txt"@
}

/// The backend modes, in the order the picker shows them.
pub fn backend_modes() -> (out: Vec<String>)
    ensures
        out.deep_view() == seq!["auto"@, "web"@, "rpc"@],
{
    let mut out: Vec<String> = Vec::new();
    out.push("auto".to_owned());
    out.push("web".to_owned());
    out.push("rpc".to_owned());
    assert(out.deep_view() =~= seq!["auto"@, "web"@, "rpc"@]);
    out
}

/// `text` as a mode, if it is one of the known ones.
pub fn known_mode(text: &str) -> (out: Option<String>)
    ensures
        out.deep_view() == normal_mode(text@),
{
    let mode = to_lower(trim(text).as_str());
    if same(mode.as_str(), "auto") || same(mode.as_str(), "web") || same(mode.as_str(), "rpc") {
        Some(mode)
    } else {
        None
    }
}

/// The file the chosen mode is remembered in, below the configuration
/// directory.
pub fn backend_mode_path(config_dir: Option<&str>) -> (out: Option<String>)
    ensures
        out.deep_view() == match config_dir {
            Some(dir) => Some(crate::paths::joined(dir@, mode_file())),
            None => None,
        },
{
    match config_dir {
        Some(dir) => Some(join(dir, "pi-panel-backend.txt")),
        None => None,
    }
}

/// The stored mode, from the file's text if it could be read. Only known modes
/// are accepted.
pub fn load_backend_mode_from(text: Option<&str>) -> (out: Option<String>)
    ensures
        out.deep_view() == match text {
            Some(t) => normal_mode(t@),
            None => None,
        },
{
    match text {
        Some(t) => known_mode(t),
        None => None,
    }
}

/// The text of the mode file for `mode`; nothing is to be written for an
/// unknown mode.
pub open spec fn mode_record(mode: Seq<char>) -> Option<Seq<char>> {
    match normal_mode(mode) {
        Some(m) => Some(m.push('\n')),
        None => None,
    }
}

/// What to write to the mode file to remember `mode`, if anything.
pub fn save_backend_mode_to(mode: &str) -> (out: Option<String>)
    ensures
        out.deep_view() == mode_record(mode@),
{
    match known_mode(mode) {
        Some(m) => {
            let mut text = m;
            text.push('\n');
            Some(text)
        },
        None => None,
    }
}

/// Which file to write, and with what text, to remember `mode` for the next
/// run.
pub fn save_backend_mode(config_dir: Option<&str>, mode: &str) -> (out: Option<(String, String)>)
    ensures
        out.deep_view() == match (config_dir, mode_record(mode@)) {
            (Some(dir), Some(text)) => Some((crate::paths::joined(dir@, mode_file()), text)),
            _ => None,
        },
{
    match backend_mode_path(config_dir) {
        Some(path) => match save_backend_mode_to(mode) {
            Some(text) => Some((path, text)),
            None => None,
        },
        None => None,
    }
}

/// The mode to start in, given the stored text and the environment's value.
pub open spec fn start_mode(stored: Option<Seq<char>>, env: Option<Seq<char>>) -> Seq<char> {
    match or(
        match stored {
            Some(t) => normal_mode(t),
            None => None,
        },
        match env {
            Some(t) => normal_mode(t),
            None => None,
        },
    ) {
        Some(mode) => mode,
        None => "auto"@,
    }
}

/// The mode the panel should start in: the stored preference, else
/// `OCS_PI_MODE`, else `auto`.
pub fn initial_backend_mode(stored: Option<&str>, env: Option<&str>) -> (out: String)
    ensures
        out@ == start_mode(stored.deep_view(), env.deep_view()),
{
    match load_backend_mode_from(stored) {
        Some(mode) => mode,
        None => match load_backend_mode_from(env) {
            Some(mode) => mode,
            None => "auto".to_owned(),
        },
    }
}

/// What is written for a mode is read back as that mode.
pub proof fn law_mode_round_trip(mode: Seq<char>)
    requires
        mode_record(mode) is Some,
    ensures
        normal_mode(mode_record(mode)->0) == normal_mode(mode),
{
    reveal_strlit("auto");
    reveal_strlit("web");
    reveal_strlit("rpc");
    let m = normal_mode(mode)->0;
    let t = m.push('\n');
    assert(crate::text::trim_start(t) == t);
    assert(t.drop_last() =~= m);
    assert(crate::text::trim_end(t) == crate::text::trim_end(m));
    assert(crate::text::trim_end(m) == m);
    assert(crate::text::lower(m) =~= m);
}

/// The panel never starts in an unknown mode.
pub proof fn law_start_mode_is_known(stored: Option<Seq<char>>, env: Option<Seq<char>>)
    ensures
        is_mode(start_mode(stored, env)),
{
}

/// A stored preference takes precedence over the environment.
pub proof fn law_stored_mode_wins(stored: Seq<char>, env: Option<Seq<char>>)
    requires
        normal_mode(stored) is Some,
    ensures
        start_mode(Some(stored), env) == normal_mode(stored)->0,
{
}

/// A placeholder is filled with its value, wherever it stands, and the text around it
/// stays.
pub proof fn law_placeholder_is_filled(
    front: Seq<char>,
    key: Seq<char>,
    rest: Seq<char>,
    value: Seq<char>,
)
    requires
        !front.contains('{'),
        !rest.contains('{'),
    ensures
        filled(front + seq!['{'] + key + seq!['}'] + rest, seq![(key, value)]) == front + value
            + rest,
        filled(front, Seq::empty()) == front,
{
    let args = seq![(key, value)];
    let template = front + seq!['{'] + key + seq!['}'] + rest;
    let mark = placeholder(key);
    assert(args.drop_last() =~= Seq::empty());
    reveal_with_fuel(filled, 2);
    assert(template =~= front + mark + rest);
    assert(mark[0] == '{');
    crate::text::law_replace_keeps_the_rest(front, mark, rest, value);
    crate::text::law_replace_keeps_the_rest(rest, mark, Seq::empty(), value);
}

/// Each language has its own half of a pair.
pub proof fn law_each_language_has_its_text<T>(zh: T, en: T)
    ensures
        pick(Lang::Zh, zh, en) == zh,
        pick(Lang::En, zh, en) == en,
{
}

/// A tag that begins with `zh`, in upper or lower case and with white space around it, is
/// Chinese; any other is English, and so is none. A blank override says nothing.
pub proof fn law_language_follows_tag(tag: Seq<char>)
    ensures
        ({
            let t = crate::text::lower(crate::text::trimmed(tag));
            let zh = t.len() >= 2 && t[0] == 'z' && t[1] == 'h';
            &&& tag_lang(Some(tag)) == (if zh {
                Lang::Zh
            } else {
                Lang::En
            })
            &&& t.len() == 0 ==> override_lang(tag) is None
            &&& t.len() > 0 ==> override_lang(tag) == Some(tag_lang(Some(tag)))
        }),
        tag_lang(None) == Lang::En,
{
    reveal_strlit("zh");
    let t = crate::text::lower(crate::text::trimmed(tag));
    assert("zh"@.len() == 2 && "zh"@[0] == 'z' && "zh"@[1] == 'h');
    if t.len() >= 2 && t[0] == 'z' && t[1] == 'h' {
        assert(t.take(2) =~= "zh"@);
    } else if t.len() >= 2 {
        assert(t.take(2)[0] == t[0] && t.take(2)[1] == t[1]);
    }
}

/// The first source that says something decides.
pub proof fn law_first_source_decides<T>(a: T, b: Option<T>)
    ensures
        or(Some(a), b) == Some(a),
        or(None, b) == b,
{
}

/// The three modes are known, however they are written, and no others; without a known
/// one the panel starts in `auto`.
pub proof fn law_modes_are_known(text: Seq<char>, env: Option<Seq<char>>)
    ensures
        ({
            let m = crate::text::lower(crate::text::trimmed(text));
            let known = m == "auto"@ || m == "web"@ || m == "rpc"@;
            &&& known ==> normal_mode(text) == Some(m)
            &&& !known ==> normal_mode(text) is None
            &&& known ==> mode_record(text) == Some(m + seq!['\n'])
            &&& !known ==> mode_record(text) is None
            &&& !known ==> start_mode(Some(text), env) == start_mode(None, env)
            &&& known ==> start_mode(None, Some(text)) == m
        }),
        start_mode(None, None) == "auto"@,
{
    let m = crate::text::lower(crate::text::trimmed(text));
    assert(m.push('\n') =~= m + seq!['\n']);
}

} // verus!
