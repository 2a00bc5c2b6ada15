use nirimap::config::LabelContent;
use nirimap::decorations::{
    data_dirs, data_home, desktop_index_entries, fallback_letter, index_desktop_entry, index_lookup, is_desktop_file_name, label_text, parse_desktop_entry, IconAnswer, IconLookup, IconQuery,
    IconSource, IconStep,
};
use nirimap::model::Window;

fn window_with(title: Option<&str>, app_id: Option<&str>) -> Window {
    Window {
        id: 1,
        pos: None,
        size: (100.0f64.to_bits(), 100.0f64.to_bits()),
        column_index: 0,
        window_index: 0,
        is_focused: false,
        is_floating: false,
        title: title.map(str::to_string),
        app_id: app_id.map(str::to_string),
    }
}

#[test]
fn test_label_text_title() {
    let w = window_with(Some("GitHub"), Some("firefox"));
    assert_eq!(label_text(LabelContent::Title, &w), Some("GitHub".to_string()));
}

#[test]
fn test_label_text_title_falls_back_to_app_id() {
    let w = window_with(None, Some("firefox"));
    assert_eq!(label_text(LabelContent::Title, &w), Some("firefox".to_string()));
}

#[test]
fn test_label_text_app_id_title() {
    let w = window_with(Some("GitHub"), Some("firefox"));
    assert_eq!(label_text(LabelContent::AppIdTitle, &w), Some("firefox — GitHub".to_string()));
}

#[test]
fn test_label_text_none() {
    let w = window_with(Some("GitHub"), Some("firefox"));
    assert_eq!(label_text(LabelContent::NoText, &w), None);
}

#[test]
fn test_label_text_empty_strings_treated_as_missing() {
    let w = window_with(Some(""), Some(""));
    assert_eq!(label_text(LabelContent::Title, &w), None);
    assert_eq!(label_text(LabelContent::AppIdTitle, &w), None);
}

#[test]
fn label_text_app_id_falls_back_to_title() {
    let w = window_with(Some("GitHub"), Some(""));
    assert_eq!(label_text(LabelContent::AppId, &w), Some("GitHub".to_string()));
    assert_eq!(label_text(LabelContent::AppIdTitle, &w), Some("GitHub".to_string()));
    let w = window_with(None, Some("firefox"));
    assert_eq!(label_text(LabelContent::AppIdTitle, &w), Some("firefox".to_string()));
}

#[test]
fn test_parse_desktop_entry() {
    let contents = "\
[Desktop Entry]
Name=Firefox
Icon=firefox
StartupWMClass=firefox

[Desktop Action new-window]
Icon=other-icon
";
    let (wm_class, icon) = parse_desktop_entry(contents);
    assert_eq!(wm_class.as_deref(), Some("firefox"));
    assert_eq!(icon.as_deref(), Some("firefox"));
}

#[test]
fn test_parse_desktop_entry_missing_keys() {
    let contents = "[Desktop Entry]\nName=Thing\n";
    let (wm_class, icon) = parse_desktop_entry(contents);
    assert_eq!(wm_class, None);
    assert_eq!(icon, None);
}

#[test]
fn parse_desktop_entry_trims_and_keeps_first() {
    let contents = "  [Desktop Entry]  \r\n  Icon =x\r\nIcon=  code \r\nIcon=later\nStartupWMClass=\tCode\t";
    let (wm_class, icon) = parse_desktop_entry(contents);
    assert_eq!(wm_class.as_deref(), Some("Code"));
    assert_eq!(icon.as_deref(), Some("code"));
    let (wm_class, icon) = parse_desktop_entry("Icon=outside\n[Other]\nIcon=no\n");
    assert_eq!((wm_class, icon), (None, None));
}

fn get(index: &Vec<(String, String)>, key: &str) -> Option<String> {
    index_lookup(index, &key.to_string())
}

#[test]
fn test_index_desktop_entry_maps_wm_class_and_stem() {
    let mut index = Vec::new();
    let contents = "[Desktop Entry]\nIcon=code\nStartupWMClass=Code\n";
    index_desktop_entry(&mut index, "visual-studio-code.desktop", contents);
    assert_eq!(get(&index, "code").as_deref(), Some("code"));
    assert_eq!(get(&index, "visual-studio-code").as_deref(), Some("code"));
}

#[test]
fn desktop_index_entries_in_order_and_lowercased() {
    let contents = "[Desktop Entry]\nStartupWMClass=Org.Gnome.Nautilus\nIcon=/usr/share/icons/files.png\n";
    assert_eq!(
        desktop_index_entries("Files.desktop", contents),
        vec![
            ("org.gnome.nautilus".to_string(), "/usr/share/icons/files.png".to_string()),
            ("files".to_string(), "/usr/share/icons/files.png".to_string()),
        ]
    );
}

#[test]
fn desktop_index_uses_the_file_stem_and_skips_entries_without_icon() {
    let with_icon = "[Desktop Entry]\nIcon=firefox\n";
    assert!(desktop_index_entries("firefox.desktop", "[Desktop Entry]\nName=Firefox\n").is_empty());
    assert_eq!(
        desktop_index_entries("Firefox.desktop", with_icon),
        vec![("firefox".to_string(), "firefox".to_string())]
    );
    assert_eq!(
        desktop_index_entries("org.Mozilla.firefox.desktop", with_icon),
        vec![("org.mozilla.firefox".to_string(), "firefox".to_string())]
    );
    assert_eq!(desktop_index_entries("firefox", with_icon), vec![("firefox".to_string(), "firefox".to_string())]);
    assert_eq!(desktop_index_entries(".desktop", with_icon), vec![(".desktop".to_string(), "firefox".to_string())]);
    assert_eq!(desktop_index_entries("..", with_icon), Vec::<(String, String)>::new());
}

#[test]
fn desktop_files_are_named_by_their_extension() {
    assert!(is_desktop_file_name("firefox.desktop"));
    assert!(is_desktop_file_name("org.gnome.Nautilus.desktop"));
    assert!(is_desktop_file_name("..desktop"));
    assert!(!is_desktop_file_name(".desktop"));
    assert!(!is_desktop_file_name("firefox.desktop.bak"));
    assert!(!is_desktop_file_name("firefox.Desktop"));
    assert!(!is_desktop_file_name("desktop"));
    assert!(!is_desktop_file_name(""));
}

#[test]
fn first_indexed_file_wins() {
    let mut index = Vec::new();
    index_desktop_entry(&mut index, "a.desktop", "[Desktop Entry]\nIcon=first\nStartupWMClass=App\n");
    index_desktop_entry(&mut index, "app.desktop", "[Desktop Entry]\nIcon=second\n");
    assert_eq!(get(&index, "app").as_deref(), Some("first"));
    assert_eq!(get(&index, "a").as_deref(), Some("first"));
    assert_eq!(index.len(), 2);
    assert_eq!(get(&index, "missing"), None);
}

#[test]
fn data_dirs_split_on_colons_and_skip_empty_pieces() {
    assert_eq!(data_dirs(None), vec!["/usr/local/share".to_string(), "/usr/share".to_string()]);
    assert_eq!(
        data_dirs(Some("/a::/b/c:")),
        vec!["/a".to_string(), "/b/c".to_string()]
    );
    assert!(data_dirs(Some("")).is_empty());
    assert!(data_dirs(Some(":::")).is_empty());
}

#[test]
fn data_home_must_be_absolute() {
    assert_eq!(data_home(Some("/home/u/.local/share")), Some("/home/u/.local/share".to_string()));
    assert_eq!(data_home(Some("relative/share")), None);
    assert_eq!(data_home(Some("")), None);
    assert_eq!(data_home(None), None);
}

#[test]
fn fallback_letter_is_the_app_id_initial_uppercased() {
    assert_eq!(fallback_letter("org.gnome.nautilus"), Some("O".to_string()));
    assert_eq!(fallback_letter("firefox"), Some("F".to_string()));
    assert_eq!(fallback_letter("org."), Some("O".to_string()));
    assert_eq!(fallback_letter("ẞtraße"), Some("ẞ".to_string()));
    assert_eq!(fallback_letter("ßapp"), Some("SS".to_string()));
    assert_eq!(fallback_letter(".hidden"), Some(".".to_string()));
    assert_eq!(fallback_letter(""), None);
}

fn resolve(app_id: &str, theme: &[&str], index: &[(&str, &str)]) -> (IconSource, Vec<IconQuery>) {
    let (mut lookup, mut step) = IconLookup::start(app_id);
    let mut asked = Vec::new();
    loop {
        match step {
            IconStep::Done(source) => return (source, asked),
            IconStep::Ask(query) => {
                let answer = match &query {
                    IconQuery::ThemeHas(name) => IconAnswer::InTheme(theme.contains(&name.as_str())),
                    IconQuery::DesktopIndex(key) => IconAnswer::DesktopIcon(
                        index.iter().find(|(k, _)| *k == key.as_str()).map(|(_, v)| v.to_string()),
                    ),
                };
                asked.push(query);
                step = lookup.advance(answer);
            }
        }
    }
}

#[test]
fn icon_lookup_prefers_the_app_id_then_its_lowercase_form() {
    let (source, asked) = resolve("Firefox", &["Firefox", "firefox"], &[]);
    assert_eq!(source, IconSource::Themed("Firefox".to_string()));
    assert_eq!(asked, vec![IconQuery::ThemeHas("Firefox".to_string())]);

    let (source, asked) = resolve("Firefox", &["firefox"], &[]);
    assert_eq!(source, IconSource::Themed("firefox".to_string()));
    assert_eq!(asked.len(), 2);
}

#[test]
fn icon_lookup_falls_back_to_the_desktop_index() {
    let (source, asked) = resolve("Code", &["vscode"], &[("code", "vscode")]);
    assert_eq!(source, IconSource::Themed("vscode".to_string()));
    assert_eq!(
        asked,
        vec![
            IconQuery::ThemeHas("Code".to_string()),
            IconQuery::ThemeHas("code".to_string()),
            IconQuery::DesktopIndex("code".to_string()),
            IconQuery::ThemeHas("vscode".to_string()),
        ]
    );

    let (source, _) = resolve("Files", &[], &[("files", "/usr/share/icons/files.png")]);
    assert_eq!(source, IconSource::File("/usr/share/icons/files.png".to_string()));

    let (source, _) = resolve("Files", &[], &[("files", "missing-icon")]);
    assert_eq!(source, IconSource::Missing);

    let (source, _) = resolve("Unknown", &[], &[]);
    assert_eq!(source, IconSource::Missing);
}
