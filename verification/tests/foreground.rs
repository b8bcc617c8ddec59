use handy::foreground::{
    app_name_from_raw, exe_stem, foreground_app_name, stem_or_path, ForegroundAppReading,
};
use handy::whitespace::{has_visible_text, trim};

#[test]
fn exe_stem_takes_file_stem() {
    assert_eq!(exe_stem("C:/Program Files/Microsoft VS Code/Code.exe"), "Code");
    assert_eq!(exe_stem("/usr/bin/firefox"), "firefox");
    assert_eq!(exe_stem("archive.tar.gz"), "archive.tar");
    assert_eq!(exe_stem(".profile"), ".profile");
}

#[test]
fn exe_stem_falls_back_to_raw_input() {
    assert_eq!(exe_stem(""), "");
    assert_eq!(exe_stem("/"), "/");
    assert_eq!(exe_stem("dir/.."), "dir/..");
}

#[test]
fn title_reading_is_trimmed() {
    let r = foreground_app_name(ForegroundAppReading::Title("  Safari \n".to_string()));
    assert_eq!(r, Some("Safari".to_string()));
}

#[test]
fn blank_title_gives_none() {
    assert_eq!(foreground_app_name(ForegroundAppReading::Title("   ".to_string())), None);
    assert_eq!(foreground_app_name(ForegroundAppReading::Title(String::new())), None);
}

#[test]
fn image_path_reading_gives_stem() {
    let r = foreground_app_name(ForegroundAppReading::ImagePath("C:/Windows/notepad.exe".to_string()));
    assert_eq!(r, Some("notepad".to_string()));
}

#[test]
fn unknown_reading_gives_none() {
    assert_eq!(foreground_app_name(ForegroundAppReading::Unknown), None);
}

#[test]
fn app_name_from_raw_trims_both_ends() {
    assert_eq!(app_name_from_raw("\u{00A0}Mail\u{2003}"), Some("Mail".to_string()));
    assert_eq!(app_name_from_raw("Visual Studio Code"), Some("Visual Studio Code".to_string()));
    assert_eq!(app_name_from_raw("\t\r\n"), None);
}

#[test]
fn trim_matches_std_trim() {
    for s in ["", "  ", " a ", "a b", "\n\tx y\u{3000}", "\u{85}z\u{2028}", "no-space"] {
        assert_eq!(trim(s), s.trim(), "{s:?}");
        assert_eq!(has_visible_text(s), !s.trim().is_empty(), "{s:?}");
    }
}

#[test]
fn exe_stem_of_bare_file_names() {
    assert_eq!(exe_stem("Code.exe"), "Code");
    assert_eq!(exe_stem("a.b.c"), "a.b");
    assert_eq!(exe_stem("noext"), "noext");
    assert_eq!(exe_stem(".hidden"), ".hidden");
    assert_eq!(exe_stem("..x"), ".");
    assert_eq!(exe_stem("trailing."), "trailing");
    assert_eq!(exe_stem(".."), "..");
    assert_eq!(exe_stem("."), ".");
}

#[test]
fn stem_or_path_picks_stem_when_present() {
    assert_eq!(stem_or_path(Some("Code".to_string()), "C:/x/Code.exe"), "Code");
    assert_eq!(stem_or_path(None, "C:/x/.."), "C:/x/..");
}

#[test]
fn image_path_with_blank_stem_gives_none() {
    assert_eq!(foreground_app_name(ForegroundAppReading::ImagePath("  .exe".to_string())), None);
}

#[test]
fn exe_stem_never_returns_a_named_path_whole() {
    // On this platform `\` is no separator, so the stem keeps the directories.
    let stem = exe_stem("C:\\Program Files\\Code.exe");
    assert!(stem == "Code" || stem == "C:\\Program Files\\Code");
    assert_eq!(exe_stem("/opt/app/bin/tool.sh"), "tool");
}
