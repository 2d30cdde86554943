use process_tracker::normalize::{normalize, pretty_process_name};

#[test]
fn test_pretty_process_name() {
    assert_eq!(
        pretty_process_name("chrome.exe", "Jay3 - Twitch - Google Chrome"),
        "Google Chrome"
    );
    assert_eq!(
        pretty_process_name("Discord.exe", "#general | Lurkr Support - Discord"),
        "Discord"
    );
    assert_eq!(
        pretty_process_name("LegionFanControl.exe", "LegionFanControl"),
        "LegionFanControl"
    );
    assert_eq!(
        pretty_process_name("Microsoft.SharePoint.exe", ""),
        "Microsoft SharePoint"
    );
    assert_eq!(pretty_process_name("process-tracker.exe", ""), "Process Tracker");
    assert_eq!(pretty_process_name("Razer Central.exe", ""), "Razer Central");
    assert_eq!(pretty_process_name("ShareX.exe", "ShareX"), "ShareX");
    assert_eq!(pretty_process_name("wallpaper32.exe", ""), "Wallpaper32");
    assert_eq!(pretty_process_name("ui32.exe", "Wallpaper UI"), "Wallpaper UI");
}

#[test]
fn normalize_literal_cases() {
    assert_eq!(normalize("chrome.exe"), "Chrome");
    assert_eq!(normalize("Microsoft.SharePoint.exe"), "Microsoft SharePoint");
    assert_eq!(normalize("process-tracker.exe"), "Process Tracker");
    assert_eq!(normalize("ShareX.exe"), "ShareX");
    assert_eq!(normalize("wallpaper32.exe"), "Wallpaper32");
}

#[test]
fn normalize_strips_suffix_case_insensitively() {
    assert_eq!(normalize("chrome.EXE"), "Chrome");
    assert_eq!(normalize("chrome.Exe"), "Chrome");
}

#[test]
fn normalize_underscore_separator() {
    assert_eq!(normalize("fan_control.exe"), "Fan Control");
}

#[test]
fn normalize_pascal_case() {
    assert_eq!(normalize("LegionFanControl.exe"), "Legion Fan Control");
}

#[test]
fn normalize_single_character_and_empty() {
    assert_eq!(normalize("a"), "A");
    assert_eq!(normalize(""), "");
}

#[test]
fn pretty_process_name_special_cases_win_over_titles() {
    assert_eq!(pretty_process_name("Spotify.exe", "Foo - Bar"), "Spotify");
    assert_eq!(
        pretty_process_name("C:\\Apps\\Spotify.exe", "Song - Artist - Spotify Premium"),
        "Spotify"
    );
    assert_eq!(pretty_process_name("datagrip64.exe", ""), "DataGrip");
    assert_eq!(
        pretty_process_name("C:\\JetBrains\\bin\\datagrip64.exe", "project - DataGrip IDE"),
        "DataGrip"
    );
}

#[test]
fn pretty_process_name_splits_path() {
    assert_eq!(
        pretty_process_name("C:\\Program Files\\Vendor\\cool-tool.exe", ""),
        "Cool Tool"
    );
}
