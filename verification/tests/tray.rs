use sensitive_masker::gui::ProfileSummary;
use sensitive_masker::tray::{tray_action_for, tray_menu_model, ClipboardMaskProblem, ProfileMenuItem, TrayAction};

fn summary(name: &str, is_active: bool) -> ProfileSummary {
    ProfileSummary {
        id: 0,
        name: name.to_string(),
        rule_count: 0,
        enabled_rule_count: 0,
        is_favorite: false,
        is_active,
        updated_at: String::new(),
        tags: Vec::new(),
    }
}

#[test]
fn the_menu_lists_each_profile_and_ticks_the_active_one() {
    let profiles = vec![summary("home", false), summary("work", true)];
    let menu = tray_menu_model(Some(&profiles), true);
    assert_eq!(
        menu.profile_items,
        vec![
            ProfileMenuItem { id: "profile:home".to_string(), label: "home".to_string(), checked: false },
            ProfileMenuItem { id: "profile:work".to_string(), label: "work".to_string(), checked: true },
        ]
    );
    assert!(menu.profile_submenu_enabled);
    assert!(menu.mask_clipboard_enabled);
    assert!(menu.autostart_checked);
}

#[test]
fn without_an_active_profile_the_clipboard_cannot_be_masked() {
    let profiles = vec![summary("home", false)];
    let menu = tray_menu_model(Some(&profiles), false);
    assert!(menu.profile_submenu_enabled);
    assert!(!menu.mask_clipboard_enabled);
    assert!(!menu.autostart_checked);
}

#[test]
fn an_unreadable_store_shows_as_no_profile() {
    let menu = tray_menu_model(None, false);
    assert!(menu.profile_items.is_empty());
    assert!(!menu.profile_submenu_enabled);
    assert!(!menu.mask_clipboard_enabled);
    let empty: Vec<ProfileSummary> = Vec::new();
    assert_eq!(tray_menu_model(Some(&empty), false), menu);
}

#[test]
fn menu_item_ids_map_to_their_actions() {
    assert_eq!(tray_action_for("profile:work"), TrayAction::SwitchProfile("work".to_string()));
    assert_eq!(tray_action_for("profile:"), TrayAction::SwitchProfile(String::new()));
    assert_eq!(tray_action_for("open"), TrayAction::OpenMainWindow);
    assert_eq!(tray_action_for("quit"), TrayAction::Quit);
    assert_eq!(tray_action_for("mask_clipboard"), TrayAction::MaskClipboard);
    assert_eq!(tray_action_for("toggle_autostart"), TrayAction::ToggleAutostart);
    assert_eq!(tray_action_for("profile"), TrayAction::Nothing);
    assert_eq!(tray_action_for("Quit"), TrayAction::Nothing);
}

#[test]
fn a_profile_item_round_trips_to_its_name() {
    let profiles = vec![summary("客先A", true)];
    let menu = tray_menu_model(Some(&profiles), false);
    assert_eq!(tray_action_for(&menu.profile_items[0].id), TrayAction::SwitchProfile("客先A".to_string()));
}

#[test]
fn clipboard_problems_have_their_messages() {
    assert_eq!(ClipboardMaskProblem::NoActiveProfile.message(), "アクティブなプロファイルが設定されていません");
    assert_eq!(ClipboardMaskProblem::ProfileUnreadable.message(), "プロファイルを読み込めませんでした");
    assert_eq!(ClipboardMaskProblem::ClipboardUnreadable.message(), "クリップボードからテキストを読み取れませんでした");
    assert_eq!(ClipboardMaskProblem::ClipboardUnwritable.message(), "マスク結果をクリップボードへ書き込めませんでした");
}
