//! The tray menu of the desktop application: what it shows for a list of profiles, and what a
//! click on one of its items asks for.

use vstd::prelude::*;
use crate::gui::ProfileSummary;
use crate::text::{chars_of, push_str_chars, str_equal, string_from_chars, string_from_char_range};

verus! {

/// One profile in the switching submenu: its item id (`profile:` and the name), its label and
/// whether it is ticked.
#[derive(Debug, PartialEq, Eq)]
pub struct ProfileMenuItem {
    pub id: String,
    pub label: String,
    pub checked: bool,
}

/// The content of the tray menu.
#[derive(Debug, PartialEq, Eq)]
pub struct TrayMenuModel {
    pub profile_items: Vec<ProfileMenuItem>,
    /// The switching submenu is disabled while there is no profile.
    pub profile_submenu_enabled: bool,
    /// Masking the clipboard needs an active profile.
    pub mask_clipboard_enabled: bool,
    pub autostart_checked: bool,
}

pub open spec fn profile_item_id(name: Seq<char>) -> Seq<char> {
    "profile:"@ + name
}

/// The menu for the profiles of the store (`None` while the store cannot be read, which shows
/// as no profile) and the autostart setting.
pub fn tray_menu_model(profiles: Option<&[ProfileSummary]>, autostart_enabled: bool) -> (r: TrayMenuModel)
    ensures
        r.autostart_checked == autostart_enabled,
        match profiles {
            None => r.profile_items@.len() == 0 && !r.profile_submenu_enabled && !r.mask_clipboard_enabled,
            Some(ps) => {
                &&& r.profile_items@.len() == ps@.len()
                &&& r.profile_submenu_enabled == (ps@.len() > 0)
                &&& r.mask_clipboard_enabled == exists|i: int| 0 <= i < ps@.len() && (#[trigger] ps@[i]).is_active
                &&& forall|i: int|
                    0 <= i < ps@.len() ==> (#[trigger] r.profile_items@[i]).id@ == profile_item_id(ps@[i].name@)
                        && r.profile_items@[i].label@ == ps@[i].name@ && r.profile_items@[i].checked
                        == ps@[i].is_active
            },
        },
{
    match profiles {
        None => TrayMenuModel {
            profile_items: Vec::new(),
            profile_submenu_enabled: false,
            mask_clipboard_enabled: false,
            autostart_checked: autostart_enabled,
        },
        Some(ps) => {
            let mut items: Vec<ProfileMenuItem> = Vec::new();
            let mut has_active = false;
            let mut i: usize = 0;
            while i < ps.len()
                invariant
                    i <= ps@.len(),
                    items@.len() == i,
                    has_active == exists|k: int| 0 <= k < i && (#[trigger] ps@[k]).is_active,
                    forall|k: int|
                        0 <= k < i ==> (#[trigger] items@[k]).id@ == profile_item_id(ps@[k].name@)
                            && items@[k].label@ == ps@[k].name@ && items@[k].checked == ps@[k].is_active,
                decreases ps@.len() - i,
            {
                let p = &ps[i];
                let mut id: Vec<char> = Vec::new();
                push_str_chars(&mut id, "profile:");
                push_str_chars(&mut id, p.name.as_str());
                items.push(ProfileMenuItem { id: string_from_chars(id.as_slice()), label: p.name.clone(), checked: p.is_active });
                if p.is_active {
                    has_active = true;
                }
                proof {
                    if !has_active {
                        assert forall|k: int| 0 <= k < i + 1 implies !(#[trigger] ps@[k]).is_active by {}
                    }
                }
                i += 1;
            }
            TrayMenuModel {
                profile_items: items,
                profile_submenu_enabled: ps.len() > 0,
                mask_clipboard_enabled: has_active,
                autostart_checked: autostart_enabled,
            }
        },
    }
}

/// What a click on a tray menu item asks for.
#[derive(Debug, PartialEq, Eq)]
pub enum TrayAction {
    SwitchProfile(String),
    OpenMainWindow,
    Quit,
    MaskClipboard,
    ToggleAutostart,
    Nothing,
}

pub open spec fn tray_action_spec(id: Seq<char>) -> (int, Seq<char>) {
    if id.len() >= 8 && id.take(8) == "profile:"@ {
        (0, id.skip(8))
    } else if id == "open"@ {
        (1, Seq::empty())
    } else if id == "quit"@ {
        (2, Seq::empty())
    } else if id == "mask_clipboard"@ {
        (3, Seq::empty())
    } else if id == "toggle_autostart"@ {
        (4, Seq::empty())
    } else {
        (5, Seq::empty())
    }
}

pub open spec fn action_is(a: TrayAction, kind: int, name: Seq<char>) -> bool {
    match a {
        TrayAction::SwitchProfile(n) => kind == 0 && n@ == name,
        TrayAction::OpenMainWindow => kind == 1,
        TrayAction::Quit => kind == 2,
        TrayAction::MaskClipboard => kind == 3,
        TrayAction::ToggleAutostart => kind == 4,
        TrayAction::Nothing => kind == 5,
    }
}

/// The action of the item with id `id`: a profile item switches to the profile it names.
pub fn tray_action_for(id: &str) -> (r: TrayAction)
    ensures
        action_is(r, tray_action_spec(id@).0, tray_action_spec(id@).1),
{
    let chars = chars_of(id);
    let prefix = chars_of("profile:");
    proof {
        reveal_strlit("profile:");
    }
    let mut is_profile = chars.len() >= 8;
    let mut i: usize = 0;
    while is_profile && i < 8
        invariant
            prefix@ == "profile:"@,
            prefix@.len() == 8,
            chars@ == id@,
            i <= 8,
            is_profile ==> chars@.len() >= 8 && forall|k: int| 0 <= k < i ==> chars@[k] == prefix@[k],
            !is_profile ==> !(chars@.len() >= 8 && chars@.take(8) == "profile:"@),
        decreases 8 - i + (if is_profile { 1int } else { 0int }),
    {
        if chars[i] != prefix[i] {
            proof {
                if chars@.len() >= 8 && chars@.take(8) == "profile:"@ {
                    assert(chars@.take(8)[i as int] == chars@[i as int]);
                }
            }
            is_profile = false;
        } else {
            i += 1;
        }
    }
    if is_profile {
        assert(chars@.take(8) =~= "profile:"@);
        let name = string_from_char_range(chars.as_slice(), 8, chars.len());
        assert(chars@.subrange(8, chars@.len() as int) =~= id@.skip(8));
        return TrayAction::SwitchProfile(name);
    }
    if str_equal(id, "open") {
        TrayAction::OpenMainWindow
    } else if str_equal(id, "quit") {
        TrayAction::Quit
    } else if str_equal(id, "mask_clipboard") {
        TrayAction::MaskClipboard
    } else if str_equal(id, "toggle_autostart") {
        TrayAction::ToggleAutostart
    } else {
        TrayAction::Nothing
    }
}

/// What masking the clipboard from the tray reports when it cannot run.
pub enum ClipboardMaskProblem {
    NoActiveProfile,
    ProfileUnreadable,
    ClipboardUnreadable,
    ClipboardUnwritable,
}

pub open spec fn clipboard_mask_problem_message(p: ClipboardMaskProblem) -> Seq<char> {
    match p {
        ClipboardMaskProblem::NoActiveProfile => "アクティブなプロファイルが設定されていません"@,
        ClipboardMaskProblem::ProfileUnreadable => "プロファイルを読み込めませんでした"@,
        ClipboardMaskProblem::ClipboardUnreadable => "クリップボードからテキストを読み取れませんでした"@,
        ClipboardMaskProblem::ClipboardUnwritable => "マスク結果をクリップボードへ書き込めませんでした"@,
    }
}

impl ClipboardMaskProblem {
    /// The notification shown for this problem.
    pub fn message(&self) -> (r: String)
        ensures
            r@ == clipboard_mask_problem_message(*self),
    {
        match self {
            ClipboardMaskProblem::NoActiveProfile => "アクティブなプロファイルが設定されていません".to_owned(),
            ClipboardMaskProblem::ProfileUnreadable => "プロファイルを読み込めませんでした".to_owned(),
            ClipboardMaskProblem::ClipboardUnreadable => "クリップボードからテキストを読み取れませんでした".to_owned(),
            ClipboardMaskProblem::ClipboardUnwritable => "マスク結果をクリップボードへ書き込めませんでした".to_owned(),
        }
    }
}

} // verus!
