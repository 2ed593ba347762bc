//! The settings that the switcher reads.
use crate::mru::{contains, decides_eq};
use crate::text::{copy_texts, lemma_occurs_text, lemma_same_text_decides, same_text, texts};
use vstd::prelude::*;

verus! {

pub const SWITCH_WINDOWS_HOTKEY_ID: u32 = 1;

pub const SWITCH_APPS_HOTKEY_ID: u32 = 2;

/// A key that acts while one of its modifier keys is held down.
#[derive(Debug)]
pub struct Hotkey {
    pub id: u32,
    /// Scan codes of the modifier's keys.
    pub modifier: Vec<u32>,
    /// Scan code of the key.
    pub code: u32,
}

/// What a `Hotkey` says.
pub struct HotkeyModel {
    pub id: u32,
    pub modifier: Seq<u32>,
    pub code: u32,
}

impl View for Hotkey {
    type V = HotkeyModel;

    open spec fn view(&self) -> HotkeyModel {
        HotkeyModel { id: self.id, modifier: self.modifier@, code: self.code }
    }
}

/// The hotkeys of a list.
pub open spec fn hotkey_models(hotkeys: Seq<Hotkey>) -> Seq<HotkeyModel> {
    hotkeys.map_values(|h: Hotkey| h@)
}

impl Clone for Hotkey {
    fn clone(&self) -> (copy: Self)
        ensures
            copy@ == self@,
            copy.id == self.id,
            copy.modifier@ == self.modifier@,
            copy.code == self.code,
    {
        let modifier = self.modifier.clone();
        assert(modifier@ =~= self.modifier@);
        Hotkey { id: self.id, modifier, code: self.code }
    }
}

/// Icons that replace those of certain apps: the app's executable and the icon file.
#[derive(Debug)]
pub struct IconOverride {
    pub app: String,
    pub icon: String,
}

/// The overrides of a list, in order: app and icon file.
pub open spec fn override_models(overrides: Seq<IconOverride>) -> Seq<(Seq<char>, Seq<char>)> {
    overrides.map_values(|o: IconOverride| (o.app@, o.icon@))
}

/// The overrides of a list, as a set.
pub open spec fn override_set(overrides: Seq<IconOverride>) -> Set<(Seq<char>, Seq<char>)> {
    override_models(overrides).to_set()
}

/// The settings.
#[derive(Debug)]
pub struct Config {
    /// Whether to show a tray icon.
    pub trayicon: bool,
    pub hotkeys: Vec<Hotkey>,
    /// Executables of the apps whose windows are not switched.
    pub switch_windows_blacklist: Vec<String>,
    /// Whether minimized windows are left out when switching windows.
    pub switch_windows_ignore_minimal: bool,
    pub switch_windows_only_current_desktop: bool,
    /// Whether minimized windows are left out when switching apps.
    pub switch_apps_ignore_minimal: bool,
    pub switch_apps_only_current_desktop: bool,
    /// Whether a screen reader is told where the selection is.
    pub switch_apps_announce: bool,
    /// Whether the overlay takes the focus and presents itself as a list, and
    /// windows are activated on commit only.
    pub switch_apps_accessible_list: bool,
    pub switch_apps_override_icons: Vec<IconOverride>,
}

/// What a `Config` says.
pub struct ConfigModel {
    pub trayicon: bool,
    pub hotkeys: Seq<HotkeyModel>,
    pub switch_windows_blacklist: Set<Seq<char>>,
    pub switch_windows_ignore_minimal: bool,
    pub switch_windows_only_current_desktop: bool,
    pub switch_apps_ignore_minimal: bool,
    pub switch_apps_only_current_desktop: bool,
    pub switch_apps_announce: bool,
    pub switch_apps_accessible_list: bool,
    pub switch_apps_override_icons: Seq<(Seq<char>, Seq<char>)>,
}

/// Two configurations say the same. The order in which the icon overrides are listed
/// does not matter.
pub open spec fn same_settings(a: ConfigModel, b: ConfigModel) -> bool {
    &&& a.switch_apps_override_icons.to_set() == b.switch_apps_override_icons.to_set()
    &&& a == (ConfigModel { switch_apps_override_icons: a.switch_apps_override_icons, ..b })
}

impl View for Config {
    type V = ConfigModel;

    open spec fn view(&self) -> ConfigModel {
        ConfigModel {
            trayicon: self.trayicon,
            hotkeys: hotkey_models(self.hotkeys@),
            switch_windows_blacklist: texts(self.switch_windows_blacklist@).to_set(),
            switch_windows_ignore_minimal: self.switch_windows_ignore_minimal,
            switch_windows_only_current_desktop: self.switch_windows_only_current_desktop,
            switch_apps_ignore_minimal: self.switch_apps_ignore_minimal,
            switch_apps_only_current_desktop: self.switch_apps_only_current_desktop,
            switch_apps_announce: self.switch_apps_announce,
            switch_apps_accessible_list: self.switch_apps_accessible_list,
            switch_apps_override_icons: override_models(self.switch_apps_override_icons@),
        }
    }
}

fn copy_hotkeys(hotkeys: &Vec<Hotkey>) -> (copy: Vec<Hotkey>)
    ensures
        hotkey_models(copy@) == hotkey_models(hotkeys@),
        copy@.len() == hotkeys@.len(),
        forall|i: int|
            0 <= i < hotkeys@.len() ==> {
                &&& (#[trigger] copy@[i]).id == hotkeys@[i].id
                &&& copy@[i].modifier@ == hotkeys@[i].modifier@
                &&& copy@[i].code == hotkeys@[i].code
            },
{
    let mut copy: Vec<Hotkey> = Vec::new();
    let mut i: usize = 0;
    while i < hotkeys.len()
        invariant
            i <= hotkeys@.len(),
            copy@.len() == i,
            forall|j: int| 0 <= j < i ==> (#[trigger] copy@[j])@ == hotkeys@[j]@,
            forall|j: int|
                0 <= j < i ==> {
                    &&& (#[trigger] copy@[j]).id == hotkeys@[j].id
                    &&& copy@[j].modifier@ == hotkeys@[j].modifier@
                    &&& copy@[j].code == hotkeys@[j].code
                },
        decreases hotkeys@.len() - i,
    {
        copy.push(hotkeys[i].clone());
        i += 1;
    }
    assert(hotkey_models(copy@) =~= hotkey_models(hotkeys@));
    copy
}

fn copy_overrides(overrides: &Vec<IconOverride>) -> (copy: Vec<IconOverride>)
    ensures
        override_models(copy@) == override_models(overrides@),
        copy@.len() == overrides@.len(),
        forall|i: int|
            0 <= i < overrides@.len() ==> (#[trigger] copy@[i]).app@ == overrides@[i].app@
                && copy@[i].icon@ == overrides@[i].icon@,
{
    let ghost pair = |o: IconOverride| (o.app@, o.icon@);
    let mut copy: Vec<IconOverride> = Vec::new();
    let mut i: usize = 0;
    while i < overrides.len()
        invariant
            i <= overrides@.len(),
            pair == (|o: IconOverride| (o.app@, o.icon@)),
            copy@.len() == i,
            forall|j: int| 0 <= j < i ==> pair(#[trigger] copy@[j]) == pair(overrides@[j]),
            forall|j: int|
                0 <= j < i ==> (#[trigger] copy@[j]).app@ == overrides@[j].app@ && copy@[j].icon@
                    == overrides@[j].icon@,
        decreases overrides@.len() - i,
    {
        let o = &overrides[i];
        copy.push(IconOverride { app: o.app.clone(), icon: o.icon.clone() });
        i += 1;
    }
    assert(override_models(copy@) =~= override_models(overrides@));
    copy
}

fn same_codes(a: &Vec<u32>, b: &Vec<u32>) -> (same: bool)
    ensures
        same == (a@ == b@),
{
    if a.len() != b.len() {
        return false;
    }
    let mut i: usize = 0;
    while i < a.len()
        invariant
            i <= a@.len(),
            a@.len() == b@.len(),
            forall|j: int| 0 <= j < i ==> a@[j] == b@[j],
        decreases a@.len() - i,
    {
        if a[i] != b[i] {
            return false;
        }
        i += 1;
    }
    assert(a@ =~= b@);
    true
}

fn same_hotkeys(a: &Vec<Hotkey>, b: &Vec<Hotkey>) -> (same: bool)
    ensures
        same == (hotkey_models(a@) == hotkey_models(b@)),
{
    let ghost left = hotkey_models(a@);
    let ghost right = hotkey_models(b@);
    if a.len() != b.len() {
        assert(left.len() != right.len());
        return false;
    }
    let mut i: usize = 0;
    while i < a.len()
        invariant
            i <= a@.len(),
            a@.len() == b@.len(),
            left == hotkey_models(a@),
            right == hotkey_models(b@),
            forall|j: int| 0 <= j < i ==> left[j] == right[j],
        decreases a@.len() - i,
    {
        assert(left[i as int] == a@[i as int]@ && right[i as int] == b@[i as int]@);
        if a[i].id != b[i].id || a[i].code != b[i].code || !same_codes(
            &a[i].modifier,
            &b[i].modifier,
        ) {
            return false;
        }
        i += 1;
    }
    assert(left =~= right);
    true
}

fn includes_texts(a: &Vec<String>, b: &Vec<String>) -> (all: bool)
    ensures
        all == texts(b@).to_set().subset_of(texts(a@).to_set()),
{
    let ghost have = texts(a@);
    let ghost want = texts(b@);
    proof {
        lemma_same_text_decides();
    }
    let mut i: usize = 0;
    while i < b.len()
        invariant
            i <= b@.len(),
            have == texts(a@),
            want == texts(b@),
            decides_eq(same_text()),
            forall|j: int| 0 <= j < i ==> have.contains(#[trigger] want[j]),
        decreases b@.len() - i,
    {
        let found = contains(a.as_slice(), &b[i]);
        proof {
            lemma_occurs_text(a@, b@[i as int]);
            assert(want[i as int] == b@[i as int]@);
        }
        if !found {
            assert(want.to_set().contains(want[i as int]));
            assert(!have.to_set().contains(want[i as int]));
            return false;
        }
        i += 1;
    }
    assert forall|t: Seq<char>| want.to_set().contains(t) implies have.to_set().contains(t) by {
        let j = choose|j: int| 0 <= j < want.len() && want[j] == t;
        assert(have.contains(want[j]));
    }
    true
}

fn includes_overrides(a: &Vec<IconOverride>, b: &Vec<IconOverride>) -> (all: bool)
    ensures
        all == override_set(b@).subset_of(override_set(a@)),
{
    let ghost have = a@.map_values(|o: IconOverride| (o.app@, o.icon@));
    let ghost want = b@.map_values(|o: IconOverride| (o.app@, o.icon@));
    let mut i: usize = 0;
    while i < b.len()
        invariant
            i <= b@.len(),
            have == a@.map_values(|o: IconOverride| (o.app@, o.icon@)),
            want == b@.map_values(|o: IconOverride| (o.app@, o.icon@)),
            forall|j: int| 0 <= j < i ==> have.contains(#[trigger] want[j]),
        decreases b@.len() - i,
    {
        let mut found = false;
        let mut k: usize = 0;
        while k < a.len()
            invariant
                i < b@.len(),
                k <= a@.len(),
                have == a@.map_values(|o: IconOverride| (o.app@, o.icon@)),
                want == b@.map_values(|o: IconOverride| (o.app@, o.icon@)),
                found == exists|j: int| 0 <= j < k && #[trigger] have[j] == want[i as int],
            decreases a@.len() - k,
        {
            if a[k].app == b[i].app && a[k].icon == b[i].icon {
                found = true;
                assert(have[k as int] == want[i as int]);
            }
            k += 1;
        }
        if !found {
            assert(want.to_set().contains(want[i as int]));
            assert(!have.to_set().contains(want[i as int]));
            return false;
        }
        i += 1;
    }
    assert forall|p: (Seq<char>, Seq<char>)|
        want.to_set().contains(p) implies have.to_set().contains(p) by {
        let j = choose|j: int| 0 <= j < want.len() && want[j] == p;
        assert(have.contains(want[j]));
    }
    true
}

impl Clone for Config {
    fn clone(&self) -> (copy: Self)
        ensures
            copy@ == self@,
            texts(copy.switch_windows_blacklist@) == texts(self.switch_windows_blacklist@),
            copy.trayicon == self.trayicon,
            copy.hotkeys@.len() == self.hotkeys@.len(),
            forall|i: int|
                0 <= i < self.hotkeys@.len() ==> {
                    &&& (#[trigger] copy.hotkeys@[i]).id == self.hotkeys@[i].id
                    &&& copy.hotkeys@[i].modifier@ == self.hotkeys@[i].modifier@
                    &&& copy.hotkeys@[i].code == self.hotkeys@[i].code
                },
            copy.switch_windows_ignore_minimal == self.switch_windows_ignore_minimal,
            copy.switch_windows_only_current_desktop == self.switch_windows_only_current_desktop,
            copy.switch_apps_ignore_minimal == self.switch_apps_ignore_minimal,
            copy.switch_apps_only_current_desktop == self.switch_apps_only_current_desktop,
            copy.switch_apps_announce == self.switch_apps_announce,
            copy.switch_apps_accessible_list == self.switch_apps_accessible_list,
            copy.switch_apps_override_icons@.len() == self.switch_apps_override_icons@.len(),
            forall|i: int|
                0 <= i < self.switch_apps_override_icons@.len() ==> {
                    &&& (#[trigger] copy.switch_apps_override_icons@[i]).app@
                        == self.switch_apps_override_icons@[i].app@
                    &&& copy.switch_apps_override_icons@[i].icon@
                        == self.switch_apps_override_icons@[i].icon@
                },
    {
        Config {
            trayicon: self.trayicon,
            hotkeys: copy_hotkeys(&self.hotkeys),
            switch_windows_blacklist: copy_texts(&self.switch_windows_blacklist),
            switch_windows_ignore_minimal: self.switch_windows_ignore_minimal,
            switch_windows_only_current_desktop: self.switch_windows_only_current_desktop,
            switch_apps_ignore_minimal: self.switch_apps_ignore_minimal,
            switch_apps_only_current_desktop: self.switch_apps_only_current_desktop,
            switch_apps_announce: self.switch_apps_announce,
            switch_apps_accessible_list: self.switch_apps_accessible_list,
            switch_apps_override_icons: copy_overrides(&self.switch_apps_override_icons),
        }
    }
}

impl Config {
    /// Whether two configurations say the same. The blacklist and the icon
    /// overrides are sets, so the order in which they are listed does not matter.
    pub fn same_as(&self, other: &Config) -> (same: bool)
        ensures
            same == same_settings(self@, other@),
    {
        let lists = includes_texts(&self.switch_windows_blacklist, &other.switch_windows_blacklist)
            && includes_texts(&other.switch_windows_blacklist, &self.switch_windows_blacklist)
            && includes_overrides(
            &self.switch_apps_override_icons,
            &other.switch_apps_override_icons,
        ) && includes_overrides(
            &other.switch_apps_override_icons,
            &self.switch_apps_override_icons,
        );
        proof {
            if lists {
                assert(self@.switch_windows_blacklist =~= other@.switch_windows_blacklist);
                assert(override_set(self.switch_apps_override_icons@) =~= override_set(
                    other.switch_apps_override_icons@,
                ));
            }
        }
        lists && self.trayicon == other.trayicon && same_hotkeys(&self.hotkeys, &other.hotkeys)
            && self.switch_windows_ignore_minimal == other.switch_windows_ignore_minimal
            && self.switch_windows_only_current_desktop
            == other.switch_windows_only_current_desktop && self.switch_apps_ignore_minimal
            == other.switch_apps_ignore_minimal && self.switch_apps_only_current_desktop
            == other.switch_apps_only_current_desktop && self.switch_apps_announce
            == other.switch_apps_announce && self.switch_apps_accessible_list
            == other.switch_apps_accessible_list
    }
}

/// The models of a configuration's lists say, one by one and in order, what the lists
/// hold.
pub proof fn lists_are_modelled_one_by_one(
    hotkeys: Seq<Hotkey>,
    overrides: Seq<IconOverride>,
    i: int,
)
    ensures
        hotkey_models(hotkeys).len() == hotkeys.len(),
        0 <= i < hotkeys.len() ==> hotkey_models(hotkeys)[i] == (HotkeyModel {
            id: hotkeys[i].id,
            modifier: hotkeys[i].modifier@,
            code: hotkeys[i].code,
        }),
        override_models(overrides).len() == overrides.len(),
        0 <= i < overrides.len() ==> override_models(overrides)[i] == (
            overrides[i].app@,
            overrides[i].icon@,
        ),
{
}

} // verus!
