//! Settings that depend on where the editor runs: keymaps, overrides by profile, release
//! channel and system, and the style of the user interface.

use vstd::prelude::*;
use vstd::string::*;

use crate::text::{decimal, decimal_digits, same};

verus! {

/// The keymap of a browser, which remaps what browsers keep for themselves.
pub const WEB_KEYMAP_PATH: &'static str = "keymaps/web.json";

/// The keymap of the vim mode.
pub const VIM_KEYMAP_PATH: &'static str = "keymaps/vim.json";

/// The system that a keymap is written for.
#[derive(Copy, Clone, Debug, PartialEq, Eq, Structural)]
pub enum KeymapOs {
    Mac,
    Windows,
    Linux,
}

/// The keymap system that the name of an operating system stands for.
pub open spec fn keymap_os(os: Seq<char>) -> KeymapOs {
    if os == "macos"@ {
        KeymapOs::Mac
    } else if os == "windows"@ {
        KeymapOs::Windows
    } else {
        KeymapOs::Linux
    }
}

impl KeymapOs {
    /// The keymap system of an operating system, by its name.
    pub fn current(os: &str) -> (r: KeymapOs)
        ensures
            r == keymap_os(os@),
    {
        if same(os, "macos") {
            KeymapOs::Mac
        } else if same(os, "windows") {
            KeymapOs::Windows
        } else {
            KeymapOs::Linux
        }
    }
}

/// The default keymap of a system.
pub fn default_keymap_path_for(os: KeymapOs) -> (r: &'static str)
    ensures
        r@ == match os {
            KeymapOs::Mac => "keymaps/default-macos.json"@,
            KeymapOs::Windows => "keymaps/default-windows.json"@,
            KeymapOs::Linux => "keymaps/default-linux.json"@,
        },
{
    match os {
        KeymapOs::Mac => "keymaps/default-macos.json",
        KeymapOs::Windows => "keymaps/default-windows.json",
        KeymapOs::Linux => "keymaps/default-linux.json",
    }
}

/// The keymap of a system that wins over the others, but for the user's own.
pub fn specific_overrides_keymap_path_for(os: KeymapOs) -> (r: &'static str)
    ensures
        r@ == match os {
            KeymapOs::Mac => "keymaps/specific-overrides-macos.json"@,
            KeymapOs::Windows | KeymapOs::Linux => "keymaps/specific-overrides.json"@,
        },
{
    match os {
        KeymapOs::Mac => "keymaps/specific-overrides-macos.json",
        KeymapOs::Windows | KeymapOs::Linux => "keymaps/specific-overrides.json",
    }
}

/// The number of an open directory.
#[derive(Copy, Clone, PartialEq, Eq, Debug, Hash, PartialOrd, Ord, Structural)]
pub struct WorktreeId(pub usize);

impl WorktreeId {
    /// The directory with this number.
    pub fn from_usize(handle_id: usize) -> (r: WorktreeId)
        ensures
            r.0 == handle_id,
    {
        WorktreeId(handle_id)
    }

    /// The directory with this number in a message; a number that is too large for the
    /// machine is cut.
    pub fn from_proto(id: u64) -> (r: WorktreeId)
        ensures
            r.0 == id as usize,
    {
        WorktreeId(
            #[verifier::truncate]
            (id as usize),
        )
    }

    /// The number of the directory in a message.
    pub fn to_proto(self) -> (r: u64)
        ensures
            r == self.0,
    {
        self.0 as u64
    }

    /// The number of the directory.
    pub fn to_usize(self) -> (r: usize)
        ensures
            r == self.0,
    {
        self.0
    }

    /// The number of the directory as a text.
    pub fn text(&self) -> (r: String)
        ensures
            r@ == decimal_digits(self.0 as nat),
    {
        decimal(self.0 as u64)
    }
}

/// A directory comes back from its number in a message.
pub proof fn law_worktree_ids_survive(id: WorktreeId)
    ensures
        (id.0 as u64) as usize == id.0,
{
}

/// Values by name; no name is there twice that matters, for the first is taken.
pub open spec fn named<V>(list: Seq<(String, V)>, name: Seq<char>) -> Option<V>
    decreases list.len(),
{
    if list.len() == 0 {
        None
    } else if list[0].0@ == name {
        Some(list[0].1)
    } else {
        named(list.skip(1), name)
    }
}

fn find_named<'a, V>(list: &'a Vec<(String, V)>, name: &str) -> (r: Option<&'a V>)
    ensures
        match r {
            Some(v) => named(list@, name@) == Some(*v),
            None => named(list@, name@) is None,
        },
{
    let mut i: usize = 0;
    proof {
        assert(list@.skip(0) =~= list@);
    }
    while i < list.len()
        invariant
            i <= list@.len(),
            named(list@.skip(i as int), name@) == named(list@, name@),
        decreases list@.len() - i,
    {
        proof {
            assert(list@.skip(i as int).skip(1) =~= list@.skip(i + 1));
        }
        if same(list[i].0.as_str(), name) {
            return Some(&list[i].1);
        }
        i = i + 1;
    }
    None
}

/// The settings of a user, with what overrides them.
pub struct UserSettingsContent<P, S> {
    pub profiles: Vec<(String, P)>,
    pub release_channel_overrides: Vec<(String, S)>,
    pub platform_overrides: Vec<(String, S)>,
}

impl<P, S> UserSettingsContent<P, S> {
    /// The profile that is active, where one is and the user has it.
    pub fn for_profile(&self, active: Option<&str>) -> (r: Option<&P>)
        ensures
            match r {
                Some(p) => active is Some && named(self.profiles@, active->0@) == Some(*p),
                None => active is None || named(self.profiles@, active->0@) is None,
            },
    {
        match active {
            Some(name) => find_named(&self.profiles, name),
            None => None,
        }
    }

    /// What overrides the settings on a release channel.
    pub fn for_release_channel(&self, channel: &str) -> (r: Option<&S>)
        ensures
            match r {
                Some(s) => named(self.release_channel_overrides@, channel@) == Some(*s),
                None => named(self.release_channel_overrides@, channel@) is None,
            },
    {
        find_named(&self.release_channel_overrides, channel)
    }

    /// What overrides the settings on a system.
    pub fn for_os(&self, os: &str) -> (r: Option<&S>)
        ensures
            match r {
                Some(s) => named(self.platform_overrides@, os@) == Some(*s),
                None => named(self.platform_overrides@, os@) is None,
            },
    {
        find_named(&self.platform_overrides, os)
    }
}

/// The style of the user interface.
#[derive(Debug, PartialEq, Eq, PartialOrd, Ord, Hash, Clone, Copy, Structural)]
pub enum PlatformStyle {
    Mac,
    Linux,
    Windows,
}

/// The style of an operating system, by its name.
pub open spec fn native_style(os: Seq<char>) -> PlatformStyle {
    if os == "linux"@ || os == "freebsd"@ {
        PlatformStyle::Linux
    } else if os == "windows"@ {
        PlatformStyle::Windows
    } else {
        PlatformStyle::Mac
    }
}

impl PlatformStyle {
    /// The style of an operating system, by its name.
    pub fn platform(os: &str) -> (r: PlatformStyle)
        ensures
            r == native_style(os@),
    {
        if same(os, "linux") || same(os, "freebsd") {
            PlatformStyle::Linux
        } else if same(os, "windows") {
            PlatformStyle::Windows
        } else {
            PlatformStyle::Mac
        }
    }

    /// The style of the machine that a browser runs on: the one that was set, and that of a
    /// Mac until then.
    pub fn browser_platform(set: &Option<PlatformStyle>) -> (r: PlatformStyle)
        ensures
            r == match *set {
                Some(style) => style,
                None => PlatformStyle::Mac,
            },
    {
        match set {
            Some(style) => *style,
            None => PlatformStyle::Mac,
        }
    }

    /// Sets the style of the machine that a browser runs on. Only the first time counts.
    pub fn set_platform_style(set: &mut Option<PlatformStyle>, style: PlatformStyle)
        ensures
            *final(set) == match *old(set) {
                Some(first) => Some(first),
                None => Some(style),
            },
    {
        if set.is_none() {
            *set = Some(style);
        }
    }
}

/// What stands for the choice of an audio device, which a browser does not have.
#[derive(Debug)]
pub struct UnavailableSetting {
    pub id: &'static str,
    pub title: &'static str,
    pub description: &'static str,
    pub notice: &'static str,
}

/// What stands for a setting that a browser does not have.
pub fn render_unavailable(id: &'static str, title: &'static str, description: &'static str) -> (r:
    UnavailableSetting)
    ensures
        r.id@ == id@,
        r.title@ == title@,
        r.description@ == description@,
        r.notice@ == "Audio devices are not available in the browser"@,
{
    UnavailableSetting {
        id,
        title,
        description,
        notice: "Audio devices are not available in the browser",
    }
}

/// What stands for the choice of a microphone.
pub fn render_input_audio_device_dropdown(title: &'static str, description: &'static str) -> (r:
    UnavailableSetting)
    ensures
        r.id@ == "audio-input-device-web"@,
        r.title@ == title@,
        r.description@ == description@,
        r.notice@ == "Audio devices are not available in the browser"@,
{
    render_unavailable("audio-input-device-web", title, description)
}

/// What stands for the choice of a loudspeaker.
pub fn render_output_audio_device_dropdown(title: &'static str, description: &'static str) -> (r:
    UnavailableSetting)
    ensures
        r.id@ == "audio-output-device-web"@,
        r.title@ == title@,
        r.description@ == description@,
        r.notice@ == "Audio devices are not available in the browser"@,
{
    render_unavailable("audio-output-device-web", title, description)
}

/// The first entry with a name counts, and a name that is not there has none.
pub proof fn law_names_are_looked_up<V>(list: Seq<(String, V)>, name: Seq<char>, k: int)
    requires
        0 <= k <= list.len(),
        forall|i: int| 0 <= i < k ==> (#[trigger] list[i]).0@ != name,
        k < list.len() ==> list[k].0@ == name,
    ensures
        k < list.len() ==> named(list, name) == Some(list[k].1),
        k == list.len() ==> named(list, name) is None,
    decreases k,
{
    if k > 0 {
        assert(list[0].0@ != name);
        let rest = list.skip(1);
        assert forall|i: int| 0 <= i < k - 1 implies (#[trigger] rest[i]).0@ != name by {
            assert(list[i + 1].0@ != name);
        }
        law_names_are_looked_up(rest, name, k - 1);
    }
}

/// Each system has its own keys and its own look: what is not known has the keys of Linux and
/// the look of a Mac.
pub proof fn law_systems_are_told_apart(os: Seq<char>)
    ensures
        keymap_os(os) == KeymapOs::Mac <==> os == "macos"@,
        keymap_os(os) == KeymapOs::Windows <==> os == "windows"@,
        native_style(os) == PlatformStyle::Linux <==> os == "linux"@ || os == "freebsd"@,
        native_style(os) == PlatformStyle::Windows <==> os == "windows"@,
{
    reveal_strlit("macos");
    reveal_strlit("windows");
    reveal_strlit("linux");
    reveal_strlit("freebsd");
    assert("macos"@[0] == 'm' && "windows"@[0] == 'w' && "linux"@[0] == 'l' && "freebsd"@[0] == 'f');
}

} // verus!
