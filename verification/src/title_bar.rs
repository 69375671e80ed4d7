//! The title bar of a browser: who is there, the controls of a call, and updates.

use vstd::prelude::*;
use vstd::string::*;

use crate::text::{concat2, concat3, decimal, decimal_digits, join, joined, opt_text, same, texts};

verus! {

/// How many people are shown before the rest is counted.
pub const MAX_SHOWN: usize = 5;

/// The state of a call.
#[derive(Debug)]
pub struct WebCallStatus {
    pub phase: String,
    pub muted: bool,
    pub deafened: bool,
    pub sharing_screen: bool,
    pub screen_supported: bool,
    pub peers: usize,
    pub error: Option<String>,
}

impl Default for WebCallStatus {
    fn default() -> (r: WebCallStatus)
        ensures
            r.phase@ == Seq::<char>::empty(),
            !r.muted,
            !r.deafened,
            !r.sharing_screen,
            !r.screen_supported,
            r.peers == 0,
            r.error is None,
    {
        WebCallStatus {
            phase: String::new(),
            muted: false,
            deafened: false,
            sharing_screen: false,
            screen_supported: false,
            peers: 0,
            error: None,
        }
    }
}

/// A call, and the way to the host that handles it.
pub struct WebCall<A> {
    pub status: WebCallStatus,
    pub action: A,
}

/// A call that has not begun.
pub fn init_web_calls<A>(action: A) -> (r: WebCall<A>)
    ensures
        r.action == action,
        r.status.phase@ == Seq::<char>::empty(),
        !r.status.muted,
        !r.status.deafened,
        !r.status.sharing_screen,
        !r.status.screen_supported,
        r.status.peers == 0,
        r.status.error is None,
{
    WebCall { status: WebCallStatus::default(), action }
}

/// Takes in the state of a call.
pub fn set_web_call_status<A>(call: &mut WebCall<A>, status: WebCallStatus)
    ensures
        *final(call) == (WebCall { status, ..*old(call) }),
{
    call.status = status;
}

/// The icon of a button.
#[derive(Debug, Clone, Copy, PartialEq, Eq, Structural)]
pub enum CallIcon {
    OnCall,
    Mic,
    MicMute,
    AudioOn,
    AudioOff,
    Screen,
    Exit,
}

/// How a button looks.
#[derive(Debug, Clone, Copy, PartialEq, Eq, Structural)]
pub enum ButtonLook {
    Plain,
    /// Nothing happens on a click.
    Disabled,
    /// It is on, and that is a warning.
    Warning,
    /// It is on, and that is good to know.
    Accent,
}

/// A button of a call.
#[derive(Debug)]
pub struct CallButton {
    pub id: &'static str,
    pub icon: CallIcon,
    pub label: &'static str,
    /// What is shown when the pointer rests on it.
    pub tooltip: String,
    /// What the host is told on a click.
    pub command: &'static str,
    pub look: ButtonLook,
}

/// A button, on the level of specifications.
pub struct ButtonView {
    pub id: Seq<char>,
    pub icon: CallIcon,
    pub label: Seq<char>,
    pub tooltip: Seq<char>,
    pub command: Seq<char>,
    pub look: ButtonLook,
}

impl CallButton {
    pub open spec fn view(self) -> ButtonView {
        ButtonView {
            id: self.id@,
            icon: self.icon,
            label: self.label@,
            tooltip: self.tooltip@,
            command: self.command@,
            look: self.look,
        }
    }
}

/// Buttons, on the level of specifications.
pub open spec fn button_views(v: Seq<CallButton>) -> Seq<ButtonView> {
    v.map_values(|b: CallButton| b.view())
}

/// The button to join a call.
pub open spec fn join_button(joining: bool, error: Option<Seq<char>>) -> ButtonView {
    let label = if joining {
        "Joining Call\u{2026}"@
    } else {
        "Join Call"@
    };
    ButtonView {
        id: "join-call"@,
        icon: CallIcon::OnCall,
        label,
        tooltip: match error {
            Some(m) => m,
            None => label,
        },
        command: "join"@,
        look: if joining {
            ButtonLook::Disabled
        } else {
            ButtonLook::Plain
        },
    }
}

/// The button that shows who is in a call.
pub open spec fn participants_button(peers: usize, error: Option<Seq<char>>) -> ButtonView {
    ButtonView {
        id: "call-participants"@,
        icon: CallIcon::OnCall,
        label: "Call Participants"@,
        tooltip: match error {
            Some(m) => m,
            None => decimal_digits(peers as nat) + " in this call"@,
        },
        command: "show"@,
        look: ButtonLook::Plain,
    }
}

/// The button of the microphone.
pub open spec fn microphone_button(muted: bool) -> ButtonView {
    let label = if muted {
        "Unmute Microphone"@
    } else {
        "Mute Microphone"@
    };
    ButtonView {
        id: "mute-microphone"@,
        icon: if muted {
            CallIcon::MicMute
        } else {
            CallIcon::Mic
        },
        label,
        tooltip: label,
        command: "microphone"@,
        look: if muted {
            ButtonLook::Warning
        } else {
            ButtonLook::Plain
        },
    }
}

/// The button of the sound.
pub open spec fn sound_button(deafened: bool) -> ButtonView {
    let label = if deafened {
        "Unmute Audio"@
    } else {
        "Mute Audio"@
    };
    ButtonView {
        id: "mute-sound"@,
        icon: if deafened {
            CallIcon::AudioOff
        } else {
            CallIcon::AudioOn
        },
        label,
        tooltip: label,
        command: "audio"@,
        look: if deafened {
            ButtonLook::Warning
        } else {
            ButtonLook::Plain
        },
    }
}

/// The button that shares the screen.
pub open spec fn screen_button(sharing: bool) -> ButtonView {
    let label = if sharing {
        "Stop Sharing Screen"@
    } else {
        "Share Screen"@
    };
    ButtonView {
        id: "screen-share"@,
        icon: CallIcon::Screen,
        label,
        tooltip: label,
        command: "screen"@,
        look: if sharing {
            ButtonLook::Accent
        } else {
            ButtonLook::Plain
        },
    }
}

/// The button to leave a call.
pub open spec fn leave_button() -> ButtonView {
    ButtonView {
        id: "leave-call"@,
        icon: CallIcon::Exit,
        label: "Leave Call"@,
        tooltip: "Leave Call"@,
        command: "leave"@,
        look: ButtonLook::Plain,
    }
}

/// The controls of a call: the button to join it, or, in a call, those for who is there,
/// microphone, sound, screen where that can be shared, and to leave it.
pub open spec fn call_controls(s: WebCallStatus) -> Seq<ButtonView> {
    let error = opt_text(s.error);
    if s.phase@ != "joined"@ {
        seq![join_button(s.phase@ == "joining"@, error)]
    } else {
        let first = seq![
            participants_button(s.peers, error),
            microphone_button(s.muted),
            sound_button(s.deafened),
        ];
        if s.screen_supported {
            first.push(screen_button(s.sharing_screen)).push(leave_button())
        } else {
            first.push(leave_button())
        }
    }
}

fn button(
    id: &'static str,
    icon: CallIcon,
    label: &'static str,
    command: &'static str,
    look: ButtonLook,
) -> (r: CallButton)
    ensures
        r.view() == (ButtonView {
            id: id@,
            icon,
            label: label@,
            tooltip: label@,
            command: command@,
            look,
        }),
{
    CallButton { id, icon, label, tooltip: label.to_owned(), command, look }
}

/// The controls of a call.
pub fn render_call_controls(status: &WebCallStatus) -> (r: Vec<CallButton>)
    ensures
        button_views(r@) == call_controls(*status),
{
    let mut r: Vec<CallButton> = Vec::new();
    if !same(status.phase.as_str(), "joined") {
        let joining = same(status.phase.as_str(), "joining");
        let label = if joining {
            "Joining Call\u{2026}"
        } else {
            "Join Call"
        };
        let look = if joining {
            ButtonLook::Disabled
        } else {
            ButtonLook::Plain
        };
        let mut b = button("join-call", CallIcon::OnCall, label, "join", look);
        if let Some(message) = &status.error {
            b.tooltip = message.clone();
        }
        r.push(b);
        proof {
            assert(button_views(r@) =~= call_controls(*status));
        }
        return r;
    }
    let mut b = button(
        "call-participants",
        CallIcon::OnCall,
        "Call Participants",
        "show",
        ButtonLook::Plain,
    );
    b.tooltip = match &status.error {
        Some(message) => message.clone(),
        None => {
            let digits = decimal(status.peers as u64);
            concat2(digits.as_str(), " in this call")
        },
    };
    r.push(b);
    r.push(
        if status.muted {
            button(
                "mute-microphone",
                CallIcon::MicMute,
                "Unmute Microphone",
                "microphone",
                ButtonLook::Warning,
            )
        } else {
            button(
                "mute-microphone",
                CallIcon::Mic,
                "Mute Microphone",
                "microphone",
                ButtonLook::Plain,
            )
        },
    );
    r.push(
        if status.deafened {
            button(
                "mute-sound",
                CallIcon::AudioOff,
                "Unmute Audio",
                "audio",
                ButtonLook::Warning,
            )
        } else {
            button("mute-sound", CallIcon::AudioOn, "Mute Audio", "audio", ButtonLook::Plain)
        },
    );
    if status.screen_supported {
        r.push(
            if status.sharing_screen {
                button(
                    "screen-share",
                    CallIcon::Screen,
                    "Stop Sharing Screen",
                    "screen",
                    ButtonLook::Accent,
                )
            } else {
                button("screen-share", CallIcon::Screen, "Share Screen", "screen", ButtonLook::Plain)
            },
        );
    }
    r.push(button("leave-call", CallIcon::Exit, "Leave Call", "leave", ButtonLook::Plain));
    proof {
        assert(button_views(r@) =~= call_controls(*status));
    }
    r
}

/// Someone who is there.
#[derive(Debug)]
pub struct Collaborator {
    pub replica_id: u16,
    pub user_id: u64,
    /// The name that goes with the replica id.
    pub name: String,
}

/// One comes before the other: oneself first, then by replica id.
pub open spec fn comes_before(a: Collaborator, b: Collaborator, own: u16) -> bool {
    if (a.replica_id == own) != (b.replica_id == own) {
        a.replica_id == own
    } else {
        a.replica_id < b.replica_id
    }
}

/// Nobody stands behind someone they come before.
pub open spec fn in_order(v: Seq<Collaborator>, own: u16) -> bool {
    forall|i: int, j: int|
        0 <= i < j < v.len() ==> !comes_before(#[trigger] v[j], #[trigger] v[i], own)
}

fn precedes(a: &Collaborator, b: &Collaborator, own: u16) -> (r: bool)
    ensures
        r == comes_before(*a, *b, own),
{
    let a_own = a.replica_id == own;
    let b_own = b.replica_id == own;
    if a_own != b_own {
        a_own
    } else {
        a.replica_id < b.replica_id
    }
}

/// Puts people in the order in which they are shown: oneself first, then by replica id.
pub fn sort_participants(participants: Vec<Collaborator>, own: u16) -> (r: Vec<Collaborator>)
    ensures
        r@.to_multiset() == participants@.to_multiset(),
        in_order(r@, own),
{
    let ghost all = participants@;
    let mut rest = participants;
    let mut r: Vec<Collaborator> = Vec::new();
    proof {
        assert(all.to_multiset() =~= r@.to_multiset().add(rest@.to_multiset())) by {
            r@.to_multiset_ensures();
        }
    }
    while rest.len() > 0
        invariant
            in_order(r@, own),
            all.to_multiset() =~= r@.to_multiset().add(rest@.to_multiset()),
        decreases rest@.len(),
    {
        let ghost rest0 = rest@;
        let ghost r0 = r@;
        let next = rest.remove(0);
        let mut at: usize = 0;
        while at < r.len() && !precedes(&next, &r[at], own)
            invariant
                at <= r@.len(),
                r@ == r0,
                forall|k: int| 0 <= k < at ==> !comes_before(next, #[trigger] r0[k], own),
            decreases r@.len() - at,
        {
            at = at + 1;
        }
        r.insert(at, next);
        proof {
            assert(in_order(r@, own)) by {
                assert forall|i: int, j: int| 0 <= i < j < r@.len() implies !comes_before(
                    #[trigger] r@[j],
                    #[trigger] r@[i],
                    own,
                ) by {
                    let a = if i < at {
                        i
                    } else {
                        i - 1
                    };
                    let b = if j < at {
                        j
                    } else {
                        j - 1
                    };
                    if i == at {
                        assert(r@[j] == r0[b]);
                        if b > at {
                            assert(!comes_before(r0[b], r0[at as int], own));
                        }
                    } else if j == at {
                        assert(r@[i] == r0[a]);
                    } else {
                        assert(r@[i] == r0[a] && r@[j] == r0[b]);
                    }
                }
            }
            rest0.to_multiset_ensures();
            r0.to_multiset_ensures();
            assert(rest0.remove(0) =~= rest@);
            assert(r@ =~= r0.insert(at as int, next));
            assert(rest@.to_multiset() =~= rest0.to_multiset().remove(next));
            r@.to_multiset_ensures();
            assert(r@.remove(at as int) =~= r0);
            assert(r@.to_multiset().count(next) > 0) by {
                assert(r@.contains(r@[at as int]));
            }
            assert(r@.to_multiset() =~= r0.to_multiset().insert(next));
            assert(rest0.to_multiset().count(next) > 0) by {
                assert(rest0.contains(rest0[0]));
            }
        }
    }
    proof {
        rest@.to_multiset_ensures();
        assert(rest@.to_multiset() =~= vstd::multiset::Multiset::empty()) by {
            assert(rest@ =~= Seq::empty());
        }
        assert(r@.to_multiset() =~= all.to_multiset());
    }
    r
}

/// One of those who are shown.
#[derive(Debug)]
pub struct ShownCollaborator {
    pub user_id: u64,
    /// The number of the colour.
    pub color: u16,
    pub label: String,
}

/// What is shown of those who are there.
#[derive(Debug)]
pub struct CollaboratorList {
    pub shown: Vec<ShownCollaborator>,
    /// How many are not shown, and their names, if there are any.
    pub overflow: Option<(String, String)>,
}

/// The name that is shown of someone.
pub open spec fn shown_label(c: Collaborator, own: u16) -> Seq<char> {
    if c.replica_id == own {
        c.name@ + " (you)"@
    } else {
        c.name@
    }
}

/// The names of people.
pub open spec fn names(v: Seq<Collaborator>) -> Seq<Seq<char>> {
    v.map_values(|c: Collaborator| c.name@)
}

/// The number of the colour of a replica.
pub open spec fn color_of(replica_id: u16) -> u16 {
    if replica_id < 8 {
        0
    } else {
        (replica_id - 8) as u16
    }
}

/// What is shown of people in their order: the first few one by one, of the rest the number,
/// and their names on request.
pub fn show_collaborators(ordered: &Vec<Collaborator>, own: u16) -> (r: CollaboratorList)
    ensures
        shows(ordered@, own, r),
{
    let mut shown: Vec<ShownCollaborator> = Vec::new();
    let mut i: usize = 0;
    while i < ordered.len() && i < MAX_SHOWN
        invariant
            i <= ordered@.len(),
            i <= MAX_SHOWN,
            shown@.len() == i,
            forall|j: int|
                0 <= j < i ==> {
                    &&& (#[trigger] shown@[j]).user_id == ordered@[j].user_id
                    &&& shown@[j].color == color_of(ordered@[j].replica_id)
                    &&& shown@[j].label@ == shown_label(ordered@[j], own)
                },
        decreases ordered@.len() - i,
    {
        let c = &ordered[i];
        let label = if c.replica_id == own {
            concat2(c.name.as_str(), " (you)")
        } else {
            c.name.clone()
        };
        shown.push(
            ShownCollaborator {
                user_id: c.user_id,
                color: c.replica_id.saturating_sub(8),
                label,
            },
        );
        i = i + 1;
    }
    if ordered.len() <= MAX_SHOWN {
        return CollaboratorList { shown, overflow: None };
    }
    let mut list: Vec<String> = Vec::new();
    let mut k: usize = MAX_SHOWN;
    while k < ordered.len()
        invariant
            MAX_SHOWN <= k <= ordered@.len(),
            list@.len() == k - MAX_SHOWN,
            forall|j: int|
                0 <= j < list@.len() ==> (#[trigger] list@[j])@ == ordered@[j + MAX_SHOWN].name@,
        decreases ordered@.len() - k,
    {
        list.push(ordered[k].name.clone());
        k = k + 1;
    }
    proof {
        assert(texts(list@) =~= names(ordered@.skip(MAX_SHOWN as int)));
    }
    let more = decimal((ordered.len() - MAX_SHOWN) as u64);
    let count = concat2("+", more.as_str());
    CollaboratorList { shown, overflow: Some((count, join(&list, "\n"))) }
}

/// What is shown of those who are there: oneself first, the others by replica id.
pub fn render_collaborator_list(participants: Vec<Collaborator>, own: u16) -> (r: (
    Vec<Collaborator>,
    CollaboratorList,
))
    ensures
        r.0@.to_multiset() == participants@.to_multiset(),
        in_order(r.0@, own),
        shows(r.0@, own, r.1),
{
    let ordered = sort_participants(participants, own);
    let list = show_collaborators(&ordered, own);
    (ordered, list)
}

/// The state of an update.
#[derive(Debug)]
pub enum WebUpdateStatus {
    Idle,
    Checking,
    /// `progress` is a fraction, by its bits.
    Downloading { build: String, progress: Option<u32> },
    Ready { build: String },
    Installing { build: String },
    Error { message: String },
}

/// The state of an update, on the level of specifications.
pub enum UpdateStatusView {
    Idle,
    Checking,
    Downloading(Seq<char>, Option<u32>),
    Ready(Seq<char>),
    Installing(Seq<char>),
    Error(Seq<char>),
}

/// Whether the bits of a fraction stand for a number at all.
pub open spec fn is_fraction(bits: u32) -> bool {
    bits & 0x7fff_ffff <= 0x7f80_0000
}

/// Whether two fractions are equal as numbers: the two zeros are, and what is no number
/// equals nothing.
pub open spec fn equal_fractions(p: u32, q: u32) -> bool {
    is_fraction(p) && is_fraction(q) && (p == q || (p & 0x7fff_ffff == 0 && q & 0x7fff_ffff == 0))
}

/// Whether two states of an update are the same.
pub open spec fn same_status(a: UpdateStatusView, b: UpdateStatusView) -> bool {
    match (a, b) {
        (
            UpdateStatusView::Downloading(x, Some(p)),
            UpdateStatusView::Downloading(y, Some(q)),
        ) => x == y && equal_fractions(p, q),
        _ => a == b,
    }
}

/// Whether two fractions, by their bits, are equal as numbers.
fn same_progress(p: u32, q: u32) -> (r: bool)
    ensures
        r == equal_fractions(p, q),
{
    let zero = p & 0x7fff_ffff == 0 && q & 0x7fff_ffff == 0;
    p & 0x7fff_ffff <= 0x7f80_0000 && q & 0x7fff_ffff <= 0x7f80_0000 && (p == q || zero)
}

impl WebUpdateStatus {
    pub open spec fn view(self) -> UpdateStatusView {
        match self {
            WebUpdateStatus::Idle => UpdateStatusView::Idle,
            WebUpdateStatus::Checking => UpdateStatusView::Checking,
            WebUpdateStatus::Downloading { build, progress } => UpdateStatusView::Downloading(
                build@,
                progress,
            ),
            WebUpdateStatus::Ready { build } => UpdateStatusView::Ready(build@),
            WebUpdateStatus::Installing { build } => UpdateStatusView::Installing(build@),
            WebUpdateStatus::Error { message } => UpdateStatusView::Error(message@),
        }
    }

    /// Whether two states are the same.
    pub fn same_as(&self, other: &WebUpdateStatus) -> (r: bool)
        ensures
            r == same_status(self.view(), other.view()),
    {
        match (self, other) {
            (WebUpdateStatus::Idle, WebUpdateStatus::Idle) => true,
            (WebUpdateStatus::Checking, WebUpdateStatus::Checking) => true,
            (
                WebUpdateStatus::Downloading { build: a, progress: p },
                WebUpdateStatus::Downloading { build: b, progress: q },
            ) => {
                let progress = match (p, q) {
                    (Some(p), Some(q)) => same_progress(*p, *q),
                    (None, None) => true,
                    _ => false,
                };
                progress && same(a.as_str(), b.as_str())
            },
            (WebUpdateStatus::Ready { build: a }, WebUpdateStatus::Ready { build: b }) => same(
                a.as_str(),
                b.as_str(),
            ),
            (
                WebUpdateStatus::Installing { build: a },
                WebUpdateStatus::Installing { build: b },
            ) => same(a.as_str(), b.as_str()),
            (WebUpdateStatus::Error { message: a }, WebUpdateStatus::Error { message: b }) => same(
                a.as_str(),
                b.as_str(),
            ),
            _ => false,
        }
    }
}

/// The updates of a browser, and the way to the host that makes them.
pub struct WebUpdater<A> {
    pub status: WebUpdateStatus,
    pub action: A,
}

/// No update yet.
pub fn init_web_updates<A>(action: A) -> (r: WebUpdater<A>)
    ensures
        r.status is Idle,
        r.action == action,
{
    WebUpdater { status: WebUpdateStatus::Idle, action }
}

/// Takes in the state of an update.
pub fn set_web_update_status<A>(updater: &mut WebUpdater<A>, status: WebUpdateStatus)
    ensures
        *final(updater) == (WebUpdater { status, ..*old(updater) }),
{
    updater.status = status;
}

/// What the title bar knows of an update.
pub struct UpdateVersion {
    pub status: WebUpdateStatus,
    /// Whether the user has put the notice away.
    pub dismissed: bool,
}

/// What is shown of an update.
#[derive(Debug)]
pub enum UpdateNotice {
    Nothing,
    Checking,
    Downloading { progress: Option<u32>, tooltip: String },
    Installing { build: String },
    /// A click asks whether to install it.
    Ready { tooltip: String },
    /// A click checks again.
    Failed { message: String },
}

/// What is shown of an update, on the level of specifications.
pub enum NoticeView {
    Nothing,
    Checking,
    Downloading(Option<u32>, Seq<char>),
    Installing(Seq<char>),
    Ready(Seq<char>),
    Failed(Seq<char>),
}

impl UpdateNotice {
    pub open spec fn view(self) -> NoticeView {
        match self {
            UpdateNotice::Nothing => NoticeView::Nothing,
            UpdateNotice::Checking => NoticeView::Checking,
            UpdateNotice::Downloading { progress, tooltip } => NoticeView::Downloading(
                progress,
                tooltip@,
            ),
            UpdateNotice::Installing { build } => NoticeView::Installing(build@),
            UpdateNotice::Ready { tooltip } => NoticeView::Ready(tooltip@),
            UpdateNotice::Failed { message } => NoticeView::Failed(message@),
        }
    }
}

/// What is shown of an update, unless the user has put it away.
pub open spec fn notice_of(status: UpdateStatusView, dismissed: bool) -> NoticeView {
    if dismissed {
        NoticeView::Nothing
    } else {
        match status {
            UpdateStatusView::Idle => NoticeView::Nothing,
            UpdateStatusView::Checking => NoticeView::Checking,
            UpdateStatusView::Downloading(build, progress) => NoticeView::Downloading(
                progress,
                "Preparing editor "@ + build + "; you can keep working."@,
            ),
            UpdateStatusView::Installing(build) => NoticeView::Installing(build),
            UpdateStatusView::Ready(build) => NoticeView::Ready(
                "Update to "@ + build + ". Restarts the shared workspace."@,
            ),
            UpdateStatusView::Error(message) => NoticeView::Failed(message),
        }
    }
}

impl UpdateVersion {
    /// A title bar that shows the state of an update.
    pub fn new(status: WebUpdateStatus) -> (r: UpdateVersion)
        ensures
            r.status == status,
            !r.dismissed,
    {
        UpdateVersion { status, dismissed: false }
    }

    /// Takes in the state of an update. A new state is shown even where the user has put the
    /// old one away. Returns whether it is new.
    pub fn observe(&mut self, status: WebUpdateStatus) -> (r: bool)
        ensures
            r == !same_status(old(self).status.view(), status.view()),
            if r {
                final(self).status == status && !final(self).dismissed
            } else {
                *final(self) == *old(self)
            },
    {
        if self.status.same_as(&status) {
            return false;
        }
        self.status = status;
        self.dismissed = false;
        true
    }

    /// Puts the notice away.
    pub fn dismiss(&mut self)
        ensures
            *final(self) == (UpdateVersion { dismissed: true, ..*old(self) }),
    {
        self.dismissed = true;
    }

    /// A browser has no menu of the user to show an update in.
    pub fn show_update_in_menu_bar(&self) -> (r: bool)
        ensures
            !r,
    {
        false
    }

    /// What is shown of the update.
    pub fn render(&self) -> (r: UpdateNotice)
        ensures
            r.view() == notice_of(self.status.view(), self.dismissed),
    {
        if self.dismissed {
            return UpdateNotice::Nothing;
        }
        match &self.status {
            WebUpdateStatus::Idle => UpdateNotice::Nothing,
            WebUpdateStatus::Checking => UpdateNotice::Checking,
            WebUpdateStatus::Downloading { build, progress } => UpdateNotice::Downloading {
                progress: *progress,
                tooltip: concat3("Preparing editor ", build.as_str(), "; you can keep working."),
            },
            WebUpdateStatus::Installing { build } => UpdateNotice::Installing {
                build: build.clone(),
            },
            WebUpdateStatus::Ready { build } => UpdateNotice::Ready {
                tooltip: concat3("Update to ", build.as_str(), ". Restarts the shared workspace."),
            },
            WebUpdateStatus::Error { message } => UpdateNotice::Failed { message: message.clone() },
        }
    }
}

/// What the host is told after the user was asked whether to install an update: only the
/// first answer installs it.
pub fn install_answer(answer: Option<usize>) -> (r: Option<&'static str>)
    ensures
        match r {
            Some(command) => answer == Some(0usize) && command@ == "install"@,
            None => answer != Some(0usize),
        },
{
    match answer {
        Some(choice) => if choice == 0 {
            Some("install")
        } else {
            None
        },
        None => None,
    }
}

/// Nothing is shown of a state whose notice was put away, and a state that is new is shown,
/// unless there is nothing to say of it.
pub proof fn law_dismissed_notices_come_back(old_status: UpdateStatusView, status: UpdateStatusView)
    requires
        status is Checking || status is Downloading || status is Installing || status is Ready
            || status is Error,
    ensures
        notice_of(old_status, true) is Nothing,
        !(notice_of(status, false) is Nothing),
{
}

/// Whether a list shows the participants, who are in order.
pub open spec fn shows(ordered: Seq<Collaborator>, own: u16, list: CollaboratorList) -> bool {
    &&& list.shown@.len() == if ordered.len() < MAX_SHOWN {
        ordered.len()
    } else {
        MAX_SHOWN as nat
    }
    &&& forall|i: int|
        0 <= i < list.shown@.len() ==> {
            &&& (#[trigger] list.shown@[i]).user_id == ordered[i].user_id
            &&& list.shown@[i].color == color_of(ordered[i].replica_id)
            &&& list.shown@[i].label@ == shown_label(ordered[i], own)
        }
    &&& match list.overflow {
        None => ordered.len() <= MAX_SHOWN,
        Some((count, names_left)) => {
            &&& ordered.len() > MAX_SHOWN
            &&& count@ == "+"@ + decimal_digits((ordered.len() - MAX_SHOWN) as nat)
            &&& names_left@ == joined(names(ordered.skip(MAX_SHOWN as int)), "\n"@)
        },
    }
}

/// Nobody is left out: each of the first is shown, and where there are more, their number and
/// all their names are.
pub proof fn law_everyone_is_shown(
    ordered: Seq<Collaborator>,
    own: u16,
    list: CollaboratorList,
    i: int,
)
    requires
        shows(ordered, own, list),
        0 <= i < ordered.len(),
    ensures
        list.shown@.len() <= ordered.len(),
        i < list.shown@.len() ==> {
            &&& list.shown@[i].user_id == ordered[i].user_id
            &&& ordered[i].replica_id == own ==> list.shown@[i].label@ == ordered[i].name@
                + " (you)"@
            &&& ordered[i].replica_id != own ==> list.shown@[i].label@ == ordered[i].name@
        },
        list.overflow is Some <==> list.shown@.len() < ordered.len(),
        i >= list.shown@.len() ==> {
            let left = names(ordered.skip(list.shown@.len() as int));
            &&& (list.overflow->0).1@ == joined(left, "\n"@)
            &&& left.len() == ordered.len() - list.shown@.len()
            &&& left[i - list.shown@.len()] == ordered[i].name@
            &&& (list.overflow->0).0@ == "+"@ + decimal_digits(left.len())
        },
{
}

/// The own participant comes first, and the others in the order of their replica ids, so that
/// no two of them are in each other's way.
pub proof fn law_participants_have_an_order(a: Collaborator, b: Collaborator, own: u16)
    ensures
        a.replica_id == own && b.replica_id != own ==> comes_before(a, b, own) && !comes_before(
            b,
            a,
            own,
        ),
        a.replica_id != own && b.replica_id != own ==> comes_before(a, b, own) == (a.replica_id
            < b.replica_id),
        a.replica_id == b.replica_id ==> !comes_before(a, b, own),
{
}

/// Colours are counted from the first participant on.
pub proof fn law_participants_have_colours(replica_id: u16)
    ensures
        replica_id >= 8 ==> color_of(replica_id) + 8 == replica_id,
        replica_id < 8 ==> color_of(replica_id) == 0,
{
}

/// Who is not in the call can join it, and cannot do anything else; while joining, not even
/// that.
pub proof fn law_a_call_can_be_joined(s: WebCallStatus)
    requires
        s.phase@ != "joined"@,
    ensures
        call_controls(s).len() == 1,
        call_controls(s)[0].command == "join"@,
        s.phase@ == "joining"@ ==> call_controls(s)[0].look == ButtonLook::Disabled,
        s.phase@ != "joining"@ ==> call_controls(s)[0].look == ButtonLook::Plain,
        s.error is Some ==> call_controls(s)[0].tooltip == s.error->0@,
{
}

/// Who is in the call sees who else is, can mute and unmute both ways, share the screen where
/// that is possible, and leave; what is on says so.
pub proof fn law_a_call_can_be_controlled(s: WebCallStatus)
    requires
        s.phase@ == "joined"@,
    ensures
        ({
            let b = call_controls(s);
            let n = b.len() as int;
            &&& n == if s.screen_supported {
                5int
            } else {
                4
            }
            &&& b[0].command == "show"@
            &&& b[1].command == "microphone"@
            &&& b[2].command == "audio"@
            &&& s.screen_supported ==> b[3].command == "screen"@
            &&& b[n - 1].command == "leave"@
            &&& b[1].icon == CallIcon::MicMute <==> s.muted
            &&& b[1].look == ButtonLook::Warning <==> s.muted
            &&& b[2].icon == CallIcon::AudioOff <==> s.deafened
            &&& b[2].look == ButtonLook::Warning <==> s.deafened
            &&& s.screen_supported ==> (b[3].look == ButtonLook::Accent <==> s.sharing_screen)
            &&& s.error is Some ==> b[0].tooltip == s.error->0@
            &&& s.error is None ==> b[0].tooltip == decimal_digits(s.peers as nat)
                + " in this call"@
            &&& forall|i: int| 0 <= i < n ==> (#[trigger] b[i]).look != ButtonLook::Disabled
        }),
{
}

/// The state of an update is shown as what it is, with its build or its message, unless the
/// notice was put away.
pub proof fn law_updates_are_shown(build: Seq<char>, progress: Option<u32>, message: Seq<char>)
    ensures
        notice_of(UpdateStatusView::Idle, false) is Nothing,
        notice_of(UpdateStatusView::Checking, false) is Checking,
        notice_of(UpdateStatusView::Downloading(build, progress), false)
            == NoticeView::Downloading(
            progress,
            "Preparing editor "@ + build + "; you can keep working."@,
        ),
        notice_of(UpdateStatusView::Installing(build), false) == NoticeView::Installing(build),
        notice_of(UpdateStatusView::Ready(build), false) == NoticeView::Ready(
            "Update to "@ + build + ". Restarts the shared workspace."@,
        ),
        notice_of(UpdateStatusView::Error(message), false) == NoticeView::Failed(message),
{
}

/// A state is news unless it is the one that is shown: another kind, build, message or
/// progress is, and a state is none to itself, unless its progress is no number.
pub proof fn law_news_is_told_apart(
    a: UpdateStatusView,
    build: Seq<char>,
    other: Seq<char>,
    p: u32,
    q: u32,
)
    ensures
        !(a is Downloading) ==> same_status(a, a),
        same_status(
            UpdateStatusView::Downloading(build, Some(p)),
            UpdateStatusView::Downloading(build, Some(p)),
        ) <==> p & 0x7fff_ffff <= 0x7f80_0000,
        build != other ==> {
            &&& !same_status(UpdateStatusView::Ready(build), UpdateStatusView::Ready(other))
            &&& !same_status(UpdateStatusView::Error(build), UpdateStatusView::Error(other))
            &&& !same_status(
                UpdateStatusView::Installing(build),
                UpdateStatusView::Installing(other),
            )
            &&& !same_status(
                UpdateStatusView::Downloading(build, Some(p)),
                UpdateStatusView::Downloading(other, Some(q)),
            )
        },
        p != q && p & 0x7fff_ffff != 0 ==> !same_status(
            UpdateStatusView::Downloading(build, Some(p)),
            UpdateStatusView::Downloading(build, Some(q)),
        ),
        same_status(
            UpdateStatusView::Downloading(build, Some(0u32)),
            UpdateStatusView::Downloading(build, Some(0x8000_0000u32)),
        ),
        !same_status(UpdateStatusView::Checking, UpdateStatusView::Idle),
        !same_status(UpdateStatusView::Ready(build), UpdateStatusView::Installing(build)),
{
    assert(0u32 & 0x7fff_ffff == 0 && 0x8000_0000u32 & 0x7fff_ffff == 0) by (bit_vector);
}

/// Every button says what a press on it does, and shows it: what is muted can be unmuted, what
/// is shared can be stopped.
pub proof fn law_buttons_say_what_they_do(s: WebCallStatus)
    ensures
        ({
            let b = call_controls(s);
            let n = b.len() as int;
            &&& s.phase@ == "joined"@ ==> {
                &&& b[0].label == "Call Participants"@ && b[0].icon == CallIcon::OnCall
                &&& s.muted ==> b[1].label == "Unmute Microphone"@
                &&& !s.muted ==> b[1].label == "Mute Microphone"@ && b[1].icon == CallIcon::Mic
                &&& b[1].tooltip == b[1].label
                &&& s.deafened ==> b[2].label == "Unmute Audio"@
                &&& !s.deafened ==> b[2].label == "Mute Audio"@ && b[2].icon == CallIcon::AudioOn
                &&& b[2].tooltip == b[2].label
                &&& s.screen_supported ==> b[3].icon == CallIcon::Screen && b[3].tooltip
                    == b[3].label
                &&& s.screen_supported && s.sharing_screen ==> b[3].label
                    == "Stop Sharing Screen"@
                &&& s.screen_supported && !s.sharing_screen ==> b[3].label == "Share Screen"@
                &&& b[n - 1].label == "Leave Call"@ && b[n - 1].icon == CallIcon::Exit
                &&& b[n - 1].tooltip == b[n - 1].label
                &&& b[0].id == "call-participants"@ && b[1].id == "mute-microphone"@ && b[2].id
                    == "mute-sound"@ && b[n - 1].id == "leave-call"@
                &&& s.screen_supported ==> b[3].id == "screen-share"@
                &&& !s.muted ==> b[1].look == ButtonLook::Plain
                &&& !s.deafened ==> b[2].look == ButtonLook::Plain
                &&& s.screen_supported && !s.sharing_screen ==> b[3].look == ButtonLook::Plain
                &&& b[0].look == ButtonLook::Plain && b[n - 1].look == ButtonLook::Plain
            }
            &&& s.phase@ != "joined"@ ==> {
                &&& b[0].id == "join-call"@ && b[0].icon == CallIcon::OnCall
                &&& s.phase@ == "joining"@ ==> b[0].label == "Joining Call\u{2026}"@
                &&& s.phase@ != "joining"@ ==> b[0].label == "Join Call"@
                &&& s.error is None ==> b[0].tooltip == b[0].label
            }
        }),
{
}

/// In an ordered list nobody stands behind someone whose replica id is larger, but for the
/// participant whose list it is, who stands in front.
pub proof fn law_lists_are_in_order(v: Seq<Collaborator>, own: u16, i: int, j: int)
    requires
        in_order(v, own),
        0 <= i < j < v.len(),
    ensures
        v[j].replica_id == own ==> v[i].replica_id == own,
        v[i].replica_id != own && v[j].replica_id != own ==> v[i].replica_id <= v[j].replica_id,
{
    assert(!comes_before(v[j], v[i], own));
}

/// Whoever is shown has the colour of their replica id, and as many are shown as there is room
/// for.
pub proof fn law_participants_are_shown_in_their_colours(
    ordered: Seq<Collaborator>,
    own: u16,
    list: CollaboratorList,
    i: int,
)
    requires
        shows(ordered, own, list),
        0 <= i < list.shown@.len(),
    ensures
        ordered[i].replica_id >= 8 ==> list.shown@[i].color + 8 == ordered[i].replica_id,
        ordered[i].replica_id < 8 ==> list.shown@[i].color == 0,
        ordered.len() <= 5 ==> list.shown@.len() == ordered.len(),
        ordered.len() > 5 ==> list.shown@.len() == 5,
{
}

} // verus!
