//! Telling when a meeting begins and ends.
//!
//! What the system reports (running processes, open windows, who holds the
//! microphone) comes in as plain values; what is decided here is what it means.

use vstd::prelude::*;

use crate::meeting_title::{
    meeting_name, meeting_name_of, names_a_meeting, other_party, other_party_from_title,
};
use crate::text::{
    ascii_lower, begins, contains, join, joined, law_lower_case_finds_any_case,
    law_occurs_between, lemma_occurs_in_joined, occurs, same, same_ignoring_ascii_case,
    starts_with, text_in, texts, to_ascii_lower,
};

verus! {

// ---------------------------------------------------------------------------
// Who holds the microphone
// ---------------------------------------------------------------------------

/// One application in the system's record of microphone use.
#[derive(Debug)]
pub struct MicUse {
    pub name: String,
    /// When the last use ended; zero while it goes on, nothing where it is not
    /// recorded.
    pub last_used_stop: Option<u64>,
}

/// One entry of the record: a packaged application, or the group of the
/// applications that are not packaged.
#[derive(Debug)]
pub struct ConsentEntry {
    pub entry: MicUse,
    pub members: Vec<MicUse>,
}

/// Whether an application whose name holds `needle` uses the microphone now.
pub open spec fn in_use_by(u: MicUse, needle: Seq<char>) -> bool {
    occurs(ascii_lower(u.name@), needle) && u.last_used_stop == Some(0u64)
}

/// Whether an entry is the group of the applications that are not packaged.
pub open spec fn is_group(e: ConsentEntry) -> bool {
    ascii_lower(e.entry.name@) == ascii_lower("NonPackaged"@)
}

/// Whether an entry shows an application whose name holds `needle` using the
/// microphone now.
pub open spec fn entry_in_use_by(e: ConsentEntry, needle: Seq<char>) -> bool {
    if is_group(e) {
        exists|j: int| 0 <= j < e.members@.len() && in_use_by(#[trigger] e.members@[j], needle)
    } else {
        in_use_by(e.entry, needle)
    }
}

/// Whether the record shows an application whose name holds `fragment`, in any
/// ASCII case, using the microphone now.
pub open spec fn mic_held_by(store: Seq<ConsentEntry>, fragment: Seq<char>) -> bool {
    exists|i: int|
        0 <= i < store.len() && entry_in_use_by(#[trigger] store[i], ascii_lower(fragment))
}

fn uses_mic(u: &MicUse, needle: &str) -> (r: bool)
    ensures
        r == in_use_by(*u, needle@),
{
    let name = to_ascii_lower(u.name.as_str());
    let now = match u.last_used_stop {
        Some(stop) => stop == 0,
        None => false,
    };
    contains(name.as_str(), needle) && now
}

fn entry_uses_mic(e: &ConsentEntry, needle: &str) -> (r: bool)
    ensures
        r == entry_in_use_by(*e, needle@),
{
    if same_ignoring_ascii_case(e.entry.name.as_str(), "NonPackaged") {
        for j in 0..e.members.len()
            invariant
                is_group(*e),
                forall|k: int| 0 <= k < j ==> !in_use_by(#[trigger] e.members@[k], needle@),
        {
            if uses_mic(&e.members[j], needle) {
                assert(in_use_by(e.members@[j as int], needle@));
                return true;
            }
        }
        false
    } else {
        uses_mic(&e.entry, needle)
    }
}

/// Whether an application whose name holds `fragment` uses the microphone now.
pub fn app_holding_mic(store: &Vec<ConsentEntry>, fragment: &str) -> (r: bool)
    ensures
        r == mic_held_by(store@, fragment@),
{
    let needle = to_ascii_lower(fragment);
    for i in 0..store.len()
        invariant
            needle@ == ascii_lower(fragment@),
            forall|k: int| 0 <= k < i ==> !entry_in_use_by(#[trigger] store@[k], needle@),
    {
        if entry_uses_mic(&store[i], needle.as_str()) {
            assert(entry_in_use_by(store@[i as int], needle@));
            return true;
        }
    }
    false
}

// ---------------------------------------------------------------------------
// Whether the default input device is in use
// ---------------------------------------------------------------------------

/// The address of a property of an audio object.
#[derive(Clone, Copy, PartialEq, Eq, Structural, Debug)]
pub struct AudioObjectPropertyAddress {
    pub m_selector: u32,
    pub m_scope: u32,
    pub m_element: u32,
}

/// The object that stands for the audio system itself.
pub const K_AUDIO_OBJECT_SYSTEM_OBJECT: u32 = 1;

/// The property `dIn `: the default input device.
pub const K_DEFAULT_INPUT_DEVICE: u32 = 0x6449_6e20;

/// The property `gone`: whether any process uses the device.
pub const K_DEVICE_IS_RUNNING_SOMEWHERE: u32 = 0x676f_6e65;

/// The scope `glob`.
pub const K_SCOPE_GLOBAL: u32 = 0x676c_6f62;

/// The main element.
pub const K_ELEMENT_MAIN: u32 = 0;

/// Where to ask for the default input device.
pub fn default_input_address() -> (r: AudioObjectPropertyAddress)
    ensures
        r.m_selector == K_DEFAULT_INPUT_DEVICE,
        r.m_scope == K_SCOPE_GLOBAL,
        r.m_element == K_ELEMENT_MAIN,
{
    AudioObjectPropertyAddress {
        m_selector: K_DEFAULT_INPUT_DEVICE,
        m_scope: K_SCOPE_GLOBAL,
        m_element: K_ELEMENT_MAIN,
    }
}

/// Where to ask whether any process uses a device.
pub fn running_somewhere_address() -> (r: AudioObjectPropertyAddress)
    ensures
        r.m_selector == K_DEVICE_IS_RUNNING_SOMEWHERE,
        r.m_scope == K_SCOPE_GLOBAL,
        r.m_element == K_ELEMENT_MAIN,
{
    AudioObjectPropertyAddress {
        m_selector: K_DEVICE_IS_RUNNING_SOMEWHERE,
        m_scope: K_SCOPE_GLOBAL,
        m_element: K_ELEMENT_MAIN,
    }
}

/// The reply to a question about an audio object: a status, zero for success,
/// and the value of the property.
#[derive(Clone, Copy, PartialEq, Eq, Structural, Debug)]
pub struct PropertyReply {
    pub status: i32,
    pub value: u32,
}

/// The input device to ask about, given the reply to which one is the default.
pub fn input_device(reply: PropertyReply) -> (r: Option<u32>)
    ensures
        r == if reply.status != 0 || reply.value == 0 {
            None
        } else {
            Some(reply.value)
        },
{
    if reply.status != 0 || reply.value == 0 {
        None
    } else {
        Some(reply.value)
    }
}

/// Whether something else is reading from the default input device, given the
/// replies to which one it is and whether it is running. While this program
/// records the replies cannot tell it from others, so nothing is reported.
pub fn is_external_mic_active(
    recording: bool,
    device: PropertyReply,
    running: PropertyReply,
) -> (r: bool)
    ensures
        r == (!recording && device.status == 0 && device.value != 0 && running.status == 0
            && running.value != 0),
{
    if recording {
        return false;
    }
    match input_device(device) {
        Some(_) => running.status == 0 && running.value != 0,
        None => false,
    }
}

// ---------------------------------------------------------------------------
// Processes and windows
// ---------------------------------------------------------------------------

/// A running process.
#[derive(Debug)]
pub struct ProcessInfo {
    pub pid: u32,
    pub name: String,
    pub cmd: Vec<String>,
}

/// Whether the command line of a process mentions Microsoft Teams.
pub open spec fn cmd_mentions_teams(p: ProcessInfo) -> bool {
    occurs(joined(texts(p.cmd@), " "@), "Microsoft Teams"@)
}

/// Whether a process is Microsoft Teams: the new one is called `MSTeams`, the
/// classic one `Teams`, and either may be started through another program.
pub open spec fn is_teams(p: ProcessInfo) -> bool {
    p.name@ == "MSTeams"@ || p.name@ == "Teams"@ || cmd_mentions_teams(p)
}

fn mentions_teams(p: &ProcessInfo) -> (r: bool)
    ensures
        r == cmd_mentions_teams(*p),
{
    let line = join(&p.cmd, " ");
    contains(line.as_str(), "Microsoft Teams")
}

fn looks_like_teams(p: &ProcessInfo) -> (r: bool)
    ensures
        r == is_teams(*p),
{
    let name = p.name.as_str();
    same(name, "MSTeams") || same(name, "Teams") || mentions_teams(p)
}

/// Whether a process with a name is running.
pub open spec fn is_running(processes: Seq<ProcessInfo>, name: Seq<char>) -> bool {
    exists|i: int| 0 <= i < processes.len() && (#[trigger] processes[i]).name@ == name
}

/// Whether Zoom is in a meeting, where that shows in a process that runs only
/// during one.
pub fn is_zoom_in_meeting(processes: &Vec<ProcessInfo>) -> (r: bool)
    ensures
        r == exists|i: int|
            0 <= i < processes@.len() && (#[trigger] processes@[i]).name@ == "CptHost"@,
        r == is_running(processes@, "CptHost"@),
{
    for i in 0..processes.len()
        invariant
            forall|k: int| 0 <= k < i ==> (#[trigger] processes@[k]).name@ != "CptHost"@,
    {
        if same(processes[i].name.as_str(), "CptHost") {
            assert(processes@[i as int].name@ == "CptHost"@);
            return true;
        }
    }
    false
}

/// Whether Microsoft Teams is running.
pub open spec fn teams_running(processes: Seq<ProcessInfo>) -> bool {
    exists|i: int| 0 <= i < processes.len() && is_teams(#[trigger] processes[i])
}

/// Whether Microsoft Teams is running.
pub fn is_teams_running(processes: &Vec<ProcessInfo>) -> (r: bool)
    ensures
        r == teams_running(processes@),
{
    for i in 0..processes.len()
        invariant
            forall|k: int| 0 <= k < i ==> !is_teams(#[trigger] processes@[k]),
    {
        if looks_like_teams(&processes[i]) {
            assert(is_teams(processes@[i as int]));
            return true;
        }
    }
    false
}

/// Whether Microsoft Teams is in a meeting. That it runs is not enough: the
/// microphone has to be in use as well.
pub fn is_teams_in_meeting(mic_in_use: bool, processes: &Vec<ProcessInfo>) -> (r: bool)
    ensures
        r == (mic_in_use && teams_running(processes@)),
{
    mic_in_use && is_teams_running(processes)
}

/// A window on the screen, with the name of the application that owns it.
#[derive(Debug)]
pub struct OwnedWindow {
    pub owner: String,
    pub title: String,
}

/// Whether a window is one that Microsoft Teams shows for a meeting.
pub open spec fn is_teams_meeting_window(w: OwnedWindow) -> bool {
    &&& w.owner@ == "Microsoft Teams"@ || w.owner@ == "MSTeams"@ || begins(w.owner@, "Teams"@)
    &&& occurs(w.title@, "Meeting"@) || occurs(w.title@, "Call"@) || occurs(
        w.title@,
        "| Microsoft Teams"@,
    )
}

/// The title of the first of the windows from the `i`-th on that Microsoft Teams
/// shows for a meeting.
pub open spec fn teams_title_from(windows: Seq<OwnedWindow>, i: int) -> Option<Seq<char>>
    decreases windows.len() - i,
{
    if i < 0 || i >= windows.len() {
        None
    } else if is_teams_meeting_window(windows[i]) {
        Some(windows[i].title@)
    } else {
        teams_title_from(windows, i + 1)
    }
}

/// The title of the first window that Microsoft Teams shows for a meeting.
pub fn teams_meeting_window_title(windows: &Vec<OwnedWindow>) -> (r: Option<String>)
    ensures
        text_in(r) == teams_title_from(windows@, 0),
{
    let mut i: usize = 0;
    while i < windows.len()
        invariant
            i <= windows@.len(),
            teams_title_from(windows@, 0) == teams_title_from(windows@, i as int),
        decreases windows@.len() - i,
    {
        let owner = windows[i].owner.as_str();
        let title = windows[i].title.as_str();
        let teams = same(owner, "Microsoft Teams") || same(owner, "MSTeams") || starts_with(
            owner,
            "Teams",
        );
        if teams && (contains(title, "Meeting") || contains(title, "Call") || contains(
            title,
            "| Microsoft Teams",
        )) {
            return Some(title.to_owned());
        }
        i += 1;
    }
    None
}

/// A window of the desktop.
#[derive(Debug)]
pub struct DesktopWindow {
    pub visible: bool,
    pub pid: u32,
    pub title: String,
}

/// Whether a process of Microsoft Teams has this number.
pub open spec fn teams_pid(processes: Seq<ProcessInfo>, pid: u32) -> bool {
    exists|i: int|
        0 <= i < processes.len() && is_teams(#[trigger] processes[i])
            && processes[i].pid == pid
}

/// The meeting named by the first of the windows from the `i`-th on that is
/// visible, belongs to Microsoft Teams and names one.
pub open spec fn meeting_named_from(
    processes: Seq<ProcessInfo>,
    windows: Seq<DesktopWindow>,
    i: int,
) -> Option<Seq<char>>
    decreases windows.len() - i,
{
    if i < 0 || i >= windows.len() {
        None
    } else if windows[i].visible && teams_pid(processes, windows[i].pid) && names_a_meeting(
        windows[i].title@,
    ) {
        Some(meeting_name(windows[i].title@))
    } else {
        meeting_named_from(processes, windows, i + 1)
    }
}

fn has_teams_pid(processes: &Vec<ProcessInfo>, pid: u32) -> (r: bool)
    ensures
        r == teams_pid(processes@, pid),
{
    for i in 0..processes.len()
        invariant
            forall|k: int|
                0 <= k < i ==> !(is_teams(#[trigger] processes@[k]) && processes@[k].pid == pid),
    {
        let p = &processes[i];
        if p.pid == pid && looks_like_teams(p) {
            assert(is_teams(processes@[i as int]));
            return true;
        }
    }
    false
}

/// What a Microsoft Teams window calls the meeting: its name, or the person being
/// called. It names a transcript and never decides whether there is a meeting.
pub fn meeting_window_title(processes: &Vec<ProcessInfo>, windows: &Vec<DesktopWindow>) -> (r:
    Option<String>)
    ensures
        text_in(r) == meeting_named_from(processes@, windows@, 0),
{
    let mut i: usize = 0;
    while i < windows.len()
        invariant
            i <= windows@.len(),
            meeting_named_from(processes@, windows@, 0) == meeting_named_from(
                processes@,
                windows@,
                i as int,
            ),
        decreases windows@.len() - i,
    {
        let w = &windows[i];
        if w.visible && has_teams_pid(processes, w.pid) {
            match meeting_name_of(w.title.as_str()) {
                Some(name) => {
                    return Some(name);
                },
                None => {},
            }
        }
        i += 1;
    }
    None
}

// ---------------------------------------------------------------------------
// Following one application
// ---------------------------------------------------------------------------

/// No second notification about an application within this time, in nanoseconds.
pub const NOTIFICATION_COOLDOWN: u128 = 300_000_000_000;

/// In how many polls in a row an application has to be missing before its
/// meeting counts as ended.
pub const LEAVE_GRACE_POLLS: u8 = 3;

/// What is known of one application.
#[derive(Clone, Copy, PartialEq, Eq, Structural, Debug)]
pub struct Track {
    /// Whether it counts as being in a meeting.
    pub detected: bool,
    /// In how many polls in a row it was missing.
    pub absent: u8,
    /// When it was last notified about, in nanoseconds.
    pub notified_at: Option<u128>,
}

/// What one poll found of an application.
#[derive(Clone, Copy, PartialEq, Eq, Structural, Debug)]
pub struct Change {
    /// A meeting began that has to be notified about.
    pub begun: bool,
    /// A meeting ended.
    pub ended: bool,
}

impl Track {
    /// An application in a meeting has not been missing for too long.
    pub open spec fn wf(self) -> bool {
        self.detected ==> self.absent < LEAVE_GRACE_POLLS
    }

    /// Nothing known.
    pub fn new() -> (r: Track)
        ensures
            r.wf(),
            r == (Track { detected: false, absent: 0, notified_at: None }),
    {
        Track { detected: false, absent: 0, notified_at: None }
    }
}

/// In how many polls in a row an application was missing after one more poll.
pub open spec fn absent_after(t: Track, seen: bool) -> int {
    if seen {
        0
    } else if t.detected {
        t.absent + 1
    } else {
        t.absent as int
    }
}

/// Whether an application counts as being in a meeting after one more poll.
pub open spec fn detected_after(t: Track, seen: bool) -> bool {
    seen || (t.detected && absent_after(t, seen) < LEAVE_GRACE_POLLS)
}

/// Whether it is too soon to notify about an application again.
pub open spec fn cooling(t: Track, now: u128) -> bool {
    match t.notified_at {
        Some(last) => now < last + NOTIFICATION_COOLDOWN,
        None => false,
    }
}

/// What one more poll finds of an application.
pub open spec fn change_at(t: Track, seen: bool, now: u128) -> Change {
    Change {
        begun: detected_after(t, seen) && !t.detected && !cooling(t, now),
        ended: t.detected && !detected_after(t, seen),
    }
}

/// What is known of an application after one more poll.
pub open spec fn track_after(t: Track, seen: bool, now: u128) -> Track {
    Track {
        detected: detected_after(t, seen),
        absent: absent_after(t, seen) as u8,
        notified_at: if change_at(t, seen, now).begun {
            Some(now)
        } else {
            t.notified_at
        },
    }
}

/// Follows an application through one more poll.
pub fn observe(track: &mut Track, seen: bool, now: u128) -> (r: Change)
    requires
        old(track).wf(),
    ensures
        final(track).wf(),
        *final(track) == track_after(*old(track), seen, now),
        r == change_at(*old(track), seen, now),
{
    let before = *track;
    let absent: u8 = if seen {
        0
    } else if before.detected {
        before.absent + 1
    } else {
        before.absent
    };
    let detected = seen || (before.detected && absent < LEAVE_GRACE_POLLS);
    let cooling_now = match before.notified_at {
        Some(last) => now < last || now - last < NOTIFICATION_COOLDOWN,
        None => false,
    };
    let begun = detected && !before.detected && !cooling_now;
    let ended = before.detected && !detected;
    track.detected = detected;
    track.absent = absent;
    if begun {
        track.notified_at = Some(now);
    }
    Change { begun, ended }
}

// ---------------------------------------------------------------------------
// The detector
// ---------------------------------------------------------------------------

/// The applications that are followed.
pub struct MeetingDetector {
    pub zoom: Track,
    pub teams: Track,
}

/// The names of the applications for which a condition holds, Zoom first.
pub open spec fn apps_where(zoom: bool, teams: bool) -> Seq<Seq<char>> {
    (if zoom {
        seq!["Zoom"@]
    } else {
        Seq::empty()
    }) + (if teams {
        seq!["Microsoft Teams"@]
    } else {
        Seq::empty()
    })
}

/// What one poll reports: the applications in which a meeting began, and those in which
/// one ended.
pub open spec fn reported(
    d: MeetingDetector,
    zoom_seen: bool,
    teams_seen: bool,
    now: u128,
) -> (Seq<Seq<char>>, Seq<Seq<char>>) {
    let zoom = change_at(d.zoom, zoom_seen, now);
    let teams = change_at(d.teams, teams_seen, now);
    (apps_where(zoom.begun, teams.begun), apps_where(zoom.ended, teams.ended))
}

fn app_names(zoom: bool, teams: bool) -> (r: Vec<String>)
    ensures
        texts(r@) == apps_where(zoom, teams),
{
    let mut r: Vec<String> = Vec::new();
    if zoom {
        r.push("Zoom".to_owned());
    }
    if teams {
        r.push("Microsoft Teams".to_owned());
    }
    assert(texts(r@) =~= apps_where(zoom, teams));
    r
}

impl MeetingDetector {
    /// Every application is followed soundly.
    pub open spec fn wf(self) -> bool {
        self.zoom.wf() && self.teams.wf()
    }

    /// No meeting seen yet.
    pub fn new() -> (r: Self)
        ensures
            r.wf(),
            !r.zoom.detected && r.zoom.absent == 0 && r.zoom.notified_at is None,
            !r.teams.detected && r.teams.absent == 0 && r.teams.notified_at is None,
    {
        MeetingDetector { zoom: Track::new(), teams: Track::new() }
    }

    /// Takes in what one poll saw at a time in nanoseconds. Gives the names of the
    /// applications in which a meeting began, without those that were notified
    /// about a short time ago, and of those in which one ended. Endings are never
    /// held back, or an automatic recording could be left running.
    pub fn poll(&mut self, zoom_seen: bool, teams_seen: bool, now: u128) -> (r: (
        Vec<String>,
        Vec<String>,
    ))
        requires
            old(self).wf(),
        ensures
            final(self).wf(),
            final(self).zoom == track_after(old(self).zoom, zoom_seen, now),
            final(self).teams == track_after(old(self).teams, teams_seen, now),
            texts(r.0@) == apps_where(
                change_at(old(self).zoom, zoom_seen, now).begun,
                change_at(old(self).teams, teams_seen, now).begun,
            ),
            texts(r.1@) == apps_where(
                change_at(old(self).zoom, zoom_seen, now).ended,
                change_at(old(self).teams, teams_seen, now).ended,
            ),
            (texts(r.0@), texts(r.1@)) == reported(*old(self), zoom_seen, teams_seen, now),
    {
        let mut zoom = self.zoom;
        let mut teams = self.teams;
        let z = observe(&mut zoom, zoom_seen, now);
        let t = observe(&mut teams, teams_seen, now);
        self.zoom = zoom;
        self.teams = teams;
        (app_names(z.begun, t.begun), app_names(z.ended, t.ended))
    }
}

// ---------------------------------------------------------------------------
// What a meeting sets off
// ---------------------------------------------------------------------------

/// Seconds to wait for the window before the first poll.
pub const STARTUP_SECONDS: u64 = 10;

/// Seconds between two polls.
pub const POLL_SECONDS: u64 = 12;

/// Seconds before looking again while detection is switched off.
pub const IDLE_SECONDS: u64 = 2;

/// How long to wait before the next round, in seconds.
pub fn seconds_until_next(enabled: bool) -> (r: u64)
    ensures
        r == if enabled {
            POLL_SECONDS
        } else {
            IDLE_SECONDS
        },
{
    if enabled {
        POLL_SECONDS
    } else {
        IDLE_SECONDS
    }
}

/// What to do when a meeting begins.
#[derive(Debug)]
pub enum MeetingAction {
    /// Record it without asking, under a label, with the name of the person at the
    /// other end where it is known.
    Record { label: String, other_party: Option<String> },
    /// Tell the user.
    Notify,
}

/// What a recording is called: after the meeting where the window title offers a
/// name, otherwise after the application.
pub open spec fn recording_label(app: Seq<char>, title: Option<Seq<char>>) -> Seq<char> {
    match title {
        Some(title) => title + " ("@ + app + ")"@,
        None => app,
    }
}

/// Whom a recording is with, where the window title tells.
pub open spec fn recording_party(title: Option<Seq<char>>) -> Option<Seq<char>> {
    match title {
        Some(title) => other_party(title),
        None => None,
    }
}

/// Decides what to do when a meeting begins in an application, given the title
/// of the meeting window where one can be read.
pub fn on_meeting_begun(app: &str, auto_capture: bool, title: &Option<String>) -> (r: MeetingAction)
    ensures
        match r {
            MeetingAction::Record { label, other_party } => {
                &&& auto_capture
                &&& label@ == recording_label(app@, text_in(*title))
                &&& text_in(other_party) == recording_party(text_in(*title))
            },
            MeetingAction::Notify => !auto_capture,
        },
{
    if !auto_capture {
        return MeetingAction::Notify;
    }
    match title {
        Some(title) => {
            let mut label = title.clone();
            label.append(" (");
            label.append(app);
            label.append(")");
            let other_party = other_party_from_title(title.as_str());
            MeetingAction::Record { label, other_party }
        },
        None => MeetingAction::Record { label: app.to_owned(), other_party: None },
    }
}

// ---------------------------------------------------------------------------
// Laws
// ---------------------------------------------------------------------------

/// An application after polls in a row, at these times, that did not see it.
pub open spec fn unseen(t: Track, times: Seq<u128>) -> Track
    decreases times.len(),
{
    if times.len() == 0 {
        t
    } else {
        track_after(unseen(t, times.drop_last()), false, times.last())
    }
}

/// A meeting that was seen in the last poll survives two polls in a row that miss
/// it, and ends with the third, whenever the polls are.
pub proof fn law_meeting_survives_short_gaps(t: Track, first: u128, second: u128, third: u128)
    requires
        t.detected,
        t.absent == 0,
    ensures
        unseen(t, seq![first]).detected && unseen(t, seq![first, second]).detected,
        !change_at(t, false, first).ended,
        !change_at(unseen(t, seq![first]), false, second).ended,
        change_at(unseen(t, seq![first, second]), false, third).ended,
        !unseen(t, seq![first, second, third]).detected,
{
    reveal_with_fuel(unseen, 4);
    assert(seq![first].drop_last() =~= Seq::empty());
    assert(seq![first, second].drop_last() =~= seq![first]);
    assert(seq![first, second, third].drop_last() =~= seq![first, second]);
}

/// However often a meeting was missed in a row, and whenever: it goes on while that
/// is less than the grace, and every poll that misses it counts once.
pub proof fn law_misses_are_counted(t: Track, times: Seq<u128>)
    requires
        t.detected,
        t.absent == 0,
        times.len() < LEAVE_GRACE_POLLS,
    ensures
        unseen(t, times).detected,
        unseen(t, times).absent == times.len(),
    decreases times.len(),
{
    if times.len() > 0 {
        law_misses_are_counted(t, times.drop_last());
    }
}

/// A meeting that is seen again within the grace is the same meeting: nothing
/// begins and nothing ends, and it may be missed as often as before.
pub proof fn law_reappearing_is_no_new_meeting(t: Track, now: u128)
    requires
        t.wf(),
        t.detected,
    ensures
        !change_at(t, true, now).begun,
        !change_at(t, true, now).ended,
        track_after(t, true, now) == (Track { absent: 0, ..t }),
{
}

/// The times at which a run of polls notifies about an application.
pub open spec fn notices(t: Track, polls: Seq<(bool, u128)>) -> Seq<u128>
    decreases polls.len(),
{
    if polls.len() == 0 {
        Seq::empty()
    } else {
        let (seen, now) = polls[0];
        let rest = notices(track_after(t, seen, now), polls.drop_first());
        if change_at(t, seen, now).begun {
            seq![now] + rest
        } else {
            rest
        }
    }
}

proof fn lemma_notices_after(t: Track, polls: Seq<(bool, u128)>)
    ensures
        forall|i: int|
            0 <= i < notices(t, polls).len() && t.notified_at is Some ==> (#[trigger] notices(
                t,
                polls,
            )[i]) >= t.notified_at->0 + NOTIFICATION_COOLDOWN,
        forall|i: int, j: int|
            0 <= i < j < notices(t, polls).len() ==> #[trigger] notices(t, polls)[j]
                >= #[trigger] notices(t, polls)[i] + NOTIFICATION_COOLDOWN,
    decreases polls.len(),
{
    if polls.len() > 0 {
        let (seen, now) = polls[0];
        let next = track_after(t, seen, now);
        let rest = notices(next, polls.drop_first());
        lemma_notices_after(next, polls.drop_first());
        let all = notices(t, polls);
        if change_at(t, seen, now).begun {
            assert(all =~= seq![now] + rest);
            assert forall|i: int, j: int| 0 <= i < j < all.len() implies #[trigger] all[j]
                >= #[trigger] all[i] + NOTIFICATION_COOLDOWN by {
                assert(all[j] == rest[j - 1]);
                if i > 0 {
                    assert(all[i] == rest[i - 1]);
                }
            }
            assert forall|i: int| 0 <= i < all.len() && t.notified_at is Some implies (
            #[trigger] all[i]) >= t.notified_at->0 + NOTIFICATION_COOLDOWN by {
                if i > 0 {
                    assert(all[i] == rest[i - 1]);
                }
            }
        } else {
            assert(all == rest);
        }
    }
}

/// Two notifications about one application are never less than the cooldown
/// apart, whatever the polls see and when.
pub proof fn law_notifications_keep_their_distance(
    t: Track,
    polls: Seq<(bool, u128)>,
    i: int,
    j: int,
)
    requires
        0 <= i < j < notices(t, polls).len(),
    ensures
        notices(t, polls)[j] >= notices(t, polls)[i] + NOTIFICATION_COOLDOWN,
{
    lemma_notices_after(t, polls);
}

/// How many meetings of an application ended in a run of polls.
pub open spec fn endings(t: Track, polls: Seq<(bool, u128)>) -> nat
    decreases polls.len(),
{
    if polls.len() == 0 {
        0
    } else {
        let (seen, now) = polls[0];
        endings(track_after(t, seen, now), polls.drop_first()) + if change_at(t, seen, now).ended {
            1nat
        } else {
            0nat
        }
    }
}

/// How often an application came to count as being in a meeting in a run of
/// polls, notified about or not.
pub open spec fn beginnings(t: Track, polls: Seq<(bool, u128)>) -> nat
    decreases polls.len(),
{
    if polls.len() == 0 {
        0
    } else {
        let (seen, now) = polls[0];
        beginnings(track_after(t, seen, now), polls.drop_first()) + if detected_after(t, seen)
            && !t.detected {
            1nat
        } else {
            0nat
        }
    }
}

/// The state of an application after a run of polls.
pub open spec fn followed(t: Track, polls: Seq<(bool, u128)>) -> Track
    decreases polls.len(),
{
    if polls.len() == 0 {
        t
    } else {
        followed(track_after(t, polls[0].0, polls[0].1), polls.drop_first())
    }
}

/// Every meeting that begins is reported as ended exactly once, unless it goes
/// on: beginnings and endings balance.
pub proof fn law_every_meeting_ends_once(t: Track, polls: Seq<(bool, u128)>)
    ensures
        beginnings(t, polls) + (if t.detected {
            1int
        } else {
            0int
        }) == endings(t, polls) + (if followed(t, polls).detected {
            1int
        } else {
            0int
        }),
    decreases polls.len(),
{
    if polls.len() > 0 {
        law_every_meeting_ends_once(track_after(t, polls[0].0, polls[0].1), polls.drop_first());
    }
}

proof fn lemma_followed_to_the_last(t: Track, polls: Seq<(bool, u128)>)
    requires
        polls.len() > 0,
    ensures
        followed(t, polls) == track_after(
            followed(t, polls.drop_last()),
            polls.last().0,
            polls.last().1,
        ),
    decreases polls.len(),
{
    let next = track_after(t, polls[0].0, polls[0].1);
    if polls.len() == 1 {
        assert(polls.drop_first() =~= Seq::<(bool, u128)>::empty());
        assert(polls.drop_last() =~= Seq::<(bool, u128)>::empty());
        assert(followed(next, polls.drop_first()) == next);
        assert(followed(t, polls.drop_last()) == t);
    } else {
        lemma_followed_to_the_last(next, polls.drop_first());
        assert(polls.drop_first().drop_last() =~= polls.drop_last().drop_first());
        assert(polls.drop_first().last() == polls.last());
        assert(polls.drop_last()[0] == polls[0]);
    }
}

/// When an application was last notified about, after a run of polls: at the last poll of
/// the run that notified about it, or before the run where none did.
pub open spec fn last_notice(t: Track, polls: Seq<(bool, u128)>) -> Option<u128> {
    if notices(t, polls).len() == 0 {
        t.notified_at
    } else {
        Some(notices(t, polls).last())
    }
}

/// What is remembered is the last notification, and nothing else: polls that notify about
/// nothing leave the time as it is, whatever they see and when.
pub proof fn law_the_last_notice_is_remembered(t: Track, polls: Seq<(bool, u128)>)
    ensures
        followed(t, polls).notified_at == last_notice(t, polls),
    decreases polls.len(),
{
    if polls.len() > 0 {
        let (seen, now) = polls[0];
        let next = track_after(t, seen, now);
        let rest = notices(next, polls.drop_first());
        law_the_last_notice_is_remembered(next, polls.drop_first());
        if change_at(t, seen, now).begun && rest.len() > 0 {
            assert((seq![now] + rest).last() == rest.last());
        }
    }
}

/// A meeting is notified about exactly when it is new and the last notification, if there
/// was any, is at least five minutes ago. What was polled in between does not matter.
pub proof fn law_a_new_meeting_is_announced(
    t: Track,
    polls: Seq<(bool, u128)>,
    seen: bool,
    now: u128,
)
    ensures
        change_at(followed(t, polls), seen, now).begun <==> {
            &&& seen
            &&& !followed(t, polls).detected
            &&& last_notice(t, polls) matches Some(last) ==> now >= last + 300_000_000_000
        },
{
    law_the_last_notice_is_remembered(t, polls);
}

/// How many polls at the end of a run did not see the application.
pub open spec fn misses_at_end(polls: Seq<(bool, u128)>) -> nat
    decreases polls.len(),
{
    if polls.len() == 0 || polls.last().0 {
        0
    } else {
        misses_at_end(polls.drop_last()) + 1
    }
}

proof fn lemma_misses_tell(t: Track, polls: Seq<(bool, u128)>)
    requires
        !t.detected,
    ensures
        misses_at_end(polls) <= polls.len(),
        followed(t, polls).detected <==> misses_at_end(polls) < 3 && misses_at_end(polls)
            < polls.len(),
        followed(t, polls).detected ==> followed(t, polls).absent == misses_at_end(polls),
    decreases polls.len(),
{
    if polls.len() > 0 {
        lemma_followed_to_the_last(t, polls);
        lemma_misses_tell(t, polls.drop_last());
    }
}

proof fn lemma_misses_are_unseen(polls: Seq<(bool, u128)>)
    ensures
        misses_at_end(polls) <= polls.len(),
        forall|i: int|
            polls.len() - misses_at_end(polls) <= i < polls.len() ==> !(#[trigger] polls[i]).0,
        misses_at_end(polls) < polls.len() ==> polls[polls.len() - misses_at_end(polls) - 1].0,
    decreases polls.len(),
{
    if polls.len() > 0 && !polls.last().0 {
        let less = polls.drop_last();
        lemma_misses_are_unseen(less);
        assert forall|i: int|
            polls.len() - misses_at_end(polls) <= i < polls.len() implies !(#[trigger] polls[i]).0 by {
            if i < less.len() {
                assert(less[i] == polls[i]);
            }
        }
    }
}

/// An application is in a meeting exactly when one of the last three polls saw it,
/// whenever the polls were and whatever was seen before.
pub proof fn law_a_meeting_lasts_while_it_is_seen(t: Track, polls: Seq<(bool, u128)>)
    requires
        !t.detected,
    ensures
        followed(t, polls).detected <==> exists|i: int|
            0 <= i < polls.len() && polls.len() - 3 <= i && (#[trigger] polls[i]).0,
{
    lemma_misses_tell(t, polls);
    lemma_misses_are_unseen(polls);
    if followed(t, polls).detected {
        let i = polls.len() - misses_at_end(polls) - 1;
        assert(polls[i].0);
    }
}

/// An ending is reported exactly when an application leaves its meeting, and no poll that
/// sees it ends anything. While there is no meeting, a poll that sees nothing changes
/// nothing.
pub proof fn law_an_ending_is_a_meeting_left(t: Track, seen: bool, now: u128)
    requires
        t.wf(),
    ensures
        change_at(t, seen, now).ended <==> t.detected && !track_after(t, seen, now).detected,
        seen ==> track_after(t, seen, now).detected && track_after(t, seen, now).absent == 0,
        !seen && !t.detected ==> track_after(t, seen, now) == t,
        change_at(t, seen, now).ended ==> t.absent == 2 && !seen,
        t.detected && t.absent == 2 && !seen ==> change_at(t, seen, now).ended,
{
}

/// An application that uses the microphone is found wherever the record shows it: as any
/// member of the group of the applications that are not packaged, wherever in the group
/// and in whatever case its name holds the fragment.
pub proof fn law_any_member_holds_the_microphone(
    store: Seq<ConsentEntry>,
    i: int,
    j: int,
    fragment: Seq<char>,
    before: Seq<char>,
    part: Seq<char>,
    behind: Seq<char>,
)
    requires
        0 <= i < store.len(),
        0 <= j < store[i].members@.len(),
        ascii_lower(store[i].entry.name@) == ascii_lower("NonPackaged"@),
        store[i].members@[j].name@ == before + part + behind,
        ascii_lower(part) == ascii_lower(fragment),
        store[i].members@[j].last_used_stop == Some(0u64),
    ensures
        mic_held_by(store, fragment),
{
    law_lower_case_finds_any_case(before, part, behind, fragment);
    assert(in_use_by(store[i].members@[j], ascii_lower(fragment)));
    assert(entry_in_use_by(store[i], ascii_lower(fragment)));
}

/// A packaged application that uses the microphone is found wherever the record shows it,
/// in whatever case its name holds the fragment.
pub proof fn law_any_package_holds_the_microphone(
    store: Seq<ConsentEntry>,
    i: int,
    fragment: Seq<char>,
    before: Seq<char>,
    part: Seq<char>,
    behind: Seq<char>,
)
    requires
        0 <= i < store.len(),
        ascii_lower(store[i].entry.name@) != ascii_lower("NonPackaged"@),
        store[i].entry.name@ == before + part + behind,
        ascii_lower(part) == ascii_lower(fragment),
        store[i].entry.last_used_stop == Some(0u64),
    ensures
        mic_held_by(store, fragment),
{
    law_lower_case_finds_any_case(before, part, behind, fragment);
    assert(entry_in_use_by(store[i], ascii_lower(fragment)));
}

/// Whether one of the uses of a list goes on, by an application whose name holds the
/// fragment in any ASCII case.
pub open spec fn goes_on_in(uses: Seq<MicUse>, fragment: Seq<char>) -> bool {
    exists|u: MicUse| #[trigger]
        uses.contains(u) && u.last_used_stop == Some(0u64) && occurs(
            ascii_lower(u.name@),
            ascii_lower(fragment),
        )
}

/// Of a group its members are asked and nothing else, of a packaged application itself and
/// nothing else: the answer is whether a use among those goes on. So it does not depend on
/// the order of the members.
pub proof fn law_an_entry_answers_for_its_uses(e: ConsentEntry, fragment: Seq<char>)
    ensures
        ascii_lower(e.entry.name@) == ascii_lower("NonPackaged"@) ==> entry_in_use_by(
            e,
            ascii_lower(fragment),
        ) == goes_on_in(e.members@, fragment),
        ascii_lower(e.entry.name@) != ascii_lower("NonPackaged"@) ==> entry_in_use_by(
            e,
            ascii_lower(fragment),
        ) == goes_on_in(seq![e.entry], fragment),
{
    let needle = ascii_lower(fragment);
    if is_group(e) {
        if entry_in_use_by(e, needle) {
            let j = choose|j: int|
                0 <= j < e.members@.len() && in_use_by(#[trigger] e.members@[j], needle);
            assert(e.members@.contains(e.members@[j]));
        }
        if goes_on_in(e.members@, fragment) {
            let u = choose|u: MicUse| #[trigger]
                e.members@.contains(u) && u.last_used_stop == Some(0u64) && occurs(
                    ascii_lower(u.name@),
                    needle,
                );
            let j = choose|j: int| 0 <= j < e.members@.len() && e.members@[j] == u;
            assert(in_use_by(e.members@[j], needle));
        }
    } else {
        assert(seq![e.entry][0] == e.entry);
        assert(seq![e.entry].contains(e.entry));
    }
}

/// Groups with the same members answer alike, in whatever order the members stand.
pub proof fn law_the_order_of_members_does_not_matter(
    a: ConsentEntry,
    b: ConsentEntry,
    fragment: Seq<char>,
)
    requires
        ascii_lower(a.entry.name@) == ascii_lower("NonPackaged"@),
        ascii_lower(b.entry.name@) == ascii_lower("NonPackaged"@),
        forall|u: MicUse| a.members@.contains(u) <==> #[trigger] b.members@.contains(u),
    ensures
        entry_in_use_by(a, ascii_lower(fragment)) == entry_in_use_by(b, ascii_lower(fragment)),
{
    law_an_entry_answers_for_its_uses(a, fragment);
    law_an_entry_answers_for_its_uses(b, fragment);
    if goes_on_in(a.members@, fragment) {
        let u = choose|u: MicUse| #[trigger]
            a.members@.contains(u) && u.last_used_stop == Some(0u64) && occurs(
                ascii_lower(u.name@),
                ascii_lower(fragment),
            );
        assert(b.members@.contains(u));
    }
}

/// A record in two parts shows the microphone in use exactly where one of the parts does.
pub proof fn law_a_record_is_read_to_its_end(
    a: Seq<ConsentEntry>,
    b: Seq<ConsentEntry>,
    fragment: Seq<char>,
)
    ensures
        mic_held_by(a + b, fragment) == (mic_held_by(a, fragment) || mic_held_by(b, fragment)),
        !mic_held_by(Seq::empty(), fragment),
        forall|e: ConsentEntry|
            mic_held_by(seq![e], fragment) == #[trigger] entry_in_use_by(e, ascii_lower(fragment)),
{
    let needle = ascii_lower(fragment);
    if mic_held_by(a + b, fragment) {
        let i = choose|i: int| 0 <= i < (a + b).len() && entry_in_use_by(
            #[trigger] (a + b)[i],
            needle,
        );
        if i < a.len() {
            assert(entry_in_use_by(a[i], needle));
        } else {
            assert(entry_in_use_by(b[i - a.len()], needle));
        }
    }
    if mic_held_by(a, fragment) {
        let i = choose|i: int| 0 <= i < a.len() && entry_in_use_by(#[trigger] a[i], needle);
        assert(entry_in_use_by((a + b)[i], needle));
    }
    if mic_held_by(b, fragment) {
        let i = choose|i: int| 0 <= i < b.len() && entry_in_use_by(#[trigger] b[i], needle);
        assert(entry_in_use_by((a + b)[a.len() + i], needle));
    }
    assert forall|e: ConsentEntry| mic_held_by(seq![e], fragment) == #[trigger] entry_in_use_by(
        e,
        needle,
    ) by {
        assert(seq![e][0] == e);
    }
}

/// A process is Microsoft Teams by either of its names, and where any of its arguments
/// holds the full name.
pub proof fn law_teams_is_known_by_name_or_argument(
    p: ProcessInfo,
    i: int,
    before: Seq<char>,
    behind: Seq<char>,
)
    requires
        p.name@ == "MSTeams"@ || p.name@ == "Teams"@ || (0 <= i < p.cmd@.len() && p.cmd@[i]@
            == before + "Microsoft Teams"@ + behind),
    ensures
        is_teams(p),
{
    if p.name@ != "MSTeams"@ && p.name@ != "Teams"@ {
        law_occurs_between(before, "Microsoft Teams"@, behind);
        assert(texts(p.cmd@)[i] == p.cmd@[i]@);
        lemma_occurs_in_joined(texts(p.cmd@), i, " "@, "Microsoft Teams"@);
    }
}

/// A process with another name is Microsoft Teams only where its command line, with a
/// space between each two arguments, holds the full name.
pub proof fn law_other_processes_are_not_teams(p: ProcessInfo)
    requires
        p.name@ != "MSTeams"@,
        p.name@ != "Teams"@,
    ensures
        is_teams(p) <==> occurs(joined(texts(p.cmd@), seq![' ']), "Microsoft Teams"@),
{
    reveal_strlit(" ");
    assert(" "@ =~= seq![' ']);
}

/// Microsoft Teams runs exactly where one of the processes is it, wherever it stands, and
/// a number is one of its own exactly where such a process has it.
pub proof fn law_processes_are_read_to_the_end(
    a: Seq<ProcessInfo>,
    b: Seq<ProcessInfo>,
    pid: u32,
)
    ensures
        teams_running(a + b) == (teams_running(a) || teams_running(b)),
        teams_pid(a + b, pid) == (teams_pid(a, pid) || teams_pid(b, pid)),
        !teams_running(Seq::empty()) && !teams_pid(Seq::empty(), pid),
        forall|p: ProcessInfo| teams_running(seq![p]) == #[trigger] is_teams(p),
        forall|p: ProcessInfo| teams_pid(seq![p], pid) == (#[trigger] is_teams(p) && p.pid == pid),
{
    let all = a + b;
    if teams_running(all) {
        let i = choose|i: int| 0 <= i < all.len() && is_teams(#[trigger] all[i]);
        if i < a.len() {
            assert(is_teams(a[i]));
        } else {
            assert(is_teams(b[i - a.len()]));
        }
    }
    if teams_pid(all, pid) {
        let i = choose|i: int|
            0 <= i < all.len() && is_teams(#[trigger] all[i]) && all[i].pid == pid;
        if i < a.len() {
            assert(is_teams(a[i]) && a[i].pid == pid);
        } else {
            assert(is_teams(b[i - a.len()]) && b[i - a.len()].pid == pid);
        }
    }
    assert forall|i: int| 0 <= i < a.len() implies (#[trigger] a[i]) == all[i] by {}
    assert forall|i: int| 0 <= i < b.len() implies (#[trigger] b[i]) == all[a.len() + i] by {}
    assert forall|p: ProcessInfo| teams_running(seq![p]) == #[trigger] is_teams(p) by {
        assert(seq![p][0] == p);
    }
    assert forall|p: ProcessInfo| teams_pid(seq![p], pid) == (#[trigger] is_teams(p) && p.pid
        == pid) by {
        assert(seq![p][0] == p);
    }
}

/// Which windows Microsoft Teams shows for a meeting: those it owns, by one of its names or
/// one that begins with the short one, with a word for a meeting in the title.
pub proof fn law_meeting_windows_are_known(
    w: OwnedWindow,
    more: Seq<char>,
    before: Seq<char>,
    behind: Seq<char>,
)
    ensures
        ({
            let owned = w.owner@ == "Microsoft Teams"@ || w.owner@ == "MSTeams"@ || w.owner@
                == "Teams"@ + more;
            let titled = w.title@ == before + "Meeting"@ + behind || w.title@ == before + "Call"@
                + behind || w.title@ == before + "| Microsoft Teams"@ + behind;
            &&& owned && titled ==> is_teams_meeting_window(w)
        }),
        is_teams_meeting_window(w) ==> w.owner@ == "Microsoft Teams"@ || w.owner@ == "MSTeams"@
            || begins(w.owner@, "Teams"@),
        is_teams_meeting_window(w) ==> occurs(w.title@, "Meeting"@) || occurs(w.title@, "Call"@)
            || occurs(w.title@, "| Microsoft Teams"@),
{
    law_occurs_between(before, "Meeting"@, behind);
    law_occurs_between(before, "Call"@, behind);
    law_occurs_between(before, "| Microsoft Teams"@, behind);
    law_occurs_between(Seq::empty(), "Teams"@, more);
}

proof fn lemma_title_from(windows: Seq<OwnedWindow>, i: int, k: int)
    requires
        0 <= i <= k <= windows.len(),
        forall|m: int| i <= m < k ==> !is_teams_meeting_window(#[trigger] windows[m]),
    ensures
        teams_title_from(windows, i) == teams_title_from(windows, k),
    decreases k - i,
{
    if i < k {
        assert(!is_teams_meeting_window(windows[i]));
        lemma_title_from(windows, i + 1, k);
    }
}

/// The first window that Microsoft Teams shows for a meeting tells the title, whatever
/// stands behind it, and where there is none there is no title.
pub proof fn law_the_first_meeting_window_tells(windows: Seq<OwnedWindow>, k: int)
    requires
        0 <= k <= windows.len(),
        forall|m: int| 0 <= m < k ==> !is_teams_meeting_window(#[trigger] windows[m]),
        k < windows.len() ==> is_teams_meeting_window(windows[k]),
    ensures
        teams_title_from(windows, 0) == if k < windows.len() {
            Some(windows[k].title@)
        } else {
            None
        },
{
    lemma_title_from(windows, 0, k);
}

/// Whether a window of the desktop names a meeting of Microsoft Teams: it is visible, one
/// of the processes of Microsoft Teams owns it, and its title names a meeting.
pub open spec fn tells_a_meeting(processes: Seq<ProcessInfo>, w: DesktopWindow) -> bool {
    &&& w.visible
    &&& exists|p: ProcessInfo| #[trigger] processes.contains(p) && is_teams(p) && p.pid == w.pid
    &&& names_a_meeting(w.title@)
}

proof fn lemma_tells_a_meeting(processes: Seq<ProcessInfo>, w: DesktopWindow)
    ensures
        tells_a_meeting(processes, w) <==> w.visible && teams_pid(processes, w.pid)
            && names_a_meeting(w.title@),
{
    if teams_pid(processes, w.pid) {
        let i = choose|i: int|
            0 <= i < processes.len() && is_teams(#[trigger] processes[i]) && processes[i].pid
                == w.pid;
        assert(processes.contains(processes[i]));
    }
    if tells_a_meeting(processes, w) {
        let p = choose|p: ProcessInfo| #[trigger]
            processes.contains(p) && is_teams(p) && p.pid == w.pid;
        let i = choose|i: int| 0 <= i < processes.len() && processes[i] == p;
        assert(is_teams(processes[i]));
    }
}

proof fn lemma_named_from(
    processes: Seq<ProcessInfo>,
    windows: Seq<DesktopWindow>,
    i: int,
    k: int,
)
    requires
        0 <= i <= k <= windows.len(),
        forall|m: int| i <= m < k ==> !tells_a_meeting(processes, #[trigger] windows[m]),
    ensures
        meeting_named_from(processes, windows, i) == meeting_named_from(processes, windows, k),
    decreases k - i,
{
    if i < k {
        lemma_tells_a_meeting(processes, windows[i]);
        assert(!tells_a_meeting(processes, windows[i]));
        lemma_named_from(processes, windows, i + 1, k);
    }
}

/// The first visible window of Microsoft Teams that names a meeting tells its name,
/// whatever stands behind it, and where there is none there is no name.
pub proof fn law_the_first_named_window_tells(
    processes: Seq<ProcessInfo>,
    windows: Seq<DesktopWindow>,
    k: int,
)
    requires
        0 <= k <= windows.len(),
        forall|m: int| 0 <= m < k ==> !tells_a_meeting(processes, #[trigger] windows[m]),
        k < windows.len() ==> tells_a_meeting(processes, windows[k]),
    ensures
        meeting_named_from(processes, windows, 0) == if k < windows.len() {
            Some(meeting_name(windows[k].title@))
        } else {
            None
        },
{
    lemma_named_from(processes, windows, 0, k);
    if k < windows.len() {
        lemma_tells_a_meeting(processes, windows[k]);
    }
}

/// A report names each application for which it holds once, Zoom before Microsoft Teams,
/// and no other.
pub proof fn law_a_report_names_each_application(zoom: bool, teams: bool)
    ensures
        ({
            let names = apps_where(zoom, teams);
            &&& names.contains("Zoom"@) <==> zoom
            &&& names.contains("Microsoft Teams"@) <==> teams
            &&& names.len() == (if zoom {
                1int
            } else {
                0
            }) + (if teams {
                1int
            } else {
                0
            })
            &&& zoom ==> names[0] == "Zoom"@
            &&& teams ==> names.last() == "Microsoft Teams"@
        }),
{
    reveal_strlit("Zoom");
    reveal_strlit("Microsoft Teams");
    assert("Zoom"@.len() != "Microsoft Teams"@.len());
    let names = apps_where(zoom, teams);
    if zoom {
        assert(names[0] == "Zoom"@);
    }
    if teams {
        assert(names[names.len() - 1] == "Microsoft Teams"@);
    }
}

/// A recording is called by the title of its meeting with the application in brackets
/// behind it, and by the application alone where there is no title.
pub proof fn law_a_recording_is_called_by_its_title(app: Seq<char>, title: Seq<char>)
    ensures
        recording_label(app, Some(title)) == title + seq![' ', '('] + app + seq![')'],
        recording_label(app, None) == app,
        recording_party(None) is None,
        recording_party(Some(title)) == other_party(title),
{
    reveal_strlit(" (");
    reveal_strlit(")");
    assert(" ("@ =~= seq![' ', '(']);
    assert(")"@ =~= seq![')']);
}

/// Zoom is in a meeting exactly where the process that runs only during one is among the
/// processes, wherever it stands.
pub proof fn law_zoom_shows_in_a_process(processes: &Vec<ProcessInfo>, i: int, r: bool)
    requires
        call_ensures(is_zoom_in_meeting, (processes,), r),
    ensures
        0 <= i < processes@.len() && processes@[i].name@ == "CptHost"@ ==> r,
        r ==> exists|j: int|
            0 <= j < processes@.len() && (#[trigger] processes@[j]).name@ == "CptHost"@,
{
    assert(r == is_running(processes@, "CptHost"@));
}

/// The microphone counts as used by another only while this program does not record, a
/// default device is known, and the device says that it runs.
pub proof fn law_the_device_tells_who_listens(
    recording: bool,
    device: PropertyReply,
    running: PropertyReply,
    r: bool,
    known: Option<u32>,
)
    requires
        call_ensures(is_external_mic_active, (recording, device, running), r),
        call_ensures(input_device, (device,), known),
    ensures
        recording ==> !r,
        known is None ==> !r,
        known matches Some(id) ==> id == device.value && id != 0 && device.status == 0,
        running.status != 0 || running.value == 0 ==> !r,
        !recording && known is Some && running.status == 0 && running.value != 0 ==> r,
        known is None ==> device.status != 0 || device.value == 0,
{
}

/// A meeting that begins is recorded exactly where that was chosen, under the name that its
/// title gives it, and the user is told otherwise.
pub proof fn law_a_meeting_is_recorded_where_chosen(
    app: &str,
    auto_capture: bool,
    title: &Option<String>,
    r: MeetingAction,
)
    requires
        call_ensures(on_meeting_begun, (app, auto_capture, title), r),
    ensures
        r is Record <==> auto_capture,
        r matches MeetingAction::Record { label, other_party: party } ==> {
            &&& *title is None ==> label@ == app@ && party is None
            &&& *title matches Some(t) ==> label@ == t@ + seq![' ', '('] + app@ + seq![')']
                && text_in(party) == other_party(t@)
        },
{
    match *title {
        Some(t) => {
            law_a_recording_is_called_by_its_title(app@, t@);
        },
        None => {},
    }
}

/// The applications are followed each on its own: what a poll reports of one does not
/// depend on the other. A meeting that left is always reported as ended.
pub proof fn law_applications_do_not_disturb_each_other(
    d: MeetingDetector,
    zoom_seen: bool,
    teams_seen: bool,
    now: u128,
)
    requires
        d.wf(),
    ensures
        ({
            let (begun, ended) = reported(d, zoom_seen, teams_seen, now);
            let zoom = track_after(d.zoom, zoom_seen, now);
            let teams = track_after(d.teams, teams_seen, now);
            &&& begun.contains("Zoom"@) <==> change_at(d.zoom, zoom_seen, now).begun
            &&& begun.contains("Microsoft Teams"@) <==> change_at(d.teams, teams_seen, now).begun
            &&& ended.contains("Zoom"@) <==> d.zoom.detected && !zoom.detected
            &&& ended.contains("Microsoft Teams"@) <==> d.teams.detected && !teams.detected
        }),
{
    let z = change_at(d.zoom, zoom_seen, now);
    let t = change_at(d.teams, teams_seen, now);
    law_a_report_names_each_application(z.begun, t.begun);
    law_a_report_names_each_application(z.ended, t.ended);
    law_an_ending_is_a_meeting_left(d.zoom, zoom_seen, now);
    law_an_ending_is_a_meeting_left(d.teams, teams_seen, now);
}

/// Microsoft Teams is in a meeting while it runs and the microphone is used, and not where
/// either is missing.
pub proof fn law_teams_needs_the_microphone(
    mic_in_use: bool,
    processes: &Vec<ProcessInfo>,
    running: bool,
    r: bool,
)
    requires
        call_ensures(is_teams_in_meeting, (mic_in_use, processes), r),
        call_ensures(is_teams_running, (processes,), running),
    ensures
        r == (mic_in_use && running),
        running == teams_running(processes@),
{
}

/// How often the machine is looked at: ten seconds after the start, every twelve seconds,
/// and every two while detection is switched off.
pub proof fn law_polls_keep_their_pace(enabled: bool, r: u64)
    requires
        call_ensures(seconds_until_next, (enabled,), r),
    ensures
        enabled ==> r == 12,
        !enabled ==> r == 2,
        STARTUP_SECONDS == 10,
{
}

/// The number that four characters make, the first in front.
pub open spec fn four_characters(a: char, b: char, c: char, d: char) -> int {
    ((a as int * 256 + b as int) * 256 + c as int) * 256 + d as int
}

/// Properties of audio objects are named by four characters.
pub proof fn law_properties_are_named_by_four_characters(
    input: AudioObjectPropertyAddress,
    running: AudioObjectPropertyAddress,
)
    requires
        call_ensures(default_input_address, (), input),
        call_ensures(running_somewhere_address, (), running),
    ensures
        input.m_selector == four_characters('d', 'I', 'n', ' '),
        running.m_selector == four_characters('g', 'o', 'n', 'e'),
        input.m_scope == four_characters('g', 'l', 'o', 'b'),
        running.m_scope == input.m_scope,
        input.m_element == 0 && running.m_element == 0,
        K_AUDIO_OBJECT_SYSTEM_OBJECT == 1,
{
}

} // verus!
