//! The application's state and what events do to it: one header, two modes,
//! one shared listening session whose messages are routed into the mode that
//! they belong to, and the contacts heard from.
//!
//! `S` is a sample, `R` a preparation in the background, `H` a running
//! playback, `K` a keyed PTT port, `X` a running reception, `D` a decode in the
//! background, `F` a fetch in the background and `T` an image ready to be
//! drawn.

use vstd::prelude::*;
use crate::board;
use crate::board::{is_fetched, media_for, wants_fetch, FeedPost, FeedState};
use crate::device::{first_device, first_name, DeviceInfo, DeviceLists};
use crate::error::{error_text, AudioIoError};
use crate::listen::ListenState;
use crate::maidenhead::{center_of, is_valid_locator};
use crate::mail;
use crate::mail::{pushed, InboxItem, InboxState};
use crate::map::{Contact, ContactVia};
use crate::pipeline::ReceivedPayload;
use crate::send::{is_engaged, SendPhase};
use crate::settings::Identity;
use crate::text::{
    blank, copy_of, eq_ignore_ascii_case, is_blank, said, same_but_for_case, same_text,
    white_space,
};
use crate::waterfall::WaterfallWindow;

verus! {

#[derive(Clone, Copy, Debug, PartialEq, Eq, Structural)]
pub enum Mode {
    Mail,
    Social,
}

/// The modes, in the order in which they are offered.
pub const MODES: [Mode; 2] = [Mode::Mail, Mode::Social];

impl Mode {
    pub fn label(&self) -> (text: &'static str)
        ensures
            text@ == (match *self {
                Mode::Mail => "Mail"@,
                Mode::Social => "Social"@,
            }),
    {
        match self {
            Mode::Mail => "Mail",
            Mode::Social => "Social",
        }
    }
}

pub struct PocComApp<S, R, H, K, X, D, F, T> {
    pub input_devices: Vec<DeviceInfo>,
    pub output_devices: Vec<DeviceInfo>,
    pub selected_input: Option<String>,
    pub selected_output: Option<String>,
    pub device_error: Option<String>,
    pub mode: Mode,
    pub mail_compose: mail::ComposeState<S, R, H, K>,
    pub mail_feed: InboxState,
    pub social_compose: board::ComposeState<S, R, H, K>,
    pub social_feed: FeedState<F, T>,
    /// One listening session, shared by both modes.
    pub listen: ListenState<X, D, S>,
    pub waterfall: WaterfallWindow,
    pub dark_mode: bool,
    pub identity: Identity,
    pub settings_open: bool,
    pub ptt_ports: Vec<String>,
    /// Keyed while the settings' manual test is on.
    pub ptt_test: Option<K>,
    pub ptt_test_error: Option<String>,
    pub map_window_open: bool,
    /// Every distinct locator that a transmission was received from.
    pub contacts: Vec<Contact>,
}

// ---------------------------------------------------------------------
// Contacts
// ---------------------------------------------------------------------

/// The first of the contacts at a locator, whatever its case.
pub open spec fn place_of(contacts: Seq<Contact>, locator: Seq<char>) -> Option<int>
    decreases contacts.len(),
{
    if contacts.len() == 0 {
        None
    } else {
        match place_of(contacts.drop_last(), locator) {
            Some(i) => Some(i),
            None => if same_but_for_case(contacts.last().locator@, locator) {
                Some(contacts.len() - 1)
            } else {
                None
            },
        }
    }
}

/// The name that a contact goes by.
pub open spec fn contact_name(label: Seq<char>) -> Seq<char> {
    if blank(label) {
        "(unknown)"@
    } else {
        label
    }
}

/// Whether a contact says that someone was heard.
pub open spec fn heard(c: Contact, label: Seq<char>, via: ContactVia, now: u64) -> bool {
    &&& c.label@ == contact_name(label)
    &&& c.last_heard == now
    &&& c.via == via
}

/// What hearing from somewhere does to the contacts: nothing where it is no
/// valid locator, else the contact there is refreshed, or a new one added.
pub open spec fn recorded(
    before: Seq<Contact>,
    label: Seq<char>,
    locator: Seq<char>,
    via: ContactVia,
    now: u64,
    after: Seq<Contact>,
) -> bool {
    if center_of(locator) is None {
        after == before
    } else {
        match place_of(before, locator) {
            Some(i) => {
                &&& after == before.update(i, after[i])
                &&& after[i].locator == before[i].locator
                &&& heard(after[i], label, via, now)
            },
            None => {
                &&& after == before.push(after.last())
                &&& after.len() > 0
                &&& after.last().locator@ == locator
                &&& heard(after.last(), label, via, now)
            },
        }
    }
}

proof fn place_is_first(contacts: Seq<Contact>, locator: Seq<char>)
    ensures
        match place_of(contacts, locator) {
            Some(i) => {
                &&& 0 <= i < contacts.len()
                &&& same_but_for_case(contacts[i].locator@, locator)
                &&& forall|j: int|
                    0 <= j < i ==> !same_but_for_case((#[trigger] contacts[j]).locator@, locator)
            },
            None => forall|j: int|
                0 <= j < contacts.len() ==> !same_but_for_case(
                    (#[trigger] contacts[j]).locator@,
                    locator,
                ),
        },
    decreases contacts.len(),
{
    if contacts.len() > 0 {
        let rest = contacts.drop_last();
        place_is_first(rest, locator);
        assert forall|j: int| 0 <= j < rest.len() implies rest[j] == #[trigger] contacts[j] by {}
        match place_of(rest, locator) {
            Some(i) => {
                assert(rest[i] == contacts[i]);
            },
            None => {},
        }
    }
}

fn find_place(contacts: &Vec<Contact>, locator: &str) -> (place: Option<usize>)
    ensures
        match place {
            Some(i) => i < contacts@.len() && place_of(contacts@, locator@) == Some(i as int),
            None => place_of(contacts@, locator@) is None,
        },
{
    proof {
        place_is_first(contacts@, locator@);
    }
    for i in 0..contacts.len()
        invariant
            forall|j: int|
                0 <= j < i ==> !same_but_for_case((#[trigger] contacts@[j]).locator@, locator@),
            match place_of(contacts@, locator@) {
                Some(i) => {
                    &&& 0 <= i < contacts@.len()
                    &&& same_but_for_case(contacts@[i].locator@, locator@)
                    &&& forall|j: int|
                        0 <= j < i ==> !same_but_for_case(
                            (#[trigger] contacts@[j]).locator@,
                            locator@,
                        )
                },
                None => forall|j: int|
                    0 <= j < contacts@.len() ==> !same_but_for_case(
                        (#[trigger] contacts@[j]).locator@,
                        locator@,
                    ),
            },
    {
        if eq_ignore_ascii_case(&contacts[i].locator, locator) {
            assert(same_but_for_case(contacts@[i as int].locator@, locator@));
            return Some(i);
        }
    }
    None
}

/// Records, or refreshes, a contact for the map, so that hearing from the same
/// square again does not grow the list.
pub fn record_contact(
    contacts: &mut Vec<Contact>,
    label: &str,
    locator: &str,
    via: ContactVia,
    now: u64,
)
    ensures
        recorded(old(contacts)@, label@, locator@, via, now, final(contacts)@),
{
    if !is_valid_locator(locator) {
        return;
    }
    let name = if is_blank(label) {
        copy_of("(unknown)")
    } else {
        copy_of(label)
    };
    match find_place(contacts, locator) {
        Some(i) => {
            contacts[i].label = name;
            contacts[i].last_heard = now;
            contacts[i].via = via;
            assert(contacts@ == old(contacts)@.update(i as int, contacts@[i as int]));
        },
        None => {
            contacts.push(Contact { locator: copy_of(locator), label: name, last_heard: now, via });
            assert(contacts@ == old(contacts)@.push(contacts@.last()));
        },
    }
}

/// Whether no two contacts are at the same locator and every one is at a valid
/// one.
pub open spec fn distinct_contacts(contacts: Seq<Contact>) -> bool {
    &&& forall|i: int, j: int|
        0 <= i < j < contacts.len() ==> !same_but_for_case(
            (#[trigger] contacts[i]).locator@,
            (#[trigger] contacts[j]).locator@,
        )
    &&& forall|i: int| 0 <= i < contacts.len() ==> center_of((#[trigger] contacts[i]).locator@) is Some
}

/// However often a locator is heard from, there is one contact for it, whatever
/// the case of its letters. White space around a locator makes it another one.
pub proof fn contacts_stay_distinct(
    before: Seq<Contact>,
    label: Seq<char>,
    locator: Seq<char>,
    via: ContactVia,
    now: u64,
    after: Seq<Contact>,
)
    requires
        distinct_contacts(before),
        recorded(before, label, locator, via, now, after),
    ensures
        distinct_contacts(after),
        after.len() <= before.len() + 1,
        center_of(locator) is Some ==> exists|i: int|
            0 <= i < after.len() && same_but_for_case(
                (#[trigger] after[i]).locator@,
                locator,
            ) && heard(after[i], label, via, now),
{
    if center_of(locator) is Some {
        place_is_first(before, locator);
        match place_of(before, locator) {
            Some(k) => {
                assert forall|i: int| 0 <= i < after.len() implies (#[trigger] after[i]).locator
                    == before[i].locator by {}
                assert forall|i: int, j: int| 0 <= i < j < after.len() implies !same_but_for_case(
                    (#[trigger] after[i]).locator@,
                    (#[trigger] after[j]).locator@,
                ) by {
                    assert(!same_but_for_case(before[i].locator@, before[j].locator@));
                }
                assert forall|i: int| 0 <= i < after.len() implies center_of(
                    (#[trigger] after[i]).locator@,
                ) is Some by {
                    assert(center_of(before[i].locator@) is Some);
                }
                assert(same_but_for_case(after[k].locator@, locator));
            },
            None => {
                let n = before.len() as int;
                assert forall|i: int| 0 <= i < n implies #[trigger] after[i] == before[i] by {}
                assert(after[n] == after.last());
                assert forall|i: int, j: int| 0 <= i < j < after.len() implies !same_but_for_case(
                    (#[trigger] after[i]).locator@,
                    (#[trigger] after[j]).locator@,
                ) by {
                    if j < n {
                        assert(!same_but_for_case(before[i].locator@, before[j].locator@));
                    } else {
                        assert(!same_but_for_case(before[i].locator@, locator));
                    }
                }
                assert forall|i: int| 0 <= i < after.len() implies center_of(
                    (#[trigger] after[i]).locator@,
                ) is Some by {
                    if i < n {
                        assert(center_of(before[i].locator@) is Some);
                    }
                }
                assert(same_but_for_case(after[n].locator@, locator));
            },
        }
    }
}

// ---------------------------------------------------------------------
// Events
// ---------------------------------------------------------------------

/// Whether the image of a decoded post has to be fetched.
pub fn payload_wants_fetch(payload: &ReceivedPayload) -> (yes: bool)
    ensures
        yes == (payload matches ReceivedPayload::Social(social) && is_fetched(
            said(social.media_url),
        )),
{
    match payload {
        ReceivedPayload::Mail(_) => false,
        ReceivedPayload::Social(social) => wants_fetch(&social.media_url),
    }
}

/// What of the settings is compared with what it was before.
pub struct SettingsBefore {
    pub display_name: String,
    pub home_grid: Option<String>,
    pub ptt_port: Option<String>,
    pub ptt_baud: u32,
}

/// What the button of the manual PTT test asks for.
pub enum TestAction {
    /// Key this port, at this baud rate.
    Key { port: String, baud: u32 },
    /// Nothing: the port has been released, or there is none.
    Settled,
}

fn copy_option(text: &Option<String>) -> (copy: Option<String>)
    ensures
        said(copy) == said(*text),
{
    match text {
        Some(t) => Some(copy_of(t)),
        None => None,
    }
}

fn same_option(a: &Option<String>, b: &Option<String>) -> (same: bool)
    ensures
        same == (said(*a) == said(*b)),
{
    match (a, b) {
        (Some(x), Some(y)) => same_text(x, y),
        (None, None) => true,
        _ => false,
    }
}

impl<S: Copy, R, H, K, X, D, F, T> PocComApp<S, R, H, K, X, D, F, T> {
    pub open spec fn wf(&self) -> bool {
        self.mail_feed.wf() && distinct_contacts(self.contacts@)
    }

    /// The state to start with: Mail mode, the first device of each kind, the
    /// saved identity, and nothing under way.
    pub fn new(lists: DeviceLists, identity: Identity, ptt_ports: Vec<String>, now: u64) -> (app:
        Self)
        ensures
            app.wf(),
            app.input_devices == lists.inputs,
            app.output_devices == lists.outputs,
            said(app.selected_input) == first_name(lists.inputs@),
            said(app.selected_output) == first_name(lists.outputs@),
            app.device_error == lists.error,
            app.mode == Mode::Mail,
            app.mail_compose.to@ == Seq::<char>::empty(),
            app.mail_compose.subject@ == Seq::<char>::empty(),
            app.mail_compose.message@ == Seq::<char>::empty(),
            app.mail_compose.send.phase is Idle,
            app.mail_compose.send.cached_wave is None,
            app.mail_compose.send.ptt_warning is None,
            app.mail_feed.items@ == Seq::<InboxItem>::empty(),
            app.mail_feed.reading is None,
            app.mail_feed.checked@ == Seq::<bool>::empty(),
            !app.mail_feed.filter_to_enabled,
            app.mail_feed.filter_to@ == Seq::<char>::empty(),
            !app.mail_feed.filter_from_enabled,
            app.mail_feed.filter_from@ == Seq::<char>::empty(),
            !app.mail_feed.just_received,
            app.social_compose.post@ == Seq::<char>::empty(),
            app.social_compose.attachment is None,
            app.social_compose.attachment_warning is None,
            app.social_compose.send.phase is Idle,
            app.social_compose.send.cached_wave is None,
            app.social_compose.send.ptt_warning is None,
            app.social_feed.posts@ == Seq::<FeedPost<F, T>>::empty(),
            !app.social_feed.just_received,
            app.listen.phase is Idle,
            app.listen.pending@ == Seq::<D>::empty(),
            app.listen.error is None,
            app.listen.last_raw_capture is None,
            !app.waterfall.open,
            app.waterfall.last_feed == now,
            !app.dark_mode,
            app.identity == identity,
            !app.settings_open,
            app.ptt_ports == ptt_ports,
            app.ptt_test is None,
            app.ptt_test_error is None,
            !app.map_window_open,
            app.contacts@ == Seq::<Contact>::empty(),
    {
        let selected_input = first_device(&lists.inputs);
        let selected_output = first_device(&lists.outputs);
        PocComApp {
            input_devices: lists.inputs,
            output_devices: lists.outputs,
            selected_input,
            selected_output,
            device_error: lists.error,
            mode: Mode::Mail,
            mail_compose: mail::ComposeState::new(),
            mail_feed: InboxState::default(),
            social_compose: board::ComposeState::new(),
            social_feed: FeedState::new(),
            listen: ListenState::new(),
            waterfall: WaterfallWindow::new(now),
            dark_mode: false,
            identity,
            settings_open: false,
            ptt_ports,
            ptt_test: None,
            ptt_test_error: None,
            map_window_open: false,
            contacts: Vec::new(),
        }
    }

    /// The phase of the current mode.
    pub open spec fn current_phase(&self) -> SendPhase<S, R, H, K> {
        match self.mode {
            Mode::Mail => self.mail_compose.send.phase,
            Mode::Social => self.social_compose.send.phase,
        }
    }

    /// Whether PTT is engaged in the current mode, which switching modes must
    /// not interrupt. Listening is not tied to a mode, so there is nothing to
    /// interrupt there.
    pub fn current_mode_is_transmitting(&self) -> (yes: bool)
        ensures
            yes == is_engaged(self.current_phase()),
    {
        match self.mode {
            Mode::Mail => self.mail_compose.send.engaged(),
            Mode::Social => self.social_compose.send.engaged(),
        }
    }

    /// Whether a mode can be switched to.
    pub fn can_select(&self, candidate: Mode) -> (yes: bool)
        ensures
            yes == (self.mode == candidate || !is_engaged(self.current_phase())),
    {
        self.mode == candidate || !self.current_mode_is_transmitting()
    }

    /// Switches to a mode, if it can be switched to.
    pub fn select_mode(&mut self, candidate: Mode)
        requires
            old(self).wf(),
        ensures
            final(self).wf(),
            final(self).mode == (if is_engaged(old(self).current_phase()) {
                old(self).mode
            } else {
                candidate
            }),
            *final(self) == (PocComApp { mode: final(self).mode, ..*old(self) }),
    {
        if self.can_select(candidate) {
            self.mode = candidate;
        }
    }

    /// Routes a decoded transmission into the list of the mode that it belongs
    /// to, whichever is on screen. `fetch` is the fetch of its image, if it has
    /// one.
    pub fn route_received_payload(&mut self, payload: ReceivedPayload, fetch: Option<F>, now: u64)
        requires
            old(self).wf(),
            payload matches ReceivedPayload::Social(social) ==> is_fetched(said(social.media_url))
                ==> fetch is Some,
        ensures
            final(self).wf(),
            match payload {
                ReceivedPayload::Mail(m) => {
                    &&& recorded(
                        old(self).contacts@,
                        m.from@,
                        m.location@,
                        ContactVia::Mail,
                        now,
                        final(self).contacts@,
                    )
                    &&& pushed(old(self).mail_feed, m, now, final(self).mail_feed)
                    &&& *final(self) == (PocComApp {
                        contacts: final(self).contacts,
                        mail_feed: final(self).mail_feed,
                        ..*old(self)
                    })
                },
                ReceivedPayload::Social(s) => {
                    &&& match s.origin_grid {
                        Some(grid) => recorded(
                            old(self).contacts@,
                            s.author@,
                            grid@,
                            ContactVia::Social,
                            now,
                            final(self).contacts@,
                        ),
                        None => final(self).contacts == old(self).contacts,
                    }
                    &&& final(self).social_feed.posts@ == old(self).social_feed.posts@.push(
                        FeedPost {
                            author: s.author,
                            post: s.post,
                            received_at: now,
                            media: media_for(s.media_url, fetch),
                        },
                    )
                    &&& final(self).social_feed.just_received
                    &&& *final(self) == (PocComApp {
                        contacts: final(self).contacts,
                        social_feed: final(self).social_feed,
                        ..*old(self)
                    })
                },
            },
    {
        match payload {
            ReceivedPayload::Mail(mail) => {
                record_contact(
                    &mut self.contacts,
                    &mail.from,
                    &mail.location,
                    ContactVia::Mail,
                    now,
                );
                proof {
                    contacts_stay_distinct(
                        old(self).contacts@,
                        mail.from@,
                        mail.location@,
                        ContactVia::Mail,
                        now,
                        self.contacts@,
                    );
                }
                self.mail_feed.push_message(mail, now);
            },
            ReceivedPayload::Social(social) => {
                if let Some(grid) = &social.origin_grid {
                    record_contact(
                        &mut self.contacts,
                        &social.author,
                        grid,
                        ContactVia::Social,
                        now,
                    );
                    proof {
                        contacts_stay_distinct(
                            old(self).contacts@,
                            social.author@,
                            grid@,
                            ContactVia::Social,
                            now,
                            self.contacts@,
                        );
                    }
                }
                self.social_feed.push_post(
                    social.author,
                    social.post,
                    social.media_url,
                    fetch,
                    now,
                );
            },
        }
    }

    /// The settings as they are, to be compared with later.
    pub fn settings_now(&self) -> (before: SettingsBefore)
        ensures
            before.display_name@ == self.identity.display_name@,
            said(before.home_grid) == said(self.identity.home_grid),
            said(before.ptt_port) == said(self.identity.ptt_port),
            before.ptt_baud == self.identity.ptt_baud,
    {
        SettingsBefore {
            display_name: copy_of(&self.identity.display_name),
            home_grid: copy_option(&self.identity.home_grid),
            ptt_port: copy_option(&self.identity.ptt_port),
            ptt_baud: self.identity.ptt_baud,
        }
    }

    /// Whether another port or baud rate is selected than before.
    pub open spec fn port_changed(&self, before: SettingsBefore) -> bool {
        said(self.identity.ptt_port) != said(before.ptt_port) || self.identity.ptt_baud
            != before.ptt_baud
    }

    /// Whether any of the settings differs from what it was before.
    pub open spec fn settings_changed(&self, before: SettingsBefore) -> bool {
        ||| self.identity.display_name@ != before.display_name@
        ||| said(self.identity.home_grid) != said(before.home_grid)
        ||| self.port_changed(before)
    }

    /// Settles what was done in the settings: a test under another port or baud
    /// rate is released, and so is one when the settings close, so that a
    /// forgotten test never leaves the radio keyed. Says whether to save: on any
    /// change, and again on close.
    pub fn settle_settings(&mut self, before: SettingsBefore, close: bool) -> (save: bool)
        requires
            old(self).wf(),
        ensures
            final(self).wf(),
            save == (close || old(self).settings_changed(before)),
            final(self).settings_open == (old(self).settings_open && !close),
            final(self).ptt_test == (if close || old(self).port_changed(before) {
                None
            } else {
                old(self).ptt_test
            }),
            *final(self) == (PocComApp {
                settings_open: final(self).settings_open,
                ptt_test: final(self).ptt_test,
                ..*old(self)
            }),
    {
        let port_changed = !same_option(&self.identity.ptt_port, &before.ptt_port)
            || self.identity.ptt_baud != before.ptt_baud;
        let changed = !same_text(&self.identity.display_name, &before.display_name)
            || !same_option(&self.identity.home_grid, &before.home_grid) || port_changed;
        if port_changed {
            self.ptt_test = None;
        }
        if close {
            self.settings_open = false;
            self.ptt_test = None;
        }
        changed || close
    }

    /// The button of the manual PTT test: releases a keyed port, or asks to key
    /// the selected one.
    pub fn test_clicked(&mut self) -> (action: TestAction)
        requires
            old(self).wf(),
        ensures
            final(self).wf(),
            match (old(self).ptt_test, old(self).identity.ptt_port) {
                (None, Some(name)) => {
                    &&& action matches TestAction::Key { port, baud } && port@ == name@ && baud
                        == old(self).identity.ptt_baud
                    &&& final(self).ptt_test is None
                    &&& final(self).ptt_test_error is None
                },
                (Some(_), Some(_)) => {
                    &&& action is Settled
                    &&& final(self).ptt_test is None
                    &&& final(self).ptt_test_error == old(self).ptt_test_error
                },
                (_, None) => {
                    &&& action is Settled
                    &&& final(self).ptt_test == old(self).ptt_test
                    &&& final(self).ptt_test_error == old(self).ptt_test_error
                },
            },
            *final(self) == (PocComApp {
                ptt_test: final(self).ptt_test,
                ptt_test_error: final(self).ptt_test_error,
                ..*old(self)
            }),
    {
        match &self.identity.ptt_port {
            Some(name) => {
                if self.ptt_test.is_some() {
                    self.ptt_test = None;
                    TestAction::Settled
                } else {
                    let port = copy_of(name);
                    self.ptt_test_error = None;
                    TestAction::Key { port, baud: self.identity.ptt_baud }
                }
            },
            None => TestAction::Settled,
        }
    }

    /// What came of keying a port for the test.
    pub fn test_keyed(&mut self, key: Result<K, AudioIoError>)
        requires
            old(self).wf(),
        ensures
            final(self).wf(),
            match key {
                Ok(port) => {
                    &&& final(self).ptt_test == Some(port)
                    &&& final(self).ptt_test_error == old(self).ptt_test_error
                },
                Err(e) => {
                    &&& final(self).ptt_test == old(self).ptt_test
                    &&& said(final(self).ptt_test_error) == Some(error_text(e))
                },
            },
            *final(self) == (PocComApp {
                ptt_test: final(self).ptt_test,
                ptt_test_error: final(self).ptt_test_error,
                ..*old(self)
            }),
    {
        match key {
            Ok(port) => {
                self.ptt_test = Some(port);
            },
            Err(e) => {
                self.ptt_test_error = Some(e.message());
            },
        }
    }

    /// The text of the test's button.
    pub fn test_button_text(&self) -> (text: &'static str)
        ensures
            text@ == (if self.ptt_test is Some {
                "⏹ Release PTT"@
            } else {
                "🔘 Test PTT"@
            }),
    {
        if self.ptt_test.is_some() {
            "⏹ Release PTT"
        } else {
            "🔘 Test PTT"
        }
    }
}

// ---------------------------------------------------------------------
// Laws
// ---------------------------------------------------------------------

/// Hearing from somewhere touches one contact and no other. At a locator that
/// is not valid nothing changes; at one that is known its first contact is
/// refreshed in place, under the locator it had; at a new one a contact is
/// added at the end. The contact then says who was heard, how and when, with a
/// stand-in for a name that says nothing.
pub proof fn hearing_touches_one_contact(
    before: Seq<Contact>,
    label: Seq<char>,
    locator: Seq<char>,
    via: ContactVia,
    now: u64,
    after: Seq<Contact>,
)
    requires
        recorded(before, label, locator, via, now, after),
    ensures
        center_of(locator) is None ==> after == before,
        center_of(locator) is Some && (forall|j: int|
            0 <= j < before.len() ==> !same_but_for_case((#[trigger] before[j]).locator@, locator))
            ==> after.len() == before.len() + 1 && after.last().locator@ == locator,
        center_of(locator) is Some ==> exists|i: int|
            0 <= i < after.len() && {
                let c = #[trigger] after[i];
                &&& same_but_for_case(c.locator@, locator)
                &&& i == before.len() || c.locator == before[i].locator
                &&& after.len() == (if i == before.len() {
                    i + 1
                } else {
                    before.len() as int
                })
                &&& c.via == via
                &&& c.last_heard == now
                &&& (exists|k: int| 0 <= k < label.len() && !white_space(#[trigger] label[k]))
                    ==> c.label@ == label
                &&& (forall|k: int| 0 <= k < label.len() ==> white_space(#[trigger] label[k]))
                    ==> c.label@ == "(unknown)"@
                &&& forall|j: int| 0 <= j < i ==> !same_but_for_case(
                    (#[trigger] before[j]).locator@,
                    locator,
                )
                &&& forall|j: int|
                    0 <= j < before.len() && j != i ==> after[j] == #[trigger] before[j]
            },
{
    if center_of(locator) is Some {
        place_is_first(before, locator);
        match place_of(before, locator) {
            Some(i) => {
                assert(after[i].locator == before[i].locator);
                assert(same_but_for_case(after[i].locator@, locator));
            },
            None => {
                let i = before.len() as int;
                assert(after[i] == after.last());
                assert(same_but_for_case(after[i].locator@, locator));
            },
        }
    }
}

/// The settings are saved where any of the four differs from what it was, and
/// the manual test is released where the port or the baud rate does.
pub proof fn any_difference_is_a_change<S: Copy, R, H, K, X, D, F, T>(
    app: PocComApp<S, R, H, K, X, D, F, T>,
    before: SettingsBefore,
)
    ensures
        !app.settings_changed(before) <==> {
            &&& app.identity.display_name@ == before.display_name@
            &&& said(app.identity.home_grid) == said(before.home_grid)
            &&& said(app.identity.ptt_port) == said(before.ptt_port)
            &&& app.identity.ptt_baud == before.ptt_baud
        },
        !app.port_changed(before) <==> {
            &&& said(app.identity.ptt_port) == said(before.ptt_port)
            &&& app.identity.ptt_baud == before.ptt_baud
        },
{
}

/// Each mode goes by its own transmission: what the other one does neither
/// keeps the user in a mode nor lets them out of it.
pub proof fn modes_go_by_their_own_transmission<S: Copy, R, H, K, X, D, F, T>(
    app: PocComApp<S, R, H, K, X, D, F, T>,
    other: PocComApp<S, R, H, K, X, D, F, T>,
)
    requires
        app.mode == other.mode,
        app.mode is Mail ==> app.mail_compose.send.phase == other.mail_compose.send.phase,
        app.mode is Social ==> app.social_compose.send.phase == other.social_compose.send.phase,
    ensures
        app.current_phase() == other.current_phase(),
        app.mode is Mail ==> app.current_phase() == app.mail_compose.send.phase,
        app.mode is Social ==> app.current_phase() == app.social_compose.send.phase,
{
}

} // verus!
