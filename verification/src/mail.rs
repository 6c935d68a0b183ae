//! Mail mode: composing a single plain-text message, and the inbox that lists
//! what has been received, newest first.
//!
//! A message is just From/To/Location/Subject/Message spoken aloud: no
//! attachment, no compression, nothing binary. Anyone listening on the radio
//! hears exactly what lands in the inbox.

use vstd::prelude::*;
use vstd::string::*;
use crate::pipeline::MailFields;
use crate::send::{is_free, SendPhase, SendState};
use crate::settings::Identity;
use crate::text::{
    all_ascii, all_digits, blank, case_is_lost_in_lower_case, contains_text, copy_of, decimal,
    decimal_text, digits_value, holds_text, is_blank, lowered, same_but_for_case, stands_at,
    to_lowercase, together3, two_digit_text, two_digits, two_digits_are_two, white_space,
};

verus! {

// ---------------------------------------------------------------------
// Composing
// ---------------------------------------------------------------------

pub struct ComposeState<S, R, H, K> {
    pub to: String,
    pub subject: String,
    pub message: String,
    pub send: SendState<S, R, H, K>,
}

/// Whether the identity is set: a name and a home locator.
pub open spec fn identity_is_ready(identity: Identity) -> bool {
    !blank(identity.display_name@) && identity.home_grid is Some
}

pub fn identity_ready(identity: &Identity) -> (yes: bool)
    ensures
        yes == identity_is_ready(*identity),
{
    !is_blank(&identity.display_name) && identity.home_grid.is_some()
}

impl<S: Copy, R, H, K> ComposeState<S, R, H, K> {
    /// An empty message, with nothing under way.
    pub fn new() -> (state: Self)
        ensures
            state.to@ == Seq::<char>::empty(),
            state.subject@ == Seq::<char>::empty(),
            state.message@ == Seq::<char>::empty(),
            state.send.phase == SendPhase::<S, R, H, K>::Idle,
            state.send.cached_wave is None,
            state.send.ptt_warning is None,
    {
        let state = ComposeState {
            to: String::new(),
            subject: String::new(),
            message: String::new(),
            send: SendState::new(),
        };
        assert(state.to@ == Seq::<char>::empty());
        assert(state.subject@ == Seq::<char>::empty());
        assert(state.message@ == Seq::<char>::empty());
        state
    }

    /// Whether the message can be prepared: it says something, somebody says
    /// it, and nothing is under way.
    pub fn can_prepare(&self, identity: &Identity) -> (yes: bool)
        ensures
            yes == (!blank(self.message@) && identity_is_ready(*identity) && is_free(
                self.send.phase,
            )),
    {
        !is_blank(&self.message) && identity_ready(identity) && self.send.free()
    }

    /// What is still missing, if anything is.
    pub fn hint(&self, identity: &Identity) -> (text: Option<&'static str>)
        ensures
            match text {
                Some(t) => if !identity_is_ready(*identity) {
                    t@ == "Set your callsign and home locator in Settings (⚙) before sending."@
                } else {
                    blank(self.message@) && t@ == "Write a message before sending."@
                },
                None => identity_is_ready(*identity) && !blank(self.message@),
            },
    {
        if !identity_ready(identity) {
            Some("Set your callsign and home locator in Settings (⚙) before sending.")
        } else if is_blank(&self.message) {
            Some("Write a message before sending.")
        } else {
            None
        }
    }

    /// The message that is spoken: the sender and the location come from the
    /// identity.
    pub fn outgoing(&self, identity: &Identity) -> (mail: MailFields)
        ensures
            mail.from@ == identity.display_name@,
            mail.to@ == self.to@,
            mail.location@ == (match identity.home_grid {
                Some(grid) => grid@,
                None => Seq::empty(),
            }),
            mail.subject@ == self.subject@,
            mail.message@ == self.message@,
    {
        let location = match &identity.home_grid {
            Some(grid) => copy_of(grid),
            None => String::new(),
        };
        assert(identity.home_grid is None ==> location@ == Seq::<char>::empty());
        MailFields {
            from: copy_of(&identity.display_name),
            to: copy_of(&self.to),
            location,
            subject: copy_of(&self.subject),
            message: copy_of(&self.message),
        }
    }

    /// Clears the subject and the message after a send, but remembers who the
    /// user was writing to.
    pub fn reset_for_next_message(&mut self)
        ensures
            final(self).to == old(self).to,
            final(self).subject@ == Seq::<char>::empty(),
            final(self).message@ == Seq::<char>::empty(),
            final(self).send.phase == SendPhase::<S, R, H, K>::Idle,
            final(self).send.cached_wave is None,
            final(self).send.ptt_warning == old(self).send.ptt_warning,
    {
        self.subject = String::new();
        self.message = String::new();
        self.send.reset();
        assert(self.subject@ == Seq::<char>::empty());
        assert(self.message@ == Seq::<char>::empty());
    }
}

// ---------------------------------------------------------------------
// The inbox
// ---------------------------------------------------------------------

pub struct InboxItem {
    pub message: MailFields,
    /// Seconds since the epoch.
    pub received_at: u64,
    pub read: bool,
}

pub struct InboxState {
    pub items: Vec<InboxItem>,
    /// Index of the item shown in the reading popover, if any.
    pub reading: Option<usize>,
    /// The checkboxes for bulk delete, one per item.
    pub checked: Vec<bool>,
    /// When enabled, only messages whose To: field contains this text are
    /// shown, whatever the case.
    pub filter_to_enabled: bool,
    pub filter_to: String,
    /// The same for the From: field.
    pub filter_from_enabled: bool,
    pub filter_from: String,
    /// Set until the list has jumped back to the top for a new message.
    pub just_received: bool,
}

impl InboxState {
    pub open spec fn wf(&self) -> bool {
        &&& self.checked@.len() == self.items@.len()
        &&& self.reading matches Some(i) ==> i < self.items@.len()
    }

    /// Whether the filters are the same in both.
    pub open spec fn same_filters(&self, other: InboxState) -> bool {
        &&& self.filter_to_enabled == other.filter_to_enabled
        &&& self.filter_to == other.filter_to
        &&& self.filter_from_enabled == other.filter_from_enabled
        &&& self.filter_from == other.filter_from
    }
}

impl Default for InboxState {
    fn default() -> (state: Self)
        ensures
            state.wf(),
            state.items@ == Seq::<InboxItem>::empty(),
            state.reading is None,
            state.checked@ == Seq::<bool>::empty(),
            !state.filter_to_enabled,
            state.filter_to@ == Seq::<char>::empty(),
            !state.filter_from_enabled,
            state.filter_from@ == Seq::<char>::empty(),
            !state.just_received,
    {
        let state = InboxState {
            items: Vec::new(),
            reading: None,
            checked: Vec::new(),
            filter_to_enabled: false,
            filter_to: String::new(),
            filter_from_enabled: false,
            filter_from: String::new(),
            just_received: false,
        };
        assert(state.filter_to@ == Seq::<char>::empty());
        assert(state.filter_from@ == Seq::<char>::empty());
        state
    }
}

/// What a new message does to an inbox: it comes first, and the popover stays
/// with its item.
pub open spec fn pushed(
    before: InboxState,
    message: MailFields,
    received_at: u64,
    after: InboxState,
) -> bool {
    &&& after.items@ == before.items@.insert(0, InboxItem { message, received_at, read: false })
    &&& after.checked@ == before.checked@.insert(0, false)
    &&& after.reading == (match before.reading {
        Some(i) => Some((i + 1) as usize),
        None => None,
    })
    &&& after.just_received
    &&& after.same_filters(before)
}

/// What deleting an item does to an inbox: the popover stays with its item,
/// and closes if it was that one.
pub open spec fn deleted(before: InboxState, i: int, after: InboxState) -> bool {
    &&& after.same_filters(before)
    &&& after.just_received == before.just_received
    &&& if i < before.items@.len() {
        &&& after.items@ == before.items@.remove(i)
        &&& after.checked@ == before.checked@.remove(i)
        &&& after.reading == (match before.reading {
            Some(r) => if r == i {
                None
            } else if r > i {
                Some((r - 1) as usize)
            } else {
                Some(r)
            },
            None => None,
        })
    } else {
        &&& after.items@ == before.items@
        &&& after.checked@ == before.checked@
        &&& after.reading == before.reading
    }
}

/// The items that are not checked.
pub open spec fn unchecked<T>(items: Seq<T>, checked: Seq<bool>) -> Seq<T>
    decreases items.len(),
{
    if items.len() == 0 {
        Seq::empty()
    } else if checked.last() {
        unchecked(items.drop_last(), checked.drop_last())
    } else {
        unchecked(items.drop_last(), checked.drop_last()).push(items.last())
    }
}

/// How many boxes are checked.
pub open spec fn count_checked(checked: Seq<bool>) -> nat
    decreases checked.len(),
{
    if checked.len() == 0 {
        0
    } else {
        count_checked(checked.drop_last()) + if checked.last() {
            1nat
        } else {
            0
        }
    }
}

/// Whether a field holds the filter's text, whatever the case.
pub open spec fn passes(enabled: bool, field: Seq<char>, filter: Seq<char>) -> bool {
    enabled ==> holds_text(lowered(field), lowered(filter))
}

/// Whether a message gets through the filters.
pub open spec fn is_shown(state: InboxState, message: MailFields) -> bool {
    &&& passes(state.filter_to_enabled, message.to@, state.filter_to@)
    &&& passes(state.filter_from_enabled, message.from@, state.filter_from@)
}

/// The places of the first `n` items that get through the filters.
pub open spec fn rows_shown(state: InboxState, n: nat) -> Seq<usize>
    decreases n,
{
    if n == 0 {
        Seq::empty()
    } else if is_shown(state, state.items@[n - 1].message) {
        rows_shown(state, (n - 1) as nat).push((n - 1) as usize)
    } else {
        rows_shown(state, (n - 1) as nat)
    }
}

fn field_passes(enabled: bool, field: &str, filter: &str) -> (yes: bool)
    ensures
        yes == passes(enabled, field@, filter@),
{
    if enabled {
        let low_field = to_lowercase(field);
        let low_filter = to_lowercase(filter);
        contains_text(&low_field, &low_filter)
    } else {
        true
    }
}

impl InboxState {
    /// A decoded message lands here, whichever tab was on screen.
    pub fn push_message(&mut self, message: MailFields, received_at: u64)
        requires
            old(self).wf(),
        ensures
            final(self).wf(),
            pushed(*old(self), message, received_at, *final(self)),
    {
        assert(self.items.len() == self.items@.len());
        self.items.insert(0, InboxItem { message, received_at, read: false });
        self.checked.insert(0, false);
        self.reading = match self.reading {
            Some(i) => Some(i + 1),
            None => None,
        };
        self.just_received = true;
    }

    /// Removes a single item and keeps the checkboxes and the popover in step.
    pub fn delete_at(&mut self, i: usize)
        requires
            old(self).wf(),
        ensures
            final(self).wf(),
            deleted(*old(self), i as int, *final(self)),
    {
        if i >= self.items.len() {
            return;
        }
        self.items.remove(i);
        self.checked.remove(i);
        self.reading = match self.reading {
            Some(r) => if r == i {
                None
            } else if r > i {
                Some(r - 1)
            } else {
                Some(r)
            },
            None => None,
        };
    }

    /// How many items are checked.
    pub fn checked_count(&self) -> (n: usize)
        ensures
            n == count_checked(self.checked@),
            n <= self.checked@.len(),
    {
        let mut n: usize = 0;
        assert(self.checked@.take(0) == Seq::<bool>::empty());
        for i in 0..self.checked.len()
            invariant
                n == count_checked(self.checked@.take(i as int)),
                n <= i,
        {
            assert(self.checked@.take(i + 1).drop_last() == self.checked@.take(i as int));
            if self.checked[i] {
                n = n + 1;
            }
        }
        assert(self.checked@.take(self.checked@.len() as int) == self.checked@);
        n
    }

    /// Removes every checked item and closes the popover.
    pub fn delete_checked(&mut self)
        requires
            old(self).wf(),
        ensures
            final(self).wf(),
            final(self).items@ == unchecked(old(self).items@, old(self).checked@),
            final(self).checked@ == Seq::new(final(self).items@.len(), |i: int| false),
            final(self).reading is None,
            final(self).just_received == old(self).just_received,
            final(self).same_filters(*old(self)),
    {
        let ghost items = self.items@;
        let ghost checked = self.checked@;
        let ghost mut seen: int = 0;
        let mut i: usize = 0;
        self.reading = None;
        assert(items.take(0) == Seq::<InboxItem>::empty());
        assert(items.skip(0) == items);
        assert(checked.skip(0) == checked);
        while i < self.items.len()
            invariant
                items == old(self).items@,
                checked == old(self).checked@,
                checked.len() == items.len(),
                0 <= seen <= items.len(),
                i == unchecked(items.take(seen), checked.take(seen)).len(),
                self.items@ == unchecked(items.take(seen), checked.take(seen)) + items.skip(seen),
                self.checked@.len() == self.items@.len(),
                forall|k: int| 0 <= k < i ==> !self.checked@[k],
                forall|k: int| i <= k < self.checked@.len() ==> self.checked@[k] == checked[k - i
                    + seen],
                self.reading is None,
                self.just_received == old(self).just_received,
                self.same_filters(*old(self)),
            decreases items.len() - seen,
        {
            let ghost kept = unchecked(items.take(seen), checked.take(seen));
            assert(items.take(seen + 1).drop_last() == items.take(seen));
            assert(checked.take(seen + 1).drop_last() == checked.take(seen));
            assert(checked.take(seen + 1).last() == checked[seen]);
            assert(self.items@[i as int] == items[seen]);
            if self.checked[i] {
                self.items.remove(i);
                self.checked.remove(i);
                assert(self.items@ == kept + items.skip(seen + 1));
            } else {
                assert(self.items@ == kept.push(items[seen]) + items.skip(seen + 1));
                i = i + 1;
            }
            proof {
                seen = seen + 1;
            }
        }
        assert(seen == items.len());
        assert(items.take(seen) == items);
        assert(checked.take(seen) == checked);
        assert(self.items@ == unchecked(items, checked));
        assert(self.checked@ == Seq::new(self.items@.len(), |i: int| false));
    }

    /// Shows only what is addressed to the user.
    pub fn only_mine(&mut self, my_identity: &str)
        requires
            old(self).wf(),
        ensures
            final(self).wf(),
            final(self).filter_to@ == my_identity@,
            final(self).filter_to_enabled,
            final(self).filter_from == old(self).filter_from,
            final(self).filter_from_enabled == old(self).filter_from_enabled,
            final(self).items == old(self).items,
            final(self).checked == old(self).checked,
            final(self).reading == old(self).reading,
            final(self).just_received == old(self).just_received,
    {
        self.filter_to = copy_of(my_identity);
        self.filter_to_enabled = true;
    }

    /// Whether the item at `i` gets through the filters.
    pub fn shows(&self, i: usize) -> (yes: bool)
        requires
            i < self.items@.len(),
        ensures
            yes == is_shown(*self, self.items@[i as int].message),
    {
        field_passes(self.filter_to_enabled, &self.items[i].message.to, &self.filter_to)
            && field_passes(
            self.filter_from_enabled,
            &self.items[i].message.from,
            &self.filter_from,
        )
    }

    /// The places of the items that get through the filters, in order.
    pub fn visible_rows(&self) -> (rows: Vec<usize>)
        ensures
            rows@ == rows_shown(*self, self.items@.len()),
    {
        let mut rows: Vec<usize> = Vec::new();
        for i in 0..self.items.len()
            invariant
                rows@ == rows_shown(*self, i as nat),
        {
            if self.shows(i) {
                rows.push(i);
            }
        }
        rows
    }

    /// What stands in place of the rows where there are none to show.
    pub fn list_note(&self) -> (note: Option<&'static str>)
        ensures
            match note {
                Some(text) => if self.items@.len() == 0 {
                    text@ == "No messages received yet."@
                } else {
                    &&& text@ == "No messages match the current filter."@
                    &&& self.filter_to_enabled || self.filter_from_enabled
                    &&& rows_shown(*self, self.items@.len()).len() == 0
                },
                None => {
                    &&& self.items@.len() > 0
                    &&& (self.filter_to_enabled || self.filter_from_enabled) ==> rows_shown(
                        *self,
                        self.items@.len(),
                    ).len() > 0
                },
            },
    {
        if self.items.len() == 0 {
            return Some("No messages received yet.");
        }
        if self.filter_to_enabled || self.filter_from_enabled {
            let rows = self.visible_rows();
            if rows.len() == 0 {
                return Some("No messages match the current filter.");
            }
        }
        None
    }

    /// Whether the list should jump to its top, asked once per new message.
    pub fn take_just_received(&mut self) -> (jump: bool)
        requires
            old(self).wf(),
        ensures
            final(self).wf(),
            jump == old(self).just_received,
            !final(self).just_received,
            final(self).items == old(self).items,
            final(self).checked == old(self).checked,
            final(self).reading == old(self).reading,
            final(self).same_filters(*old(self)),
    {
        let jump = self.just_received;
        self.just_received = false;
        jump
    }

    /// Sets the checkbox of an item.
    pub fn set_checked(&mut self, i: usize, on: bool)
        requires
            old(self).wf(),
            i < old(self).items@.len(),
        ensures
            final(self).wf(),
            final(self).checked@ == old(self).checked@.update(i as int, on),
            final(self).items == old(self).items,
            final(self).reading == old(self).reading,
            final(self).just_received == old(self).just_received,
            final(self).same_filters(*old(self)),
    {
        self.checked[i] = on;
    }

    /// Opens an item in the reading popover, which marks it as read.
    pub fn open_item(&mut self, i: usize)
        requires
            old(self).wf(),
            i < old(self).items@.len(),
        ensures
            final(self).wf(),
            final(self).reading == Some(i),
            final(self).items@ == old(self).items@.update(
                i as int,
                InboxItem { read: true, ..old(self).items@[i as int] },
            ),
            final(self).checked == old(self).checked,
            final(self).just_received == old(self).just_received,
            final(self).same_filters(*old(self)),
    {
        self.reading = Some(i);
        self.items[i].read = true;
        assert(self.items@ == old(self).items@.update(
            i as int,
            InboxItem { read: true, ..old(self).items@[i as int] },
        ));
    }

    /// Does what was clicked in the list: a delete goes before an open.
    pub fn clicked(&mut self, pending_delete: Option<usize>, pending_open: Option<usize>)
        requires
            old(self).wf(),
            pending_open matches Some(i) ==> i < old(self).items@.len(),
        ensures
            final(self).wf(),
            match (pending_delete, pending_open) {
                (Some(i), _) => deleted(*old(self), i as int, *final(self)),
                (None, Some(i)) => {
                    &&& final(self).reading == Some(i)
                    &&& final(self).items@ == old(self).items@.update(
                        i as int,
                        InboxItem { read: true, ..old(self).items@[i as int] },
                    )
                    &&& final(self).checked == old(self).checked
                    &&& final(self).just_received == old(self).just_received
                    &&& final(self).same_filters(*old(self))
                },
                (None, None) => *final(self) == *old(self),
            },
    {
        if let Some(i) = pending_delete {
            self.delete_at(i);
        } else if let Some(i) = pending_open {
            self.open_item(i);
        }
    }

    /// Closes the reading popover.
    pub fn close_reading(&mut self)
        requires
            old(self).wf(),
        ensures
            final(self).wf(),
            final(self).reading is None,
            final(self).items == old(self).items,
            final(self).checked == old(self).checked,
            final(self).just_received == old(self).just_received,
            final(self).same_filters(*old(self)),
    {
        self.reading = None;
    }

    /// The text of the button that deletes what is checked.
    pub fn delete_button_text(&self) -> (text: String)
        ensures
            text@ == "Delete ("@ + decimal(count_checked(self.checked@)) + ")"@,
    {
        let number = decimal_text(self.checked_count() as u128);
        together3("Delete (", &number, ")")
    }
}

// ---------------------------------------------------------------------
// What a message looks like
// ---------------------------------------------------------------------

/// A text, or two dashes for one that says nothing.
pub open spec fn text_or_dash(text: Seq<char>) -> Seq<char> {
    if blank(text) {
        "--"@
    } else {
        text
    }
}

pub fn display_or_dash(s: &str) -> (shown: &str)
    ensures
        shown@ == text_or_dash(s@),
{
    if is_blank(s) {
        "--"
    } else {
        s
    }
}

/// The time of day, in seconds since the epoch.
pub open spec fn hms_text(secs: nat) -> Seq<char> {
    two_digits(secs / 3600 % 24) + seq![':'] + two_digits(secs / 60 % 60) + seq![':'] + two_digits(
        secs % 60,
    ) + " UTC"@
}

pub fn format_hms(secs: u64) -> (text: String)
    ensures
        text@ == hms_text(secs as nat),
{
    let mut text = two_digit_text((secs / 3600 % 24) as u128);
    text.push(':');
    let minutes = two_digit_text((secs / 60 % 60) as u128);
    text.append(&minutes);
    text.push(':');
    let seconds = two_digit_text((secs % 60) as u128);
    text.append(&seconds);
    text.append(" UTC");
    assert(text@ == hms_text(secs as nat));
    text
}

/// The subject, or a stand-in for one that is empty.
pub open spec fn subject_text(message: MailFields) -> Seq<char> {
    if message.subject@.len() == 0 {
        "(no subject)"@
    } else {
        message.subject@
    }
}

/// A row of the list: an unread mark, the subject, the sender and the time.
pub open spec fn item_text(item: InboxItem) -> Seq<char> {
    (if item.read {
        Seq::empty()
    } else {
        "● "@
    }) + subject_text(item.message) + "\n"@ + text_or_dash(item.message.from@) + " · "@ + hms_text(
        item.received_at as nat,
    )
}

impl InboxItem {
    /// The title of the reading popover.
    pub fn title(&self) -> (text: String)
        ensures
            text@ == subject_text(self.message),
    {
        let chars = crate::text::chars_of(&self.message.subject);
        if chars.len() == 0 {
            copy_of("(no subject)")
        } else {
            copy_of(&self.message.subject)
        }
    }

    /// The text of the item's row.
    pub fn row_text(&self) -> (text: String)
        ensures
            text@ == item_text(*self),
    {
        let mut text = String::new();
        if !self.read {
            text.append("● ");
        }
        let title = self.title();
        let time = format_hms(self.received_at);
        let who = display_or_dash(&self.message.from);
        text.append(&title);
        text.append("\n");
        text.append(who);
        text.append(" · ");
        text.append(&time);
        assert(text@ == item_text(*self));
        text
    }
}

// ---------------------------------------------------------------------
// Laws
// ---------------------------------------------------------------------

/// The item in the reading popover stays the same one when a message arrives.
pub proof fn reading_survives_a_new_message(
    before: InboxState,
    message: MailFields,
    received_at: u64,
    after: InboxState,
)
    requires
        before.wf(),
        after.wf(),
        pushed(before, message, received_at, after),
    ensures
        before.reading is Some == after.reading is Some,
        before.reading matches Some(i) ==> after.items@[after.reading->0 as int]
            == before.items@[i as int],
{
    assert(before.items.len() == before.items@.len());
}

/// The item in the reading popover stays the same one when another is deleted,
/// and the popover closes when it is the one.
pub proof fn reading_survives_a_delete(before: InboxState, i: int, after: InboxState)
    requires
        before.wf(),
        after.wf(),
        0 <= i,
        deleted(before, i, after),
    ensures
        before.reading matches Some(r) ==> if r == i {
            after.reading is None
        } else {
            after.reading is Some && after.items@[after.reading->0 as int] == before.items@[r as int]
        },
        before.reading is None ==> after.reading is None,
{
}

/// Deleting the message that has just arrived gives the inbox back as it was,
/// but for the jump to the top.
pub proof fn deleting_the_newest_undoes_its_arrival(
    before: InboxState,
    message: MailFields,
    received_at: u64,
    between: InboxState,
    after: InboxState,
)
    requires
        before.wf(),
        pushed(before, message, received_at, between),
        deleted(between, 0, after),
    ensures
        after.items@ == before.items@,
        after.checked@ == before.checked@,
        after.reading == before.reading,
        after.same_filters(before),
{
    assert(before.items@.insert(0, InboxItem { message, received_at, read: false }).remove(0)
        == before.items@);
    assert(before.checked@.insert(0, false).remove(0) == before.checked@);
    assert(before.items.len() == before.items@.len());
}

/// Bulk delete leaves exactly as many items as were not checked, and each of
/// them was there before.
pub proof fn bulk_delete_removes_what_was_checked<T>(items: Seq<T>, checked: Seq<bool>)
    requires
        checked.len() == items.len(),
    ensures
        unchecked(items, checked).len() + count_checked(checked) == items.len(),
        forall|x: T| unchecked(items, checked).contains(x) ==> items.contains(x),
        forall|i: int|
            0 <= i < items.len() && !checked[i] ==> unchecked(items, checked).contains(
                #[trigger] items[i],
            ),
    decreases items.len(),
{
    if items.len() > 0 {
        let rest = items.drop_last();
        let boxes = checked.drop_last();
        bulk_delete_removes_what_was_checked(rest, boxes);
        let kept = unchecked(items, checked);
        let kept_rest = unchecked(rest, boxes);
        assert forall|x: T| kept.contains(x) implies items.contains(x) by {
            if kept_rest.contains(x) {
                assert(rest.contains(x));
                let k = choose|k: int| 0 <= k < rest.len() && rest[k] == x;
                assert(items[k] == x);
            } else {
                let k = choose|k: int| 0 <= k < kept.len() && kept[k] == x;
                if k < kept_rest.len() {
                    assert(kept_rest[k] == x);
                }
                assert(items[items.len() - 1] == x);
            }
        }
        assert forall|i: int| 0 <= i < items.len() && !checked[i] implies kept.contains(
            #[trigger] items[i],
        ) by {
            if i < items.len() - 1 {
                assert(rest[i] == items[i]);
                assert(!boxes[i]);
                assert(kept_rest.contains(rest[i]));
                let k = choose|k: int| 0 <= k < kept_rest.len() && kept_rest[k] == rest[i];
                assert(kept[k] == items[i]);
            } else {
                assert(kept[kept.len() - 1] == items[i]);
            }
        }
    }
}

/// Without filters every item is shown, in the order of the list.
pub proof fn without_filters_everything_is_shown(state: InboxState, n: nat)
    requires
        !state.filter_to_enabled,
        !state.filter_from_enabled,
        n <= state.items@.len(),
    ensures
        rows_shown(state, n) == Seq::new(n, |i: int| i as usize),
    decreases n,
{
    if n > 0 {
        without_filters_everything_is_shown(state, (n - 1) as nat);
        assert(rows_shown(state, n) == Seq::new(n, |i: int| i as usize));
    } else {
        assert(rows_shown(state, n) == Seq::new(n, |i: int| i as usize));
    }
}

/// The filters look for their text whatever its case: a field and a filter in
/// ASCII let the same messages through in any case.
pub proof fn filters_ignore_case(
    enabled: bool,
    field: Seq<char>,
    other_field: Seq<char>,
    filter: Seq<char>,
    other_filter: Seq<char>,
)
    requires
        all_ascii(field),
        all_ascii(filter),
        same_but_for_case(field, other_field),
        same_but_for_case(filter, other_filter),
    ensures
        passes(enabled, field, filter) == passes(enabled, other_field, other_filter),
{
    case_is_lost_in_lower_case(field, other_field);
    case_is_lost_in_lower_case(filter, other_filter);
}

/// A message is shown exactly where each filter that is on finds its text, in
/// lower case, within the lower case of the field that it is for: the To field
/// for the one, the From field for the other.
pub proof fn filters_look_in_their_own_field(state: InboxState, message: MailFields)
    ensures
        is_shown(state, message) <==> {
            &&& state.filter_to_enabled ==> exists|at: int|
                0 <= at <= at + lowered(state.filter_to@).len() <= lowered(message.to@).len()
                    && #[trigger] lowered(message.to@).subrange(
                    at,
                    at + lowered(state.filter_to@).len(),
                ) == lowered(state.filter_to@)
            &&& state.filter_from_enabled ==> exists|at: int|
                0 <= at <= at + lowered(state.filter_from@).len() <= lowered(message.from@).len()
                    && #[trigger] lowered(message.from@).subrange(
                    at,
                    at + lowered(state.filter_from@).len(),
                ) == lowered(state.filter_from@)
        },
{
    let (to, from) = (lowered(message.to@), lowered(message.from@));
    let (f, g) = (lowered(state.filter_to@), lowered(state.filter_from@));
    if exists|at: int|
        0 <= at <= at + f.len() <= to.len() && #[trigger] to.subrange(at, at + f.len()) == f {
        let at = choose|at: int|
            0 <= at <= at + f.len() <= to.len() && #[trigger] to.subrange(at, at + f.len()) == f;
        assert(stands_at(to, f, at));
    }
    if holds_text(to, f) {
        let at = choose|at: int| stands_at(to, f, at);
        assert(to.subrange(at, at + f.len()) == f);
    }
    if exists|at: int|
        0 <= at <= at + g.len() <= from.len() && #[trigger] from.subrange(at, at + g.len()) == g {
        let at = choose|at: int|
            0 <= at <= at + g.len() <= from.len() && #[trigger] from.subrange(at, at + g.len())
                == g;
        assert(stands_at(from, g, at));
    }
    if holds_text(from, g) {
        let at = choose|at: int| stands_at(from, g, at);
        assert(from.subrange(at, at + g.len()) == g);
    }
}

/// Whether a message is shown depends on nothing but its To and From fields.
pub proof fn filters_look_at_no_other_field(state: InboxState, a: MailFields, b: MailFields)
    requires
        a.to@ == b.to@,
        a.from@ == b.from@,
    ensures
        is_shown(state, a) == is_shown(state, b),
{
}

/// The rows on screen are those of all messages that get through the filters
/// and of no others, each once, in the order of the list.
pub proof fn rows_on_screen_are_those_that_pass(state: InboxState, n: nat)
    requires
        n <= state.items@.len(),
    ensures
        forall|i: int|
            0 <= i < n ==> (is_shown(state, (#[trigger] state.items@[i]).message)
                <==> exists|k: int|
                0 <= k < rows_shown(state, n).len() && #[trigger] rows_shown(state, n)[k] == i),
        forall|k: int| 0 <= k < rows_shown(state, n).len() ==> #[trigger] rows_shown(state, n)[k] < n,
        forall|j: int, k: int|
            0 <= j < k < rows_shown(state, n).len() ==> #[trigger] rows_shown(state, n)[j]
                < #[trigger] rows_shown(state, n)[k],
    decreases n,
{
    assert(state.items.len() == state.items@.len());
    if n > 0 {
        let before = rows_shown(state, (n - 1) as nat);
        let rows = rows_shown(state, n);
        rows_on_screen_are_those_that_pass(state, (n - 1) as nat);
        assert forall|i: int| 0 <= i < n implies (is_shown(
            state,
            (#[trigger] state.items@[i]).message,
        ) <==> exists|k: int| 0 <= k < rows.len() && #[trigger] rows[k] == i) by {
            if i < n - 1 {
                if exists|k: int| 0 <= k < before.len() && #[trigger] before[k] == i {
                    let k = choose|k: int| 0 <= k < before.len() && #[trigger] before[k] == i;
                    assert(rows[k] == i);
                }
                if exists|k: int| 0 <= k < rows.len() && #[trigger] rows[k] == i {
                    let k = choose|k: int| 0 <= k < rows.len() && #[trigger] rows[k] == i;
                    assert(before[k] == i);
                }
            } else {
                if is_shown(state, state.items@[i].message) {
                    assert(rows[rows.len() - 1] == i);
                }
            }
        }
    }
}

/// A message that arrives stands first, unread and unchecked, with the time it
/// came at, and every other item keeps its place behind it.
pub proof fn a_new_message_comes_first(
    before: InboxState,
    message: MailFields,
    received_at: u64,
    after: InboxState,
)
    requires
        before.wf(),
        pushed(before, message, received_at, after),
    ensures
        after.items@.len() == before.items@.len() + 1,
        after.checked@.len() == before.checked@.len() + 1,
        after.items@[0].message == message,
        after.items@[0].received_at == received_at,
        !after.items@[0].read,
        !after.checked@[0],
        forall|i: int|
            0 <= i < before.items@.len() ==> #[trigger] after.items@[i + 1] == before.items@[i],
        forall|i: int|
            0 <= i < before.checked@.len() ==> #[trigger] after.checked@[i + 1]
                == before.checked@[i],
        after.just_received,
        after.filter_to@ == before.filter_to@,
        after.filter_to_enabled == before.filter_to_enabled,
        after.filter_from@ == before.filter_from@,
        after.filter_from_enabled == before.filter_from_enabled,
{
}

/// Deleting an item takes away that one alone: those before it keep their
/// places, those behind it move up by one, and their boxes with them. A place
/// that no item has deletes nothing.
pub proof fn a_delete_takes_one_item_away(before: InboxState, i: int, after: InboxState)
    requires
        before.wf(),
        0 <= i,
        deleted(before, i, after),
    ensures
        i >= before.items@.len() ==> after.items@ == before.items@ && after.checked@
            == before.checked@ && after.reading == before.reading,
        i < before.items@.len() ==> after.items@.len() == before.items@.len() - 1
            && after.checked@.len() == before.checked@.len() - 1,
        forall|k: int|
            0 <= k < i && k < before.items@.len() ==> #[trigger] after.items@[k] == before.items@[k]
                && after.checked@[k] == before.checked@[k],
        forall|k: int|
            i < k < before.items@.len() ==> after.items@[k - 1] == #[trigger] before.items@[k]
                && after.checked@[k - 1] == before.checked@[k],
        after.just_received == before.just_received,
        after.filter_to@ == before.filter_to@,
        after.filter_to_enabled == before.filter_to_enabled,
        after.filter_from@ == before.filter_from@,
        after.filter_from_enabled == before.filter_from_enabled,
{
}

/// Bulk delete judges every item by its own box and keeps the order of the
/// others: what is left of two lists, one behind the other, is what is left of
/// the one and then what is left of the other. A single item goes where its box
/// is checked and stays where it is not.
pub proof fn bulk_delete_goes_by_each_box<T>(
    items: Seq<T>,
    checked: Seq<bool>,
    more: Seq<T>,
    more_checked: Seq<bool>,
    one: T,
)
    requires
        checked.len() == items.len(),
        more_checked.len() == more.len(),
    ensures
        unchecked(items + more, checked + more_checked) == unchecked(items, checked) + unchecked(
            more,
            more_checked,
        ),
        unchecked(seq![one], seq![true]) == Seq::<T>::empty(),
        unchecked(seq![one], seq![false]) == seq![one],
        count_checked(checked + more_checked) == count_checked(checked) + count_checked(
            more_checked,
        ),
        count_checked(seq![true]) == 1,
        count_checked(seq![false]) == 0,
    decreases more.len(),
{
    reveal_with_fuel(unchecked, 2);
    reveal_with_fuel(count_checked, 2);
    assert(unchecked(seq![one], seq![false]) == seq![one]);
    if more.len() == 0 {
        assert(items + more == items);
        assert(checked + more_checked == checked);
        assert(unchecked(items, checked) + unchecked(more, more_checked) == unchecked(
            items,
            checked,
        ));
    } else {
        let (rest, boxes) = (more.drop_last(), more_checked.drop_last());
        bulk_delete_goes_by_each_box(items, checked, rest, boxes, one);
        assert((items + more).drop_last() == items + rest);
        assert((checked + more_checked).drop_last() == checked + boxes);
        assert(unchecked(items + more, checked + more_checked) == unchecked(items, checked)
            + unchecked(more, more_checked));
    }
}

/// What a row says: an unread mark in front of what has not been read and of
/// nothing else, then the subject, and on the second line the sender and the
/// time. A subject or a sender that says nothing has a stand-in.
pub proof fn a_row_says_what_and_from_whom(item: InboxItem)
    ensures
        item.read ==> item_text(item) == subject_text(item.message) + "\n"@ + text_or_dash(
            item.message.from@,
        ) + " · "@ + hms_text(item.received_at as nat),
        !item.read ==> item_text(item) == "● "@ + item_text(InboxItem { read: true, ..item }),
        item.message.subject@.len() > 0 ==> subject_text(item.message) == item.message.subject@,
        item.message.subject@.len() == 0 ==> subject_text(item.message) == "(no subject)"@,
        (exists|i: int|
            0 <= i < item.message.from@.len() && !white_space(#[trigger] item.message.from@[i]))
            ==> text_or_dash(item.message.from@) == item.message.from@,
        (forall|i: int|
            0 <= i < item.message.from@.len() ==> white_space(#[trigger] item.message.from@[i]))
            ==> text_or_dash(item.message.from@) == "--"@,
{
    let tail = subject_text(item.message) + "\n"@ + text_or_dash(item.message.from@) + " · "@
        + hms_text(item.received_at as nat);
    assert(Seq::<char>::empty() + subject_text(item.message) == subject_text(item.message));
    assert("● "@ + subject_text(item.message) + "\n"@ + text_or_dash(item.message.from@) + " · "@
        + hms_text(item.received_at as nat) == "● "@ + tail);
}

/// The time of a message is read off a clock that starts at midnight: hours,
/// minutes and seconds, two digits each, add up to the seconds since then.
pub proof fn times_are_those_of_a_clock(secs: nat)
    ensures
        hms_text(secs).len() == 12,
        hms_text(secs)[2] == ':',
        hms_text(secs)[5] == ':',
        hms_text(secs).skip(8) == " UTC"@,
        all_digits(hms_text(secs).take(2)),
        all_digits(hms_text(secs).subrange(3, 5)),
        all_digits(hms_text(secs).subrange(6, 8)),
        digits_value(hms_text(secs).subrange(3, 5)) < 60,
        digits_value(hms_text(secs).subrange(6, 8)) < 60,
        3600 * digits_value(hms_text(secs).take(2)) + 60 * digits_value(
            hms_text(secs).subrange(3, 5),
        ) + digits_value(hms_text(secs).subrange(6, 8)) == secs % 86400,
{
    reveal_strlit(" UTC");
    let (h, m, s) = (secs / 3600 % 24, secs / 60 % 60, secs % 60);
    let (a, b, c) = (two_digits(h), two_digits(m), two_digits(s));
    two_digits_are_two(h);
    two_digits_are_two(m);
    two_digits_are_two(s);
    let text = hms_text(secs);
    assert(text.take(2) == a);
    assert(text.subrange(3, 5) == b);
    assert(text.subrange(6, 8) == c);
    assert(text.skip(8) == " UTC"@);
}

/// The filters are the same where both are on or off alike and look for the same
/// texts.
pub proof fn filters_are_the_same_in_all_parts(a: InboxState, b: InboxState)
    requires
        a.same_filters(b),
    ensures
        a.filter_to_enabled == b.filter_to_enabled,
        a.filter_to@ == b.filter_to@,
        a.filter_from_enabled == b.filter_from_enabled,
        a.filter_from@ == b.filter_from@,
{
}

/// Somebody is ready to send exactly where the name says something and a home
/// locator is set.
pub proof fn a_sender_needs_a_name_and_a_locator(identity: Identity)
    ensures
        identity_is_ready(identity) <==> identity.home_grid is Some && exists|i: int|
            0 <= i < identity.display_name@.len() && !white_space(
                #[trigger] identity.display_name@[i],
            ),
{
}

} // verus!
