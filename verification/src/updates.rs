//! Updates of the system: how many the menu announces, and when a notification is due.

use vstd::prelude::*;
use vstd::string::*;
use crate::text::{characters, decimal_text, join, same_optional, text_is};
use crate::text::{decimal, optional_text};

verus! {

/// The schema of the record of the last notification.
pub const NOTIFICATION_SCHEMA_VERSION: u32 = 1;

/// How updates stand.
#[derive(Debug, Clone, Copy, PartialEq, Eq, Structural)]
pub enum UpdateStatus {
    NeverChecked,
    Checking,
    UpToDate,
    Available,
    Applying,
    RestartRecommended,
    Failed,
}

/// What an update does with a package.
#[derive(Debug, Clone, Copy, PartialEq, Eq, Structural)]
pub enum UpdateAction {
    Upgrade,
    Install,
    Remove,
}

/// A package that an update changes.
#[derive(Debug, Clone, PartialEq, Eq)]
pub struct UpdatePackage {
    pub name: String,
    pub installed_version: String,
    pub candidate_version: String,
    pub download_size: u64,
    pub security_origin: Option<String>,
    pub action: UpdateAction,
}

/// An [`UpdatePackage`] with its texts as sequences.
pub struct PackageView {
    pub name: Seq<char>,
    pub installed_version: Seq<char>,
    pub candidate_version: Seq<char>,
    pub download_size: u64,
    pub security_origin: Option<Seq<char>>,
    pub action: UpdateAction,
}

impl View for UpdatePackage {
    type V = PackageView;

    open spec fn view(&self) -> PackageView {
        PackageView {
            name: self.name@,
            installed_version: self.installed_version@,
            candidate_version: self.candidate_version@,
            download_size: self.download_size,
            security_origin: optional_text(self.security_origin),
            action: self.action,
        }
    }
}

/// The packages of a list, each by its view.
pub open spec fn package_views(packages: Seq<UpdatePackage>) -> Seq<PackageView> {
    packages.map_values(|package: UpdatePackage| package@)
}

/// What the updater says.
#[derive(Debug, Clone, PartialEq, Eq)]
pub struct UpdateState {
    pub status: UpdateStatus,
    pub checked_at_unix_seconds: Option<u64>,
    pub packages: Vec<UpdatePackage>,
    pub download_size: u64,
    pub plan_generation: Option<String>,
    pub runtime_revision: Option<String>,
    pub runtime_ready: bool,
    pub repair_available: bool,
}

/// An [`UpdateState`] with its texts and lists as sequences.
pub struct UpdateView {
    pub status: UpdateStatus,
    pub checked_at_unix_seconds: Option<u64>,
    pub packages: Seq<PackageView>,
    pub download_size: u64,
    pub plan_generation: Option<Seq<char>>,
    pub runtime_revision: Option<Seq<char>>,
    pub runtime_ready: bool,
    pub repair_available: bool,
}

impl View for UpdateState {
    type V = UpdateView;

    open spec fn view(&self) -> UpdateView {
        UpdateView {
            status: self.status,
            checked_at_unix_seconds: self.checked_at_unix_seconds,
            packages: package_views(self.packages@),
            download_size: self.download_size,
            plan_generation: optional_text(self.plan_generation),
            runtime_revision: optional_text(self.runtime_revision),
            runtime_ready: self.runtime_ready,
            repair_available: self.repair_available,
        }
    }
}

impl UpdatePackage {
    /// Whether this is the same package as `other`.
    pub fn same(&self, other: &UpdatePackage) -> (same: bool)
        ensures
            same == (self@ == other@),
    {
        text_is(&self.name, other.name.as_str()) && text_is(
            &self.installed_version,
            other.installed_version.as_str(),
        ) && text_is(&self.candidate_version, other.candidate_version.as_str())
            && self.download_size == other.download_size && same_optional(
            &self.security_origin,
            &other.security_origin,
        ) && self.action == other.action
    }
}

/// Whether two lists hold the same packages.
fn same_packages(left: &Vec<UpdatePackage>, right: &Vec<UpdatePackage>) -> (same: bool)
    ensures
        same == (package_views(left@) == package_views(right@)),
{
    assert(package_views(left@).len() == left@.len());
    assert(package_views(right@).len() == right@.len());
    if left.len() != right.len() {
        return false;
    }
    let mut at: usize = 0;
    while at < left.len()
        invariant
            at <= left.len(),
            left.len() == right.len(),
            forall|earlier: int|
                0 <= earlier < at ==> #[trigger] package_views(left@)[earlier] == package_views(
                    right@,
                )[earlier],
        decreases left.len() - at,
    {
        assert(package_views(left@)[at as int] == left@[at as int]@);
        assert(package_views(right@)[at as int] == right@[at as int]@);
        if !left[at].same(&right[at]) {
            return false;
        }
        at = at + 1;
    }
    assert(package_views(left@) =~= package_views(right@));
    true
}

/// Whether two times that may be absent are the same.
fn same_time(left: Option<u64>, right: Option<u64>) -> (same: bool)
    ensures
        same == (left == right),
{
    match (left, right) {
        (Some(left), Some(right)) => left == right,
        (None, None) => true,
        _ => false,
    }
}

impl UpdateState {
    /// Whether this says the same as `other`.
    pub fn same(&self, other: &UpdateState) -> (same: bool)
        ensures
            same == (self@ == other@),
    {
        self.status == other.status && same_time(
            self.checked_at_unix_seconds,
            other.checked_at_unix_seconds,
        ) && same_packages(&self.packages, &other.packages) && self.download_size
            == other.download_size && same_optional(&self.plan_generation, &other.plan_generation)
            && same_optional(&self.runtime_revision, &other.runtime_revision) && self.runtime_ready
            == other.runtime_ready && self.repair_available == other.repair_available
    }
}

/// Updates to be notified of.
#[derive(Debug, Clone, PartialEq, Eq)]
pub struct UpdateNotice {
    pub generation: String,
    pub package_count: usize,
}

/// The record of the last notification.
#[derive(Debug, Clone, PartialEq, Eq)]
pub struct NotificationRecord {
    pub schema_version: u32,
    pub plan_generation: String,
}

/// Whether a character is a hexadecimal digit in lower case.
pub open spec fn is_lower_hex(character: char) -> bool {
    '0' <= character <= '9' || 'a' <= character <= 'f'
}

/// Whether a text is the name of a generation: 64 hexadecimal digits in lower case.
pub open spec fn is_generation(text: Seq<char>) -> bool {
    text.len() == 64 && forall|at: int| 0 <= at < text.len() ==> is_lower_hex(#[trigger] text[at])
}

/// Whether a text is 64 hexadecimal digits in lower case.
pub fn canonical_digest(text: &str) -> (canonical: bool)
    ensures
        canonical == is_generation(text@),
{
    let chars = characters(text);
    if chars.len() != 64 {
        return false;
    }
    let mut at: usize = 0;
    while at < chars.len()
        invariant
            at <= chars.len(),
            chars@ == text@,
            forall|earlier: int| 0 <= earlier < at ==> is_lower_hex(#[trigger] text@[earlier]),
        decreases chars.len() - at,
    {
        let character = chars[at];
        if !(('0' <= character && character <= '9') || ('a' <= character && character <= 'f')) {
            assert(!is_lower_hex(text@[at as int]));
            return false;
        }
        at = at + 1;
    }
    true
}

impl NotificationRecord {
    /// Whether this record can be used, or what is wrong with it.
    pub fn validate(&self) -> (valid: Result<(), String>)
        ensures
            match valid {
                Ok(_) => self.schema_version == NOTIFICATION_SCHEMA_VERSION && is_generation(
                    self.plan_generation@,
                ),
                Err(error) => if self.schema_version != NOTIFICATION_SCHEMA_VERSION {
                    error@ == "unsupported update-notification schema "@ + decimal(
                        self.schema_version as nat,
                    )
                } else {
                    !is_generation(self.plan_generation@) && error@
                        == "update-notification generation is not canonical"@
                },
            },
    {
        if self.schema_version != NOTIFICATION_SCHEMA_VERSION {
            return Err(
                join(
                    "unsupported update-notification schema ",
                    decimal_text(self.schema_version as u64).as_str(),
                ),
            );
        }
        if !canonical_digest(self.plan_generation.as_str()) {
            return Err("update-notification generation is not canonical".to_string());
        }
        Ok(())
    }
}

/// What the shell knows of updates.
#[derive(Debug)]
pub struct UpdateTracker {
    pub state: UpdateState,
    /// The generation that was notified of last.
    pub notified_generation: Option<String>,
    /// Whether the record of notifications can be used: one that cannot be read is left as it is.
    pub notification_record_usable: bool,
}

/// An [`UpdateTracker`] with its texts as sequences.
pub struct TrackerView {
    pub state: UpdateView,
    pub notified_generation: Option<Seq<char>>,
    pub notification_record_usable: bool,
}

impl View for UpdateTracker {
    type V = TrackerView;

    open spec fn view(&self) -> TrackerView {
        TrackerView {
            state: self.state@,
            notified_generation: optional_text(self.notified_generation),
            notification_record_usable: self.notification_record_usable,
        }
    }
}

/// The generation that is to be notified of.
pub open spec fn notice_due(tracker: TrackerView) -> Option<Seq<char>> {
    if tracker.notification_record_usable && tracker.state.status == UpdateStatus::Available
        && tracker.state.plan_generation != tracker.notified_generation {
        tracker.state.plan_generation
    } else {
        None
    }
}

/// How many updates the menu announces.
pub open spec fn badge(state: UpdateView) -> Option<nat> {
    let shows = state.status == UpdateStatus::Available || state.status
        == UpdateStatus::RestartRecommended || (state.status == UpdateStatus::Failed
        && state.repair_available);
    if shows && state.packages.len() > 0 {
        Some(state.packages.len())
    } else {
        None
    }
}

impl UpdateTracker {
    /// A tracker of what the updater says. The record of the last notification is absent, usable,
    /// or cannot be used, and then nothing is notified of.
    pub fn new(state: UpdateState, record: Result<Option<NotificationRecord>, String>) -> (tracker:
        UpdateTracker)
        ensures
            tracker@.state == state@,
            match record {
                Ok(Some(record)) => tracker@.notified_generation == Some(record.plan_generation@)
                    && tracker@.notification_record_usable,
                Ok(None) => tracker@.notified_generation is None
                    && tracker@.notification_record_usable,
                Err(_) => tracker@.notified_generation is None
                    && !tracker@.notification_record_usable,
            },
    {
        match record {
            Ok(Some(record)) => UpdateTracker {
                state,
                notified_generation: Some(record.plan_generation),
                notification_record_usable: true,
            },
            Ok(None) => UpdateTracker {
                state,
                notified_generation: None,
                notification_record_usable: true,
            },
            Err(_) => UpdateTracker {
                state,
                notified_generation: None,
                notification_record_usable: false,
            },
        }
    }

    /// How many updates the menu announces.
    pub fn badge_count(&self) -> (count: Option<usize>)
        ensures
            match count {
                Some(count) => badge(self@.state) == Some(count as nat),
                None => badge(self@.state) is None,
            },
    {
        let shows = match self.state.status {
            UpdateStatus::Available | UpdateStatus::RestartRecommended => true,
            UpdateStatus::Failed => self.state.repair_available,
            _ => false,
        };
        assert(self@.state.packages.len() == self.state.packages@.len());
        if shows && self.state.packages.len() > 0 {
            Some(self.state.packages.len())
        } else {
            None
        }
    }

    /// Takes over what the updater says: whether that is something else, and what is to be
    /// notified of.
    pub fn reload(&mut self, updated: UpdateState) -> (result: (bool, Option<UpdateNotice>))
        ensures
            final(self)@ == (TrackerView { state: updated@, ..old(self)@ }),
            result.0 == (updated@ != old(self)@.state),
            match result.1 {
                Some(notice) => notice_due(final(self)@) == Some(notice.generation@)
                    && notice.package_count == updated@.packages.len(),
                None => notice_due(final(self)@) is None,
            },
    {
        let changed = !updated.same(&self.state);
        self.state = updated;
        assert(self@.state.packages.len() == self.state.packages@.len());
        let notice = if !self.notification_record_usable || self.state.status
            != UpdateStatus::Available || same_optional(
            &self.state.plan_generation,
            &self.notified_generation,
        ) {
            None
        } else {
            match &self.state.plan_generation {
                Some(generation) => Some(
                    UpdateNotice {
                        generation: generation.clone(),
                        package_count: self.state.packages.len(),
                    },
                ),
                None => None,
            }
        };
        (changed, notice)
    }

    /// Takes note that a generation was notified of.
    pub fn mark_notified(&mut self, generation: String)
        ensures
            final(self)@ == (TrackerView {
                notified_generation: Some(generation@),
                ..old(self)@
            }),
    {
        self.notified_generation = Some(generation);
    }
}

/// Once a generation was notified of, what the updater says of the same generation is not notified
/// of again, and another generation is.
pub proof fn one_notice_per_generation(tracker: TrackerView, later: UpdateView)
    requires
        notice_due(tracker) is Some,
    ensures
        ({
            let notified = TrackerView {
                notified_generation: notice_due(tracker),
                state: later,
                ..tracker
            };
            &&& later.plan_generation == tracker.state.plan_generation ==> notice_due(notified)
                is None
            &&& later.status == UpdateStatus::Available && later.plan_generation is Some
                && later.plan_generation != tracker.state.plan_generation ==> notice_due(notified)
                == later.plan_generation
        }),
{
}

/// The text of a notification.
pub fn notification_body(package_count: usize) -> (body: String)
    ensures
        body@ == if package_count == 1 {
            "1 Debian package update is ready to review in Settings."@
        } else {
            decimal(package_count as nat)
                + " Debian package updates are ready to review in Settings."@
        },
        body@ == notice_text(package_count as nat),
{
    if package_count == 1 {
        "1 Debian package update is ready to review in Settings.".to_string()
    } else {
        join(
            decimal_text(package_count as u64).as_str(),
            " Debian package updates are ready to review in Settings.",
        )
    }
}

/// The text of a notification of so many updates.
pub open spec fn notice_text(count: nat) -> Seq<char> {
    if count == 1 {
        "1 Debian package update is ready to review in Settings."@
    } else {
        decimal(count) + " Debian package updates are ready to review in Settings."@
    }
}

/// A notification begins with the number of updates.
pub proof fn notices_begin_with_the_number(count: nat)
    ensures
        crate::text::begins_with(notice_text(count), decimal(count)),
        count != 1 ==> notice_text(count).skip(decimal(count).len() as int)
            == " Debian package updates are ready to review in Settings."@,
        count == 1 ==> notice_text(count).skip(1)
            == " Debian package update is ready to review in Settings."@,
{
    let text = notice_text(count);
    let number = decimal(count);
    if count == 1 {
        reveal_strlit("1 Debian package update is ready to review in Settings.");
        reveal_strlit(" Debian package update is ready to review in Settings.");
        assert(number =~= seq!['1']);
        assert(text.take(1) =~= number);
        assert(text.skip(1) =~= " Debian package update is ready to review in Settings."@);
    } else {
        assert(text.take(number.len() as int) =~= number);
        assert(text.skip(number.len() as int)
            =~= " Debian package updates are ready to review in Settings."@);
    }
}

/// Nothing is notified of unless updates are available, their generation is another one than was
/// notified of last, and the record of that can be used.
pub proof fn only_new_updates_are_notified_of(tracker: TrackerView)
    ensures
        !tracker.notification_record_usable ==> notice_due(tracker) is None,
        tracker.state.status != UpdateStatus::Available ==> notice_due(tracker) is None,
        tracker.state.plan_generation == tracker.notified_generation ==> notice_due(tracker) is None,
        notice_due(tracker) is Some ==> notice_due(tracker) == tracker.state.plan_generation,
        tracker.notification_record_usable && tracker.state.status == UpdateStatus::Available
            && tracker.state.plan_generation is Some && tracker.notified_generation is None
            ==> notice_due(tracker) == tracker.state.plan_generation,
{
}

/// Every update is announced while there is something to do about it: they are available, a restart
/// is recommended, or they failed and can be repaired.
pub proof fn updates_are_announced_while_open(state: UpdateView)
    ensures
        badge(state) is Some <==> state.packages.len() > 0 && (state.status
            == UpdateStatus::Available || state.status == UpdateStatus::RestartRecommended || (
        state.status == UpdateStatus::Failed && state.repair_available)),
        badge(state) is Some ==> badge(state)->0 == state.packages.len(),
{
}

/// A generation is named by 64 characters, each a digit or one of the first six small letters.
pub proof fn generations_are_named_by_digits(text: Seq<char>, at: int)
    requires
        0 <= at < text.len(),
    ensures
        is_generation(text) ==> text.len() == 64 && crate::inspector::is_icon_char(text[at]) && !(
        'A' <= text[at] <= 'Z') && !('g' <= text[at] <= 'z') && text[at] != '.' && text[at] != '-'
            && text[at] != '_',
        text.len() != 64 ==> !is_generation(text),
        text.len() == 64 && crate::text::all_digits(text) ==> is_generation(text),
        text.len() == 64 && (forall|place: int|
            0 <= place < text.len() ==> 'a' <= #[trigger] text[place] <= 'f') ==> is_generation(
            text,
        ),
{
    if is_generation(text) {
        assert(is_lower_hex(text[at]));
    }
}

} // verus!
