//! The settings of the shell and how it follows them.

use vstd::prelude::*;
use vstd::string::*;
use crate::canvas::Color;
use crate::lists::{filter_ends, filter_step};
use crate::text::{copy_texts, decimal_text, join, list_has, same_texts, text_is};
use crate::text::{decimal, optional_text, text_views};

verus! {

/// How often the settings are looked at, in milliseconds.
pub const SETTINGS_POLL_INTERVAL: u64 = 250;

/// Whether the shell is dark or light.
#[derive(Debug, Clone, Copy, PartialEq, Eq, Structural)]
pub enum ThemeMode {
    Dark,
    Light,
}

/// The settings of the shell.
#[derive(Debug, Clone, PartialEq, Eq)]
pub struct Settings {
    /// Rises with each change.
    pub generation: u64,
    pub theme: ThemeMode,
    pub background: Color,
    pub capped_task_buttons: bool,
    pub pinned_applications: Vec<String>,
}

/// [`Settings`] with their texts as sequences.
pub struct SettingsView {
    pub generation: u64,
    pub theme: ThemeMode,
    pub background: Color,
    pub capped_task_buttons: bool,
    pub pinned_applications: Seq<Seq<char>>,
}

impl View for Settings {
    type V = SettingsView;

    open spec fn view(&self) -> SettingsView {
        SettingsView {
            generation: self.generation,
            theme: self.theme,
            background: self.background,
            capped_task_buttons: self.capped_task_buttons,
            pinned_applications: text_views(self.pinned_applications@),
        }
    }
}

/// Whether an application is not the one named.
pub open spec fn is_other(id: Seq<char>) -> spec_fn(Seq<char>) -> bool {
    |other: Seq<char>| other != id
}

/// The settings with an application pinned or not: nothing changes where it is so already.
pub open spec fn pin_changed(settings: SettingsView, id: Seq<char>, pinned: bool) -> SettingsView {
    if settings.pinned_applications.contains(id) == pinned {
        settings
    } else {
        SettingsView {
            generation: (settings.generation + 1) as u64,
            pinned_applications: if pinned {
                settings.pinned_applications.push(id)
            } else {
                settings.pinned_applications.filter(is_other(id))
            },
            ..settings
        }
    }
}

/// How a request to pin an application ends.
#[derive(Debug, Clone, Copy, PartialEq, Eq, Structural)]
pub enum PinOutcome {
    /// It is as asked already.
    Unchanged,
    /// The settings changed and are to be saved.
    Changed,
    /// The generation cannot rise any further.
    GenerationOverflow,
}

impl Settings {
    /// A copy of these settings.
    pub fn duplicate(&self) -> (copy: Settings)
        ensures
            copy@ == self@,
    {
        Settings {
            generation: self.generation,
            theme: self.theme,
            background: self.background,
            capped_task_buttons: self.capped_task_buttons,
            pinned_applications: copy_texts(&self.pinned_applications),
        }
    }

    /// Whether these are the same settings as `other`.
    pub fn same(&self, other: &Settings) -> (same: bool)
        ensures
            same == (self@ == other@),
    {
        self.generation == other.generation && self.theme == other.theme && self.background
            == other.background && self.capped_task_buttons == other.capped_task_buttons
            && same_texts(&self.pinned_applications, &other.pinned_applications)
    }

    /// Pins or unpins an application.
    pub fn set_application_pinned(&mut self, id: &String, pinned: bool) -> (outcome: PinOutcome)
        ensures
            ({
                let unchanged = old(self)@.pinned_applications.contains(id@) == pinned;
                &&& outcome == if unchanged {
                    PinOutcome::Unchanged
                } else if old(self)@.generation == u64::MAX {
                    PinOutcome::GenerationOverflow
                } else {
                    PinOutcome::Changed
                }
                &&& final(self)@ == if outcome == PinOutcome::Changed {
                    pin_changed(old(self)@, id@, pinned)
                } else {
                    old(self)@
                }
            }),
    {
        if list_has(&self.pinned_applications, id) == pinned {
            return PinOutcome::Unchanged;
        }
        if self.generation == u64::MAX {
            return PinOutcome::GenerationOverflow;
        }
        let ghost before = self@.pinned_applications;
        if pinned {
            self.pinned_applications.push(id.clone());
            assert(self@.pinned_applications =~= before.push(id@));
        } else {
            self.pinned_applications = without_text(&self.pinned_applications, id);
        }
        self.generation = self.generation + 1;
        PinOutcome::Changed
    }
}

/// The texts of a list that are not `text`.
pub fn without_text(texts: &Vec<String>, text: &String) -> (others: Vec<String>)
    ensures
        text_views(others@) == text_views(texts@).filter(is_other(text@)),
{
    let ghost views = text_views(texts@);
    let ghost keep = is_other(text@);
    let mut others: Vec<String> = Vec::new();
    let mut at: usize = 0;
    proof {
        filter_ends(views, keep);
    }
    assert(text_views(others@) =~= views.take(0).filter(keep));
    while at < texts.len()
        invariant
            at <= texts.len(),
            views == text_views(texts@),
            keep == is_other(text@),
            text_views(others@) == views.take(at as int).filter(keep),
        decreases texts.len() - at,
    {
        let ghost kept = text_views(others@);
        proof {
            filter_step(views, keep, at as int);
        }
        assert(views[at as int] == texts@[at as int]@);
        if !text_is(&texts[at], text.as_str()) {
            let other = texts[at].clone();
            others.push(other);
            assert(text_views(others@) =~= kept.push(other@));
        }
        at = at + 1;
    }
    proof {
        filter_ends(views, keep);
    }
    others
}

/// Pinning an application that is not pinned, and then unpinning it, leaves the same applications
/// pinned, under a generation that has risen twice.
pub proof fn unpinning_undoes_pinning(settings: SettingsView, id: Seq<char>)
    requires
        !settings.pinned_applications.contains(id),
        settings.generation + 2 <= u64::MAX,
    ensures
        pin_changed(pin_changed(settings, id, true), id, false) == (SettingsView {
            generation: (settings.generation + 2) as u64,
            ..settings
        }),
{
    let pinned = settings.pinned_applications;
    let longer = pinned.push(id);
    assert(longer[pinned.len() as int] == id);
    reveal(Seq::filter);
    assert(longer.drop_last() =~= pinned);
    nothing_filtered(pinned, id);
}

/// Taking out what is not there changes nothing.
proof fn nothing_filtered(texts: Seq<Seq<char>>, id: Seq<char>)
    requires
        !texts.contains(id),
    ensures
        texts.filter(is_other(id)) == texts,
    decreases texts.len(),
{
    reveal(Seq::filter);
    if texts.len() > 0 {
        assert(texts.last() != id) by {
            if texts.last() == id {
                assert(texts[texts.len() - 1] == id);
            }
        }
        assert(!texts.drop_last().contains(id)) by {
            if texts.drop_last().contains(id) {
                let at = choose|at: int|
                    0 <= at < texts.drop_last().len() && texts.drop_last()[at] == id;
                assert(texts[at] == id);
            }
        }
        nothing_filtered(texts.drop_last(), id);
        assert(texts.drop_last().push(texts.last()) =~= texts);
    } else {
        assert(texts.filter(is_other(id)) =~= texts);
    }
}

/// What the shell knows of its settings.
#[derive(Debug)]
pub struct SettingsTracker {
    /// The settings that are in force.
    pub applied: Settings,
    /// When they were looked at last, in milliseconds.
    pub last_check: u64,
    /// What was wrong with them last.
    pub last_error: Option<String>,
}

/// What is wrong with settings that were read, where something is.
pub open spec fn refusal(applied: SettingsView, read: SettingsView) -> Option<Seq<char>> {
    if read == applied || read.generation > applied.generation {
        None
    } else if read.generation < applied.generation {
        Some(
            "refusing stale settings generation "@ + decimal(read.generation as nat)
                + "; current generation is "@ + decimal(applied.generation as nat),
        )
    } else {
        Some(
            "settings content changed without advancing generation "@ + decimal(
                read.generation as nat,
            ),
        )
    }
}

impl SettingsTracker {
    /// A tracker of settings that are in force since `now`.
    pub fn new(applied: Settings, now: u64) -> (tracker: SettingsTracker)
        ensures
            tracker.applied@ == applied@,
            tracker.last_check == now,
            tracker.last_error is None,
    {
        SettingsTracker { applied, last_check: now, last_error: None }
    }

    /// Whether it is time to look at the settings again; if so, they count as looked at.
    pub fn is_due(&mut self, now: u64) -> (due: bool)
        ensures
            due == (now - old(self).last_check >= SETTINGS_POLL_INTERVAL),
            (due, final(self).last_check) == look_due(old(self).last_check, now),
            final(self).last_check == if due {
                now
            } else {
                old(self).last_check
            },
            final(self).applied == old(self).applied,
            final(self).last_error == old(self).last_error,
    {
        if now.saturating_sub(self.last_check) < SETTINGS_POLL_INTERVAL {
            return false;
        }
        self.last_check = now;
        true
    }

    /// The settings that were read, where they are to be put in force: they differ from those in
    /// force and have a higher generation. What is wrong with others is remembered.
    pub fn candidate(&mut self, read: Result<Settings, String>) -> (settings: Option<Settings>)
        ensures
            final(self).applied@ == old(self).applied@,
            final(self).last_check == old(self).last_check,
            match read {
                Ok(read) => {
                    let refused = refusal(old(self).applied@, read@);
                    &&& match settings {
                        Some(settings) => settings@ == read@ && read@.generation > old(
                            self,
                        ).applied@.generation,
                        None => read@.generation <= old(self).applied@.generation,
                    }
                    &&& optional_text(final(self).last_error) == if settings is Some {
                        optional_text(old(self).last_error)
                    } else {
                        refused
                    }
                },
                Err(error) => settings is None && optional_text(final(self).last_error) == Some(
                    error@,
                ),
            },
    {
        let read = match read {
            Ok(read) => read,
            Err(error) => {
                self.last_error = Some(error);
                return None;
            },
        };
        if read.same(&self.applied) {
            self.last_error = None;
            return None;
        }
        if read.generation < self.applied.generation {
            let front = join(
                "refusing stale settings generation ",
                decimal_text(read.generation).as_str(),
            );
            let error = join(
                join(front.as_str(), "; current generation is ").as_str(),
                decimal_text(self.applied.generation).as_str(),
            );
            self.last_error = Some(error);
            return None;
        }
        if read.generation == self.applied.generation {
            let error = join(
                "settings content changed without advancing generation ",
                decimal_text(read.generation).as_str(),
            );
            self.last_error = Some(error);
            return None;
        }
        Some(read)
    }

    /// Puts settings in force.
    pub fn commit(&mut self, settings: Settings)
        ensures
            final(self).applied@ == settings@,
            final(self).last_check == old(self).last_check,
            final(self).last_error is None,
    {
        self.applied = settings;
        self.last_error = None;
    }

    /// Remembers why settings could not be put in force.
    pub fn reject(&mut self, error: String)
        ensures
            final(self).applied == old(self).applied,
            final(self).last_check == old(self).last_check,
            optional_text(final(self).last_error) == Some(error@),
    {
        self.last_error = Some(error);
    }
}

/// An application is pinned exactly where it was asked to be; all others stay as they are, and so do
/// the other settings. Every change raises the generation by one, and asking for what is so already
/// changes nothing.
pub proof fn pinning_changes_one_application(
    settings: SettingsView,
    id: Seq<char>,
    pinned: bool,
    other: Seq<char>,
)
    requires
        settings.generation < u64::MAX,
    ensures
        ({
            let after = pin_changed(settings, id, pinned);
            &&& after.pinned_applications.contains(id) == pinned
            &&& other != id ==> after.pinned_applications.contains(other)
                == settings.pinned_applications.contains(other)
            &&& after.theme == settings.theme
            &&& after.background == settings.background
            &&& after.capped_task_buttons == settings.capped_task_buttons
            &&& settings.pinned_applications.contains(id) == pinned <==> after.generation
                == settings.generation
            &&& settings.pinned_applications.contains(id) != pinned ==> after.generation
                == settings.generation + 1
            &&& settings.pinned_applications.contains(id) == pinned ==> after == settings
        }),
{
    let before = settings.pinned_applications;
    let after = pin_changed(settings, id, pinned).pinned_applications;
    if before.contains(id) != pinned {
        if pinned {
            assert(after[before.len() as int] == id);
            if before.contains(other) {
                let at = choose|at: int| 0 <= at < before.len() && before[at] == other;
                assert(after[at] == other);
            }
            if after.contains(other) && other != id {
                let at = choose|at: int| 0 <= at < after.len() && after[at] == other;
                assert(before[at] == other);
            }
        } else {
            let keep = is_other(id);
            if after.contains(id) {
                let at = choose|at: int| 0 <= at < after.len() && after[at] == id;
                let place = crate::lists::kept_is_there(before, keep, at);
                assert(before[place] == id);
            }
            if before.contains(other) && other != id {
                let place = choose|place: int| 0 <= place < before.len() && before[place] == other;
                let at = crate::lists::kept_is_found(before, keep, place);
                assert(after[at] == other);
            }
            if after.contains(other) {
                let at = choose|at: int| 0 <= at < after.len() && after[at] == other;
                let place = crate::lists::kept_is_there(before, keep, at);
                assert(before[place] == other);
            }
        }
    }
}

/// Settings are refused exactly where they are older than those in force, or differ from them under
/// the same generation.
pub proof fn only_newer_settings_come_into_force(applied: SettingsView, read: SettingsView)
    ensures
        refusal(applied, read) is Some <==> read != applied && read.generation
            <= applied.generation,
        read.generation > applied.generation ==> refusal(applied, read) is None,
        refusal(applied, applied) is None,
        read.generation < applied.generation ==> refusal(applied, read) is Some,
{
}

/// Whether it is time to look at the settings again, and when they were looked at last then.
pub open spec fn look_due(last_check: u64, now: u64) -> (bool, u64) {
    if now - last_check >= SETTINGS_POLL_INTERVAL {
        (true, now)
    } else {
        (false, last_check)
    }
}

/// Settings are looked at again once the time for that has passed, and then not before it has passed
/// again.
pub proof fn settings_are_looked_at_from_time_to_time(last_check: u64, now: u64, next: u64)
    ensures
        last_check + SETTINGS_POLL_INTERVAL <= now ==> look_due(last_check, now) == (true, now),
        now < last_check + SETTINGS_POLL_INTERVAL ==> look_due(last_check, now) == (
            false,
            last_check,
        ),
        look_due(last_check, now).0 && next < now + SETTINGS_POLL_INTERVAL ==> !look_due(
            look_due(last_check, now).1,
            next,
        ).0,
{
}

} // verus!
