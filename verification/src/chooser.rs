//! Linking a registration to another file by way of dialogs.

use vstd::prelude::*;
use vstd::string::*;
use crate::paths::{from_utf8_lossy, lossy_text, FilePath};
use crate::store::{AppImageRegistration, LaunchStatus};
use crate::text::join;

verus! {

/// Where choosing another file is.
#[derive(Debug, Clone, Copy, PartialEq, Eq, Structural)]
pub enum ChooserState {
    /// A file is chosen.
    Picking,
    /// The chosen file is looked at.
    Previewing,
    /// The user is asked whether to choose again, as the file cannot be used.
    RetryingPreview,
    /// The user is asked whether another application may be used.
    Confirming,
    /// The registration is changed.
    Committing,
    /// The user is asked whether to choose again, as the registration was not changed.
    RetryingCommit,
    /// Choosing is over.
    Over,
}

/// What happened.
#[derive(Debug, Clone, Copy, PartialEq, Eq, Structural)]
pub enum ChooserEvent {
    /// A file was chosen; `local` says whether it has a path.
    Picked { local: bool },
    /// Nothing was chosen.
    Dismissed,
    /// The chosen file can be used; `differs` says whether it is another application.
    Previewed { differs: bool },
    /// What was asked was answered.
    Answered { yes: bool },
    /// The registration was changed.
    Committed,
    /// What was tried last was refused.
    Refused,
    /// A dialog could not be shown.
    Failed,
}

/// What to do next.
#[derive(Debug, Clone, Copy, PartialEq, Eq, Structural)]
pub enum ChooserAction {
    /// Let a file be chosen.
    Pick,
    /// Look at the chosen file.
    Preview,
    /// Ask whether to choose again, as the file cannot be used.
    AskAfterPreview,
    /// Ask whether another application may be used.
    AskIdentity,
    /// Change the registration; `accepts` says whether another application may be used.
    Commit { accepts: bool },
    /// Ask whether to choose again, as the registration was not changed.
    AskAfterCommit,
    /// The registration was changed.
    Relinked,
    /// The registration stays as it was.
    Cancelled,
    /// The chosen file has no path.
    NonLocalSelection,
    /// A dialog could not be shown.
    DialogFailed,
    /// Nothing.
    Nothing,
}

/// What follows in a state on what happened.
pub open spec fn chosen(state: ChooserState, event: ChooserEvent) -> (ChooserState, ChooserAction) {
    match (state, event) {
        (ChooserState::Picking, ChooserEvent::Picked { local: true }) => (
            ChooserState::Previewing,
            ChooserAction::Preview,
        ),
        (ChooserState::Picking, ChooserEvent::Picked { local: false }) => (
            ChooserState::Over,
            ChooserAction::NonLocalSelection,
        ),
        (ChooserState::Picking, ChooserEvent::Dismissed) => (
            ChooserState::Over,
            ChooserAction::Cancelled,
        ),
        (ChooserState::Previewing, ChooserEvent::Previewed { differs: true }) => (
            ChooserState::Confirming,
            ChooserAction::AskIdentity,
        ),
        (ChooserState::Previewing, ChooserEvent::Previewed { differs: false }) => (
            ChooserState::Committing,
            ChooserAction::Commit { accepts: true },
        ),
        (ChooserState::Previewing, ChooserEvent::Refused) => (
            ChooserState::RetryingPreview,
            ChooserAction::AskAfterPreview,
        ),
        (ChooserState::Confirming, ChooserEvent::Answered { yes: true }) => (
            ChooserState::Committing,
            ChooserAction::Commit { accepts: true },
        ),
        (ChooserState::Confirming, ChooserEvent::Answered { yes: false }) => (
            ChooserState::Picking,
            ChooserAction::Pick,
        ),
        (ChooserState::Committing, ChooserEvent::Committed) => (
            ChooserState::Over,
            ChooserAction::Relinked,
        ),
        (ChooserState::Committing, ChooserEvent::Refused) => (
            ChooserState::RetryingCommit,
            ChooserAction::AskAfterCommit,
        ),
        (
            ChooserState::RetryingPreview | ChooserState::RetryingCommit,
            ChooserEvent::Answered { yes },
        ) => if yes {
            (ChooserState::Picking, ChooserAction::Pick)
        } else {
            (ChooserState::Over, ChooserAction::Cancelled)
        },
        (
            ChooserState::Picking
            | ChooserState::RetryingPreview
            | ChooserState::Confirming
            | ChooserState::RetryingCommit,
            ChooserEvent::Failed,
        ) => (ChooserState::Over, ChooserAction::DialogFailed),
        _ => (state, ChooserAction::Nothing),
    }
}

/// What follows in a state on what happened. Choosing begins by letting a file be chosen.
pub fn choose_relink(state: ChooserState, event: ChooserEvent) -> (next: (
    ChooserState,
    ChooserAction,
))
    ensures
        next == chosen(state, event),
{
    match state {
        ChooserState::Picking => match event {
            ChooserEvent::Picked { local } => if local {
                (ChooserState::Previewing, ChooserAction::Preview)
            } else {
                (ChooserState::Over, ChooserAction::NonLocalSelection)
            },
            ChooserEvent::Dismissed => (ChooserState::Over, ChooserAction::Cancelled),
            ChooserEvent::Failed => (ChooserState::Over, ChooserAction::DialogFailed),
            _ => (state, ChooserAction::Nothing),
        },
        ChooserState::Previewing => match event {
            ChooserEvent::Previewed { differs } => if differs {
                (ChooserState::Confirming, ChooserAction::AskIdentity)
            } else {
                (ChooserState::Committing, ChooserAction::Commit { accepts: true })
            },
            ChooserEvent::Refused => (
                ChooserState::RetryingPreview,
                ChooserAction::AskAfterPreview,
            ),
            _ => (state, ChooserAction::Nothing),
        },
        ChooserState::Confirming => match event {
            ChooserEvent::Answered { yes } => if yes {
                (ChooserState::Committing, ChooserAction::Commit { accepts: true })
            } else {
                (ChooserState::Picking, ChooserAction::Pick)
            },
            ChooserEvent::Failed => (ChooserState::Over, ChooserAction::DialogFailed),
            _ => (state, ChooserAction::Nothing),
        },
        ChooserState::Committing => match event {
            ChooserEvent::Committed => (ChooserState::Over, ChooserAction::Relinked),
            ChooserEvent::Refused => (
                ChooserState::RetryingCommit,
                ChooserAction::AskAfterCommit,
            ),
            _ => (state, ChooserAction::Nothing),
        },
        ChooserState::RetryingPreview | ChooserState::RetryingCommit => match event {
            ChooserEvent::Answered { yes } => if yes {
                (ChooserState::Picking, ChooserAction::Pick)
            } else {
                (ChooserState::Over, ChooserAction::Cancelled)
            },
            ChooserEvent::Failed => (ChooserState::Over, ChooserAction::DialogFailed),
            _ => (state, ChooserAction::Nothing),
        },
        ChooserState::Over => (state, ChooserAction::Nothing),
    }
}

/// The state after all that happened, from the beginning on.
pub open spec fn state_after(events: Seq<ChooserEvent>) -> ChooserState
    decreases events.len(),
{
    if events.len() == 0 {
        ChooserState::Picking
    } else {
        let (state, _) = chosen(state_after(events.drop_last()), events.last());
        state
    }
}

/// A registration is only ever linked to a file that the same application is in, or that the user
/// was asked about and agreed to.
pub proof fn relinking_needs_consent(events: Seq<ChooserEvent>, event: ChooserEvent)
    requires
        ({
            let (_, action) = chosen(state_after(events), event);
            action is Commit
        }),
    ensures
        event == (ChooserEvent::Previewed { differs: false }) || (event == (
        ChooserEvent::Answered { yes: true }) && exists|at: int|
            0 <= at < events.len() && events[at] == (ChooserEvent::Previewed { differs: true })),
{
    if state_after(events) == ChooserState::Confirming {
        confirming_was_asked(events);
    }
}

/// The user is only asked about another application after one was found.
proof fn confirming_was_asked(events: Seq<ChooserEvent>)
    requires
        state_after(events) == ChooserState::Confirming,
    ensures
        exists|at: int|
            0 <= at < events.len() && events[at] == (ChooserEvent::Previewed { differs: true }),
    decreases events.len(),
{
    let front = events.drop_last();
    if state_after(front) == ChooserState::Confirming {
        confirming_was_asked(front);
        let at = choose|at: int|
            0 <= at < front.len() && front[at] == (ChooserEvent::Previewed { differs: true });
        assert(events[at] == (ChooserEvent::Previewed { differs: true }));
    } else {
        assert(events[events.len() - 1] == (ChooserEvent::Previewed { differs: true }));
    }
}

/// A choice that is over stays over: nothing is changed any more.
pub proof fn over_is_final(event: ChooserEvent)
    ensures
        chosen(ChooserState::Over, event) == (ChooserState::Over, ChooserAction::Nothing),
{
}

/// How launching an AppImage ended: the process that was started, if any, and what there is to say
/// about it.
#[derive(Debug)]
pub struct LaunchResult {
    pub status: LaunchStatus,
    pub registration: AppImageRegistration,
    pub child: Option<u32>,
    pub diagnostic: Option<String>,
}

/// How choosing another file ended: with the registration as it then is.
#[derive(Debug)]
pub enum RelinkOutcome {
    /// The registration was linked to another file.
    Relinked(AppImageRegistration),
    /// The registration was left as it is.
    Cancelled(AppImageRegistration),
}

/// What follows on a launch.
#[derive(Debug)]
pub enum LaunchFollowUp {
    /// The launch is reported.
    Report(LaunchResult),
    /// Another file is chosen; the launch is kept until then.
    Choose(LaunchResult),
    /// The AppImage is launched again.
    LaunchAgain,
}

/// What follows on a first launch, and on choosing another file where that was done: a launch that
/// succeeded is reported as it is, and one that did not leads to another file, which is launched. Where
/// none is chosen, the report says that the registration is unchanged.
pub fn launch_with_relink(first: LaunchResult, relinked: Option<RelinkOutcome>) -> (follow_up:
    LaunchFollowUp)
    ensures
        match follow_up {
            LaunchFollowUp::Report(report) => if first.status == LaunchStatus::Started {
                report == first
            } else {
                &&& relinked == Some(RelinkOutcome::Cancelled(report.registration))
                &&& report.status == first.status
                &&& report.child is None
                &&& report.diagnostic is Some
                &&& report.diagnostic->0@
                    == "target_missing: relink cancelled; registration unchanged"@
            },
            LaunchFollowUp::Choose(kept) => first.status != LaunchStatus::Started && relinked
                is None && kept == first,
            LaunchFollowUp::LaunchAgain => first.status != LaunchStatus::Started && relinked
                is Some && relinked->0 is Relinked,
        },
        next_launch_step(
            first.status == LaunchStatus::Started,
            match relinked {
                Some(RelinkOutcome::Relinked(_)) => Some(true),
                Some(RelinkOutcome::Cancelled(_)) => Some(false),
                None => None,
            },
        ) == match follow_up {
            LaunchFollowUp::Report(_) => LaunchStep::Report,
            LaunchFollowUp::Choose(_) => LaunchStep::Choose,
            LaunchFollowUp::LaunchAgain => LaunchStep::LaunchAgain,
        },
{
    if first.status == LaunchStatus::Started {
        return LaunchFollowUp::Report(first);
    }
    match relinked {
        None => LaunchFollowUp::Choose(first),
        Some(RelinkOutcome::Relinked(_)) => LaunchFollowUp::LaunchAgain,
        Some(RelinkOutcome::Cancelled(registration)) => LaunchFollowUp::Report(
            LaunchResult {
                status: first.status,
                registration,
                child: None,
                diagnostic: Some(
                    "target_missing: relink cancelled; registration unchanged".to_string(),
                ),
            },
        ),
    }
}

/// A path as it is shown.
pub fn display_path(path: &FilePath) -> (text: String)
    ensures
        text@ == lossy_text(path@),
        vstd::utf8::valid_utf8(path@) ==> text@ == vstd::utf8::decode_utf8(path@),
{
    from_utf8_lossy(path.bytes.as_slice())
}

/// What the user is told before another application is used.
pub fn identity_detail(expected: &str, found: &str, path: &FilePath) -> (detail: String)
    ensures
        detail@ == "This registration was for \u{201c}"@ + expected@
            + "\u{201d}, but the selected file identifies as \u{201c}"@ + found@
            + "\u{201d}.\n\nSelected file: "@ + lossy_text(path@),
{
    let text = join("This registration was for \u{201c}", expected);
    let text = join(
        text.as_str(),
        "\u{201d}, but the selected file identifies as \u{201c}",
    );
    let text = join(text.as_str(), found);
    let text = join(text.as_str(), "\u{201d}.\n\nSelected file: ");
    join(text.as_str(), display_path(path).as_str())
}

/// A file that was chosen is looked at before anything else, one without a path ends the choice, and
/// what cannot be used is only ever followed by a question.
pub proof fn chosen_files_are_looked_at(state: ChooserState, event: ChooserEvent)
    ensures
        ({
            let (next, action) = chosen(state, event);
            &&& action is Preview <==> state is Picking && event == (ChooserEvent::Picked {
                local: true,
            })
            &&& action is NonLocalSelection <==> state is Picking && event == (
            ChooserEvent::Picked { local: false })
            &&& action is AskIdentity <==> state is Previewing && event == (
            ChooserEvent::Previewed { differs: true })
            &&& action is AskAfterPreview <==> state is Previewing && event is Refused
            &&& action is AskAfterCommit <==> state is Committing && event is Refused
            &&& action is Preview <==> next is Previewing && !(state is Previewing)
            &&& action is AskIdentity ==> next is Confirming
            &&& action is AskAfterPreview ==> next is RetryingPreview
            &&& action is AskAfterCommit ==> next is RetryingCommit
            &&& action is Commit ==> next is Committing
            &&& action is Pick ==> next is Picking
            &&& action is Nothing ==> next == state
        }),
{
}

/// A choice ends as relinked only once the registration was changed, and as cancelled only where
/// nothing was chosen or the user does not want to choose again. A question that is answered with
/// no about another application, or with yes about choosing again, lets a file be chosen again.
pub proof fn choices_end_as_they_were_made(state: ChooserState, event: ChooserEvent)
    ensures
        ({
            let (next, action) = chosen(state, event);
            let asked_again = state is RetryingPreview || state is RetryingCommit;
            &&& action is Relinked <==> state is Committing && event is Committed
            &&& action is Cancelled <==> (state is Picking && event is Dismissed) || (asked_again
                && event == (ChooserEvent::Answered { yes: false }))
            &&& action is Pick <==> (state is Confirming && event == (ChooserEvent::Answered {
                yes: false,
            })) || (asked_again && event == (ChooserEvent::Answered { yes: true }))
            &&& action is DialogFailed <==> event is Failed && (state is Picking || asked_again
                || state is Confirming)
            &&& action is Relinked || action is Cancelled || action is DialogFailed
                || action is NonLocalSelection <==> next is Over && !(state is Over)
        }),
{
}

/// What follows on a launch, without what it says.
pub enum LaunchStep {
    Report,
    Choose,
    LaunchAgain,
}

/// What follows on a launch that started the application or not, and on choosing another file where
/// that was done: `relinked` says whether one was chosen.
pub open spec fn next_launch_step(started: bool, relinked: Option<bool>) -> LaunchStep {
    if started {
        LaunchStep::Report
    } else {
        match relinked {
            None => LaunchStep::Choose,
            Some(true) => LaunchStep::LaunchAgain,
            Some(false) => LaunchStep::Report,
        }
    }
}

/// An application that started is never launched again, another file is offered once for one that did
/// not, and a launch follows only where one was chosen.
pub proof fn launches_are_repeated_only_with_another_file(started: bool, relinked: Option<bool>)
    ensures
        next_launch_step(started, relinked) is LaunchAgain <==> !started && relinked == Some(true),
        next_launch_step(started, relinked) is Choose <==> !started && relinked is None,
        next_launch_step(started, relinked) is Report <==> started || relinked == Some(false),
{
}

} // verus!
