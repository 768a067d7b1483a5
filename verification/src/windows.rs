//! What the compositor is asked to do with a window, one confirmed step after the other.

use vstd::prelude::*;
use vstd::string::*;
use crate::arith::{add_i32, clamp_i32, max_i32, min_i32, sub_i32};
use crate::arith::{clamp_of, max_of, min_of, saturate_i32};
use crate::lists::{kept_is_found, kept_is_there};
use crate::marks::restore_mark;
use crate::marks::restore_mark_of;
use crate::sway_ipc::{Rect, WindowState};
use crate::sway_ipc::{window_views, WindowView};
use crate::text::{decimal_text, join, join_texts, list_has, signed_decimal_text, text_is};
use crate::text::{begins_with, finishes_with};
use crate::text::{decimal, joined_with, signed_decimal, text_views};

verus! {

/// The frame nearest to `frame` that lies in `workspace`.
pub open spec fn clamped(frame: Rect, workspace: Rect) -> Rect {
    let width = min_of(max_of(frame.width as int, 1), max_of(workspace.width as int, 1));
    let height = min_of(max_of(frame.height as int, 1), max_of(workspace.height as int, 1));
    Rect {
        x: clamp_of(
            frame.x as int,
            workspace.x as int,
            saturate_i32(workspace.x + saturate_i32(workspace.width - width)),
        ) as i32,
        y: clamp_of(
            frame.y as int,
            workspace.y as int,
            saturate_i32(workspace.y + saturate_i32(workspace.height - height)),
        ) as i32,
        width: width as i32,
        height: height as i32,
    }
}

/// Whether a frame can lie in a rectangle.
pub open spec fn has_room(workspace: Rect) -> bool {
    workspace.width >= 1 && workspace.height >= 1
}

/// The frame nearest to `frame` that lies in `workspace`.
pub fn clamp_to_workspace(frame: Rect, workspace: Rect) -> (inside: Rect)
    requires
        has_room(workspace),
    ensures
        inside == clamped(frame, workspace),
{
    let width: i32 = min_i32(max_i32(frame.width, 1), max_i32(workspace.width, 1));
    let height: i32 = min_i32(max_i32(frame.height, 1), max_i32(workspace.height, 1));
    let maximum_x: i32 = add_i32(workspace.x, sub_i32(workspace.width, width));
    let maximum_y: i32 = add_i32(workspace.y, sub_i32(workspace.height, height));
    Rect {
        x: clamp_i32(frame.x, workspace.x, maximum_x),
        y: clamp_i32(frame.y, workspace.y, maximum_y),
        width,
        height,
    }
}

/// Whether `inner` lies in `outer`.
pub open spec fn lies_in(inner: Rect, outer: Rect) -> bool {
    &&& outer.x <= inner.x
    &&& outer.y <= inner.y
    &&& inner.x + inner.width <= outer.x + outer.width
    &&& inner.y + inner.height <= outer.y + outer.height
}

/// A clamped frame is not empty and lies in the workspace. One that already lies there is not
/// changed, so that clamping twice is clamping once.
pub proof fn clamping_keeps_windows_visible(frame: Rect, workspace: Rect)
    requires
        has_room(workspace),
        workspace.x + workspace.width <= i32::MAX,
        workspace.y + workspace.height <= i32::MAX,
    ensures
        lies_in(clamped(frame, workspace), workspace),
        clamped(frame, workspace).width >= 1,
        clamped(frame, workspace).height >= 1,
        clamped(frame, workspace) == frame <==> lies_in(frame, workspace) && frame.width >= 1
            && frame.height >= 1,
        clamped(clamped(frame, workspace), workspace) == clamped(frame, workspace),
{
}

/// The commands that take the marks off a window.
pub open spec fn unmark_texts(marks: Seq<Seq<char>>) -> Seq<Seq<char>> {
    marks.map_values(|mark: Seq<char>| "unmark "@ + mark)
}

/// The commands that give a window a frame.
pub open spec fn frame_texts(frame: Rect) -> Seq<Seq<char>> {
    seq![
        "fullscreen disable"@,
        "floating enable"@,
        "resize set width "@ + signed_decimal(max_of(frame.width as int, 1)) + " px height "@
            + signed_decimal(max_of(frame.height as int, 1)) + " px"@,
        "move absolute position "@ + signed_decimal(frame.x as int) + " px "@ + signed_decimal(
            frame.y as int,
        ) + " px"@,
    ]
}

/// Appends the commands that take the marks off a window.
pub fn remove_restore_mark_commands(state: &WindowState, commands: &mut Vec<String>)
    ensures
        text_views(final(commands)@) == text_views(old(commands)@) + unmark_texts(
            state@.restore_marks,
        ),
{
    let ghost before = text_views(commands@);
    let ghost marks = state@.restore_marks;
    let mut at: usize = 0;
    assert(before =~= before + unmark_texts(marks.take(0)));
    while at < state.restore_marks.len()
        invariant
            at <= state.restore_marks.len(),
            marks == text_views(state.restore_marks@),
            text_views(commands@) == before + unmark_texts(marks.take(at as int)),
        decreases state.restore_marks.len() - at,
    {
        let ghost sofar = text_views(commands@);
        let command = join("unmark ", state.restore_marks[at].as_str());
        commands.push(command);
        assert(text_views(commands@) =~= sofar.push(command@));
        assert(text_views(commands@) =~= before + unmark_texts(marks.take(at + 1)));
        at = at + 1;
    }
    assert(marks.take(at as int) =~= marks);
}

/// Appends a command.
fn add_command(commands: &mut Vec<String>, command: String)
    ensures
        text_views(final(commands)@) == text_views(old(commands)@).push(command@),
{
    commands.push(command);
    assert(text_views(commands@) =~= text_views(old(commands)@).push(command@));
}

/// Appends a command.
fn add_text(commands: &mut Vec<String>, command: &str)
    ensures
        text_views(final(commands)@) == text_views(old(commands)@).push(command@),
{
    add_command(commands, command.to_string());
}

/// Appends the commands that give a window a frame.
pub fn frame_commands(frame: Rect, commands: &mut Vec<String>)
    ensures
        text_views(final(commands)@) == text_views(old(commands)@) + frame_texts(frame),
{
    let ghost before = text_views(commands@);
    add_text(commands, "fullscreen disable");
    add_text(commands, "floating enable");
    let width = signed_decimal_text(max_i32(frame.width, 1));
    let height = signed_decimal_text(max_i32(frame.height, 1));
    let size = join(
        join(join(join("resize set width ", width.as_str()).as_str(), " px height ").as_str(), height.as_str()).as_str(),
        " px",
    );
    add_command(commands, size);
    let x = signed_decimal_text(frame.x);
    let y = signed_decimal_text(frame.y);
    let place = join(
        join(join(join("move absolute position ", x.as_str()).as_str(), " px ").as_str(), y.as_str()).as_str(),
        " px",
    );
    add_command(commands, place);
    assert(text_views(commands@) =~= before + frame_texts(frame));
}

/// What the tree must show of a window before a step counts as done.
#[derive(Debug, Clone, PartialEq, Eq)]
pub enum Confirm {
    Shown,
    Frame(Rect),
    FocusedAndShown,
    FrameFocused(Rect),
    FrameNormal(Rect),
    Minimized,
    NotFullscreen,
    Maximized(Rect),
    Restored,
    OnWorkspace(String),
}

/// A [`Confirm`] with its name as a sequence.
pub enum ConfirmView {
    Shown,
    Frame(Rect),
    FocusedAndShown,
    FrameFocused(Rect),
    FrameNormal(Rect),
    Minimized,
    NotFullscreen,
    Maximized(Rect),
    Restored,
    OnWorkspace(Seq<char>),
}

impl View for Confirm {
    type V = ConfirmView;

    open spec fn view(&self) -> ConfirmView {
        match self {
            Confirm::Shown => ConfirmView::Shown,
            Confirm::Frame(frame) => ConfirmView::Frame(*frame),
            Confirm::FocusedAndShown => ConfirmView::FocusedAndShown,
            Confirm::FrameFocused(frame) => ConfirmView::FrameFocused(*frame),
            Confirm::FrameNormal(frame) => ConfirmView::FrameNormal(*frame),
            Confirm::Minimized => ConfirmView::Minimized,
            Confirm::NotFullscreen => ConfirmView::NotFullscreen,
            Confirm::Maximized(frame) => ConfirmView::Maximized(*frame),
            Confirm::Restored => ConfirmView::Restored,
            Confirm::OnWorkspace(name) => ConfirmView::OnWorkspace(name@),
        }
    }
}

/// Whether the tree shows what `confirm` waits for.
pub open spec fn is_confirmed(confirm: ConfirmView, state: WindowView) -> bool {
    match confirm {
        ConfirmView::Shown => !state.flags.minimized,
        ConfirmView::Frame(frame) => state.place.rect == frame,
        ConfirmView::FocusedAndShown => state.flags.focused && !state.flags.minimized,
        ConfirmView::FrameFocused(frame) => state.place.rect == frame && state.flags.focused
            && !state.flags.minimized,
        ConfirmView::FrameNormal(frame) => state.place.rect == frame && !state.flags.minimized
            && !state.flags.fullscreen,
        ConfirmView::Minimized => state.flags.minimized,
        ConfirmView::NotFullscreen => !state.flags.fullscreen,
        ConfirmView::Maximized(frame) => state.flags.maximized && state.place.rect == frame,
        ConfirmView::Restored => !state.flags.minimized && !state.flags.maximized
            && state.flags.focused,
        ConfirmView::OnWorkspace(name) => state.place.workspace == name,
    }
}

impl Confirm {
    /// Whether the tree shows what this waits for.
    pub fn holds(&self, state: &WindowState) -> (holds: bool)
        ensures
            holds == is_confirmed(self@, state@),
    {
        match self {
            Confirm::Shown => !state.minimized,
            Confirm::Frame(frame) => state.rect == *frame,
            Confirm::FocusedAndShown => state.focused && !state.minimized,
            Confirm::FrameFocused(frame) => state.rect == *frame && state.focused
                && !state.minimized,
            Confirm::FrameNormal(frame) => state.rect == *frame && !state.minimized
                && !state.fullscreen,
            Confirm::Minimized => state.minimized,
            Confirm::NotFullscreen => !state.fullscreen,
            Confirm::Maximized(frame) => state.maximized && state.rect == *frame,
            Confirm::Restored => !state.minimized && !state.maximized && state.focused,
            Confirm::OnWorkspace(name) => text_is(&state.workspace, name.as_str()),
        }
    }
}

/// How far an operation on a window has come.
#[derive(Debug, Clone, Copy, PartialEq, Eq, Structural)]
pub enum Stage {
    /// Nothing was done.
    Start,
    /// The window was taken out of the scratchpad.
    Shown,
    /// The window got its maximized frame back.
    Reframed,
    /// The window was minimized at the start, or not, and left fullscreen if it was in it.
    Windowed(bool),
    /// The window has the focus.
    Focused,
}

/// What to do next with a window. A stage after a step is entered with the state that confirmed the
/// step.
#[derive(Debug)]
pub enum Step {
    /// Nothing is left to be done.
    Done,
    /// The window is on no workspace.
    NoWorkspace,
    /// Run the commands, wait for the confirmation, and go on with the next stage if there is one.
    Run { commands: Vec<String>, confirm: Confirm, next: Option<Stage> },
}

/// A [`Step`] with its texts as sequences.
pub enum StepView {
    Done,
    NoWorkspace,
    Run(Seq<Seq<char>>, ConfirmView, Option<Stage>),
}

impl View for Step {
    type V = StepView;

    open spec fn view(&self) -> StepView {
        match self {
            Step::Done => StepView::Done,
            Step::NoWorkspace => StepView::NoWorkspace,
            Step::Run { commands, confirm, next } => StepView::Run(
                text_views(commands@),
                confirm@,
                *next,
            ),
        }
    }
}

/// A step of one command.
fn run_one(command: &str, confirm: Confirm, next: Option<Stage>) -> (step: Step)
    ensures
        step@ == StepView::Run(seq![command@], confirm@, next),
{
    let mut commands: Vec<String> = Vec::new();
    add_text(&mut commands, command);
    assert(text_views(commands@) =~= seq![command@]);
    Step::Run { commands, confirm, next }
}

/// Whether a window can be clamped into its workspace, if it is on one.
pub open spec fn workspace_usable(state: WindowView) -> bool {
    match state.place.workspace_rect {
        Some(workspace) => has_room(workspace),
        None => true,
    }
}

/// Whether a window can be clamped into its workspace, if it is on one.
pub fn can_be_clamped(state: &WindowState) -> (usable: bool)
    ensures
        usable == workspace_usable(state@),
{
    match state.workspace_rect {
        Some(workspace) => workspace.width >= 1 && workspace.height >= 1,
        None => true,
    }
}

/// The next step on the way to the focus.
pub open spec fn focus_step(stage: Stage, state: WindowView) -> StepView {
    let grab = StepView::Run(seq!["focus"@], ConfirmView::FocusedAndShown, None);
    match stage {
        Stage::Start => if state.flags.minimized {
            StepView::Run(seq!["scratchpad show"@], ConfirmView::Shown, Some(Stage::Shown))
        } else {
            grab
        },
        Stage::Shown => match (state.restore_frame, state.place.workspace_rect) {
            (Some(_), Some(workspace)) => StepView::Run(
                frame_texts(workspace),
                ConfirmView::Frame(workspace),
                Some(Stage::Reframed),
            ),
            (Some(_), None) => StepView::NoWorkspace,
            (None, _) => grab,
        },
        _ => grab,
    }
}

/// The next step on the way to the focus: a minimized window is shown first, and where it was
/// maximized it fills its workspace again.
pub fn focus(stage: Stage, state: &WindowState) -> (step: Step)
    ensures
        step@ == focus_step(stage, state@),
{
    match stage {
        Stage::Start => if state.minimized {
            return run_one("scratchpad show", Confirm::Shown, Some(Stage::Shown));
        },
        Stage::Shown => if state.restore_frame.is_some() {
            return match state.workspace_rect {
                Some(workspace) => {
                    let mut commands: Vec<String> = Vec::new();
                    frame_commands(workspace, &mut commands);
                    assert(text_views(commands@) =~= frame_texts(workspace));
                    Step::Run {
                        commands,
                        confirm: Confirm::Frame(workspace),
                        next: Some(Stage::Reframed),
                    }
                },
                None => Step::NoWorkspace,
            };
        },
        _ => {},
    }
    run_one("focus", Confirm::FocusedAndShown, None)
}

/// The next step that brings a window into view: the focus first, then a frame inside the
/// workspace.
pub open spec fn bring_step(stage: Stage, state: WindowView) -> StepView {
    if stage != Stage::Focused {
        match focus_step(stage, state) {
            StepView::Run(commands, confirm, None) => StepView::Run(
                commands,
                confirm,
                Some(Stage::Focused),
            ),
            step => step,
        }
    } else if state.flags.maximized || state.flags.fullscreen {
        StepView::Done
    } else {
        match state.place.workspace_rect {
            None => StepView::NoWorkspace,
            Some(workspace) => {
                let visible = clamped(state.place.rect, workspace);
                if visible == state.place.rect {
                    StepView::Done
                } else {
                    StepView::Run(
                        (unmark_texts(state.restore_marks) + frame_texts(visible)).push("focus"@),
                        ConfirmView::FrameFocused(visible),
                        None,
                    )
                }
            },
        }
    }
}

/// The next step that brings a window into view.
pub fn bring_into_view(stage: Stage, state: &WindowState) -> (step: Step)
    requires
        stage == Stage::Focused && !state@.flags.maximized && !state@.flags.fullscreen
            ==> workspace_usable(state@),
    ensures
        step@ == bring_step(stage, state@),
{
    if stage != Stage::Focused {
        return match focus(stage, state) {
            Step::Run { commands, confirm, next: None } => Step::Run {
                commands,
                confirm,
                next: Some(Stage::Focused),
            },
            step => step,
        };
    }
    if state.maximized || state.fullscreen {
        return Step::Done;
    }
    let workspace = match state.workspace_rect {
        Some(workspace) => workspace,
        None => {
            return Step::NoWorkspace;
        },
    };
    let visible = clamp_to_workspace(state.rect, workspace);
    if visible == state.rect {
        return Step::Done;
    }
    let mut commands: Vec<String> = Vec::new();
    remove_restore_mark_commands(state, &mut commands);
    frame_commands(visible, &mut commands);
    add_text(&mut commands, "focus");
    assert(text_views(commands@) =~= (unmark_texts(state@.restore_marks) + frame_texts(
        visible,
    )).push("focus"@));
    Step::Run { commands, confirm: Confirm::FrameFocused(visible), next: None }
}

/// The step that moves a new window into its workspace.
pub open spec fn constrain_step(state: WindowView) -> StepView {
    if state.flags.minimized || state.flags.fullscreen {
        StepView::Done
    } else {
        match state.place.workspace_rect {
            None => StepView::NoWorkspace,
            Some(workspace) => {
                let visible = clamped(state.place.rect, workspace);
                if visible == state.place.rect {
                    StepView::Done
                } else {
                    StepView::Run(
                        unmark_texts(state.restore_marks) + frame_texts(visible),
                        ConfirmView::FrameNormal(visible),
                        None,
                    )
                }
            },
        }
    }
}

/// The step that moves a new window into its workspace, without taking the focus.
pub fn constrain_new_window(state: &WindowState) -> (step: Step)
    requires
        !state@.flags.minimized && !state@.flags.fullscreen ==> workspace_usable(state@),
    ensures
        step@ == constrain_step(state@),
{
    if state.minimized || state.fullscreen {
        return Step::Done;
    }
    let workspace = match state.workspace_rect {
        Some(workspace) => workspace,
        None => {
            return Step::NoWorkspace;
        },
    };
    let visible = clamp_to_workspace(state.rect, workspace);
    if visible == state.rect {
        return Step::Done;
    }
    let mut commands: Vec<String> = Vec::new();
    remove_restore_mark_commands(state, &mut commands);
    frame_commands(visible, &mut commands);
    assert(text_views(commands@) =~= unmark_texts(state@.restore_marks) + frame_texts(visible));
    Step::Run { commands, confirm: Confirm::FrameNormal(visible), next: None }
}

/// Once the frame that a new window is given is confirmed, nothing is left to be done with it.
pub proof fn constrained_window_stays(before: WindowView, after: WindowView)
    requires
        workspace_usable(before),
        after.place.workspace_rect == before.place.workspace_rect,
        match before.place.workspace_rect {
            Some(workspace) => workspace.x + workspace.width <= i32::MAX && workspace.y
                + workspace.height <= i32::MAX,
            None => true,
        },
        match constrain_step(before) {
            StepView::Run(_, confirm, _) => is_confirmed(confirm, after),
            _ => false,
        },
    ensures
        constrain_step(after) is Done,
{
    clamping_keeps_windows_visible(before.place.rect, before.place.workspace_rect->0);
}

/// The commands that put a window into the scratchpad.
pub open spec fn minimize_texts(state: WindowView) -> Seq<Seq<char>> {
    let unmark = if state.flags.maximized {
        seq![]
    } else {
        unmark_texts(state.restore_marks)
    };
    unmark.push(
        if state.flags.scratchpad {
            "scratchpad show"@
        } else {
            "move scratchpad"@
        },
    )
}

/// The commands that put a window into the scratchpad. Only a maximized window keeps its mark.
fn minimize_commands(state: &WindowState) -> (commands: Vec<String>)
    ensures
        text_views(commands@) == minimize_texts(state@),
{
    let mut commands: Vec<String> = Vec::new();
    if !state.maximized {
        remove_restore_mark_commands(state, &mut commands);
        assert(text_views(commands@) =~= unmark_texts(state@.restore_marks));
    }
    assert(state.maximized ==> text_views(commands@) =~= seq![]);
    if state.scratchpad {
        add_text(&mut commands, "scratchpad show");
    } else {
        add_text(&mut commands, "move scratchpad");
    }
    commands
}

/// The step that minimizes a window.
pub open spec fn minimize_step(state: WindowView) -> StepView {
    if state.flags.minimized {
        StepView::Done
    } else {
        StepView::Run(minimize_texts(state), ConfirmView::Minimized, None)
    }
}

/// The step that minimizes a window.
pub fn minimize(state: &WindowState) -> (step: Step)
    ensures
        step@ == minimize_step(state@),
{
    if state.minimized {
        return Step::Done;
    }
    Step::Run { commands: minimize_commands(state), confirm: Confirm::Minimized, next: None }
}

/// Whether a window is not minimized.
pub open spec fn is_shown() -> spec_fn(WindowView) -> bool {
    |window: WindowView| !window.flags.minimized
}

/// The command that minimizes one of several windows.
pub open spec fn minimize_text(state: WindowView) -> Seq<char> {
    "[con_id="@ + decimal(state.container_id as nat) + "] "@ + joined_with(
        minimize_texts(state),
        ", "@,
    )
}

/// The commands that minimize each of the windows.
pub open spec fn minimize_all_texts(windows: Seq<WindowView>) -> Seq<Seq<char>> {
    windows.map_values(|window: WindowView| minimize_text(window))
}

/// The identifiers of the windows.
pub open spec fn identifiers_of(windows: Seq<WindowView>) -> Seq<Seq<char>> {
    windows.map_values(|window: WindowView| window.identifier)
}

/// The command that minimizes every window that is shown, and the identifiers of those windows;
/// nothing where none is shown.
pub fn minimize_all_visible(windows: &Vec<WindowState>) -> (request: Option<(String, Vec<String>)>)
    ensures
        ({
            let shown = window_views(windows@).filter(is_shown());
            match request {
                Some((command, identifiers)) => shown.len() > 0 && command@ == joined_with(
                    minimize_all_texts(shown),
                    "; "@,
                ) && text_views(identifiers@) == identifiers_of(shown),
                None => shown.len() == 0,
            }
        }),
{
    let ghost views = window_views(windows@);
    let mut commands: Vec<String> = Vec::new();
    let mut identifiers: Vec<String> = Vec::new();
    let mut at: usize = 0;
    proof {
        crate::lists::filter_ends(views, is_shown());
    }
    assert(text_views(commands@) =~= minimize_all_texts(views.take(0).filter(is_shown())));
    assert(text_views(identifiers@) =~= identifiers_of(views.take(0).filter(is_shown())));
    while at < windows.len()
        invariant
            at <= windows.len(),
            views == window_views(windows@),
            text_views(commands@) == minimize_all_texts(views.take(at as int).filter(is_shown())),
            text_views(identifiers@) == identifiers_of(views.take(at as int).filter(is_shown())),
        decreases windows.len() - at,
    {
        proof {
            crate::lists::filter_step(views, is_shown(), at as int);
        }
        assert(views[at as int] == windows@[at as int]@);
        let ghost kept = views.take(at as int).filter(is_shown());
        if !windows[at].minimized {
            let own = minimize_commands(&windows[at]);
            let command = join(
                join(
                    join("[con_id=", decimal_text(windows[at].container_id).as_str()).as_str(),
                    "] ",
                ).as_str(),
                join_texts(&own, ", ").as_str(),
            );
            assert(command@ == minimize_text(windows@[at as int]@));
            add_command(&mut commands, command);
            add_command(&mut identifiers, windows[at].identifier.clone());
            assert(text_views(commands@) =~= minimize_all_texts(kept.push(views[at as int])));
            assert(text_views(identifiers@) =~= identifiers_of(kept.push(views[at as int])));
        }
        at = at + 1;
    }
    proof {
        crate::lists::filter_ends(views, is_shown());
    }
    assert(text_views(commands@).len() == commands@.len());
    if commands.len() == 0 {
        return None;
    }
    Some((join_texts(&commands, "; "), identifiers))
}

/// Whether a window that should have been minimized is still shown.
pub open spec fn some_remain(windows: Seq<WindowView>, identifiers: Seq<Seq<char>>) -> bool {
    exists|at: int|
        0 <= at < windows.len() && identifiers.contains(#[trigger] windows[at].identifier)
            && !windows[at].flags.minimized
}

/// Whether one of the identified windows is still shown.
pub fn any_still_visible(windows: &Vec<WindowState>, identifiers: &Vec<String>) -> (any: bool)
    ensures
        any == some_remain(window_views(windows@), text_views(identifiers@)),
{
    let ghost views = window_views(windows@);
    let mut at: usize = 0;
    while at < windows.len()
        invariant
            at <= windows.len(),
            views == window_views(windows@),
            forall|earlier: int|
                0 <= earlier < at ==> !text_views(identifiers@).contains(
                    #[trigger] views[earlier].identifier,
                ) || views[earlier].flags.minimized,
        decreases windows.len() - at,
    {
        assert(views[at as int] == windows@[at as int]@);
        if list_has(identifiers, &windows[at].identifier) && !windows[at].minimized {
            assert(text_views(identifiers@).contains(views[at as int].identifier));
            return true;
        }
        at = at + 1;
    }
    false
}

/// The next step that maximizes a window.
pub open spec fn maximize_step(stage: Stage, state: WindowView) -> StepView {
    match stage {
        Stage::Start if state.flags.maximized => StepView::Done,
        Stage::Start if state.flags.minimized => StepView::Run(
            seq!["scratchpad show"@],
            ConfirmView::Shown,
            Some(Stage::Shown),
        ),
        Stage::Windowed(_) => fill_step(stage == Stage::Windowed(true), state),
        _ => if state.flags.fullscreen {
            StepView::Run(
                seq!["fullscreen disable"@],
                ConfirmView::NotFullscreen,
                Some(Stage::Windowed(stage == Stage::Shown)),
            )
        } else {
            fill_step(stage == Stage::Shown, state)
        },
    }
}

/// The step that makes a window fill its workspace. A mark remembers the frame to go back to: the
/// present one, or, for a window that was minimized, the one that it already remembers.
pub open spec fn fill_step(was_minimized: bool, state: WindowView) -> StepView {
    match state.place.workspace_rect {
        None => StepView::NoWorkspace,
        Some(workspace) => {
            let restore = match state.restore_frame {
                Some(frame) if was_minimized => frame,
                _ => state.place.rect,
            };
            StepView::Run(
                unmark_texts(state.restore_marks).push(
                    "mark --add "@ + restore_mark_of(state.container_id as nat, restore),
                ) + frame_texts(workspace),
                ConfirmView::Maximized(workspace),
                None,
            )
        },
    }
}

/// The step that makes a window fill its workspace.
fn fill(was_minimized: bool, state: &WindowState) -> (step: Step)
    ensures
        step@ == fill_step(was_minimized, state@),
{
    let workspace = match state.workspace_rect {
        Some(workspace) => workspace,
        None => {
            return Step::NoWorkspace;
        },
    };
    let restore = if was_minimized {
        match state.restore_frame {
            Some(frame) => frame,
            None => state.rect,
        }
    } else {
        state.rect
    };
    let mut commands: Vec<String> = Vec::new();
    remove_restore_mark_commands(state, &mut commands);
    let mark = restore_mark(state.container_id, restore);
    add_command(&mut commands, join("mark --add ", mark.as_str()));
    frame_commands(workspace, &mut commands);
    assert(text_views(commands@) =~= unmark_texts(state@.restore_marks).push(
        "mark --add "@ + restore_mark_of(state.container_id as nat, restore),
    ) + frame_texts(workspace));
    Step::Run { commands, confirm: Confirm::Maximized(workspace), next: None }
}

/// The next step that maximizes a window: it is shown and leaves fullscreen first.
pub fn maximize(stage: Stage, state: &WindowState) -> (step: Step)
    ensures
        step@ == maximize_step(stage, state@),
{
    match stage {
        Stage::Start => {
            if state.maximized {
                return Step::Done;
            }
            if state.minimized {
                return run_one("scratchpad show", Confirm::Shown, Some(Stage::Shown));
            }
        },
        Stage::Windowed(was_minimized) => {
            return fill(was_minimized, state);
        },
        _ => {},
    }
    let was_minimized = stage == Stage::Shown;
    if state.fullscreen {
        return run_one(
            "fullscreen disable",
            Confirm::NotFullscreen,
            Some(Stage::Windowed(was_minimized)),
        );
    }
    fill(was_minimized, state)
}

/// The mark that maximizing gives a window holds the frame that restoring reads back.
pub proof fn maximizing_remembers_the_frame(state: WindowView)
    requires
        state.place.rect.width > 0,
        state.place.rect.height > 0,
        state.place.workspace_rect is Some,
        !state.flags.minimized,
        !state.flags.maximized,
        !state.flags.fullscreen,
    ensures
        match maximize_step(Stage::Start, state) {
            StepView::Run(commands, _, _) => {
                let mark = restore_mark_of(state.container_id as nat, state.place.rect);
                &&& commands.contains("mark --add "@ + mark)
                &&& crate::marks::marked_frame(mark, state.container_id as nat) == Some(
                    state.place.rect,
                )
            },
            _ => false,
        },
{
    crate::marks::marked_frame_is_recovered(state.container_id as nat, state.place.rect);
    if let StepView::Run(commands, _, _) = maximize_step(Stage::Start, state) {
        let at = unmark_texts(state.restore_marks).len() as int;
        assert(commands[at] == "mark --add "@ + restore_mark_of(
            state.container_id as nat,
            state.place.rect,
        ));
    }
}

/// Whether the button that maximizes restores the window instead.
pub fn toggle_maximize(state: &WindowState) -> (restores: bool)
    ensures
        restores == (state@.flags.minimized || state@.flags.maximized),
        restores == is_restored_by_toggling(state@),
{
    state.minimized || state.maximized
}

/// The next step that restores a window.
pub open spec fn restore_step(stage: Stage, state: WindowView) -> StepView {
    if stage == Stage::Start && state.flags.minimized {
        StepView::Run(seq!["scratchpad show"@], ConfirmView::Shown, Some(Stage::Shown))
    } else {
        match (state.restore_frame, state.place.workspace_rect) {
            (Some(frame), Some(workspace)) => StepView::Run(
                (unmark_texts(state.restore_marks) + frame_texts(clamped(frame, workspace))).push(
                    "focus"@,
                ),
                ConfirmView::Restored,
                None,
            ),
            (Some(_), None) => StepView::NoWorkspace,
            (None, _) => StepView::Run(
                if state.flags.fullscreen {
                    seq!["fullscreen disable"@, "focus"@]
                } else {
                    seq!["focus"@]
                },
                ConfirmView::Restored,
                None,
            ),
        }
    }
}

/// The next step that restores a window: it is shown, then goes back to the frame that it
/// remembers, as far as that lies in its workspace.
pub fn restore(stage: Stage, state: &WindowState) -> (step: Step)
    requires
        state@.restore_frame is Some && !(stage == Stage::Start && state@.flags.minimized)
            ==> workspace_usable(state@),
    ensures
        step@ == restore_step(stage, state@),
{
    if stage == Stage::Start && state.minimized {
        return run_one("scratchpad show", Confirm::Shown, Some(Stage::Shown));
    }
    let mut commands: Vec<String> = Vec::new();
    assert(text_views(commands@) =~= seq![]);
    if let Some(frame) = state.restore_frame {
        let workspace = match state.workspace_rect {
            Some(workspace) => workspace,
            None => {
                return Step::NoWorkspace;
            },
        };
        let inside = clamp_to_workspace(frame, workspace);
        remove_restore_mark_commands(state, &mut commands);
        frame_commands(inside, &mut commands);
        assert(text_views(commands@) =~= unmark_texts(state@.restore_marks) + frame_texts(inside));
    } else if state.fullscreen {
        add_text(&mut commands, "fullscreen disable");
    }
    let ghost before = text_views(commands@);
    add_text(&mut commands, "focus");
    assert(state.restore_frame is None && state.fullscreen ==> text_views(commands@) =~= seq![
        "fullscreen disable"@,
        "focus"@,
    ]);
    assert(state.restore_frame is None && !state.fullscreen ==> text_views(commands@) =~= seq![
        "focus"@,
    ]);
    Step::Run { commands, confirm: Confirm::Restored, next: None }
}

/// Restoring undoes maximizing: a window whose only mark of this kind is the one that maximizing
/// gave it goes back to the frame that it had, which is all of it in its workspace, and loses the
/// mark.
pub proof fn restoring_undoes_maximizing(before: WindowView, after: WindowView)
    requires
        before.place.rect.width > 0,
        before.place.rect.height > 0,
        !before.flags.minimized,
        !before.flags.maximized,
        !before.flags.fullscreen,
        match before.place.workspace_rect {
            Some(workspace) => lies_in(before.place.rect, workspace) && workspace.x
                + workspace.width <= i32::MAX && workspace.y + workspace.height <= i32::MAX,
            None => false,
        },
        match maximize_step(Stage::Start, before) {
            StepView::Run(_, confirm, _) => is_confirmed(confirm, after),
            _ => false,
        },
        !after.flags.minimized,
        after.container_id == before.container_id,
        after.place.workspace_rect == before.place.workspace_rect,
        after.restore_marks == seq![
            restore_mark_of(before.container_id as nat, before.place.rect),
        ],
        after.restore_frame == crate::marks::marked_frame(
            after.restore_marks[0],
            after.container_id as nat,
        ),
    ensures
        after.flags.maximized,
        match maximize_step(Stage::Start, before) {
            StepView::Run(commands, _, _) => commands.contains(
                "mark --add "@ + after.restore_marks[0],
            ),
            _ => false,
        },
        restore_step(Stage::Start, after) == StepView::Run(
            (seq!["unmark "@ + after.restore_marks[0]] + frame_texts(before.place.rect)).push(
                "focus"@,
            ),
            ConfirmView::Restored,
            None,
        ),
{
    let workspace = before.place.workspace_rect->0;
    maximizing_remembers_the_frame(before);
    clamping_keeps_windows_visible(before.place.rect, workspace);
    assert(unmark_texts(after.restore_marks) =~= seq!["unmark "@ + after.restore_marks[0]]);
}

/// The position of a window in a list.
pub open spec fn position_of(windows: Seq<WindowView>, identifier: Seq<char>) -> Option<nat>
    decreases windows.len(),
{
    if windows.len() == 0 {
        None
    } else {
        match position_of(windows.drop_last(), identifier) {
            Some(at) => Some(at),
            None => if windows.last().identifier == identifier {
                Some((windows.len() - 1) as nat)
            } else {
                None
            },
        }
    }
}

/// A position that was found in a part of the list is the position in the list.
proof fn position_stays(windows: Seq<WindowView>, identifier: Seq<char>, length: int)
    requires
        0 <= length <= windows.len(),
        position_of(windows.take(length), identifier) is Some,
    ensures
        position_of(windows, identifier) == position_of(windows.take(length), identifier),
    decreases windows.len() - length,
{
    if length == windows.len() {
        assert(windows.take(length) =~= windows);
    } else {
        assert(windows.take(length + 1).drop_last() =~= windows.take(length));
        position_stays(windows, identifier, length + 1);
    }
}

/// The position of the window with that identifier.
pub fn window(windows: &Vec<WindowState>, identifier: &String) -> (found: Option<usize>)
    ensures
        match found {
            Some(at) => at < windows.len() && position_of(window_views(windows@), identifier@)
                == Some(at as nat) && windows@[at as int].identifier@ == identifier@,
            None => position_of(window_views(windows@), identifier@) is None,
        },
{
    let ghost views = window_views(windows@);
    let mut at: usize = 0;
    while at < windows.len()
        invariant
            at <= windows.len(),
            views == window_views(windows@),
            position_of(views.take(at as int), identifier@) is None,
        decreases windows.len() - at,
    {
        assert(views.take(at + 1).drop_last() =~= views.take(at as int));
        assert(views[at as int] == windows@[at as int]@);
        if text_is(&windows[at].identifier, identifier.as_str()) {
            proof {
                position_stays(views, identifier@, at + 1);
            }
            return Some(at);
        }
        at = at + 1;
    }
    assert(views.take(at as int) =~= views);
    None
}

/// Whether the window with that identifier is gone, as closing it waits for.
pub fn is_closed(windows: &Vec<WindowState>, identifier: &String) -> (closed: bool)
    ensures
        closed == (position_of(window_views(windows@), identifier@) is None),
{
    window(windows, identifier).is_none()
}

/// The command that closes a window.
pub fn close() -> (command: String)
    ensures
        command@ == "kill"@,
{
    "kill".to_string()
}

/// Whether another window says where a new window of the same process belongs.
pub open spec fn is_sibling(identifier: Seq<char>, pid: u32) -> spec_fn(WindowView) -> bool {
    |window: WindowView|
        window.identifier != identifier && window.pid == pid && !window.flags.minimized
            && window.place.workspace.len() > 0 && window.place.workspace != "__i3_scratch"@
}

/// Whether every window of a list is on one workspace.
pub open spec fn all_on(windows: Seq<WindowView>, workspace: Seq<char>) -> bool {
    forall|at: int| 0 <= at < windows.len() ==> (#[trigger] windows[at]).place.workspace == workspace
}

/// The workspace that a new window belongs on: the preferred one, or else the only one that its
/// process has windows on.
pub open spec fn destination_of(
    windows: Seq<WindowView>,
    state: WindowView,
    preferred: Option<Seq<char>>,
) -> Option<Seq<char>> {
    let siblings = windows.filter(is_sibling(state.identifier, state.pid));
    if preferred is Some {
        preferred
    } else if state.pid != 0 && siblings.len() > 0 && all_on(
        siblings,
        siblings[0].place.workspace,
    ) {
        Some(siblings[0].place.workspace)
    } else {
        None
    }
}

/// The workspace that a new window is moved to, where it belongs on another one than it is on.
pub fn place_new_window(
    windows: &Vec<WindowState>,
    state: &WindowState,
    preferred: &Option<String>,
) -> (destination: Option<String>)
    ensures
        crate::text::optional_text(destination) == match destination_of(
            window_views(windows@),
            state@,
            crate::text::optional_text(*preferred),
        ) {
            Some(workspace) if workspace != state@.place.workspace => Some(workspace),
            _ => None,
        },
        crate::text::optional_text(destination) == moved_to(
            window_views(windows@),
            state@,
            crate::text::optional_text(*preferred),
        ),
{
    let wanted = match preferred {
        Some(workspace) => Some(workspace.clone()),
        None => sibling_workspace(windows, state),
    };
    match wanted {
        Some(workspace) => if text_is(&workspace, state.workspace.as_str()) {
            None
        } else {
            Some(workspace)
        },
        None => None,
    }
}

/// The only workspace that the process of a new window has other windows on.
fn sibling_workspace(windows: &Vec<WindowState>, state: &WindowState) -> (workspace: Option<String>)
    ensures
        crate::text::optional_text(workspace) == destination_of(
            window_views(windows@),
            state@,
            None,
        ),
{
    if state.pid == 0 {
        return None;
    }
    let ghost views = window_views(windows@);
    let ghost keep = is_sibling(state@.identifier, state@.pid);
    let mut found: Option<String> = None;
    let mut at: usize = 0;
    proof {
        crate::lists::filter_ends(views, keep);
    }
    while at < windows.len()
        invariant
            at <= windows.len(),
            views == window_views(windows@),
            keep == is_sibling(state@.identifier, state@.pid),
            ({
                let siblings = views.take(at as int).filter(keep);
                match found {
                    Some(workspace) => siblings.len() > 0 && siblings[0].place.workspace
                        == workspace@ && all_on(siblings, workspace@),
                    None => siblings.len() == 0,
                }
            }),
        decreases windows.len() - at,
    {
        proof {
            crate::lists::filter_step(views, keep, at as int);
        }
        assert(views[at as int] == windows@[at as int]@);
        let ghost before = views.take(at as int).filter(keep);
        let other = &windows[at];
        if !text_is(&other.identifier, state.identifier.as_str()) && other.pid == state.pid
            && !other.minimized && !other.workspace.as_str().is_empty() && !text_is(
            &other.workspace,
            "__i3_scratch",
        ) {
            assert(keep(views[at as int]));
            let ghost after = before.push(views[at as int]);
            match &found {
                Some(workspace) => if !text_is(workspace, other.workspace.as_str()) {
                    proof {
                        assert(after[before.len() as int].place.workspace
                            != after[0].place.workspace);
                        crate::lists::filter_keeps_front(views, keep, at + 1);
                        let siblings = views.filter(keep);
                        assert(siblings[0] == after[0]);
                        assert(siblings[before.len() as int] == after[before.len() as int]);
                    }
                    return None;
                },
                None => {
                    found = Some(other.workspace.clone());
                },
            }
        }
        at = at + 1;
    }
    proof {
        crate::lists::filter_ends(views, keep);
    }
    found
}

/// The commands that give a window a frame neither take it out of the scratchpad nor put it in.
proof fn frames_leave_the_scratchpad(frame: Rect)
    ensures
        !frame_texts(frame).contains("scratchpad show"@),
        !frame_texts(frame).contains("move scratchpad"@),
        !frame_texts(frame).contains("focus"@),
        "scratchpad show"@ != "focus"@,
        "scratchpad show"@ != "move scratchpad"@,
        "scratchpad show"@ != "fullscreen disable"@,
{
    reveal_strlit("scratchpad show");
    reveal_strlit("move scratchpad");
    reveal_strlit("focus");
    reveal_strlit("fullscreen disable");
    reveal_strlit("floating enable");
    reveal_strlit("resize set width ");
    reveal_strlit("move absolute position ");
    let texts = frame_texts(frame);
    assert("scratchpad show"@[0] == 's' && "move scratchpad"@[5] == 's' && "focus"@[1] == 'o');
    assert(texts[0][0] == 'f' && texts[0][1] == 'u');
    assert(texts[1][0] == 'f' && texts[1][1] == 'l');
    assert(texts[2][0] == 'r');
    assert(texts[3][0] == 'm' && texts[3][5] == 'a');
    assert forall|at: int| 0 <= at < texts.len() implies texts[at] != "scratchpad show"@ && texts[at]
        != "move scratchpad"@ && texts[at] != "focus"@ by {
        assert(at == 0 || at == 1 || at == 2 || at == 3);
    }
}

/// On the way to the focus, a window that is shown gets the command "focus" alone, and one that is
/// minimized is first taken out of the scratchpad. No other window is ever told to come out of it, at
/// no stage. Whatever was done before, the last command is "focus", and it is done when the window
/// has the focus and is shown.
pub proof fn focusing_takes_only_minimized_windows_out(stage: Stage, state: WindowView)
    ensures
        !state.flags.minimized ==> focus_step(Stage::Start, state) == StepView::Run(
            seq!["focus"@],
            ConfirmView::FocusedAndShown,
            None,
        ),
        state.flags.minimized ==> focus_step(Stage::Start, state) == StepView::Run(
            seq!["scratchpad show"@],
            ConfirmView::Shown,
            Some(Stage::Shown),
        ),
        match focus_step(stage, state) {
            StepView::Run(commands, confirm, next) => {
                &&& commands.contains("scratchpad show"@) <==> stage == Stage::Start
                    && state.flags.minimized
                &&& next is None <==> commands == seq!["focus"@]
                &&& next is None ==> forall|after: WindowView| #[trigger]
                    is_confirmed(confirm, after) <==> after.flags.focused && !after.flags.minimized
            },
            StepView::NoWorkspace => stage == Stage::Shown && state.restore_frame is Some
                && state.place.workspace_rect is None,
            StepView::Done => false,
        },
{
    let grab = seq!["focus"@];
    let show = seq!["scratchpad show"@];
    assert(grab[0] == "focus"@ && show[0] == "scratchpad show"@);
    frames_leave_the_scratchpad(state.place.rect);
    assert(show.contains("scratchpad show"@));
    assert(!grab.contains("scratchpad show"@));
    if let Some(workspace) = state.place.workspace_rect {
        frames_leave_the_scratchpad(workspace);
        assert(frame_texts(workspace).len() == 4);
    }
    assert(grab.len() == 1);
}

/// A window that was maximized when it was minimized fills its workspace again before it gets the
/// focus.
pub proof fn focusing_restores_a_maximized_frame(state: WindowView, after: WindowView)
    requires
        state.restore_frame is Some,
        state.place.workspace_rect is Some,
    ensures
        match focus_step(Stage::Shown, state) {
            StepView::Run(_, confirm, next) => next is Some && focus_step(next->0, after)
                == StepView::Run(seq!["focus"@], ConfirmView::FocusedAndShown, None) && (
            is_confirmed(confirm, after) <==> after.place.rect
                == state.place.workspace_rect->0),
            _ => false,
        },
{
}

/// The commands that give a window a frame name its width, its height and its corner, in this order,
/// after it left the full screen and was made to float.
pub proof fn frame_commands_name_the_frame(frame: Rect)
    requires
        frame.width >= 1,
        frame.height >= 1,
    ensures
        frame_texts(frame).len() == 4,
        frame_texts(frame)[0] == "fullscreen disable"@,
        frame_texts(frame)[1] == "floating enable"@,
        begins_with(
            frame_texts(frame)[2],
            "resize set width "@ + signed_decimal(frame.width as int) + " px height "@,
        ),
        finishes_with(frame_texts(frame)[2], signed_decimal(frame.height as int) + " px"@),
        begins_with(
            frame_texts(frame)[3],
            "move absolute position "@ + signed_decimal(frame.x as int) + " px "@,
        ),
        finishes_with(frame_texts(frame)[3], signed_decimal(frame.y as int) + " px"@),
{
    let size = frame_texts(frame)[2];
    let head = "resize set width "@ + signed_decimal(frame.width as int) + " px height "@;
    let tail = signed_decimal(frame.height as int) + " px"@;
    assert(size =~= head + tail);
    assert(size.take(head.len() as int) =~= head);
    assert(size.skip(size.len() - tail.len()) =~= tail);
    let place = frame_texts(frame)[3];
    let front = "move absolute position "@ + signed_decimal(frame.x as int) + " px "@;
    let back = signed_decimal(frame.y as int) + " px"@;
    assert(place =~= front + back);
    assert(place.take(front.len() as int) =~= front);
    assert(place.skip(place.len() - back.len()) =~= back);
}

/// A window that was brought into view has the focus, is shown, and lies in its workspace unless it
/// fills it or the screen: when nothing is left to be done, and when the last step is confirmed. The
/// last step is taken only for a window that does not lie there.
pub proof fn brought_windows_are_in_view(state: WindowView, after: WindowView)
    requires
        state.place.workspace_rect is Some,
        workspace_usable(state),
        state.place.workspace_rect->0.x + state.place.workspace_rect->0.width <= i32::MAX,
        state.place.workspace_rect->0.y + state.place.workspace_rect->0.height <= i32::MAX,
        after.place.workspace_rect == state.place.workspace_rect,
    ensures
        ({
            let workspace = state.place.workspace_rect->0;
            let fills = state.flags.maximized || state.flags.fullscreen;
            let inside = lies_in(state.place.rect, workspace) && state.place.rect.width >= 1
                && state.place.rect.height >= 1;
            match bring_step(Stage::Focused, state) {
                StepView::Done => fills || inside,
                StepView::Run(commands, confirm, next) => {
                    &&& !fills && !inside
                    &&& commands.last() == "focus"@
                    &&& next is None
                    &&& is_confirmed(confirm, after) ==> lies_in(after.place.rect, workspace)
                        && after.flags.focused && !after.flags.minimized
                },
                StepView::NoWorkspace => false,
            }
        }),
        match bring_step(Stage::Start, state) {
            StepView::Run(commands, _, Some(Stage::Focused)) => !state.flags.minimized && commands
                == seq!["focus"@],
            StepView::Run(commands, _, Some(Stage::Shown)) => state.flags.minimized && commands
                == seq!["scratchpad show"@],
            _ => false,
        },
{
    clamping_keeps_windows_visible(state.place.rect, state.place.workspace_rect->0);
}

/// A new window that is minimized or fills the screen is left alone, as is one that lies in its
/// workspace. Another one gets the nearest frame that lies there, and never the focus.
pub proof fn new_windows_come_into_their_workspace(state: WindowView, after: WindowView)
    requires
        state.place.workspace_rect is Some,
        workspace_usable(state),
        state.place.workspace_rect->0.x + state.place.workspace_rect->0.width <= i32::MAX,
        state.place.workspace_rect->0.y + state.place.workspace_rect->0.height <= i32::MAX,
    ensures
        ({
            let workspace = state.place.workspace_rect->0;
            let inside = lies_in(state.place.rect, workspace) && state.place.rect.width >= 1
                && state.place.rect.height >= 1;
            match constrain_step(state) {
                StepView::Done => state.flags.minimized || state.flags.fullscreen || inside,
                StepView::Run(commands, confirm, next) => {
                    &&& !state.flags.minimized && !state.flags.fullscreen && !inside
                    &&& next is None
                    &&& !commands.contains("focus"@)
                    &&& is_confirmed(confirm, after) ==> lies_in(after.place.rect, workspace)
                        && !after.flags.minimized && !after.flags.fullscreen
                },
                StepView::NoWorkspace => false,
            }
        }),
{
    let workspace = state.place.workspace_rect->0;
    let visible = clamped(state.place.rect, workspace);
    clamping_keeps_windows_visible(state.place.rect, workspace);
    frames_leave_the_scratchpad(visible);
    let unmark = unmark_texts(state.restore_marks);
    let commands = unmark + frame_texts(visible);
    assert(!commands.contains("focus"@)) by {
        reveal_strlit("focus");
        reveal_strlit("unmark ");
        assert forall|at: int| 0 <= at < commands.len() implies commands[at] != "focus"@ by {
            if at < unmark.len() {
                assert(commands[at] == "unmark "@ + state.restore_marks[at]);
                assert(commands[at][0] == 'u');
            } else {
                assert(commands[at] == frame_texts(visible)[at - unmark.len()]);
            }
        }
    }
}

/// Minimizing puts a window that is shown into the scratchpad, by moving it there, or by the command
/// that hides a window that belongs there; a minimized one is left alone. It is done when the window
/// is minimized. Only a maximized window keeps the marks by which it is restored.
pub proof fn minimizing_hides_shown_windows(state: WindowView)
    ensures
        state.flags.minimized <==> minimize_step(state) == StepView::Done,
        match minimize_step(state) {
            StepView::Run(commands, confirm, next) => {
                &&& next is None
                &&& commands.last() == if state.flags.scratchpad {
                    "scratchpad show"@
                } else {
                    "move scratchpad"@
                }
                &&& forall|after: WindowView| #[trigger]
                    is_confirmed(confirm, after) <==> after.flags.minimized
                &&& state.flags.maximized ==> commands.len() == 1
                &&& !state.flags.maximized ==> commands.len() == state.restore_marks.len() + 1
                    && forall|at: int|
                    0 <= at < state.restore_marks.len() ==> #[trigger] commands[at] == "unmark "@
                        + state.restore_marks[at]
            },
            StepView::Done => true,
            StepView::NoWorkspace => false,
        },
{
}

/// Minimizing all windows names each window that is shown by its container, and no other; what each
/// is told is what it is told alone. It is over exactly when each of them is minimized.
pub proof fn minimizing_all_names_each_shown_window(windows: Seq<WindowView>, at: int)
    requires
        0 <= at < windows.len(),
    ensures
        ({
            let shown = windows.filter(is_shown());
            let texts = minimize_all_texts(shown);
            let names = identifiers_of(shown);
            &&& texts.len() == names.len()
            &&& !windows[at].flags.minimized ==> names.contains(windows[at].identifier)
                && texts.contains(
                "[con_id="@ + decimal(windows[at].container_id as nat) + "] "@ + joined_with(
                    minimize_texts(windows[at]),
                    ", "@,
                ),
            )
            &&& some_remain(windows, names) <==> exists|place: int|
                0 <= place < windows.len() && names.contains(
                    (#[trigger] windows[place]).identifier,
                ) && !windows[place].flags.minimized
            &&& !windows[at].flags.minimized ==> some_remain(windows, names)
        }),
{
    let shown = windows.filter(is_shown());
    let texts = minimize_all_texts(shown);
    let names = identifiers_of(shown);
    if !windows[at].flags.minimized {
        let found = kept_is_found(windows, is_shown(), at);
        assert(names[found] == windows[at].identifier);
        assert(texts[found] == minimize_text(windows[at]));
    }
}

/// Maximizing makes a window fill its workspace: a minimized one is shown first, and one that fills
/// the screen leaves it first. It is done when the window has the frame of its workspace and counts
/// as maximized, and a maximized one is left alone.
pub proof fn maximized_windows_fill_their_workspace(state: WindowView, after: WindowView)
    requires
        state.place.workspace_rect is Some,
    ensures
        maximize_step(Stage::Start, state) == StepView::Done <==> state.flags.maximized,
        !state.flags.maximized && state.flags.minimized ==> maximize_step(Stage::Start, state)
            == StepView::Run(seq!["scratchpad show"@], ConfirmView::Shown, Some(Stage::Shown)),
        !state.flags.maximized && !state.flags.minimized && state.flags.fullscreen
            ==> maximize_step(Stage::Start, state) == StepView::Run(
            seq!["fullscreen disable"@],
            ConfirmView::NotFullscreen,
            Some(Stage::Windowed(false)),
        ),
        state.flags.fullscreen ==> maximize_step(Stage::Shown, state) == StepView::Run(
            seq!["fullscreen disable"@],
            ConfirmView::NotFullscreen,
            Some(Stage::Windowed(true)),
        ),
        forall|was_minimized: bool|
            match #[trigger] maximize_step(Stage::Windowed(was_minimized), state) {
                StepView::Run(commands, confirm, next) => {
                    let count = state.restore_marks.len() as int;
                    let remembered = if was_minimized && state.restore_frame is Some {
                        state.restore_frame->0
                    } else {
                        state.place.rect
                    };
                    &&& next is None
                    &&& commands.len() == count + 5
                    &&& forall|at: int|
                        0 <= at < count ==> #[trigger] commands[at] == "unmark "@
                            + state.restore_marks[at]
                    &&& commands[count] == "mark --add "@ + restore_mark_of(
                        state.container_id as nat,
                        remembered,
                    )
                    &&& commands.skip(count + 1) == frame_texts(state.place.workspace_rect->0)
                    &&& is_confirmed(confirm, after) <==> after.flags.maximized
                        && after.place.rect == state.place.workspace_rect->0
                },
                _ => false,
            },
        !state.flags.fullscreen ==> maximize_step(Stage::Shown, state) == maximize_step(
            Stage::Windowed(true),
            state,
        ),
        !state.flags.maximized && !state.flags.minimized && !state.flags.fullscreen
            ==> maximize_step(Stage::Start, state) == maximize_step(Stage::Windowed(false), state),
{
    let workspace = state.place.workspace_rect->0;
    assert forall|was_minimized: bool|
        match #[trigger] maximize_step(Stage::Windowed(was_minimized), state) {
            StepView::Run(commands, _, _) => commands.skip(
                state.restore_marks.len() as int + 1,
            ) == frame_texts(workspace),
            _ => false,
        } by {
        if let StepView::Run(commands, _, _) = maximize_step(
            Stage::Windowed(was_minimized),
            state,
        ) {
            assert(commands.skip(state.restore_marks.len() as int + 1) =~= frame_texts(workspace));
        }
    }
}

/// Restoring a window ends with the focus: a minimized one is shown first, one that remembers a frame
/// goes back to it as far as it lies in the workspace and forgets it, and another one only leaves the
/// full screen. It is done when the window has the focus and is neither minimized nor maximized.
pub proof fn restored_windows_have_the_focus(stage: Stage, state: WindowView, after: WindowView)
    requires
        workspace_usable(state),
        state.place.workspace_rect is Some,
    ensures
        stage == Stage::Start && state.flags.minimized ==> restore_step(stage, state)
            == StepView::Run(seq!["scratchpad show"@], ConfirmView::Shown, Some(Stage::Shown)),
        !(stage == Stage::Start && state.flags.minimized) ==> match restore_step(stage, state) {
            StepView::Run(commands, confirm, next) => {
                let count = state.restore_marks.len() as int;
                &&& next is None
                &&& commands.last() == "focus"@
                &&& is_confirmed(confirm, after) <==> after.flags.focused
                    && !after.flags.minimized && !after.flags.maximized
                &&& state.restore_frame is Some ==> commands.len() == count + 5
                    && commands.subrange(count, count + 4) == frame_texts(
                    clamped(state.restore_frame->0, state.place.workspace_rect->0),
                ) && forall|at: int|
                    0 <= at < count ==> #[trigger] commands[at] == "unmark "@
                        + state.restore_marks[at]
                &&& state.restore_frame is None ==> commands.contains("fullscreen disable"@)
                    == state.flags.fullscreen
            },
            _ => false,
        },
{
    reveal_strlit("focus");
    reveal_strlit("fullscreen disable");
    if !(stage == Stage::Start && state.flags.minimized) {
        if let StepView::Run(commands, _, _) = restore_step(stage, state) {
            let count = state.restore_marks.len() as int;
            if let Some(frame) = state.restore_frame {
                assert(commands.subrange(count, count + 4) =~= frame_texts(
                    clamped(frame, state.place.workspace_rect->0),
                ));
            } else if state.flags.fullscreen {
                assert(commands[0] == "fullscreen disable"@);
            } else {
                assert(commands[0] == "focus"@);
                assert("focus"@.len() != "fullscreen disable"@.len());
            }
        }
    }
}

/// A window is found by its identifier: the first one that has it, and none where none has.
pub proof fn windows_are_found_by_identifier(windows: Seq<WindowView>, identifier: Seq<char>)
    ensures
        match position_of(windows, identifier) {
            Some(at) => at < windows.len() && windows[at as int].identifier == identifier && forall|
                earlier: int,
            |
                0 <= earlier < at ==> (#[trigger] windows[earlier]).identifier != identifier,
            None => forall|at: int|
                0 <= at < windows.len() ==> (#[trigger] windows[at]).identifier != identifier,
        },
    decreases windows.len(),
{
    if windows.len() > 0 {
        let front = windows.drop_last();
        windows_are_found_by_identifier(front, identifier);
        assert(forall|at: int| 0 <= at < front.len() ==> front[at] == #[trigger] windows[at]);
    }
}

/// A new window goes where it is asked to. Where it is not, it goes to the workspace on which its
/// process has other windows that are shown, if that is one workspace, and stays otherwise; a window
/// whose process is not known follows none.
pub proof fn new_windows_follow_their_process(
    windows: Seq<WindowView>,
    state: WindowView,
    preferred: Option<Seq<char>>,
    at: int,
)
    requires
        0 <= at < windows.len(),
    ensures
        preferred is Some ==> destination_of(windows, state, preferred) == preferred,
        preferred is None && state.pid == 0 ==> destination_of(windows, state, preferred) is None,
        ({
            let window = windows[at];
            let counts = window.pid == state.pid && window.identifier != state.identifier
                && !window.flags.minimized && window.place.workspace.len() > 0
                && window.place.workspace != "__i3_scratch"@;
            let destination = destination_of(windows, state, preferred);
            &&& preferred is None && counts && destination is Some ==> destination == Some(
                window.place.workspace,
            )
            &&& preferred is None && counts && state.pid != 0 && destination is None
                ==> exists|other: int|
                0 <= other < windows.len() && (#[trigger] windows[other]).pid == state.pid
                    && windows[other].identifier != state.identifier
                    && windows[other].place.workspace != window.place.workspace
        }),
        preferred is None && destination_of(windows, state, preferred) is Some ==> exists|
            other: int,
        |
            0 <= other < windows.len() && (#[trigger] windows[other]).pid == state.pid
                && windows[other].identifier != state.identifier
                && !windows[other].flags.minimized && destination_of(windows, state, preferred)
                == Some(windows[other].place.workspace),
{
    let keep = is_sibling(state.identifier, state.pid);
    let siblings = windows.filter(keep);
    if siblings.len() > 0 {
        let place = kept_is_there(windows, keep, 0);
        assert(windows[place] == siblings[0]);
    }
    if keep(windows[at]) {
        let found = kept_is_found(windows, keep, at);
        assert(siblings[found] == windows[at]);
        if !all_on(siblings, siblings[0].place.workspace) {
            let other = choose|other: int|
                0 <= other < siblings.len() && (#[trigger] siblings[other]).place.workspace
                    != siblings[0].place.workspace;
            let place = kept_is_there(windows, keep, other);
            let first = kept_is_there(windows, keep, 0);
            assert(windows[place] == siblings[other] && windows[first] == siblings[0]);
        }
    }
}

/// Whether the button that maximizes restores a window instead.
pub open spec fn is_restored_by_toggling(state: WindowView) -> bool {
    state.flags.minimized || state.flags.maximized
}

/// The workspace that a new window is moved to, where it is not there yet.
pub open spec fn moved_to(
    windows: Seq<WindowView>,
    state: WindowView,
    preferred: Option<Seq<char>>,
) -> Option<Seq<char>> {
    match destination_of(windows, state, preferred) {
        Some(workspace) if workspace != state.place.workspace => Some(workspace),
        _ => None,
    }
}

/// A window that is minimized or fills its workspace is restored, and any other is maximized.
pub proof fn toggling_restores_what_is_not_normal(state: WindowView)
    ensures
        state.flags.maximized ==> is_restored_by_toggling(state),
        state.flags.minimized ==> is_restored_by_toggling(state),
        !state.flags.minimized && !state.flags.maximized ==> !is_restored_by_toggling(state),
{
}

/// A new window is moved to the workspace that is preferred, unless it is there already, and is never
/// moved to where it is.
pub proof fn new_windows_are_moved_where_they_belong(
    windows: Seq<WindowView>,
    state: WindowView,
    preferred: Seq<char>,
)
    ensures
        preferred != state.place.workspace ==> moved_to(windows, state, Some(preferred)) == Some(
            preferred,
        ),
        moved_to(windows, state, Some(state.place.workspace)) is None,
        moved_to(windows, state, None) != Some(state.place.workspace),
        state.pid == 0 ==> moved_to(windows, state, None) is None,
{
}

} // verus!
