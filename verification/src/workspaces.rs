//! The workspaces and the outputs that they are on: what is read of them, and the commands that
//! create, switch and close them.

use vstd::prelude::*;
use vstd::string::*;
use crate::arith::{add_i32, max_i32, max_u32};
use crate::arith::{max_of, saturate_i32};
use crate::canvas::Color;
use crate::json::Json;
use crate::json::{
    bool_member, json_view, json_views, member, text_member, unsigned_member, JsonView,
};
use crate::lists::{filter_ends, filter_step, first_is_kept};
use crate::lists::first_kept;
use crate::model::{is_cua_workspace, workspace_index, workspace_name};
use crate::model::{is_cua_index, workspace_index_of, workspace_name_of};
use crate::state::ThemePalette;
use crate::sway_ipc::{json_rect, OutputState, Rect, WindowState, WorkspaceState};
use crate::sway_ipc::{rect_of, text_or_empty, window_views, WindowView};
use crate::windows::{Confirm, ConfirmView, Step, StepView};
use crate::text::{
    characters, comes_before, decimal_text, join, signed_decimal_text, text_is,
};
use crate::text::{begins_with, finishes_with, holds_part};
use crate::text::{
    decimal, digit_char, signed_decimal, text_before, text_order_is_total,
    text_order_is_transitive, text_views,
};

verus! {

/// A [`WorkspaceState`] with its texts as sequences.
pub struct WorkspaceView {
    pub name: Seq<char>,
    pub output: Seq<char>,
    pub focused: bool,
    pub visible: bool,
    pub rect: Rect,
}

impl View for WorkspaceState {
    type V = WorkspaceView;

    open spec fn view(&self) -> WorkspaceView {
        WorkspaceView {
            name: self.name@,
            output: self.output@,
            focused: self.focused,
            visible: self.visible,
            rect: self.rect,
        }
    }
}

/// The workspaces of a list, each by its view.
pub open spec fn workspace_views(workspaces: Seq<WorkspaceState>) -> Seq<WorkspaceView> {
    workspaces.map_values(|workspace: WorkspaceState| workspace@)
}

/// An [`OutputState`] with its name as a sequence.
pub struct OutputView {
    pub id: u64,
    pub name: Seq<char>,
    pub active: bool,
    pub rect: Rect,
    pub physical_width: u32,
    pub physical_height: u32,
    pub refresh_millihz: u32,
    pub scale_milli: u32,
}

impl View for OutputState {
    type V = OutputView;

    open spec fn view(&self) -> OutputView {
        OutputView {
            id: self.id,
            name: self.name@,
            active: self.active,
            rect: self.rect,
            physical_width: self.physical_width,
            physical_height: self.physical_height,
            refresh_millihz: self.refresh_millihz,
            scale_milli: self.scale_milli,
        }
    }
}

/// The outputs of a list, each by its view.
pub open spec fn output_views(outputs: Seq<OutputState>) -> Seq<OutputView> {
    outputs.map_values(|output: OutputState| output@)
}

/// The workspace that a value describes, unless it is the one for minimized windows.
pub open spec fn workspace_of(value: JsonView) -> Option<WorkspaceView> {
    match text_member(value, "name"@) {
        Some(name) if name != "__i3_scratch"@ => Some(
            WorkspaceView {
                name,
                output: text_or_empty(text_member(value, "output"@)),
                focused: bool_member(value, "focused"@) == Some(true),
                visible: bool_member(value, "visible"@) == Some(true),
                rect: rect_of(member(value, "rect"@)),
            },
        ),
        _ => None,
    }
}

/// A list in the order of its names, with one workspace more, which comes after those of the same
/// name.
pub open spec fn inserted(list: Seq<WorkspaceView>, workspace: WorkspaceView) -> Seq<WorkspaceView>
    decreases list.len(),
{
    if list.len() == 0 || !text_before(workspace.name, list.last().name) {
        list.push(workspace)
    } else {
        inserted(list.drop_last(), workspace).push(list.last())
    }
}

/// The workspaces that the values describe, in the order of their names.
pub open spec fn workspaces_of(values: Seq<JsonView>) -> Seq<WorkspaceView>
    decreases values.len(),
{
    if values.len() == 0 {
        seq![]
    } else {
        let before = workspaces_of(values.drop_last());
        match workspace_of(values.last()) {
            Some(workspace) => inserted(before, workspace),
            None => before,
        }
    }
}

/// Whether a list is in the order of its names.
pub open spec fn in_name_order(list: Seq<WorkspaceView>) -> bool {
    forall|left: int, right: int|
        0 <= left < right < list.len() ==> !text_before(
            (#[trigger] list[right]).name,
            (#[trigger] list[left]).name,
        )
}

/// Inserting keeps the order and adds exactly the one workspace.
proof fn inserting_keeps_order(list: Seq<WorkspaceView>, workspace: WorkspaceView)
    requires
        in_name_order(list),
    ensures
        in_name_order(inserted(list, workspace)),
        inserted(list, workspace).to_multiset() == list.to_multiset().insert(workspace),
        inserted(list, workspace).len() == list.len() + 1,
        forall|at: int|
            0 <= at < inserted(list, workspace).len() ==> #[trigger] inserted(list, workspace)[at]
                == workspace || list.contains(inserted(list, workspace)[at]),
    decreases list.len(),
{
    broadcast use vstd::seq_lib::group_to_multiset_ensures;

    let whole = inserted(list, workspace);
    if list.len() == 0 || !text_before(workspace.name, list.last().name) {
        assert forall|left: int, right: int| 0 <= left < right < whole.len() implies !text_before(
            (#[trigger] whole[right]).name,
            (#[trigger] whole[left]).name,
        ) by {
            if right == list.len() {
                let last = list.last().name;
                assert(!text_before(last, list[left].name) || left == list.len() - 1);
                text_order_is_total(last, list[left].name);
                text_order_is_total(workspace.name, last);
                text_order_is_total(workspace.name, list[left].name);
                if text_before(workspace.name, list[left].name) {
                    if text_before(last, workspace.name) {
                        text_order_is_transitive(last, workspace.name, list[left].name);
                    }
                }
            }
        }
        assert forall|at: int| 0 <= at < whole.len() implies #[trigger] whole[at] == workspace
            || list.contains(whole[at]) by {
            if at < list.len() {
                assert(list[at] == whole[at]);
            }
        }
    } else {
        let front = list.drop_last();
        let last = list.last();
        inserting_keeps_order(front, workspace);
        let inner = inserted(front, workspace);
        assert(list =~= front.push(last));
        assert forall|left: int, right: int| 0 <= left < right < whole.len() implies !text_before(
            (#[trigger] whole[right]).name,
            (#[trigger] whole[left]).name,
        ) by {
            if right == inner.len() {
                text_order_is_total(workspace.name, last.name);
                if inner[left] != workspace {
                    let at = choose|at: int| 0 <= at < front.len() && front[at] == inner[left];
                    assert(list[at] == inner[left]);
                    assert(!text_before(list[list.len() - 1].name, list[at].name));
                }
            } else {
                assert(whole[right] == inner[right]);
            }
            assert(whole[left] == inner[left]);
        }
        assert forall|at: int| 0 <= at < whole.len() implies #[trigger] whole[at] == workspace
            || list.contains(whole[at]) by {
            if at < inner.len() {
                assert(whole[at] == inner[at]);
                if inner[at] != workspace {
                    let from = choose|from: int|
                        0 <= from < front.len() && front[from] == inner[at];
                    assert(list[from] == whole[at]);
                }
            } else {
                assert(list[list.len() - 1] == whole[at]);
            }
        }
        assert(list.to_multiset() == front.to_multiset().insert(last));
        assert(whole.to_multiset() == inner.to_multiset().insert(last));
        assert(front.to_multiset().insert(workspace).insert(last) =~= front.to_multiset().insert(
            last,
        ).insert(workspace));
    }
}

/// Workspaces are listed in the order of their names.
pub proof fn workspaces_are_in_name_order(values: Seq<JsonView>)
    ensures
        in_name_order(workspaces_of(values)),
    decreases values.len(),
{
    if values.len() > 0 {
        workspaces_are_in_name_order(values.drop_last());
        if let Some(workspace) = workspace_of(values.last()) {
            inserting_keeps_order(workspaces_of(values.drop_last()), workspace);
        }
    }
}

/// A workspace is listed as often as the values describe it, and nothing else is listed.
pub proof fn every_workspace_is_listed(values: Seq<JsonView>, value: JsonView)
    ensures
        workspaces_of(values.push(value)).to_multiset() == match workspace_of(value) {
            Some(workspace) => workspaces_of(values).to_multiset().insert(workspace),
            None => workspaces_of(values).to_multiset(),
        },
{
    assert(values.push(value).drop_last() =~= values);
    workspaces_are_in_name_order(values);
    if let Some(workspace) = workspace_of(value) {
        inserting_keeps_order(workspaces_of(values), workspace);
    }
}

/// Whether the name `left` comes before `right`.
fn name_before(left: &String, right: &String) -> (before: bool)
    ensures
        before == text_before(left@, right@),
{
    comes_before(characters(left.as_str()).as_slice(), characters(right.as_str()).as_slice())
}

/// Puts a workspace where its name belongs.
fn insert_workspace(list: &mut Vec<WorkspaceState>, workspace: WorkspaceState)
    ensures
        workspace_views(final(list)@) == inserted(workspace_views(old(list)@), workspace@),
{
    let ghost views = workspace_views(list@);
    let mut at: usize = list.len();
    assert(views.take(at as int) =~= views);
    assert(views.skip(at as int) =~= seq![]);
    assert(inserted(views, workspace@) =~= inserted(views, workspace@) + views.skip(at as int));
    while at > 0 && name_before(&workspace.name, &list[at - 1].name)
        invariant
            at <= list.len(),
            views == workspace_views(list@),
            inserted(views, workspace@) == inserted(views.take(at as int), workspace@)
                + views.skip(at as int),
        decreases at,
    {
        let ghost front = views.take(at as int);
        assert(front.last() == list@[at - 1]@);
        assert(front.drop_last() =~= views.take(at - 1));
        assert(inserted(front, workspace@) == inserted(views.take(at - 1), workspace@).push(
            front.last(),
        ));
        assert(inserted(views.take(at - 1), workspace@).push(front.last()) + views.skip(at as int)
            =~= inserted(views.take(at - 1), workspace@) + views.skip(at - 1));
        at = at - 1;
    }
    assert(at > 0 ==> views.take(at as int).last() == list@[at - 1]@);
    list.insert(at, workspace);
    assert(workspace_views(list@) =~= views.take(at as int).push(workspace@) + views.skip(
        at as int,
    ));
}

/// The workspace that a value describes.
fn read_workspace(value: &Json) -> (workspace: Option<WorkspaceState>)
    ensures
        match workspace {
            Some(workspace) => workspace_of(value@) == Some(workspace@),
            None => workspace_of(value@) is None,
        },
{
    let name = match value.text("name") {
        Some(name) => name.clone(),
        None => {
            return None;
        },
    };
    if text_is(&name, "__i3_scratch") {
        return None;
    }
    let output = match value.text("output") {
        Some(output) => output.clone(),
        None => String::new(),
    };
    assert(output@ =~= text_or_empty(text_member(value@, "output"@)));
    let focused = match value.flag("focused") {
        Some(focused) => focused,
        None => false,
    };
    let visible = match value.flag("visible") {
        Some(visible) => visible,
        None => false,
    };
    Some(WorkspaceState { name, output, focused, visible, rect: json_rect(value.get("rect")) })
}

/// The workspaces that a reply lists, in the order of their names; nothing where it is no list.
pub fn list_workspaces(reply: &Json) -> (workspaces: Option<Vec<WorkspaceState>>)
    ensures
        match reply@ {
            JsonView::List(values) => workspaces is Some && workspace_views(workspaces->0@)
                == workspaces_of(values),
            _ => workspaces is None,
        },
{
    let items = match reply.as_list() {
        Some(items) => items,
        None => {
            return None;
        },
    };
    let ghost values = json_views(items@);
    let mut workspaces: Vec<WorkspaceState> = Vec::new();
    let mut at: usize = 0;
    assert(values.take(0) =~= seq![]);
    assert(workspace_views(workspaces@) =~= seq![]);
    while at < items.len()
        invariant
            at <= items.len(),
            values == json_views(items@),
            workspace_views(workspaces@) == workspaces_of(values.take(at as int)),
        decreases items.len() - at,
    {
        assert(values.take(at + 1).drop_last() =~= values.take(at as int));
        assert(values[at as int] == json_view(items@[at as int]));
        if let Some(workspace) = read_workspace(&items[at]) {
            insert_workspace(&mut workspaces, workspace);
        }
        at = at + 1;
    }
    assert(values.take(at as int) =~= values);
    Some(workspaces)
}

/// A number where a `u32` can hold it; otherwise `default`.
pub open spec fn small_unsigned(number: Option<u64>, default: u32) -> u32 {
    match number {
        Some(number) if number <= u32::MAX => number as u32,
        _ => default,
    }
}

/// A member of the mode that an output is in.
pub open spec fn mode_member(value: JsonView, key: Seq<char>) -> Option<u64> {
    match member(value, "current_mode"@) {
        Some(mode) => unsigned_member(mode, key),
        None => None,
    }
}

/// The output that a value describes, given its scale in thousandths.
pub open spec fn output_of(value: JsonView, scale_milli: u32) -> Option<OutputView> {
    match (text_member(value, "name"@), unsigned_member(value, "id"@)) {
        (Some(name), Some(id)) => Some(
            OutputView {
                id,
                name,
                active: bool_member(value, "active"@) == Some(true),
                rect: rect_of(member(value, "rect"@)),
                physical_width: small_unsigned(mode_member(value, "width"@), 0),
                physical_height: small_unsigned(mode_member(value, "height"@), 0),
                refresh_millihz: small_unsigned(mode_member(value, "refresh"@), 60000),
                scale_milli,
            },
        ),
        _ => None,
    }
}

/// The outputs that the values describe, given the scale of each.
pub open spec fn outputs_of(values: Seq<JsonView>, scales: Seq<u32>) -> Seq<OutputView>
    decreases values.len(),
{
    if values.len() == 0 {
        seq![]
    } else {
        let before = outputs_of(values.drop_last(), scales);
        match output_of(values.last(), scales[values.len() - 1]) {
            Some(output) => before.push(output),
            None => before,
        }
    }
}

/// A member of the mode that an output is in, where a `u32` can hold it; otherwise `default`.
fn mode_number(value: &Json, key: &str, default: u32) -> (number: u32)
    ensures
        number == small_unsigned(mode_member(value@, key@), default),
{
    let mode = match value.get("current_mode") {
        Some(mode) => mode,
        None => {
            return default;
        },
    };
    match mode.unsigned(key) {
        Some(number) => if number <= u32::MAX as u64 {
            number as u32
        } else {
            default
        },
        None => default,
    }
}

/// The output that a value describes.
fn read_output(value: &Json, scale_milli: u32) -> (output: Option<OutputState>)
    ensures
        match output {
            Some(output) => output_of(value@, scale_milli) == Some(output@),
            None => output_of(value@, scale_milli) is None,
        },
{
    let name = match value.text("name") {
        Some(name) => name.clone(),
        None => {
            return None;
        },
    };
    let id: u64 = match value.unsigned("id") {
        Some(id) => id,
        None => {
            return None;
        },
    };
    let active = match value.flag("active") {
        Some(active) => active,
        None => false,
    };
    Some(
        OutputState {
            id,
            name,
            active,
            rect: json_rect(value.get("rect")),
            physical_width: mode_number(value, "width", 0),
            physical_height: mode_number(value, "height", 0),
            refresh_millihz: mode_number(value, "refresh", 60000),
            scale_milli,
        },
    )
}

/// The outputs that a reply lists, given the scale of each entry in thousandths; nothing where it
/// is no list.
pub fn list_outputs(reply: &Json, scales: &Vec<u32>) -> (outputs: Option<Vec<OutputState>>)
    requires
        match reply@ {
            JsonView::List(values) => scales.len() == values.len(),
            _ => true,
        },
    ensures
        match reply@ {
            JsonView::List(values) => outputs is Some && output_views(outputs->0@) == outputs_of(
                values,
                scales@,
            ),
            _ => outputs is None,
        },
{
    let items = match reply.as_list() {
        Some(items) => items,
        None => {
            return None;
        },
    };
    let ghost values = json_views(items@);
    let mut outputs: Vec<OutputState> = Vec::new();
    let mut at: usize = 0;
    assert(values.take(0) =~= seq![]);
    assert(output_views(outputs@) =~= seq![]);
    while at < items.len()
        invariant
            at <= items.len(),
            items.len() == scales.len(),
            values == json_views(items@),
            output_views(outputs@) == outputs_of(values.take(at as int), scales@),
        decreases items.len() - at,
    {
        assert(values.take(at + 1).drop_last() =~= values.take(at as int));
        assert(values[at as int] == json_view(items@[at as int]));
        let ghost before = output_views(outputs@);
        if let Some(output) = read_output(&items[at], scales[at]) {
            outputs.push(output);
            assert(output_views(outputs@) =~= before.push(output@));
        }
        at = at + 1;
    }
    assert(values.take(at as int) =~= values);
    Some(outputs)
}

/// Whether every reply says that its command was carried out, and there is one.
pub open spec fn all_succeeded(reply: JsonView) -> bool {
    match reply {
        JsonView::List(values) => values.len() > 0 && forall|at: int|
            0 <= at < values.len() ==> bool_member(#[trigger] values[at], "success"@) == Some(true),
        _ => false,
    }
}

/// Whether every command was carried out.
pub fn accepted(reply: &Json) -> (accepted: bool)
    ensures
        accepted == all_succeeded(reply@),
{
    let items = match reply.as_list() {
        Some(items) => items,
        None => {
            return false;
        },
    };
    let ghost values = json_views(items@);
    let mut at: usize = 0;
    while at < items.len()
        invariant
            at <= items.len(),
            values == json_views(items@),
            values.len() == items.len(),
            reply@ == JsonView::List(values),
            forall|earlier: int|
                0 <= earlier < at ==> bool_member(#[trigger] values[earlier], "success"@) == Some(
                    true,
                ),
        decreases items.len() - at,
    {
        assert(values[at as int] == json_view(items@[at as int]));
        let succeeded = match items[at].flag("success") {
            Some(flag) => flag,
            None => false,
        };
        if !succeeded {
            return false;
        }
        at = at + 1;
    }
    items.len() > 0
}

/// Why a request about workspaces is refused.
#[derive(Debug, Clone, Copy, PartialEq, Eq, Structural)]
pub enum WorkspaceError {
    /// A name holds more than letters, digits, spaces, `_` and `-`, or nothing.
    UnsafeName,
    /// No output is active.
    NoActiveOutput,
    /// No workspace is visible on the desktop's output.
    NoVisibleWorkspace,
    /// The desktop itself is never created or closed.
    DesktopIsFixed,
    /// No output was added.
    NoNewOutput,
    /// No workspace has that name.
    UnknownWorkspace,
    /// The output is the one that shows the desktop.
    HostOutput,
    /// Windows are still on the workspace.
    StillInUse,
}

/// Whether a character may stand in a name that is part of a command.
pub open spec fn is_plain(character: char) -> bool {
    'a' <= character <= 'z' || 'A' <= character <= 'Z' || '0' <= character <= '9' || character
        == ' ' || character == '_' || character == '-'
}

/// Whether a name can be part of a command.
pub open spec fn is_safe_name(name: Seq<char>) -> bool {
    name.len() > 0 && forall|at: int| 0 <= at < name.len() ==> is_plain(#[trigger] name[at])
}

/// A name between quotes.
pub open spec fn quoted(name: Seq<char>) -> Seq<char> {
    "\""@ + name + "\""@
}

/// A name between quotes, where it can be part of a command.
pub fn quote_sway(value: &str) -> (text: Result<String, WorkspaceError>)
    ensures
        match text {
            Ok(text) => is_safe_name(value@) && text@ == quoted(value@),
            Err(error) => !is_safe_name(value@) && error == WorkspaceError::UnsafeName,
        },
{
    let chars = characters(value);
    if chars.len() == 0 {
        return Err(WorkspaceError::UnsafeName);
    }
    let mut at: usize = 0;
    while at < chars.len()
        invariant
            at <= chars.len(),
            chars@ == value@,
            forall|earlier: int| 0 <= earlier < at ==> is_plain(#[trigger] value@[earlier]),
        decreases chars.len() - at,
    {
        let character = chars[at];
        if !(('a' <= character && character <= 'z') || ('A' <= character && character <= 'Z') || (
        '0' <= character && character <= '9') || character == ' ' || character == '_' || character
            == '-') {
            assert(!is_plain(value@[at as int]));
            return Err(WorkspaceError::UnsafeName);
        }
        at = at + 1;
    }
    Ok(join(join("\"", value).as_str(), "\""))
}

/// A quoted name holds no quote and no separator of commands inside its quotes.
pub proof fn quoted_names_stay_inside(name: Seq<char>, at: int)
    requires
        is_safe_name(name),
        0 < at < quoted(name).len() - 1,
    ensures
        quoted(name)[at] != '"',
        quoted(name)[at] != ';',
        quoted(name)[at] != ',',
        quoted(name)[at] != '\\',
{
    reveal_strlit("\"");
    assert(quoted(name)[at] == name[at - 1]);
    assert(is_plain(name[at - 1]));
}

/// The active output with the smallest identifier, the first of those.
pub open spec fn primary_of(outputs: Seq<OutputView>) -> Option<OutputView>
    decreases outputs.len(),
{
    if outputs.len() == 0 {
        None
    } else {
        let last = outputs.last();
        match primary_of(outputs.drop_last()) {
            Some(best) => if last.active && last.id < best.id {
                Some(last)
            } else {
                Some(best)
            },
            None => if last.active {
                Some(last)
            } else {
                None
            },
        }
    }
}

/// The primary output is active, and no active output has a smaller identifier.
pub proof fn primary_has_the_smallest_identifier(outputs: Seq<OutputView>)
    ensures
        match primary_of(outputs) {
            Some(primary) => outputs.contains(primary) && primary.active && forall|at: int|
                0 <= at < outputs.len() && (#[trigger] outputs[at]).active ==> primary.id
                    <= outputs[at].id,
            None => forall|at: int| 0 <= at < outputs.len() ==> !(#[trigger] outputs[at]).active,
        },
    decreases outputs.len(),
{
    if outputs.len() > 0 {
        let front = outputs.drop_last();
        primary_has_the_smallest_identifier(front);
        assert(outputs[outputs.len() - 1] == outputs.last());
        assert forall|at: int| 0 <= at < outputs.len() implies at == outputs.len() - 1
            || #[trigger] outputs[at] == front[at] by {}
        if let Some(best) = primary_of(front) {
            let at = choose|at: int| 0 <= at < front.len() && front[at] == best;
            assert(outputs[at] == best);
        }
    }
}

/// The name of the output that shows the desktop.
pub fn desktop_output(outputs: &Vec<OutputState>) -> (name: Result<String, WorkspaceError>)
    ensures
        match name {
            Ok(name) => primary_of(output_views(outputs@)) is Some && name@ == primary_of(
                output_views(outputs@),
            )->0.name,
            Err(error) => primary_of(output_views(outputs@)) is None && error
                == WorkspaceError::NoActiveOutput,
        },
{
    let ghost views = output_views(outputs@);
    let mut best: Option<usize> = None;
    let mut at: usize = 0;
    assert(views.take(0) =~= seq![]);
    while at < outputs.len()
        invariant
            at <= outputs.len(),
            views == output_views(outputs@),
            match best {
                Some(best) => best < outputs.len() && primary_of(views.take(at as int)) == Some(
                    outputs@[best as int]@,
                ),
                None => primary_of(views.take(at as int)) is None,
            },
        decreases outputs.len() - at,
    {
        assert(views.take(at + 1).drop_last() =~= views.take(at as int));
        assert(views[at as int] == outputs@[at as int]@);
        if outputs[at].active {
            best = match best {
                Some(best) => if outputs[at].id < outputs[best].id {
                    Some(at)
                } else {
                    Some(best)
                },
                None => Some(at),
            };
        }
        at = at + 1;
    }
    assert(views.take(at as int) =~= views);
    match best {
        Some(best) => Ok(outputs[best].name.clone()),
        None => Err(WorkspaceError::NoActiveOutput),
    }
}

/// Whether a workspace has that name.
pub open spec fn is_named(name: Seq<char>) -> spec_fn(WorkspaceView) -> bool {
    |workspace: WorkspaceView| workspace.name == name
}

/// Whether a workspace is visible on that output.
pub open spec fn is_visible_on(output: Seq<char>) -> spec_fn(WorkspaceView) -> bool {
    |workspace: WorkspaceView| workspace.visible && workspace.output == output
}

/// The position of the first workspace with that name.
pub fn find_workspace(workspaces: &Vec<WorkspaceState>, name: &str) -> (found: Option<usize>)
    ensures
        match found {
            Some(at) => at < workspaces.len() && first_kept(
                workspace_views(workspaces@),
                is_named(name@),
            ) == Some(workspaces@[at as int]@),
            None => first_kept(workspace_views(workspaces@), is_named(name@)) is None,
        },
{
    let ghost views = workspace_views(workspaces@);
    let ghost keep = is_named(name@);
    let mut at: usize = 0;
    proof {
        filter_ends(views, keep);
    }
    while at < workspaces.len()
        invariant
            at <= workspaces.len(),
            views == workspace_views(workspaces@),
            keep == is_named(name@),
            views.take(at as int).filter(keep).len() == 0,
        decreases workspaces.len() - at,
    {
        assert(views[at as int] == workspaces@[at as int]@);
        if text_is(&workspaces[at].name, name) {
            proof {
                first_is_kept(views, keep, at as int);
            }
            return Some(at);
        }
        proof {
            filter_step(views, keep, at as int);
        }
        at = at + 1;
    }
    proof {
        filter_ends(views, keep);
    }
    None
}

/// The name of the workspace that the desktop's output shows.
pub fn current_desktop_workspace(
    outputs: &Vec<OutputState>,
    workspaces: &Vec<WorkspaceState>,
) -> (name: Result<String, WorkspaceError>)
    ensures
        match primary_of(output_views(outputs@)) {
            Some(primary) => {
                let shown = first_kept(workspace_views(workspaces@), is_visible_on(primary.name));
                match name {
                    Ok(name) => shown is Some && name@ == shown->0.name,
                    Err(error) => shown is None && error == WorkspaceError::NoVisibleWorkspace,
                }
            },
            None => name == Err::<String, WorkspaceError>(WorkspaceError::NoActiveOutput),
        },
{
    let output = match desktop_output(outputs) {
        Ok(output) => output,
        Err(error) => {
            return Err(error);
        },
    };
    let ghost views = workspace_views(workspaces@);
    let ghost keep = is_visible_on(output@);
    let mut at: usize = 0;
    proof {
        filter_ends(views, keep);
    }
    while at < workspaces.len()
        invariant
            at <= workspaces.len(),
            views == workspace_views(workspaces@),
            keep == is_visible_on(output@),
            primary_of(output_views(outputs@)) is Some,
            output@ == primary_of(output_views(outputs@))->0.name,
            views.take(at as int).filter(keep).len() == 0,
        decreases workspaces.len() - at,
    {
        assert(views[at as int] == workspaces@[at as int]@);
        if workspaces[at].visible && text_is(&workspaces[at].output, output.as_str()) {
            proof {
                first_is_kept(views, keep, at as int);
            }
            return Ok(workspaces[at].name.clone());
        }
        proof {
            filter_step(views, keep, at as int);
        }
        at = at + 1;
    }
    proof {
        filter_ends(views, keep);
    }
    Err(WorkspaceError::NoVisibleWorkspace)
}

/// The command that creates the desktop's workspace, where it is missing.
pub fn ensure_desktop_workspace(workspaces: &Vec<WorkspaceState>) -> (command: Option<String>)
    ensures
        match command {
            Some(command) => first_kept(workspace_views(workspaces@), is_named("Desktop"@)) is None
                && command@ == "workspace \"Desktop\""@,
            None => first_kept(workspace_views(workspaces@), is_named("Desktop"@)) is Some,
        },
{
    match find_workspace(workspaces, "Desktop") {
        Some(_) => None,
        None => Some("workspace \"Desktop\"".to_string()),
    }
}

/// What to do for a numbered workspace to be there.
#[derive(Debug)]
pub enum Ensure {
    /// It is there, at that position; the command, if any, readies its seat.
    Present { at: usize, seat: Option<String> },
    /// It is to be created on an output of its own.
    Create,
}

/// The command that keeps the seat of a workspace from standing in for another.
pub open spec fn seat_text(index: u32) -> Seq<char> {
    "seat \"seat"@ + decimal(index as nat) + "\" fallback false"@
}

/// The command that keeps the seat of a workspace from standing in for another.
fn seat_command(index: u32) -> (command: String)
    ensures
        command@ == seat_text(index),
{
    join(join("seat \"seat", decimal_text(index as u64).as_str()).as_str(), "\" fallback false")
}

/// What to do for the workspace `index` to be there.
pub fn ensure_workspace(index: u32, workspaces: &Vec<WorkspaceState>) -> (ensure: Result<
    Ensure,
    WorkspaceError,
>)
    ensures
        ({
            let present = first_kept(
                workspace_views(workspaces@),
                is_named(workspace_name_of(index)),
            );
            match ensure {
                Err(error) => index == 0 && error == WorkspaceError::DesktopIsFixed,
                Ok(Ensure::Create) => index > 0 && present is None,
                Ok(Ensure::Present { at, seat }) => index > 0 && at < workspaces.len() && present
                    == Some(workspaces@[at as int]@) && crate::text::optional_text(seat) == (
                if is_cua_index(index) {
                    Some(seat_text(index))
                } else {
                    None
                }),
            }
        }),
{
    if index == 0 {
        return Err(WorkspaceError::DesktopIsFixed);
    }
    let name = workspace_name(index);
    match find_workspace(workspaces, name.as_str()) {
        Some(at) => {
            let seat = if is_cua_workspace(index) {
                Some(seat_command(index))
            } else {
                None
            };
            Ok(Ensure::Present { at, seat })
        },
        None => Ok(Ensure::Create),
    }
}

/// A number of thousandths as a decimal fraction with three places.
pub open spec fn thousandths(number: nat) -> Seq<char> {
    decimal(number / 1000) + "."@ + seq![
        digit_char(number / 100 % 10),
        digit_char(number / 10 % 10),
        digit_char(number % 10),
    ]
}

/// A number of thousandths as a decimal fraction with three places.
fn thousandths_text(number: u32) -> (text: String)
    ensures
        text@ == thousandths(number as nat),
{
    let whole = decimal_text((number / 1000) as u64);
    let first = decimal_text((number / 100 % 10) as u64);
    let second = decimal_text((number / 10 % 10) as u64);
    let third = decimal_text((number % 10) as u64);
    assert(first@ =~= seq![digit_char((number / 100 % 10) as nat)]);
    assert(second@ =~= seq![digit_char((number / 10 % 10) as nat)]);
    assert(third@ =~= seq![digit_char((number % 10) as nat)]);
    let text = join(
        join(whole.as_str(), ".").as_str(),
        join(join(first.as_str(), second.as_str()).as_str(), third.as_str()).as_str(),
    );
    assert(text@ =~= thousandths(number as nat));
    text
}

/// The right end of the outputs beside the primary one, of which nothing lies to the right.
pub open spec fn right_end(outputs: Seq<OutputView>, primary: OutputView) -> int
    decreases outputs.len(),
{
    if outputs.len() == 0 {
        saturate_i32(primary.rect.x + primary.rect.width)
    } else {
        let last = outputs.last();
        let before = right_end(outputs.drop_last(), primary);
        if last.active && last.name != primary.name {
            max_of(before, saturate_i32(last.rect.x + last.rect.width))
        } else {
            before
        }
    }
}

/// A new output never lies over one that is active.
pub proof fn new_output_is_beside_the_others(
    outputs: Seq<OutputView>,
    primary: OutputView,
    at: int,
)
    requires
        0 <= at < outputs.len(),
        outputs[at].active,
        outputs[at].name != primary.name,
        outputs[at].rect.x + outputs[at].rect.width <= i32::MAX,
    ensures
        outputs[at].rect.x + outputs[at].rect.width <= right_end(outputs, primary),
    decreases outputs.len(),
{
    if at < outputs.len() - 1 {
        assert(outputs.drop_last()[at] == outputs[at]);
        new_output_is_beside_the_others(outputs.drop_last(), primary, at);
    }
}

/// Whether an output is none of those that were there before.
pub open spec fn is_new(before: Seq<OutputView>) -> spec_fn(OutputView) -> bool {
    |output: OutputView|
        forall|at: int| 0 <= at < before.len() ==> (#[trigger] before[at]).name != output.name
}

/// Whether an output is active and has that name.
pub open spec fn is_active_named(name: Seq<char>) -> spec_fn(OutputView) -> bool {
    |output: OutputView| output.active && output.name == name
}

/// The command that sets up an output for a new workspace and puts the workspace there.
pub open spec fn create_text(
    created: Seq<char>,
    primary: OutputView,
    x: int,
    index: u32,
    current: Seq<char>,
) -> Seq<char> {
    "output "@ + quoted(created) + " mode "@ + decimal(
        max_of(primary.physical_width as int, 1) as nat,
    ) + "x"@ + decimal(max_of(primary.physical_height as int, 1) as nat) + "@"@ + thousandths(
        primary.refresh_millihz as nat,
    ) + "Hz scale "@ + thousandths(primary.scale_milli as nat) + " pos "@ + signed_decimal(x)
        + " "@ + signed_decimal(primary.rect.y as int) + "; "@ + (if is_cua_index(index) {
        seat_text(index) + "; "@
    } else {
        seq![]
    }) + "workspace "@ + quoted(workspace_name_of(index)) + "; move workspace to output "@ + quoted(
        created,
    ) + "; workspace "@ + quoted(current)
}

/// The command that creates the workspace `index`, or why there is none: `before` and `after` are
/// the outputs around the creation of one, `primary` and `current` the names of the desktop's
/// output and of the workspace that it shows.
pub open spec fn created(
    index: u32,
    before: Seq<OutputView>,
    after: Seq<OutputView>,
    primary: Seq<char>,
    current: Seq<char>,
) -> Result<Seq<char>, WorkspaceError> {
    match (first_kept(after, is_new(before)), first_kept(after, is_active_named(primary))) {
        (None, _) => Err(WorkspaceError::NoNewOutput),
        (_, None) => Err(WorkspaceError::NoActiveOutput),
        (Some(new), Some(host)) => if is_safe_name(new.name) && is_safe_name(
            workspace_name_of(index),
        ) && is_safe_name(current) {
            Ok(create_text(new.name, host, right_end(after, host), index, current))
        } else {
            Err(WorkspaceError::UnsafeName)
        },
    }
}

/// Whether an output of that name is in the list.
fn has_output(outputs: &Vec<OutputState>, name: &String) -> (has: bool)
    ensures
        has == exists|at: int|
            0 <= at < output_views(outputs@).len() && (#[trigger] output_views(outputs@)[at]).name
                == name@,
{
    let ghost views = output_views(outputs@);
    let mut at: usize = 0;
    while at < outputs.len()
        invariant
            at <= outputs.len(),
            views == output_views(outputs@),
            forall|earlier: int| 0 <= earlier < at ==> (#[trigger] views[earlier]).name != name@,
        decreases outputs.len() - at,
    {
        assert(views[at as int] == outputs@[at as int]@);
        if text_is(&outputs[at].name, name.as_str()) {
            return true;
        }
        at = at + 1;
    }
    false
}

/// The first output that was not there before.
fn find_new(before: &Vec<OutputState>, after: &Vec<OutputState>) -> (found: Option<usize>)
    ensures
        match found {
            Some(at) => at < after.len() && first_kept(
                output_views(after@),
                is_new(output_views(before@)),
            ) == Some(after@[at as int]@),
            None => first_kept(output_views(after@), is_new(output_views(before@))) is None,
        },
{
    let ghost views = output_views(after@);
    let ghost keep = is_new(output_views(before@));
    let mut at: usize = 0;
    proof {
        filter_ends(views, keep);
    }
    while at < after.len()
        invariant
            at <= after.len(),
            views == output_views(after@),
            keep == is_new(output_views(before@)),
            views.take(at as int).filter(keep).len() == 0,
        decreases after.len() - at,
    {
        assert(views[at as int] == after@[at as int]@);
        if !has_output(before, &after[at].name) {
            assert(keep(views[at as int]));
            proof {
                first_is_kept(views, keep, at as int);
            }
            return Some(at);
        }
        assert(!keep(views[at as int]));
        proof {
            filter_step(views, keep, at as int);
        }
        at = at + 1;
    }
    proof {
        filter_ends(views, keep);
    }
    None
}

/// The first active output of that name.
fn find_active(outputs: &Vec<OutputState>, name: &String) -> (found: Option<usize>)
    ensures
        match found {
            Some(at) => at < outputs.len() && first_kept(
                output_views(outputs@),
                is_active_named(name@),
            ) == Some(outputs@[at as int]@),
            None => first_kept(output_views(outputs@), is_active_named(name@)) is None,
        },
{
    let ghost views = output_views(outputs@);
    let ghost keep = is_active_named(name@);
    let mut at: usize = 0;
    proof {
        filter_ends(views, keep);
    }
    while at < outputs.len()
        invariant
            at <= outputs.len(),
            views == output_views(outputs@),
            keep == is_active_named(name@),
            views.take(at as int).filter(keep).len() == 0,
        decreases outputs.len() - at,
    {
        assert(views[at as int] == outputs@[at as int]@);
        if outputs[at].active && text_is(&outputs[at].name, name.as_str()) {
            proof {
                first_is_kept(views, keep, at as int);
            }
            return Some(at);
        }
        proof {
            filter_step(views, keep, at as int);
        }
        at = at + 1;
    }
    proof {
        filter_ends(views, keep);
    }
    None
}

/// The right end of the outputs beside the primary one.
fn find_right_end(outputs: &Vec<OutputState>, primary: &OutputState) -> (x: i32)
    ensures
        x == right_end(output_views(outputs@), primary@),
{
    let ghost views = output_views(outputs@);
    let mut right: i32 = add_i32(primary.rect.x, primary.rect.width);
    let mut at: usize = 0;
    assert(views.take(0) =~= seq![]);
    while at < outputs.len()
        invariant
            at <= outputs.len(),
            views == output_views(outputs@),
            right == right_end(views.take(at as int), primary@),
        decreases outputs.len() - at,
    {
        assert(views.take(at + 1).drop_last() =~= views.take(at as int));
        assert(views[at as int] == outputs@[at as int]@);
        let output = &outputs[at];
        if output.active && !text_is(&output.name, primary.name.as_str()) {
            right = max_i32(right, add_i32(output.rect.x, output.rect.width));
        }
        at = at + 1;
    }
    assert(views.take(at as int) =~= views);
    right
}

/// The part of the command that sets up the output.
fn output_command(created: &str, primary: &OutputState, x: i32) -> (command: String)
    ensures
        command@ == "output "@ + created@ + " mode "@ + decimal(
            max_of(primary.physical_width as int, 1) as nat,
        ) + "x"@ + decimal(max_of(primary.physical_height as int, 1) as nat) + "@"@ + thousandths(
            primary.refresh_millihz as nat,
        ) + "Hz scale "@ + thousandths(primary.scale_milli as nat) + " pos "@ + signed_decimal(
            x as int,
        ) + " "@ + signed_decimal(primary.rect.y as int) + "; "@,
{
    let width = decimal_text(max_u32(primary.physical_width, 1) as u64);
    let height = decimal_text(max_u32(primary.physical_height, 1) as u64);
    let mut command = join("output ", created);
    command = join(command.as_str(), " mode ");
    command = join(command.as_str(), width.as_str());
    command = join(command.as_str(), "x");
    command = join(command.as_str(), height.as_str());
    command = join(command.as_str(), "@");
    command = join(command.as_str(), thousandths_text(primary.refresh_millihz).as_str());
    command = join(command.as_str(), "Hz scale ");
    command = join(command.as_str(), thousandths_text(primary.scale_milli).as_str());
    command = join(command.as_str(), " pos ");
    command = join(command.as_str(), signed_decimal_text(x).as_str());
    command = join(command.as_str(), " ");
    command = join(command.as_str(), signed_decimal_text(primary.rect.y).as_str());
    join(command.as_str(), "; ")
}

/// The command that creates the workspace `index` on the output that was added between `before`
/// and `after`.
pub fn ensure_numbered_workspace(
    index: u32,
    before: &Vec<OutputState>,
    after: &Vec<OutputState>,
    primary: &String,
    current: &String,
) -> (command: Result<String, WorkspaceError>)
    ensures
        match command {
            Ok(command) => created(
                index,
                output_views(before@),
                output_views(after@),
                primary@,
                current@,
            ) == Ok::<Seq<char>, WorkspaceError>(command@),
            Err(error) => created(
                index,
                output_views(before@),
                output_views(after@),
                primary@,
                current@,
            ) == Err::<Seq<char>, WorkspaceError>(error),
        },
{
    let new = match find_new(before, after) {
        Some(at) => at,
        None => {
            return Err(WorkspaceError::NoNewOutput);
        },
    };
    let host = match find_active(after, primary) {
        Some(at) => at,
        None => {
            return Err(WorkspaceError::NoActiveOutput);
        },
    };
    let x: i32 = find_right_end(after, &after[host]);
    let name = workspace_name(index);
    let quoted_output = match quote_sway(after[new].name.as_str()) {
        Ok(text) => text,
        Err(error) => {
            return Err(error);
        },
    };
    let quoted_name = match quote_sway(name.as_str()) {
        Ok(text) => text,
        Err(error) => {
            return Err(error);
        },
    };
    let quoted_current = match quote_sway(current.as_str()) {
        Ok(text) => text,
        Err(error) => {
            return Err(error);
        },
    };
    let mut command = output_command(quoted_output.as_str(), &after[host], x);
    let seat = if is_cua_workspace(index) {
        join(seat_command(index).as_str(), "; ")
    } else {
        String::new()
    };
    command = join(command.as_str(), seat.as_str());
    command = join(command.as_str(), "workspace ");
    command = join(command.as_str(), quoted_name.as_str());
    command = join(command.as_str(), "; move workspace to output ");
    command = join(command.as_str(), quoted_output.as_str());
    command = join(command.as_str(), "; workspace ");
    command = join(command.as_str(), quoted_current.as_str());
    assert(!is_cua_index(index) ==> seat@ =~= seq![]);
    Ok(command)
}

/// Whether the seat `index` belongs to one of the named workspaces.
pub open spec fn is_locked(names: Seq<Seq<char>>, index: u32) -> bool {
    is_cua_index(index) && exists|at: int|
        0 <= at < names.len() && workspace_index_of(#[trigger] names[at]) == Some(index)
}

/// Whether a list rises strictly.
pub open spec fn rises(indices: Seq<u32>) -> bool {
    forall|left: int, right: int|
        0 <= left < right < indices.len() ==> #[trigger] indices[left] < #[trigger] indices[right]
}

/// Puts an index where it belongs, unless it is there.
fn insert_index(indices: &mut Vec<u32>, index: u32)
    requires
        rises(old(indices)@),
    ensures
        rises(final(indices)@),
        forall|other: u32|
            final(indices)@.contains(other) <==> other == index || old(indices)@.contains(other),
{
    let ghost before = indices@;
    let mut at: usize = 0;
    while at < indices.len() && indices[at] < index
        invariant
            at <= indices.len(),
            indices@ == before,
            forall|earlier: int| 0 <= earlier < at ==> #[trigger] before[earlier] < index,
        decreases indices.len() - at,
    {
        at = at + 1;
    }
    if at < indices.len() && indices[at] == index {
        assert(before[at as int] == index);
        return;
    }
    indices.insert(at, index);
    proof {
        insertion_adds_one(before, at as int, index);
    }
}

/// Inserting adds exactly one element.
proof fn insertion_adds_one(list: Seq<u32>, at: int, index: u32)
    requires
        0 <= at <= list.len(),
    ensures
        forall|other: u32|
            #[trigger] list.insert(at, index).contains(other) <==> other == index || list.contains(
                other,
            ),
{
    let longer = list.insert(at, index);
    assert forall|other: u32| longer.contains(other) <==> other == index || list.contains(
        other,
    ) by {
        if other == index {
            assert(longer[at] == index);
        }
        if list.contains(other) {
            let from = choose|from: int| 0 <= from < list.len() && list[from] == other;
            if from < at {
                assert(longer[from] == other);
            } else {
                assert(longer[from + 1] == other);
            }
        }
        if longer.contains(other) {
            let to = choose|to: int| 0 <= to < longer.len() && longer[to] == other;
            if to < at {
                assert(list[to] == other);
            } else if to > at {
                assert(list[to - 1] == other);
            }
        }
    }
}

/// The seats to lock before the named workspaces are touched: each once, in rising order, so that
/// no two callers wait for each other.
pub fn lock_cua_workspaces(names: &Vec<String>) -> (indices: Vec<u32>)
    ensures
        rises(indices@),
        forall|index: u32| indices@.contains(index) <==> is_locked(text_views(names@), index),
{
    let ghost views = text_views(names@);
    let mut indices: Vec<u32> = Vec::new();
    let mut at: usize = 0;
    while at < names.len()
        invariant
            at <= names.len(),
            views == text_views(names@),
            rises(indices@),
            forall|index: u32|
                indices@.contains(index) <==> is_locked(views.take(at as int), index),
        decreases names.len() - at,
    {
        let ghost before = indices@;
        let ghost front = views.take(at as int);
        let ghost next = views.take(at + 1);
        assert(next =~= front.push(names@[at as int]@));
        match workspace_index(names[at].as_str()) {
            Some(index) => if is_cua_workspace(index) {
                insert_index(&mut indices, index);
            },
            None => {},
        }
        assert forall|index: u32| indices@.contains(index) <==> is_locked(next, index) by {
            if is_locked(front, index) {
                let from = choose|from: int|
                    0 <= from < front.len() && workspace_index_of(#[trigger] front[from]) == Some(
                        index,
                    );
                assert(workspace_index_of(next[from]) == Some(index));
            }
            if is_cua_index(index) && workspace_index_of(names@[at as int]@) == Some(index) {
                assert(workspace_index_of(next[at as int]) == Some(index));
                assert(is_locked(next, index));
            }
            if is_locked(next, index) {
                let from = choose|from: int|
                    0 <= from < next.len() && workspace_index_of(#[trigger] next[from]) == Some(
                        index,
                    );
                if from < at {
                    assert(workspace_index_of(front[from]) == Some(index));
                    assert(is_locked(front, index));
                }
            }
        }
        at = at + 1;
    }
    assert(views.take(at as int) =~= views);
    indices
}

/// The command that shows another workspace on the desktop's output.
#[derive(Debug)]
pub enum Switch {
    /// It is on that output.
    Show(String),
    /// It comes from another output, and the present workspace goes there. The windows of both
    /// are to be moved into their new bounds.
    Swap(String),
}

/// A [`Switch`] with its text as a sequence.
pub enum SwitchView {
    Show(Seq<char>),
    Swap(Seq<char>),
}

impl View for Switch {
    type V = SwitchView;

    open spec fn view(&self) -> SwitchView {
        match self {
            Switch::Show(command) => SwitchView::Show(command@),
            Switch::Swap(command) => SwitchView::Swap(command@),
        }
    }
}

/// How the workspace `name` comes to the desktop's output, which shows `current`.
pub open spec fn switched(
    name: Seq<char>,
    host: Seq<char>,
    current: Seq<char>,
    workspaces: Seq<WorkspaceView>,
) -> Result<SwitchView, WorkspaceError> {
    match first_kept(workspaces, is_named(name)) {
        None => Err(WorkspaceError::UnknownWorkspace),
        Some(target) => if target.output == host {
            if is_safe_name(name) {
                Ok(SwitchView::Show("workspace "@ + quoted(name)))
            } else {
                Err(WorkspaceError::UnsafeName)
            }
        } else if is_safe_name(name) && is_safe_name(host) && is_safe_name(current) && is_safe_name(
            target.output,
        ) {
            Ok(
                SwitchView::Swap(
                    "workspace "@ + quoted(name) + "; move workspace to output "@ + quoted(host)
                        + "; workspace "@ + quoted(current) + "; move workspace to output "@
                        + quoted(target.output) + "; workspace "@ + quoted(name),
                ),
            )
        } else {
            Err(WorkspaceError::UnsafeName)
        },
    }
}

/// What showing a workspace takes.
#[derive(Debug)]
pub enum SwitchPlan {
    /// It is shown.
    Nothing,
    /// It is brought to the desktop's output, in place of the one that is there, while the seats
    /// are locked.
    Switch { host_output: String, current: String, seats: Vec<u32> },
}

/// What showing the workspace `name` on the desktop's output takes: nothing where it is shown, or
/// else the names of that output and of the workspace that it shows.
pub open spec fn planned_switch(
    name: Seq<char>,
    outputs: Seq<OutputView>,
    workspaces: Seq<WorkspaceView>,
) -> Result<Option<(Seq<char>, Seq<char>)>, WorkspaceError> {
    match primary_of(outputs) {
        None => Err(WorkspaceError::NoActiveOutput),
        Some(primary) => match first_kept(workspaces, is_visible_on(primary.name)) {
            None => Err(WorkspaceError::NoVisibleWorkspace),
            Some(shown) => if shown.name == name {
                Ok(None)
            } else {
                Ok(Some((primary.name, shown.name)))
            },
        },
    }
}

/// What showing the workspace `name` on the desktop's output takes.
pub fn switch_workspace(
    name: &str,
    outputs: &Vec<OutputState>,
    workspaces: &Vec<WorkspaceState>,
) -> (plan: Result<SwitchPlan, WorkspaceError>)
    ensures
        match (
            plan,
            planned_switch(name@, output_views(outputs@), workspace_views(workspaces@)),
        ) {
            (Ok(SwitchPlan::Nothing), Ok(None)) => true,
            (Ok(SwitchPlan::Switch { host_output, current, .. }), Ok(Some(planned))) => (
            host_output@,
            current@,
            ) == planned,
            (Err(error), Err(expected)) => error == expected,
            _ => false,
        },
        match primary_of(output_views(outputs@)) {
            None => plan == Err::<SwitchPlan, WorkspaceError>(WorkspaceError::NoActiveOutput),
            Some(primary) => match first_kept(
                workspace_views(workspaces@),
                is_visible_on(primary.name),
            ) {
                None => plan == Err::<SwitchPlan, WorkspaceError>(
                    WorkspaceError::NoVisibleWorkspace,
                ),
                Some(shown) => match plan {
                    Ok(SwitchPlan::Nothing) => shown.name == name@,
                    Ok(SwitchPlan::Switch { host_output, current, seats }) => shown.name != name@
                        && host_output@ == primary.name && current@ == shown.name && rises(seats@)
                        && forall|index: u32|
                        seats@.contains(index) <==> is_locked(seq![shown.name, name@], index),
                    Err(_) => false,
                },
            },
        },
{
    let host_output = match desktop_output(outputs) {
        Ok(output) => output,
        Err(error) => {
            return Err(error);
        },
    };
    let current = match current_desktop_workspace(outputs, workspaces) {
        Ok(current) => current,
        Err(error) => {
            return Err(error);
        },
    };
    if text_is(&current, name) {
        return Ok(SwitchPlan::Nothing);
    }
    let mut names: Vec<String> = Vec::new();
    names.push(current.clone());
    names.push(name.to_string());
    assert(text_views(names@) =~= seq![current@, name@]);
    let seats = lock_cua_workspaces(&names);
    Ok(SwitchPlan::Switch { host_output, current, seats })
}

/// How the workspace `name` comes to the desktop's output.
pub fn switch_workspace_unlocked(
    name: &str,
    host_output: &str,
    current: &str,
    workspaces: &Vec<WorkspaceState>,
) -> (switch: Result<Switch, WorkspaceError>)
    ensures
        match switch {
            Ok(switch) => switched(
                name@,
                host_output@,
                current@,
                workspace_views(workspaces@),
            ) == Ok::<SwitchView, WorkspaceError>(switch@),
            Err(error) => switched(
                name@,
                host_output@,
                current@,
                workspace_views(workspaces@),
            ) == Err::<SwitchView, WorkspaceError>(error),
        },
{
    let at: usize = match find_workspace(workspaces, name) {
        Some(at) => at,
        None => {
            return Err(WorkspaceError::UnknownWorkspace);
        },
    };
    let target = &workspaces[at];
    let own = match quote_sway(name) {
        Ok(own) => own,
        Err(error) => {
            return Err(error);
        },
    };
    let mut command = join("workspace ", own.as_str());
    if text_is(&target.output, host_output) {
        return Ok(Switch::Show(command));
    }
    let host = match quote_sway(host_output) {
        Ok(host) => host,
        Err(error) => {
            return Err(error);
        },
    };
    let present = match quote_sway(current) {
        Ok(present) => present,
        Err(error) => {
            return Err(error);
        },
    };
    let away = match quote_sway(target.output.as_str()) {
        Ok(away) => away,
        Err(error) => {
            return Err(error);
        },
    };
    command = join(command.as_str(), "; move workspace to output ");
    command = join(command.as_str(), host.as_str());
    command = join(command.as_str(), "; workspace ");
    command = join(command.as_str(), present.as_str());
    command = join(command.as_str(), "; move workspace to output ");
    command = join(command.as_str(), away.as_str());
    command = join(command.as_str(), "; workspace ");
    command = join(command.as_str(), own.as_str());
    Ok(Switch::Swap(command))
}

/// Whether a window is on one of two workspaces.
pub open spec fn is_on_either(first: Seq<char>, second: Seq<char>) -> spec_fn(WindowView) -> bool {
    |window: WindowView| window.place.workspace == first || window.place.workspace == second
}

/// The identifiers of the windows whose workspaces changed places.
pub fn swapped_windows(windows: &Vec<WindowState>, name: &str, current: &str) -> (identifiers: Vec<
    String,
>)
    ensures
        text_views(identifiers@) == crate::windows::identifiers_of(
            window_views(windows@).filter(is_on_either(name@, current@)),
        ),
{
    let ghost views = window_views(windows@);
    let ghost keep = is_on_either(name@, current@);
    let mut identifiers: Vec<String> = Vec::new();
    let mut at: usize = 0;
    proof {
        filter_ends(views, keep);
    }
    assert(text_views(identifiers@) =~= crate::windows::identifiers_of(views.take(0).filter(keep)));
    while at < windows.len()
        invariant
            at <= windows.len(),
            views == window_views(windows@),
            keep == is_on_either(name@, current@),
            text_views(identifiers@) == crate::windows::identifiers_of(
                views.take(at as int).filter(keep),
            ),
        decreases windows.len() - at,
    {
        assert(views[at as int] == windows@[at as int]@);
        let ghost kept = views.take(at as int).filter(keep);
        proof {
            filter_step(views, keep, at as int);
        }
        if text_is(&windows[at].workspace, name) || text_is(&windows[at].workspace, current) {
            let ghost before = text_views(identifiers@);
            let identifier = windows[at].identifier.clone();
            identifiers.push(identifier);
            assert(text_views(identifiers@) =~= before.push(identifier@));
            assert(text_views(identifiers@) =~= crate::windows::identifiers_of(
                kept.push(views[at as int]),
            ));
        }
        at = at + 1;
    }
    proof {
        filter_ends(views, keep);
    }
    identifiers
}

/// The commands that move a window to a workspace, and the focus with it if `focus`.
pub open spec fn move_texts(workspace: Seq<char>, focus: bool) -> Seq<Seq<char>> {
    if focus {
        seq![
            "move container to workspace "@ + quoted(workspace),
            "workspace "@ + quoted(workspace),
            "focus"@,
        ]
    } else {
        seq!["move container to workspace "@ + quoted(workspace)]
    }
}

/// The step that moves a window to a workspace, and the focus with it if `focus`: it is done once
/// the tree shows the window on that workspace.
pub fn move_window_to_workspace(workspace: &str, focus: bool) -> (step: Result<
    Step,
    WorkspaceError,
>)
    ensures
        match step {
            Ok(step) => is_safe_name(workspace@) && step@ == StepView::Run(
                move_texts(workspace@, focus),
                ConfirmView::OnWorkspace(workspace@),
                None,
            ),
            Err(error) => !is_safe_name(workspace@) && error == WorkspaceError::UnsafeName,
        },
{
    let name = match quote_sway(workspace) {
        Ok(name) => name,
        Err(error) => {
            return Err(error);
        },
    };
    let mut commands: Vec<String> = Vec::new();
    commands.push(join("move container to workspace ", name.as_str()));
    if focus {
        commands.push(join("workspace ", name.as_str()));
        commands.push("focus".to_string());
    }
    assert(text_views(commands@) =~= move_texts(workspace@, focus));
    Ok(Step::Run { commands, confirm: Confirm::OnWorkspace(workspace.to_string()), next: None })
}

/// Whether the desktop must be shown before the workspace `index` is closed.
pub open spec fn leaves_first(index: u32, workspaces: Seq<WorkspaceView>, host: Seq<char>) -> Result<
    bool,
    WorkspaceError,
> {
    if index == 0 {
        Err(WorkspaceError::DesktopIsFixed)
    } else {
        match first_kept(workspaces, is_named(workspace_name_of(index))) {
            Some(target) => Ok(target.output == host),
            None => Err(WorkspaceError::UnknownWorkspace),
        }
    }
}

/// Whether the workspace `index` is on the desktop's output, which must show the desktop before
/// the workspace is closed.
pub fn close_workspace(index: u32, workspaces: &Vec<WorkspaceState>, host_output: &str) -> (leave:
    Result<bool, WorkspaceError>)
    ensures
        leave == leaves_first(index, workspace_views(workspaces@), host_output@),
        ({
            let target = first_kept(
                workspace_views(workspaces@),
                is_named(workspace_name_of(index)),
            );
            leave == if index == 0 {
                Err::<bool, WorkspaceError>(WorkspaceError::DesktopIsFixed)
            } else {
                match target {
                    Some(target) => Ok(target.output == host_output@),
                    None => Err(WorkspaceError::UnknownWorkspace),
                }
            }
        }),
{
    if index == 0 {
        return Err(WorkspaceError::DesktopIsFixed);
    }
    let name = workspace_name(index);
    match find_workspace(workspaces, name.as_str()) {
        Some(at) => Ok(text_is(&workspaces[at].output, host_output)),
        None => Err(WorkspaceError::UnknownWorkspace),
    }
}

/// Whether no window is on a workspace.
pub open spec fn is_empty_workspace(windows: Seq<WindowView>, name: Seq<char>) -> bool {
    forall|at: int| 0 <= at < windows.len() ==> (#[trigger] windows[at]).place.workspace != name
}

/// Whether a window is on a workspace.
pub open spec fn is_on(name: Seq<char>) -> spec_fn(WindowView) -> bool {
    |window: WindowView| window.place.workspace == name
}

/// A window that is moved to the desktop before its workspace is closed.
#[derive(Debug, Clone, PartialEq, Eq)]
pub struct Evacuee {
    pub identifier: String,
    pub container_id: u64,
}

/// The windows that have yet to be seen on the desktop before the workspace `index` is closed, and
/// the output that is then taken away.
#[derive(Debug, Clone, PartialEq, Eq)]
pub struct Evacuation {
    pub index: u32,
    pub output: String,
    pub waiting: Vec<Evacuee>,
}

/// An [`Evacuation`] with each window as its identifier and its container.
#[verifier::ext_equal]
pub struct EvacuationView {
    pub index: u32,
    pub output: Seq<char>,
    pub waiting: Seq<(Seq<char>, u64)>,
}

/// Windows by their identifiers and their containers.
pub open spec fn evacuee_views(waiting: Seq<Evacuee>) -> Seq<(Seq<char>, u64)> {
    waiting.map_values(|window: Evacuee| (window.identifier@, window.container_id))
}

impl View for Evacuation {
    type V = EvacuationView;

    open spec fn view(&self) -> EvacuationView {
        EvacuationView {
            index: self.index,
            output: self.output@,
            waiting: evacuee_views(self.waiting@),
        }
    }
}

/// The windows as those that are moved to the desktop.
pub open spec fn evacuees_of(windows: Seq<WindowView>) -> Seq<(Seq<char>, u64)> {
    windows.map_values(|window: WindowView| (window.identifier, window.container_id))
}

/// The windows that are on the workspace `index`, and its output, unless that shows the desktop.
pub open spec fn evacuation_of(
    index: u32,
    workspaces: Seq<WorkspaceView>,
    host_output: Seq<char>,
    windows: Seq<WindowView>,
) -> Result<EvacuationView, WorkspaceError> {
    if index == 0 {
        Err(WorkspaceError::DesktopIsFixed)
    } else {
        match first_kept(workspaces, is_named(workspace_name_of(index))) {
            None => Err(WorkspaceError::UnknownWorkspace),
            Some(target) => if target.output == host_output {
                Err(WorkspaceError::HostOutput)
            } else {
                Ok(
                    EvacuationView {
                        index,
                        output: target.output,
                        waiting: evacuees_of(windows.filter(is_on(workspace_name_of(index)))),
                    },
                )
            },
        }
    }
}

/// The windows that are on the workspace `index`, which are moved to the desktop before it is
/// closed, and its output. Neither the desktop nor a workspace on its output is closed.
pub fn evacuate_workspace(
    index: u32,
    workspaces: &Vec<WorkspaceState>,
    host_output: &str,
    windows: &Vec<WindowState>,
) -> (evacuation: Result<Evacuation, WorkspaceError>)
    ensures
        match (
            evacuation,
            evacuation_of(
                index,
                workspace_views(workspaces@),
                host_output@,
                window_views(windows@),
            ),
        ) {
            (Ok(evacuation), Ok(expected)) => evacuation@ == expected,
            (Err(error), Err(expected)) => error == expected,
            _ => false,
        },
{
    if index == 0 {
        return Err(WorkspaceError::DesktopIsFixed);
    }
    let output = match find_workspace(workspaces, workspace_name(index).as_str()) {
        Some(at) => if text_is(&workspaces[at].output, host_output) {
            return Err(WorkspaceError::HostOutput);
        } else {
            workspaces[at].output.clone()
        },
        None => {
            return Err(WorkspaceError::UnknownWorkspace);
        },
    };
    let name = workspace_name(index);
    let ghost views = window_views(windows@);
    let ghost keep = is_on(name@);
    let mut waiting: Vec<Evacuee> = Vec::new();
    let mut at: usize = 0;
    proof {
        filter_ends(views, keep);
    }
    assert(evacuee_views(waiting@) =~= evacuees_of(views.take(0).filter(keep)));
    while at < windows.len()
        invariant
            at <= windows.len(),
            views == window_views(windows@),
            keep == is_on(name@),
            evacuee_views(waiting@) == evacuees_of(views.take(at as int).filter(keep)),
        decreases windows.len() - at,
    {
        assert(views[at as int] == windows@[at as int]@);
        let ghost kept = views.take(at as int).filter(keep);
        proof {
            filter_step(views, keep, at as int);
        }
        if text_is(&windows[at].workspace, name.as_str()) {
            let ghost before = evacuee_views(waiting@);
            let window = Evacuee {
                identifier: windows[at].identifier.clone(),
                container_id: windows[at].container_id,
            };
            waiting.push(window);
            assert(evacuee_views(waiting@) =~= before.push(
                (window.identifier@, window.container_id),
            ));
            assert(evacuee_views(waiting@) =~= evacuees_of(kept.push(views[at as int])));
        }
        at = at + 1;
    }
    proof {
        filter_ends(views, keep);
    }
    Ok(Evacuation { index, output, waiting })
}

/// The step that moves a window to the desktop before its workspace is closed: it is done once the
/// tree shows the window there.
pub fn move_to_desktop() -> (step: Step)
    ensures
        step@ == StepView::Run(
            seq!["move container to workspace \"Desktop\""@],
            ConfirmView::OnWorkspace("Desktop"@),
            None,
        ),
        step@ == leaving_step(),
{
    let mut commands: Vec<String> = Vec::new();
    commands.push("move container to workspace \"Desktop\"".to_string());
    assert(text_views(commands@) =~= seq!["move container to workspace \"Desktop\""@]);
    Step::Run { commands, confirm: Confirm::OnWorkspace("Desktop".to_string()), next: None }
}

/// Whether a state shows the window that is waited for first on the desktop.
pub open spec fn shows_first(evacuation: EvacuationView, state: WindowView) -> bool {
    evacuation.waiting.len() > 0 && state.identifier == evacuation.waiting[0].0
        && crate::windows::is_confirmed(ConfirmView::OnWorkspace("Desktop"@), state)
}

/// What is left to wait for after a state of a window was seen.
pub open spec fn after_seeing(evacuation: EvacuationView, state: WindowView) -> EvacuationView {
    if shows_first(evacuation, state) {
        EvacuationView { waiting: evacuation.waiting.skip(1), ..evacuation }
    } else {
        evacuation
    }
}

impl Evacuation {
    /// Takes in a state of a window: whether it shows the window that is waited for first on the
    /// desktop, which is then no longer waited for.
    pub fn confirm(&mut self, state: &WindowState) -> (moved: bool)
        ensures
            moved == shows_first(old(self)@, state@),
            final(self)@ == after_seeing(old(self)@, state@),
    {
        let ghost before = self.waiting@;
        if self.waiting.len() == 0 {
            return false;
        }
        assert(evacuee_views(before)[0].0 == before[0].identifier@);
        if !text_is(&state.identifier, self.waiting[0].identifier.as_str()) || !text_is(
            &state.workspace,
            "Desktop",
        ) {
            return false;
        }
        let _ = self.waiting.remove(0);
        assert(evacuee_views(self.waiting@) =~= evacuee_views(before).skip(1));
        true
    }

    /// The command that takes the output of the workspace away, once every window that was on it
    /// has been seen on the desktop and no window is on it.
    pub fn unplug_command(&self, windows: &Vec<WindowState>) -> (command: Result<
        String,
        WorkspaceError,
    >)
        ensures
            ({
                let left = self@.waiting.len() == 0 && is_empty_workspace(
                    window_views(windows@),
                    workspace_name_of(self@.index),
                );
                match command {
                    Ok(command) => left && is_safe_name(self@.output) && command@ == "output "@
                        + quoted(self@.output) + " unplug"@,
                    Err(error) => error == if !left {
                        WorkspaceError::StillInUse
                    } else {
                        WorkspaceError::UnsafeName
                    } && (left ==> !is_safe_name(self@.output)),
                }
            }),
            match command {
                Ok(command) => unplugging(self@, window_views(windows@)) == Some(command@),
                Err(_) => unplugging(self@, window_views(windows@)) is None,
            },
    {
        if self.waiting.len() > 0 {
            return Err(WorkspaceError::StillInUse);
        }
        let name = workspace_name(self.index);
        let ghost views = window_views(windows@);
        let mut at: usize = 0;
        while at < windows.len()
            invariant
                at <= windows.len(),
                self.waiting.len() == 0,
                views == window_views(windows@),
                name@ == workspace_name_of(self.index),
                forall|earlier: int|
                    0 <= earlier < at ==> (#[trigger] views[earlier]).place.workspace != name@,
            decreases windows.len() - at,
        {
            assert(views[at as int] == windows@[at as int]@);
            if text_is(&windows[at].workspace, name.as_str()) {
                return Err(WorkspaceError::StillInUse);
            }
            at = at + 1;
        }
        match quote_sway(self.output.as_str()) {
            Ok(text) => Ok(join(join("output ", text.as_str()).as_str(), " unplug")),
            Err(error) => Err(error),
        }
    }
}

/// What is left to wait for after several states were seen, one after the other.
pub open spec fn after_all(evacuation: EvacuationView, states: Seq<WindowView>) -> EvacuationView
    decreases states.len(),
{
    if states.len() == 0 {
        evacuation
    } else {
        after_seeing(after_all(evacuation, states.drop_last()), states.last())
    }
}

/// Once nothing is left to wait for, as an output is taken away only then, each window that was on the
/// workspace has been seen on the desktop; and the output is that of the workspace, never the one
/// that shows the desktop.
pub proof fn windows_leave_before_their_output(
    index: u32,
    workspaces: Seq<WorkspaceView>,
    host_output: Seq<char>,
    windows: Seq<WindowView>,
    states: Seq<WindowView>,
    place: int,
)
    requires
        match evacuation_of(index, workspaces, host_output, windows) {
            Ok(evacuation) => after_all(evacuation, states).waiting.len() == 0,
            Err(_) => false,
        },
        0 <= place < windows.len(),
        windows[place].place.workspace == workspace_name_of(index),
    ensures
        exists|at: int|
            0 <= at < states.len() && (#[trigger] states[at]).identifier
                == windows[place].identifier && states[at].place.workspace == "Desktop"@,
        ({
            let evacuation = evacuation_of(index, workspaces, host_output, windows)->Ok_0;
            after_all(evacuation, states).output != host_output && after_all(
                evacuation,
                states,
            ).index == index
        }),
{
    let keep = is_on(workspace_name_of(index));
    let evacuation = evacuation_of(index, workspaces, host_output, windows)->Ok_0;
    let kept = windows.filter(keep);
    let waiting = kept_is_found(windows, keep, place);
    assert(evacuation.waiting[waiting].0 == windows[place].identifier);
    seen_windows_are_shown(evacuation, states, waiting);
}

/// An element that is kept is found among those that are.
proof fn kept_is_found(
    windows: Seq<WindowView>,
    keep: spec_fn(WindowView) -> bool,
    place: int,
) -> (found: int)
    requires
        0 <= place < windows.len(),
        keep(windows[place]),
    ensures
        0 <= found < windows.filter(keep).len(),
        windows.filter(keep)[found] == windows[place],
{
    filter_step(windows, keep, place);
    crate::lists::filter_keeps_front(windows, keep, place + 1);
    let front = windows.take(place).filter(keep);
    assert(windows.take(place + 1).filter(keep)[front.len() as int] == windows[place]);
    front.len() as int
}

/// Each window that is no longer waited for has been seen on the desktop.
proof fn seen_windows_are_shown(evacuation: EvacuationView, states: Seq<WindowView>, place: int)
    requires
        0 <= place < evacuation.waiting.len(),
    ensures
        after_all(evacuation, states).index == evacuation.index,
        after_all(evacuation, states).output == evacuation.output,
        after_all(evacuation, states).waiting.len() <= evacuation.waiting.len(),
        after_all(evacuation, states).waiting =~= evacuation.waiting.skip(
            evacuation.waiting.len() - after_all(evacuation, states).waiting.len(),
        ),
        place < evacuation.waiting.len() - after_all(evacuation, states).waiting.len() ==> exists|
            at: int,
        |
            0 <= at < states.len() && (#[trigger] states[at]).identifier
                == evacuation.waiting[place].0 && states[at].place.workspace == "Desktop"@,
    decreases states.len(),
{
    if states.len() > 0 {
        let front = states.drop_last();
        seen_windows_are_shown(evacuation, front, place);
        let before = after_all(evacuation, front);
        let after = after_all(evacuation, states);
        let gone = evacuation.waiting.len() - before.waiting.len();
        if place < gone {
            let at = choose|at: int|
                0 <= at < front.len() && (#[trigger] front[at]).identifier
                    == evacuation.waiting[place].0 && front[at].place.workspace == "Desktop"@;
            assert(states[at] == front[at]);
        } else if place < evacuation.waiting.len() - after.waiting.len() {
            assert(shows_first(before, states.last()));
            assert(before.waiting[0] == evacuation.waiting[gone]);
            assert(states[states.len() - 1] == states.last());
        }
    }
}

/// The command that makes the compositor find out anew what the pointer is over.
pub fn refresh_cursor_focus() -> (command: String)
    ensures
        command@ == "seat - cursor move 0 0"@,
{
    "seat - cursor move 0 0".to_string()
}

/// A hexadecimal digit in lower case.
pub open spec fn hex_digit(digit: int) -> char {
    if digit < 10 {
        ('0' as u8 + digit) as char
    } else {
        ('a' as u8 + (digit - 10)) as char
    }
}

/// A byte as two hexadecimal digits.
pub open spec fn hex_pair(byte: u8) -> Seq<char> {
    seq![hex_digit(byte as int / 16), hex_digit(byte as int % 16)]
}

/// A colour as the compositor writes it.
pub open spec fn css_of(color: Color) -> Seq<char> {
    "#"@ + hex_pair(color.red) + hex_pair(color.green) + hex_pair(color.blue)
}

/// A hexadecimal digit in lower case.
fn hex_digit_of(digit: u8) -> (character: char)
    requires
        digit < 16,
    ensures
        character == hex_digit(digit as int),
{
    if digit < 10 {
        (48 + digit) as char
    } else {
        (97 + (digit - 10)) as char
    }
}

/// Appends a byte as two hexadecimal digits.
pub fn push_hex(text: &mut String, byte: u8)
    ensures
        final(text)@ == old(text)@ + hex_pair(byte),
{
    text.push(hex_digit_of(byte / 16));
    text.push(hex_digit_of(byte % 16));
    assert(text@ =~= old(text)@ + hex_pair(byte));
}

/// A colour as the compositor writes it.
pub fn css(color: Color) -> (text: String)
    ensures
        text@ == css_of(color),
{
    let mut text = "#".to_string();
    push_hex(&mut text, color.red);
    push_hex(&mut text, color.green);
    push_hex(&mut text, color.blue);
    text
}

/// The colours of the decoration of one class of windows.
pub open spec fn class_text(
    class: Seq<char>,
    edge: Color,
    text: Color,
    indicator: Color,
) -> Seq<char> {
    class + " "@ + css_of(edge) + " "@ + css_of(edge) + " "@ + css_of(text) + " "@ + css_of(
        indicator,
    ) + " "@ + css_of(edge)
}

/// The colours of the decoration of one class of windows.
fn class_command(class: &str, edge: Color, text: Color, indicator: Color) -> (command: String)
    ensures
        command@ == class_text(class@, edge, text, indicator),
{
    let edge = css(edge);
    let mut command = join(class, " ");
    command = join(command.as_str(), edge.as_str());
    command = join(command.as_str(), " ");
    command = join(command.as_str(), edge.as_str());
    command = join(command.as_str(), " ");
    command = join(command.as_str(), css(text).as_str());
    command = join(command.as_str(), " ");
    command = join(command.as_str(), css(indicator).as_str());
    command = join(command.as_str(), " ");
    join(command.as_str(), edge.as_str())
}

/// The command that gives the decorations the colours of a theme.
pub open spec fn theme_text(palette: ThemePalette) -> Seq<char> {
    class_text("client.focused"@, palette.raised, palette.text, palette.focus) + "; "@ + class_text(
        "client.focused_inactive"@,
        palette.menu,
        palette.text_secondary,
        palette.border,
    ) + "; "@ + class_text("client.unfocused"@, palette.menu, palette.text_muted, palette.border)
        + "; "@ + class_text(
        "client.urgent"@,
        palette.destructive,
        palette.text,
        palette.destructive_icon,
    )
}

/// The command that gives the decorations the colours of a theme.
pub fn theme_command(palette: &ThemePalette) -> (command: String)
    ensures
        command@ == theme_text(*palette),
{
    let focused = class_command("client.focused", palette.raised, palette.text, palette.focus);
    let inactive = class_command(
        "client.focused_inactive",
        palette.menu,
        palette.text_secondary,
        palette.border,
    );
    let unfocused = class_command(
        "client.unfocused",
        palette.menu,
        palette.text_muted,
        palette.border,
    );
    let urgent = class_command(
        "client.urgent",
        palette.destructive,
        palette.text,
        palette.destructive_icon,
    );
    let mut command = join(focused.as_str(), "; ");
    command = join(command.as_str(), inactive.as_str());
    command = join(command.as_str(), "; ");
    command = join(command.as_str(), unfocused.as_str());
    command = join(command.as_str(), "; ");
    join(command.as_str(), urgent.as_str())
}

/// The largest message that is read.
pub const MAX_IPC_PAYLOAD: usize = 16777216;

/// Why a message is not read.
#[derive(Debug, Clone, Copy, PartialEq, Eq, Structural)]
pub enum MessageError {
    /// The header does not begin with the protocol's name.
    Magic,
    /// The message is too long.
    Length,
}

/// The name of the protocol, with which each message begins.
pub open spec fn ipc_magic() -> Seq<u8> {
    seq![105u8, 51u8, 45u8, 105u8, 112u8, 99u8]
}

/// The length of the message that follows a header, given the number that its length field holds.
pub fn read_ipc_message(header: &[u8], length: u32) -> (payload: Result<usize, MessageError>)
    requires
        header.len() == 14,
    ensures
        payload == if header@.take(6) != ipc_magic() {
            Err::<usize, MessageError>(MessageError::Magic)
        } else if length > MAX_IPC_PAYLOAD {
            Err(MessageError::Length)
        } else {
            Ok(length as usize)
        },
        payload == message_length(header@, length),
{
    if header[0] != 105 || header[1] != 51 || header[2] != 45 || header[3] != 105 || header[4]
        != 112 || header[5] != 99 {
        proof {
            if header@.take(6) == ipc_magic() {
                let magic = ipc_magic();
                assert(header@.take(6)[0] == magic[0] && header@.take(6)[1] == magic[1]
                    && header@.take(6)[2] == magic[2] && header@.take(6)[3] == magic[3]
                    && header@.take(6)[4] == magic[4] && header@.take(6)[5] == magic[5]);
            }
        }
        return Err(MessageError::Magic);
    }
    assert(header@.take(6) =~= ipc_magic());
    if length > 16777216 {
        return Err(MessageError::Length);
    }
    Ok(length as usize)
}

/// Whether a message reports an event.
pub fn is_event(message_type: u32) -> (event: bool)
    ensures
        event == (message_type >= 0x8000_0000),
        event == is_event_type(message_type),
{
    message_type >= 0x8000_0000
}

/// Whatever output a workspace is on, switching to it begins and ends with showing it. One that is on
/// the desktop's output is only shown. One that is on another output is moved to the desktop's, and
/// the workspace that is shown there goes the other way.
pub proof fn switching_ends_with_what_was_asked_for(
    name: Seq<char>,
    host: Seq<char>,
    current: Seq<char>,
    workspaces: Seq<WorkspaceView>,
)
    ensures
        ({
            let show = "workspace "@ + "\""@ + name + "\""@;
            match switched(name, host, current, workspaces) {
                Ok(SwitchView::Show(command)) => {
                    &&& command == show
                    &&& exists|at: int|
                        0 <= at < workspaces.len() && (#[trigger] workspaces[at]).name == name
                            && workspaces[at].output == host
                },
                Ok(SwitchView::Swap(command)) => {
                    &&& begins_with(
                        command,
                        show + "; move workspace to output "@ + "\""@ + host + "\""@ + "; "@,
                    )
                    &&& finishes_with(command, "; "@ + show)
                    &&& exists|at: int|
                        {
                            &&& 0 <= at < workspaces.len()
                            &&& (#[trigger] workspaces[at]).name == name
                            &&& workspaces[at].output != host
                            &&& finishes_with(
                                command,
                                "; workspace "@ + "\""@ + current + "\""@
                                    + "; move workspace to output "@ + "\""@
                                    + workspaces[at].output + "\""@ + "; "@ + show,
                            )
                        }
                },
                Err(WorkspaceError::UnknownWorkspace) => forall|at: int|
                    0 <= at < workspaces.len() ==> (#[trigger] workspaces[at]).name != name,
                Err(error) => error == WorkspaceError::UnsafeName && (!is_safe_name(name)
                    || !is_safe_name(host) || !is_safe_name(current) || exists|at: int|
                    0 <= at < workspaces.len() && (#[trigger] workspaces[at]).name == name
                        && !is_safe_name(workspaces[at].output)),
            }
        }),
{
    reveal_strlit("; ");
    reveal_strlit("; workspace ");
    reveal_strlit("workspace ");
    reveal_strlit("; move workspace to output ");
    reveal_strlit("\"");
    crate::lists::first_kept_is_first(workspaces, is_named(name));
    let show = "workspace "@ + "\""@ + name + "\""@;
    if let Some(target) = first_kept(workspaces, is_named(name)) {
        let at = choose|at: int|
            0 <= at < workspaces.len() && #[trigger] workspaces[at] == target && is_named(name)(
                target,
            );
        assert(workspaces[at].name == name);
        assert("workspace "@ + quoted(name) =~= show);
        if let Ok(SwitchView::Swap(command)) = switched(name, host, current, workspaces) {
            let head = show + "; move workspace to output "@ + "\""@ + host + "\""@ + "; "@;
            let tail = "; workspace "@ + "\""@ + current + "\""@ + "; move workspace to output "@
                + "\""@ + target.output + "\""@ + "; "@ + show;
            let end = "; "@ + show;
            let middle = "workspace "@ + quoted(current) + "; move workspace to output "@ + quoted(
                target.output,
            ) + "; "@ + show;
            assert("; workspace "@ =~= "; "@ + "workspace "@);
            assert(command =~= head + middle);
            assert(command.take(head.len() as int) =~= head);
            let front = show + "; move workspace to output "@ + quoted(host);
            assert(command =~= front + tail);
            assert(command.skip(command.len() - tail.len()) =~= tail);
            assert(command.skip(command.len() - end.len()) =~= end);
        }
    }
}

/// Switching takes something exactly where the desktop's output, the active one with the smallest
/// identifier, shows another workspace. What is switched away from is what that output shows.
pub proof fn switching_starts_at_what_is_shown(
    name: Seq<char>,
    outputs: Seq<OutputView>,
    workspaces: Seq<WorkspaceView>,
)
    ensures
        match planned_switch(name, outputs, workspaces) {
            Ok(None) => exists|at: int|
                0 <= at < workspaces.len() && (#[trigger] workspaces[at]).visible
                    && workspaces[at].name == name,
            Ok(Some((host, current))) => {
                &&& current != name
                &&& exists|at: int|
                    0 <= at < workspaces.len() && (#[trigger] workspaces[at]).visible
                        && workspaces[at].name == current && workspaces[at].output == host
                &&& exists|at: int|
                    0 <= at < outputs.len() && (#[trigger] outputs[at]).active && outputs[at].name
                        == host && forall|other: int|
                        0 <= other < outputs.len() && (#[trigger] outputs[other]).active
                            ==> outputs[at].id <= outputs[other].id
            },
            Err(WorkspaceError::NoActiveOutput) => forall|at: int|
                0 <= at < outputs.len() ==> !(#[trigger] outputs[at]).active,
            Err(error) => error == WorkspaceError::NoVisibleWorkspace && exists|at: int|
                0 <= at < outputs.len() && (#[trigger] outputs[at]).active && forall|place: int|
                    0 <= place < workspaces.len() && (#[trigger] workspaces[place]).visible
                        ==> workspaces[place].output != outputs[at].name,
        },
{
    primary_has_the_smallest_identifier(outputs);
    if let Some(primary) = primary_of(outputs) {
        let at = choose|at: int| 0 <= at < outputs.len() && outputs[at] == primary;
        assert(outputs[at].active);
        crate::lists::first_kept_is_first(workspaces, is_visible_on(primary.name));
        if let Some(shown) = first_kept(workspaces, is_visible_on(primary.name)) {
            let place = choose|place: int|
                0 <= place < workspaces.len() && #[trigger] workspaces[place] == shown
                    && is_visible_on(primary.name)(shown);
            assert(workspaces[place].visible);
        }
    }
}

/// A new workspace is put on an output that was not there before, beside all others, with the mode
/// and the scale of the desktop's output. After that the desktop shows what it showed before.
pub proof fn new_workspaces_get_an_output_of_their_own(
    index: u32,
    before: Seq<OutputView>,
    after: Seq<OutputView>,
    primary: Seq<char>,
    current: Seq<char>,
)
    requires
        created(index, before, after, primary, current) is Ok,
    ensures
        exists|new: int, host: int|
            {
                &&& 0 <= new < after.len() && 0 <= host < after.len()
                &&& (#[trigger] after[host]).name == primary && after[host].active
                &&& forall|at: int|
                    0 <= at < before.len() ==> (#[trigger] before[at]).name != after[new].name
                &&& begins_with(
                    created(index, before, after, primary, current)->Ok_0,
                    "output "@ + "\""@ + (#[trigger] after[new]).name + "\""@ + " mode "@ + decimal(
                        max_of(after[host].physical_width as int, 1) as nat,
                    ) + "x"@ + decimal(max_of(after[host].physical_height as int, 1) as nat) + "@"@
                        + thousandths(after[host].refresh_millihz as nat) + "Hz scale "@
                        + thousandths(after[host].scale_milli as nat) + " pos "@,
                )
                &&& finishes_with(
                    created(index, before, after, primary, current)->Ok_0,
                    "workspace "@ + "\""@ + workspace_name_of(index) + "\""@
                        + "; move workspace to output "@ + "\""@ + after[new].name + "\""@
                        + "; workspace "@ + "\""@ + current + "\""@,
                )
                &&& is_cua_index(index) ==> holds_part(
                    created(index, before, after, primary, current)->Ok_0,
                    "seat \"seat"@ + decimal(index as nat) + "\" fallback false"@ + "; "@,
                )
            },
{
    crate::lists::first_kept_is_first(after, is_new(before));
    crate::lists::first_kept_is_first(after, is_active_named(primary));
    let fresh = first_kept(after, is_new(before))->0;
    let own = first_kept(after, is_active_named(primary))->0;
    let new = choose|new: int|
        0 <= new < after.len() && #[trigger] after[new] == fresh && is_new(before)(fresh);
    let host = choose|host: int|
        0 <= host < after.len() && #[trigger] after[host] == own && is_active_named(primary)(own);
    creating_commands_are_whole(fresh.name, own, right_end(after, own), index, current);
    assert(after[new].name == fresh.name && after[host].name == primary);
}

/// What comes before more text stays at its beginning.
proof fn front_stays(front: Seq<char>, text: Seq<char>, more: Seq<char>)
    requires
        begins_with(text, front),
    ensures
        begins_with(text + more, front),
{
    assert((text + more).take(front.len() as int) =~= text.take(front.len() as int));
}

/// Three texts one after the other, however they are put together.
proof fn texts_add_up(first: Seq<char>, second: Seq<char>, third: Seq<char>)
    ensures
        first + second + third == first + (second + third),
        finishes_with(first + (second + third), second + third),
{
    assert(first + second + third =~= first + (second + third));
    let whole = first + (second + third);
    let end = second + third;
    assert(whole.skip(whole.len() - end.len()) =~= end);
}

/// A name in quotes behind a text.
proof fn quotes_add_up(front: Seq<char>, name: Seq<char>)
    ensures
        front + quoted(name) == front + "\""@ + name + "\""@,
{
    assert(front + quoted(name) =~= front + "\""@ + name + "\""@);
}

/// What stands between two texts is held by the whole.
proof fn middle_is_held(front: Seq<char>, middle: Seq<char>, back: Seq<char>)
    ensures
        holds_part(front + middle + back, middle),
{
    let whole = front + middle + back;
    let start = front.len() as int;
    assert(whole.subrange(start, start + middle.len()) =~= middle);
}

/// What the command that creates a workspace begins with, ends with, and says of a seat.
#[verifier::spinoff_prover]
#[verifier::rlimit(60)]
proof fn creating_commands_are_whole(
    created: Seq<char>,
    primary: OutputView,
    x: int,
    index: u32,
    current: Seq<char>,
)
    ensures
        ({
            let text = create_text(created, primary, x, index, current);
            &&& begins_with(
                text,
                "output "@ + "\""@ + created + "\""@ + " mode "@ + decimal(
                    max_of(primary.physical_width as int, 1) as nat,
                ) + "x"@ + decimal(max_of(primary.physical_height as int, 1) as nat) + "@"@
                    + thousandths(primary.refresh_millihz as nat) + "Hz scale "@ + thousandths(
                    primary.scale_milli as nat,
                ) + " pos "@,
            )
            &&& finishes_with(
                text,
                "workspace "@ + "\""@ + workspace_name_of(index) + "\""@
                    + "; move workspace to output "@ + "\""@ + created + "\""@ + "; workspace "@
                    + "\""@ + current + "\""@,
            )
            &&& is_cua_index(index) ==> holds_part(
                text,
                "seat \"seat"@ + decimal(index as nat) + "\" fallback false"@ + "; "@,
            )
        }),
{
    let width = decimal(max_of(primary.physical_width as int, 1) as nat);
    let height = decimal(max_of(primary.physical_height as int, 1) as nat);
    let opened = "output "@ + quoted(created);
    quotes_add_up("output "@, created);
    let head = opened + " mode "@ + width + "x"@ + height + "@"@ + thousandths(
        primary.refresh_millihz as nat,
    ) + "Hz scale "@ + thousandths(primary.scale_milli as nat) + " pos "@;
    assert(head.take(head.len() as int) =~= head);
    let seat = if is_cua_index(index) {
        seat_text(index) + "; "@
    } else {
        seq![]
    };
    let one = head + signed_decimal(x);
    let two = one + " "@;
    let three = two + signed_decimal(primary.rect.y as int);
    let four = three + "; "@;
    let five = four + seat;
    let six = five + "workspace "@;
    let seven = six + quoted(workspace_name_of(index));
    let eight = seven + "; move workspace to output "@;
    let nine = eight + quoted(created);
    let ten = nine + "; workspace "@;
    let text = ten + quoted(current);
    assert(text == create_text(created, primary, x, index, current));
    front_stays(head, head, signed_decimal(x));
    front_stays(head, one, " "@);
    front_stays(head, two, signed_decimal(primary.rect.y as int));
    front_stays(head, three, "; "@);
    front_stays(head, four, seat);
    front_stays(head, five, "workspace "@);
    front_stays(head, six, quoted(workspace_name_of(index)));
    front_stays(head, seven, "; move workspace to output "@);
    front_stays(head, eight, quoted(created));
    front_stays(head, nine, "; workspace "@);
    front_stays(head, ten, quoted(current));
    let name = "workspace "@ + quoted(workspace_name_of(index));
    let moved = name + "; move workspace to output "@;
    let there = moved + quoted(created);
    let back = there + "; workspace "@;
    texts_add_up(five, "workspace "@, quoted(workspace_name_of(index)));
    texts_add_up(five, name, "; move workspace to output "@);
    texts_add_up(five, moved, quoted(created));
    texts_add_up(five, there, "; workspace "@);
    texts_add_up(five, back, quoted(current));
    let tail = back + quoted(current);
    assert(text == five + tail);
    quotes_add_up("workspace "@, workspace_name_of(index));
    quotes_add_up(moved, created);
    quotes_add_up(back, current);
    if is_cua_index(index) {
        middle_is_held(four, seat, tail);
    }
}

/// A workspace other than the desktop is left first exactly where it is on the desktop's output.
pub proof fn closing_leaves_the_desktops_output(
    index: u32,
    workspaces: Seq<WorkspaceView>,
    host: Seq<char>,
)
    ensures
        index == 0 <==> leaves_first(index, workspaces, host) == Err::<bool, WorkspaceError>(
            WorkspaceError::DesktopIsFixed,
        ),
        match leaves_first(index, workspaces, host) {
            Ok(leave) => exists|at: int|
                0 <= at < workspaces.len() && (#[trigger] workspaces[at]).name
                    == workspace_name_of(index) && leave == (workspaces[at].output == host),
            Err(WorkspaceError::UnknownWorkspace) => forall|at: int|
                0 <= at < workspaces.len() ==> (#[trigger] workspaces[at]).name
                    != workspace_name_of(index),
            Err(_) => index == 0,
        },
{
    let keep = is_named(workspace_name_of(index));
    crate::lists::first_kept_is_first(workspaces, keep);
    if let Some(target) = first_kept(workspaces, keep) {
        let at = choose|at: int|
            0 <= at < workspaces.len() && #[trigger] workspaces[at] == target && keep(target);
        assert(workspaces[at].name == workspace_name_of(index));
    }
}

/// Of the windows, exactly those of the workspace that is closed are moved away from it, each by its
/// own container.
pub proof fn only_windows_of_a_closed_workspace_move(
    index: u32,
    workspaces: Seq<WorkspaceView>,
    host: Seq<char>,
    windows: Seq<WindowView>,
    at: int,
)
    requires
        evacuation_of(index, workspaces, host, windows) is Ok,
    ensures
        ({
            let waiting = evacuation_of(index, workspaces, host, windows)->Ok_0.waiting;
            &&& 0 <= at < waiting.len() ==> exists|place: int|
                0 <= place < windows.len() && (#[trigger] windows[place]).place.workspace
                    == workspace_name_of(index) && waiting[at] == (
                windows[place].identifier,
                windows[place].container_id,
                )
            &&& 0 <= at < windows.len() && windows[at].place.workspace == workspace_name_of(index)
                ==> waiting.contains((windows[at].identifier, windows[at].container_id))
        }),
{
    let keep = is_on(workspace_name_of(index));
    let waiting = evacuation_of(index, workspaces, host, windows)->Ok_0.waiting;
    if 0 <= at < waiting.len() {
        let place = crate::lists::kept_is_there(windows, keep, at);
        assert(windows[place].place.workspace == workspace_name_of(index));
    }
    if 0 <= at < windows.len() && windows[at].place.workspace == workspace_name_of(index) {
        let found = crate::lists::kept_is_found(windows, keep, at);
        assert(waiting[found] == (windows[at].identifier, windows[at].container_id));
    }
}

/// A window is moved to the workspace that was asked for; only where the focus is to follow, the
/// workspace is shown and the window gets the focus.
pub proof fn moved_windows_go_where_they_are_asked_to(workspace: Seq<char>, focus: bool)
    ensures
        move_texts(workspace, focus)[0] == "move container to workspace "@ + "\""@ + workspace
            + "\""@,
        !focus ==> move_texts(workspace, focus).len() == 1,
        focus ==> move_texts(workspace, focus).len() == 3 && move_texts(workspace, focus)[1]
            == "workspace "@ + "\""@ + workspace + "\""@ && move_texts(workspace, focus)[2]
            == "focus"@,
{
    assert("move container to workspace "@ + quoted(workspace) =~= "move container to workspace "@
        + "\""@ + workspace + "\""@);
    assert("workspace "@ + quoted(workspace) =~= "workspace "@ + "\""@ + workspace + "\""@);
}

/// When two workspaces change places, exactly the windows of these two get new bounds.
pub proof fn swapped_windows_are_those_of_both(
    windows: Seq<WindowView>,
    first: Seq<char>,
    second: Seq<char>,
    at: int,
)
    ensures
        ({
            let named = crate::windows::identifiers_of(windows.filter(is_on_either(first, second)));
            &&& 0 <= at < windows.len() && (windows[at].place.workspace == first
                || windows[at].place.workspace == second) ==> named.contains(windows[at].identifier)
            &&& 0 <= at < named.len() ==> exists|place: int|
                0 <= place < windows.len() && (#[trigger] windows[place]).identifier == named[at]
                    && (windows[place].place.workspace == first || windows[place].place.workspace
                    == second)
        }),
{
    let keep = is_on_either(first, second);
    let named = crate::windows::identifiers_of(windows.filter(keep));
    if 0 <= at < windows.len() && keep(windows[at]) {
        let found = crate::lists::kept_is_found(windows, keep, at);
        assert(named[found] == windows[at].identifier);
    }
    if 0 <= at < named.len() {
        let place = crate::lists::kept_is_there(windows, keep, at);
        assert(windows[place].identifier == named[at]);
    }
}

/// The seat of a workspace for agents is locked where the workspace is named, and no other seat is.
pub proof fn named_workspaces_lock_their_seats(names: Seq<Seq<char>>, index: u32)
    ensures
        is_cua_index(index) && names.contains(workspace_name_of(index)) ==> is_locked(names, index),
        is_locked(names, index) ==> is_cua_index(index),
        names.len() == 0 ==> !is_locked(names, index),
{
    if is_cua_index(index) && names.contains(workspace_name_of(index)) {
        let at = choose|at: int| 0 <= at < names.len() && names[at] == workspace_name_of(index);
        crate::model::workspace_names_lead_back(index);
        assert(workspace_index_of(names[at]) == Some(index));
    }
}

/// A workspace is read from the members of the value that describe it; the one that minimized
/// windows are on is none.
pub proof fn workspaces_are_read_by_their_members(value: JsonView)
    ensures
        match workspace_of(value) {
            Some(workspace) => {
                &&& text_member(value, "name"@) == Some(workspace.name)
                &&& workspace.name != "__i3_scratch"@
                &&& match text_member(value, "output"@) {
                    Some(output) => workspace.output == output,
                    None => workspace.output.len() == 0,
                }
                &&& workspace.focused <==> bool_member(value, "focused"@) == Some(true)
                &&& workspace.visible <==> bool_member(value, "visible"@) == Some(true)
                &&& workspace.rect == rect_of(member(value, "rect"@))
            },
            None => text_member(value, "name"@) is None || text_member(value, "name"@) == Some(
                "__i3_scratch"@,
            ),
        },
{
}

/// An output is read from the members of the value that describe it, and its mode from those of the
/// mode that it is in; one without a name or an identifier is none.
pub proof fn outputs_are_read_by_their_members(value: JsonView, scale: u32)
    ensures
        match output_of(value, scale) {
            Some(output) => {
                &&& text_member(value, "name"@) == Some(output.name)
                &&& unsigned_member(value, "id"@) == Some(output.id)
                &&& output.active <==> bool_member(value, "active"@) == Some(true)
                &&& output.rect == rect_of(member(value, "rect"@))
                &&& output.scale_milli == scale
                &&& match member(value, "current_mode"@) {
                    Some(mode) => {
                        &&& match unsigned_member(mode, "width"@) {
                            Some(width) if width <= u32::MAX => output.physical_width == width,
                            _ => output.physical_width == 0,
                        }
                        &&& match unsigned_member(mode, "height"@) {
                            Some(height) if height <= u32::MAX => output.physical_height == height,
                            _ => output.physical_height == 0,
                        }
                        &&& match unsigned_member(mode, "refresh"@) {
                            Some(refresh) if refresh <= u32::MAX => output.refresh_millihz
                                == refresh,
                            _ => output.refresh_millihz == 60000,
                        }
                    },
                    None => output.physical_width == 0 && output.physical_height == 0
                        && output.refresh_millihz == 60000,
                }
            },
            None => text_member(value, "name"@) is None || unsigned_member(value, "id"@) is None,
        },
{
}

/// Every value that describes an output is listed with its own scale, in the order of the values.
pub proof fn every_output_is_listed(values: Seq<JsonView>, scales: Seq<u32>, value: JsonView)
    requires
        scales.len() > values.len(),
    ensures
        outputs_of(values.push(value), scales) == match output_of(
            value,
            scales[values.len() as int],
        ) {
            Some(output) => outputs_of(values, scales).push(output),
            None => outputs_of(values, scales),
        },
{
    assert(values.push(value).drop_last() =~= values);
}

/// A reply is accepted only where it answers something, and one answer that is not a success refuses
/// it.
pub proof fn one_failure_refuses_all(values: Seq<JsonView>, at: int)
    ensures
        !all_succeeded(JsonView::List(Seq::empty())),
        0 <= at < values.len() && bool_member(values[at], "success"@) != Some(true)
            ==> !all_succeeded(JsonView::List(values)),
        values.len() > 0 && (forall|place: int|
            0 <= place < values.len() ==> bool_member(#[trigger] values[place], "success"@) == Some(
                true,
            )) ==> all_succeeded(JsonView::List(values)),
{
}

/// A colour is written with two digits for each channel, red first, from which the channels can be
/// told.
pub proof fn colours_are_told_apart(left: Color, right: Color)
    ensures
        css_of(left).len() == 7,
        css_of(left)[0] == '#',
        css_of(left).subrange(1, 3) == hex_pair(left.red),
        css_of(left).subrange(3, 5) == hex_pair(left.green),
        css_of(left).subrange(5, 7) == hex_pair(left.blue),
        css_of(left) == css_of(right) ==> left.red == right.red && left.green == right.green
            && left.blue == right.blue,
{
    reveal_strlit("#");
    assert(css_of(left).subrange(1, 3) =~= hex_pair(left.red));
    assert(css_of(left).subrange(3, 5) =~= hex_pair(left.green));
    assert(css_of(left).subrange(5, 7) =~= hex_pair(left.blue));
    if css_of(left) == css_of(right) {
        assert(css_of(right).subrange(1, 3) =~= hex_pair(right.red));
        assert(css_of(right).subrange(3, 5) =~= hex_pair(right.green));
        assert(css_of(right).subrange(5, 7) =~= hex_pair(right.blue));
        pairs_are_told_apart(left.red, right.red);
        pairs_are_told_apart(left.green, right.green);
        pairs_are_told_apart(left.blue, right.blue);
    }
}

/// Two bytes with the same digits are the same.
pub proof fn pairs_are_told_apart(left: u8, right: u8)
    ensures
        hex_pair(left) == hex_pair(right) ==> left == right,
        hex_pair(left).len() == 2,
        hex_pair(0x4f) == seq!['4', 'f'],
{
    let one = hex_pair(left);
    let other = hex_pair(right);
    assert(one[0] == hex_digit(left as int / 16) && one[1] == hex_digit(left as int % 16));
    assert(other[0] == hex_digit(right as int / 16) && other[1] == hex_digit(right as int % 16));
    assert(hex_pair(0x4f) =~= seq!['4', 'f']);
}

/// The length of the message that follows a header, or why it is not read.
pub open spec fn message_length(header: Seq<u8>, length: u32) -> Result<usize, MessageError> {
    if header.take(6) != ipc_magic() {
        Err(MessageError::Magic)
    } else if length > MAX_IPC_PAYLOAD {
        Err(MessageError::Length)
    } else {
        Ok(length as usize)
    }
}

/// Whether a message of that type reports an event.
pub open spec fn is_event_type(message_type: u32) -> bool {
    message_type >= 0x8000_0000
}

/// The step that moves a window to the desktop before its workspace is closed.
pub open spec fn leaving_step() -> StepView {
    StepView::Run(
        seq!["move container to workspace \"Desktop\""@],
        ConfirmView::OnWorkspace("Desktop"@),
        None,
    )
}

/// The command that takes the output of a workspace away, once nothing is left on it.
pub open spec fn unplugging(evacuation: EvacuationView, windows: Seq<WindowView>) -> Option<
    Seq<char>,
> {
    if evacuation.waiting.len() == 0 && is_empty_workspace(
        windows,
        workspace_name_of(evacuation.index),
    ) && is_safe_name(evacuation.output) {
        Some("output "@ + quoted(evacuation.output) + " unplug"@)
    } else {
        None
    }
}

/// A message is read where it begins with the name of the protocol and is not too long, and then as
/// long as it says. Events are told by the highest bit of their type.
pub proof fn messages_begin_with_the_protocol(header: Seq<u8>, length: u32, message_type: u32)
    requires
        header.len() == 14,
    ensures
        message_length(header, length) is Ok <==> length <= 0x100_0000 && header.take(6) == seq![
            'i' as u8,
            '3' as u8,
            '-' as u8,
            'i' as u8,
            'p' as u8,
            'c' as u8,
        ],
        message_length(header, length) is Ok ==> message_length(header, length)->Ok_0 == length,
        header.take(6) == ipc_magic() && length > MAX_IPC_PAYLOAD ==> message_length(header, length)
            == Err::<usize, MessageError>(MessageError::Length),
        is_event_type(message_type) <==> message_type & 0x8000_0000 != 0,
{
    let name = seq!['i' as u8, '3' as u8, '-' as u8, 'i' as u8, 'p' as u8, 'c' as u8];
    assert(ipc_magic() =~= name);
    assert(message_type >= 0x8000_0000 <==> message_type & 0x8000_0000 != 0) by (bit_vector);
}

/// A window that leaves a workspace goes to the desktop, and has left once it is seen there.
pub proof fn leaving_windows_go_to_the_desktop(state: WindowView)
    ensures
        match leaving_step() {
            StepView::Run(commands, confirm, next) => {
                &&& commands.len() == 1
                &&& commands[0] == "move container to workspace "@ + "\""@ + "Desktop"@ + "\""@
                &&& next is None
                &&& crate::windows::is_confirmed(confirm, state) <==> state.place.workspace
                    == "Desktop"@
            },
            _ => false,
        },
{
    reveal_strlit("move container to workspace \"Desktop\"");
    reveal_strlit("move container to workspace ");
    reveal_strlit("\"");
    reveal_strlit("Desktop");
    assert("move container to workspace \"Desktop\""@ =~= "move container to workspace "@ + "\""@
        + "Desktop"@ + "\""@);
}

/// The windows of a workspace that is closed are waited for one after the other, each until it is
/// seen on the desktop.
pub proof fn each_window_is_waited_for(evacuation: EvacuationView, state: WindowView)
    ensures
        ({
            let after = after_seeing(evacuation, state);
            let seen = evacuation.waiting.len() > 0 && state.identifier == evacuation.waiting[0].0
                && state.place.workspace == "Desktop"@;
            &&& shows_first(evacuation, state) == seen
            &&& seen ==> evacuation.waiting == seq![evacuation.waiting[0]] + after.waiting
            &&& !seen ==> after == evacuation
            &&& after.output == evacuation.output
            &&& after.index == evacuation.index
        }),
{
    let after = after_seeing(evacuation, state);
    if shows_first(evacuation, state) {
        assert(evacuation.waiting =~= seq![evacuation.waiting[0]] + after.waiting);
    }
}

/// An output is taken away only once no window is waited for and none is left on its workspace.
pub proof fn outputs_in_use_stay(evacuation: EvacuationView, windows: Seq<WindowView>, at: int)
    requires
        0 <= at < windows.len(),
    ensures
        evacuation.waiting.len() > 0 ==> unplugging(evacuation, windows) is None,
        windows[at].place.workspace == workspace_name_of(evacuation.index) ==> unplugging(
            evacuation,
            windows,
        ) is None,
        unplugging(evacuation, windows) is Some ==> unplugging(evacuation, windows) == Some(
            "output "@ + "\""@ + evacuation.output + "\""@ + " unplug"@,
        ),
        evacuation.waiting.len() == 0 && is_safe_name(evacuation.output) && (forall|other: int|
            0 <= other < windows.len() ==> (#[trigger] windows[other]).place.workspace
                != workspace_name_of(evacuation.index)) ==> unplugging(evacuation, windows) is Some,
{
    if unplugging(evacuation, windows) is Some {
        assert("output "@ + quoted(evacuation.output) + " unplug"@ =~= "output "@ + "\""@
            + evacuation.output + "\""@ + " unplug"@);
    }
}

/// A theme gives each class of windows its colours: the focused one those of raised things, urgent
/// ones those of warnings, and the others those of menus.
pub proof fn themes_colour_every_class(palette: ThemePalette)
    ensures
        ({
            let text = theme_text(palette);
            let raised = css_of(palette.raised);
            let menu = css_of(palette.menu);
            let border = css_of(palette.border);
            let warning = css_of(palette.destructive);
            &&& crate::text::begins_with(
                text,
                "client.focused"@ + " "@ + raised + " "@ + raised + " "@ + css_of(palette.text)
                    + " "@ + css_of(palette.focus) + " "@ + raised,
            )
            &&& crate::text::holds_part(
                text,
                "client.focused_inactive"@ + " "@ + menu + " "@ + menu + " "@ + css_of(
                    palette.text_secondary,
                ) + " "@ + border + " "@ + menu,
            )
            &&& crate::text::holds_part(
                text,
                "client.unfocused"@ + " "@ + menu + " "@ + menu + " "@ + css_of(palette.text_muted)
                    + " "@ + border + " "@ + menu,
            )
            &&& crate::text::finishes_with(
                text,
                "client.urgent"@ + " "@ + warning + " "@ + warning + " "@ + css_of(palette.text)
                    + " "@ + css_of(palette.destructive_icon) + " "@ + warning,
            )
        }),
{
    let one = class_text("client.focused"@, palette.raised, palette.text, palette.focus);
    let two = class_text(
        "client.focused_inactive"@,
        palette.menu,
        palette.text_secondary,
        palette.border,
    );
    let three = class_text("client.unfocused"@, palette.menu, palette.text_muted, palette.border);
    let four = class_text(
        "client.urgent"@,
        palette.destructive,
        palette.text,
        palette.destructive_icon,
    );
    four_texts_are_held(one, two, three, four, "; "@);
}

/// Of four texts with separators between them, the whole begins with the first, ends with the last and
/// holds the others.
proof fn four_texts_are_held(
    one: Seq<char>,
    two: Seq<char>,
    three: Seq<char>,
    four: Seq<char>,
    between: Seq<char>,
)
    ensures
        ({
            let text = one + between + two + between + three + between + four;
            &&& crate::text::begins_with(text, one)
            &&& crate::text::holds_part(text, two)
            &&& crate::text::holds_part(text, three)
            &&& crate::text::finishes_with(text, four)
        }),
{
    let text = one + between + two + between + three + between + four;
    let second = (one + between).len() as int;
    let third = (one + between + two + between).len() as int;
    assert(text.take(one.len() as int) =~= one);
    assert(text.subrange(second, second + two.len()) =~= two);
    assert(text.subrange(third, third + three.len()) =~= three);
    assert(text.skip(text.len() - four.len()) =~= four);
}

} // verus!
