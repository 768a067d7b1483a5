//! The context surface: its targets, and what the outcomes of operations show there.

use vstd::prelude::*;
use vstd::string::*;
use crate::arith::saturate_i32;
use crate::arith::{sub_i32, u32_as_i32};
use crate::lists::{filter_ends, filter_step};
use crate::menus::{context_hidden, dialog_shown};
use crate::model::{
    application_entries, rows_of, target_views, ActionView, EntryView, TargetView,
};
use crate::model::{
    application_context_targets, push_row, push_target, HitTarget, Rect, ShellAction,
};
use crate::paths::{from_utf8_lossy, FilePath};
use crate::paths::{file_name_of, lossy_text, path_views};
use crate::selection::{only_selected, selected_items};
use crate::shell::{application_place, error_shown};
use crate::state::{Chrome, ClipboardView, ContextView, DeleteView, EditView, ShellView};
use crate::state::{
    ClipboardOperation, ContextState, DeleteConsequence, DeleteDialog, EditDialog, EditOperation,
    GuestClipboardRecord, Shell,
};
use crate::text::{begins_with, finishes_with};
use crate::text::{decimal_text, list_has};
use crate::text::decimal;

verus! {

/// The width of a row on a context surface of `width`.
pub open spec fn row_width(width: u32) -> int {
    saturate_i32(saturate_i32(width as int) - 12)
}

/// The entries of the menu of the desktop itself.
pub open spec fn desktop_entries() -> Seq<EntryView> {
    seq![
        EntryView { label: "Paste"@, action: ActionView::DesktopPaste },
        EntryView { label: "New Folder"@, action: ActionView::DesktopNewFolder },
        EntryView { label: "Arrange Icons"@, action: ActionView::DesktopArrangeIcons },
    ]
}

/// The entries of the menu of the selected items: one item can be renamed, and an AppImage that is
/// not among the applications can be added to them.
pub open spec fn item_entries(single: bool, registered: Option<bool>) -> Seq<EntryView> {
    let open = seq![
        EntryView { label: "Open"@, action: ActionView::DesktopOpenSelection },
        EntryView { label: "Cut"@, action: ActionView::DesktopCut },
        EntryView { label: "Copy"@, action: ActionView::DesktopCopy },
    ];
    let rename = if single {
        seq![EntryView { label: "Rename"@, action: ActionView::DesktopRename }]
    } else {
        seq![]
    };
    let delete = seq![EntryView { label: "Delete"@, action: ActionView::DesktopDelete }];
    let register = if registered == Some(false) {
        seq![
            EntryView {
                label: "Add AppImage to Applications"@,
                action: ActionView::DesktopAddToApplications,
            },
        ]
    } else {
        seq![]
    };
    open + rename + delete + register
}

/// A button of a dialog.
pub open spec fn dialog_button(
    x: int,
    width: int,
    label: Seq<char>,
    action: ActionView,
) -> TargetView {
    TargetView {
        rect: Rect { x: x as i32, y: 136, width: width as i32, height: 38 },
        label,
        action,
    }
}

/// The targets of a dialog.
pub open spec fn dialog_targets(context: ContextView) -> Seq<TargetView> {
    match context {
        ContextView::Edit(dialog) => seq![
            dialog_button(
                220,
                96,
                if dialog.operation is NewFolder {
                    "Create"@
                } else {
                    "Rename"@
                },
                ActionView::DesktopEditConfirm,
            ),
            dialog_button(322, 96, "Cancel"@, ActionView::DismissContext),
        ],
        ContextView::Delete(_) => seq![
            dialog_button(220, 96, "Delete"@, ActionView::DesktopDeleteConfirm),
            dialog_button(322, 96, "Cancel"@, ActionView::DismissContext),
        ],
        ContextView::Collision(_) => seq![
            dialog_button(110, 96, "Replace"@, ActionView::DesktopCollisionReplace),
            dialog_button(212, 104, "Keep Both"@, ActionView::DesktopCollisionKeepBoth),
            dialog_button(322, 96, "Cancel"@, ActionView::DesktopCollisionCancel),
        ],
        ContextView::Error(_, _) => seq![
            dialog_button(322, 96, "Close"@, ActionView::DismissContext),
        ],
        _ => seq![],
    }
}

/// The targets of the context surface.
pub open spec fn context_target_views(shell: ShellView) -> Seq<TargetView> {
    let width = row_width(shell.chrome.frame.context_size.0);
    match shell.context {
        ContextView::Application(id) => match application_place(shell.applications, id) {
            Some(at) => rows_of(
                application_entries(
                    id,
                    shell.pinned.contains(id),
                    shell.registrations[at as int] is Some,
                ),
                6,
                6,
                240,
            ),
            None => seq![],
        },
        ContextView::DesktopMenu => rows_of(desktop_entries(), 6, 6, width),
        ContextView::ItemMenu(registered) => rows_of(
            item_entries(shell.selection.len() == 1, registered),
            6,
            6,
            width,
        ),
        _ => dialog_targets(shell.context),
    }
}

/// Adds a button of a dialog.
fn push_button(
    targets: &mut Vec<HitTarget>,
    x: i32,
    width: i32,
    label: &str,
    action: ShellAction,
)
    ensures
        target_views(final(targets)@) == target_views(old(targets)@).push(
            dialog_button(x as int, width as int, label@, action@),
        ),
{
    push_target(targets, Rect { x, y: 136, width, height: 38 }, label.to_owned(), action);
}

/// The buttons of a dialog.
fn targets_of_dialog(context: &ContextState) -> (targets: Vec<HitTarget>)
    ensures
        target_views(targets@) == dialog_targets(context@),
{
    let mut targets: Vec<HitTarget> = Vec::new();
    match context {
        ContextState::Edit(dialog) => {
            let label = match dialog.operation {
                EditOperation::NewFolder => "Create",
                _ => "Rename",
            };
            push_button(&mut targets, 220, 96, label, ShellAction::DesktopEditConfirm);
            push_button(&mut targets, 322, 96, "Cancel", ShellAction::DismissContext);
        },
        ContextState::Delete(_) => {
            push_button(&mut targets, 220, 96, "Delete", ShellAction::DesktopDeleteConfirm);
            push_button(&mut targets, 322, 96, "Cancel", ShellAction::DismissContext);
        },
        ContextState::Collision(_) => {
            push_button(&mut targets, 110, 96, "Replace", ShellAction::DesktopCollisionReplace);
            push_button(&mut targets, 212, 104, "Keep Both", ShellAction::DesktopCollisionKeepBoth);
            push_button(&mut targets, 322, 96, "Cancel", ShellAction::DesktopCollisionCancel);
        },
        ContextState::Error { .. } => {
            push_button(&mut targets, 322, 96, "Close", ShellAction::DismissContext);
        },
        _ => {},
    }
    assert(target_views(targets@) =~= dialog_targets(context@));
    targets
}

/// The rows of the menu of the desktop itself.
fn desktop_menu_targets(width: i32) -> (targets: Vec<HitTarget>)
    ensures
        target_views(targets@) == rows_of(desktop_entries(), 6, 6, width as int),
{
    let ghost entries = desktop_entries();
    let ghost none = Seq::<EntryView>::empty();
    let mut targets: Vec<HitTarget> = Vec::new();
    assert(target_views(targets@) =~= rows_of(none, 6, 6, width as int));
    push_row(&mut targets, 6, 6, width, "Paste".to_owned(), ShellAction::DesktopPaste);
    push_row(&mut targets, 6, 6, width, "New Folder".to_owned(), ShellAction::DesktopNewFolder);
    push_row(
        &mut targets,
        6,
        6,
        width,
        "Arrange Icons".to_owned(),
        ShellAction::DesktopArrangeIcons,
    );
    assert(entries =~= none.push(entries[0]).push(entries[1]).push(entries[2]));
    targets
}

/// The rows of the menu of the selected items.
fn item_menu_targets(single: bool, registered: Option<bool>, width: i32) -> (targets: Vec<
    HitTarget,
>)
    ensures
        target_views(targets@) == rows_of(item_entries(single, registered), 6, 6, width as int),
{
    let ghost entries = item_entries(single, registered);
    let ghost none = Seq::<EntryView>::empty();
    let mut targets: Vec<HitTarget> = Vec::new();
    assert(target_views(targets@) =~= rows_of(none, 6, 6, width as int));
    push_row(&mut targets, 6, 6, width, "Open".to_owned(), ShellAction::DesktopOpenSelection);
    push_row(&mut targets, 6, 6, width, "Cut".to_owned(), ShellAction::DesktopCut);
    push_row(&mut targets, 6, 6, width, "Copy".to_owned(), ShellAction::DesktopCopy);
    let ghost mut built = none.push(entries[0]).push(entries[1]).push(entries[2]);
    if single {
        push_row(&mut targets, 6, 6, width, "Rename".to_owned(), ShellAction::DesktopRename);
        proof {
            built = built.push(entries[3]);
        }
    }
    push_row(&mut targets, 6, 6, width, "Delete".to_owned(), ShellAction::DesktopDelete);
    proof {
        built = built.push(entries[built.len() as int]);
    }
    let unregistered = match registered {
        Some(value) => !value,
        None => false,
    };
    if unregistered {
        push_row(
            &mut targets,
            6,
            6,
            width,
            "Add AppImage to Applications".to_owned(),
            ShellAction::DesktopAddToApplications,
        );
        proof {
            built = built.push(entries[built.len() as int]);
        }
    }
    assert(entries =~= built);
    targets
}

/// What deleting `items` removes, in words.
pub open spec fn deletion_detail(
    items: Seq<Seq<u8>>,
    consequences: Seq<DeleteConsequence>,
) -> Seq<char> {
    if items.len() != 1 || consequences.len() != 1 {
        "This permanently removes "@ + decimal(items.len()) + " selected items ("@ + decimal(
            times(consequences, DeleteConsequence::ShortcutOnly),
        ) + " shortcuts, "@ + decimal(times(consequences, DeleteConsequence::LinkOnly))
            + " links, "@ + decimal(times(consequences, DeleteConsequence::DirectoryTree))
            + " folders). Shortcut and link targets are not deleted; folder contents are."@
    } else {
        let name = match file_name_of(items[0]) {
            Some(name) => lossy_text(name),
            None => "item"@,
        };
        match consequences[0] {
            DeleteConsequence::ShortcutOnly =>
                "This removes only the shortcut. The target will not be deleted."@,
            DeleteConsequence::LinkOnly =>
                "This removes the link only. Its target will not be deleted."@,
            DeleteConsequence::RegularFile => "This permanently deletes \u{2018}"@ + name
                + "\u{2019}."@,
            DeleteConsequence::DirectoryTree => "This permanently deletes \u{2018}"@ + name
                + "\u{2019} and everything inside it."@,
        }
    }
}

/// How often `consequence` occurs in `consequences`.
pub open spec fn times(
    consequences: Seq<DeleteConsequence>,
    consequence: DeleteConsequence,
) -> nat {
    consequences.filter(is_consequence(consequence)).len()
}

/// Whether a consequence is `consequence`.
pub open spec fn is_consequence(consequence: DeleteConsequence) -> spec_fn(
    DeleteConsequence,
) -> bool {
    |other: DeleteConsequence| other == consequence
}

/// How often `consequence` occurs in `consequences`.
fn count_of(consequences: &Vec<DeleteConsequence>, consequence: DeleteConsequence) -> (count: usize)
    ensures
        count == times(consequences@, consequence),
{
    let ghost keep = is_consequence(consequence);
    let mut count: usize = 0;
    let mut at: usize = 0;
    proof {
        filter_ends(consequences@, keep);
    }
    while at < consequences.len()
        invariant
            at <= consequences.len(),
            count <= at,
            keep == is_consequence(consequence),
            count == consequences@.take(at as int).filter(keep).len(),
        decreases consequences.len() - at,
    {
        proof {
            filter_step(consequences@, keep, at as int);
        }
        if consequences[at] == consequence {
            count = count + 1;
        }
        at = at + 1;
    }
    proof {
        filter_ends(consequences@, keep);
    }
    count
}

/// What deleting `items` removes, in words.
pub fn delete_dialog_detail_from_consequences(
    items: &Vec<FilePath>,
    consequences: &Vec<DeleteConsequence>,
) -> (detail: String)
    ensures
        detail@ == deletion_detail(path_views(items@), consequences@),
{
    assert(path_views(items@).len() == items@.len());
    if items.len() != 1 || consequences.len() != 1 {
        let mut detail = "This permanently removes ".to_owned();
        detail.append(decimal_text(items.len() as u64).as_str());
        detail.append(" selected items (");
        let shortcuts: usize = count_of(consequences, DeleteConsequence::ShortcutOnly);
        detail.append(decimal_text(shortcuts as u64).as_str());
        detail.append(" shortcuts, ");
        let links: usize = count_of(consequences, DeleteConsequence::LinkOnly);
        detail.append(decimal_text(links as u64).as_str());
        detail.append(" links, ");
        let folders: usize = count_of(consequences, DeleteConsequence::DirectoryTree);
        detail.append(decimal_text(folders as u64).as_str());
        detail.append(
            " folders). Shortcut and link targets are not deleted; folder contents are.",
        );
        return detail;
    }
    assert(path_views(items@)[0] == items@[0]@);
    let name = match items[0].file_name() {
        Some(name) => from_utf8_lossy(name.as_slice()),
        None => "item".to_owned(),
    };
    match consequences[0] {
        DeleteConsequence::ShortcutOnly => {
            "This removes only the shortcut. The target will not be deleted.".to_owned()
        },
        DeleteConsequence::LinkOnly => {
            "This removes the link only. Its target will not be deleted.".to_owned()
        },
        DeleteConsequence::RegularFile => {
            let mut detail = "This permanently deletes \u{2018}".to_owned();
            detail.append(name.as_str());
            detail.append("\u{2019}.");
            detail
        },
        DeleteConsequence::DirectoryTree => {
            let mut detail = "This permanently deletes \u{2018}".to_owned();
            detail.append(name.as_str());
            detail.append("\u{2019} and everything inside it.");
            detail
        },
    }
}

/// The state after an operation that the context surface offered: it hides, or shows the failure.
pub open spec fn operation_done(
    shell: ShellView,
    title: Seq<char>,
    failure: Option<Seq<char>>,
) -> ShellView {
    match failure {
        None => context_hidden(shell),
        Some(detail) => error_shown(shell, title, detail),
    }
}

/// The state with a dialog that asks whether to delete the selection.
pub open spec fn deletion_asked(
    shell: ShellView,
    consequences: Seq<DeleteConsequence>,
) -> ShellView {
    dialog_shown(
        shell,
        ContextView::Delete(
            DeleteView {
                items: selected_items(shell),
                consequences,
                detail: deletion_detail(selected_items(shell), consequences),
                error: None,
            },
        ),
    )
}

/// The state with `error` in the dialog that is open.
pub open spec fn dialog_failed(shell: ShellView, error: Seq<char>) -> ShellView {
    ShellView {
        context: match shell.context {
            ContextView::Edit(dialog) => ContextView::Edit(
                EditView { error: Some(error), replace_on_type: false, ..dialog },
            ),
            ContextView::Delete(dialog) => ContextView::Delete(
                DeleteView { error: Some(error), ..dialog },
            ),
            other => other,
        },
        chrome: Chrome { dirty: true, ..shell.chrome },
        ..shell
    }
}

/// The state after the selection went onto the clipboard.
pub open spec fn clipboard_published(shell: ShellView, operation: ClipboardOperation) -> ShellView {
    context_hidden(
        ShellView {
            clipboard: Some(
                ClipboardView {
                    generation: shell.chrome.clipboard_generation,
                    operation,
                    sources: selected_items(shell),
                },
            ),
            chrome: Chrome { paste_available: true, ..shell.chrome },
            ..shell
        },
    )
}

/// The state after an edit, which made the item at that path if it made one.
pub open spec fn edit_finished(shell: ShellView, path: Option<Seq<u8>>) -> ShellView {
    context_hidden(
        match path {
            Some(path) => only_selected(shell, path),
            None => shell,
        },
    )
}

/// Whether what was said of the item at `at` is what deleting it does now.
pub open spec fn is_covered(
    consequences: Seq<DeleteConsequence>,
    at: int,
    current: DeleteConsequence,
) -> bool {
    0 <= at < consequences.len() && consequences[at] == current
}

impl Shell {
    /// The targets of the context surface.
    pub fn context_targets(&self) -> (targets: Vec<HitTarget>)
        requires
            self.valid(),
        ensures
            target_views(targets@) == context_target_views(self@),
    {
        let width: i32 = sub_i32(u32_as_i32(self.chrome.frame.context_size.0), 12);
        match &self.context {
            ContextState::Application(id) => {
                assert(self@.registrations.len() == self.registrations@.len());
                assert(self@.applications.len() == self.applications@.len());
                match self.find_application(id) {
                    Some(at) => {
                        assert((self@.registrations[at as int] is Some) == (
                        self.registrations@[at as int] is Some));
                        application_context_targets(
                            &self.applications[at],
                            list_has(&self.pinned, id),
                            self.registrations[at].is_some(),
                        )
                    },
                    None => {
                        let targets: Vec<HitTarget> = Vec::new();
                        assert(target_views(targets@) =~= seq![]);
                        targets
                    },
                }
            },
            ContextState::DesktopMenu => desktop_menu_targets(width),
            ContextState::ItemMenu { appimage_registered } => item_menu_targets(
                self.selection.len() == 1,
                *appimage_registered,
                width,
            ),
            _ => targets_of_dialog(&self.context),
        }
    }

    /// Hides the context surface after an operation, or shows there that it failed.
    pub fn finish_operation(&mut self, title: &str, failure: Option<String>)
        ensures
            final(self)@ == operation_done(
                old(self)@,
                title@,
                crate::text::optional_text(failure),
            ),
            old(self).valid() ==> final(self).valid(),
    {
        match failure {
            None => self.hide_context(),
            Some(detail) => self.show_operation_error(title, detail),
        }
    }

    /// Asks whether to delete the selection, of which each item has its consequence.
    pub fn ask_deletion(&mut self, consequences: Vec<DeleteConsequence>)
        ensures
            final(self)@ == deletion_asked(old(self)@, consequences@),
            old(self).valid() ==> final(self).valid(),
    {
        let items = self.selected_paths();
        let detail = delete_dialog_detail_from_consequences(&items, &consequences);
        self.show_dialog(
            ContextState::Delete(DeleteDialog { items, consequences, detail, error: None }),
        );
    }

    /// Shows in the open dialog that its operation failed.
    pub fn fail_dialog(&mut self, error: String)
        ensures
            final(self)@ == dialog_failed(old(self)@, error@),
            old(self).valid() ==> final(self).valid(),
    {
        let mut context = ContextState::Hidden;
        std::mem::swap(&mut context, &mut self.context);
        self.context = match context {
            ContextState::Edit(dialog) => ContextState::Edit(
                EditDialog {
                    operation: dialog.operation,
                    input: dialog.input,
                    replace_on_type: false,
                    error: Some(error),
                },
            ),
            ContextState::Delete(dialog) => ContextState::Delete(
                DeleteDialog {
                    items: dialog.items,
                    consequences: dialog.consequences,
                    detail: dialog.detail,
                    error: Some(error),
                },
            ),
            other => other,
        };
        let mut chrome = self.chrome;
        chrome.dirty = true;
        self.set_chrome(chrome);
    }

    /// Closes the edit dialog after its operation, and selects the item that it made.
    pub fn finish_edit(&mut self, path: Option<FilePath>)
        ensures
            final(self)@ == context_hidden(
                match path {
                    Some(path) => only_selected(old(self)@, path@),
                    None => old(self)@,
                },
            ),
            final(self)@ == edit_finished(old(self)@, crate::paths::optional_path(path)),
            old(self).valid() ==> final(self).valid(),
    {
        if let Some(path) = path {
            self.select_only(path);
        }
        self.hide_context();
    }

    /// Records what went onto the clipboard.
    pub fn finish_clipboard(&mut self, operation: ClipboardOperation)
        ensures
            final(self)@ == clipboard_published(old(self)@, operation),
            old(self).valid() ==> final(self).valid(),
    {
        let sources = self.selected_paths();
        self.clipboard = Some(
            GuestClipboardRecord {
                generation: self.chrome.clipboard_generation,
                operation,
                sources,
            },
        );
        let mut chrome = self.chrome;
        chrome.paste_available = true;
        self.set_chrome(chrome);
        self.hide_context();
    }
}

impl DeleteDialog {
    /// Whether the confirmation of this dialog still covers the item at `at`: deleting it now does
    /// what the dialog described.
    pub fn confirms(&self, at: usize, current: DeleteConsequence) -> (confirms: bool)
        ensures
            confirms == (at < self@.consequences.len() && self@.consequences[at as int] == current),
            confirms == is_covered(self@.consequences, at as int, current),
    {
        at < self.consequences.len() && self.consequences[at] == current
    }
}

/// The menu of the selected items opens, cuts, copies and deletes them. It offers to rename exactly
/// where one item is selected, and to add an AppImage exactly where it is one that is not among the
/// applications.
pub proof fn item_menus_offer_what_applies(single: bool, registered: Option<bool>, at: int)
    ensures
        ({
            let entries = item_entries(single, registered);
            &&& entries[0].action == ActionView::DesktopOpenSelection
            &&& entries[1].action == ActionView::DesktopCut
            &&& entries[2].action == ActionView::DesktopCopy
            &&& exists|place: int|
                0 <= place < entries.len() && (#[trigger] entries[place]).action
                    == ActionView::DesktopDelete
            &&& single <==> exists|place: int|
                0 <= place < entries.len() && (#[trigger] entries[place]).action
                    == ActionView::DesktopRename
            &&& registered == Some(false) <==> exists|place: int|
                0 <= place < entries.len() && (#[trigger] entries[place]).action
                    == ActionView::DesktopAddToApplications
            &&& entries.len() == 4 + (if single {
                1int
            } else {
                0
            }) + (if registered == Some(false) {
                1int
            } else {
                0
            })
        }),
{
    let entries = item_entries(single, registered);
    let rest: int = if single {
        4
    } else {
        3
    };
    assert(entries[rest].action == ActionView::DesktopDelete);
    if single {
        assert(entries[3].action == ActionView::DesktopRename);
    }
    if registered == Some(false) {
        assert(entries[rest + 1].action == ActionView::DesktopAddToApplications);
    }
}

/// Each dialog offers what it asks about, and only that, and a way out that changes nothing, as its
/// last button. All buttons are inside the dialog, beside one another.
pub proof fn dialogs_offer_what_they_ask(context: ContextView, at: int)
    ensures
        ({
            let targets = dialog_targets(context);
            let confirms = |action: ActionView|
                exists|place: int|
                    0 <= place < targets.len() && (#[trigger] targets[place]).action == action;
            &&& context is Edit <==> confirms(ActionView::DesktopEditConfirm)
            &&& context is Delete <==> confirms(ActionView::DesktopDeleteConfirm)
            &&& context is Collision <==> confirms(ActionView::DesktopCollisionReplace)
            &&& context is Collision <==> confirms(ActionView::DesktopCollisionKeepBoth)
            &&& targets.len() > 0 ==> targets.last().action == if context is Collision {
                ActionView::DesktopCollisionCancel
            } else {
                ActionView::DismissContext
            }
            &&& crate::state::is_dialog_view(context) ==> targets.len() > 0
            &&& 0 <= at < targets.len() ==> 0 <= targets[at].rect.x && targets[at].rect.x
                + targets[at].rect.width <= 430 && 0 <= targets[at].rect.y && targets[at].rect.y
                + targets[at].rect.height <= 190
            &&& 0 < at < targets.len() ==> targets[at - 1].rect.x + targets[at - 1].rect.width
                <= targets[at].rect.x
        }),
{
    let targets = dialog_targets(context);
    if targets.len() > 0 {
        assert(targets[0] == targets[0]);
        assert(targets.last() == targets[targets.len() - 1]);
    }
    if context is Collision {
        assert(targets[1].action == ActionView::DesktopCollisionKeepBoth);
        assert(targets[0].action == ActionView::DesktopCollisionReplace);
    }
    if context is Edit {
        assert(targets[0].action == ActionView::DesktopEditConfirm);
    }
    if context is Delete {
        assert(targets[0].action == ActionView::DesktopDeleteConfirm);
    }
}

/// What is said of a deletion is what it does: of a shortcut or a link that its target stays, of a
/// file and a folder that they go, and of several items how many there are and of which kinds.
pub proof fn deletions_are_described(items: Seq<Seq<u8>>, consequences: Seq<DeleteConsequence>)
    ensures
        items.len() == 1 && consequences.len() == 1 ==> ({
            let text = deletion_detail(items, consequences);
            let name = match file_name_of(items[0]) {
                Some(name) => lossy_text(name),
                None => "item"@,
            };
            &&& consequences[0] == DeleteConsequence::ShortcutOnly ==> text
                == "This removes only the shortcut. The target will not be deleted."@
            &&& consequences[0] == DeleteConsequence::LinkOnly ==> text
                == "This removes the link only. Its target will not be deleted."@
            &&& consequences[0] == DeleteConsequence::RegularFile || consequences[0]
                == DeleteConsequence::DirectoryTree ==> begins_with(
                text,
                "This permanently deletes \u{2018}"@ + name,
            )
            &&& consequences[0] == DeleteConsequence::DirectoryTree ==> finishes_with(
                text,
                "\u{2019} and everything inside it."@,
            )
            &&& consequences[0] == DeleteConsequence::RegularFile ==> finishes_with(
                text,
                "\u{2019}."@,
            )
        }),
        items.len() != 1 ==> begins_with(
            deletion_detail(items, consequences),
            "This permanently removes "@ + decimal(items.len()) + " selected items ("@ + decimal(
                times(consequences, DeleteConsequence::ShortcutOnly),
            ) + " shortcuts, "@,
        ),
        times(consequences, DeleteConsequence::ShortcutOnly) + times(
            consequences,
            DeleteConsequence::LinkOnly,
        ) + times(consequences, DeleteConsequence::RegularFile) + times(
            consequences,
            DeleteConsequence::DirectoryTree,
        ) == consequences.len(),
{
    kinds_add_up(consequences);
    let text = deletion_detail(items, consequences);
    if items.len() == 1 && consequences.len() == 1 {
        let name = match file_name_of(items[0]) {
            Some(name) => lossy_text(name),
            None => "item"@,
        };
        let head = "This permanently deletes \u{2018}"@ + name;
        let file = "\u{2019}."@;
        let tree = "\u{2019} and everything inside it."@;
        if consequences[0] == DeleteConsequence::RegularFile {
            assert(text.take(head.len() as int) =~= head);
            assert(text.skip(text.len() - file.len()) =~= file);
        }
        if consequences[0] == DeleteConsequence::DirectoryTree {
            assert(text.take(head.len() as int) =~= head);
            assert(text.skip(text.len() - tree.len()) =~= tree);
        }
    }
    if items.len() != 1 {
        let head = "This permanently removes "@ + decimal(items.len()) + " selected items ("@
            + decimal(times(consequences, DeleteConsequence::ShortcutOnly)) + " shortcuts, "@;
        assert(text.take(head.len() as int) =~= head);
    }
}

/// Every consequence is of one of the kinds.
proof fn kinds_add_up(consequences: Seq<DeleteConsequence>)
    ensures
        times(consequences, DeleteConsequence::ShortcutOnly) + times(
            consequences,
            DeleteConsequence::LinkOnly,
        ) + times(consequences, DeleteConsequence::RegularFile) + times(
            consequences,
            DeleteConsequence::DirectoryTree,
        ) == consequences.len(),
    decreases consequences.len(),
{
    reveal(Seq::filter);
    if consequences.len() > 0 {
        kinds_add_up(consequences.drop_last());
    }
}

/// An operation that succeeded closes what offered it, and one that failed is reported with what was
/// tried and what went wrong.
pub proof fn failures_are_reported(
    shell: ShellView,
    title: Seq<char>,
    failure: Option<Seq<char>>,
)
    ensures
        failure is None <==> operation_done(shell, title, failure).context is Hidden,
        failure is Some ==> operation_done(shell, title, failure).context == ContextView::Error(
            title,
            failure->0,
        ),
        operation_done(shell, title, failure).selection == shell.selection,
{
    reveal(context_hidden);
    reveal(crate::menus::context_shown);
}

/// The question whether to delete is about the items that are selected and what was found of each.
/// An error in a dialog leaves it open with what was entered.
pub proof fn dialogs_keep_what_they_are_about(
    shell: ShellView,
    consequences: Seq<DeleteConsequence>,
    error: Seq<char>,
)
    ensures
        match deletion_asked(shell, consequences).context {
            ContextView::Delete(dialog) => dialog.items == selected_items(shell)
                && dialog.consequences == consequences && dialog.error is None && dialog.detail
                == deletion_detail(selected_items(shell), consequences),
            _ => false,
        },
        match (shell.context, dialog_failed(shell, error).context) {
            (ContextView::Edit(before), ContextView::Edit(after)) => after.error == Some(error)
                && after.input == before.input && after.operation == before.operation
                && !after.replace_on_type,
            (ContextView::Delete(before), ContextView::Delete(after)) => after.error == Some(error)
                && after.items == before.items && after.consequences == before.consequences,
            (before, after) => before == after && !(before is Edit) && !(before is Delete),
        },
{
    reveal(crate::menus::context_shown);
}

/// What went onto the clipboard is remembered: the files that are selected, whether they were cut,
/// and the generation of the token. From then on it can be pasted.
pub proof fn the_clipboard_remembers_the_selection(shell: ShellView, operation: ClipboardOperation)
    ensures
        ({
            let after = clipboard_published(shell, operation);
            &&& after.clipboard is Some
            &&& after.clipboard->0.operation == operation
            &&& after.clipboard->0.sources == selected_items(shell)
            &&& after.clipboard->0.generation == shell.chrome.clipboard_generation
            &&& after.chrome.paste_available
            &&& after.context is Hidden
            &&& after.selection == shell.selection
        }),
{
    reveal(context_hidden);
}

/// After an edit the dialog is closed, and what it made is the only thing that is selected.
pub proof fn edits_select_what_they_made(shell: ShellView, path: Option<Seq<u8>>)
    ensures
        edit_finished(shell, path).context is Hidden,
        path is Some ==> edit_finished(shell, path).selection == seq![path->0],
        path is None ==> edit_finished(shell, path).selection == shell.selection,
{
    reveal(context_hidden);
}

/// A confirmation covers an item only where deleting it still does what was said when it was asked
/// for.
pub proof fn confirmations_cover_what_was_said(
    consequences: Seq<DeleteConsequence>,
    at: int,
    current: DeleteConsequence,
)
    ensures
        is_covered(consequences, at, current) ==> 0 <= at < consequences.len() && consequences[at]
            == current,
        0 <= at < consequences.len() && consequences[at] == current ==> is_covered(
            consequences,
            at,
            current,
        ),
        at >= consequences.len() ==> !is_covered(consequences, at, current),
{
}

/// The menu that is open offers what it is about: that of an application acts on that application, and
/// that of the selected items renames where one is selected. A dialog shows its own buttons, and
/// nothing is offered where nothing is open.
pub proof fn open_menus_offer_their_own(shell: ShellView, at: int)
    ensures
        ({
            let targets = context_target_views(shell);
            match shell.context {
                ContextView::Hidden => targets.len() == 0,
                ContextView::Application(id) => match application_place(shell.applications, id) {
                    Some(_) => targets[0].action == ActionView::LaunchApplication(id) && (
                    shell.pinned.contains(id) <==> exists|place: int|
                        0 <= place < targets.len() && (#[trigger] targets[place]).action
                            == ActionView::UnpinApplication(id)),
                    None => targets.len() == 0,
                },
                ContextView::DesktopMenu => targets.len() == 3 && targets[0].action
                    == ActionView::DesktopPaste && targets[1].action
                    == ActionView::DesktopNewFolder && targets[2].action
                    == ActionView::DesktopArrangeIcons,
                ContextView::ItemMenu(registered) => {
                    &&& targets[0].action == ActionView::DesktopOpenSelection
                    &&& shell.selection.len() == 1 <==> exists|place: int|
                        0 <= place < targets.len() && (#[trigger] targets[place]).action
                            == ActionView::DesktopRename
                },
                _ => targets == dialog_targets(shell.context),
            }
        }),
{
    let targets = context_target_views(shell);
    match shell.context {
        ContextView::Application(id) => {
            if let Some(place) = application_place(shell.applications, id) {
                let managed = shell.registrations[place as int] is Some;
                let entries = application_entries(id, shell.pinned.contains(id), managed);
                let start: int = if managed {
                    3
                } else {
                    1
                };
                assert(targets[0].action == entries[0].action);
                assert(targets[start].action == entries[start].action);
                assert forall|other: int| 0 <= other < targets.len() implies (
                #[trigger] targets[other]).action == entries[other].action by {}
            }
        },
        ContextView::ItemMenu(registered) => {
            let single = shell.selection.len() == 1;
            let entries = item_entries(single, registered);
            assert(targets[0].action == entries[0].action);
            assert forall|other: int| 0 <= other < targets.len() implies (
            #[trigger] targets[other]).action == entries[other].action by {}
            item_menus_offer_what_applies(single, registered, 0);
            if single {
                assert(entries[3].action == ActionView::DesktopRename);
                assert(targets[3].action == ActionView::DesktopRename);
            }
        },
        _ => {},
    }
}

} // verus!
