//! The keyboard: shortcuts, the search field and the edit dialog.

use vstd::prelude::*;
use vstd::string::*;
use crate::menus::{applications_open, applications_placed, context_hidden, menu_hidden, menu_listing};
use crate::shell::{clipboard_taken, deletion_begun, rename_begun, Effect};
use crate::state::{MenuState, is_dialog_view, Chrome, ContextView, EditView, ShellView};
use crate::state::{ClipboardOperation, ContextState, EditDialog, MenuKind, Shell, ShellSurface};
use crate::text::{any_control, characters, join, without_last};
use crate::text::{has_control, optional_text, shortened};

verus! {

/// A key, as far as the shell tells keys apart.
#[derive(Debug, Clone, Copy, PartialEq, Eq, Structural)]
pub enum Key {
    Escape,
    Return,
    BackSpace,
    Delete,
    F2,
    C,
    X,
    V,
    Other,
}

/// Whether the text of a key press goes into a field.
pub open spec fn is_typed(shell: ShellView, text: Option<Seq<char>>) -> bool {
    &&& !shell.chrome.input.modifiers.ctrl
    &&& !shell.chrome.input.modifiers.alt
    &&& !shell.chrome.input.modifiers.logo
    &&& text is Some
    &&& !has_control(text->0)
}

/// The state with another text in the edit dialog.
pub open spec fn edited(shell: ShellView, dialog: EditView, input: Seq<char>) -> ShellView {
    ShellView {
        context: ContextView::Edit(EditView { input, replace_on_type: false, error: None, ..dialog }),
        chrome: Chrome { dirty: true, ..shell.chrome },
        ..shell
    }
}

/// The state and the effect of a key in the edit dialog.
pub open spec fn edit_key(
    shell: ShellView,
    dialog: EditView,
    key: Key,
    text: Option<Seq<char>>,
) -> (ShellView, Effect) {
    match key {
        Key::Return => (shell, Effect::CommitEdit),
        Key::BackSpace | Key::Delete => (
            edited(shell, dialog, shortened(dialog.input)),
            Effect::Nothing,
        ),
        _ => (
            if is_typed(shell, text) {
                edited(
                    shell,
                    dialog,
                    if dialog.replace_on_type {
                        text->0
                    } else {
                        dialog.input + text->0
                    },
                )
            } else {
                shell
            },
            Effect::Nothing,
        ),
    }
}

/// The state with another text in the search field, and the menu fitted to what it finds.
pub open spec fn searched(shell: ShellView, search: Seq<char>) -> ShellView {
    let placed = applications_placed(
        ShellView { search, chrome: Chrome { menu: MenuState { menu_scroll: 0, ..shell.chrome.menu }, ..shell.chrome }, ..shell },
    );
    ShellView { chrome: Chrome { dirty: true, ..placed.chrome }, ..placed }
}

/// The state and the effect of a key in the search field.
pub open spec fn search_key(shell: ShellView, key: Key, text: Option<Seq<char>>) -> (
    ShellView,
    Effect,
) {
    match key {
        Key::BackSpace => (searched(shell, shortened(shell.search)), Effect::Nothing),
        Key::Return => if menu_listing(shell).len() > 0 {
            (menu_hidden(shell), Effect::LaunchApplication(menu_listing(shell)[0]))
        } else {
            (shell, Effect::Nothing)
        },
        _ => (
            if is_typed(shell, text) {
                searched(shell, shell.search + text->0)
            } else {
                shell
            },
            Effect::Nothing,
        ),
    }
}

/// The state and the effect of a shortcut on the desktop.
pub open spec fn desktop_key(shell: ShellView, key: Key) -> (ShellView, Effect) {
    if shell.chrome.input.modifiers.ctrl {
        match key {
            Key::C => clipboard_taken(shell, ClipboardOperation::Copy),
            Key::X => clipboard_taken(shell, ClipboardOperation::Cut),
            Key::V => (shell, Effect::ReadClipboard),
            _ => (shell, Effect::Nothing),
        }
    } else {
        match key {
            Key::F2 => (rename_begun(shell), Effect::Nothing),
            Key::Delete => (shell, deletion_begun(shell)),
            Key::Return => (shell, Effect::OpenSelection),
            _ => (shell, Effect::Nothing),
        }
    }
}

/// The state after the escape key: it takes away one thing, the topmost.
pub open spec fn escaped(shell: ShellView) -> ShellView {
    if !(shell.context is Hidden) {
        context_hidden(shell)
    } else if shell.chrome.menu.menu_open {
        menu_hidden(shell)
    } else if shell.selection.len() > 0 {
        ShellView {
            selection: Seq::empty(),
            selection_anchor: None,
            chrome: Chrome { dirty: true, ..shell.chrome },
            ..shell
        }
    } else {
        shell
    }
}

/// The state and the effect of a key. In a dialog other than the edit dialog the return key
/// cancels: nothing is deleted, replaced or kept twice without a target being hit.
pub open spec fn key_pressed(shell: ShellView, key: Key, text: Option<Seq<char>>) -> (
    ShellView,
    Effect,
) {
    if key == Key::Escape {
        (escaped(shell), Effect::Nothing)
    } else if let ContextView::Edit(dialog) = shell.context {
        edit_key(shell, dialog, key, text)
    } else if is_dialog_view(shell.context) {
        (
            if key == Key::Return {
                context_hidden(shell)
            } else {
                shell
            },
            Effect::Nothing,
        )
    } else if applications_open(shell) && shell.context is Hidden {
        search_key(shell, key, text)
    } else if shell.chrome.input.keyboard_focus != Some(ShellSurface::Desktop) {
        (shell, Effect::Nothing)
    } else {
        desktop_key(shell, key)
    }
}

/// No key in a delete, collision or error dialog deletes, replaces or pastes anything.
pub proof fn dialogs_cancel_by_default(shell: ShellView, key: Key, text: Option<Seq<char>>)
    requires
        shell.context is Delete || shell.context is Collision || shell.context is Error,
    ensures
        key_pressed(shell, key, text).1 == Effect::Nothing,
        key == Key::Return || key == Key::Escape ==> key_pressed(shell, key, text).0.context
            is Hidden,
        key_pressed(shell, key, text).0.clipboard == shell.clipboard,
{
    reveal(context_hidden);
}

/// Pressing escape often enough leaves nothing shown and nothing selected.
pub proof fn escape_clears_everything(shell: ShellView)
    ensures
        ({
            let cleared = escaped(escaped(escaped(shell)));
            &&& cleared.context is Hidden
            &&& !cleared.chrome.menu.menu_open
            &&& cleared.selection.len() == 0
        }),
{
    reveal(context_hidden);
    reveal(menu_hidden);
}

impl Shell {
    /// Whether the modifiers let the text of a key press through.
    fn takes_text(&self, text: &Option<String>) -> (takes: bool)
        ensures
            takes == is_typed(self@, optional_text(*text)),
    {
        match text {
            Some(text) => !self.chrome.input.modifiers.ctrl && !self.chrome.input.modifiers.alt
                && !self.chrome.input.modifiers.logo && !any_control(
                characters(text.as_str()).as_slice(),
            ),
            None => false,
        }
    }

    /// Puts `input` into the edit dialog.
    pub fn set_edit_input(&mut self, input: String)
        requires
            old(self)@.context is Edit,
        ensures
            final(self)@ == edited(old(self)@, old(self)@.context->Edit_0, input@),
            old(self).valid() ==> final(self).valid(),
    {
        let mut context = ContextState::Hidden;
        std::mem::swap(&mut context, &mut self.context);
        if let ContextState::Edit(dialog) = context {
            self.context = ContextState::Edit(
                EditDialog {
                    operation: dialog.operation,
                    input,
                    replace_on_type: false,
                    error: None,
                },
            );
        }
        let mut chrome = self.chrome;
        chrome.dirty = true;
        self.set_chrome(chrome);
    }

    /// Handles a key in the edit dialog.
    fn handle_edit_key(&mut self, key: Key, text: &Option<String>) -> (effect: Effect)
        requires
            old(self)@.context is Edit,
        ensures
            (final(self)@, effect) == edit_key(
                old(self)@,
                old(self)@.context->Edit_0,
                key,
                optional_text(*text),
            ),
            old(self).valid() ==> final(self).valid(),
    {
        let typed = self.takes_text(text);
        let input: Option<String> = match &self.context {
            ContextState::Edit(dialog) => match key {
                Key::Return => None,
                Key::BackSpace | Key::Delete => Some(without_last(dialog.input.as_str())),
                _ => match text {
                    Some(text) => if !typed {
                        None
                    } else if dialog.replace_on_type {
                        Some(text.clone())
                    } else {
                        Some(join(dialog.input.as_str(), text.as_str()))
                    },
                    None => None,
                },
            },
            _ => None,
        };
        if let Some(input) = input {
            self.set_edit_input(input);
        }
        if key == Key::Return {
            Effect::CommitEdit
        } else {
            Effect::Nothing
        }
    }

    /// Puts `search` into the search field.
    pub fn set_search(&mut self, search: String)
        requires
            old(self).valid(),
        ensures
            final(self)@ == searched(old(self)@, search@),
            final(self).valid(),
    {
        self.search = search;
        let mut chrome = self.chrome;
        chrome.menu.menu_scroll = 0;
        self.set_chrome(chrome);
        self.apply_applications_menu_geometry();
        let mut placed = self.chrome;
        placed.dirty = true;
        self.set_chrome(placed);
    }

    /// Handles a key in the search field.
    fn handle_search_key(&mut self, key: Key, text: &Option<String>) -> (effect: Effect)
        requires
            old(self).valid(),
        ensures
            (final(self)@, effect) == search_key(old(self)@, key, optional_text(*text)),
            final(self).valid(),
    {
        match key {
            Key::BackSpace => {
                let search = without_last(self.search.as_str());
                self.set_search(search);
                Effect::Nothing
            },
            Key::Return => {
                let listed = self.menu_listing();
                if listed.len() > 0 {
                    self.hide_menu();
                    Effect::LaunchApplication(listed[0])
                } else {
                    Effect::Nothing
                }
            },
            _ => {
                if self.takes_text(text) {
                    if let Some(text) = text {
                        let search = join(self.search.as_str(), text.as_str());
                        self.set_search(search);
                    }
                }
                Effect::Nothing
            },
        }
    }

    /// Handles a shortcut on the desktop.
    fn handle_desktop_key(&mut self, key: Key) -> (effect: Effect)
        ensures
            (final(self)@, effect) == desktop_key(old(self)@, key),
            old(self).valid() ==> final(self).valid(),
    {
        if self.chrome.input.modifiers.ctrl {
            match key {
                Key::C => self.copy_selection_to_clipboard(ClipboardOperation::Copy),
                Key::X => self.copy_selection_to_clipboard(ClipboardOperation::Cut),
                Key::V => Effect::ReadClipboard,
                _ => Effect::Nothing,
            }
        } else {
            match key {
                Key::F2 => {
                    self.begin_rename();
                    Effect::Nothing
                },
                Key::Delete => self.begin_delete(),
                Key::Return => Effect::OpenSelection,
                _ => Effect::Nothing,
            }
        }
    }

    /// Handles the escape key.
    fn handle_escape(&mut self)
        ensures
            final(self)@ == escaped(old(self)@),
            old(self).valid() ==> final(self).valid(),
    {
        if self.context.is_visible() {
            self.hide_context();
        } else if self.chrome.menu.menu_open {
            self.hide_menu();
        } else if self.selection.len() > 0 {
            self.clear_selection();
        }
    }

    /// Selects nothing.
    pub fn clear_selection(&mut self)
        ensures
            final(self)@ == (ShellView {
                selection: Seq::empty(),
                selection_anchor: None,
                chrome: Chrome { dirty: true, ..old(self)@.chrome },
                ..old(self)@
            }),
            old(self).valid() ==> final(self).valid(),
    {
        self.selection = Vec::new();
        self.selection_anchor = None;
        let mut chrome = self.chrome;
        chrome.dirty = true;
        self.set_chrome(chrome);
        assert(self@.selection =~= Seq::empty());
    }

    /// Handles a key, with the text that it types.
    pub fn handle_key(&mut self, key: Key, text: &Option<String>) -> (effect: Effect)
        requires
            old(self).valid(),
        ensures
            (final(self)@, effect) == key_pressed(old(self)@, key, optional_text(*text)),
            final(self).valid(),
    {
        if key == Key::Escape {
            self.handle_escape();
            return Effect::Nothing;
        }
        if matches!(self.context, ContextState::Edit(_)) {
            return self.handle_edit_key(key, text);
        }
        if self.context.is_dialog() {
            if key == Key::Return {
                self.hide_context();
            }
            return Effect::Nothing;
        }
        if self.chrome.menu.menu_open && self.chrome.menu.menu_kind == MenuKind::Applications
            && !self.context.is_visible() {
            return self.handle_search_key(key, text);
        }
        let on_desktop = match self.chrome.input.keyboard_focus {
            Some(surface) => surface == ShellSurface::Desktop,
            None => false,
        };
        if !on_desktop {
            return Effect::Nothing;
        }
        self.handle_desktop_key(key)
    }

    /// Whether a key that is held down repeats: only those that take away text.
    pub fn repeats(&self, key: Key) -> (repeats: bool)
        ensures
            repeats == ((key == Key::BackSpace || key == Key::Delete) && (self@.context is Edit
                || applications_open(self@))),
    {
        (key == Key::BackSpace || key == Key::Delete) && (matches!(
            self.context,
            ContextState::Edit(_)
        ) || (self.chrome.menu.menu_open && self.chrome.menu.menu_kind == MenuKind::Applications))
    }
}

/// In the edit dialog a text that is typed comes to the end of what is there, or in its place where
/// it was just opened; the keys that take away take the last character; return confirms. Nothing is
/// typed while a modifier other than shift is held down.
pub proof fn typing_edits_the_name(shell: ShellView, dialog: EditView, text: Seq<char>)
    requires
        shell.context == ContextView::Edit(dialog),
    ensures
        key_pressed(shell, Key::Return, Some(text)) == (shell, Effect::CommitEdit),
        match key_pressed(shell, Key::BackSpace, Some(text)).0.context {
            ContextView::Edit(after) => after.operation == dialog.operation && (
            dialog.input.len() > 0 ==> after.input == dialog.input.drop_last()) && (
            dialog.input.len() == 0 ==> after.input.len() == 0),
            _ => false,
        },
        key_pressed(shell, Key::Delete, Some(text)) == key_pressed(
            shell,
            Key::BackSpace,
            Some(text),
        ),
        ({
            let after = key_pressed(shell, Key::Other, Some(text));
            let held = shell.chrome.input.modifiers;
            let goes = !held.ctrl && !held.alt && !held.logo && !has_control(text);
            &&& after.1 == Effect::Nothing
            &&& !goes ==> after.0 == shell
            &&& goes ==> match after.0.context {
                ContextView::Edit(edited) => edited.operation == dialog.operation && edited.input
                    == (if dialog.replace_on_type {
                    text
                } else {
                    dialog.input + text
                }) && !edited.replace_on_type,
                _ => false,
            }
        }),
{
}

/// In the Applications menu a text that is typed adds to the search, which starts again at the first
/// row; return launches the first application that is found, if one is.
pub proof fn typing_searches_applications(shell: ShellView, text: Seq<char>)
    requires
        applications_open(shell),
        shell.context is Hidden,
    ensures
        ({
            let held = shell.chrome.input.modifiers;
            let goes = !held.ctrl && !held.alt && !held.logo && !has_control(text);
            let after = key_pressed(shell, Key::Other, Some(text));
            &&& after.1 == Effect::Nothing
            &&& goes ==> after.0.search == shell.search + text && after.0.chrome.menu.menu_scroll
                == 0
            &&& !goes ==> after.0 == shell
            &&& after.0.pinned == shell.pinned
        }),
        shell.search.len() > 0 ==> key_pressed(shell, Key::BackSpace, None).0.search
            == shell.search.drop_last(),
        match key_pressed(shell, Key::Return, None).1 {
            Effect::LaunchApplication(at) => menu_listing(shell).len() > 0 && at == menu_listing(
                shell,
            )[0] && !key_pressed(shell, Key::Return, None).0.chrome.menu.menu_open,
            effect => effect == Effect::Nothing && menu_listing(shell).len() == 0,
        },
{
    reveal(applications_placed);
    reveal(menu_hidden);
    reveal(context_hidden);
}

/// On the desktop the keys do what the menu of the selected items does: copy, cut and paste with
/// control, and rename, delete and open without. They do nothing where the desktop does not have the
/// keyboard.
pub proof fn desktop_keys_act_on_the_selection(shell: ShellView, text: Option<Seq<char>>)
    requires
        shell.context is Hidden,
        !shell.chrome.menu.menu_open,
    ensures
        ({
            let focused = shell.chrome.input.keyboard_focus == Some(ShellSurface::Desktop);
            let ctrl = shell.chrome.input.modifiers.ctrl;
            &&& !focused ==> forall|key: Key|
                key != Key::Escape ==> #[trigger] key_pressed(shell, key, text) == (
                    shell,
                    Effect::Nothing,
                )
            &&& focused && ctrl ==> key_pressed(shell, Key::V, text) == (
                shell,
                Effect::ReadClipboard,
            )
            &&& focused && ctrl ==> key_pressed(shell, Key::C, text) == clipboard_taken(
                shell,
                ClipboardOperation::Copy,
            )
            &&& focused && ctrl ==> key_pressed(shell, Key::X, text) == clipboard_taken(
                shell,
                ClipboardOperation::Cut,
            )
            &&& focused && !ctrl ==> key_pressed(shell, Key::Delete, text) == (
                shell,
                deletion_begun(shell),
            )
            &&& focused && !ctrl ==> key_pressed(shell, Key::Return, text) == (
                shell,
                Effect::OpenSelection,
            )
            &&& focused && !ctrl ==> key_pressed(shell, Key::F2, text) == (
                rename_begun(shell),
                Effect::Nothing,
            )
            &&& focused && !ctrl ==> key_pressed(shell, Key::C, text) == (shell, Effect::Nothing)
            &&& focused && ctrl ==> key_pressed(shell, Key::Delete, text) == (
                shell,
                Effect::Nothing,
            )
        }),
{
}

/// Escape takes away the topmost thing alone: a dialog or menu, then the Applications or window menu,
/// then the selection.
pub proof fn escape_takes_one_thing_away(shell: ShellView)
    ensures
        key_pressed(shell, Key::Escape, None).1 == Effect::Nothing,
        ({
            let after = key_pressed(shell, Key::Escape, None).0;
            &&& !(shell.context is Hidden) ==> after.context is Hidden
                && after.chrome.menu.menu_open == shell.chrome.menu.menu_open && after.selection
                == shell.selection
            &&& shell.context is Hidden && shell.chrome.menu.menu_open
                ==> !after.chrome.menu.menu_open && after.selection == shell.selection
            &&& shell.context is Hidden && !shell.chrome.menu.menu_open ==> after.selection.len()
                == 0
            &&& shell.context is Hidden && !shell.chrome.menu.menu_open && shell.selection.len()
                == 0 ==> after == shell
        }),
{
    reveal(context_hidden);
    reveal(menu_hidden);
}

} // verus!
