//! Pasting onto the desktop: the clipboard's token, its list of files, and the steps of a paste.

use vstd::prelude::*;
use vstd::string::*;
use crate::menus::{context_hidden, dialog_shown};
use crate::paths::{byte_parts, file_name_of, is_absolute_path, kept_components};
use crate::paths::{entries_are_named_in_their_directory, is_entry_name, joined};
use crate::paths::{components_of, copy_paths, from_utf8, same_bytes, FilePath};
use crate::paths::{optional_path, path_views};
use crate::shell::CollisionChoice;
use crate::state::{Chrome, ContextView, SessionView, ShellView};
use crate::state::{ClipboardOperation, ClipboardToken, ContextState, PasteSession, Shell};
use crate::text::{begins_with, text_views, trimmed};
use crate::text::{characters, starts_with, text_of, trim};

verus! {

/// How many files a list on the clipboard may name.
pub const MAX_PASTED_FILES: usize = 4096;

/// Why a list of files on the clipboard is refused.
#[derive(Debug, Clone, Copy, PartialEq, Eq, Structural)]
pub enum UriListError {
    NotText,
    HoldsNul,
    NotLocal,
    NoLocalPath,
    NotAbsolute,
    TooMany,
}

/// The lines of `text`, without the line breaks: each ends at a line feed, and the text behind the
/// last one is a line where it is not empty.
pub open spec fn lines(text: Seq<char>) -> Seq<Seq<char>>
    decreases text.len(),
{
    if text.len() == 0 {
        seq![]
    } else if text.last() == '\n' {
        lines_before(text.drop_last())
    } else {
        lines_before(text)
    }
}

/// The parts of `text` between line feeds.
pub open spec fn lines_before(text: Seq<char>) -> Seq<Seq<char>>
    decreases text.len(),
{
    if text.len() == 0 {
        seq![seq![]]
    } else {
        let before = lines_before(text.drop_last());
        if text.last() == '\n' {
            before.push(seq![])
        } else {
            before.drop_last().push(before.last().push(text.last()))
        }
    }
}

/// Whether a line of a list of files names one: it is neither blank nor a comment.
pub open spec fn names_file() -> spec_fn(Seq<char>) -> bool {
    |line: Seq<char>| line.len() > 0 && line[0] != '#'
}

/// The lines of a list of files that name one, without white space around them.
pub open spec fn uri_lines(text: Seq<char>) -> Seq<Seq<char>> {
    lines(text).map_values(|line: Seq<char>| trimmed(line)).filter(names_file())
}

/// Whether a line is the address of a local file.
pub open spec fn is_local_uri(line: Seq<char>) -> bool {
    begins_with(line, "file://"@)
}

/// What a list of files comes to, given the path of each of its lines, where that has one.
pub open spec fn listed_files(uris: Seq<Seq<char>>, resolved: Seq<Option<Seq<u8>>>) -> Result<
    Seq<Seq<u8>>,
    UriListError,
>
    decreases uris.len(),
{
    if uris.len() == 0 {
        Ok(seq![])
    } else {
        match listed_files(uris.drop_last(), resolved) {
            Err(error) => Err(error),
            Ok(paths) => if !is_local_uri(uris.last()) {
                Err(UriListError::NotLocal)
            } else {
                match resolved[uris.len() - 1] {
                    None => Err(UriListError::NoLocalPath),
                    Some(path) => if !is_absolute_path(path) {
                        Err(UriListError::NotAbsolute)
                    } else if paths.len() >= MAX_PASTED_FILES {
                        Err(UriListError::TooMany)
                    } else {
                        Ok(paths.push(path))
                    },
                }
            },
        }
    }
}

/// A list with one element more, mapped and filtered.
proof fn uri_step(before: Seq<Seq<char>>, line: Seq<char>)
    ensures
        before.push(line).map_values(|line: Seq<char>| trimmed(line)).filter(names_file()) == (
        if names_file()(trimmed(line)) {
            before.map_values(|line: Seq<char>| trimmed(line)).filter(names_file()).push(
                trimmed(line),
            )
        } else {
            before.map_values(|line: Seq<char>| trimmed(line)).filter(names_file())
        }),
{
    let trim_line = |line: Seq<char>| trimmed(line);
    let mapped = before.map_values(trim_line);
    assert(before.push(line).map_values(trim_line) =~= mapped.push(trimmed(line)));
    reveal(Seq::filter);
    assert(mapped.push(trimmed(line)).drop_last() =~= mapped);
}

/// Adds a line to the list of those that name a file.
fn push_line(uris: &mut Vec<String>, line: &Vec<char>, Ghost(before): Ghost<Seq<Seq<char>>>)
    requires
        text_views(old(uris)@) == before.map_values(|line: Seq<char>| trimmed(line)).filter(
            names_file(),
        ),
    ensures
        text_views(final(uris)@) == before.push(line@).map_values(
            |line: Seq<char>| trimmed(line),
        ).filter(names_file()),
{
    proof {
        uri_step(before, line@);
    }
    let ghost old_views = text_views(uris@);
    let inner = trim(line.as_slice());
    if inner.len() > 0 && inner[0] != '#' {
        uris.push(text_of(inner.as_slice()));
        assert(text_views(uris@) =~= old_views.push(inner@));
    }
}

/// The lines of a list of files on the clipboard that name one. A line may name a file that is not
/// local: which of the lines are acceptable is for [`local_files`] to say.
pub fn uri_list_lines(text: &str) -> (uris: Result<Vec<String>, UriListError>)
    ensures
        match uris {
            Ok(list) => !text@.contains('\0') && text_views(list@) == uri_lines(text@),
            Err(error) => text@.contains('\0') && error == UriListError::HoldsNul,
        },
{
    let chars = characters(text);
    let mut at: usize = 0;
    while at < chars.len()
        invariant
            at <= chars.len(),
            chars@ == text@,
            forall|index: int| 0 <= index < at ==> chars@[index] != '\0',
        decreases chars.len() - at,
    {
        if chars[at] == '\0' {
            assert(text@[at as int] == '\0');
            return Err(UriListError::HoldsNul);
        }
        at = at + 1;
    }
    let mut end: usize = chars.len();
    if end > 0 && chars[end - 1] == '\n' {
        end = end - 1;
    }
    let ghost body = text@.take(end as int);
    let ghost trim_line = |line: Seq<char>| trimmed(line);
    let mut uris: Vec<String> = Vec::new();
    let mut line: Vec<char> = Vec::new();
    let ghost mut done: Seq<Seq<char>> = seq![];
    proof {
        reveal(Seq::filter);
        assert(done.map_values(trim_line) =~= seq![]);
        assert(done.map_values(trim_line).filter(names_file()) =~= seq![]);
        assert(body.take(0) =~= seq![]);
        assert(lines_before(body.take(0)) =~= done.push(line@));
        assert(text_views(uris@) =~= seq![]);
    }
    let mut index: usize = 0;
    while index < end
        invariant
            index <= end <= chars.len(),
            chars@ == text@,
            body == text@.take(end as int),
            text_views(uris@) == done.map_values(|line: Seq<char>| trimmed(line)).filter(
                names_file(),
            ),
            lines_before(body.take(index as int)) == done.push(line@),
        decreases end - index,
    {
        let character = chars[index];
        assert(body.take(index + 1).drop_last() =~= body.take(index as int));
        assert(body.take(index + 1).last() == character);
        let ghost parts = lines_before(body.take(index as int));
        assert(parts.drop_last() =~= done);
        if character == '\n' {
            push_line(&mut uris, &line, Ghost(done));
            proof {
                done = done.push(line@);
            }
            line = Vec::new();
            assert(lines_before(body.take(index + 1)) =~= done.push(line@));
        } else {
            line.push(character);
            assert(lines_before(body.take(index + 1)) =~= done.push(line@));
        }
        index = index + 1;
    }
    assert(body.take(end as int) =~= body);
    if chars.len() > 0 {
        push_line(&mut uris, &line, Ghost(done));
        assert(lines(text@) == done.push(line@)) by {
            if text@.last() == '\n' {
                assert(body =~= text@.drop_last());
            } else {
                assert(body =~= text@);
            }
        }
    } else {
        assert(lines(text@) =~= done);
    }
    Ok(uris)
}

/// The lines of a list of files on the clipboard that name one, from its bytes: see
/// [`uri_list_lines`].
pub fn parse_uri_list(bytes: &[u8]) -> (uris: Result<Vec<String>, UriListError>)
    ensures
        match uris {
            Ok(list) => vstd::utf8::valid_utf8(bytes@) && !vstd::utf8::decode_utf8(bytes@).contains(
                '\0',
            ) && text_views(list@) == uri_lines(vstd::utf8::decode_utf8(bytes@)),
            Err(error) => if vstd::utf8::valid_utf8(bytes@) {
                vstd::utf8::decode_utf8(bytes@).contains('\0') && error == UriListError::HoldsNul
            } else {
                error == UriListError::NotText
            },
        },
{
    match from_utf8(bytes) {
        Some(text) => uri_list_lines(text.as_str()),
        None => Err(UriListError::NotText),
    }
}

/// The paths of the files that `uris` name, given the path of each line, where it has one. The
/// first line that is not acceptable decides.
pub fn local_files(uris: &Vec<String>, resolved: &Vec<Option<FilePath>>) -> (paths: Result<
    Vec<FilePath>,
    UriListError,
>)
    requires
        uris@.len() == resolved@.len(),
    ensures
        match listed_files(text_views(uris@), optional_paths(resolved@)) {
            Ok(list) => paths is Ok && path_views(paths->Ok_0@) == list,
            Err(error) => paths == Err::<Vec<FilePath>, UriListError>(error),
        },
{
    let ghost lines = text_views(uris@);
    let ghost known = optional_paths(resolved@);
    let mut paths: Vec<FilePath> = Vec::new();
    let mut at: usize = 0;
    assert(lines.take(0) =~= seq![]);
    assert(path_views(paths@) =~= seq![]);
    while at < uris.len()
        invariant
            at <= uris.len(),
            uris@.len() == resolved@.len(),
            lines == text_views(uris@),
            known == optional_paths(resolved@),
            listed_files(lines.take(at as int), known) is Ok,
            path_views(paths@) == listed_files(lines.take(at as int), known)->Ok_0,
        decreases uris.len() - at,
    {
        let ghost next = lines.take(at + 1);
        assert(next.drop_last() =~= lines.take(at as int));
        assert(next.last() == uris@[at as int]@);
        assert(known[at as int] == optional_path(resolved@[at as int]));
        assert(path_views(paths@).len() == paths@.len());
        let mut refused: Option<UriListError> = None;
        if !starts_with(characters(uris[at].as_str()).as_slice(), "file://") {
            refused = Some(UriListError::NotLocal);
        } else {
            match &resolved[at] {
                None => {
                    refused = Some(UriListError::NoLocalPath);
                },
                Some(path) => {
                    if !path.is_absolute() {
                        refused = Some(UriListError::NotAbsolute);
                    } else if paths.len() >= MAX_PASTED_FILES {
                        refused = Some(UriListError::TooMany);
                    } else {
                        let ghost before = path_views(paths@);
                        paths.push(path.duplicate());
                        assert(path_views(paths@) =~= before.push(path@));
                    }
                },
            }
        }
        if let Some(error) = refused {
            proof {
                refusal_stays(lines, known, at + 1);
            }
            return Err(error);
        }
        at = at + 1;
    }
    assert(lines.take(at as int) =~= lines);
    Ok(paths)
}

/// The bytes of paths of which each may be absent.
pub open spec fn optional_paths(paths: Seq<Option<FilePath>>) -> Seq<Option<Seq<u8>>> {
    paths.map_values(|path: Option<FilePath>| optional_path(path))
}

/// What refuses the first lines refuses all of them.
proof fn refusal_stays(uris: Seq<Seq<char>>, resolved: Seq<Option<Seq<u8>>>, length: int)
    requires
        0 <= length <= uris.len(),
        listed_files(uris.take(length), resolved) is Err,
    ensures
        listed_files(uris, resolved) == listed_files(uris.take(length), resolved),
    decreases uris.len() - length,
{
    if length < uris.len() {
        assert(uris.take(length + 1).drop_last() =~= uris.take(length));
        refusal_stays(uris, resolved, length + 1);
    } else {
        assert(uris.take(length) =~= uris);
    }
}

/// Every list of files that is accepted holds absolute paths only, and not too many.
pub proof fn pasted_files_are_absolute(uris: Seq<Seq<char>>, resolved: Seq<Option<Seq<u8>>>)
    requires
        listed_files(uris, resolved) is Ok,
    ensures
        listed_files(uris, resolved)->Ok_0.len() <= MAX_PASTED_FILES,
        listed_files(uris, resolved)->Ok_0.len() == uris.len(),
        forall|at: int|
            0 <= at < uris.len() ==> is_absolute_path(
                #[trigger] listed_files(uris, resolved)->Ok_0[at],
            ),
        forall|at: int| 0 <= at < uris.len() ==> is_local_uri(#[trigger] uris[at]),
    decreases uris.len(),
{
    if uris.len() > 0 {
        pasted_files_are_absolute(uris.drop_last(), resolved);
        let paths = listed_files(uris, resolved)->Ok_0;
        let before = listed_files(uris.drop_last(), resolved)->Ok_0;
        assert forall|at: int| 0 <= at < uris.len() implies is_absolute_path(
            #[trigger] paths[at],
        ) by {
            if at < uris.len() - 1 {
                assert(paths[at] == before[at]);
            }
        }
        assert forall|at: int| 0 <= at < uris.len() implies is_local_uri(#[trigger] uris[at]) by {
            if at < uris.len() - 1 {
                assert(uris[at] == uris.drop_last()[at]);
            }
        }
    }
}

/// Whether the file at `path` is an entry of the directory at `directory`.
pub open spec fn is_entry_of(path: Seq<u8>, directory: Seq<u8>) -> bool {
    &&& is_absolute_path(path) == is_absolute_path(directory)
    &&& kept_components(path).len() > 0
    &&& kept_components(path).drop_last() == kept_components(directory)
}

/// What the next step of a paste is.
#[derive(Debug, Clone, Copy, PartialEq, Eq, Structural)]
pub enum PasteStep {
    /// All sources are done.
    Finished,
    /// The source has no name to paste it under.
    NoName,
    /// A file that is cut and pasted where it is stays there.
    Skip,
    /// Something of that name is there, and nobody said yet what to do.
    Ask,
    /// The source is copied or moved, and a file of that name dealt with as told.
    Transfer(CollisionChoice),
}

/// A paste under way, and what was said of the collision that it stopped at.
#[derive(Debug, Clone, PartialEq, Eq)]
pub struct PasteRun {
    pub session: PasteSession,
    pub choice: Option<CollisionChoice>,
}

/// The next step of a paste into `desktop`, where `exists` says whether the name of the next source
/// is taken there.
pub open spec fn paste_step(
    session: SessionView,
    choice: Option<CollisionChoice>,
    desktop: Seq<u8>,
    exists: bool,
) -> PasteStep {
    if session.index >= session.sources.len() {
        PasteStep::Finished
    } else {
        let source = session.sources[session.index];
        if file_name_of(source) is None {
            PasteStep::NoName
        } else if session.operation == ClipboardOperation::Cut && is_entry_of(source, desktop) {
            PasteStep::Skip
        } else if !exists {
            PasteStep::Transfer(CollisionChoice::Cancel)
        } else {
            match choice {
                Some(choice) => PasteStep::Transfer(choice),
                None => PasteStep::Ask,
            }
        }
    }
}

impl FilePath {
    /// Whether the file at this path is an entry of `directory`.
    pub fn is_in(&self, directory: &FilePath) -> (is_in: bool)
        ensures
            is_in == is_entry_of(self@, directory@),
    {
        if self.is_absolute() != directory.is_absolute() {
            return false;
        }
        let own = components_of(self);
        let other = components_of(directory);
        assert(byte_parts(own@).len() == own@.len());
        assert(byte_parts(other@).len() == other@.len());
        if own.len() == 0 || own.len() - 1 != other.len() {
            return false;
        }
        let ghost front = byte_parts(own@).drop_last();
        let mut at: usize = 0;
        while at < other.len()
            invariant
                at <= other.len(),
                own.len() == other.len() + 1,
                byte_parts(own@) == kept_components(self@),
                byte_parts(other@) == kept_components(directory@),
                front == byte_parts(own@).drop_last(),
                forall|index: int| 0 <= index < at ==> front[index] == byte_parts(other@)[index],
            decreases other.len() - at,
        {
            if !same_bytes(own[at].as_slice(), other[at].as_slice()) {
                assert(front[at as int] != byte_parts(other@)[at as int]);
                return false;
            }
            assert(front[at as int] == byte_parts(other@)[at as int]);
            at = at + 1;
        }
        assert(front =~= byte_parts(other@));
        true
    }
}

/// What was said of a collision, after a source was done with.
pub open spec fn choice_after(choice: Option<CollisionChoice>, transferred: bool) -> Option<
    CollisionChoice,
> {
    if transferred {
        None
    } else {
        choice
    }
}

/// A paste whose next source was done with.
pub open spec fn session_after(session: SessionView) -> SessionView {
    SessionView { index: session.index + 1, ..session }
}

impl PasteRun {
    /// The next step, where `exists` says whether the name of the next source is taken.
    pub fn step(&self, desktop: &FilePath, exists: bool) -> (step: PasteStep)
        ensures
            step == paste_step(self.session@, self.choice, desktop@, exists),
    {
        assert(path_views(self.session.sources@).len() == self.session.sources@.len());
        if self.session.index >= self.session.sources.len() {
            return PasteStep::Finished;
        }
        let source = &self.session.sources[self.session.index];
        assert(self.session@.sources[self.session.index as int] == source@);
        if source.file_name().is_none() {
            return PasteStep::NoName;
        }
        if self.session.operation == ClipboardOperation::Cut && source.is_in(desktop) {
            return PasteStep::Skip;
        }
        if !exists {
            return PasteStep::Transfer(CollisionChoice::Cancel);
        }
        match self.choice {
            Some(choice) => PasteStep::Transfer(choice),
            None => PasteStep::Ask,
        }
    }

    /// Goes on to the next source. What was said of a collision holds for one transfer only.
    pub fn advance(&mut self, transferred: bool)
        requires
            old(self).session.index < old(self).session.sources@.len(),
        ensures
            final(self).session@ == (SessionView {
                index: old(self).session@.index + 1,
                ..old(self).session@
            }),
            final(self).choice == (if transferred {
                None
            } else {
                old(self).choice
            }),
            final(self).session@ == session_after(old(self).session@),
            final(self).choice == choice_after(old(self).choice, transferred),
    {
        let length: usize = self.session.sources.len();
        assert(self.session.index < length);
        self.session.index = self.session.index + 1;
        if transferred {
            self.choice = None;
        }
    }
}

/// A choice is asked for at every collision: right after a transfer, a source whose name is taken
/// is never transferred.
pub proof fn every_collision_is_asked(session: SessionView, desktop: Seq<u8>)
    ensures
        !(paste_step(session, None, desktop, true) is Transfer),
{
}

/// What is refused in a clipboard token.
#[derive(Debug, Clone, Copy, PartialEq, Eq, Structural)]
pub enum TokenError {
    UnsupportedSchema,
}

/// The paste that a token on the clipboard stands for: that of the shell's own record, where the
/// token is its token.
pub open spec fn token_session(shell: ShellView, token: ClipboardToken) -> Result<
    Option<SessionView>,
    TokenError,
> {
    if token.schema != 1 {
        Err(TokenError::UnsupportedSchema)
    } else {
        match shell.clipboard {
            Some(record) => if record.generation == token.generation && record.operation
                == token.operation {
                Ok(
                    Some(
                        SessionView {
                            operation: record.operation,
                            sources: record.sources,
                            index: 0,
                        },
                    ),
                )
            } else {
                Ok(None)
            },
            None => Ok(None),
        }
    }
}

/// A paste of what the shell put on the clipboard does what was asked for with the same files: the
/// token that went out stands for the record that was kept.
pub proof fn token_leads_to_the_record(shell: ShellView, operation: ClipboardOperation)
    requires
        shell.selection.len() > 0,
        crate::selection::selected_items(shell).len() > 0,
    ensures
        ({
            let taken = crate::shell::clipboard_taken(shell, operation);
            let token = taken.1->PublishClipboard_0;
            let kept = crate::dialogs::clipboard_published(taken.0, operation);
            token_session(kept, token) == Ok::<Option<SessionView>, TokenError>(
                Some(
                    SessionView {
                        operation,
                        sources: crate::selection::selected_items(shell),
                        index: 0,
                    },
                ),
            )
        }),
{
    reveal(context_hidden);
    let taken = crate::shell::clipboard_taken(shell, operation);
    assert(crate::selection::selected_items(taken.0) == crate::selection::selected_items(shell));
}

/// The state after a paste ended.
pub open spec fn paste_ended(shell: ShellView, operation: ClipboardOperation) -> ShellView {
    context_hidden(
        if operation == ClipboardOperation::Cut {
            ShellView {
                clipboard: None,
                chrome: Chrome { paste_available: false, ..shell.chrome },
                ..shell
            }
        } else {
            shell
        },
    )
}

impl Shell {
    /// The paste that a token on the clipboard stands for, where it is that of the shell.
    pub fn paste_session_from_token(&self, token: ClipboardToken) -> (session: Result<
        Option<PasteSession>,
        TokenError,
    >)
        ensures
            match token_session(self@, token) {
                Ok(Some(view)) => session is Ok && session->Ok_0 is Some && session->Ok_0->0@
                    == view,
                Ok(None) => session == Ok::<Option<PasteSession>, TokenError>(None),
                Err(error) => session == Err::<Option<PasteSession>, TokenError>(error),
            },
    {
        if token.schema != 1 {
            return Err(TokenError::UnsupportedSchema);
        }
        match &self.clipboard {
            Some(record) => {
                if record.generation == token.generation && record.operation == token.operation {
                    Ok(
                        Some(
                            PasteSession {
                                operation: record.operation,
                                sources: copy_paths(&record.sources),
                                index: 0,
                            },
                        ),
                    )
                } else {
                    Ok(None)
                }
            },
            None => Ok(None),
        }
    }

    /// Asks what to do about a name that is taken.
    pub fn ask_collision(&mut self, session: PasteSession)
        ensures
            final(self)@ == dialog_shown(old(self)@, ContextView::Collision(session@)),
            old(self).valid() ==> final(self).valid(),
    {
        self.show_dialog(ContextState::Collision(session));
    }

    /// The paste that waits for a choice, if one does.
    pub fn waiting_paste(&self) -> (session: Option<PasteSession>)
        ensures
            match self@.context {
                ContextView::Collision(view) => session is Some && session->0@ == view,
                _ => session is None,
            },
    {
        match &self.context {
            ContextState::Collision(session) => Some(session.duplicate()),
            _ => None,
        }
    }

    /// Ends a paste. What was cut can be pasted once: its record goes away, and the result says
    /// that the clipboard is to be cleared.
    pub fn finish_paste(&mut self, operation: ClipboardOperation) -> (clear: bool)
        ensures
            clear == (operation == ClipboardOperation::Cut),
            final(self)@ == paste_ended(old(self)@, operation),
            final(self)@ == context_hidden(
                if clear {
                    ShellView {
                        clipboard: None,
                        chrome: Chrome { paste_available: false, ..old(self)@.chrome },
                        ..old(self)@
                    }
                } else {
                    old(self)@
                },
            ),
            old(self).valid() ==> final(self).valid(),
    {
        let clear = operation == ClipboardOperation::Cut;
        if clear {
            self.clipboard = None;
            let mut chrome = self.chrome;
            chrome.paste_available = false;
            self.set_chrome(chrome);
        }
        self.hide_context();
        clear
    }
}

/// A source that has a name is transferred where its name is free, unless it is cut from that very
/// directory; only such a one is passed over. Where the name is taken, what was said of it is done,
/// and it is asked about where nothing was said.
pub proof fn free_names_are_pasted(
    session: SessionView,
    choice: Option<CollisionChoice>,
    desktop: Seq<u8>,
    taken: bool,
)
    ensures
        ({
            let step = paste_step(session, choice, desktop, taken);
            let left = session.index < session.sources.len();
            let source = session.sources[session.index];
            let stays = session.operation == ClipboardOperation::Cut && is_entry_of(source, desktop);
            let named = file_name_of(source) is Some;
            &&& step == PasteStep::Finished <==> !left
            &&& step == PasteStep::NoName <==> left && !named
            &&& step == PasteStep::Skip <==> left && named && stays
            &&& left && named && !stays && !taken ==> step is Transfer
            &&& left && named && !stays && taken && choice is Some ==> step
                == PasteStep::Transfer(choice->0)
            &&& left && named && !stays && taken && choice is None ==> step == PasteStep::Ask
            &&& step is Transfer ==> left && named && !stays && (!taken || choice is Some)
            &&& session.operation == ClipboardOperation::Copy ==> step != PasteStep::Skip
        }),
{
}

/// Going on moves to the next source of the same paste, and what was said of a collision is forgotten
/// with the transfer that it was said for. So a source is never transferred twice, and none is
/// left out.
pub proof fn going_on_takes_the_next_source(
    session: SessionView,
    choice: Option<CollisionChoice>,
    desktop: Seq<u8>,
)
    requires
        0 <= session.index < session.sources.len(),
    ensures
        session_after(session).sources == session.sources,
        session_after(session).operation == session.operation,
        session_after(session).index == session.index + 1,
        choice_after(choice, true) is None,
        choice_after(choice, false) == choice,
        paste_step(session_after(session), choice, desktop, true) == PasteStep::Finished
            <==> session.index == session.sources.len() - 1,
        !(paste_step(session_after(session), choice_after(choice, true), desktop, true)
            is Transfer),
{
}

/// After a paste, what was cut is no longer on the clipboard, and what was copied still is.
pub proof fn what_was_cut_is_pasted_once(shell: ShellView, token: ClipboardToken)
    ensures
        paste_ended(shell, ClipboardOperation::Cut).clipboard is None,
        !paste_ended(shell, ClipboardOperation::Cut).chrome.paste_available,
        token.schema == 1 ==> token_session(
            paste_ended(shell, ClipboardOperation::Cut),
            token,
        ) == Ok::<Option<SessionView>, TokenError>(None),
        paste_ended(shell, ClipboardOperation::Copy).clipboard == shell.clipboard,
        token_session(paste_ended(shell, ClipboardOperation::Copy), token) == token_session(
            shell,
            token,
        ),
        paste_ended(shell, ClipboardOperation::Copy).selection == shell.selection,
{
    reveal(context_hidden);
}

/// A token stands for the shell's record only where it was made with it: the paste does what the
/// record says with all of its files, from the first one on. Any other token stands for nothing, and
/// one of another version is refused.
pub proof fn other_tokens_stand_for_nothing(shell: ShellView, token: ClipboardToken)
    ensures
        token_session(shell, token) is Err <==> token.schema != 1,
        match token_session(shell, token) {
            Ok(Some(session)) => match shell.clipboard {
                Some(record) => {
                    &&& token.generation == record.generation
                    &&& token.operation == record.operation
                    &&& session.operation == record.operation
                    &&& session.sources == record.sources
                    &&& session.index == 0
                },
                None => false,
            },
            Ok(None) => match shell.clipboard {
                Some(record) => token.generation != record.generation || token.operation
                    != record.operation,
                None => true,
            },
            Err(_) => true,
        },
{
}

/// A list of files is accepted exactly where each line is the address of a local file with an
/// absolute path and there are not too many; then it comes to these paths, in their order.
pub proof fn lists_of_local_files_are_accepted(
    uris: Seq<Seq<char>>,
    resolved: Seq<Option<Seq<u8>>>,
)
    requires
        resolved.len() >= uris.len(),
    ensures
        listed_files(uris, resolved) is Ok <==> uris.len() <= 4096 && forall|at: int|
            0 <= at < uris.len() ==> begins_with(#[trigger] uris[at], "file://"@)
                && resolved[at] is Some && is_absolute_path(resolved[at]->0),
        match listed_files(uris, resolved) {
            Ok(paths) => paths.len() == uris.len() && forall|at: int|
                0 <= at < paths.len() ==> resolved[at] == Some(#[trigger] paths[at]),
            Err(_) => true,
        },
    decreases uris.len(),
{
    if uris.len() > 0 {
        let front = uris.drop_last();
        lists_of_local_files_are_accepted(front, resolved);
        assert(forall|at: int| 0 <= at < front.len() ==> front[at] == #[trigger] uris[at]);
        assert(uris[uris.len() - 1] == uris.last());
        match listed_files(front, resolved) {
            Ok(before) => {
                assert forall|at: int| 0 <= at < front.len() implies begins_with(
                    #[trigger] uris[at],
                    "file://"@,
                ) && resolved[at] is Some && is_absolute_path(resolved[at]->0) by {
                    assert(begins_with(front[at], "file://"@));
                }
                if let Ok(paths) = listed_files(uris, resolved) {
                    assert forall|at: int| 0 <= at < paths.len() implies resolved[at] == Some(
                        #[trigger] paths[at],
                    ) by {
                        if at < before.len() {
                            assert(paths[at] == before[at]);
                        }
                    }
                }
            },
            Err(_) => {
                if front.len() <= 4096 {
                    let at = choose|at: int|
                        0 <= at < front.len() && !(begins_with(#[trigger] front[at], "file://"@)
                            && resolved[at] is Some && is_absolute_path(resolved[at]->0));
                    assert(uris[at] == front[at]);
                }
            },
        }
    }
}

/// Of a list of files, every line that is neither blank nor a comment is taken, without the white
/// space around it, and nothing else.
pub proof fn every_line_that_names_a_file_is_taken(text: Seq<char>, at: int)
    ensures
        0 <= at < lines(text).len() && trimmed(lines(text)[at]).len() > 0 && trimmed(
            lines(text)[at],
        )[0] != '#' ==> uri_lines(text).contains(trimmed(lines(text)[at])),
        0 <= at < uri_lines(text).len() ==> uri_lines(text)[at].len() > 0 && uri_lines(text)[at][0]
            != '#' && exists|line: int|
            0 <= line < lines(text).len() && uri_lines(text)[at] == trimmed(
                #[trigger] lines(text)[line],
            ),
{
    let all = lines(text).map_values(|line: Seq<char>| trimmed(line));
    if 0 <= at < lines(text).len() && names_file()(trimmed(lines(text)[at])) {
        let found = crate::lists::kept_is_found(all, names_file(), at);
        assert(uri_lines(text)[found] == trimmed(lines(text)[at]));
    }
    if 0 <= at < uri_lines(text).len() {
        let line = crate::lists::kept_is_there(all, names_file(), at);
        assert(uri_lines(text)[at] == trimmed(lines(text)[line]));
    }
}

/// A text is its lines with line feeds between them, and no line holds one.
pub proof fn lines_make_up_the_text(text: Seq<char>)
    ensures
        lines_before(text).len() > 0,
        crate::text::joined_with(lines_before(text), "\n"@) == text,
        forall|at: int|
            0 <= at < lines_before(text).len() ==> !(#[trigger] lines_before(text)[at]).contains(
                '\n',
            ),
    decreases text.len(),
{
    reveal_strlit("\n");
    if text.len() == 0 {
        let all = lines_before(text);
        assert(all.drop_last() =~= seq![]);
        assert(crate::text::joined_with(all, "\n"@) =~= text);
    } else {
        let front = text.drop_last();
        lines_make_up_the_text(front);
        let before = lines_before(front);
        let all = lines_before(text);
        assert(text =~= front.push(text.last()));
        if text.last() == '\n' {
            assert(all.drop_last() =~= before);
            assert(crate::text::joined_with(all, "\n"@) =~= text);
        } else {
            let short = before.drop_last();
            assert(all.drop_last() =~= short);
            let last = before.last();
            assert(all.last() == last.push(text.last()));
            assert(crate::text::joined_with(all, "\n"@) =~= text);
            assert forall|at: int| 0 <= at < all.len() implies !(#[trigger] all[at]).contains(
                '\n',
            ) by {
                if at < short.len() {
                    assert(all[at] == before[at]);
                } else {
                    assert(!before[before.len() - 1].contains('\n'));
                    assert forall|place: int| 0 <= place < all[at].len() implies all[at][place]
                        != '\n' by {
                        if place < last.len() {
                            assert(last[place] == all[at][place]);
                            assert(last.contains(last[place]));
                        }
                    }
                }
            }
        }
    }
}

/// An entry of a directory is one of that directory, and of no other.
pub proof fn entries_lie_in_their_directory(directory: Seq<u8>, other: Seq<u8>, name: Seq<u8>)
    requires
        is_entry_name(name),
    ensures
        is_entry_of(joined(directory, name), directory),
        is_entry_of(joined(directory, name), other) <==> kept_components(directory)
            == kept_components(other) && is_absolute_path(directory) == is_absolute_path(other),
        !is_entry_of(directory, directory),
{
    entries_are_named_in_their_directory(directory, name);
    assert(kept_components(directory).push(name).drop_last() =~= kept_components(directory));
    if is_entry_of(directory, directory) {
        assert(kept_components(directory).drop_last().len() < kept_components(directory).len());
    }
}

} // verus!
