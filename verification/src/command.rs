//! The commands of the helper for shortcuts.

use vstd::prelude::*;
use vstd::string::*;
use crate::paths::byte_parts;
use crate::paths::{copy_bytes, from_utf8, is_absolute_path, same_bytes, FilePath};
use crate::store::{is_identifier, RegistrationId};
use crate::text::text_is;

verus! {

/// Why a command is not carried out.
#[derive(Debug, Clone, Copy, PartialEq, Eq, Structural)]
pub enum CommandError {
    /// There is no command.
    Usage,
    /// The command is not text.
    NotText,
    /// There is no such command.
    Unknown,
    /// The command takes no arguments.
    Unexpected,
    /// The command takes exactly one argument.
    ExactlyOne,
    /// An identifier is not text.
    IdNotText,
    /// An identifier is none.
    InvalidId,
    /// Linking takes an identifier, a path, and at most one option.
    RelinkUsage,
    /// Linking has no such option.
    RelinkOption,
    /// Renaming takes two names.
    RenameUsage,
    /// The path to open is not absolute.
    RelativePath,
    /// The path to open is a symbolic link.
    SymbolicLink,
}

/// A command that takes one path or name.
#[derive(Debug, Clone, Copy, PartialEq, Eq, Structural)]
pub enum PathCommand {
    Inspect,
    RegisterApplications,
    RegisterDesktop,
    RemoveApplicationsFor,
    RemoveDesktopFor,
    StatusFor,
    Open,
    DesktopNewFolder,
    DesktopDelete,
}

/// A command that takes one identifier.
#[derive(Debug, Clone, Copy, PartialEq, Eq, Structural)]
pub enum IdCommand {
    AddApplications,
    AddDesktop,
    RemoveApplications,
    RemoveDesktop,
    Launch,
    ChooseRelink,
    Reveal,
}

/// A command.
#[derive(Debug)]
pub enum HelperCommand {
    InstallThunarActions,
    List,
    DesktopList,
    WithPath { command: PathCommand, path: FilePath },
    WithId { command: IdCommand, id: RegistrationId },
    Relink { id: RegistrationId, path: FilePath, accepts: bool },
    DesktopRename { old_name: FilePath, new_name: FilePath },
}

/// What [`HelperCommand`] is a model of.
pub enum CommandView {
    InstallThunarActions,
    List,
    DesktopList,
    WithPath { command: PathCommand, path: Seq<u8> },
    WithId { command: IdCommand, id: Seq<char> },
    Relink { id: Seq<char>, path: Seq<u8>, accepts: bool },
    DesktopRename { old_name: Seq<u8>, new_name: Seq<u8> },
}

impl View for HelperCommand {
    type V = CommandView;

    open spec fn view(&self) -> CommandView {
        match self {
            HelperCommand::InstallThunarActions => CommandView::InstallThunarActions,
            HelperCommand::List => CommandView::List,
            HelperCommand::DesktopList => CommandView::DesktopList,
            HelperCommand::WithPath { command, path } => CommandView::WithPath {
                command: *command,
                path: path@,
            },
            HelperCommand::WithId { command, id } => CommandView::WithId {
                command: *command,
                id: id@,
            },
            HelperCommand::Relink { id, path, accepts } => CommandView::Relink {
                id: id@,
                path: path@,
                accepts: *accepts,
            },
            HelperCommand::DesktopRename { old_name, new_name } => CommandView::DesktopRename {
                old_name: old_name@,
                new_name: new_name@,
            },
        }
    }
}

/// The command of that name that takes one path or name.
pub open spec fn path_command(name: Seq<char>) -> Option<PathCommand> {
    if name == "inspect"@ {
        Some(PathCommand::Inspect)
    } else if name == "register-applications"@ {
        Some(PathCommand::RegisterApplications)
    } else if name == "register-desktop"@ {
        Some(PathCommand::RegisterDesktop)
    } else if name == "remove-applications-for"@ {
        Some(PathCommand::RemoveApplicationsFor)
    } else if name == "remove-desktop-for"@ {
        Some(PathCommand::RemoveDesktopFor)
    } else if name == "status-for"@ {
        Some(PathCommand::StatusFor)
    } else if name == "open"@ {
        Some(PathCommand::Open)
    } else if name == "desktop-new-folder"@ {
        Some(PathCommand::DesktopNewFolder)
    } else if name == "desktop-delete-after-confirmation"@ {
        Some(PathCommand::DesktopDelete)
    } else {
        None
    }
}

/// The command of that name that takes one identifier.
pub open spec fn id_command(name: Seq<char>) -> Option<IdCommand> {
    if name == "add-applications"@ {
        Some(IdCommand::AddApplications)
    } else if name == "add-desktop"@ {
        Some(IdCommand::AddDesktop)
    } else if name == "remove-applications"@ {
        Some(IdCommand::RemoveApplications)
    } else if name == "remove-desktop"@ {
        Some(IdCommand::RemoveDesktop)
    } else if name == "launch"@ {
        Some(IdCommand::Launch)
    } else if name == "choose-relink"@ {
        Some(IdCommand::ChooseRelink)
    } else if name == "reveal"@ {
        Some(IdCommand::Reveal)
    } else {
        None
    }
}

/// The command of that name that takes one path or name.
fn read_path_command(name: &String) -> (command: Option<PathCommand>)
    ensures
        command == path_command(name@),
{
    if text_is(name, "inspect") {
        Some(PathCommand::Inspect)
    } else if text_is(name, "register-applications") {
        Some(PathCommand::RegisterApplications)
    } else if text_is(name, "register-desktop") {
        Some(PathCommand::RegisterDesktop)
    } else if text_is(name, "remove-applications-for") {
        Some(PathCommand::RemoveApplicationsFor)
    } else if text_is(name, "remove-desktop-for") {
        Some(PathCommand::RemoveDesktopFor)
    } else if text_is(name, "status-for") {
        Some(PathCommand::StatusFor)
    } else if text_is(name, "open") {
        Some(PathCommand::Open)
    } else if text_is(name, "desktop-new-folder") {
        Some(PathCommand::DesktopNewFolder)
    } else if text_is(name, "desktop-delete-after-confirmation") {
        Some(PathCommand::DesktopDelete)
    } else {
        None
    }
}

/// The command of that name that takes one identifier.
fn read_id_command(name: &String) -> (command: Option<IdCommand>)
    ensures
        command == id_command(name@),
{
    if text_is(name, "add-applications") {
        Some(IdCommand::AddApplications)
    } else if text_is(name, "add-desktop") {
        Some(IdCommand::AddDesktop)
    } else if text_is(name, "remove-applications") {
        Some(IdCommand::RemoveApplications)
    } else if text_is(name, "remove-desktop") {
        Some(IdCommand::RemoveDesktop)
    } else if text_is(name, "launch") {
        Some(IdCommand::Launch)
    } else if text_is(name, "choose-relink") {
        Some(IdCommand::ChooseRelink)
    } else if text_is(name, "reveal") {
        Some(IdCommand::Reveal)
    } else {
        None
    }
}

/// The identifier that an argument is.
pub open spec fn id_of(argument: Seq<u8>) -> Result<Seq<char>, CommandError> {
    if !vstd::utf8::valid_utf8(argument) {
        Err(CommandError::IdNotText)
    } else if !is_identifier(vstd::utf8::decode_utf8(argument)) {
        Err(CommandError::InvalidId)
    } else {
        Ok(vstd::utf8::decode_utf8(argument))
    }
}

/// The identifier that an argument is.
pub fn parse_id(argument: &Vec<u8>) -> (id: Result<RegistrationId, CommandError>)
    ensures
        match (id, id_of(argument@)) {
            (Ok(id), Ok(expected)) => id@ == expected,
            (Err(error), Err(expected)) => error == expected,
            _ => false,
        },
{
    match from_utf8(argument.as_slice()) {
        Some(text) => match RegistrationId::parse(text.as_str()) {
            Some(id) => Ok(id),
            None => Err(CommandError::InvalidId),
        },
        None => Err(CommandError::IdNotText),
    }
}

/// The one path that the arguments are, as it was given.
pub fn exactly_one_path(arguments: &Vec<Vec<u8>>) -> (path: Result<FilePath, CommandError>)
    ensures
        match path {
            Ok(path) => arguments@.len() == 1 && path@ == arguments@[0]@,
            Err(error) => arguments@.len() != 1 && error == CommandError::ExactlyOne,
        },
{
    if arguments.len() != 1 {
        return Err(CommandError::ExactlyOne);
    }
    Ok(FilePath { bytes: copy_bytes(arguments[0].as_slice()) })
}

/// The linking that the arguments ask for.
pub open spec fn relink_of(arguments: Seq<Seq<u8>>) -> Result<CommandView, CommandError> {
    if arguments.len() < 2 || arguments.len() > 3 {
        Err(CommandError::RelinkUsage)
    } else {
        match id_of(arguments[0]) {
            Err(error) => Err(error),
            Ok(id) => if arguments.len() == 3 && arguments[2] != vstd::utf8::encode_utf8(
                "--accept-different-identity"@,
            ) {
                Err(CommandError::RelinkOption)
            } else {
                Ok(
                    CommandView::Relink {
                        id,
                        path: arguments[1],
                        accepts: arguments.len() == 3,
                    },
                )
            },
        }
    }
}

/// The linking that the arguments ask for.
fn read_relink(arguments: &Vec<Vec<u8>>) -> (command: Result<HelperCommand, CommandError>)
    ensures
        match (command, relink_of(byte_parts(arguments@))) {
            (Ok(command), Ok(expected)) => command@ == expected,
            (Err(error), Err(expected)) => error == expected,
            _ => false,
        },
{
    let ghost views = byte_parts(arguments@);
    assert(views.len() == arguments@.len());
    if arguments.len() < 2 || arguments.len() > 3 {
        return Err(CommandError::RelinkUsage);
    }
    assert(views[0] == arguments@[0]@ && views[1] == arguments@[1]@);
    let id = match parse_id(&arguments[0]) {
        Ok(id) => id,
        Err(error) => {
            return Err(error);
        },
    };
    let accepts = arguments.len() == 3;
    if accepts {
        assert(views[2] == arguments@[2]@);
        if !same_bytes(arguments[2].as_slice(), "--accept-different-identity".as_bytes()) {
            return Err(CommandError::RelinkOption);
        }
    }
    let path = FilePath { bytes: copy_bytes(arguments[1].as_slice()) };
    Ok(HelperCommand::Relink { id, path, accepts })
}

/// The command of that name with those arguments.
pub open spec fn named_command(name: Seq<char>, arguments: Seq<Seq<u8>>) -> Result<
    CommandView,
    CommandError,
> {
    if name == "install-thunar-actions"@ {
        if arguments.len() > 0 {
            Err(CommandError::Unexpected)
        } else {
            Ok(CommandView::InstallThunarActions)
        }
    } else if path_command(name) is Some {
        if arguments.len() != 1 {
            Err(CommandError::ExactlyOne)
        } else {
            Ok(CommandView::WithPath { command: path_command(name)->0, path: arguments[0] })
        }
    } else if id_command(name) is Some {
        if arguments.len() != 1 {
            Err(CommandError::ExactlyOne)
        } else {
            match id_of(arguments[0]) {
                Ok(id) => Ok(CommandView::WithId { command: id_command(name)->0, id }),
                Err(error) => Err(error),
            }
        }
    } else if name == "list"@ {
        Ok(CommandView::List)
    } else if name == "relink"@ {
        relink_of(arguments)
    } else if name == "desktop-list"@ {
        if arguments.len() > 0 {
            Err(CommandError::Unexpected)
        } else {
            Ok(CommandView::DesktopList)
        }
    } else if name == "desktop-rename"@ {
        if arguments.len() != 2 {
            Err(CommandError::RenameUsage)
        } else {
            Ok(CommandView::DesktopRename { old_name: arguments[0], new_name: arguments[1] })
        }
    } else {
        Err(CommandError::Unknown)
    }
}

/// The command that the words of a command line are.
pub open spec fn command_of(words: Seq<Seq<u8>>) -> Result<CommandView, CommandError> {
    if words.len() == 0 {
        Err(CommandError::Usage)
    } else if !vstd::utf8::valid_utf8(words[0]) {
        Err(CommandError::NotText)
    } else {
        named_command(vstd::utf8::decode_utf8(words[0]), words.skip(1))
    }
}

/// The command of that name with those arguments.
fn read_command(name: &String, arguments: &Vec<Vec<u8>>) -> (command: Result<
    HelperCommand,
    CommandError,
>)
    ensures
        match (command, named_command(name@, byte_parts(arguments@))) {
            (Ok(command), Ok(expected)) => command@ == expected,
            (Err(error), Err(expected)) => error == expected,
            _ => false,
        },
{
    let ghost views = byte_parts(arguments@);
    let count: usize = arguments.len();
    assert(views.len() == count);
    assert(forall|at: int| 0 <= at < count ==> views[at] == (#[trigger] arguments@[at])@);
    if text_is(name, "install-thunar-actions") {
        if count > 0 {
            return Err(CommandError::Unexpected);
        }
        return Ok(HelperCommand::InstallThunarActions);
    }
    match read_path_command(name) {
        Some(command) => {
            return match exactly_one_path(arguments) {
                Ok(path) => Ok(HelperCommand::WithPath { command, path }),
                Err(error) => Err(error),
            };
        },
        None => {},
    }
    match read_id_command(name) {
        Some(command) => {
            if count != 1 {
                return Err(CommandError::ExactlyOne);
            }
            return match parse_id(&arguments[0]) {
                Ok(id) => Ok(HelperCommand::WithId { command, id }),
                Err(error) => Err(error),
            };
        },
        None => {},
    }
    if text_is(name, "list") {
        return Ok(HelperCommand::List);
    }
    if text_is(name, "relink") {
        return read_relink(arguments);
    }
    if text_is(name, "desktop-list") {
        if count > 0 {
            return Err(CommandError::Unexpected);
        }
        return Ok(HelperCommand::DesktopList);
    }
    if text_is(name, "desktop-rename") {
        if count != 2 {
            return Err(CommandError::RenameUsage);
        }
        let old_name = FilePath { bytes: copy_bytes(arguments[0].as_slice()) };
        let new_name = FilePath { bytes: copy_bytes(arguments[1].as_slice()) };
        return Ok(HelperCommand::DesktopRename { old_name, new_name });
    }
    Err(CommandError::Unknown)
}

/// The command that the words of a command line are.
pub fn parse_command(words: &Vec<Vec<u8>>) -> (command: Result<HelperCommand, CommandError>)
    ensures
        match (command, command_of(byte_parts(words@))) {
            (Ok(command), Ok(expected)) => command@ == expected,
            (Err(error), Err(expected)) => error == expected,
            _ => false,
        },
{
    let ghost views = byte_parts(words@);
    assert(views.len() == words@.len());
    if words.len() == 0 {
        return Err(CommandError::Usage);
    }
    assert(views[0] == words@[0]@);
    let name = match from_utf8(words[0].as_slice()) {
        Some(name) => name,
        None => {
            return Err(CommandError::NotText);
        },
    };
    let mut arguments: Vec<Vec<u8>> = Vec::new();
    let mut at: usize = 1;
    assert(byte_parts(arguments@) =~= views.skip(1).take(0));
    while at < words.len()
        invariant
            1 <= at <= words.len(),
            views == byte_parts(words@),
            byte_parts(arguments@) == views.skip(1).take(at - 1),
        decreases words.len() - at,
    {
        let copy = copy_bytes(words[at].as_slice());
        let ghost before = byte_parts(arguments@);
        let ghost shown = copy@;
        assert(views.skip(1)[at - 1] == shown);
        arguments.push(copy);
        assert(byte_parts(arguments@) =~= before.push(shown));
        assert(before.push(shown) =~= views.skip(1).take(at as int));
        at = at + 1;
    }
    assert(views.skip(1).take(at - 1) =~= views.skip(1));
    read_command(&name, &arguments)
}

/// A path is handed on byte for byte, whatever it holds.
pub proof fn paths_are_never_interpreted(command: Seq<u8>, path: Seq<u8>)
    requires
        vstd::utf8::valid_utf8(command),
        path_command(vstd::utf8::decode_utf8(command)) is Some,
    ensures
        command_of(seq![command, path]) == Ok::<CommandView, CommandError>(
            CommandView::WithPath {
                command: path_command(vstd::utf8::decode_utf8(command))->0,
                path,
            },
        ),
{
    let words = seq![command, path];
    assert(words.skip(1) =~= seq![path]);
    reveal_strlit("install-thunar-actions");
    assert("install-thunar-actions"@.len() == 22);
    reveal_strlit("inspect");
    assert("inspect"@.len() == 7);
    reveal_strlit("register-applications");
    assert("register-applications"@.len() == 21);
    reveal_strlit("register-desktop");
    assert("register-desktop"@.len() == 16);
    reveal_strlit("remove-applications-for");
    assert("remove-applications-for"@.len() == 23);
    reveal_strlit("remove-desktop-for");
    assert("remove-desktop-for"@.len() == 18);
    reveal_strlit("status-for");
    assert("status-for"@.len() == 10);
    reveal_strlit("open");
    assert("open"@.len() == 4);
    reveal_strlit("desktop-new-folder");
    assert("desktop-new-folder"@.len() == 18);
    reveal_strlit("desktop-delete-after-confirmation");
    assert("desktop-delete-after-confirmation"@.len() == 33);
}

/// Refuses to open a path that is not absolute or a symbolic link.
pub fn validate_open(path: &FilePath, link: bool) -> (valid: Result<(), CommandError>)
    ensures
        valid == if !is_absolute_path(path@) {
            Err::<(), CommandError>(CommandError::RelativePath)
        } else if link {
            Err(CommandError::SymbolicLink)
        } else {
            Ok(())
        },
        valid == open_verdict(path@, link),
{
    if !path.is_absolute() {
        return Err(CommandError::RelativePath);
    }
    if link {
        return Err(CommandError::SymbolicLink);
    }
    Ok(())
}

/// Whether a path may be opened, or why not.
pub open spec fn open_verdict(path: Seq<u8>, link: bool) -> Result<(), CommandError> {
    if !is_absolute_path(path) {
        Err(CommandError::RelativePath)
    } else if link {
        Err(CommandError::SymbolicLink)
    } else {
        Ok(())
    }
}

/// A path is opened only where it begins at the root and is no link.
pub proof fn only_real_paths_are_opened(path: Seq<u8>, link: bool)
    ensures
        open_verdict(path, link) is Ok <==> path.len() > 0 && path[0] == '/' as u8 && !link,
        !(path.len() > 0 && path[0] == '/' as u8) ==> open_verdict(path, link) == Err::<
            (),
            CommandError,
        >(CommandError::RelativePath),
{
}

/// A command line of a name and one argument.
spec fn line_of(name: Seq<char>, argument: Seq<u8>) -> Seq<Seq<u8>> {
    seq![vstd::utf8::encode_utf8(name), argument]
}

/// A command line is read by the name that it begins with.
proof fn lines_are_read_by_name(name: Seq<char>, argument: Seq<u8>)
    ensures
        command_of(line_of(name, argument)) == named_command(name, seq![argument]),
        command_of(seq![vstd::utf8::encode_utf8(name)]) == named_command(name, seq![]),
{
    broadcast use vstd::utf8::encode_utf8_valid_utf8, vstd::utf8::encode_utf8_decode_utf8;

    assert(line_of(name, argument).skip(1) =~= seq![argument]);
    assert(seq![vstd::utf8::encode_utf8(name)].skip(1) =~= seq![]);
}

/// Each command that takes a path does what it is named for, whatever the path.
pub proof fn commands_with_a_path_are_named(path: Seq<u8>)
    ensures
        forall|command: PathCommand|
            command_of(
                seq![vstd::utf8::encode_utf8(#[trigger] path_command_name(command)), path],
            ) == Ok::<CommandView, CommandError>(CommandView::WithPath { command, path }),
{
    reveal_strlit("install-thunar-actions");
    reveal_strlit("inspect");
    reveal_strlit("register-applications");
    reveal_strlit("register-desktop");
    reveal_strlit("remove-applications-for");
    reveal_strlit("remove-desktop-for");
    reveal_strlit("status-for");
    reveal_strlit("open");
    reveal_strlit("desktop-new-folder");
    reveal_strlit("desktop-delete-after-confirmation");
    assert("remove-desktop-for"@[0] == 'r' && "desktop-new-folder"@[0] == 'd');
    assert forall|command: PathCommand|
        command_of(
            seq![vstd::utf8::encode_utf8(#[trigger] path_command_name(command)), path],
        ) == Ok::<CommandView, CommandError>(CommandView::WithPath { command, path }) by {
        let name = path_command_name(command);
        lines_are_read_by_name(name, path);
        assert(name != "install-thunar-actions"@);
        assert(path_command(name) == Some(command));
    }
}

/// The name of a command that takes a path.
pub open spec fn path_command_name(command: PathCommand) -> Seq<char> {
    match command {
        PathCommand::Inspect => "inspect"@,
        PathCommand::RegisterApplications => "register-applications"@,
        PathCommand::RegisterDesktop => "register-desktop"@,
        PathCommand::RemoveApplicationsFor => "remove-applications-for"@,
        PathCommand::RemoveDesktopFor => "remove-desktop-for"@,
        PathCommand::StatusFor => "status-for"@,
        PathCommand::Open => "open"@,
        PathCommand::DesktopNewFolder => "desktop-new-folder"@,
        PathCommand::DesktopDelete => "desktop-delete-after-confirmation"@,
    }
}

/// The name of a command that takes an identifier.
pub open spec fn id_command_name(command: IdCommand) -> Seq<char> {
    match command {
        IdCommand::AddApplications => "add-applications"@,
        IdCommand::AddDesktop => "add-desktop"@,
        IdCommand::RemoveApplications => "remove-applications"@,
        IdCommand::RemoveDesktop => "remove-desktop"@,
        IdCommand::Launch => "launch"@,
        IdCommand::ChooseRelink => "choose-relink"@,
        IdCommand::Reveal => "reveal"@,
    }
}

/// Each command that takes an identifier does what it is named for, with that identifier, and refuses
/// an argument that is none.
pub proof fn commands_with_an_identifier_are_named(argument: Seq<char>)
    ensures
        forall|command: IdCommand|
            command_of(
                seq![
                    vstd::utf8::encode_utf8(#[trigger] id_command_name(command)),
                    vstd::utf8::encode_utf8(argument),
                ],
            ) == (if is_identifier(argument) {
                Ok::<CommandView, CommandError>(CommandView::WithId { command, id: argument })
            } else {
                Err(CommandError::InvalidId)
            }),
{
    broadcast use vstd::utf8::encode_utf8_valid_utf8, vstd::utf8::encode_utf8_decode_utf8;

    reveal_strlit("install-thunar-actions");
    reveal_strlit("inspect");
    reveal_strlit("register-applications");
    reveal_strlit("register-desktop");
    reveal_strlit("remove-applications-for");
    reveal_strlit("remove-desktop-for");
    reveal_strlit("status-for");
    reveal_strlit("open");
    reveal_strlit("desktop-new-folder");
    reveal_strlit("desktop-delete-after-confirmation");
    reveal_strlit("add-applications");
    reveal_strlit("add-desktop");
    reveal_strlit("remove-applications");
    reveal_strlit("remove-desktop");
    reveal_strlit("launch");
    reveal_strlit("choose-relink");
    reveal_strlit("reveal");
    assert("register-desktop"@[0] == 'r' && "add-applications"@[0] == 'a');
    assert("launch"@[0] == 'l' && "reveal"@[0] == 'r');
    assert forall|command: IdCommand|
        command_of(
            seq![
                vstd::utf8::encode_utf8(#[trigger] id_command_name(command)),
                vstd::utf8::encode_utf8(argument),
            ],
        ) == (if is_identifier(argument) {
            Ok::<CommandView, CommandError>(CommandView::WithId { command, id: argument })
        } else {
            Err(CommandError::InvalidId)
        }) by {
        let name = id_command_name(command);
        lines_are_read_by_name(name, vstd::utf8::encode_utf8(argument));
        assert(name != "install-thunar-actions"@);
        assert(path_command(name) is None);
        assert(id_command(name) == Some(command));
        assert(seq![vstd::utf8::encode_utf8(argument)][0] == vstd::utf8::encode_utf8(argument));
    }
}

/// The lengths of the names of commands, by which most are told apart, and what tells the others apart.
proof fn names_are_told_apart()
    ensures
        "install-thunar-actions"@.len() == 22,
        "inspect"@.len() == 7,
        "register-applications"@.len() == 21,
        "register-desktop"@.len() == 16,
        "remove-applications-for"@.len() == 23,
        "remove-desktop-for"@.len() == 18,
        "status-for"@.len() == 10,
        "open"@.len() == 4,
        "desktop-new-folder"@.len() == 18,
        "desktop-delete-after-confirmation"@.len() == 33,
        "add-applications"@.len() == 16,
        "add-desktop"@.len() == 11,
        "remove-applications"@.len() == 19,
        "remove-desktop"@.len() == 14,
        "launch"@.len() == 6,
        "choose-relink"@.len() == 13,
        "reveal"@.len() == 6,
        "relink"@.len() == 6,
        "list"@.len() == 4,
        "desktop-list"@.len() == 12,
        "desktop-rename"@.len() == 14,
        "desktop-rename"@[0] == 'd',
        "remove-desktop"@[0] == 'r',
        "launch"@[0] == 'l',
        "reveal"@[0] == 'r',
        "relink"@[0] == 'r',
        "open"@[0] == 'o',
        "list"@[0] == 'l',
        "reveal"@[2] == 'v',
        "relink"@[2] == 'l',
{
    reveal_strlit("install-thunar-actions");
    reveal_strlit("inspect");
    reveal_strlit("register-applications");
    reveal_strlit("register-desktop");
    reveal_strlit("remove-applications-for");
    reveal_strlit("remove-desktop-for");
    reveal_strlit("status-for");
    reveal_strlit("open");
    reveal_strlit("desktop-new-folder");
    reveal_strlit("desktop-delete-after-confirmation");
    reveal_strlit("add-applications");
    reveal_strlit("add-desktop");
    reveal_strlit("remove-applications");
    reveal_strlit("remove-desktop");
    reveal_strlit("launch");
    reveal_strlit("choose-relink");
    reveal_strlit("reveal");
    reveal_strlit("relink");
    reveal_strlit("list");
    reveal_strlit("desktop-list");
    reveal_strlit("desktop-rename");
}

/// Linking takes the identifier first and the path after it, byte for byte, and accepts another
/// application only where the option for that follows. Renaming takes the old name first.
pub proof fn arguments_are_taken_in_order(id: Seq<char>, path: Seq<u8>, other: Seq<u8>)
    requires
        is_identifier(id),
    ensures
        relink_of(seq![vstd::utf8::encode_utf8(id), path]) == Ok::<CommandView, CommandError>(
            CommandView::Relink { id, path, accepts: false },
        ),
        relink_of(
            seq![
                vstd::utf8::encode_utf8(id),
                path,
                vstd::utf8::encode_utf8("--accept-different-identity"@),
            ],
        ) == Ok::<CommandView, CommandError>(CommandView::Relink { id, path, accepts: true }),
        other != vstd::utf8::encode_utf8("--accept-different-identity"@) ==> relink_of(
            seq![vstd::utf8::encode_utf8(id), path, other],
        ) == Err::<CommandView, CommandError>(CommandError::RelinkOption),
        named_command("desktop-rename"@, seq![path, other]) == Ok::<CommandView, CommandError>(
            CommandView::DesktopRename { old_name: path, new_name: other },
        ),
        named_command("relink"@, seq![vstd::utf8::encode_utf8(id), path]) == relink_of(
            seq![vstd::utf8::encode_utf8(id), path],
        ),
{
    broadcast use vstd::utf8::encode_utf8_valid_utf8, vstd::utf8::encode_utf8_decode_utf8;

    names_are_told_apart();
}

/// Listing takes what it needs from its name alone, and a command line without a command, or with one
/// that is not known, is refused.
pub proof fn other_command_lines_are_read(name: Seq<char>, arguments: Seq<Seq<u8>>)
    ensures
        command_of(seq![]) == Err::<CommandView, CommandError>(CommandError::Usage),
        named_command("list"@, arguments) == Ok::<CommandView, CommandError>(CommandView::List),
        named_command("desktop-list"@, seq![]) == Ok::<CommandView, CommandError>(
            CommandView::DesktopList,
        ),
        named_command("install-thunar-actions"@, seq![]) == Ok::<CommandView, CommandError>(
            CommandView::InstallThunarActions,
        ),
        arguments.len() > 0 ==> !(named_command("desktop-list"@, arguments) is Ok)
            && !(named_command("install-thunar-actions"@, arguments) is Ok),
        (forall|command: PathCommand| #[trigger] path_command_name(command) != name) && (forall|
            command: IdCommand,
        | #[trigger] id_command_name(command) != name) && name != "list"@ && name
            != "desktop-list"@ && name != "install-thunar-actions"@ && name != "relink"@ && name
            != "desktop-rename"@ ==> named_command(name, arguments) == Err::<
            CommandView,
            CommandError,
        >(CommandError::Unknown),
{
    if let Some(command) = path_command(name) {
        assert(path_command_name(command) == name);
    }
    if let Some(command) = id_command(name) {
        assert(id_command_name(command) == name);
    }
    names_are_told_apart();
}

/// A command that is given too few or too many arguments is refused, and so is an argument that is no
/// identifier where one is needed.
pub proof fn arguments_are_counted(arguments: Seq<Seq<u8>>)
    ensures
        arguments.len() < 2 ==> relink_of(arguments) == Err::<CommandView, CommandError>(
            CommandError::RelinkUsage,
        ),
        arguments.len() > 3 ==> relink_of(arguments) == Err::<CommandView, CommandError>(
            CommandError::RelinkUsage,
        ),
        2 <= arguments.len() <= 3 && !vstd::utf8::valid_utf8(arguments[0]) ==> relink_of(arguments)
            == Err::<CommandView, CommandError>(CommandError::IdNotText),
        arguments.len() != 2 ==> named_command("desktop-rename"@, arguments) == Err::<
            CommandView,
            CommandError,
        >(CommandError::RenameUsage),
        arguments.len() != 1 ==> named_command("open"@, arguments) == Err::<
            CommandView,
            CommandError,
        >(CommandError::ExactlyOne),
        arguments.len() != 1 ==> named_command("launch"@, arguments) == Err::<
            CommandView,
            CommandError,
        >(CommandError::ExactlyOne),
{
    names_are_told_apart();
}

} // verus!
