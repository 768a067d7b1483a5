//! AppImages that were extracted beside their source, and how they are launched.

use vstd::prelude::*;
use vstd::string::*;
use crate::inspector::{insert_sorted, is_desktop_entry, sorted_paths};
use crate::paths::{all_components, copy_bytes, same_bytes, FilePath};
use crate::paths::{byte_parts, path_components, path_views};
use crate::text::{begins_with, part_views, split_on, text_views};
use crate::text::{characters, rest_of, split_chars, starts_with, text_is, text_of};

verus! {

/// How large the description of an application may be.
pub const MAX_DESKTOP_BYTES: u64 = 1048576;

/// The path that an AppImage is extracted to.
pub fn extracted_path(source: &FilePath) -> (path: FilePath)
    ensures
        path@ == source@ + vstd::utf8::encode_utf8(".extracted"@),
        path@ == extracted_of(source@),
{
    let suffix = ".extracted".as_bytes();
    let mut bytes: Vec<u8> = copy_bytes(source.bytes.as_slice());
    let ghost before = bytes@;
    let mut at: usize = 0;
    while at < suffix.len()
        invariant
            at <= suffix.len(),
            bytes@ == before + suffix@.take(at as int),
        decreases suffix.len() - at,
    {
        bytes.push(suffix[at]);
        assert(bytes@ =~= before + suffix@.take(at + 1));
        at = at + 1;
    }
    assert(suffix@.take(at as int) =~= suffix@);
    FilePath { bytes }
}

/// What is known of a file.
#[derive(Debug, Clone, Copy, PartialEq, Eq, Structural)]
pub struct FileFacts {
    /// Whether it is a regular file.
    pub regular: bool,
    /// Whether it is a directory.
    pub directory: bool,
    /// Whether it is a symbolic link.
    pub link: bool,
    /// Whether it belongs to the user.
    pub owned: bool,
    /// Its permissions.
    pub mode: u32,
    /// How many bytes it has.
    pub length: u64,
}

/// Why an extracted AppImage is not launched.
#[derive(Debug, Clone, Copy, PartialEq, Eq, Structural)]
pub enum ExtractionError {
    /// A directory is not a real one.
    NotADirectory,
    /// A directory belongs to somebody else.
    ForeignDirectory,
    /// The program is outside of the extracted directory.
    Escapes,
    /// The program is not a regular file.
    NotAFile,
    /// The program belongs to somebody else.
    ForeignFile,
    /// The mark that approves to run without a sandbox is not one.
    UnsafeMarker,
}

/// Refuses a directory that is not a real one of the user.
pub fn validate_owned_directory(facts: &FileFacts) -> (valid: Result<(), ExtractionError>)
    ensures
        valid == if !facts.directory || facts.link {
            Err::<(), ExtractionError>(ExtractionError::NotADirectory)
        } else if !facts.owned {
            Err(ExtractionError::ForeignDirectory)
        } else {
            Ok(())
        },
        valid == directory_verdict(*facts),
{
    if !facts.directory || facts.link {
        return Err(ExtractionError::NotADirectory);
    }
    if !facts.owned {
        return Err(ExtractionError::ForeignDirectory);
    }
    Ok(())
}

/// Whether a path is `directory` or lies below it.
pub open spec fn is_below(path: Seq<u8>, directory: Seq<u8>) -> bool {
    begins_with(path_components(path), path_components(directory))
}

/// Whether a path is `directory` or lies below it.
fn lies_below(path: &FilePath, directory: &FilePath) -> (below: bool)
    ensures
        below == is_below(path@, directory@),
{
    let own = all_components(path);
    let other = all_components(directory);
    let ghost one = byte_parts(own@);
    let ghost two = byte_parts(other@);
    assert(one.len() == own@.len() && two.len() == other@.len());
    if own.len() < other.len() {
        return false;
    }
    let mut at: usize = 0;
    while at < other.len()
        invariant
            at <= other.len() <= own.len(),
            one == byte_parts(own@),
            two == byte_parts(other@),
            one == path_components(path@),
            two == path_components(directory@),
            one.len() == own@.len(),
            two.len() == other@.len(),
            one.take(at as int) == two.take(at as int),
        decreases other.len() - at,
    {
        assert(one[at as int] == own@[at as int]@);
        assert(two[at as int] == other@[at as int]@);
        if !same_bytes(own[at].as_slice(), other[at].as_slice()) {
            assert(one.take(two.len() as int)[at as int] != two[at as int]);
            return false;
        }
        assert(one.take(at + 1) =~= one.take(at as int).push(one[at as int]));
        assert(two.take(at + 1) =~= two.take(at as int).push(two[at as int]));
        at = at + 1;
    }
    assert(two.take(at as int) =~= two);
    true
}

/// Refuses the program of an extracted AppImage that is not a file of the user in its directory;
/// the permissions that it is to get, where it may not be run yet.
pub fn validate_apprun(resolved: &FilePath, directory: &FilePath, facts: &FileFacts) -> (mode:
    Result<Option<u32>, ExtractionError>)
    ensures
        mode == if !is_below(resolved@, directory@) {
            Err::<Option<u32>, ExtractionError>(ExtractionError::Escapes)
        } else if !facts.regular {
            Err(ExtractionError::NotAFile)
        } else if !facts.owned {
            Err(ExtractionError::ForeignFile)
        } else if facts.mode & 64 == 0 {
            Ok(Some(facts.mode | 64))
        } else {
            Ok(None)
        },
        mode == program_mode(resolved@, directory@, *facts),
{
    if !lies_below(resolved, directory) {
        return Err(ExtractionError::Escapes);
    }
    if !facts.regular {
        return Err(ExtractionError::NotAFile);
    }
    if !facts.owned {
        return Err(ExtractionError::ForeignFile);
    }
    if facts.mode & 64 == 0 {
        return Ok(Some(facts.mode | 64));
    }
    Ok(None)
}

/// Whether a file is the mark that approves to run without a sandbox: an empty, private file of the
/// user.
pub open spec fn is_marker(facts: FileFacts) -> bool {
    facts.regular && !facts.link && facts.owned && facts.mode & 511 == 384 && facts.length == 0
}

/// Whether running without a sandbox was approved, by what is known of the mark.
pub fn no_sandbox_approved(marker: &Option<FileFacts>) -> (approved: bool)
    ensures
        approved == match *marker {
            Some(facts) => is_marker(facts),
            None => false,
        },
        approved == is_approved(*marker),
{
    match marker {
        Some(facts) => facts.regular && !facts.link && facts.owned && facts.mode & 511 == 384
            && facts.length == 0,
        None => false,
    }
}

/// Refuses a mark that was there before and is not one.
pub fn ensure_no_sandbox_marker(existing: &Option<FileFacts>) -> (valid: Result<
    (),
    ExtractionError,
>)
    ensures
        valid == match *existing {
            Some(facts) => if is_marker(facts) {
                Ok::<(), ExtractionError>(())
            } else {
                Err(ExtractionError::UnsafeMarker)
            },
            None => Ok(()),
        },
        valid is Ok <==> existing is None || is_approved(*existing),
{
    if existing.is_some() && !no_sandbox_approved(existing) {
        return Err(ExtractionError::UnsafeMarker);
    }
    Ok(())
}

/// How an AppImage is launched.
#[derive(Debug, Clone, Copy, PartialEq, Eq, Structural)]
pub enum LaunchRoute {
    /// From the directory that it was extracted to.
    Extracted,
    /// As it is.
    Direct,
    /// It is extracted first.
    Extract,
}

/// How an AppImage is launched: `extracted` says whether there is something at its path for that,
/// `extracts` whether it is to be extracted.
pub fn launch_route(extracted: bool, extracts: bool) -> (route: LaunchRoute)
    ensures
        route == if extracted {
            LaunchRoute::Extracted
        } else if extracts {
            LaunchRoute::Extract
        } else {
            LaunchRoute::Direct
        },
        route == route_of(extracted, extracts),
{
    if extracted {
        LaunchRoute::Extracted
    } else if extracts {
        LaunchRoute::Extract
    } else {
        LaunchRoute::Direct
    }
}

/// The name of a directory to extract into, made from the name of the one that it will be.
pub fn temporary_name(stem: &Vec<u8>, process: u32, nonce: u64, attempt: u32) -> (name: Vec<u8>)
    ensures
        name@ == seq![46u8] + stem@ + vstd::utf8::encode_utf8(
            ".tmp-"@ + crate::text::decimal(process as nat) + "-"@ + crate::text::decimal(
                nonce as nat,
            ) + "-"@ + crate::text::decimal(attempt as nat),
        ),
        name@ == temporary_name_of(stem@, process, nonce, attempt),
{
    let mut text = crate::text::join(".tmp-", crate::text::decimal_text(process as u64).as_str());
    text = crate::text::join(text.as_str(), "-");
    text = crate::text::join(text.as_str(), crate::text::decimal_text(nonce).as_str());
    text = crate::text::join(text.as_str(), "-");
    text = crate::text::join(text.as_str(), crate::text::decimal_text(attempt as u64).as_str());
    let suffix = text.as_str().as_bytes();
    let mut name: Vec<u8> = Vec::new();
    name.push(46);
    let mut at: usize = 0;
    while at < stem.len()
        invariant
            at <= stem.len(),
            name@ == seq![46u8] + stem@.take(at as int),
        decreases stem.len() - at,
    {
        name.push(stem[at]);
        assert(name@ =~= seq![46u8] + stem@.take(at + 1));
        at = at + 1;
    }
    assert(stem@.take(at as int) =~= stem@);
    let ghost front = name@;
    let mut place: usize = 0;
    while place < suffix.len()
        invariant
            place <= suffix.len(),
            name@ == front + suffix@.take(place as int),
        decreases suffix.len() - place,
    {
        name.push(suffix[place]);
        assert(name@ =~= front + suffix@.take(place + 1));
        place = place + 1;
    }
    assert(suffix@.take(place as int) =~= suffix@);
    name
}

/// A text in which each pair of percent signs, from the front on, is replaced.
pub open spec fn pairs_replaced(text: Seq<char>, put: Seq<char>) -> Seq<char>
    decreases text.len(),
{
    if text.len() < 2 {
        text
    } else if text[0] == '%' && text[1] == '%' {
        put + pairs_replaced(text.skip(2), put)
    } else {
        seq![text[0]] + pairs_replaced(text.skip(1), put)
    }
}

/// A text in which each pair of percent signs is replaced by one, or by nothing.
fn replace_pairs(text: &str, keep_one: bool) -> (replaced: Vec<char>)
    ensures
        replaced@ == pairs_replaced(
            text@,
            if keep_one {
                seq!['%']
            } else {
                seq![]
            },
        ),
{
    let ghost put = if keep_one {
        seq!['%']
    } else {
        seq![]
    };
    let chars = characters(text);
    let mut replaced: Vec<char> = Vec::new();
    let mut at: usize = 0;
    assert(text@.skip(0) =~= text@);
    assert(replaced@ + pairs_replaced(text@.skip(0), put) =~= pairs_replaced(text@, put));
    while at < chars.len()
        invariant
            at <= chars.len(),
            chars@ == text@,
            put == (if keep_one {
                seq!['%']
            } else {
                seq![]
            }),
            replaced@ + pairs_replaced(text@.skip(at as int), put) == pairs_replaced(text@, put),
        decreases chars.len() - at,
    {
        let ghost before = replaced@;
        let ghost rest = text@.skip(at as int);
        if chars.len() - at >= 2 && chars[at] == '%' && chars[at + 1] == '%' {
            assert(rest[0] == '%' && rest[1] == '%');
            assert(rest.skip(2) =~= text@.skip(at + 2));
            if keep_one {
                replaced.push('%');
            }
            assert(replaced@ + pairs_replaced(text@.skip(at + 2), put) =~= before + (put
                + pairs_replaced(text@.skip(at + 2), put)));
            at = at + 2;
        } else {
            replaced.push(chars[at]);
            assert(rest[0] == chars@[at as int]);
            assert(rest.len() >= 2 ==> rest[1] == chars@[at + 1]);
            assert(rest.skip(1) =~= text@.skip(at + 1));
            proof {
                if rest.len() < 2 {
                    assert(text@.skip(at + 1) =~= seq![]);
                    assert(replaced@ + pairs_replaced(text@.skip(at + 1), put) =~= before + rest);
                } else {
                    assert(replaced@ + pairs_replaced(text@.skip(at + 1), put) =~= before + (
                    seq![rest[0]] + pairs_replaced(text@.skip(at + 1), put)));
                }
            }
            at = at + 1;
        }
    }
    assert(text@.skip(at as int) =~= seq![]);
    assert(replaced@ + Seq::<char>::empty() =~= replaced@);
    replaced
}

/// Whether a character is a letter of the alphabet.
pub open spec fn is_ascii_letter(character: char) -> bool {
    'a' <= character <= 'z' || 'A' <= character <= 'Z'
}

/// Whether an argument holds a field code: a percent sign before a letter, pairs of percent signs
/// set aside.
pub open spec fn is_field_code(argument: Seq<char>) -> bool {
    let text = pairs_replaced(argument, seq![]);
    exists|at: int|
        0 <= at < text.len() - 1 && #[trigger] text[at] == '%' && is_ascii_letter(text[at + 1])
}

/// Whether an argument holds a field code.
pub fn has_desktop_field_code(argument: &str) -> (found: bool)
    ensures
        found == is_field_code(argument@),
{
    let text = replace_pairs(argument, false);
    let mut at: usize = 0;
    while at < text.len() && text.len() - at >= 2
        invariant
            at <= text.len(),
            text@ == pairs_replaced(argument@, seq![]),
            forall|earlier: int|
                0 <= earlier < at && earlier < text@.len() - 1 ==> !(#[trigger] text@[earlier] == '%'
                    && is_ascii_letter(text@[earlier + 1])),
        decreases text.len() - at,
    {
        let next = text[at + 1];
        if text[at] == '%' && (('a' <= next && next <= 'z') || ('A' <= next && next <= 'Z')) {
            assert(text@[at as int] == '%');
            return true;
        }
        at = at + 1;
    }
    false
}

/// The lines of a text; a line that is ended may be ended by a carriage return and a line feed.
pub open spec fn lines_of(text: Seq<char>) -> Seq<Seq<char>> {
    let parts = split_on(text, '\n');
    Seq::new(
        parts.len(),
        |at: int|
            if at + 1 < parts.len() && parts[at].len() > 0 && parts[at].last() == '\r' {
                parts[at].drop_last()
            } else {
                parts[at]
            },
    )
}

/// The command that the first line for it gives.
pub open spec fn command_line(lines: Seq<Seq<char>>) -> Option<Seq<char>>
    decreases lines.len(),
{
    if lines.len() == 0 {
        None
    } else if begins_with(lines[0], "Exec="@) {
        Some(lines[0].skip("Exec="@.len() as int))
    } else {
        command_line(lines.skip(1))
    }
}

/// The command that a description gives.
fn find_command(content: &str) -> (command: Option<String>)
    ensures
        crate::text::optional_text(command) == command_line(lines_of(content@)),
{
    let mut parts = split_chars(characters(content).as_slice(), '\n');
    let ghost lines = lines_of(content@);
    let ghost views = part_views(parts@);
    let count: usize = parts.len();
    assert(views.len() == count);
    let mut at: usize = 0;
    assert(lines.skip(0) =~= lines);
    proof {
        reveal_strlit("Exec=");
    }
    while at < count
        invariant
            at <= count,
            count == parts@.len(),
            views == part_views(parts@),
            views == split_on(content@, '\n'),
            lines == lines_of(content@),
            lines.len() == count,
            "Exec="@.len() == 5,
            command_line(lines) == command_line(lines.skip(at as int)),
        decreases count - at,
    {
        let part = &parts[at];
        assert(views[at as int] == part@);
        let line = if count - at > 1 && part.len() > 0 && part[part.len() - 1] == '\r' {
            let front = crate::text::slice_of(part.as_slice(), 0, part.len() - 1);
            assert(front@ =~= part@.drop_last());
            front
        } else {
            rest_of(part.as_slice(), 0)
        };
        assert(line@ =~= lines[at as int]);
        assert(lines.skip(at as int)[0] == lines[at as int]);
        assert(lines.skip(at as int).skip(1) =~= lines.skip(at + 1));
        if starts_with(line.as_slice(), "Exec=") {
            return Some(text_of(rest_of(line.as_slice(), 5).as_slice()));
        }
        at = at + 1;
    }
    None
}

/// What `shlex::split` makes of a text.
pub uninterp spec fn shell_words(text: Seq<char>) -> Option<Seq<Seq<char>>>;

/// Words that may be absent.
pub open spec fn optional_words(words: Option<Vec<String>>) -> Option<Seq<Seq<char>>> {
    match words {
        Some(words) => Some(text_views(words@)),
        None => None,
    }
}

/// `shlex::split`: the words of a text as a shell reads them, or nothing where the text is
/// erroneous. They depend on the text alone.
#[verifier::external_body]
fn split_words(text: &str) -> (words: Option<Vec<String>>)
    ensures
        optional_words(words) == shell_words(text@),
{
    shlex::split(text)
}

/// Whether a word stays an argument: it holds no field code.
pub open spec fn stays_argument() -> spec_fn(Seq<char>) -> bool {
    |word: Seq<char>| !is_field_code(word)
}

/// The arguments that the words of a command give: all but the first that hold no field code, with
/// one percent sign for each pair.
pub open spec fn arguments_of(words: Seq<Seq<char>>) -> Seq<Seq<char>> {
    words.skip(1).filter(stays_argument()).map_values(
        |word: Seq<char>| pairs_replaced(word, seq!['%']),
    )
}

/// The arguments that the words of a command give.
pub fn desktop_arguments(words: &Vec<String>) -> (arguments: Vec<String>)
    requires
        words@.len() > 0,
    ensures
        text_views(arguments@) == arguments_of(text_views(words@)),
{
    let ghost rest = text_views(words@).skip(1);
    let ghost single = |word: Seq<char>| pairs_replaced(word, seq!['%']);
    let mut arguments: Vec<String> = Vec::new();
    let mut at: usize = 1;
    proof {
        crate::lists::filter_ends(rest, stays_argument());
    }
    assert(text_views(arguments@) =~= rest.take(0).filter(stays_argument()).map_values(single));
    while at < words.len()
        invariant
            1 <= at <= words.len(),
            rest == text_views(words@).skip(1),
            single == (|word: Seq<char>| pairs_replaced(word, seq!['%'])),
            text_views(arguments@) == rest.take(at - 1).filter(stays_argument()).map_values(single),
        decreases words.len() - at,
    {
        proof {
            crate::lists::filter_step(rest, stays_argument(), at - 1);
        }
        assert(rest[at - 1] == words@[at as int]@);
        let ghost before = text_views(arguments@);
        let ghost kept = rest.take(at - 1).filter(stays_argument());
        if !has_desktop_field_code(words[at].as_str()) {
            let argument = text_of(replace_pairs(words[at].as_str(), true).as_slice());
            arguments.push(argument);
            assert(text_views(arguments@) =~= before.push(argument@));
            assert(kept.push(rest[at - 1]).map_values(single) =~= before.push(argument@));
        }
        at = at + 1;
    }
    proof {
        crate::lists::filter_ends(rest, stays_argument());
        assert(rest.take(at - 1) =~= rest);
    }
    arguments
}

/// The arguments that a description gives, where it gives a command.
pub open spec fn content_arguments(content: Seq<char>) -> Option<Seq<Seq<char>>> {
    match command_line(lines_of(content)) {
        Some(command) => match shell_words(command) {
            Some(words) if words.len() > 0 => Some(arguments_of(words)),
            _ => None,
        },
        None => None,
    }
}

/// The arguments that a description gives, where it gives a command.
pub fn parse_arguments(content: &str) -> (arguments: Option<Vec<String>>)
    ensures
        optional_words(arguments) == content_arguments(content@),
{
    match find_command(content) {
        Some(command) => match split_words(command.as_str()) {
            Some(words) => {
                assert(text_views(words@).len() == words@.len());
                if words.len() == 0 {
                    None
                } else {
                    Some(desktop_arguments(&words))
                }
            },
            None => None,
        },
        None => None,
    }
}

/// The descriptions of applications among paths, in order.
pub open spec fn described(paths: Seq<Seq<u8>>) -> Seq<Seq<u8>> {
    sorted_paths(paths.filter(|path: Seq<u8>| is_desktop_entry(path)))
}

/// The descriptions of applications among the entries of a directory, in order.
pub fn desktop_files(paths: &Vec<FilePath>) -> (files: Vec<FilePath>)
    ensures
        path_views(files@) == described(path_views(paths@)),
{
    let ghost views = path_views(paths@);
    let ghost keep = |path: Seq<u8>| is_desktop_entry(path);
    let mut files: Vec<FilePath> = Vec::new();
    let mut at: usize = 0;
    proof {
        crate::lists::filter_ends(views, keep);
    }
    assert(path_views(files@) =~= seq![]);
    while at < paths.len()
        invariant
            at <= paths.len(),
            views == path_views(paths@),
            keep == (|path: Seq<u8>| is_desktop_entry(path)),
            path_views(files@) == sorted_paths(views.take(at as int).filter(keep)),
        decreases paths.len() - at,
    {
        proof {
            crate::lists::filter_step(views, keep, at as int);
        }
        assert(views[at as int] == paths@[at as int]@);
        if crate::inspector::bytes_are(&paths[at].extension(), "desktop") {
            let ghost kept = views.take(at as int).filter(keep);
            assert(kept.push(views[at as int]).drop_last() =~= kept);
            insert_sorted(&mut files, paths[at].duplicate());
        }
        at = at + 1;
    }
    proof {
        crate::lists::filter_ends(views, keep);
    }
    files
}

/// The description of an application in the directory of an extracted AppImage.
#[derive(Debug)]
pub struct DesktopFile {
    /// What is known of the file.
    pub facts: FileFacts,
    /// What it holds, where it could be read as text.
    pub content: Option<String>,
}

/// What [`DesktopFile`] is a model of.
pub struct DesktopFileView {
    pub facts: FileFacts,
    pub content: Option<Seq<char>>,
}

impl View for DesktopFile {
    type V = DesktopFileView;

    open spec fn view(&self) -> DesktopFileView {
        DesktopFileView {
            facts: self.facts,
            content: crate::text::optional_text(self.content),
        }
    }
}

/// Descriptions as a sequence.
pub open spec fn desktop_file_views(files: Seq<DesktopFile>) -> Seq<DesktopFileView> {
    files.map_values(|file: DesktopFile| file@)
}

/// Whether a description may be read.
pub open spec fn is_readable(facts: FileFacts) -> bool {
    !facts.link && facts.regular && facts.owned && 0 < facts.length <= MAX_DESKTOP_BYTES
}

/// The arguments that a description gives, where it may be read and gives a command.
pub open spec fn file_arguments(file: DesktopFileView) -> Option<Seq<Seq<char>>> {
    match file.content {
        Some(content) if is_readable(file.facts) => content_arguments(content),
        _ => None,
    }
}

/// The arguments that the first description with a command gives.
pub open spec fn first_arguments(files: Seq<DesktopFileView>) -> Seq<Seq<char>>
    decreases files.len(),
{
    if files.len() == 0 {
        seq![]
    } else {
        match file_arguments(files[0]) {
            Some(arguments) => arguments,
            None => first_arguments(files.skip(1)),
        }
    }
}

/// The arguments that the first description with a command gives.
pub fn extracted_desktop_arguments(files: &Vec<DesktopFile>) -> (arguments: Vec<String>)
    ensures
        text_views(arguments@) == first_arguments(desktop_file_views(files@)),
{
    let ghost views = desktop_file_views(files@);
    let mut at: usize = 0;
    assert(views.skip(0) =~= views);
    while at < files.len()
        invariant
            at <= files.len(),
            views == desktop_file_views(files@),
            first_arguments(views) == first_arguments(views.skip(at as int)),
        decreases files.len() - at,
    {
        let file = &files[at];
        assert(views.skip(at as int)[0] == file@);
        assert(views.skip(at as int).skip(1) =~= views.skip(at + 1));
        let facts = file.facts;
        if !facts.link && facts.regular && facts.owned && facts.length > 0 && facts.length
            <= MAX_DESKTOP_BYTES {
            match &file.content {
                Some(content) => match parse_arguments(content.as_str()) {
                    Some(arguments) => {
                        return arguments;
                    },
                    None => {},
                },
                None => {},
            }
        }
        at = at + 1;
    }
    let none: Vec<String> = Vec::new();
    assert(text_views(none@) =~= seq![]);
    none
}

/// The argument that makes a program run without its sandbox.
pub open spec fn no_sandbox() -> Seq<char> {
    "--no-sandbox"@
}

/// Whether an argument is another one than that.
pub open spec fn is_other_argument() -> spec_fn(Seq<char>) -> bool {
    |argument: Seq<char>| argument != no_sandbox()
}

/// The place of the first argument that makes a program run without its sandbox, or the number of
/// arguments.
pub open spec fn sandbox_place(arguments: Seq<Seq<char>>) -> int
    decreases arguments.len(),
{
    if arguments.len() == 0 || arguments[0] == no_sandbox() {
        0
    } else {
        1 + sandbox_place(arguments.skip(1))
    }
}

/// The arguments that a program is launched with: running without a sandbox is asked for once where
/// it was approved, at the place where the description asks for it first, and never otherwise.
pub open spec fn launched_with(arguments: Seq<Seq<char>>, approved: bool) -> Seq<Seq<char>> {
    let others = arguments.filter(is_other_argument());
    if approved {
        let place = crate::arith::min_of(sandbox_place(arguments), others.len() as int);
        others.insert(place, no_sandbox())
    } else {
        others
    }
}

/// The place is that of an argument, or there is no such argument.
proof fn place_is_bounded(arguments: Seq<Seq<char>>)
    ensures
        0 <= sandbox_place(arguments) <= arguments.len(),
    decreases arguments.len(),
{
    if arguments.len() > 0 && arguments[0] != no_sandbox() {
        place_is_bounded(arguments.skip(1));
    }
}

/// The arguments that a program is launched with.
pub fn launch_arguments(arguments: &Vec<String>, approved: bool) -> (launched: Vec<String>)
    ensures
        text_views(launched@) == launched_with(text_views(arguments@), approved),
{
    let ghost views = text_views(arguments@);
    let mut launched: Vec<String> = Vec::new();
    let mut place: usize = 0;
    let mut found = false;
    let mut at: usize = 0;
    proof {
        crate::lists::filter_ends(views, is_other_argument());
        assert(views.skip(0) =~= views);
    }
    assert(text_views(launched@) =~= views.take(0).filter(is_other_argument()));
    while at < arguments.len()
        invariant
            at <= arguments.len(),
            views == text_views(arguments@),
            text_views(launched@) == views.take(at as int).filter(is_other_argument()),
            found ==> place == sandbox_place(views),
            !found ==> place == at && sandbox_place(views) == at + sandbox_place(
                views.skip(at as int),
            ),
        decreases arguments.len() - at,
    {
        proof {
            crate::lists::filter_step(views, is_other_argument(), at as int);
            assert(views.skip(at as int)[0] == views[at as int]);
            assert(views.skip(at as int).skip(1) =~= views.skip(at + 1));
        }
        assert(views[at as int] == arguments@[at as int]@);
        let ghost before = text_views(launched@);
        if text_is(&arguments[at], "--no-sandbox") {
            found = true;
        } else {
            let copy = arguments[at].clone();
            assert(copy@ == arguments@[at as int]@);
            launched.push(copy);
            assert(text_views(launched@) =~= before.push(copy@));
            if !found {
                place = place + 1;
            }
        }
        at = at + 1;
    }
    proof {
        crate::lists::filter_ends(views, is_other_argument());
        assert(views.skip(at as int) =~= seq![]);
    }
    assert(text_views(launched@).len() == launched@.len());
    if approved {
        let ghost before = text_views(launched@);
        let position: usize = if place < launched.len() {
            place
        } else {
            launched.len()
        };
        let flag = "--no-sandbox".to_string();
        launched.insert(position, flag);
        assert(text_views(launched@) =~= before.insert(position as int, flag@));
    }
    launched
}

/// A program is told to run without its sandbox exactly where that was approved, whatever its
/// description asks for; nothing else of its arguments changes.
pub proof fn sandbox_follows_approval(arguments: Seq<Seq<char>>, approved: bool)
    ensures
        launched_with(arguments, approved).contains(no_sandbox()) == approved,
        launched_with(arguments, approved).filter(is_other_argument()) == arguments.filter(
            is_other_argument(),
        ),
{
    let others = arguments.filter(is_other_argument());
    kept_are_others(arguments);
    if approved {
        place_is_bounded(arguments);
        let place = crate::arith::min_of(sandbox_place(arguments), others.len() as int);
        inserted_is_dropped(others, place);
        assert(others.insert(place, no_sandbox())[place] == no_sandbox());
    } else {
        others_are_kept(others);
        if others.contains(no_sandbox()) {
            let at = choose|at: int| 0 <= at < others.len() && others[at] == no_sandbox();
            assert(is_other_argument()(others[at]));
        }
    }
}

/// Whether no argument makes a program run without its sandbox.
spec fn all_others(arguments: Seq<Seq<char>>) -> bool {
    forall|at: int| 0 <= at < arguments.len() ==> is_other_argument()(#[trigger] arguments[at])
}

/// No argument that is kept makes a program run without its sandbox.
proof fn kept_are_others(arguments: Seq<Seq<char>>)
    ensures
        all_others(arguments.filter(is_other_argument())),
    decreases arguments.len(),
{
    reveal(Seq::filter);
    if arguments.len() > 0 {
        kept_are_others(arguments.drop_last());
    }
}

/// Where no argument makes a program run without its sandbox, all are kept.
proof fn others_are_kept(arguments: Seq<Seq<char>>)
    requires
        all_others(arguments),
    ensures
        arguments.filter(is_other_argument()) == arguments,
    decreases arguments.len(),
{
    reveal(Seq::filter);
    if arguments.len() > 0 {
        let front = arguments.drop_last();
        assert forall|at: int| 0 <= at < front.len() implies is_other_argument()(
            #[trigger] front[at],
        ) by {
            assert(front[at] == arguments[at]);
        }
        others_are_kept(front);
        assert(is_other_argument()(arguments[arguments.len() - 1]));
        assert(front.push(arguments.last()) =~= arguments);
    } else {
        assert(arguments =~= seq![]);
    }
}

/// The argument that makes a program run without its sandbox is the only one that is not kept.
proof fn inserted_is_dropped(others: Seq<Seq<char>>, place: int)
    requires
        all_others(others),
        0 <= place <= others.len(),
    ensures
        others.insert(place, no_sandbox()).filter(is_other_argument()) == others,
    decreases others.len(),
{
    reveal(Seq::filter);
    let whole = others.insert(place, no_sandbox());
    if place == others.len() {
        assert(whole.drop_last() =~= others);
        assert(whole.last() == no_sandbox());
        others_are_kept(others);
    } else {
        let front = others.drop_last();
        assert forall|at: int| 0 <= at < front.len() implies is_other_argument()(
            #[trigger] front[at],
        ) by {
            assert(front[at] == others[at]);
        }
        inserted_is_dropped(front, place);
        assert(whole.drop_last() =~= front.insert(place, no_sandbox()));
        assert(whole.last() == others[others.len() - 1]);
        assert(front.push(others.last()) =~= others);
    }
}

/// The path that an AppImage is extracted to.
pub open spec fn extracted_of(source: Seq<u8>) -> Seq<u8> {
    source + vstd::utf8::encode_utf8(".extracted"@)
}

/// Whether a directory is a real one of the user, or why it is not used.
pub open spec fn directory_verdict(facts: FileFacts) -> Result<(), ExtractionError> {
    if !facts.directory || facts.link {
        Err(ExtractionError::NotADirectory)
    } else if !facts.owned {
        Err(ExtractionError::ForeignDirectory)
    } else {
        Ok(())
    }
}

/// The permissions that the program of an extracted AppImage is to get, where it may not be run yet,
/// or why it is not used.
pub open spec fn program_mode(resolved: Seq<u8>, directory: Seq<u8>, facts: FileFacts) -> Result<
    Option<u32>,
    ExtractionError,
> {
    if !is_below(resolved, directory) {
        Err(ExtractionError::Escapes)
    } else if !facts.regular {
        Err(ExtractionError::NotAFile)
    } else if !facts.owned {
        Err(ExtractionError::ForeignFile)
    } else if facts.mode & 64 == 0 {
        Ok(Some(facts.mode | 64))
    } else {
        Ok(None)
    }
}

/// Whether running without a sandbox was approved.
pub open spec fn is_approved(marker: Option<FileFacts>) -> bool {
    match marker {
        Some(facts) => is_marker(facts),
        None => false,
    }
}

/// How an AppImage is launched.
pub open spec fn route_of(extracted: bool, extracts: bool) -> LaunchRoute {
    if extracted {
        LaunchRoute::Extracted
    } else if extracts {
        LaunchRoute::Extract
    } else {
        LaunchRoute::Direct
    }
}

/// The name of a directory to extract into.
pub open spec fn temporary_name_of(stem: Seq<u8>, process: u32, nonce: u64, attempt: u32) -> Seq<u8> {
    seq![46u8] + stem + vstd::utf8::encode_utf8(
        ".tmp-"@ + crate::text::decimal(process as nat) + "-"@ + crate::text::decimal(nonce as nat)
            + "-"@ + crate::text::decimal(attempt as nat),
    )
}

/// An AppImage is extracted beside itself, to its own path with an ending, so that different
/// AppImages are extracted to different places.
pub proof fn appimages_are_extracted_beside_themselves(left: Seq<u8>, right: Seq<u8>)
    ensures
        extracted_of(left) != left,
        extracted_of(left).take(left.len() as int) == left,
        extracted_of(left).skip(left.len() as int) == vstd::utf8::encode_utf8(".extracted"@),
        extracted_of(left) == extracted_of(right) ==> left == right,
{
    broadcast use vstd::utf8::encode_utf8_decode_utf8;

    let suffix = vstd::utf8::encode_utf8(".extracted"@);
    reveal_strlit(".extracted");
    if suffix.len() == 0 {
        assert(suffix =~= vstd::utf8::encode_utf8(seq![]));
        assert(vstd::utf8::decode_utf8(suffix) == ".extracted"@);
        assert(vstd::utf8::decode_utf8(suffix) == Seq::<char>::empty());
        assert(false);
    }
    assert(extracted_of(left).take(left.len() as int) =~= left);
    assert(extracted_of(left).skip(left.len() as int) =~= suffix);
    if extracted_of(left) == extracted_of(right) {
        assert(left.len() == right.len());
        assert(extracted_of(right).take(left.len() as int) =~= right);
    }
}

/// A directory is used only where it is a directory, no link to one, and the user's own.
pub proof fn only_own_directories_are_used(facts: FileFacts)
    ensures
        directory_verdict(facts) is Ok <==> facts.directory && !facts.link && facts.owned,
        facts.link ==> directory_verdict(facts) == Err::<(), ExtractionError>(
            ExtractionError::NotADirectory,
        ),
        facts.directory && !facts.link && !facts.owned ==> directory_verdict(facts) == Err::<
            (),
            ExtractionError,
        >(ExtractionError::ForeignDirectory),
{
}

/// A program is run only where it is a file of the user in its directory, and is then given the
/// permission to be run where it lacks it, while its other permissions stay.
pub proof fn only_own_programs_are_run(resolved: Seq<u8>, directory: Seq<u8>, facts: FileFacts)
    ensures
        program_mode(resolved, directory, facts) is Ok <==> is_below(resolved, directory)
            && facts.regular && facts.owned,
        match program_mode(resolved, directory, facts) {
            Ok(Some(mode)) => facts.mode & 0o100 == 0 && mode & 0o100 == 0o100 && mode & !0o100
                == facts.mode & !0o100,
            Ok(None) => facts.mode & 0o100 == 0o100,
            Err(error) => {
                &&& error is Escapes <==> !is_below(resolved, directory)
                &&& error is NotAFile ==> !facts.regular
                &&& error is ForeignFile ==> facts.regular && !facts.owned
            },
        },
        is_below(directory, directory),
{
    let mode = facts.mode;
    assert((mode | 64) & 0o100 == 0o100) by (bit_vector);
    assert((mode | 64) & !0o100 == mode & !0o100) by (bit_vector);
    assert(mode & 64 == 0 || mode & 0o100 == 0o100) by (bit_vector);
    let parts = path_components(directory);
    assert(parts.take(parts.len() as int) =~= parts);
}

/// Running without a sandbox is approved only by an empty file of the user that nobody else may
/// read, write or run, and that is no link.
pub proof fn only_private_marks_approve(facts: FileFacts)
    ensures
        is_approved(Some(facts)) ==> {
            &&& facts.regular
            &&& !facts.link
            &&& facts.owned
            &&& facts.length == 0
            &&& facts.mode & 0o077 == 0
            &&& facts.mode & 0o100 == 0
            &&& facts.mode & 0o600 == 0o600
        },
        facts.regular && !facts.link && facts.owned && facts.length == 0 && facts.mode & 0o777
            == 0o600 ==> is_approved(Some(facts)),
        !is_approved(None),
{
    let mode = facts.mode;
    assert(mode & 511 == 384 ==> mode & 0o077 == 0 && mode & 0o100 == 0 && mode & 0o600 == 0o600)
        by (bit_vector);
}

/// What was extracted is launched from there, whatever else is asked for; otherwise an AppImage is
/// extracted first exactly where that is asked for.
pub proof fn extracted_appimages_are_launched_from_there(extracts: bool)
    ensures
        route_of(true, extracts) is Extracted,
        route_of(false, true) is Extract,
        route_of(false, false) is Direct,
{
}

/// The name of a directory to extract into is hidden and begins as the name that it is made from.
pub proof fn temporary_names_are_hidden(stem: Seq<u8>, process: u32, nonce: u64, attempt: u32)
    ensures
        ({
            let name = temporary_name_of(stem, process, nonce, attempt);
            &&& name[0] == '.' as u8
            &&& name.subrange(1, 1 + stem.len() as int) == stem
            &&& name.skip(1 + stem.len() as int) == vstd::utf8::encode_utf8(
                ".tmp-"@ + crate::text::decimal(process as nat) + "-"@ + crate::text::decimal(
                    nonce as nat,
                ) + "-"@ + crate::text::decimal(attempt as nat),
            )
        }),
{
    let name = temporary_name_of(stem, process, nonce, attempt);
    let ending = vstd::utf8::encode_utf8(
        ".tmp-"@ + crate::text::decimal(process as nat) + "-"@ + crate::text::decimal(nonce as nat)
            + "-"@ + crate::text::decimal(attempt as nat),
    );
    assert(name.subrange(1, 1 + stem.len() as int) =~= stem);
    assert(name.skip(1 + stem.len() as int) =~= ending);
}

/// Pairs of percent signs are replaced one after the other, and a text without a percent sign stays
/// as it is.
pub proof fn pairs_are_replaced_in_turn(front: Seq<char>, rest: Seq<char>, put: Seq<char>)
    requires
        !front.contains('%'),
    ensures
        pairs_replaced(front, put) == front,
        pairs_replaced(front + seq!['%', '%'] + rest, put) == front + put + pairs_replaced(rest, put),
    decreases front.len(),
{
    let whole = front + seq!['%', '%'] + rest;
    if front.len() == 0 {
        assert(whole.skip(2) =~= rest);
        assert(whole[0] == '%' && whole[1] == '%');
        assert(put + pairs_replaced(rest, put) =~= front + put + pairs_replaced(rest, put));
    } else {
        let tail = front.skip(1);
        assert(front[0] != '%');
        if tail.contains('%') {
            let at = choose|at: int| 0 <= at < tail.len() && tail[at] == '%';
            assert(front[at + 1] == '%');
        }
        pairs_are_replaced_in_turn(tail, rest, put);
        assert(whole.skip(1) =~= tail + seq!['%', '%'] + rest);
        assert(whole[0] == front[0]);
        assert(pairs_replaced(whole, put) =~= front + put + pairs_replaced(rest, put));
        if front.len() >= 2 {
            assert(seq![front[0]] + tail =~= front);
        }
    }
}

/// An argument with a percent sign before a letter holds a field code; one without a percent sign,
/// or whose percent signs are a pair, holds none.
pub proof fn field_codes_are_found(front: Seq<char>, code: char, rest: Seq<char>)
    requires
        !front.contains('%'),
        !rest.contains('%'),
        code != '%',
    ensures
        is_field_code(front + seq!['%', code] + rest) == is_ascii_letter(code),
        !is_field_code(front),
        !is_field_code(front + seq!['%', '%'] + rest),
{
    let none = Seq::<char>::empty();
    let argument = front + seq!['%', code] + rest;
    pairs_are_replaced_in_turn(front, rest, none);
    pairs_are_replaced_in_turn(rest, rest, none);
    single_signs_stay(front, code, rest);
    assert(seq![] =~= none);
    assert(pairs_replaced(argument, seq![]) == argument);
    let place = front.len() as int;
    assert(argument[place] == '%' && argument[place + 1] == code);
    assert forall|at: int| 0 <= at < argument.len() && #[trigger] argument[at] == '%' implies at
        == place by {
        if at < place {
            assert(front[at] == '%');
        } else if at > place + 1 {
            assert(rest[at - place - 2] == '%');
        }
    }
    let both = pairs_replaced(front + seq!['%', '%'] + rest, seq![]);
    assert(both =~= front + rest);
    assert forall|at: int| 0 <= at < both.len() implies #[trigger] both[at] != '%' by {
        if at < place {
            assert(front.contains(front[at]));
        } else {
            assert(rest.contains(rest[at - place]));
        }
    }
    assert forall|at: int| 0 <= at < front.len() implies #[trigger] front[at] != '%' by {
        assert(front.contains(front[at]));
    }
}

/// A percent sign that stands alone stays.
proof fn single_signs_stay(front: Seq<char>, code: char, rest: Seq<char>)
    requires
        !front.contains('%'),
        !rest.contains('%'),
        code != '%',
    ensures
        pairs_replaced(front + seq!['%', code] + rest, seq![]) == front + seq!['%', code] + rest,
    decreases front.len(),
{
    let none = Seq::<char>::empty();
    let whole = front + seq!['%', code] + rest;
    assert(seq![] =~= none);
    if front.len() == 0 {
        let tail = seq![code] + rest;
        if tail.contains('%') {
            let at = choose|at: int| 0 <= at < tail.len() && tail[at] == '%';
            assert(rest[at - 1] == '%');
        }
        pairs_are_replaced_in_turn(tail, rest, none);
        assert(whole.skip(1) =~= seq![code] + rest);
        assert(whole[0] == '%' && whole[1] == code);
        assert(seq![whole[0]] + whole.skip(1) =~= whole);
    } else {
        let tail = front.skip(1);
        assert(front[0] != '%');
        if tail.contains('%') {
            let at = choose|at: int| 0 <= at < tail.len() && tail[at] == '%';
            assert(front[at + 1] == '%');
        }
        single_signs_stay(tail, code, rest);
        assert(whole.skip(1) =~= tail + seq!['%', code] + rest);
        assert(whole[0] == front[0]);
        assert(seq![whole[0]] + whole.skip(1) =~= whole);
    }
}

/// The first line that gives a command gives it; lines before it that give none are passed over.
pub proof fn the_first_command_counts(before: Seq<Seq<char>>, command: Seq<char>, rest: Seq<Seq<char>>)
    requires
        forall|at: int|
            0 <= at < before.len() ==> !begins_with(#[trigger] before[at], "Exec="@),
    ensures
        command_line(before + seq!["Exec="@ + command] + rest) == Some(command),
        command_line(before) is None,
    decreases before.len(),
{
    let whole = before + seq!["Exec="@ + command] + rest;
    if before.len() == 0 {
        let line = "Exec="@ + command;
        assert(whole[0] == line);
        assert(line.take("Exec="@.len() as int) =~= "Exec="@);
        assert(line.skip("Exec="@.len() as int) =~= command);
    } else {
        let tail = before.skip(1);
        assert(!begins_with(before[0], "Exec="@));
        assert forall|at: int| 0 <= at < tail.len() implies !begins_with(
            #[trigger] tail[at],
            "Exec="@,
        ) by {
            assert(!begins_with(before[at + 1], "Exec="@));
        }
        the_first_command_counts(tail, command, rest);
        assert(whole[0] == before[0]);
        assert(whole.skip(1) =~= tail + seq!["Exec="@ + command] + rest);
    }
}

/// Every word of a command after the first that holds no field code is an argument, and there is no
/// other argument.
pub proof fn words_without_codes_are_arguments(words: Seq<Seq<char>>, at: int, place: int)
    requires
        1 <= at < words.len(),
    ensures
        !is_field_code(words[at]) ==> arguments_of(words).contains(
            pairs_replaced(words[at], seq!['%']),
        ),
        !is_field_code(words[at]) && !words[at].contains('%') ==> arguments_of(words).contains(
            words[at],
        ),
        0 <= place < arguments_of(words).len() ==> exists|word: int|
            {
                &&& 1 <= word < words.len()
                &&& !is_field_code(#[trigger] words[word])
                &&& arguments_of(words)[place] == pairs_replaced(words[word], seq!['%'])
            },
{
    let rest = words.skip(1);
    let keep = stays_argument();
    let kept = rest.filter(keep);
    if !is_field_code(words[at]) {
        assert(rest[at - 1] == words[at]);
        let found = crate::lists::kept_is_found(rest, keep, at - 1);
        assert(arguments_of(words)[found] == pairs_replaced(words[at], seq!['%']));
        assert(arguments_of(words).contains(pairs_replaced(words[at], seq!['%'])));
        if !words[at].contains('%') {
            pairs_are_replaced_in_turn(words[at], words[at], seq!['%']);
        }
    }
    if 0 <= place < arguments_of(words).len() {
        let word = crate::lists::kept_is_there(rest, keep, place);
        assert(rest[word] == words[word + 1]);
        assert(keep(rest[word]));
        assert(arguments_of(words)[place] == pairs_replaced(words[word + 1], seq!['%']));
    }
}

/// The arguments are those of the first description that may be read and gives a command: a file of
/// the user, no link, of a bounded size. Descriptions before it are passed over.
pub proof fn the_first_readable_description_counts(
    before: Seq<DesktopFileView>,
    file: DesktopFileView,
    rest: Seq<DesktopFileView>,
)
    requires
        forall|at: int|
            0 <= at < before.len() ==> file_arguments(#[trigger] before[at]) is None,
    ensures
        file_arguments(file) is Some ==> first_arguments(before + seq![file] + rest)
            == file_arguments(file)->0,
        file_arguments(file) is Some ==> file.facts.regular && !file.facts.link && file.facts.owned
            && 0 < file.facts.length <= MAX_DESKTOP_BYTES && file.content is Some
            && content_arguments(file.content->0) == file_arguments(file),
        first_arguments(before).len() == 0,
    decreases before.len(),
{
    let whole = before + seq![file] + rest;
    if before.len() == 0 {
        assert(whole[0] == file);
    } else {
        let tail = before.skip(1);
        assert(file_arguments(before[0]) is None);
        assert forall|at: int| 0 <= at < tail.len() implies file_arguments(
            #[trigger] tail[at],
        ) is None by {
            assert(file_arguments(before[at + 1]) is None);
        }
        the_first_readable_description_counts(tail, file, rest);
        assert(whole[0] == before[0]);
        assert(whole.skip(1) =~= tail + seq![file] + rest);
    }
}

/// A line may be ended by a line feed alone or with a carriage return before it; what is not ended
/// keeps its carriage return.
pub proof fn lines_are_ended_either_way(first: Seq<char>, rest: Seq<char>)
    requires
        !first.contains('\n'),
        first.len() > 0 ==> first.last() != '\r',
    ensures
        lines_of(first.push('\n') + rest)[0] == first,
        lines_of(first.push('\r').push('\n') + rest)[0] == first,
        lines_of(first.push('\n') + rest).len() == 1 + lines_of(rest).len(),
        lines_of(first.push('\r')) == seq![first.push('\r')],
{
    let returned = first.push('\r');
    if returned.contains('\n') {
        let at = choose|at: int| 0 <= at < returned.len() && returned[at] == '\n';
        assert(first[at] == '\n');
    }
    crate::text::split_first(first, rest, '\n');
    crate::text::split_first(returned, rest, '\n');
    crate::text::split_whole(returned, '\n');
    assert(returned.drop_last() =~= first);
    assert(lines_of(returned) =~= seq![returned]);
}

} // verus!
