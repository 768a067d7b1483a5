//! The registrations of AppImages, and renaming a registered AppImage without ever losing track of
//! it.

use vstd::prelude::*;
use vstd::string::*;
use crate::inspector::{bytes_are, insert_sorted, is_normal_absolute, sorted_paths};
use crate::inspector::{extension_of, identity_key, identity_of, validate_absolute_path};
use crate::inspector::{FileObservation, InspectedAppImage, InspectedIcon};
use crate::paths::{copy_bytes, from_utf8, is_absolute_path, joined, path_views, same_bytes};
use crate::paths::{same_place, FilePath};
use crate::text::{begins_with, finishes_with};
use crate::text::{characters, ends_with, join, slice_of, starts_with, text_is, text_of};

verus! {

/// How many registrations there may be.
pub const MAX_REGISTRATIONS: usize = 4096;

/// The version of the journal.
pub const JOURNAL_SCHEMA_VERSION: u32 = 1;

/// Why a registration is not changed.
#[derive(Debug, Clone, Copy, PartialEq, Eq, Structural)]
pub enum StoreError {
    /// There is no such registration.
    MissingRegistration,
    /// There are too many registrations.
    RegistrationLimit,
    /// A registration cannot name that path.
    InvalidTarget,
    /// Several registrations name the file that is to be renamed.
    SeveralNameSource,
    /// Another registration names the path that the file is to get.
    AnotherNamesDestination,
    /// Another registration names the file or the path that it is to get.
    AnotherNames,
    /// The registration of a renaming is gone.
    RegistrationGone,
    /// The registration of a renaming names another file.
    RegistrationElsewhere,
    /// The file of a renaming is not at exactly one of its two places.
    AmbiguousLocation,
    /// The journal has another version.
    JournalSchema,
    /// The journal names no entry of the desktop.
    JournalName,
    /// The journal names an entry that is not text.
    JournalNameNotText,
    /// The two names of the journal are the same.
    JournalSameNames,
    /// The journal is that of another desktop.
    JournalOtherDesktop,
    /// The journal names no file.
    JournalIdentity,
    /// The desktop has no absolute path.
    UnsafeManagedPath,
    /// The replacement is another application.
    IdentityMismatch,
    /// The registration was changed in the meantime.
    RegistrationChanged,
}

/// The identifier of a registration.
#[derive(Debug)]
pub struct RegistrationId {
    pub text: String,
}

impl View for RegistrationId {
    type V = Seq<char>;

    open spec fn view(&self) -> Seq<char> {
        self.text@
    }
}

/// Whether a character is a hexadecimal digit in lower case.
pub open spec fn is_hex(character: char) -> bool {
    '0' <= character <= '9' || 'a' <= character <= 'f'
}

/// Whether an identifier has a hyphen there.
pub open spec fn is_hyphen_place(at: int) -> bool {
    at == 8 || at == 13 || at == 18 || at == 23
}

/// Whether a text is an identifier in its one form: five groups of hexadecimal digits in lower
/// case.
pub open spec fn is_identifier(text: Seq<char>) -> bool {
    text.len() == 36 && forall|at: int|
        #![trigger text[at]]
        0 <= at < 36 ==> if is_hyphen_place(at) {
            text[at] == '-'
        } else {
            is_hex(text[at])
        }
}

impl RegistrationId {
    /// Reads an identifier.
    pub fn parse(text: &str) -> (id: Option<RegistrationId>)
        ensures
            match id {
                Some(id) => is_identifier(text@) && id@ == text@,
                None => !is_identifier(text@),
            },
    {
        let chars = characters(text);
        if chars.len() != 36 {
            return None;
        }
        let mut at: usize = 0;
        while at < 36
            invariant
                at <= 36,
                chars@ == text@,
                chars@.len() == 36,
                forall|earlier: int|
                    #![trigger text@[earlier]]
                    0 <= earlier < at ==> if is_hyphen_place(earlier) {
                        text@[earlier] == '-'
                    } else {
                        is_hex(text@[earlier])
                    },
            decreases 36 - at,
        {
            let character = chars[at];
            let fits = if at == 8 || at == 13 || at == 18 || at == 23 {
                character == '-'
            } else {
                ('0' <= character && character <= '9') || ('a' <= character && character <= 'f')
            };
            if !fits {
                assert(text@[at as int] == character);
                return None;
            }
            at = at + 1;
        }
        Some(RegistrationId { text: text_of(chars.as_slice()) })
    }

    /// The same identifier again.
    pub fn duplicate(&self) -> (copy: RegistrationId)
        ensures
            copy@ == self@,
    {
        RegistrationId { text: self.text.clone() }
    }

    /// Whether two identifiers are the same.
    pub fn same(&self, other: &RegistrationId) -> (same: bool)
        ensures
            same == (self@ == other@),
    {
        text_is(&self.text, other.text.as_str())
    }

    /// The name of the launcher of this registration.
    pub fn desktop_file_id(&self) -> (name: String)
        ensures
            name@ == launcher_name(self@),
    {
        join(join("buzzardos-appimage-", self.text.as_str()).as_str(), ".desktop")
    }
}

/// The name of the launcher of a registration.
pub open spec fn launcher_name(id: Seq<char>) -> Seq<char> {
    "buzzardos-appimage-"@ + id + ".desktop"@
}

/// What a name has between that of all launchers of registrations and their ending.
pub open spec fn inner_name(name: Seq<char>) -> Option<Seq<char>> {
    if begins_with(name, "buzzardos-appimage-"@) {
        let rest = name.skip("buzzardos-appimage-"@.len() as int);
        if finishes_with(rest, ".desktop"@) {
            Some(rest.take(rest.len() - ".desktop"@.len()))
        } else {
            None
        }
    } else {
        None
    }
}

/// The registration whose launcher has that name.
pub open spec fn launcher_registration(name: Seq<char>) -> Option<Seq<char>> {
    match inner_name(name) {
        Some(id) if is_identifier(id) => Some(id),
        _ => None,
    }
}

/// The registration that an application is the launcher of.
pub fn managed_appimage_registration_id(application: &str) -> (id: Option<RegistrationId>)
    ensures
        match id {
            Some(id) => launcher_registration(application@) == Some(id@),
            None => launcher_registration(application@) is None,
        },
{
    let chars = characters(application);
    proof {
        reveal_strlit("buzzardos-appimage-");
        reveal_strlit(".desktop");
    }
    if !starts_with(chars.as_slice(), "buzzardos-appimage-") {
        return None;
    }
    let rest = slice_of(chars.as_slice(), 19, chars.len());
    assert(rest@ =~= chars@.skip(19));
    if !ends_with(rest.as_slice(), ".desktop") {
        return None;
    }
    let inner = slice_of(rest.as_slice(), 0, rest.len() - 8);
    assert(inner@ =~= rest@.take(rest@.len() - 8));
    RegistrationId::parse(text_of(inner.as_slice()).as_str())
}

/// The name of the launcher of a registration leads back to it.
pub proof fn launchers_lead_back(id: Seq<char>)
    requires
        is_identifier(id),
    ensures
        launcher_registration(launcher_name(id)) == Some(id),
{
    let front = "buzzardos-appimage-"@;
    let name = launcher_name(id);
    assert(name.take(front.len() as int) =~= front);
    let rest = name.skip(front.len() as int);
    assert(rest =~= id + ".desktop"@);
    assert(rest.skip(rest.len() - ".desktop"@.len()) =~= ".desktop"@);
    assert(rest.take(rest.len() - ".desktop"@.len()) =~= id);
}

/// The icon of a registration.
#[derive(Debug)]
pub enum AppImageIcon {
    /// The one for AppImages without an icon.
    BuiltIn,
    /// One that the AppImage had.
    Extracted { source_name: String, content_sha256: String },
}

/// What [`AppImageIcon`] is a model of.
pub enum IconView {
    BuiltIn,
    Extracted { source_name: Seq<char>, content_sha256: Seq<char> },
}

impl View for AppImageIcon {
    type V = IconView;

    open spec fn view(&self) -> IconView {
        match self {
            AppImageIcon::BuiltIn => IconView::BuiltIn,
            AppImageIcon::Extracted { source_name, content_sha256 } => IconView::Extracted {
                source_name: source_name@,
                content_sha256: content_sha256@,
            },
        }
    }
}

impl AppImageIcon {
    /// The same icon again.
    pub fn duplicate(&self) -> (copy: AppImageIcon)
        ensures
            copy@ == self@,
    {
        match self {
            AppImageIcon::BuiltIn => AppImageIcon::BuiltIn,
            AppImageIcon::Extracted { source_name, content_sha256 } => AppImageIcon::Extracted {
                source_name: source_name.clone(),
                content_sha256: content_sha256.clone(),
            },
        }
    }

    /// Whether two icons are the same.
    pub fn same(&self, other: &AppImageIcon) -> (same: bool)
        ensures
            same == (self@ == other@),
    {
        match (self, other) {
            (AppImageIcon::BuiltIn, AppImageIcon::BuiltIn) => true,
            (
                AppImageIcon::Extracted { source_name, content_sha256 },
                AppImageIcon::Extracted { source_name: name, content_sha256: digest },
            ) => text_is(source_name, name.as_str()) && text_is(content_sha256, digest.as_str()),
            _ => false,
        }
    }
}

/// The registration of an AppImage.
#[derive(Debug)]
pub struct AppImageRegistration {
    pub id: RegistrationId,
    pub target_path: FilePath,
    pub display_name: String,
    pub icon: AppImageIcon,
    pub last_observed: Option<FileObservation>,
    pub applications_launcher: bool,
    pub desktop_shortcut: bool,
    pub created_at_unix_seconds: u64,
    pub last_successful_launch_unix_seconds: Option<u64>,
}

/// What [`AppImageRegistration`] is a model of.
pub struct RegistrationView {
    pub id: Seq<char>,
    pub target_path: Seq<u8>,
    pub display_name: Seq<char>,
    pub icon: IconView,
    pub last_observed: Option<FileObservation>,
    pub applications_launcher: bool,
    pub desktop_shortcut: bool,
    pub created_at_unix_seconds: u64,
    pub last_successful_launch_unix_seconds: Option<u64>,
}

impl View for AppImageRegistration {
    type V = RegistrationView;

    open spec fn view(&self) -> RegistrationView {
        RegistrationView {
            id: self.id@,
            target_path: self.target_path@,
            display_name: self.display_name@,
            icon: self.icon@,
            last_observed: self.last_observed,
            applications_launcher: self.applications_launcher,
            desktop_shortcut: self.desktop_shortcut,
            created_at_unix_seconds: self.created_at_unix_seconds,
            last_successful_launch_unix_seconds: self.last_successful_launch_unix_seconds,
        }
    }
}

/// Registrations as a sequence.
pub open spec fn registration_views(registrations: Seq<AppImageRegistration>) -> Seq<
    RegistrationView,
> {
    registrations.map_values(|registration: AppImageRegistration| registration@)
}

/// Whether a registration can name a path: it is absolute, normalized, not too long, and text.
pub open spec fn is_representable(path: Seq<u8>) -> bool {
    is_normal_absolute(path) && vstd::utf8::valid_utf8(path)
}

/// Whether a registration can name a path.
pub fn representable(path: &FilePath) -> (is: bool)
    ensures
        is == is_representable(path@),
{
    validate_absolute_path(path).is_ok() && from_utf8(path.bytes.as_slice()).is_some()
}

/// Whether two registrations say the same: their paths lead the same way, and all else is equal.
pub open spec fn same_registration(left: RegistrationView, right: RegistrationView) -> bool {
    same_place(left.target_path, right.target_path) && (RegistrationView {
        target_path: right.target_path,
        ..left
    }) == right
}

impl AppImageRegistration {
    /// The same registration again.
    pub fn duplicate(&self) -> (copy: AppImageRegistration)
        ensures
            copy@ == self@,
    {
        AppImageRegistration {
            id: self.id.duplicate(),
            target_path: self.target_path.duplicate(),
            display_name: self.display_name.clone(),
            icon: self.icon.duplicate(),
            last_observed: self.last_observed,
            applications_launcher: self.applications_launcher,
            desktop_shortcut: self.desktop_shortcut,
            created_at_unix_seconds: self.created_at_unix_seconds,
            last_successful_launch_unix_seconds: self.last_successful_launch_unix_seconds,
        }
    }

    /// Whether two registrations say the same.
    pub fn same(&self, other: &AppImageRegistration) -> (same: bool)
        ensures
            same == same_registration(self@, other@),
    {
        self.id.same(&other.id) && self.target_path.same(&other.target_path) && text_is(
            &self.display_name,
            other.display_name.as_str(),
        ) && self.icon.same(&other.icon) && self.last_observed == other.last_observed
            && self.applications_launcher == other.applications_launcher && self.desktop_shortcut
            == other.desktop_shortcut && self.created_at_unix_seconds
            == other.created_at_unix_seconds && self.last_successful_launch_unix_seconds
            == other.last_successful_launch_unix_seconds
    }
}

/// The files of registrations among the entries of a directory, in order.
pub open spec fn is_record() -> spec_fn(Seq<u8>) -> bool {
    |path: Seq<u8>| extension_of(path) == Some(vstd::utf8::encode_utf8("json"@))
}

/// The files of registrations among the entries of a directory, in order.
pub fn record_files(paths: &Vec<FilePath>) -> (records: Result<Vec<FilePath>, StoreError>)
    ensures
        ({
            let kept = path_views(paths@).filter(is_record());
            match records {
                Ok(records) => kept.len() <= MAX_REGISTRATIONS && path_views(records@)
                    == sorted_paths(kept),
                Err(error) => kept.len() > MAX_REGISTRATIONS && error
                    == StoreError::RegistrationLimit,
            }
        }),
{
    let ghost views = path_views(paths@);
    let mut records: Vec<FilePath> = Vec::new();
    let mut count: usize = 0;
    let mut at: usize = 0;
    proof {
        crate::lists::filter_ends(views, is_record());
    }
    assert(path_views(records@) =~= seq![]);
    while at < paths.len()
        invariant
            at <= paths.len(),
            views == path_views(paths@),
            count == views.take(at as int).filter(is_record()).len(),
            count <= MAX_REGISTRATIONS,
            path_views(records@) == sorted_paths(views.take(at as int).filter(is_record())),
        decreases paths.len() - at,
    {
        proof {
            crate::lists::filter_step(views, is_record(), at as int);
        }
        assert(views[at as int] == paths@[at as int]@);
        if bytes_are(&paths[at].extension(), "json") {
            let ghost kept = views.take(at as int).filter(is_record());
            assert(kept.push(views[at as int]).drop_last() =~= kept);
            if count >= MAX_REGISTRATIONS {
                proof {
                    crate::lists::filter_keeps_front(views, is_record(), at + 1);
                }
                return Err(StoreError::RegistrationLimit);
            }
            insert_sorted(&mut records, paths[at].duplicate());
            count = count + 1;
        }
        at = at + 1;
    }
    proof {
        crate::lists::filter_ends(views, is_record());
    }
    Ok(records)
}

/// Whether a registration names a path.
pub open spec fn names(registration: RegistrationView, path: Seq<u8>) -> bool {
    same_place(registration.target_path, path)
}

/// The first registration that names a path.
pub open spec fn first_naming(registrations: Seq<RegistrationView>, path: Seq<u8>) -> Option<
    RegistrationView,
>
    decreases registrations.len(),
{
    if registrations.len() == 0 {
        None
    } else if names(registrations[0], path) {
        Some(registrations[0])
    } else {
        first_naming(registrations.skip(1), path)
    }
}

/// The place of the first registration that names a path.
pub fn find_by_target(registrations: &Vec<AppImageRegistration>, target: &FilePath) -> (place:
    Option<usize>)
    ensures
        match place {
            Some(at) => at < registrations@.len() && first_naming(
                registration_views(registrations@),
                target@,
            ) == Some(registrations@[at as int]@),
            None => first_naming(registration_views(registrations@), target@) is None,
        },
{
    let ghost views = registration_views(registrations@);
    let mut at: usize = 0;
    assert(views.skip(0) =~= views);
    while at < registrations.len()
        invariant
            at <= registrations.len(),
            views == registration_views(registrations@),
            first_naming(views, target@) == first_naming(views.skip(at as int), target@),
        decreases registrations.len() - at,
    {
        assert(views.skip(at as int)[0] == registrations@[at as int]@);
        assert(views.skip(at as int).skip(1) =~= views.skip(at + 1));
        if registrations[at].target_path.same(target) {
            return Some(at);
        }
        at = at + 1;
    }
    None
}

/// The first registration with that identifier.
pub open spec fn with_identifier(registrations: Seq<RegistrationView>, id: Seq<char>) -> Option<
    RegistrationView,
>
    decreases registrations.len(),
{
    if registrations.len() == 0 {
        None
    } else if registrations[0].id == id {
        Some(registrations[0])
    } else {
        with_identifier(registrations.skip(1), id)
    }
}

/// The place of the registration with that identifier.
pub fn load(registrations: &Vec<AppImageRegistration>, id: &RegistrationId) -> (place: Result<
    usize,
    StoreError,
>)
    ensures
        match place {
            Ok(at) => at < registrations@.len() && with_identifier(
                registration_views(registrations@),
                id@,
            ) == Some(registrations@[at as int]@),
            Err(error) => with_identifier(registration_views(registrations@), id@) is None && error
                == StoreError::MissingRegistration,
        },
{
    let ghost views = registration_views(registrations@);
    let mut at: usize = 0;
    assert(views.skip(0) =~= views);
    while at < registrations.len()
        invariant
            at <= registrations.len(),
            views == registration_views(registrations@),
            with_identifier(views, id@) == with_identifier(views.skip(at as int), id@),
        decreases registrations.len() - at,
    {
        assert(views.skip(at as int)[0] == registrations@[at as int]@);
        assert(views.skip(at as int).skip(1) =~= views.skip(at + 1));
        if registrations[at].id.same(id) {
            return Ok(at);
        }
        at = at + 1;
    }
    Err(StoreError::MissingRegistration)
}

/// How many registrations name a path.
pub open spec fn naming_count(registrations: Seq<RegistrationView>, path: Seq<u8>) -> nat
    decreases registrations.len(),
{
    if registrations.len() == 0 {
        0
    } else {
        naming_count(registrations.drop_last(), path) + if names(registrations.last(), path) {
            1nat
        } else {
            0nat
        }
    }
}

/// How many registrations name a path.
fn count_naming(registrations: &Vec<AppImageRegistration>, path: &FilePath) -> (count: usize)
    ensures
        count == naming_count(registration_views(registrations@), path@),
{
    let ghost views = registration_views(registrations@);
    let mut count: usize = 0;
    let mut at: usize = 0;
    assert(views.take(0) =~= seq![]);
    while at < registrations.len()
        invariant
            at <= registrations.len(),
            count <= at,
            views == registration_views(registrations@),
            count == naming_count(views.take(at as int), path@),
        decreases registrations.len() - at,
    {
        assert(views.take(at + 1).drop_last() =~= views.take(at as int));
        assert(views[at as int] == registrations@[at as int]@);
        if registrations[at].target_path.same(path) {
            count = count + 1;
        }
        at = at + 1;
    }
    assert(views.take(at as int) =~= views);
    count
}

/// What renaming an entry of the desktop takes.
#[derive(Debug, Clone, Copy, PartialEq, Eq, Structural)]
pub enum RenamePlan {
    /// Nothing: the entry has that name.
    Same,
    /// The file is renamed.
    Plain,
    /// The file is renamed together with the registration at that place.
    Registered(usize),
}

/// A counted registration is found, and a found one counted.
proof fn counted_is_found(registrations: Seq<RegistrationView>, path: Seq<u8>)
    ensures
        naming_count(registrations, path) == 0 <==> first_naming(registrations, path) is None,
    decreases registrations.len(),
{
    if registrations.len() > 0 {
        let front = registrations.drop_last();
        counted_is_found(front, path);
        first_of_front(registrations, path);
    }
}

/// The first registration that names a path is the first of the front, or the last one.
proof fn first_of_front(registrations: Seq<RegistrationView>, path: Seq<u8>)
    requires
        registrations.len() > 0,
    ensures
        first_naming(registrations, path) == match first_naming(registrations.drop_last(), path) {
            Some(found) => Some(found),
            None => if names(registrations.last(), path) {
                Some(registrations.last())
            } else {
                None
            },
        },
    decreases registrations.len(),
{
    if registrations.len() > 1 && !names(registrations[0], path) {
        first_of_front(registrations.skip(1), path);
        assert(registrations.skip(1).drop_last() =~= registrations.drop_last().skip(1));
    } else if registrations.len() == 1 {
        assert(registrations.drop_last() =~= seq![]);
        assert(registrations.skip(1) =~= seq![]);
    }
}

/// A way to rename an entry of the desktop.
pub enum RenameWay {
    Same,
    Plain,
    Registered(RegistrationView),
}

/// What renaming an entry of the desktop takes.
pub open spec fn rename_way(
    registrations: Seq<RegistrationView>,
    desktop: Seq<u8>,
    old_name: Seq<u8>,
    new_name: Seq<u8>,
) -> Result<RenameWay, StoreError> {
    let sources = naming_count(registrations, joined(desktop, old_name));
    let new_path = joined(desktop, new_name);
    if old_name == new_name {
        Ok(RenameWay::Same)
    } else if sources == 0 {
        Ok(RenameWay::Plain)
    } else if sources != 1 {
        Err(StoreError::SeveralNameSource)
    } else if naming_count(registrations, new_path) > 0 {
        Err(StoreError::AnotherNamesDestination)
    } else if !is_representable(new_path) {
        Err(StoreError::InvalidTarget)
    } else {
        Ok(RenameWay::Registered(first_naming(registrations, joined(desktop, old_name))->0))
    }
}

/// What renaming an entry of the desktop takes: where exactly one registration names it, none names
/// the path that it is to get, and a registration can name that path, both change together.
pub fn plan_rename(
    registrations: &Vec<AppImageRegistration>,
    desktop: &FilePath,
    old_name: &Vec<u8>,
    new_name: &Vec<u8>,
) -> (plan: Result<RenamePlan, StoreError>)
    ensures
        match (
            plan,
            rename_way(registration_views(registrations@), desktop@, old_name@, new_name@),
        ) {
            (Ok(RenamePlan::Same), Ok(RenameWay::Same)) => true,
            (Ok(RenamePlan::Plain), Ok(RenameWay::Plain)) => true,
            (Ok(RenamePlan::Registered(at)), Ok(RenameWay::Registered(registration))) => at
                < registrations@.len() && registrations@[at as int]@ == registration,
            (Err(error), Err(expected)) => error == expected,
            _ => false,
        },
        ({
            let views = registration_views(registrations@);
            let old_path = joined(desktop@, old_name@);
            let new_path = joined(desktop@, new_name@);
            let sources = naming_count(views, old_path);
            if old_name@ == new_name@ {
                plan == Ok::<RenamePlan, StoreError>(RenamePlan::Same)
            } else if sources == 0 {
                plan == Ok::<RenamePlan, StoreError>(RenamePlan::Plain)
            } else if sources != 1 {
                plan == Err::<RenamePlan, StoreError>(StoreError::SeveralNameSource)
            } else if naming_count(views, new_path) > 0 {
                plan == Err::<RenamePlan, StoreError>(StoreError::AnotherNamesDestination)
            } else if !is_representable(new_path) {
                plan == Err::<RenamePlan, StoreError>(StoreError::InvalidTarget)
            } else {
                match plan {
                    Ok(RenamePlan::Registered(at)) => at < registrations@.len() && first_naming(
                        views,
                        old_path,
                    ) == Some(registrations@[at as int]@),
                    _ => false,
                }
            }
        }),
{
    if same_bytes(old_name.as_slice(), new_name.as_slice()) {
        return Ok(RenamePlan::Same);
    }
    let old_path = desktop.join(old_name.as_slice());
    let new_path = desktop.join(new_name.as_slice());
    proof {
        counted_is_found(registration_views(registrations@), old_path@);
    }
    let place: usize = match find_by_target(registrations, &old_path) {
        Some(place) => place,
        None => {
            return Ok(RenamePlan::Plain);
        },
    };
    if count_naming(registrations, &old_path) != 1 {
        return Err(StoreError::SeveralNameSource);
    }
    if count_naming(registrations, &new_path) > 0 {
        return Err(StoreError::AnotherNamesDestination);
    }
    if !representable(&new_path) {
        return Err(StoreError::InvalidTarget);
    }
    Ok(RenamePlan::Registered(place))
}

/// How far a renaming is.
#[derive(Debug, Clone, Copy, PartialEq, Eq, Structural)]
pub enum DesktopRenamePhase {
    Prepared,
    FileRenamed,
    RegistrationUpdated,
}

/// What is written down of a renaming before and while it is made.
#[derive(Debug)]
pub struct DesktopRenameJournal {
    pub schema_version: u32,
    pub registration_id: RegistrationId,
    pub desktop_path: Vec<u8>,
    pub old_name: Vec<u8>,
    pub new_name: Vec<u8>,
    pub expected_file: FileObservation,
    pub phase: DesktopRenamePhase,
}

/// What [`DesktopRenameJournal`] is a model of.
pub struct JournalView {
    pub schema_version: u32,
    pub registration_id: Seq<char>,
    pub desktop_path: Seq<u8>,
    pub old_name: Seq<u8>,
    pub new_name: Seq<u8>,
    pub expected_file: FileObservation,
    pub phase: DesktopRenamePhase,
}

impl View for DesktopRenameJournal {
    type V = JournalView;

    open spec fn view(&self) -> JournalView {
        JournalView {
            schema_version: self.schema_version,
            registration_id: self.registration_id@,
            desktop_path: self.desktop_path@,
            old_name: self.old_name@,
            new_name: self.new_name@,
            expected_file: self.expected_file,
            phase: self.phase,
        }
    }
}

/// What is wrong with a name in a journal.
pub open spec fn name_fault(name: Seq<u8>) -> Option<StoreError> {
    if name.len() == 0 || name.len() > 255 || name == seq![46u8] || name == seq![46u8, 46u8]
        || name.contains(47u8) || name.contains(0u8) {
        Some(StoreError::JournalName)
    } else if !vstd::utf8::valid_utf8(name) {
        Some(StoreError::JournalNameNotText)
    } else {
        None
    }
}

/// Refuses a name that is none of an entry of the desktop, or not text.
pub fn validate_journal_name(name: &Vec<u8>) -> (valid: Result<(), StoreError>)
    ensures
        match valid {
            Ok(()) => name_fault(name@) is None,
            Err(error) => name_fault(name@) == Some(error),
        },
{
    let dot = name.len() == 1 && name[0] == 46;
    let dots = name.len() == 2 && name[0] == 46 && name[1] == 46;
    assert(dot == (name@ == seq![46u8])) by {
        if dot {
            assert(name@ =~= seq![46u8]);
        }
    }
    assert(dots == (name@ == seq![46u8, 46u8])) by {
        if dots {
            assert(name@ =~= seq![46u8, 46u8]);
        }
    }
    if name.len() == 0 || name.len() > 255 || dot || dots {
        return Err(StoreError::JournalName);
    }
    let mut at: usize = 0;
    while at < name.len()
        invariant
            at <= name.len(),
            forall|earlier: int| 0 <= earlier < at ==> name@[earlier] != 47 && name@[earlier] != 0,
        decreases name.len() - at,
    {
        if name[at] == 47 || name[at] == 0 {
            assert(name@.contains(name@[at as int]));
            return Err(StoreError::JournalName);
        }
        at = at + 1;
    }
    if from_utf8(name.as_slice()).is_none() {
        return Err(StoreError::JournalNameNotText);
    }
    Ok(())
}

/// What is wrong with a journal for the desktop at that path.
pub open spec fn journal_fault(journal: JournalView, desktop: Seq<u8>) -> Option<StoreError> {
    if journal.schema_version != JOURNAL_SCHEMA_VERSION {
        Some(StoreError::JournalSchema)
    } else if name_fault(journal.old_name) is Some {
        name_fault(journal.old_name)
    } else if name_fault(journal.new_name) is Some {
        name_fault(journal.new_name)
    } else if journal.old_name == journal.new_name {
        Some(StoreError::JournalSameNames)
    } else if journal.desktop_path != desktop {
        Some(StoreError::JournalOtherDesktop)
    } else if journal.expected_file.device == 0 || journal.expected_file.inode == 0
        || journal.expected_file.size == 0 {
        Some(StoreError::JournalIdentity)
    } else if !is_absolute_path(desktop) {
        Some(StoreError::UnsafeManagedPath)
    } else {
        None
    }
}

impl DesktopRenameJournal {
    /// Refuses a journal that no renaming on the desktop at that path wrote.
    pub fn validate(&self, desktop: &FilePath) -> (valid: Result<(), StoreError>)
        ensures
            match valid {
                Ok(()) => journal_fault(self@, desktop@) is None,
                Err(error) => journal_fault(self@, desktop@) == Some(error),
            },
    {
        if self.schema_version != JOURNAL_SCHEMA_VERSION {
            return Err(StoreError::JournalSchema);
        }
        match validate_journal_name(&self.old_name) {
            Ok(()) => {},
            Err(error) => {
                return Err(error);
            },
        }
        match validate_journal_name(&self.new_name) {
            Ok(()) => {},
            Err(error) => {
                return Err(error);
            },
        }
        if same_bytes(self.old_name.as_slice(), self.new_name.as_slice()) {
            return Err(StoreError::JournalSameNames);
        }
        if !same_bytes(self.desktop_path.as_slice(), desktop.bytes.as_slice()) {
            return Err(StoreError::JournalOtherDesktop);
        }
        if self.expected_file.device == 0 || self.expected_file.inode == 0
            || self.expected_file.size == 0 {
            return Err(StoreError::JournalIdentity);
        }
        if !desktop.is_absolute() {
            return Err(StoreError::UnsafeManagedPath);
        }
        Ok(())
    }

    /// The journal of a renaming that is about to be made.
    pub fn prepare(
        registration: &AppImageRegistration,
        desktop: &FilePath,
        old_name: &Vec<u8>,
        new_name: &Vec<u8>,
        expected_file: FileObservation,
    ) -> (journal: Result<DesktopRenameJournal, StoreError>)
        ensures
            ({
                let prepared = JournalView {
                    schema_version: JOURNAL_SCHEMA_VERSION,
                    registration_id: registration.id@,
                    desktop_path: desktop@,
                    old_name: old_name@,
                    new_name: new_name@,
                    expected_file,
                    phase: DesktopRenamePhase::Prepared,
                };
                match journal {
                    Ok(journal) => journal@ == prepared && journal_fault(prepared, desktop@)
                        is None,
                    Err(error) => journal_fault(prepared, desktop@) == Some(error),
                }
            }),
    {
        let journal = DesktopRenameJournal {
            schema_version: JOURNAL_SCHEMA_VERSION,
            registration_id: registration.id.duplicate(),
            desktop_path: copy_bytes(desktop.bytes.as_slice()),
            old_name: copy_bytes(old_name.as_slice()),
            new_name: copy_bytes(new_name.as_slice()),
            expected_file,
            phase: DesktopRenamePhase::Prepared,
        };
        match journal.validate(desktop) {
            Ok(()) => Ok(journal),
            Err(error) => Err(error),
        }
    }
}

/// A step of a renaming. Each is complete and lasting before the next one is made.
#[derive(Debug, Clone, Copy, PartialEq, Eq, Structural)]
pub enum RenameStep {
    /// The journal is written.
    WriteJournal(DesktopRenamePhase),
    /// The file is renamed, if it is the expected one and nothing has the other name.
    RenameFile,
    /// The directory is made lasting.
    SyncDirectory,
    /// The registration names the new path.
    UpdateRegistration,
    /// The journal is removed.
    ClearJournal,
}

/// The steps of a renaming.
pub open spec fn renaming() -> Seq<RenameStep> {
    seq![
        RenameStep::WriteJournal(DesktopRenamePhase::Prepared),
        RenameStep::RenameFile,
        RenameStep::WriteJournal(DesktopRenamePhase::FileRenamed),
        RenameStep::UpdateRegistration,
        RenameStep::WriteJournal(DesktopRenamePhase::RegistrationUpdated),
        RenameStep::ClearJournal,
    ]
}

/// The steps of a renaming of a registered AppImage.
pub fn rename_steps() -> (steps: Vec<RenameStep>)
    ensures
        steps@ == renaming(),
{
    let mut steps: Vec<RenameStep> = Vec::new();
    steps.push(RenameStep::WriteJournal(DesktopRenamePhase::Prepared));
    steps.push(RenameStep::RenameFile);
    steps.push(RenameStep::WriteJournal(DesktopRenamePhase::FileRenamed));
    steps.push(RenameStep::UpdateRegistration);
    steps.push(RenameStep::WriteJournal(DesktopRenamePhase::RegistrationUpdated));
    steps.push(RenameStep::ClearJournal);
    assert(steps@ =~= renaming());
    steps
}

/// The steps that every recovery ends with.
pub open spec fn finishing() -> Seq<RenameStep> {
    seq![
        RenameStep::SyncDirectory,
        RenameStep::WriteJournal(DesktopRenamePhase::FileRenamed),
        RenameStep::UpdateRegistration,
        RenameStep::WriteJournal(DesktopRenamePhase::RegistrationUpdated),
        RenameStep::ClearJournal,
    ]
}

/// The steps that finish a renaming whose journal was found, by what is at the two names; nothing
/// where the file is not at exactly one of them.
pub open spec fn recovery(
    expected: FileObservation,
    old: Option<FileObservation>,
    new: Option<FileObservation>,
) -> Option<Seq<RenameStep>> {
    if old == Some(expected) && new is None {
        Some(seq![RenameStep::RenameFile] + finishing())
    } else if old is None && new == Some(expected) {
        Some(finishing())
    } else {
        None
    }
}

/// The steps that finish a renaming whose journal was found.
pub fn recovery_steps(
    journal: &DesktopRenameJournal,
    old: Option<FileObservation>,
    new: Option<FileObservation>,
) -> (steps: Result<Vec<RenameStep>, StoreError>)
    ensures
        match steps {
            Ok(steps) => recovery(journal.expected_file, old, new) == Some(steps@),
            Err(error) => recovery(journal.expected_file, old, new) is None && error
                == StoreError::AmbiguousLocation,
        },
{
    let mut steps: Vec<RenameStep> = Vec::new();
    if old == Some(journal.expected_file) && new.is_none() {
        steps.push(RenameStep::RenameFile);
    } else if !(old.is_none() && new == Some(journal.expected_file)) {
        return Err(StoreError::AmbiguousLocation);
    }
    let ghost front = steps@;
    steps.push(RenameStep::SyncDirectory);
    steps.push(RenameStep::WriteJournal(DesktopRenamePhase::FileRenamed));
    steps.push(RenameStep::UpdateRegistration);
    steps.push(RenameStep::WriteJournal(DesktopRenamePhase::RegistrationUpdated));
    steps.push(RenameStep::ClearJournal);
    assert(steps@ =~= front + finishing());
    assert(front + finishing() =~= recovery(journal.expected_file, old, new)->0);
    Ok(steps)
}

/// Whether the journal is removed after the file could not be renamed.
pub open spec fn is_abandoned(
    expected: FileObservation,
    old: Option<FileObservation>,
    new: Option<FileObservation>,
    collision: bool,
) -> bool {
    old == Some(expected) && (collision || new is None)
}

/// Whether the journal is removed after the file could not be renamed: only where it is certain
/// that it was not.
pub fn abandons_rename(
    journal: &DesktopRenameJournal,
    old: Option<FileObservation>,
    new: Option<FileObservation>,
    collision: bool,
) -> (abandons: bool)
    ensures
        abandons == (old == Some(journal.expected_file) && (collision || new is None)),
        abandons == is_abandoned(journal.expected_file, old, new, collision),
{
    old == Some(journal.expected_file) && (collision || new.is_none())
}

/// Whether another registration than that one names a path.
pub open spec fn another_names(
    registrations: Seq<RegistrationView>,
    id: Seq<char>,
    path: Seq<u8>,
) -> bool {
    exists|at: int|
        0 <= at < registrations.len() && (#[trigger] registrations[at]).id != id && names(
            registrations[at],
            path,
        )
}

/// Whether another registration than that one names a path.
fn names_otherwise(
    registrations: &Vec<AppImageRegistration>,
    id: &RegistrationId,
    path: &FilePath,
) -> (found: bool)
    ensures
        found == another_names(registration_views(registrations@), id@, path@),
{
    let ghost views = registration_views(registrations@);
    let mut at: usize = 0;
    while at < registrations.len()
        invariant
            at <= registrations.len(),
            views == registration_views(registrations@),
            forall|earlier: int|
                0 <= earlier < at ==> !((#[trigger] views[earlier]).id != id@ && names(
                    views[earlier],
                    path@,
                )),
        decreases registrations.len() - at,
    {
        assert(views[at as int] == registrations@[at as int]@);
        if !registrations[at].id.same(id) && registrations[at].target_path.same(path) {
            assert(views[at as int].id != id@);
            return true;
        }
        at = at + 1;
    }
    false
}

/// Why a renaming whose journal was found cannot be finished.
pub open spec fn preflight_fault(
    journal: JournalView,
    desktop: Seq<u8>,
    registrations: Seq<RegistrationView>,
) -> Option<StoreError> {
    let old = joined(desktop, journal.old_name);
    let new = joined(desktop, journal.new_name);
    match with_identifier(registrations, journal.registration_id) {
        None => Some(StoreError::RegistrationGone),
        Some(latest) => if !names(latest, old) && !names(latest, new) {
            Some(StoreError::RegistrationElsewhere)
        } else if another_names(registrations, journal.registration_id, old) || another_names(
            registrations,
            journal.registration_id,
            new,
        ) {
            Some(StoreError::AnotherNames)
        } else if !is_representable(new) {
            Some(StoreError::InvalidTarget)
        } else {
            None
        },
    }
}

/// Refuses to finish a renaming whose registration is gone or names another file, or where another
/// registration names one of the two paths.
pub fn preflight_pending_desktop_rename(
    journal: &DesktopRenameJournal,
    desktop: &FilePath,
    registrations: &Vec<AppImageRegistration>,
) -> (valid: Result<(), StoreError>)
    ensures
        match valid {
            Ok(()) => preflight_fault(journal@, desktop@, registration_views(registrations@))
                is None,
            Err(error) => preflight_fault(journal@, desktop@, registration_views(registrations@))
                == Some(error),
        },
{
    let old = desktop.join(journal.old_name.as_slice());
    let new = desktop.join(journal.new_name.as_slice());
    let place: usize = match load(registrations, &journal.registration_id) {
        Ok(place) => place,
        Err(_) => {
            return Err(StoreError::RegistrationGone);
        },
    };
    let latest = &registrations[place];
    if !latest.target_path.same(&old) && !latest.target_path.same(&new) {
        return Err(StoreError::RegistrationElsewhere);
    }
    if names_otherwise(registrations, &journal.registration_id, &old) || names_otherwise(
        registrations,
        &journal.registration_id,
        &new,
    ) {
        return Err(StoreError::AnotherNames);
    }
    if !representable(&new) {
        return Err(StoreError::InvalidTarget);
    }
    Ok(())
}

/// The registration that is to be stored when its file was renamed.
pub open spec fn renamed_registration(
    journal: JournalView,
    desktop: Seq<u8>,
    registrations: Seq<RegistrationView>,
) -> Result<RegistrationView, StoreError> {
    let old = joined(desktop, journal.old_name);
    let new = joined(desktop, journal.new_name);
    if another_names(registrations, journal.registration_id, new) {
        Err(StoreError::AnotherNamesDestination)
    } else {
        match with_identifier(registrations, journal.registration_id) {
            None => Err(StoreError::RegistrationGone),
            Some(latest) => if names(latest, new) {
                Ok(latest)
            } else if !names(latest, old) {
                Err(StoreError::RegistrationElsewhere)
            } else {
                Ok(RegistrationView { target_path: new, ..latest })
            },
        }
    }
}

/// The registration that is to be stored when its file was renamed: it names the new path, and is
/// stored again where it did before.
pub fn update_renamed_registration(
    journal: &DesktopRenameJournal,
    desktop: &FilePath,
    registrations: &Vec<AppImageRegistration>,
) -> (registration: Result<AppImageRegistration, StoreError>)
    ensures
        match (
            registration,
            renamed_registration(journal@, desktop@, registration_views(registrations@)),
        ) {
            (Ok(registration), Ok(expected)) => registration@ == expected,
            (Err(error), Err(expected)) => error == expected,
            _ => false,
        },
{
    let old = desktop.join(journal.old_name.as_slice());
    let new = desktop.join(journal.new_name.as_slice());
    if names_otherwise(registrations, &journal.registration_id, &new) {
        return Err(StoreError::AnotherNamesDestination);
    }
    let place: usize = match load(registrations, &journal.registration_id) {
        Ok(place) => place,
        Err(_) => {
            return Err(StoreError::RegistrationGone);
        },
    };
    let mut latest = registrations[place].duplicate();
    if latest.target_path.same(&new) {
        return Ok(latest);
    }
    if !latest.target_path.same(&old) {
        return Err(StoreError::RegistrationElsewhere);
    }
    latest.target_path = new;
    Ok(latest)
}

/// A file as it is stored: what tells it from others, what it holds, and who may use it.
pub struct StoredFile {
    pub observation: FileObservation,
    pub bytes: Seq<u8>,
    pub owner: u32,
    pub mode: u32,
}

/// What is stored while an entry of the desktop is renamed: the files at the two names, the
/// registrations, the journal, and every other file by its path, launchers and icons among them.
#[verifier::ext_equal]
pub struct RenameDisk {
    pub old: Option<StoredFile>,
    pub new: Option<StoredFile>,
    pub registrations: Seq<RegistrationView>,
    pub journal: Option<JournalView>,
    pub others: Map<Seq<u8>, StoredFile>,
}

/// What tells a file from others, if there is one.
pub open spec fn observed(file: Option<StoredFile>) -> Option<FileObservation> {
    match file {
        Some(file) => Some(file.observation),
        None => None,
    }
}

/// The registrations after one of them was stored in place of the one with its identifier.
pub open spec fn with_stored(
    registrations: Seq<RegistrationView>,
    stored: RegistrationView,
) -> Seq<RegistrationView> {
    registrations.map_values(
        |registration: RegistrationView|
            if registration.id == stored.id {
                stored
            } else {
                registration
            },
    )
}

/// What is stored after a step of the renaming that `journal` describes.
pub open spec fn after_step(
    disk: RenameDisk,
    journal: JournalView,
    desktop: Seq<u8>,
    step: RenameStep,
) -> RenameDisk {
    match step {
        RenameStep::WriteJournal(phase) => RenameDisk {
            journal: Some(JournalView { phase, ..journal }),
            ..disk
        },
        RenameStep::RenameFile => if observed(disk.old) == Some(journal.expected_file) && disk.new
            is None {
            RenameDisk { old: None, new: disk.old, ..disk }
        } else {
            disk
        },
        RenameStep::SyncDirectory => disk,
        RenameStep::UpdateRegistration => match renamed_registration(
            journal,
            desktop,
            disk.registrations,
        ) {
            Ok(registration) => RenameDisk {
                registrations: with_stored(disk.registrations, registration),
                ..disk
            },
            Err(_) => disk,
        },
        RenameStep::ClearJournal => RenameDisk { journal: None, ..disk },
    }
}

/// What is stored after steps.
pub open spec fn after_steps(
    disk: RenameDisk,
    journal: JournalView,
    desktop: Seq<u8>,
    steps: Seq<RenameStep>,
) -> RenameDisk
    decreases steps.len(),
{
    if steps.len() == 0 {
        disk
    } else {
        after_step(
            after_steps(disk, journal, desktop, steps.drop_last()),
            journal,
            desktop,
            steps.last(),
        )
    }
}

/// Whether no two registrations have one identifier.
pub open spec fn identifiers_differ(registrations: Seq<RegistrationView>) -> bool {
    forall|left: int, right: int|
        0 <= left < right < registrations.len() ==> (#[trigger] registrations[left]).id != (
        #[trigger] registrations[right]).id
}

/// Whether the renaming that `journal` describes can begin: the file is at the old name and nothing
/// at the new one, exactly the journal's registration names the old path, none names the new one,
/// and a registration can name it.
pub open spec fn can_be_renamed(disk: RenameDisk, journal: JournalView, desktop: Seq<u8>) -> bool {
    let old = joined(desktop, journal.old_name);
    let new = joined(desktop, journal.new_name);
    &&& journal_fault(journal, desktop) is None
    &&& observed(disk.old) == Some(journal.expected_file)
    &&& disk.new is None
    &&& disk.journal is None
    &&& identifiers_differ(disk.registrations)
    &&& naming_count(disk.registrations, old) == 1
    &&& first_naming(disk.registrations, old) is Some
    &&& first_naming(disk.registrations, old)->0.id == journal.registration_id
    &&& naming_count(disk.registrations, new) == 0
    &&& is_representable(new)
}

/// The registrations after the one with that identifier was made to name another path.
pub open spec fn retargeted(
    registrations: Seq<RegistrationView>,
    id: Seq<char>,
    path: Seq<u8>,
) -> Seq<RegistrationView> {
    registrations.map_values(
        |registration: RegistrationView|
            if registration.id == id {
                RegistrationView { target_path: path, ..registration }
            } else {
                registration
            },
    )
}

/// What is stored in the course of a renaming that began with `start`: whether the file was moved,
/// whether the registration was, and what the journal says. Nothing else changes.
pub open spec fn disk_at(
    start: RenameDisk,
    journal: JournalView,
    desktop: Seq<u8>,
    moved: bool,
    updated: bool,
    phase: Option<DesktopRenamePhase>,
) -> RenameDisk {
    RenameDisk {
        old: if moved {
            None
        } else {
            start.old
        },
        new: if moved {
            start.old
        } else {
            None
        },
        registrations: if updated {
            retargeted(
                start.registrations,
                journal.registration_id,
                joined(desktop, journal.new_name),
            )
        } else {
            start.registrations
        },
        journal: match phase {
            Some(phase) => Some(JournalView { phase, ..journal }),
            None => None,
        },
        others: start.others,
    }
}

/// What is stored after a renaming: the same file at the new name, and the registration with the new
/// path; no journal, and nothing else changed.
pub open spec fn renamed(start: RenameDisk, journal: JournalView, desktop: Seq<u8>) -> RenameDisk {
    RenameDisk {
        old: None,
        new: start.old,
        registrations: retargeted(
            start.registrations,
            journal.registration_id,
            joined(desktop, journal.new_name),
        ),
        journal: None,
        others: start.others,
    }
}

/// Whether a disk is one that a renaming, or its recovery, leaves behind where it ends early.
pub open spec fn is_interrupted(
    start: RenameDisk,
    journal: JournalView,
    desktop: Seq<u8>,
    disk: RenameDisk,
) -> bool {
    exists|moved: bool, updated: bool, phase: DesktopRenamePhase|
        disk == #[trigger] disk_at(start, journal, desktop, moved, updated, Some(phase))
}

/// None of the registrations names a path that is counted as named by none, and only one a path
/// that is counted as named by one.
proof fn counted_are_named(registrations: Seq<RegistrationView>, path: Seq<u8>)
    ensures
        naming_count(registrations, path) == 0 ==> forall|at: int|
            0 <= at < registrations.len() ==> !names(#[trigger] registrations[at], path),
        naming_count(registrations, path) == 1 ==> forall|left: int, right: int|
            0 <= left < registrations.len() && 0 <= right < registrations.len() && names(
                #[trigger] registrations[left],
                path,
            ) && names(#[trigger] registrations[right], path) ==> left == right,
    decreases registrations.len(),
{
    if registrations.len() > 0 {
        let front = registrations.drop_last();
        counted_are_named(front, path);
        assert(forall|at: int|
            0 <= at < front.len() ==> front[at] == #[trigger] registrations[at]);
    }
}

/// The first registration that names a path is one of them, and names it.
proof fn first_names(registrations: Seq<RegistrationView>, path: Seq<u8>) -> (place: int)
    requires
        first_naming(registrations, path) is Some,
    ensures
        0 <= place < registrations.len(),
        registrations[place] == first_naming(registrations, path)->0,
        names(registrations[place], path),
    decreases registrations.len(),
{
    if names(registrations[0], path) {
        0
    } else {
        1 + first_names(registrations.skip(1), path)
    }
}

/// Where no two have one identifier, the registration with that identifier is found.
proof fn identified_is_found(registrations: Seq<RegistrationView>, place: int)
    requires
        0 <= place < registrations.len(),
        identifiers_differ(registrations),
    ensures
        with_identifier(registrations, registrations[place].id) == Some(registrations[place]),
    decreases registrations.len(),
{
    if place > 0 {
        let rest = registrations.skip(1);
        assert(registrations[0].id != registrations[place].id);
        assert forall|left: int, right: int| 0 <= left < right < rest.len() implies (
        #[trigger] rest[left]).id != (#[trigger] rest[right]).id by {
            assert(registrations[left + 1].id != registrations[right + 1].id);
        }
        assert(rest[place - 1] == registrations[place]);
        identified_is_found(rest, place - 1);
    }
}

/// While a renaming is under way, its registration can be moved, and moving it again changes
/// nothing.
proof fn registration_is_moved(start: RenameDisk, journal: JournalView, desktop: Seq<u8>)
    requires
        can_be_renamed(start, journal, desktop),
    ensures
        ({
            let before = start.registrations;
            let after = retargeted(
                before,
                journal.registration_id,
                joined(desktop, journal.new_name),
            );
            &&& renamed_registration(journal, desktop, before) is Ok
            &&& with_stored(before, renamed_registration(journal, desktop, before)->Ok_0) == after
            &&& renamed_registration(journal, desktop, after) is Ok
            &&& with_stored(after, renamed_registration(journal, desktop, after)->Ok_0) == after
            &&& preflight_fault(journal, desktop, before) is None
            &&& preflight_fault(journal, desktop, after) is None
        }),
{
    let old = joined(desktop, journal.old_name);
    let new = joined(desktop, journal.new_name);
    let id = journal.registration_id;
    let before = start.registrations;
    let after = retargeted(before, id, new);
    let place = first_names(before, old);
    counted_are_named(before, old);
    counted_are_named(before, new);
    identified_is_found(before, place);
    assert forall|at: int| 0 <= at < before.len() && at != place implies (#[trigger] before[at]).id
        != id && !names(before[at], old) && after[at] == before[at] by {
        if at < place {
            assert(before[at].id != before[place].id);
        } else {
            assert(before[place].id != before[at].id);
        }
    }
    assert(!names(before[place], new));
    assert(after[place] == RegistrationView { target_path: new, ..before[place] });
    assert(identifiers_differ(after)) by {
        assert forall|left: int, right: int| 0 <= left < right < after.len() implies (
        #[trigger] after[left]).id != (#[trigger] after[right]).id by {
            assert(before[left].id != before[right].id);
        }
    }
    identified_is_found(after, place);
    assert(names(after[place], new));
    assert(!another_names(before, id, new) && !another_names(before, id, old));
    assert(!another_names(after, id, new) && !another_names(after, id, old)) by {
        assert forall|at: int| 0 <= at < after.len() && (#[trigger] after[at]).id
            != id implies !names(after[at], new) && !names(after[at], old) by {
            assert(before[at].id != id);
        }
    }
    assert(with_stored(before, after[place]) =~= after);
    assert(with_stored(after, after[place]) =~= after);
}

/// What a step makes of what is stored in the course of a renaming.
proof fn step_advances(
    start: RenameDisk,
    journal: JournalView,
    desktop: Seq<u8>,
    moved: bool,
    updated: bool,
    phase: Option<DesktopRenamePhase>,
    step: RenameStep,
)
    requires
        can_be_renamed(start, journal, desktop),
    ensures
        after_step(
            disk_at(start, journal, desktop, moved, updated, phase),
            journal,
            desktop,
            step,
        ) == disk_at(
            start,
            journal,
            desktop,
            moved || step == RenameStep::RenameFile,
            updated || step == RenameStep::UpdateRegistration,
            match step {
                RenameStep::WriteJournal(phase) => Some(phase),
                RenameStep::ClearJournal => None,
                _ => phase,
            },
        ),
{
    registration_is_moved(start, journal, desktop);
}

/// An interrupted renaming can be recovered: the journal is valid, the registration can be moved, and
/// the file is at exactly one of the names.
pub proof fn interruptions_can_be_recovered(
    start: RenameDisk,
    journal: JournalView,
    desktop: Seq<u8>,
    disk: RenameDisk,
)
    requires
        can_be_renamed(start, journal, desktop),
        is_interrupted(start, journal, desktop, disk),
    ensures
        disk.journal is Some,
        journal_fault(disk.journal->0, desktop) is None,
        preflight_fault(disk.journal->0, desktop, disk.registrations) is None,
        recovery(disk.journal->0.expected_file, observed(disk.old), observed(disk.new)) is Some,
{
    registration_is_moved(start, journal, desktop);
}

/// Wherever a renaming ends early, either nothing was changed, or all of it, or what is stored is an
/// interrupted renaming. All of it is: the file has the new name and is otherwise the same, with
/// what it holds, its owner and its mode; its registration names the new path and is otherwise the
/// same; and no other registration and no other file was changed.
pub proof fn every_interruption_is_recoverable(
    start: RenameDisk,
    journal: JournalView,
    desktop: Seq<u8>,
    count: int,
)
    requires
        can_be_renamed(start, journal, desktop),
        0 <= count <= renaming().len(),
    ensures
        ({
            let disk = after_steps(start, journal, desktop, renaming().take(count));
            &&& count == 0 ==> disk == start
            &&& 0 < count < renaming().len() ==> is_interrupted(start, journal, desktop, disk)
            &&& count == renaming().len() ==> disk == renamed(start, journal, desktop)
        }),
{
    let steps = renaming();
    assert(disk_at(start, journal, desktop, false, false, None) =~= start);
    assert(disk_at(start, journal, desktop, true, true, None) =~= renamed(start, journal, desktop));
    steps_advance(start, journal, desktop, false, false, None, steps, count);
    if 0 < count < steps.len() {
        reveal_with_fuel(phase_after, 6);
        let phase = phase_after(None, steps, count)->0;
        assert(phase_after(None, steps, count) == Some(phase));
        let moved = was_made(steps, RenameStep::RenameFile, count);
        let updated = was_made(steps, RenameStep::UpdateRegistration, count);
        assert(disk_at(start, journal, desktop, moved, updated, Some(phase)) == after_steps(
            start,
            journal,
            desktop,
            steps.take(count),
        ));
    }
    if count == steps.len() {
        assert(steps[1] == RenameStep::RenameFile && steps[3] == RenameStep::UpdateRegistration);
    }
}

/// Whether a step is one of the first ones.
spec fn was_made(steps: Seq<RenameStep>, step: RenameStep, count: int) -> bool {
    exists|at: int| 0 <= at < count && steps[at] == step
}

/// What the journal says after the first steps.
spec fn phase_after(
    phase: Option<DesktopRenamePhase>,
    steps: Seq<RenameStep>,
    count: int,
) -> Option<DesktopRenamePhase>
    decreases count,
{
    if count <= 0 {
        phase
    } else {
        match steps[count - 1] {
            RenameStep::WriteJournal(written) => Some(written),
            RenameStep::ClearJournal => None,
            _ => phase_after(phase, steps, count - 1),
        }
    }
}

/// What steps make of what is stored in the course of a renaming.
proof fn steps_advance(
    start: RenameDisk,
    journal: JournalView,
    desktop: Seq<u8>,
    moved: bool,
    updated: bool,
    phase: Option<DesktopRenamePhase>,
    steps: Seq<RenameStep>,
    count: int,
)
    requires
        can_be_renamed(start, journal, desktop),
        0 <= count <= steps.len(),
    ensures
        after_steps(
            disk_at(start, journal, desktop, moved, updated, phase),
            journal,
            desktop,
            steps.take(count),
        ) == disk_at(
            start,
            journal,
            desktop,
            moved || was_made(steps, RenameStep::RenameFile, count),
            updated || was_made(steps, RenameStep::UpdateRegistration, count),
            phase_after(phase, steps, count),
        ),
    decreases count,
{
    if count > 0 {
        steps_advance(start, journal, desktop, moved, updated, phase, steps, count - 1);
        assert(steps.take(count).drop_last() =~= steps.take(count - 1));
        step_advances(
            start,
            journal,
            desktop,
            moved || was_made(steps, RenameStep::RenameFile, count - 1),
            updated || was_made(steps, RenameStep::UpdateRegistration, count - 1),
            phase_after(phase, steps, count - 1),
            steps[count - 1],
        );
        assert forall|step: RenameStep| #[trigger] was_made(steps, step, count) == (was_made(
            steps,
            step,
            count - 1,
        ) || steps[count - 1] == step) by {
            if was_made(steps, step, count - 1) {
                let at = choose|at: int| 0 <= at < count - 1 && steps[at] == step;
                assert(steps[at] == step);
            }
        }
    }
}

/// Recovering finishes a renaming, however it was interrupted: what is stored is then what the
/// renaming itself would have left. A recovery that is itself interrupted can be recovered again.
pub proof fn recovery_finishes_renaming(
    start: RenameDisk,
    journal: JournalView,
    desktop: Seq<u8>,
    disk: RenameDisk,
    count: int,
)
    requires
        can_be_renamed(start, journal, desktop),
        is_interrupted(start, journal, desktop, disk),
        0 <= count <= recovery(
            journal.expected_file,
            observed(disk.old),
            observed(disk.new),
        )->0.len(),
    ensures
        ({
            let steps = recovery(
                journal.expected_file,
                observed(disk.old),
                observed(disk.new),
            )->0;
            &&& after_steps(disk, journal, desktop, steps) == renamed(start, journal, desktop)
            &&& count < steps.len() ==> is_interrupted(
                start,
                journal,
                desktop,
                after_steps(disk, journal, desktop, steps.take(count)),
            )
        }),
{
    interruptions_can_be_recovered(start, journal, desktop, disk);
    let (moved, updated, phase) = choose|
        moved: bool,
        updated: bool,
        phase: DesktopRenamePhase,
    |
        disk == #[trigger] disk_at(start, journal, desktop, moved, updated, Some(phase));
    let steps = recovery(journal.expected_file, observed(disk.old), observed(disk.new))->0;
    let length = steps.len() as int;
    let front = length - 5;
    assert(disk_at(start, journal, desktop, true, true, None) =~= renamed(start, journal, desktop));
    assert(front == 0 || front == 1);
    assert(front == 0 <==> moved);
    assert(front == 1 ==> steps[0] == RenameStep::RenameFile);
    assert(steps[front] == RenameStep::SyncDirectory);
    assert(steps[front + 1] == RenameStep::WriteJournal(DesktopRenamePhase::FileRenamed));
    assert(steps[front + 2] == RenameStep::UpdateRegistration);
    assert(steps[front + 3] == RenameStep::WriteJournal(DesktopRenamePhase::RegistrationUpdated));
    assert(steps[front + 4] == RenameStep::ClearJournal);
    assert(steps.take(length) =~= steps);
    steps_advance(start, journal, desktop, moved, updated, Some(phase), steps, length);
    assert(phase_after(Some(phase), steps, length) is None);
    if count < length {
        steps_advance(start, journal, desktop, moved, updated, Some(phase), steps, count);
        reveal_with_fuel(phase_after, 7);
        let reached = phase_after(Some(phase), steps, count)->0;
        assert(phase_after(Some(phase), steps, count) == Some(reached));
        let moved_then = moved || was_made(steps, RenameStep::RenameFile, count);
        let updated_then = updated || was_made(steps, RenameStep::UpdateRegistration, count);
        assert(disk_at(start, journal, desktop, moved_then, updated_then, Some(reached))
            == after_steps(disk, journal, desktop, steps.take(count)));
    }
}

/// A renaming that was interrupted after any of its steps ends, once it is recovered, as if it had
/// not been: the file is at the new name with what it held, its owner and its mode; its registration
/// has the new path and is otherwise the same; every other file is as it was; and no journal is
/// left.
pub proof fn interrupted_renaming_is_finished(
    start: RenameDisk,
    journal: JournalView,
    desktop: Seq<u8>,
    count: int,
)
    requires
        can_be_renamed(start, journal, desktop),
        0 < count < renaming().len(),
    ensures
        ({
            let disk = after_steps(start, journal, desktop, renaming().take(count));
            let steps = recovery(
                disk.journal->0.expected_file,
                observed(disk.old),
                observed(disk.new),
            );
            let end = after_steps(disk, journal, desktop, steps->0);
            let id = journal.registration_id;
            let before = with_identifier(start.registrations, id);
            &&& disk.journal is Some
            &&& journal_fault(disk.journal->0, desktop) is None
            &&& preflight_fault(disk.journal->0, desktop, disk.registrations) is None
            &&& steps is Some
            &&& end == after_steps(start, journal, desktop, renaming())
            &&& end.old is None && end.new == start.old
            &&& end.journal is None && end.others == start.others
            &&& before is Some
            &&& with_identifier(end.registrations, id) == Some(
                RegistrationView {
                    target_path: joined(desktop, journal.new_name),
                    ..before->0
                },
            )
            &&& forall|at: int|
                0 <= at < start.registrations.len() && (#[trigger] start.registrations[at]).id != id
                    ==> end.registrations[at] == start.registrations[at]
        }),
{
    let disk = after_steps(start, journal, desktop, renaming().take(count));
    let all = renaming().len() as int;
    assert(renaming().take(all) =~= renaming());
    every_interruption_is_recoverable(start, journal, desktop, count);
    every_interruption_is_recoverable(start, journal, desktop, all);
    interruptions_can_be_recovered(start, journal, desktop, disk);
    recovery_finishes_renaming(start, journal, desktop, disk, 0);
    let before = start.registrations;
    let after = renamed(start, journal, desktop).registrations;
    let place = first_names(before, joined(desktop, journal.old_name));
    identified_is_found(before, place);
    assert(identifiers_differ(after)) by {
        assert forall|left: int, right: int| 0 <= left < right < after.len() implies (
        #[trigger] after[left]).id != (#[trigger] after[right]).id by {
            assert(before[left].id != before[right].id);
        }
    }
    identified_is_found(after, place);
}

/// Where a registration is shown.
#[derive(Debug, Clone, Copy, PartialEq, Eq, Structural)]
pub struct RegistrationFlags {
    pub applications_launcher: bool,
    pub desktop_shortcut: bool,
}

impl RegistrationFlags {
    /// Among the applications.
    pub fn applications() -> (flags: RegistrationFlags)
        ensures
            flags == (RegistrationFlags { applications_launcher: true, desktop_shortcut: false }),
    {
        RegistrationFlags { applications_launcher: true, desktop_shortcut: false }
    }

    /// On the desktop.
    pub fn desktop() -> (flags: RegistrationFlags)
        ensures
            flags == (RegistrationFlags { applications_launcher: false, desktop_shortcut: true }),
    {
        RegistrationFlags { applications_launcher: false, desktop_shortcut: true }
    }
}

/// The icon that an inspection found.
pub open spec fn found_icon(icon: Option<InspectedIcon>) -> IconView {
    match icon {
        Some(icon) => IconView::Extracted {
            source_name: icon.source_name@,
            content_sha256: icon.content_sha256@,
        },
        None => IconView::BuiltIn,
    }
}

/// The icon that an inspection found.
pub fn icon_metadata(inspected: &InspectedAppImage) -> (icon: AppImageIcon)
    ensures
        icon@ == found_icon(inspected.icon),
{
    match &inspected.icon {
        Some(icon) => AppImageIcon::Extracted {
            source_name: icon.source_name.clone(),
            content_sha256: icon.content_sha256.clone(),
        },
        None => AppImageIcon::BuiltIn,
    }
}

/// A registration after the file at `target` was inspected.
pub open spec fn inspected_as(
    registration: RegistrationView,
    inspected: InspectedAppImage,
    target: Seq<u8>,
) -> RegistrationView {
    RegistrationView {
        target_path: target,
        display_name: inspected.display_name@,
        icon: found_icon(inspected.icon),
        last_observed: Some(inspected.observation),
        ..registration
    }
}

/// Takes what an inspection of the file at `target` found into a registration.
pub fn apply_inspection(
    registration: &mut AppImageRegistration,
    inspected: &InspectedAppImage,
    target: &FilePath,
)
    ensures
        final(registration)@ == inspected_as(old(registration)@, *inspected, target@),
{
    registration.target_path = target.duplicate();
    registration.display_name = inspected.display_name.clone();
    registration.icon = icon_metadata(inspected);
    registration.last_observed = Some(inspected.observation);
}

/// The registration that registering the file at `target` stores.
pub open spec fn registered(
    registrations: Seq<RegistrationView>,
    target: Seq<u8>,
    flags: RegistrationFlags,
    inspected: InspectedAppImage,
    id: Seq<char>,
    now: u64,
) -> RegistrationView {
    match first_naming(registrations, target) {
        Some(existing) => inspected_as(
            RegistrationView {
                applications_launcher: existing.applications_launcher
                    || flags.applications_launcher,
                desktop_shortcut: existing.desktop_shortcut || flags.desktop_shortcut,
                ..existing
            },
            inspected,
            target,
        ),
        None => RegistrationView {
            id,
            target_path: target,
            display_name: inspected.display_name@,
            icon: found_icon(inspected.icon),
            last_observed: Some(inspected.observation),
            applications_launcher: flags.applications_launcher,
            desktop_shortcut: flags.desktop_shortcut,
            created_at_unix_seconds: now,
            last_successful_launch_unix_seconds: None,
        },
    }
}

/// Registers the file at `target`: a registration that names it is shown in more places, otherwise
/// there is a new one, with that identifier.
pub fn register(
    registrations: &Vec<AppImageRegistration>,
    target: &FilePath,
    flags: RegistrationFlags,
    inspected: &InspectedAppImage,
    id: RegistrationId,
    now: u64,
) -> (registration: AppImageRegistration)
    ensures
        registration@ == registered(
            registration_views(registrations@),
            target@,
            flags,
            *inspected,
            id@,
            now,
        ),
{
    match find_by_target(registrations, target) {
        Some(place) => {
            let mut existing = registrations[place].duplicate();
            existing.applications_launcher = existing.applications_launcher
                || flags.applications_launcher;
            existing.desktop_shortcut = existing.desktop_shortcut || flags.desktop_shortcut;
            apply_inspection(&mut existing, inspected, target);
            existing
        },
        None => AppImageRegistration {
            id,
            target_path: target.duplicate(),
            display_name: inspected.display_name.clone(),
            icon: icon_metadata(inspected),
            last_observed: Some(inspected.observation),
            applications_launcher: flags.applications_launcher,
            desktop_shortcut: flags.desktop_shortcut,
            created_at_unix_seconds: now,
            last_successful_launch_unix_seconds: None,
        },
    }
}

/// Registering a file that is registered keeps its identifier and takes it from nowhere.
pub proof fn registering_again_keeps_the_identifier(
    registrations: Seq<RegistrationView>,
    target: Seq<u8>,
    flags: RegistrationFlags,
    inspected: InspectedAppImage,
    id: Seq<char>,
    now: u64,
)
    requires
        first_naming(registrations, target) is Some,
    ensures
        ({
            let before = first_naming(registrations, target)->0;
            let after = registered(registrations, target, flags, inspected, id, now);
            &&& after.id == before.id
            &&& after.created_at_unix_seconds == before.created_at_unix_seconds
            &&& before.applications_launcher ==> after.applications_launcher
            &&& before.desktop_shortcut ==> after.desktop_shortcut
        }),
{
}

/// A registration that is shown there and nowhere else; none where it is shown nowhere.
pub open spec fn shown_at(registration: RegistrationView, flags: RegistrationFlags) -> Option<
    RegistrationView,
> {
    if !flags.applications_launcher && !flags.desktop_shortcut {
        None
    } else {
        Some(
            RegistrationView {
                applications_launcher: flags.applications_launcher,
                desktop_shortcut: flags.desktop_shortcut,
                ..registration
            },
        )
    }
}

/// A registration that may be absent.
pub open spec fn optional_registration(registration: Option<AppImageRegistration>) -> Option<
    RegistrationView,
> {
    match registration {
        Some(registration) => Some(registration@),
        None => None,
    }
}

/// Shows a registration there and nowhere else; it is removed where it is shown nowhere.
pub fn set_flags(registration: AppImageRegistration, flags: RegistrationFlags) -> (changed: Option<
    AppImageRegistration,
>)
    ensures
        optional_registration(changed) == shown_at(registration@, flags),
{
    if !flags.applications_launcher && !flags.desktop_shortcut {
        return None;
    }
    let mut changed = registration;
    changed.applications_launcher = flags.applications_launcher;
    changed.desktop_shortcut = flags.desktop_shortcut;
    Some(changed)
}

/// A registration that is shown among the applications too.
pub open spec fn with_applications(registration: RegistrationView) -> RegistrationView {
    RegistrationView { applications_launcher: true, ..registration }
}

/// A registration that is shown on the desktop too.
pub open spec fn with_desktop(registration: RegistrationView) -> RegistrationView {
    RegistrationView { desktop_shortcut: true, ..registration }
}

/// A registration that is no longer shown among the applications.
pub open spec fn without_applications(registration: RegistrationView) -> Option<RegistrationView> {
    if registration.desktop_shortcut {
        Some(RegistrationView { applications_launcher: false, ..registration })
    } else {
        None
    }
}

/// A registration that is no longer shown on the desktop.
pub open spec fn without_desktop(registration: RegistrationView) -> Option<RegistrationView> {
    if registration.applications_launcher {
        Some(RegistrationView { desktop_shortcut: false, ..registration })
    } else {
        None
    }
}

/// A registration whose AppImage was started at that time.
pub open spec fn started_at(registration: RegistrationView, now: u64) -> RegistrationView {
    RegistrationView { last_successful_launch_unix_seconds: Some(now), ..registration }
}

/// What is reported of a launch before anything is started.
pub open spec fn refused_launch(check: TargetCheck) -> Option<LaunchStatus> {
    match check {
        TargetCheck::Valid => None,
        TargetCheck::Missing => Some(LaunchStatus::TargetMissing),
        TargetCheck::Invalid => Some(LaunchStatus::TargetInvalid),
    }
}

/// What linking a registration, as it now is, to another file comes to.
pub open spec fn relinked_as(
    latest: RegistrationView,
    preview: RelinkPreview,
    accepts: bool,
) -> Result<RegistrationView, StoreError> {
    if preview.identity_differs && !accepts {
        Err(StoreError::IdentityMismatch)
    } else if !same_registration(latest, preview.current@) {
        Err(StoreError::RegistrationChanged)
    } else {
        Ok(inspected_as(latest, preview.candidate, preview.candidate_path@))
    }
}

/// What is done with the files that show a registration.
pub open spec fn projected(registration: RegistrationView, found: bool) -> Result<
    Projection,
    StoreError,
> {
    if is_representable(registration.target_path) {
        Ok(
            Projection {
                icon: if found {
                    IconProjection::Extracted
                } else if registration.icon is BuiltIn {
                    IconProjection::Fallback
                } else {
                    IconProjection::Keep
                },
                applications: registration.applications_launcher,
                desktop: registration.desktop_shortcut,
            },
        )
    } else {
        Err(StoreError::InvalidTarget)
    }
}

/// Shows a registration among the applications too.
pub fn add_applications(registration: AppImageRegistration) -> (changed: AppImageRegistration)
    ensures
        changed@ == (RegistrationView { applications_launcher: true, ..registration@ }),
        changed@ == with_applications(registration@),
{
    let mut changed = registration;
    changed.applications_launcher = true;
    changed
}

/// Shows a registration on the desktop too.
pub fn add_desktop(registration: AppImageRegistration) -> (changed: AppImageRegistration)
    ensures
        changed@ == (RegistrationView { desktop_shortcut: true, ..registration@ }),
        changed@ == with_desktop(registration@),
{
    let mut changed = registration;
    changed.desktop_shortcut = true;
    changed
}

/// Shows a registration no longer among the applications.
pub fn remove_applications(registration: AppImageRegistration) -> (changed: Option<
    AppImageRegistration,
>)
    ensures
        optional_registration(changed) == if registration.desktop_shortcut {
            Some(RegistrationView { applications_launcher: false, ..registration@ })
        } else {
            None
        },
        optional_registration(changed) == without_applications(registration@),
{
    let flags = RegistrationFlags {
        applications_launcher: false,
        desktop_shortcut: registration.desktop_shortcut,
    };
    set_flags(registration, flags)
}

/// Shows a registration no longer on the desktop.
pub fn remove_desktop(registration: AppImageRegistration) -> (changed: Option<AppImageRegistration>)
    ensures
        optional_registration(changed) == if registration.applications_launcher {
            Some(RegistrationView { desktop_shortcut: false, ..registration@ })
        } else {
            None
        },
        optional_registration(changed) == without_desktop(registration@),
{
    let flags = RegistrationFlags {
        applications_launcher: registration.applications_launcher,
        desktop_shortcut: false,
    };
    set_flags(registration, flags)
}

/// How a launch went.
#[derive(Debug, Clone, Copy, PartialEq, Eq, Structural)]
pub enum LaunchStatus {
    Started,
    TargetMissing,
    TargetInvalid,
}

/// What looking at the file of a registration found.
#[derive(Debug, Clone, Copy, PartialEq, Eq, Structural)]
pub enum TargetCheck {
    /// It is an AppImage.
    Valid,
    /// It is not there.
    Missing,
    /// It is no AppImage.
    Invalid,
}

/// What is reported of a launch, by what looking at the file found: nothing yet where it is an
/// AppImage, which is started first.
pub fn launch_refusal(check: TargetCheck) -> (status: Option<LaunchStatus>)
    ensures
        status == match check {
            TargetCheck::Valid => None,
            TargetCheck::Missing => Some(LaunchStatus::TargetMissing),
            TargetCheck::Invalid => Some(LaunchStatus::TargetInvalid),
        },
        status == refused_launch(check),
{
    match check {
        TargetCheck::Valid => None,
        TargetCheck::Missing => Some(LaunchStatus::TargetMissing),
        TargetCheck::Invalid => Some(LaunchStatus::TargetInvalid),
    }
}

/// A registration whose AppImage was started at that time.
pub fn launched(registration: AppImageRegistration, now: u64) -> (started: AppImageRegistration)
    ensures
        started@ == (RegistrationView {
            last_successful_launch_unix_seconds: Some(now),
            ..registration@
        }),
        started@ == started_at(registration@, now),
{
    let mut started = registration;
    started.last_successful_launch_unix_seconds = Some(now);
    started
}

/// What linking a registration to another file would come to.
#[derive(Debug)]
pub struct RelinkPreview {
    pub current: AppImageRegistration,
    pub candidate: InspectedAppImage,
    pub candidate_path: FilePath,
    pub identity_differs: bool,
}

/// What linking a registration to another file would come to.
pub fn preview_relink(
    current: AppImageRegistration,
    candidate: InspectedAppImage,
    candidate_path: FilePath,
) -> (preview: RelinkPreview)
    ensures
        preview.current == current,
        preview.candidate == candidate,
        preview.candidate_path == candidate_path,
        preview.identity_differs == (identity_of(current.display_name@)
            != candidate.identity_key@),
{
    let expected = identity_key(current.display_name.as_str());
    let identity_differs = !text_is(&expected, candidate.identity_key.as_str());
    RelinkPreview { current, candidate, candidate_path, identity_differs }
}

/// Links a registration, as it now is, to another file; `accepts` says whether that may be another
/// application.
pub fn commit_relink(
    latest: AppImageRegistration,
    preview: &RelinkPreview,
    accepts: bool,
) -> (relinked: Result<AppImageRegistration, StoreError>)
    ensures
        match (relinked, relinked_as(latest@, *preview, accepts)) {
            (Ok(relinked), Ok(expected)) => relinked@ == expected,
            (Err(error), Err(expected)) => error == expected,
            _ => false,
        },
        match relinked {
            Ok(relinked) => (preview.identity_differs ==> accepts) && same_registration(
                latest@,
                preview.current@,
            ) && relinked@ == inspected_as(
                latest@,
                preview.candidate,
                preview.candidate_path@,
            ),
            Err(error) => error == if preview.identity_differs && !accepts {
                StoreError::IdentityMismatch
            } else {
                StoreError::RegistrationChanged
            } && (preview.identity_differs && !accepts || !same_registration(
                latest@,
                preview.current@,
            )),
        },
{
    if preview.identity_differs && !accepts {
        return Err(StoreError::IdentityMismatch);
    }
    if !latest.same(&preview.current) {
        return Err(StoreError::RegistrationChanged);
    }
    let mut registration = latest;
    apply_inspection(&mut registration, &preview.candidate, &preview.candidate_path);
    Ok(registration)
}

/// Linking a registration to another file keeps its identifier, where it is shown, and when it was
/// made.
pub proof fn relinking_keeps_the_registration(
    registration: RegistrationView,
    candidate: InspectedAppImage,
    path: Seq<u8>,
)
    ensures
        ({
            let relinked = inspected_as(registration, candidate, path);
            &&& relinked.id == registration.id
            &&& launcher_name(relinked.id) == launcher_name(registration.id)
            &&& relinked.applications_launcher == registration.applications_launcher
            &&& relinked.desktop_shortcut == registration.desktop_shortcut
            &&& relinked.created_at_unix_seconds == registration.created_at_unix_seconds
            &&& relinked.last_successful_launch_unix_seconds
                == registration.last_successful_launch_unix_seconds
        }),
{
}

/// What is done with the file of an icon.
#[derive(Debug, Clone, Copy, PartialEq, Eq, Structural)]
pub enum IconProjection {
    /// The icon that was found is written, and the one for AppImages without an icon removed.
    Extracted,
    /// The one for AppImages without an icon is written, and the other removed.
    Fallback,
    /// Both stay as they are.
    Keep,
}

/// What is done with the files that show a registration.
#[derive(Debug, Clone, Copy, PartialEq, Eq, Structural)]
pub struct Projection {
    pub icon: IconProjection,
    /// Whether the launcher among the applications is written; it is removed otherwise.
    pub applications: bool,
    /// Whether the launcher on the desktop is written; it is removed otherwise.
    pub desktop: bool,
}

/// What is done with the files that show a registration; `found` says whether an icon was found just
/// now.
pub fn projection(registration: &AppImageRegistration, found: bool) -> (projection: Result<
    Projection,
    StoreError,
>)
    ensures
        projection == projected(registration@, found),
        projection == if is_representable(registration.target_path@) {
            Ok::<Projection, StoreError>(
                Projection {
                    icon: if found {
                        IconProjection::Extracted
                    } else if registration@.icon is BuiltIn {
                        IconProjection::Fallback
                    } else {
                        IconProjection::Keep
                    },
                    applications: registration.applications_launcher,
                    desktop: registration.desktop_shortcut,
                },
            )
        } else {
            Err(StoreError::InvalidTarget)
        },
{
    if !representable(&registration.target_path) {
        return Err(StoreError::InvalidTarget);
    }
    let icon = if found {
        IconProjection::Extracted
    } else {
        match &registration.icon {
            AppImageIcon::BuiltIn => IconProjection::Fallback,
            AppImageIcon::Extracted { .. } => IconProjection::Keep,
        }
    };
    Ok(
        Projection {
            icon,
            applications: registration.applications_launcher,
            desktop: registration.desktop_shortcut,
        },
    )
}

/// The order in which files are put back as they were: the last one first.
pub open spec fn put_back(count: nat) -> Seq<usize> {
    Seq::new(count, |at: int| (count - 1 - at) as usize)
}

/// The order in which files are put back as they were.
pub fn restore_order(count: usize) -> (order: Vec<usize>)
    ensures
        order@ == put_back(count as nat),
{
    let mut order: Vec<usize> = Vec::new();
    let mut left: usize = count;
    while left > 0
        invariant
            left <= count,
            order@ == put_back(count as nat).take(count - left),
        decreases left,
    {
        left = left - 1;
        order.push(left);
        assert(order@ =~= put_back(count as nat).take(count - left));
    }
    assert(order@ =~= put_back(count as nat));
    order
}

/// Files after those at the places were put back as they were.
pub open spec fn restored<T>(files: Seq<T>, before: Seq<T>, places: Seq<usize>) -> Seq<T>
    decreases places.len(),
{
    if places.len() == 0 {
        files
    } else {
        let rest = restored(files, before, places.drop_last());
        rest.update(places.last() as int, before[places.last() as int])
    }
}

/// Putting the files back leaves each as it was, whatever happened to them.
pub proof fn restoring_undoes_everything<T>(files: Seq<T>, before: Seq<T>)
    requires
        files.len() == before.len() <= usize::MAX,
    ensures
        restored(files, before, put_back(before.len())) == before,
{
    let count = before.len() as int;
    let order = put_back(before.len());
    restored_tail(files, before, count);
    assert(order.take(count) =~= order);
    assert(restored(files, before, order) =~= before);
}

/// After the first places of the order, all files from there on are as they were.
proof fn restored_tail<T>(files: Seq<T>, before: Seq<T>, done: int)
    requires
        files.len() == before.len() <= usize::MAX,
        0 <= done <= before.len(),
    ensures
        ({
            let now = restored(files, before, put_back(before.len()).take(done));
            &&& now.len() == before.len()
            &&& forall|at: int| before.len() - done <= at < before.len() ==> now[at] == before[at]
        }),
    decreases done,
{
    let order = put_back(before.len());
    if done > 0 {
        restored_tail(files, before, done - 1);
        assert(order.take(done).drop_last() =~= order.take(done - 1));
    }
}

/// A registration is found by a path that it names: the first one that does, and none where none
/// does. It is found by its identifier in the same way.
pub proof fn registrations_are_found(
    registrations: Seq<RegistrationView>,
    path: Seq<u8>,
    id: Seq<char>,
)
    ensures
        match first_naming(registrations, path) {
            Some(found) => exists|at: int|
                {
                    &&& 0 <= at < registrations.len()
                    &&& #[trigger] registrations[at] == found
                    &&& same_place(found.target_path, path)
                    &&& forall|earlier: int|
                        0 <= earlier < at ==> !same_place(
                            (#[trigger] registrations[earlier]).target_path,
                            path,
                        )
                },
            None => forall|at: int|
                0 <= at < registrations.len() ==> !same_place(
                    (#[trigger] registrations[at]).target_path,
                    path,
                ),
        },
        match with_identifier(registrations, id) {
            Some(found) => exists|at: int|
                {
                    &&& 0 <= at < registrations.len()
                    &&& #[trigger] registrations[at] == found
                    &&& found.id == id
                    &&& forall|earlier: int|
                        0 <= earlier < at ==> (#[trigger] registrations[earlier]).id != id
                },
            None => forall|at: int|
                0 <= at < registrations.len() ==> (#[trigger] registrations[at]).id != id,
        },
    decreases registrations.len(),
{
    if registrations.len() > 0 {
        let rest = registrations.skip(1);
        registrations_are_found(rest, path, id);
        assert(forall|at: int|
            0 <= at < rest.len() ==> rest[at] == #[trigger] registrations[at + 1]);
        assert forall|at: int| 0 < at < registrations.len() implies #[trigger] registrations[at]
            == rest[at - 1] by {}
        if names(registrations[0], path) {
            assert(registrations[0] == first_naming(registrations, path)->0);
        } else if let Some(found) = first_naming(rest, path) {
            let at = choose|at: int|
                {
                    &&& 0 <= at < rest.len()
                    &&& #[trigger] rest[at] == found
                    &&& same_place(found.target_path, path)
                    &&& forall|earlier: int|
                        0 <= earlier < at ==> !same_place(
                            (#[trigger] rest[earlier]).target_path,
                            path,
                        )
                };
            assert(registrations[at + 1] == found);
        }
        if registrations[0].id == id {
            assert(registrations[0] == with_identifier(registrations, id)->0);
        } else if let Some(found) = with_identifier(rest, id) {
            let at = choose|at: int|
                {
                    &&& 0 <= at < rest.len()
                    &&& #[trigger] rest[at] == found
                    &&& found.id == id
                    &&& forall|earlier: int| 0 <= earlier < at ==> (#[trigger] rest[earlier]).id
                        != id
                };
            assert(registrations[at + 1] == found);
        }
    }
}

/// The registrations after one was stored: in place of the one with its identifier, or as a new one.
pub open spec fn stored_among(
    registrations: Seq<RegistrationView>,
    stored: RegistrationView,
) -> Seq<RegistrationView> {
    if with_identifier(registrations, stored.id) is Some {
        with_stored(registrations, stored)
    } else {
        registrations.push(stored)
    }
}

/// Registering a file makes a registration that names exactly this file, whether it was registered
/// before or not: looking the file up among what is then stored gives that registration. It has the
/// name, the icon and the traits of the file that was inspected, and is shown where it was and where
/// it was asked for. A file that no registration named gets the new identifier and the present time,
/// and counts as never launched.
pub proof fn registering_names_the_file(
    registrations: Seq<RegistrationView>,
    target: Seq<u8>,
    flags: RegistrationFlags,
    inspected: InspectedAppImage,
    id: Seq<char>,
    now: u64,
)
    requires
        first_naming(registrations, target) is None ==> with_identifier(registrations, id) is None,
    ensures
        ({
            let after = registered(registrations, target, flags, inspected, id, now);
            let before = first_naming(registrations, target);
            &&& after.target_path == target
            &&& first_naming(stored_among(registrations, after), target) == Some(after)
            &&& after.display_name == inspected.display_name@
            &&& after.last_observed == Some(inspected.observation)
            &&& after.icon is BuiltIn <==> inspected.icon is None
            &&& after.applications_launcher <==> flags.applications_launcher || (before is Some
                && before->0.applications_launcher)
            &&& after.desktop_shortcut <==> flags.desktop_shortcut || (before is Some
                && before->0.desktop_shortcut)
            &&& before is None ==> after.id == id && after.created_at_unix_seconds == now
                && after.last_successful_launch_unix_seconds is None
            &&& before is Some ==> after.id == before->0.id
                && after.last_successful_launch_unix_seconds
                == before->0.last_successful_launch_unix_seconds
        }),
{
    let after = registered(registrations, target, flags, inspected, id, now);
    let stored = stored_among(registrations, after);
    registrations_are_found(registrations, target, after.id);
    match first_naming(registrations, target) {
        Some(before) => {
            let at = choose|at: int|
                {
                    &&& 0 <= at < registrations.len()
                    &&& #[trigger] registrations[at] == before
                    &&& same_place(before.target_path, target)
                    &&& forall|earlier: int|
                        0 <= earlier < at ==> !same_place(
                            (#[trigger] registrations[earlier]).target_path,
                            target,
                        )
                };
            assert(with_identifier(registrations, after.id) is Some);
            assert forall|place: int| 0 <= place < at implies #[trigger] stored[place] == after
                || !names(stored[place], target) by {
                assert(stored[place] == registrations[place] || stored[place] == after);
            }
            assert(stored[at] == after);
            first_naming_is(stored, target, after, at);
        },
        None => {
            assert forall|place: int|
                0 <= place < registrations.len() implies #[trigger] stored[place] == after
                || !names(stored[place], target) by {
                assert(stored[place] == registrations[place]);
            }
            first_naming_is(stored, target, after, registrations.len() as int);
        },
    }
}

/// Where one registration names a path and all before it are the same or do not, it is found.
proof fn first_naming_is(
    registrations: Seq<RegistrationView>,
    path: Seq<u8>,
    found: RegistrationView,
    at: int,
)
    requires
        0 <= at < registrations.len(),
        registrations[at] == found,
        names(found, path),
        forall|place: int|
            0 <= place < at ==> #[trigger] registrations[place] == found || !names(
                registrations[place],
                path,
            ),
    ensures
        first_naming(registrations, path) == Some(found),
    decreases at,
{
    if at > 0 && !names(registrations[0], path) {
        let rest = registrations.skip(1);
        assert forall|place: int| 0 <= place < at - 1 implies #[trigger] rest[place] == found
            || !names(rest[place], path) by {
            assert(rest[place] == registrations[place + 1]);
        }
        first_naming_is(rest, path, found, at - 1);
    }
}

/// Linking a registration to another file makes it name that file, with its name, icon and traits.
/// It needs consent where the file is another application, and is refused where the registration
/// was changed since it was looked at. What is refused changes nothing.
pub proof fn relinking_names_the_other_file(
    latest: RegistrationView,
    preview: RelinkPreview,
    accepts: bool,
)
    ensures
        match relinked_as(latest, preview, accepts) {
            Ok(relinked) => {
                &&& relinked.target_path == preview.candidate_path@
                &&& relinked.display_name == preview.candidate.display_name@
                &&& relinked.last_observed == Some(preview.candidate.observation)
                &&& relinked.icon is BuiltIn <==> preview.candidate.icon is None
                &&& relinked.id == latest.id
                &&& preview.identity_differs ==> accepts
                &&& latest.id == preview.current@.id
                &&& same_place(latest.target_path, preview.current@.target_path)
            },
            Err(StoreError::IdentityMismatch) => preview.identity_differs && !accepts,
            Err(error) => error == StoreError::RegistrationChanged && latest != preview.current@,
        },
        latest == preview.current@ && (accepts || !preview.identity_differs) ==> relinked_as(
            latest,
            preview,
            accepts,
        ) is Ok,
{
}

/// A registration is shown where it was put, and is gone when it is shown nowhere. Nothing else of it
/// changes, and taking it from one place undoes putting it there.
pub proof fn registrations_are_shown_where_they_were_put(
    registration: RegistrationView,
    flags: RegistrationFlags,
)
    ensures
        with_applications(registration).applications_launcher,
        with_applications(registration).desktop_shortcut == registration.desktop_shortcut,
        with_desktop(registration).desktop_shortcut,
        with_desktop(registration).applications_launcher == registration.applications_launcher,
        without_applications(registration) is None <==> !registration.desktop_shortcut,
        without_desktop(registration) is None <==> !registration.applications_launcher,
        without_applications(registration) is Some ==> !without_applications(
            registration,
        )->0.applications_launcher && without_applications(registration)->0.desktop_shortcut,
        without_desktop(registration) is Some ==> !without_desktop(registration)->0.desktop_shortcut
            && without_desktop(registration)->0.applications_launcher,
        !registration.applications_launcher && registration.desktop_shortcut
            ==> without_applications(with_applications(registration)) == Some(registration),
        registration.applications_launcher && !registration.desktop_shortcut ==> without_desktop(
            with_desktop(registration),
        ) == Some(registration),
        with_applications(registration).target_path == registration.target_path,
        with_desktop(registration).target_path == registration.target_path,
        with_applications(registration).id == registration.id,
        with_desktop(registration).id == registration.id,
        shown_at(registration, flags) is None <==> !flags.applications_launcher
            && !flags.desktop_shortcut,
        match shown_at(registration, flags) {
            Some(shown) => {
                &&& shown.applications_launcher == flags.applications_launcher
                &&& shown.desktop_shortcut == flags.desktop_shortcut
                &&& shown.id == registration.id
                &&& shown.target_path == registration.target_path
                &&& shown.display_name == registration.display_name
                &&& shown.icon == registration.icon
            },
            None => true,
        },
{
}

/// Only a file that is an AppImage is launched; what is reported of another one tells whether it is
/// there. A launch is remembered by its time, and changes nothing else.
pub proof fn only_appimages_are_launched(
    check: TargetCheck,
    registration: RegistrationView,
    now: u64,
)
    ensures
        refused_launch(check) is None <==> check == TargetCheck::Valid,
        refused_launch(check) != Some(LaunchStatus::Started),
        refused_launch(check) == Some(LaunchStatus::TargetMissing) <==> check
            == TargetCheck::Missing,
        started_at(registration, now).last_successful_launch_unix_seconds == Some(now),
        (RegistrationView {
            last_successful_launch_unix_seconds: registration.last_successful_launch_unix_seconds,
            ..started_at(registration, now)
        }) == registration,
{
}

/// The launchers of a registration are written exactly where it is shown. An icon that was just found
/// is written, and one that was found before is kept; a registration that cannot be stored is
/// refused.
pub proof fn launchers_follow_the_registration(registration: RegistrationView, found: bool)
    ensures
        projected(registration, found) is Ok <==> is_representable(registration.target_path),
        match projected(registration, found) {
            Ok(projection) => {
                &&& projection.applications == registration.applications_launcher
                &&& projection.desktop == registration.desktop_shortcut
                &&& found <==> projection.icon == IconProjection::Extracted
                &&& projection.icon == IconProjection::Fallback <==> !found && registration.icon
                    is BuiltIn
            },
            Err(error) => error == StoreError::InvalidTarget,
        },
{
}

/// A renaming is given up only where the file is still under its old name, and never where it is
/// under the new one alone.
pub proof fn renaming_is_given_up_only_undone(
    expected: FileObservation,
    old: Option<FileObservation>,
    new: Option<FileObservation>,
    collision: bool,
)
    ensures
        is_abandoned(expected, old, new, collision) ==> old == Some(expected),
        old is None ==> !is_abandoned(expected, old, new, collision),
        old == Some(expected) && new is None ==> is_abandoned(expected, old, new, collision),
        old == Some(expected) && collision ==> is_abandoned(expected, old, new, collision),
        !collision && new is Some ==> !is_abandoned(expected, old, new, collision),
{
}

/// Renaming an entry of the desktop takes its registration along exactly where there is one: that one
/// names the old path, no other does, and none names the new one. An entry that no registration names
/// is renamed alone, and one that keeps its name is not renamed.
pub proof fn renaming_takes_the_registration_along(
    registrations: Seq<RegistrationView>,
    desktop: Seq<u8>,
    old_name: Seq<u8>,
    new_name: Seq<u8>,
)
    ensures
        ({
            let old = joined(desktop, old_name);
            let new = joined(desktop, new_name);
            let way = rename_way(registrations, desktop, old_name, new_name);
            &&& way == Ok::<RenameWay, StoreError>(RenameWay::Same) <==> old_name == new_name
            &&& way == Ok::<RenameWay, StoreError>(RenameWay::Plain) <==> old_name != new_name
                && forall|at: int|
                0 <= at < registrations.len() ==> !names(#[trigger] registrations[at], old)
            &&& match way {
                Ok(RenameWay::Registered(registration)) => {
                    &&& names(registration, old)
                    &&& registrations.contains(registration)
                    &&& forall|left: int, right: int|
                        0 <= left < registrations.len() && 0 <= right < registrations.len()
                            && names(#[trigger] registrations[left], old) && names(
                            #[trigger] registrations[right],
                            old,
                        ) ==> left == right
                    &&& forall|at: int|
                        0 <= at < registrations.len() ==> !names(#[trigger] registrations[at], new)
                    &&& is_representable(new)
                },
                _ => true,
            }
        }),
{
    let old = joined(desktop, old_name);
    let new = joined(desktop, new_name);
    counted_are_named(registrations, old);
    counted_are_named(registrations, new);
    counted_is_found(registrations, old);
    if naming_count(registrations, old) > 0 {
        let place = first_names(registrations, old);
        assert(names(registrations[place], old));
        assert(registrations.contains(registrations[place]));
    }
}

/// Only the launchers of registrations lead to one, and each to its own.
pub proof fn only_launchers_lead_to_registrations(name: Seq<char>, id: Seq<char>)
    ensures
        launcher_registration(name) == Some(id) <==> is_identifier(id) && name
            == "buzzardos-appimage-"@ + id + ".desktop"@,
{
    let front = "buzzardos-appimage-"@;
    let end = ".desktop"@;
    if launcher_registration(name) == Some(id) {
        let rest = name.skip(front.len() as int);
        assert(name =~= front + rest);
        assert(rest =~= id + end);
        assert(name =~= front + id + end);
    }
    if is_identifier(id) && name == front + id + end {
        launchers_lead_back(id);
    }
}

/// A name that a journal accepts is that of an entry of the desktop: it neither leads out of the
/// desktop nor is it the desktop.
pub proof fn accepted_names_stay_on_the_desktop(desktop: Seq<u8>, name: Seq<u8>)
    ensures
        name_fault(name) is None ==> crate::paste::is_entry_of(joined(desktop, name), desktop)
            && name.len() <= 255 && vstd::utf8::valid_utf8(name),
        crate::paths::is_entry_name(name) && name.len() <= 255 && !name.contains(0u8)
            && vstd::utf8::valid_utf8(name) ==> name_fault(name) is None,
{
    if name_fault(name) is None {
        crate::paste::entries_lie_in_their_directory(desktop, desktop, name);
    }
}

} // verus!
