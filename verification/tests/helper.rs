//! Registrations, extraction, actions of the file manager, and commands.

use buzzardos_guest::chooser::{
    choose_relink, display_path, identity_detail, launch_with_relink, ChooserAction, ChooserEvent,
    ChooserState, LaunchFollowUp, LaunchResult, RelinkOutcome,
};
use buzzardos_guest::command::{
    exactly_one_path, parse_command, parse_id, validate_open, CommandError, HelperCommand,
    IdCommand, PathCommand,
};
use buzzardos_guest::extracted::{
    extracted_desktop_arguments, extracted_path, has_desktop_field_code, launch_arguments,
    launch_route, no_sandbox_approved, parse_arguments, temporary_name, validate_apprun,
    validate_owned_directory, DesktopFile, ExtractionError, FileFacts, LaunchRoute,
};
use buzzardos_guest::inspector::{FileObservation, InspectedAppImage, InspectedIcon};
use buzzardos_guest::paths::FilePath;
use buzzardos_guest::store::{
    abandons_rename, add_applications, commit_relink, find_by_target,
    managed_appimage_registration_id, plan_rename, preflight_pending_desktop_rename,
    preview_relink, projection, record_files, recovery_steps, register, remove_desktop,
    rename_steps, restore_order, set_flags, update_renamed_registration, AppImageIcon,
    AppImageRegistration, DesktopRenameJournal, DesktopRenamePhase, IconProjection, LaunchStatus,
    RegistrationFlags, RegistrationId, RelinkPreview, RenamePlan, RenameStep, StoreError,
};
use buzzardos_guest::thunar::{
    install_thunar_actions_at, ActionsError, ParsedActions, ThunarActionInstallError,
    MAX_UCA_BYTES,
};

const FIRST_ID: &str = "d5c17711-86d2-4989-9090-66bb94202d76";
const SECOND_ID: &str = "0a0a0a0a-86d2-4989-9090-66bb94202d76";

fn path(text: &str) -> FilePath {
    FilePath {
        bytes: text.as_bytes().to_vec(),
    }
}

fn id(text: &str) -> RegistrationId {
    RegistrationId::parse(text).unwrap()
}

fn registration(identifier: &str, target: &str) -> AppImageRegistration {
    AppImageRegistration {
        id: id(identifier),
        target_path: path(target),
        display_name: "Fixture".into(),
        icon: AppImageIcon::BuiltIn,
        last_observed: None,
        applications_launcher: true,
        desktop_shortcut: true,
        created_at_unix_seconds: 1,
        last_successful_launch_unix_seconds: None,
    }
}

fn observation() -> FileObservation {
    FileObservation {
        device: 1,
        inode: 2,
        size: 3,
    }
}

fn candidate(name: &str, key: &str) -> InspectedAppImage {
    InspectedAppImage {
        display_name: name.into(),
        identity_key: key.into(),
        observation: observation(),
        squashfs_offset: 4096,
        icon: Some(InspectedIcon {
            source_name: "icon.png".into(),
            content_sha256: "a".repeat(64),
            png_256: vec![1, 2, 3],
        }),
    }
}

#[test]
fn path_display_preserves_unicode_and_newlines_without_interpretation() {
    let shown = path("/shared/odd ' 100%\n日本語.AppImage");
    assert_eq!(display_path(&shown), "/shared/odd ' 100%\n日本語.AppImage");
}

#[test]
fn paths_that_are_not_text_are_shown_with_replacements() {
    let odd = FilePath {
        bytes: b"/a\xffb".to_vec(),
    };
    assert_eq!(display_path(&odd), "/a\u{fffd}b");
    assert!(identity_detail("One", "Two", &path("/x")).ends_with("Selected file: /x"));
}

#[test]
fn id_parser_rejects_shell_text_and_noncanonical_ids() {
    assert!(parse_id(&b"$(touch /tmp/no)".to_vec()).is_err());
    assert!(parse_id(&b"D5C17711-86D2-4989-9090-66BB94202D76".to_vec()).is_err());
}

#[test]
fn path_arguments_are_never_split_or_interpreted() {
    let argument = "/shared/odd ' 100%\n日本語.AppImage".as_bytes().to_vec();
    assert_eq!(
        exactly_one_path(&vec![argument]).unwrap(),
        path("/shared/odd ' 100%\n日本語.AppImage")
    );
}

fn words(text: &[&str]) -> Vec<Vec<u8>> {
    text.iter().map(|word| word.as_bytes().to_vec()).collect()
}

fn refusal(text: &[&str]) -> CommandError {
    match parse_command(&words(text)) {
        Err(error) => error,
        Ok(command) => panic!("unexpected {command:?}"),
    }
}

#[test]
fn commands_take_the_arguments_that_they_need() {
    assert!(matches!(
        parse_command(&words(&["inspect", "/a b"])),
        Ok(HelperCommand::WithPath {
            command: PathCommand::Inspect,
            ..
        })
    ));
    assert!(matches!(
        parse_command(&words(&["launch", FIRST_ID])),
        Ok(HelperCommand::WithId {
            command: IdCommand::Launch,
            ..
        })
    ));
    assert!(matches!(
        parse_command(&words(&["list", "ignored"])),
        Ok(HelperCommand::List)
    ));
    assert!(matches!(
        parse_command(&words(&["relink", FIRST_ID, "/a"])),
        Ok(HelperCommand::Relink { accepts: false, .. })
    ));
    assert!(matches!(
        parse_command(&words(&[
            "relink",
            FIRST_ID,
            "/a",
            "--accept-different-identity"
        ])),
        Ok(HelperCommand::Relink { accepts: true, .. })
    ));
    assert!(matches!(
        parse_command(&words(&["desktop-rename", "a", "b"])),
        Ok(HelperCommand::DesktopRename { .. })
    ));
    assert_eq!(refusal(&[]), CommandError::Usage);
    assert_eq!(refusal(&["nothing"]), CommandError::Unknown);
    assert_eq!(refusal(&["inspect"]), CommandError::ExactlyOne);
    assert_eq!(refusal(&["launch", "x"]), CommandError::InvalidId);
    assert_eq!(refusal(&["relink", FIRST_ID]), CommandError::RelinkUsage);
    assert_eq!(
        refusal(&["relink", FIRST_ID, "/a", "--other"]),
        CommandError::RelinkOption
    );
    assert_eq!(refusal(&["desktop-rename", "a"]), CommandError::RenameUsage);
    assert_eq!(
        refusal(&["install-thunar-actions", "x"]),
        CommandError::Unexpected
    );
    assert!(matches!(
        parse_command(&vec![vec![0xff]]),
        Err(CommandError::NotText)
    ));
    assert_eq!(parse_id(&vec![0xff]).err(), Some(CommandError::IdNotText));
    assert_eq!(
        validate_open(&path("a"), false),
        Err(CommandError::RelativePath)
    );
    assert_eq!(
        validate_open(&path("/a"), true),
        Err(CommandError::SymbolicLink)
    );
    assert_eq!(validate_open(&path("/a"), false), Ok(()));
}

#[test]
fn launchers_lead_back_to_their_registration() {
    let name = id(FIRST_ID).desktop_file_id();
    assert_eq!(
        managed_appimage_registration_id(&name).map(|found| found.text),
        Some(FIRST_ID.to_string())
    );
    assert!(managed_appimage_registration_id("firefox.desktop").is_none());
    assert!(managed_appimage_registration_id("buzzardos-appimage-x.desktop").is_none());
}

#[test]
fn relink_preserves_id_and_launcher_names_and_detects_identity_change() {
    let current = registration(FIRST_ID, "/shared/old.AppImage");
    let preview = RelinkPreview {
        current: current.duplicate(),
        candidate: candidate("Different", "different"),
        candidate_path: path("/shared/new.AppImage"),
        identity_differs: true,
    };
    assert!(matches!(
        commit_relink(current.duplicate(), &preview, false),
        Err(StoreError::IdentityMismatch)
    ));
    let changed = commit_relink(current.duplicate(), &preview, true).unwrap();
    assert!(changed.id.same(&current.id));
    assert_eq!(changed.target_path, path("/shared/new.AppImage"));
    assert_eq!(
        changed.id.desktop_file_id(),
        current.id.desktop_file_id()
    );
}

#[test]
fn relinking_what_changed_in_the_meantime_is_refused() {
    let preview = preview_relink(
        registration(FIRST_ID, "/a.AppImage"),
        candidate("Fixture", "fixture"),
        path("/b.AppImage"),
    );
    assert!(!preview.identity_differs);
    let same = registration(FIRST_ID, "//a.AppImage");
    assert!(commit_relink(same, &preview, true).is_ok());
    let mut latest = registration(FIRST_ID, "/a.AppImage");
    latest.desktop_shortcut = false;
    assert!(matches!(
        commit_relink(latest, &preview, true),
        Err(StoreError::RegistrationChanged)
    ));
}

#[test]
fn record_listing_is_bounded_and_sorted() {
    let listed = record_files(&vec![
        path("/records/b.json"),
        path("/records/note.txt"),
        path("/records/a.json"),
    ])
    .unwrap();
    assert_eq!(listed, vec![path("/records/a.json"), path("/records/b.json")]);
    let many: Vec<FilePath> = (0..4097)
        .map(|index| path(&format!("/records/{index}.json")))
        .collect();
    assert_eq!(record_files(&many), Err(StoreError::RegistrationLimit));
}

#[test]
fn registering_again_keeps_the_identifier() {
    let registrations = vec![registration(FIRST_ID, "/a.AppImage")];
    let again = register(
        &registrations,
        &path("/a.AppImage"),
        RegistrationFlags::applications(),
        &candidate("Other", "other"),
        id(SECOND_ID),
        9,
    );
    assert_eq!(again.id.text, FIRST_ID);
    assert_eq!(again.created_at_unix_seconds, 1);
    assert_eq!(again.display_name, "Other");
    assert!(again.desktop_shortcut);
    let new = register(
        &registrations,
        &path("/b.AppImage"),
        RegistrationFlags::desktop(),
        &candidate("Other", "other"),
        id(SECOND_ID),
        9,
    );
    assert_eq!(new.id.text, SECOND_ID);
    assert_eq!(new.created_at_unix_seconds, 9);
    assert!(!new.applications_launcher && new.desktop_shortcut);
    assert_eq!(find_by_target(&registrations, &path("//a.AppImage")), Some(0));
}

#[test]
fn registrations_that_are_shown_nowhere_are_removed() {
    let mut only_desktop = registration(FIRST_ID, "/a.AppImage");
    only_desktop.applications_launcher = false;
    assert!(remove_desktop(only_desktop.duplicate()).is_none());
    assert!(add_applications(only_desktop.duplicate()).applications_launcher);
    assert!(set_flags(only_desktop, RegistrationFlags::applications())
        .is_some_and(|changed| changed.applications_launcher && !changed.desktop_shortcut));
}

#[test]
fn projections_show_what_the_registration_says() {
    let shown = projection(&registration(FIRST_ID, "/a.AppImage"), false).unwrap();
    assert_eq!(shown.icon, IconProjection::Fallback);
    assert!(shown.applications && shown.desktop);
    assert_eq!(
        projection(&registration(FIRST_ID, "/a.AppImage"), true)
            .unwrap()
            .icon,
        IconProjection::Extracted
    );
    assert_eq!(
        projection(&registration(FIRST_ID, "relative"), true),
        Err(StoreError::InvalidTarget)
    );
    assert_eq!(restore_order(5), [4, 3, 2, 1, 0]);
}

fn journal() -> DesktopRenameJournal {
    DesktopRenameJournal::prepare(
        &registration(FIRST_ID, "/home/user/Desktop/Old.AppImage"),
        &path("/home/user/Desktop"),
        &b"Old.AppImage".to_vec(),
        &b"New.AppImage".to_vec(),
        observation(),
    )
    .unwrap()
}

/// What is stored of a renaming.
struct Disk {
    old: Option<FileObservation>,
    new: Option<FileObservation>,
    journal: Option<DesktopRenamePhase>,
    registrations: Vec<AppImageRegistration>,
}

impl Disk {
    fn run(&mut self, step: RenameStep) {
        match step {
            RenameStep::WriteJournal(phase) => self.journal = Some(phase),
            RenameStep::RenameFile => {
                self.new = self.old.take();
            }
            RenameStep::SyncDirectory => {}
            RenameStep::UpdateRegistration => {
                let updated = update_renamed_registration(
                    &journal(),
                    &path("/home/user/Desktop"),
                    &self.registrations,
                )
                .unwrap();
                self.registrations = vec![updated];
            }
            RenameStep::ClearJournal => self.journal = None,
        }
    }
}

#[test]
fn registered_desktop_rename_recovers_after_every_durable_phase() {
    let steps = rename_steps();
    for count in 0..=steps.len() {
        let mut disk = Disk {
            old: Some(observation()),
            new: None,
            journal: None,
            registrations: vec![registration(FIRST_ID, "/home/user/Desktop/Old.AppImage")],
        };
        for step in &steps[..count] {
            disk.run(*step);
        }
        if disk.journal.is_some() {
            preflight_pending_desktop_rename(
                &journal(),
                &path("/home/user/Desktop"),
                &disk.registrations,
            )
            .unwrap();
            for step in recovery_steps(&journal(), disk.old, disk.new).unwrap() {
                disk.run(step);
            }
        }
        assert_eq!(disk.journal, None);
        if count == 0 {
            assert_eq!(disk.old, Some(observation()));
        } else {
            assert_eq!(disk.old, None);
            assert_eq!(disk.new, Some(observation()));
            assert_eq!(
                disk.registrations[0].target_path,
                path("/home/user/Desktop/New.AppImage")
            );
        }
    }
}

#[test]
fn recovery_rejects_a_replaced_source_without_deleting_either_file() {
    let other = FileObservation {
        device: 1,
        inode: 9,
        size: 3,
    };
    assert!(matches!(
        recovery_steps(&journal(), Some(other), None),
        Err(StoreError::AmbiguousLocation)
    ));
    assert!(matches!(
        recovery_steps(&journal(), Some(observation()), Some(other)),
        Err(StoreError::AmbiguousLocation)
    ));
}

#[test]
fn destination_created_after_prepared_journal_aborts_without_wedging_startup() {
    assert!(abandons_rename(
        &journal(),
        Some(observation()),
        Some(observation()),
        true
    ));
    assert!(abandons_rename(&journal(), Some(observation()), None, false));
    assert!(!abandons_rename(&journal(), None, Some(observation()), false));
}

fn plan(registrations: &Vec<AppImageRegistration>, new_name: &[u8]) -> Result<RenamePlan, StoreError> {
    plan_rename(
        registrations,
        &path("/home/user/Desktop"),
        &b"Old.AppImage".to_vec(),
        &new_name.to_vec(),
    )
}

#[test]
fn duplicate_source_registrations_fail_closed_before_rename() {
    let old = "/home/user/Desktop/Old.AppImage";
    assert_eq!(
        plan(
            &vec![registration(FIRST_ID, old), registration(SECOND_ID, old)],
            b"New.AppImage"
        ),
        Err(StoreError::SeveralNameSource)
    );
    assert_eq!(
        plan(
            &vec![
                registration(FIRST_ID, old),
                registration(SECOND_ID, "/home/user/Desktop/New.AppImage")
            ],
            b"New.AppImage"
        ),
        Err(StoreError::AnotherNamesDestination)
    );
    assert_eq!(plan(&Vec::new(), b"New.AppImage"), Ok(RenamePlan::Plain));
    assert_eq!(plan(&Vec::new(), b"Old.AppImage"), Ok(RenamePlan::Same));
    assert_eq!(
        plan(&vec![registration(FIRST_ID, old)], b"New.AppImage"),
        Ok(RenamePlan::Registered(0))
    );
}

#[test]
fn registered_rename_rejects_names_that_no_registration_can_hold() {
    let registrations = vec![registration(FIRST_ID, "/home/user/Desktop/Old.AppImage")];
    assert_eq!(
        plan(&registrations, b"New\xff.AppImage"),
        Err(StoreError::InvalidTarget)
    );
    assert_eq!(
        plan(&registrations, &vec![b'n'; 4096]),
        Err(StoreError::InvalidTarget)
    );
}

#[test]
fn malformed_journals_are_refused() {
    let desktop = path("/home/user/Desktop");
    let mut wrong = journal();
    wrong.schema_version = 2;
    assert_eq!(wrong.validate(&desktop), Err(StoreError::JournalSchema));
    let mut wrong = journal();
    wrong.new_name = b"a/b".to_vec();
    assert_eq!(wrong.validate(&desktop), Err(StoreError::JournalName));
    let mut wrong = journal();
    wrong.new_name = vec![0xff];
    assert_eq!(wrong.validate(&desktop), Err(StoreError::JournalNameNotText));
    let mut wrong = journal();
    wrong.new_name = wrong.old_name.clone();
    assert_eq!(wrong.validate(&desktop), Err(StoreError::JournalSameNames));
    let mut wrong = journal();
    wrong.expected_file.size = 0;
    assert_eq!(wrong.validate(&desktop), Err(StoreError::JournalIdentity));
    assert_eq!(
        journal().validate(&path("/elsewhere")),
        Err(StoreError::JournalOtherDesktop)
    );
    let mut relative = journal();
    relative.desktop_path = b"Desktop".to_vec();
    assert_eq!(
        relative.validate(&path("Desktop")),
        Err(StoreError::UnsafeManagedPath)
    );
}

#[test]
fn recovery_is_refused_where_registrations_disagree() {
    let desktop = path("/home/user/Desktop");
    assert_eq!(
        preflight_pending_desktop_rename(&journal(), &desktop, &Vec::new()),
        Err(StoreError::RegistrationGone)
    );
    assert_eq!(
        preflight_pending_desktop_rename(
            &journal(),
            &desktop,
            &vec![registration(FIRST_ID, "/elsewhere")]
        ),
        Err(StoreError::RegistrationElsewhere)
    );
    assert_eq!(
        preflight_pending_desktop_rename(
            &journal(),
            &desktop,
            &vec![
                registration(FIRST_ID, "/home/user/Desktop/Old.AppImage"),
                registration(SECOND_ID, "/home/user/Desktop/New.AppImage")
            ]
        ),
        Err(StoreError::AnotherNames)
    );
}

fn facts() -> FileFacts {
    FileFacts {
        regular: true,
        directory: false,
        link: false,
        owned: true,
        mode: 0o100600,
        length: 0,
    }
}

#[test]
fn extraction_is_source_adjacent_and_remembers_no_sandbox() {
    assert_eq!(
        extracted_path(&path("/opt/Tool.AppImage")),
        path("/opt/Tool.AppImage.extracted")
    );
    assert!(no_sandbox_approved(&Some(facts())));
    assert!(!no_sandbox_approved(&None));
    for unsafe_marker in [
        FileFacts {
            mode: 0o100644,
            ..facts()
        },
        FileFacts {
            length: 1,
            ..facts()
        },
        FileFacts {
            link: true,
            ..facts()
        },
        FileFacts {
            owned: false,
            ..facts()
        },
    ] {
        assert!(!no_sandbox_approved(&Some(unsafe_marker)));
    }
    assert_eq!(launch_route(true, true), LaunchRoute::Extracted);
    assert_eq!(launch_route(false, true), LaunchRoute::Extract);
    assert_eq!(launch_route(false, false), LaunchRoute::Direct);
    assert_eq!(
        temporary_name(&b"T".to_vec(), 7, 8, 9),
        b".T.tmp-7-8-9".to_vec()
    );
}

fn texts(list: &[&str]) -> Vec<String> {
    list.iter().map(|text| text.to_string()).collect()
}

#[test]
fn launches_apply_only_approved_fixed_arguments() {
    let arguments = parse_arguments(
        "[Desktop Entry]\r\nName=x\r\nExec=AppRun --flag '100%% sure' --no-sandbox %U file=%f\r\n",
    )
    .unwrap();
    assert_eq!(arguments, ["--flag", "100% sure", "--no-sandbox"]);
    assert_eq!(
        launch_arguments(&arguments, false),
        ["--flag", "100% sure"]
    );
    assert_eq!(
        launch_arguments(&texts(&["a", "--no-sandbox", "b", "--no-sandbox"]), true),
        ["a", "--no-sandbox", "b"]
    );
    assert_eq!(
        launch_arguments(&texts(&["a"]), true),
        ["a", "--no-sandbox"]
    );
    assert!(has_desktop_field_code("%u"));
    assert!(!has_desktop_field_code("%%u"));
    assert!(parse_arguments("Name=x").is_none());
    assert!(parse_arguments("Exec='unclosed").is_none());
}

#[test]
fn the_first_usable_description_counts() {
    let file = |facts: FileFacts, content: &str| DesktopFile {
        facts,
        content: Some(content.to_string()),
    };
    let readable = FileFacts {
        length: 10,
        ..facts()
    };
    let linked = FileFacts {
        link: true,
        ..readable
    };
    let arguments = extracted_desktop_arguments(&vec![
        file(linked, "Exec=x linked"),
        file(readable, "no command"),
        file(readable, "Exec=x one"),
        file(readable, "Exec=x two"),
    ]);
    assert_eq!(arguments, ["one"]);
    assert!(extracted_desktop_arguments(&Vec::new()).is_empty());
}

#[test]
fn programs_stay_in_their_directory() {
    let directory = path("/opt/T.extracted");
    let program = FileFacts {
        mode: 0o100644,
        ..facts()
    };
    assert_eq!(
        validate_apprun(&path("/opt/T.extracted/AppRun"), &directory, &program),
        Ok(Some(0o100744))
    );
    assert_eq!(
        validate_apprun(&path("/opt/T.extracted2/AppRun"), &directory, &program),
        Err(ExtractionError::Escapes)
    );
    assert_eq!(
        validate_apprun(
            &path("/opt/T.extracted/AppRun"),
            &directory,
            &FileFacts {
                owned: false,
                ..program
            }
        ),
        Err(ExtractionError::ForeignFile)
    );
    assert_eq!(
        validate_owned_directory(&facts()),
        Err(ExtractionError::NotADirectory)
    );
}

#[test]
fn relinking_asks_before_another_application_is_used() {
    let (state, action) = choose_relink(
        ChooserState::Previewing,
        ChooserEvent::Previewed { differs: true },
    );
    assert_eq!(state, ChooserState::Confirming);
    assert_eq!(action, ChooserAction::AskIdentity);
    let (state, action) = choose_relink(state, ChooserEvent::Answered { yes: false });
    assert_eq!((state, action), (ChooserState::Picking, ChooserAction::Pick));
    assert_eq!(
        choose_relink(ChooserState::Picking, ChooserEvent::Dismissed),
        (ChooserState::Over, ChooserAction::Cancelled)
    );
}

fn launch_result(status: LaunchStatus) -> LaunchResult {
    LaunchResult {
        status,
        registration: registration(FIRST_ID, "/a.AppImage"),
        child: Some(7),
        diagnostic: Some("first".into()),
    }
}

#[test]
fn a_launch_that_failed_leads_to_another_file() {
    match launch_with_relink(launch_result(LaunchStatus::Started), None) {
        LaunchFollowUp::Report(report) => {
            assert_eq!(report.status, LaunchStatus::Started);
            assert_eq!(report.child, Some(7));
            assert_eq!(report.diagnostic.as_deref(), Some("first"));
        }
        _ => panic!("a launch that succeeded is reported"),
    }
    let kept = match launch_with_relink(launch_result(LaunchStatus::TargetMissing), None) {
        LaunchFollowUp::Choose(kept) => kept,
        _ => panic!("another file is chosen"),
    };
    assert_eq!(kept.status, LaunchStatus::TargetMissing);
    let other = registration(SECOND_ID, "/b.AppImage");
    match launch_with_relink(kept, Some(RelinkOutcome::Cancelled(other))) {
        LaunchFollowUp::Report(report) => {
            assert_eq!(report.status, LaunchStatus::TargetMissing);
            assert!(report.registration.id.same(&id(SECOND_ID)));
            assert_eq!(report.child, None);
            assert_eq!(
                report.diagnostic.as_deref(),
                Some("target_missing: relink cancelled; registration unchanged")
            );
        }
        _ => panic!("a cancelled choice is reported"),
    }
    let relinked = RelinkOutcome::Relinked(registration(FIRST_ID, "/b.AppImage"));
    assert!(matches!(
        launch_with_relink(launch_result(LaunchStatus::TargetInvalid), Some(relinked)),
        LaunchFollowUp::LaunchAgain
    ));
}

const APPLICATIONS_ID: &str = "buzzardos-appimage-add-applications-v1";
const DESKTOP_ID: &str = "buzzardos-appimage-add-desktop-v1";
const APPLICATIONS_COMMAND: &str =
    "/usr/libexec/buzzardos-shortcut-helper register-applications %f";

const TEMPLATE: &str = r#"<?xml version="1.0" encoding="UTF-8"?>
<actions>
  <action>
    <icon>application-x-executable</icon>
    <name>Add to Applications</name>
    <unique-id>buzzardos-appimage-add-applications-v1</unique-id>
    <command>/usr/libexec/buzzardos-shortcut-helper register-applications %f</command>
    <description>Register this AppImage in the Applications menu</description>
    <range>1-1</range>
    <patterns>*.AppImage;*.appimage</patterns>
    <other-files/>
  </action>
  <action>
    <icon>user-desktop</icon>
    <name>Add Desktop Shortcut</name>
    <unique-id>buzzardos-appimage-add-desktop-v1</unique-id>
    <command>/usr/libexec/buzzardos-shortcut-helper register-desktop %f</command>
    <description>Create a desktop shortcut linked to this AppImage</description>
    <range>1-1</range>
    <patterns>*.AppImage;*.appimage</patterns>
    <other-files/>
  </action>
</actions>
"#;

fn install(
    template: &str,
    original: Option<&[u8]>,
) -> Result<(String, bool, usize), ThunarActionInstallError> {
    install_thunar_actions_at(
        &path("/home/user/.config"),
        &template.as_bytes().to_vec(),
        &original.map(|bytes| bytes.to_vec()),
        true,
    )
    .map(|install| {
        (
            String::from_utf8(install.content).unwrap(),
            install.changed,
            install.preserved_custom_actions,
        )
    })
}

#[test]
fn installs_two_fixed_actions_and_is_byte_idempotent() {
    let (first, changed, preserved) = install(TEMPLATE, None).unwrap();
    assert!(changed);
    assert_eq!(preserved, 0);
    let (second, changed, _) = install(TEMPLATE, Some(first.as_bytes())).unwrap();
    assert!(!changed);
    assert_eq!(second, first);
    for managed in [APPLICATIONS_ID, DESKTOP_ID] {
        assert_eq!(first.matches(managed).count(), 1);
    }
    assert!(!first.contains("sh -c"));
    assert!(!first.contains("%F"));
}

#[test]
fn installing_into_a_closed_list_is_byte_idempotent() {
    let original = "<?xml version=\"1.0\"?>\n<!-- mine -->\n<actions/>\n<!-- end -->\n";
    let (first, changed, preserved) = install(TEMPLATE, Some(original.as_bytes())).unwrap();
    assert!(changed);
    assert_eq!(preserved, 0);
    assert!(first.starts_with("<?xml version=\"1.0\"?>\n<!-- mine -->\n<actions>\n"));
    assert!(first.ends_with("</actions>\n<!-- end -->\n"));
    let (second, changed, _) = install(TEMPLATE, Some(first.as_bytes())).unwrap();
    assert!(!changed);
    assert_eq!(second, first);
}

#[test]
fn preserves_user_actions_comments_and_commands_exactly() {
    let custom = r#"<?xml version="1.0" encoding="UTF-8"?>
<actions>
<!-- user comment must remain byte-identical -->
<action><name>User &amp; Action</name><unique-id>1700000000000000-1</unique-id><command>printf '%s' %f</command><patterns>*</patterns><other-files/></action>
</actions>
"#;
    let (result, _, preserved) = install(TEMPLATE, Some(custom.as_bytes())).unwrap();
    assert_eq!(preserved, 1);
    assert!(result.contains("<!-- user comment must remain byte-identical -->"));
    assert!(result.contains("<command>printf '%s' %f</command>"));
    assert!(result.contains("<unique-id>1700000000000000-1</unique-id>"));
}

#[test]
fn refreshes_only_managed_ids_after_thunar_reserializes_the_file() {
    let stale = TEMPLATE.replace(
        "register-applications %f",
        "register-applications --obsolete %f",
    );
    let (result, _, _) = install(TEMPLATE, Some(stale.as_bytes())).unwrap();
    assert!(!result.contains("--obsolete"));
    assert_eq!(result.matches(APPLICATIONS_ID).count(), 1);
    assert_eq!(result.matches(DESKTOP_ID).count(), 1);
}

#[test]
fn malformed_or_unsafe_user_file_is_never_replaced() {
    assert_eq!(
        install(TEMPLATE, Some(b"<actions><action>")),
        Err(ThunarActionInstallError::InvalidUserXml(
            ActionsError::Malformed
        ))
    );
    assert_eq!(
        install(TEMPLATE, Some(b"<other/>")),
        Err(ThunarActionInstallError::InvalidUserXml(ActionsError::Root))
    );
    assert_eq!(
        install(TEMPLATE, Some(b"\xff")),
        Err(ThunarActionInstallError::UserNotText)
    );
    assert_eq!(
        install(TEMPLATE, Some(b"<actions>\0</actions>")),
        Err(ThunarActionInstallError::InvalidUserXml(ActionsError::Nul))
    );
}

#[test]
fn oversized_or_entity_bearing_user_file_is_preserved() {
    let oversized = vec![b'x'; MAX_UCA_BYTES + 1];
    assert_eq!(
        install(TEMPLATE, Some(&oversized)),
        Err(ThunarActionInstallError::TooLarge)
    );
    let entity = b"<!DOCTYPE actions [<!ENTITY x 'unsafe'>]><actions></actions>";
    assert_eq!(
        install(TEMPLATE, Some(entity)),
        Err(ThunarActionInstallError::InvalidUserXml(
            ActionsError::Declarations
        ))
    );
}

#[test]
fn tampered_managed_template_is_rejected() {
    assert_eq!(
        install(
            &TEMPLATE.replace(APPLICATIONS_COMMAND, "sh -c 'unsafe' %f"),
            None
        ),
        Err(ThunarActionInstallError::ApplicationsAction)
    );
    assert_eq!(
        install(&TEMPLATE.replace("Add Desktop Shortcut", "x"), None),
        Err(ThunarActionInstallError::DesktopAction)
    );
    assert_eq!(
        install("<actions></actions>", None),
        Err(ThunarActionInstallError::NotManaged)
    );
    assert_eq!(
        install("<actions>", None),
        Err(ThunarActionInstallError::InvalidTemplate(
            ActionsError::Malformed
        ))
    );
}

#[test]
fn empty_actions_root_is_expanded_without_losing_surrounding_bytes() {
    let (result, _, _) = install(
        TEMPLATE,
        Some(b"<?xml version=\"1.0\"?>\n<actions/>\n<!-- tail -->\n"),
    )
    .unwrap();
    assert!(result.contains("</actions>\n<!-- tail -->"));
    assert_eq!(result.matches(APPLICATIONS_ID).count(), 1);
    assert_eq!(result.matches(DESKTOP_ID).count(), 1);
}

#[test]
fn settings_need_an_absolute_directory() {
    assert!(matches!(
        install_thunar_actions_at(
            &path("relative"),
            &TEMPLATE.as_bytes().to_vec(),
            &None,
            true
        ),
        Err(ThunarActionInstallError::InvalidConfigBase)
    ));
    let parsed = ParsedActions::parse(TEMPLATE).unwrap();
    assert_eq!(parsed.actions.len(), 2);
    assert_eq!(parsed.action_by_id(DESKTOP_ID), Some(1));
    assert_eq!(parsed.actions[1].range_value.as_deref(), Some("1-1"));
}
