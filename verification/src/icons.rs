//! Where the icons of applications are looked for, and how they are taken in.

use vstd::prelude::*;
use vstd::string::*;
use crate::canvas::AppIcon;
use crate::inspector::{extension_of, stem_of};
use crate::lists::{filter_ends, filter_step, first_is_kept, first_kept};
use crate::model::{application_views, ActionView, ApplicationView};
use crate::model::{Application, DesktopItemKind, HitTarget, ShellAction};
use crate::paths::{copy_bytes, from_utf8, same_bytes, FilePath};
use crate::paths::{byte_parts, file_name_of, joined, path_views};
use crate::text::{characters, comes_before, optional_text, text_before, text_is, text_views};
use crate::text::finishes_with;

verus! {

/// Bytes in which the letters are in lower case.
pub open spec fn lowered(byte: u8) -> u8 {
    if 65 <= byte <= 90 {
        (byte + 32) as u8
    } else {
        byte
    }
}

/// Whether bytes are those of a text, whatever the case of the letters.
pub open spec fn is_like(bytes: Seq<u8>, text: Seq<char>) -> bool {
    let wanted = vstd::utf8::encode_utf8(text);
    bytes.len() == wanted.len() && forall|at: int|
        0 <= at < bytes.len() ==> lowered(#[trigger] bytes[at]) == lowered(wanted[at])
}

/// Whether bytes are those of a text, whatever the case of the letters.
fn looks_like(bytes: &Vec<u8>, text: &str) -> (like: bool)
    ensures
        like == is_like(bytes@, text@),
{
    let wanted = text.as_bytes();
    if bytes.len() != wanted.len() {
        return false;
    }
    let mut at: usize = 0;
    while at < bytes.len()
        invariant
            at <= bytes.len(),
            bytes@.len() == wanted@.len(),
            wanted@ == vstd::utf8::encode_utf8(text@),
            forall|earlier: int|
                0 <= earlier < at ==> lowered(#[trigger] bytes@[earlier]) == lowered(
                    wanted@[earlier],
                ),
        decreases bytes.len() - at,
    {
        if lower(bytes[at]) != lower(wanted[at]) {
            assert(lowered(bytes@[at as int]) != lowered(wanted@[at as int]));
            return false;
        }
        at = at + 1;
    }
    true
}

/// A byte in lower case.
fn lower(byte: u8) -> (low: u8)
    ensures
        low == lowered(byte),
{
    if 65 <= byte && byte <= 90 {
        byte + 32
    } else {
        byte
    }
}

/// The name of an icon without the ending of an image.
pub open spec fn bare_name(name: Seq<u8>) -> Seq<u8> {
    match (extension_of(name), stem_of(name)) {
        (Some(extension), Some(stem)) if is_like(extension, "png"@) || is_like(extension, "svg"@) =>
        stem,
        _ => name,
    }
}

/// The names under which an icon is looked for.
pub open spec fn icon_names(name: Seq<u8>) -> Seq<Seq<u8>> {
    let bare = bare_name(name);
    let names = seq![bare, bare + vstd::utf8::encode_utf8("-symbolic"@)];
    if bare == vstd::utf8::encode_utf8("applications-development"@) {
        names.push(vstd::utf8::encode_utf8("applications-engineering-symbolic"@))
    } else {
        names
    }
}

/// The themes that icons are taken from; the last one is no directory of its own.
pub open spec fn icon_themes() -> Seq<Seq<char>> {
    seq!["BuzzardOS"@, "hicolor"@, "Adwaita"@, "default"@, ""@]
}

/// The sizes that icons are taken in.
pub open spec fn icon_sizes() -> Seq<Seq<char>> {
    seq![
        "48x48"@,
        "64x64"@,
        "32x32"@,
        "128x128"@,
        "256x256"@,
        "scalable"@,
        "symbolic"@,
    ]
}

/// The kinds that icons are taken from.
pub open spec fn icon_contexts() -> Seq<Seq<char>> {
    seq![
        "apps"@,
        "applications"@,
        "categories"@,
        "places"@,
        "actions"@,
        "devices"@,
        "legacy"@,
        "mimetypes"@,
        "status"@,
    ]
}

/// The files of those names in a directory: of each the PNG image first.
pub open spec fn files_in(directory: Seq<u8>, names: Seq<Seq<u8>>) -> Seq<Seq<u8>>
    decreases names.len(),
{
    if names.len() == 0 {
        seq![]
    } else {
        files_in(directory, names.drop_last()) + seq![
            joined(directory, names.last() + vstd::utf8::encode_utf8(".png"@)),
            joined(directory, names.last() + vstd::utf8::encode_utf8(".svg"@)),
        ]
    }
}

/// The files of those names in the directories of contexts.
pub open spec fn files_in_contexts(
    directory: Seq<u8>,
    contexts: Seq<Seq<char>>,
    names: Seq<Seq<u8>>,
) -> Seq<Seq<u8>>
    decreases contexts.len(),
{
    if contexts.len() == 0 {
        seq![]
    } else {
        files_in_contexts(directory, contexts.drop_last(), names) + files_in(
            joined(directory, vstd::utf8::encode_utf8(contexts.last())),
            names,
        )
    }
}

/// The files of those names in the directories of sizes.
pub open spec fn files_in_sizes(
    directory: Seq<u8>,
    sizes: Seq<Seq<char>>,
    names: Seq<Seq<u8>>,
) -> Seq<Seq<u8>>
    decreases sizes.len(),
{
    if sizes.len() == 0 {
        seq![]
    } else {
        files_in_sizes(directory, sizes.drop_last(), names) + files_in_contexts(
            joined(directory, vstd::utf8::encode_utf8(sizes.last())),
            icon_contexts(),
            names,
        )
    }
}

/// The directory of a theme.
pub open spec fn theme_directory(root: Seq<u8>, theme: Seq<char>) -> Seq<u8> {
    if theme.len() == 0 {
        root
    } else {
        joined(root, vstd::utf8::encode_utf8(theme))
    }
}

/// The files of those names in the directories of themes.
pub open spec fn files_in_themes(
    root: Seq<u8>,
    themes: Seq<Seq<char>>,
    names: Seq<Seq<u8>>,
) -> Seq<Seq<u8>>
    decreases themes.len(),
{
    if themes.len() == 0 {
        seq![]
    } else {
        files_in_themes(root, themes.drop_last(), names) + files_in_sizes(
            theme_directory(root, themes.last()),
            icon_sizes(),
            names,
        )
    }
}

/// The files of those names below the directories for icons.
pub open spec fn files_in_roots(roots: Seq<Seq<u8>>, names: Seq<Seq<u8>>) -> Seq<Seq<u8>>
    decreases roots.len(),
{
    if roots.len() == 0 {
        seq![]
    } else {
        files_in_roots(roots.drop_last(), names) + files_in_themes(
            roots.last(),
            icon_themes(),
            names,
        )
    }
}

/// The directories for icons: the user's own first.
pub open spec fn icon_roots(home: Option<Seq<u8>>) -> Seq<Seq<u8>> {
    let own = match home {
        Some(home) => seq![
            joined(home, vstd::utf8::encode_utf8(".local/share/icons"@)),
            joined(home, vstd::utf8::encode_utf8(".icons"@)),
            joined(home, vstd::utf8::encode_utf8(".local/share/pixmaps"@)),
        ],
        None => seq![],
    };
    own + seq![
        vstd::utf8::encode_utf8("/usr/local/share/icons"@),
        vstd::utf8::encode_utf8("/usr/share/icons"@),
    ]
}

/// The files that can be the icon of that name, the best one first.
pub open spec fn icon_files(name: Seq<u8>, home: Option<Seq<u8>>) -> Seq<Seq<u8>> {
    let names = icon_names(name);
    files_in_roots(icon_roots(home), names) + files_in(
        vstd::utf8::encode_utf8("/usr/local/share/pixmaps"@),
        names,
    ) + files_in(vstd::utf8::encode_utf8("/usr/share/pixmaps"@), names)
}

/// Bytes with a text behind them.
fn with_text(bytes: &Vec<u8>, text: &str) -> (whole: Vec<u8>)
    ensures
        whole@ == bytes@ + vstd::utf8::encode_utf8(text@),
{
    let suffix = text.as_bytes();
    let mut whole: Vec<u8> = copy_bytes(bytes.as_slice());
    let mut at: usize = 0;
    assert(whole@ =~= bytes@ + suffix@.take(0));
    while at < suffix.len()
        invariant
            at <= suffix.len(),
            whole@ == bytes@ + suffix@.take(at as int),
        decreases suffix.len() - at,
    {
        whole.push(suffix[at]);
        assert(whole@ =~= bytes@ + suffix@.take(at + 1));
        at = at + 1;
    }
    assert(suffix@.take(at as int) =~= suffix@);
    whole
}

/// The path that a text is.
fn path_of(text: &str) -> (path: FilePath)
    ensures
        path@ == vstd::utf8::encode_utf8(text@),
{
    FilePath { bytes: copy_bytes(text.as_bytes()) }
}

/// The names under which an icon is looked for.
fn names_of(name: &str) -> (names: Vec<Vec<u8>>)
    ensures
        byte_parts(names@) == icon_names(vstd::utf8::encode_utf8(name@)),
{
    let whole = path_of(name);
    let bare = match (whole.extension(), whole.file_stem()) {
        (Some(extension), Some(stem)) => if looks_like(&extension, "png") || looks_like(
            &extension,
            "svg",
        ) {
            stem
        } else {
            copy_bytes(name.as_bytes())
        },
        _ => copy_bytes(name.as_bytes()),
    };
    assert(bare@ == bare_name(whole@));
    let mut names: Vec<Vec<u8>> = Vec::new();
    let develops = same_bytes(bare.as_slice(), "applications-development".as_bytes());
    let symbolic = with_text(&bare, "-symbolic");
    let ghost first = bare@;
    let ghost second = symbolic@;
    names.push(bare);
    names.push(symbolic);
    assert(byte_parts(names@) =~= seq![first, second]);
    if develops {
        let third = copy_bytes("applications-engineering-symbolic".as_bytes());
        let ghost before = byte_parts(names@);
        names.push(third);
        assert(byte_parts(names@) =~= before.push(third@));
    }
    names
}

/// Adds the files of those names in a directory.
fn add_files(files: &mut Vec<FilePath>, directory: &FilePath, names: &Vec<Vec<u8>>)
    ensures
        path_views(final(files)@) == path_views(old(files)@) + files_in(
            directory@,
            byte_parts(names@),
        ),
{
    let ghost before = path_views(files@);
    let ghost views = byte_parts(names@);
    let mut at: usize = 0;
    assert(views.take(0) =~= seq![]);
    assert(before + files_in(directory@, views.take(0)) =~= before);
    while at < names.len()
        invariant
            at <= names.len(),
            views == byte_parts(names@),
            path_views(files@) == before + files_in(directory@, views.take(at as int)),
        decreases names.len() - at,
    {
        assert(views.take(at + 1).drop_last() =~= views.take(at as int));
        assert(views[at as int] == names@[at as int]@);
        let ghost so_far = path_views(files@);
        let png = directory.join(with_text(&names[at], ".png").as_slice());
        let svg = directory.join(with_text(&names[at], ".svg").as_slice());
        files.push(png);
        files.push(svg);
        assert(path_views(files@) =~= so_far + seq![png@, svg@]);
        assert(path_views(files@) =~= before + files_in(directory@, views.take(at + 1)));
        at = at + 1;
    }
    assert(views.take(at as int) =~= views);
}

/// The kinds that icons are taken from.
fn contexts() -> (list: Vec<String>)
    ensures
        text_views(list@) == icon_contexts(),
{
    let mut list: Vec<String> = Vec::new();
    list.push("apps".to_string());
    list.push("applications".to_string());
    list.push("categories".to_string());
    list.push("places".to_string());
    list.push("actions".to_string());
    list.push("devices".to_string());
    list.push("legacy".to_string());
    list.push("mimetypes".to_string());
    list.push("status".to_string());
    assert(text_views(list@) =~= icon_contexts());
    list
}

/// The sizes that icons are taken in.
fn sizes() -> (list: Vec<String>)
    ensures
        text_views(list@) == icon_sizes(),
{
    let mut list: Vec<String> = Vec::new();
    list.push("48x48".to_string());
    list.push("64x64".to_string());
    list.push("32x32".to_string());
    list.push("128x128".to_string());
    list.push("256x256".to_string());
    list.push("scalable".to_string());
    list.push("symbolic".to_string());
    assert(text_views(list@) =~= icon_sizes());
    list
}

/// The themes that icons are taken from.
fn themes() -> (list: Vec<String>)
    ensures
        text_views(list@) == icon_themes(),
{
    let mut list: Vec<String> = Vec::new();
    list.push("BuzzardOS".to_string());
    list.push("hicolor".to_string());
    list.push("Adwaita".to_string());
    list.push("default".to_string());
    list.push("".to_string());
    assert(text_views(list@) =~= icon_themes());
    list
}

/// Adds the files of those names in the directories of contexts.
fn add_contexts(files: &mut Vec<FilePath>, directory: &FilePath, names: &Vec<Vec<u8>>)
    ensures
        path_views(final(files)@) == path_views(old(files)@) + files_in_contexts(
            directory@,
            icon_contexts(),
            byte_parts(names@),
        ),
{
    let list = contexts();
    let ghost before = path_views(files@);
    let ghost views = text_views(list@);
    let mut at: usize = 0;
    assert(views.take(0) =~= seq![]);
    assert(before + files_in_contexts(directory@, views.take(0), byte_parts(names@)) =~= before);
    while at < list.len()
        invariant
            at <= list.len(),
            views == text_views(list@),
            path_views(files@) == before + files_in_contexts(
                directory@,
                views.take(at as int),
                byte_parts(names@),
            ),
        decreases list.len() - at,
    {
        assert(views.take(at + 1).drop_last() =~= views.take(at as int));
        assert(views[at as int] == list@[at as int]@);
        let inner = directory.join(list[at].as_str().as_bytes());
        add_files(files, &inner, names);
        assert(path_views(files@) =~= before + files_in_contexts(
            directory@,
            views.take(at + 1),
            byte_parts(names@),
        ));
        at = at + 1;
    }
    assert(views.take(at as int) =~= views);
}

/// Adds the files of those names in the directories of sizes.
fn add_sizes(files: &mut Vec<FilePath>, directory: &FilePath, names: &Vec<Vec<u8>>)
    ensures
        path_views(final(files)@) == path_views(old(files)@) + files_in_sizes(
            directory@,
            icon_sizes(),
            byte_parts(names@),
        ),
{
    let list = sizes();
    let ghost before = path_views(files@);
    let ghost views = text_views(list@);
    let mut at: usize = 0;
    assert(views.take(0) =~= seq![]);
    assert(before + files_in_sizes(directory@, views.take(0), byte_parts(names@)) =~= before);
    while at < list.len()
        invariant
            at <= list.len(),
            views == text_views(list@),
            path_views(files@) == before + files_in_sizes(
                directory@,
                views.take(at as int),
                byte_parts(names@),
            ),
        decreases list.len() - at,
    {
        assert(views.take(at + 1).drop_last() =~= views.take(at as int));
        assert(views[at as int] == list@[at as int]@);
        let inner = directory.join(list[at].as_str().as_bytes());
        add_contexts(files, &inner, names);
        assert(path_views(files@) =~= before + files_in_sizes(
            directory@,
            views.take(at + 1),
            byte_parts(names@),
        ));
        at = at + 1;
    }
    assert(views.take(at as int) =~= views);
}

/// Adds the files of those names in the directories of themes.
fn add_themes(files: &mut Vec<FilePath>, root: &FilePath, names: &Vec<Vec<u8>>)
    ensures
        path_views(final(files)@) == path_views(old(files)@) + files_in_themes(
            root@,
            icon_themes(),
            byte_parts(names@),
        ),
{
    let list = themes();
    let ghost before = path_views(files@);
    let ghost views = text_views(list@);
    let mut at: usize = 0;
    assert(views.take(0) =~= seq![]);
    assert(before + files_in_themes(root@, views.take(0), byte_parts(names@)) =~= before);
    while at < list.len()
        invariant
            at <= list.len(),
            views == text_views(list@),
            path_views(files@) == before + files_in_themes(
                root@,
                views.take(at as int),
                byte_parts(names@),
            ),
        decreases list.len() - at,
    {
        assert(views.take(at + 1).drop_last() =~= views.take(at as int));
        assert(views[at as int] == list@[at as int]@);
        let empty = characters(list[at].as_str()).len() == 0;
        let inner = if empty {
            root.duplicate()
        } else {
            root.join(list[at].as_str().as_bytes())
        };
        add_sizes(files, &inner, names);
        assert(path_views(files@) =~= before + files_in_themes(
            root@,
            views.take(at + 1),
            byte_parts(names@),
        ));
        at = at + 1;
    }
    assert(views.take(at as int) =~= views);
}

/// The directories for icons.
fn roots(home: &Option<FilePath>) -> (list: Vec<FilePath>)
    ensures
        path_views(list@) == icon_roots(crate::paths::optional_path(*home)),
{
    let mut list: Vec<FilePath> = Vec::new();
    match home {
        Some(home) => {
            list.push(home.join(".local/share/icons".as_bytes()));
            list.push(home.join(".icons".as_bytes()));
            list.push(home.join(".local/share/pixmaps".as_bytes()));
        },
        None => {},
    }
    list.push(path_of("/usr/local/share/icons"));
    list.push(path_of("/usr/share/icons"));
    assert(path_views(list@) =~= icon_roots(crate::paths::optional_path(*home)));
    list
}

/// The files that can be the icon of that name, the best one first. A name that is the absolute path
/// of a file stands for that file before all of them.
pub fn icon_candidates(name: &str, home: &Option<FilePath>) -> (files: Vec<FilePath>)
    ensures
        path_views(files@) == icon_files(
            vstd::utf8::encode_utf8(name@),
            crate::paths::optional_path(*home),
        ),
{
    let names = names_of(name);
    let list = roots(home);
    let ghost views = path_views(list@);
    let mut files: Vec<FilePath> = Vec::new();
    let mut at: usize = 0;
    assert(views.take(0) =~= seq![]);
    assert(path_views(files@) =~= files_in_roots(views.take(0), byte_parts(names@)));
    while at < list.len()
        invariant
            at <= list.len(),
            views == path_views(list@),
            path_views(files@) == files_in_roots(views.take(at as int), byte_parts(names@)),
        decreases list.len() - at,
    {
        assert(views.take(at + 1).drop_last() =~= views.take(at as int));
        assert(views[at as int] == list@[at as int]@);
        add_themes(&mut files, &list[at], &names);
        at = at + 1;
    }
    assert(views.take(at as int) =~= views);
    let local = path_of("/usr/local/share/pixmaps");
    add_files(&mut files, &local, &names);
    let system = path_of("/usr/share/pixmaps");
    add_files(&mut files, &system, &names);
    files
}

/// How an icon is stored.
#[derive(Debug, Clone, Copy, PartialEq, Eq, Structural)]
pub enum IconFormat {
    Svg,
    Png,
    Unknown,
}

/// How the icon at a path is stored, by its ending.
pub open spec fn format_of(path: Seq<u8>) -> IconFormat {
    match extension_of(path) {
        Some(extension) => if is_like(extension, "svg"@) {
            IconFormat::Svg
        } else if is_like(extension, "png"@) {
            IconFormat::Png
        } else {
            IconFormat::Unknown
        },
        None => IconFormat::Unknown,
    }
}

/// How the icon at a path is stored, by its ending.
pub fn icon_format(path: &FilePath) -> (format: IconFormat)
    ensures
        format == format_of(path@),
{
    match path.extension() {
        Some(extension) => if looks_like(&extension, "svg") {
            IconFormat::Svg
        } else if looks_like(&extension, "png") {
            IconFormat::Png
        } else {
            IconFormat::Unknown
        },
        None => IconFormat::Unknown,
    }
}

/// Whether the icon at a path has only a shape and no colours of its own.
pub open spec fn is_symbolic(path: Seq<u8>) -> bool {
    match stem_of(path) {
        Some(stem) => vstd::utf8::valid_utf8(stem) && finishes_with(
            stem,
            vstd::utf8::encode_utf8("-symbolic"@),
        ),
        None => false,
    }
}

/// Whether the icon at a path has only a shape and no colours of its own.
pub fn symbolic(path: &FilePath) -> (is: bool)
    ensures
        is == is_symbolic(path@),
{
    match path.file_stem() {
        Some(stem) => {
            let suffix = "-symbolic".as_bytes();
            if from_utf8(stem.as_slice()).is_none() || stem.len() < suffix.len() {
                return false;
            }
            let tail = crate::paths::copy_bytes_from(&stem, stem.len() - suffix.len());
            same_bytes(tail.as_slice(), suffix)
        },
        None => false,
    }
}

/// The pixels of a symbolic icon in the colour of the panel; the opacity stays.
pub open spec fn recoloured(rgba: Seq<u8>) -> Seq<u8> {
    Seq::new(
        rgba.len(),
        |at: int|
            if at / 4 * 4 + 4 <= rgba.len() && at % 4 == 0 {
                220u8
            } else if at / 4 * 4 + 4 <= rgba.len() && at % 4 == 1 {
                225u8
            } else if at / 4 * 4 + 4 <= rgba.len() && at % 4 == 2 {
                229u8
            } else {
                rgba[at]
            },
    )
}

/// Gives the pixels of a symbolic icon the colour of the panel.
pub fn recolour(rgba: &mut Vec<u8>)
    ensures
        final(rgba)@ == recoloured(old(rgba)@),
{
    let ghost before = rgba@;
    let ghost after = recoloured(before);
    let length: usize = rgba.len();
    let mut at: usize = 0;
    while length - at >= 4
        invariant
            at <= length,
            at % 4 == 0,
            length == rgba@.len(),
            length == before.len(),
            after == recoloured(before),
            forall|place: int| 0 <= place < at ==> rgba@[place] == after[place],
            forall|place: int| at <= place < length ==> rgba@[place] == before[place],
        decreases length - at,
    {
        rgba[at] = 220;
        rgba[at + 1] = 225;
        rgba[at + 2] = 229;
        assert(forall|place: int|
            at <= place < at + 4 ==> place / 4 * 4 == at && #[trigger] after[place]
                == rgba@[place]);
        at = at + 4;
    }
    assert(forall|place: int|
        at <= place < length ==> place / 4 * 4 == at && #[trigger] after[place] == before[place]);
    assert(rgba@ =~= after);
}

/// The width and the height of the image that `image::load_from_memory_with_format` reads from the
/// bytes of a PNG file, where they are one.
pub uninterp spec fn png_size(bytes: Seq<u8>) -> Option<(u32, u32)>;

/// The pixels of the image that `image::load_from_memory_with_format` reads from the bytes of a PNG
/// file, where they are one, as `image::DynamicImage::into_rgba8` gives them: four bytes each, row
/// by row.
pub uninterp spec fn png_pixels(bytes: Seq<u8>) -> Option<Seq<u8>>;

/// How wide and how high an icon is at most.
pub const ICON_SIZE: u32 = 64;

/// Whether `scaled` is the side `length` of an image whose longer side is `longer`, scaled so that the
/// longer one becomes `side`: rounded to the nearest number, up or down where two are as near, and
/// at least 1.
pub open spec fn is_scaled(scaled: int, length: int, longer: int, side: int) -> bool {
    let twice = 2 * (scaled * longer - side * length);
    -longer <= twice <= longer || (scaled == 1 && 2 * side * length <= longer)
}

/// Whether an icon is as large as fits into a square of that side, for an image of that size, and
/// has its proportions; each pixel has four bytes.
pub open spec fn is_fitted(icon: AppIcon, size: (u32, u32), side: u32) -> bool {
    &&& size.0 >= size.1 ==> icon.width == side && is_scaled(
        icon.height as int,
        size.1 as int,
        size.0 as int,
        side as int,
    )
    &&& size.1 >= size.0 ==> icon.height == side && is_scaled(
        icon.width as int,
        size.0 as int,
        size.1 as int,
        side as int,
    )
    &&& 1 <= icon.width <= side && 1 <= icon.height <= side
    &&& icon.rgba@.len() == icon.width * icon.height * 4
}

/// Whether an icon is the image that the bytes of a PNG file hold, fitted into the size of an icon:
/// an image that has this size already keeps its pixels.
pub open spec fn is_icon_of(icon: AppIcon, bytes: Seq<u8>) -> bool {
    match png_size(bytes) {
        Some(size) => is_fitted(icon, size, ICON_SIZE) && (size == (64u32, 64u32) ==> png_pixels(
            bytes,
        ) == Some(icon.rgba@)),
        None => false,
    }
}

/// `image::load_from_memory_with_format`, whose image `image::DynamicImage::resize` then fits into
/// a square of the side `side` with the filter `image::imageops::FilterType::Lanczos3`: the icon
/// that the bytes of a PNG file hold, or nothing where they hold none. Whether they do, the size of
/// the image and its pixels depend on the bytes alone. The longer side becomes that of the square,
/// and the shorter one is scaled with it and rounded. An image that fills the square already keeps
/// its pixels. Which way the shorter side is rounded where two numbers are as near, and what the
/// pixels become otherwise, is not said: it rests on the machine's floating-point arithmetic.
#[verifier::external_body]
fn decode_png(bytes: &[u8], side: u32) -> (icon: Option<AppIcon>)
    requires
        1 <= side <= 4096,
    ensures
        match (icon, png_size(bytes@)) {
            (Some(icon), Some(size)) => is_fitted(icon, size, side) && (size == (side, side)
                ==> png_pixels(bytes@) == Some(icon.rgba@)),
            (None, None) => true,
            _ => false,
        },
{
    let image = image::load_from_memory_with_format(bytes, image::ImageFormat::Png).ok()?;
    let image = image.resize(side, side, image::imageops::FilterType::Lanczos3).into_rgba8();
    Some(AppIcon { width: image.width(), height: image.height(), rgba: image.into_raw() })
}

/// The icon at `path`: `bytes` are those of the file, `rendered` its picture where it is a drawing,
/// which takes the colour of the panel where it has none of its own. An image is fitted into the
/// size of an icon.
pub fn load_icon(path: &FilePath, bytes: &[u8], rendered: Option<AppIcon>) -> (icon: Option<
    AppIcon,
>)
    ensures
        match format_of(path@) {
            IconFormat::Svg => match (icon, rendered) {
                (Some(icon), Some(rendered)) => icon.width == rendered.width && icon.height
                    == rendered.height && icon.rgba@ == if is_symbolic(path@) {
                    recoloured(rendered.rgba@)
                } else {
                    rendered.rgba@
                },
                (None, None) => true,
                _ => false,
            },
            IconFormat::Png => match icon {
                Some(icon) => is_icon_of(icon, bytes@),
                None => png_size(bytes@) is None,
            },
            IconFormat::Unknown => icon is None,
        },
{
    match icon_format(path) {
        IconFormat::Svg => match rendered {
            Some(rendered) => {
                let mut icon = rendered;
                if symbolic(path) {
                    let mut rgba = icon.rgba;
                    recolour(&mut rgba);
                    icon = AppIcon { width: icon.width, height: icon.height, rgba };
                }
                Some(icon)
            },
            None => None,
        },
        IconFormat::Png => decode_png(bytes, ICON_SIZE),
        IconFormat::Unknown => None,
    }
}

/// Names in order, each once, with one more.
pub open spec fn with_name(names: Seq<Seq<char>>, name: Seq<char>) -> Seq<Seq<char>>
    decreases names.len(),
{
    if names.len() == 0 {
        seq![name]
    } else if names.last() == name {
        names
    } else if text_before(names.last(), name) {
        names.push(name)
    } else {
        with_name(names.drop_last(), name).push(names.last())
    }
}

/// The names of the icons of applications, in order, each once.
pub open spec fn wanted_names(icons: Seq<Option<Seq<char>>>) -> Seq<Seq<char>>
    decreases icons.len(),
{
    if icons.len() == 0 {
        seq![]
    } else {
        let before = wanted_names(icons.drop_last());
        match icons.last() {
            Some(name) => with_name(before, name),
            None => before,
        }
    }
}

/// The icons of applications, by name.
pub open spec fn icons_of(applications: Seq<Application>) -> Seq<Option<Seq<char>>> {
    applications.map_values(|application: Application| application@.icon)
}

/// Puts a name where it belongs, unless it is there.
fn insert_name(names: &mut Vec<String>, name: &String)
    ensures
        text_views(final(names)@) == with_name(text_views(old(names)@), name@),
{
    let ghost views = text_views(names@);
    let chars = characters(name.as_str());
    let mut at: usize = names.len();
    assert(views.take(at as int) =~= views);
    assert(with_name(views, name@) =~= with_name(views, name@) + views.skip(at as int));
    while at > 0
        invariant
            at <= names.len(),
            views == text_views(names@),
            names@ == old(names)@,
            chars@ == name@,
            with_name(views, name@) == with_name(views.take(at as int), name@) + views.skip(
                at as int,
            ),
        ensures
            at <= names.len(),
            names@ == old(names)@,
            at > 0 ==> views[at - 1] != name@ && text_before(views[at - 1], name@),
            with_name(views, name@) == with_name(views.take(at as int), name@) + views.skip(
                at as int,
            ),
        decreases at,
    {
        let ghost front = views.take(at as int);
        assert(front.last() == names@[at - 1]@);
        assert(views[at - 1] == names@[at - 1]@);
        if text_is(&names[at - 1], name.as_str()) {
            assert(front + views.skip(at as int) =~= views);
            return;
        }
        if comes_before(characters(names[at - 1].as_str()).as_slice(), chars.as_slice()) {
            break;
        }
        assert(front.drop_last() =~= views.take(at - 1));
        assert(with_name(views.take(at - 1), name@).push(front.last()) + views.skip(at as int)
            =~= with_name(views.take(at - 1), name@) + views.skip(at - 1));
        at = at - 1;
    }
    let ghost front = views.take(at as int);
    assert(at > 0 ==> front.last() == views[at - 1]);
    assert(with_name(front, name@) =~= front.push(name@));
    let copy = name.clone();
    assert(copy@ == name@);
    names.insert(at, copy);
    assert(text_views(names@) =~= front.push(name@) + views.skip(at as int));
}

/// The names of the icons of applications, in order, each once.
pub fn application_icons(applications: &Vec<Application>) -> (names: Vec<String>)
    ensures
        text_views(names@) == wanted_names(icons_of(applications@)),
{
    let ghost views = icons_of(applications@);
    let mut names: Vec<String> = Vec::new();
    let mut at: usize = 0;
    assert(views.take(0) =~= seq![]);
    assert(text_views(names@) =~= seq![]);
    while at < applications.len()
        invariant
            at <= applications.len(),
            views == icons_of(applications@),
            text_views(names@) == wanted_names(views.take(at as int)),
        decreases applications.len() - at,
    {
        assert(views.take(at + 1).drop_last() =~= views.take(at as int));
        assert(views[at as int] == applications@[at as int]@.icon);
        match &applications[at].icon {
            Some(name) => {
                insert_name(&mut names, name);
            },
            None => {},
        }
        at = at + 1;
    }
    assert(views.take(at as int) =~= views);
    names
}

/// Whether an application has that name among the applications.
pub open spec fn has_id(id: Seq<char>) -> spec_fn(ApplicationView) -> bool {
    |application: ApplicationView| application.id == id
}

/// The name of the icon of a launcher on the desktop: that of the first application whose id is the
/// name of the launcher's file.
pub open spec fn launcher_icon(applications: Seq<ApplicationView>, path: Seq<u8>) -> Option<
    Seq<char>,
> {
    match file_name_of(path) {
        Some(name) if vstd::utf8::valid_utf8(name) => match first_kept(
            applications,
            has_id(vstd::utf8::decode_utf8(name)),
        ) {
            Some(application) => application.icon,
            None => None,
        },
        _ => None,
    }
}

/// The name of the icon of a target of the desktop: only a launcher has one of its own.
pub open spec fn icon_name_of(applications: Seq<ApplicationView>, action: ActionView) -> Option<
    Seq<char>,
> {
    match action {
        ActionView::OpenDesktopItem(path, DesktopItemKind::Launcher) => launcher_icon(
            applications,
            path,
        ),
        _ => None,
    }
}

/// The name of the icon of a target of the desktop.
pub fn desktop_icon_name(applications: &Vec<Application>, target: &HitTarget) -> (name: Option<
    String,
>)
    ensures
        optional_text(name) == icon_name_of(application_views(applications@), target@.action),
{
    let path = match &target.action {
        ShellAction::OpenDesktopItem(path, DesktopItemKind::Launcher) => path,
        _ => {
            return None;
        },
    };
    let file = match path.file_name() {
        Some(file) => file,
        None => {
            return None;
        },
    };
    let id = match from_utf8(file.as_slice()) {
        Some(id) => id,
        None => {
            return None;
        },
    };
    let ghost views = application_views(applications@);
    let ghost keep = has_id(id@);
    let mut at: usize = 0;
    proof {
        filter_ends(views, keep);
    }
    while at < applications.len()
        invariant
            at <= applications.len(),
            views == application_views(applications@),
            keep == has_id(id@),
            launcher_icon(views, path@) == match first_kept(views, keep) {
                Some(application) => application.icon,
                None => None,
            },
            target@.action == ActionView::OpenDesktopItem(path@, DesktopItemKind::Launcher),
            views.take(at as int).filter(keep).len() == 0,
        decreases applications.len() - at,
    {
        assert(views[at as int] == applications@[at as int]@);
        if text_is(&applications[at].id, id.as_str()) {
            proof {
                first_is_kept(views, keep, at as int);
            }
            return match &applications[at].icon {
                Some(icon) => Some(icon.clone()),
                None => None,
            };
        }
        proof {
            filter_step(views, keep, at as int);
        }
        at = at + 1;
    }
    proof {
        filter_ends(views, keep);
    }
    None
}

/// The user's own icons are looked for before those of the system, and of each name the PNG image
/// before the drawing.
pub proof fn own_icons_come_first(name: Seq<u8>, home: Seq<u8>)
    ensures
        ({
            let all = icon_files(name, Some(home));
            let system = icon_files(name, None);
            all.len() >= system.len() && all.skip(all.len() - system.len()) == system
        }),
{
    let names = icon_names(name);
    let own = seq![
        joined(home, vstd::utf8::encode_utf8(".local/share/icons"@)),
        joined(home, vstd::utf8::encode_utf8(".icons"@)),
        joined(home, vstd::utf8::encode_utf8(".local/share/pixmaps"@)),
    ];
    let rest = icon_roots(None);
    assert(rest =~= seq![
        vstd::utf8::encode_utf8("/usr/local/share/icons"@),
        vstd::utf8::encode_utf8("/usr/share/icons"@),
    ]);
    assert(icon_roots(Some(home)) =~= own + rest);
    roots_add_up(own, rest, names);
    stays_behind(
        files_in_roots(own, names),
        files_in_roots(rest, names),
        files_in(vstd::utf8::encode_utf8("/usr/local/share/pixmaps"@), names),
        files_in(vstd::utf8::encode_utf8("/usr/share/pixmaps"@), names),
    );
}

/// What follows on the front of a sequence is all of it behind the front.
proof fn stays_behind<T>(front: Seq<T>, first: Seq<T>, second: Seq<T>, third: Seq<T>)
    ensures
        ({
            let all = front + first + second + third;
            let back = first + second + third;
            all.len() >= back.len() && all.skip(all.len() - back.len()) == back
        }),
{
    let all = front + first + second + third;
    let back = first + second + third;
    assert(all.skip(all.len() - back.len()) =~= back);
}

/// The files below two lists of directories are those below the first, then those below the second.
proof fn roots_add_up(first: Seq<Seq<u8>>, second: Seq<Seq<u8>>, names: Seq<Seq<u8>>)
    ensures
        files_in_roots(first + second, names) == files_in_roots(first, names) + files_in_roots(
            second,
            names,
        ),
    decreases second.len(),
{
    if second.len() > 0 {
        roots_add_up(first, second.drop_last(), names);
        assert((first + second).drop_last() =~= first + second.drop_last());
        assert(files_in_roots(first + second, names) =~= files_in_roots(first, names)
            + files_in_roots(second, names));
    } else {
        assert(first + second =~= first);
        assert(files_in_roots(first, names) + files_in_roots(second, names) =~= files_in_roots(
            first,
            names,
        ));
    }
}

/// An icon is looked for under its name without the ending of an image, and as a symbolic one under
/// the same name.
pub proof fn icons_are_looked_for_by_name(name: Seq<u8>)
    ensures
        icon_names(name).len() >= 2,
        icon_names(name)[0] == bare_name(name),
        icon_names(name)[1] == bare_name(name) + vstd::utf8::encode_utf8("-symbolic"@),
        extension_of(name) is None ==> bare_name(name) == name,
        extension_of(name) is Some && stem_of(name) is Some && (format_of(name) is Svg || format_of(
            name,
        ) is Png) ==> bare_name(name) == stem_of(name)->0,
        format_of(name) is Unknown ==> bare_name(name) == name,
{
}

/// Of each name a directory may hold a PNG image and a drawing, and the image comes first.
pub proof fn directories_are_searched_for_each_name(
    directory: Seq<u8>,
    names: Seq<Seq<u8>>,
    at: int,
)
    requires
        0 <= at < names.len(),
    ensures
        files_in(directory, names).len() == 2 * names.len(),
        files_in(directory, names)[2 * at] == joined(
            directory,
            names[at] + vstd::utf8::encode_utf8(".png"@),
        ),
        files_in(directory, names)[2 * at + 1] == joined(
            directory,
            names[at] + vstd::utf8::encode_utf8(".svg"@),
        ),
    decreases names.len(),
{
    let front = names.drop_last();
    if front.len() > 0 {
        directories_are_searched_for_each_name(
            directory,
            front,
            if at < front.len() {
                at
            } else {
                0
            },
        );
    } else {
        assert(files_in(directory, front) =~= seq![]);
    }
}

/// A file in a directory for one context is among the files for all contexts.
proof fn contexts_are_searched(
    directory: Seq<u8>,
    contexts: Seq<Seq<char>>,
    names: Seq<Seq<u8>>,
    context: int,
    file: Seq<u8>,
)
    requires
        0 <= context < contexts.len(),
        files_in(
            joined(directory, vstd::utf8::encode_utf8(contexts[context])),
            names,
        ).contains(file),
    ensures
        files_in_contexts(directory, contexts, names).contains(file),
    decreases contexts.len(),
{
    let before = files_in_contexts(directory, contexts.drop_last(), names);
    let last = files_in(joined(directory, vstd::utf8::encode_utf8(contexts.last())), names);
    if context < contexts.len() - 1 {
        contexts_are_searched(directory, contexts.drop_last(), names, context, file);
    }
    either_part_holds(before, last, file);
}

/// A file in a directory for one size is among the files for all sizes.
proof fn sizes_are_searched(
    directory: Seq<u8>,
    sizes: Seq<Seq<char>>,
    names: Seq<Seq<u8>>,
    size: int,
    file: Seq<u8>,
)
    requires
        0 <= size < sizes.len(),
        files_in_contexts(
            joined(directory, vstd::utf8::encode_utf8(sizes[size])),
            icon_contexts(),
            names,
        ).contains(file),
    ensures
        files_in_sizes(directory, sizes, names).contains(file),
    decreases sizes.len(),
{
    let before = files_in_sizes(directory, sizes.drop_last(), names);
    let last = files_in_contexts(
        joined(directory, vstd::utf8::encode_utf8(sizes.last())),
        icon_contexts(),
        names,
    );
    if size < sizes.len() - 1 {
        sizes_are_searched(directory, sizes.drop_last(), names, size, file);
    }
    either_part_holds(before, last, file);
}

/// A file of one theme is among the files of all themes.
proof fn themes_are_searched(
    root: Seq<u8>,
    themes: Seq<Seq<char>>,
    names: Seq<Seq<u8>>,
    theme: int,
    file: Seq<u8>,
)
    requires
        0 <= theme < themes.len(),
        files_in_sizes(theme_directory(root, themes[theme]), icon_sizes(), names).contains(file),
    ensures
        files_in_themes(root, themes, names).contains(file),
    decreases themes.len(),
{
    let before = files_in_themes(root, themes.drop_last(), names);
    let last = files_in_sizes(theme_directory(root, themes.last()), icon_sizes(), names);
    if theme < themes.len() - 1 {
        themes_are_searched(root, themes.drop_last(), names, theme, file);
    }
    either_part_holds(before, last, file);
}

/// A file below one directory for icons is among the files below all of them.
proof fn roots_are_searched(
    roots: Seq<Seq<u8>>,
    names: Seq<Seq<u8>>,
    root: int,
    file: Seq<u8>,
)
    requires
        0 <= root < roots.len(),
        files_in_themes(roots[root], icon_themes(), names).contains(file),
    ensures
        files_in_roots(roots, names).contains(file),
    decreases roots.len(),
{
    let before = files_in_roots(roots.drop_last(), names);
    let last = files_in_themes(roots.last(), icon_themes(), names);
    if root < roots.len() - 1 {
        roots_are_searched(roots.drop_last(), names, root, file);
    }
    either_part_holds(before, last, file);
}

/// What one of two sequences holds both together hold.
proof fn either_part_holds(first: Seq<Seq<u8>>, second: Seq<Seq<u8>>, file: Seq<u8>)
    ensures
        (first + second).contains(file) <==> first.contains(file) || second.contains(file),
{
    let whole = first + second;
    if first.contains(file) {
        let at = choose|at: int| 0 <= at < first.len() && first[at] == file;
        assert(whole[at] == file);
    }
    if second.contains(file) {
        let at = choose|at: int| 0 <= at < second.len() && second[at] == file;
        assert(whole[first.len() + at] == file);
    }
    if whole.contains(file) {
        let at = choose|at: int| 0 <= at < whole.len() && whole[at] == file;
        if at < first.len() {
            assert(first[at] == file);
        } else {
            assert(second[at - first.len()] == file);
        }
    }
}

/// Below every directory for icons, every theme is searched in every size and every context, for
/// both formats of every name, and so are the two directories that hold icons of any size.
pub proof fn every_place_for_icons_is_searched(
    name: Seq<u8>,
    home: Option<Seq<u8>>,
    root: int,
    theme: int,
    size: int,
    context: int,
    at: int,
)
    requires
        0 <= root < icon_roots(home).len(),
        0 <= theme < icon_themes().len(),
        0 <= size < icon_sizes().len(),
        0 <= context < icon_contexts().len(),
        0 <= at < icon_names(name).len(),
    ensures
        ({
            let files = icon_files(name, home);
            let directory = joined(
                joined(
                    theme_directory(icon_roots(home)[root], icon_themes()[theme]),
                    vstd::utf8::encode_utf8(icon_sizes()[size]),
                ),
                vstd::utf8::encode_utf8(icon_contexts()[context]),
            );
            let file = icon_names(name)[at];
            &&& files.contains(joined(directory, file + vstd::utf8::encode_utf8(".png"@)))
            &&& files.contains(joined(directory, file + vstd::utf8::encode_utf8(".svg"@)))
            &&& files.contains(
                joined(
                    vstd::utf8::encode_utf8("/usr/share/pixmaps"@),
                    file + vstd::utf8::encode_utf8(".png"@),
                ),
            )
            &&& files.contains(
                joined(
                    vstd::utf8::encode_utf8("/usr/local/share/pixmaps"@),
                    file + vstd::utf8::encode_utf8(".png"@),
                ),
            )
        }),
{
    let names = icon_names(name);
    let above = joined(
        theme_directory(icon_roots(home)[root], icon_themes()[theme]),
        vstd::utf8::encode_utf8(icon_sizes()[size]),
    );
    let directory = joined(above, vstd::utf8::encode_utf8(icon_contexts()[context]));
    let file = names[at];
    let image = joined(directory, file + vstd::utf8::encode_utf8(".png"@));
    let drawing = joined(directory, file + vstd::utf8::encode_utf8(".svg"@));
    directories_are_searched_for_each_name(directory, names, at);
    let here = files_in(directory, names);
    assert(here[2 * at] == image && here[2 * at + 1] == drawing);
    icons_of_a_place_are_found(name, home, root, theme, size, context, image);
    icons_of_a_place_are_found(name, home, root, theme, size, context, drawing);
    let local = vstd::utf8::encode_utf8("/usr/local/share/pixmaps"@);
    let system = vstd::utf8::encode_utf8("/usr/share/pixmaps"@);
    let first = joined(local, file + vstd::utf8::encode_utf8(".png"@));
    let second = joined(system, file + vstd::utf8::encode_utf8(".png"@));
    directories_are_searched_for_each_name(local, names, at);
    directories_are_searched_for_each_name(system, names, at);
    assert(files_in(local, names)[2 * at] == first);
    assert(files_in(system, names)[2 * at] == second);
    let below = files_in_roots(icon_roots(home), names);
    either_part_holds(below, files_in(local, names), first);
    either_part_holds(below + files_in(local, names), files_in(system, names), first);
    either_part_holds(below + files_in(local, names), files_in(system, names), second);
}

/// A file in one place for icons is among the files that can be the icon.
proof fn icons_of_a_place_are_found(
    name: Seq<u8>,
    home: Option<Seq<u8>>,
    root: int,
    theme: int,
    size: int,
    context: int,
    file: Seq<u8>,
)
    requires
        0 <= root < icon_roots(home).len(),
        0 <= theme < icon_themes().len(),
        0 <= size < icon_sizes().len(),
        0 <= context < icon_contexts().len(),
        files_in(
            joined(
                joined(
                    theme_directory(icon_roots(home)[root], icon_themes()[theme]),
                    vstd::utf8::encode_utf8(icon_sizes()[size]),
                ),
                vstd::utf8::encode_utf8(icon_contexts()[context]),
            ),
            icon_names(name),
        ).contains(file),
    ensures
        icon_files(name, home).contains(file),
{
    let names = icon_names(name);
    let top = theme_directory(icon_roots(home)[root], icon_themes()[theme]);
    contexts_are_searched(
        joined(top, vstd::utf8::encode_utf8(icon_sizes()[size])),
        icon_contexts(),
        names,
        context,
        file,
    );
    sizes_are_searched(top, icon_sizes(), names, size, file);
    themes_are_searched(icon_roots(home)[root], icon_themes(), names, theme, file);
    roots_are_searched(icon_roots(home), names, root, file);
    let below = files_in_roots(icon_roots(home), names);
    let local = files_in(vstd::utf8::encode_utf8("/usr/local/share/pixmaps"@), names);
    let system = files_in(vstd::utf8::encode_utf8("/usr/share/pixmaps"@), names);
    either_part_holds(below, local, file);
    either_part_holds(below + local, system, file);
}

/// The case of letters does not tell the endings of images apart, and nothing else is overlooked.
pub proof fn endings_are_compared_without_case(bytes: Seq<u8>, text: Seq<char>, at: int)
    requires
        is_like(bytes, text),
        0 <= at < bytes.len(),
    ensures
        bytes.len() == vstd::utf8::encode_utf8(text).len(),
        ({
            let wanted = vstd::utf8::encode_utf8(text)[at];
            ||| bytes[at] == wanted
            ||| 'A' as u8 <= bytes[at] <= 'Z' as u8 && bytes[at] + 32 == wanted
            ||| 'A' as u8 <= wanted <= 'Z' as u8 && wanted + 32 == bytes[at]
        }),
{
    assert(lowered(bytes[at]) == lowered(vstd::utf8::encode_utf8(text)[at]));
}

/// An icon is drawn as its ending says, in either case.
pub proof fn formats_follow_the_ending(path: Seq<u8>)
    ensures
        extension_of(path) == Some(vstd::utf8::encode_utf8("png"@)) ==> format_of(path) is Png
            || is_like(extension_of(path)->0, "svg"@),
        extension_of(path) == Some(vstd::utf8::encode_utf8("svg"@)) ==> format_of(path) is Svg,
        extension_of(path) is None ==> format_of(path) is Unknown,
        format_of(path) is Png ==> is_like(extension_of(path)->0, "png"@),
        format_of(path) is Svg ==> is_like(extension_of(path)->0, "svg"@),
{
}

/// Every pixel of a symbolic icon gets the colour of the panel and keeps its opacity.
pub proof fn symbolic_icons_get_one_colour(rgba: Seq<u8>, pixel: int)
    requires
        0 <= pixel,
        4 * pixel + 4 <= rgba.len(),
    ensures
        recoloured(rgba).len() == rgba.len(),
        recoloured(rgba)[4 * pixel] == 0xdc,
        recoloured(rgba)[4 * pixel + 1] == 0xe1,
        recoloured(rgba)[4 * pixel + 2] == 0xe5,
        recoloured(rgba)[4 * pixel + 3] == rgba[4 * pixel + 3],
        recoloured(recoloured(rgba)) == recoloured(rgba),
{
    assert(recoloured(recoloured(rgba)) =~= recoloured(rgba));
}

/// An icon is symbolic where its name says so.
pub proof fn symbolic_icons_are_named_so(path: Seq<u8>)
    ensures
        stem_of(path) is None ==> !is_symbolic(path),
        is_symbolic(path) ==> stem_of(path) is Some && finishes_with(
            stem_of(path)->0,
            vstd::utf8::encode_utf8("-symbolic"@),
        ),
{
}

/// Every icon that an application names is wanted, once, and no other.
pub proof fn named_icons_are_wanted(icons: Seq<Option<Seq<char>>>, name: Seq<char>)
    ensures
        wanted_names(icons).contains(name) <==> icons.contains(Some(name)),
    decreases icons.len(),
{
    if icons.len() > 0 {
        let front = icons.drop_last();
        let before = wanted_names(front);
        named_icons_are_wanted(front, name);
        assert(icons[icons.len() - 1] == icons.last());
        if front.contains(Some(name)) {
            let at = choose|at: int| 0 <= at < front.len() && front[at] == Some(name);
            assert(icons[at] == Some(name));
        }
        if icons.contains(Some(name)) && icons.last() != Some(name) {
            let at = choose|at: int| 0 <= at < icons.len() && icons[at] == Some(name);
            assert(front[at] == Some(name));
        }
        if let Some(last) = icons.last() {
            adding_a_name_adds_one(before, last, name);
        }
    }
}

/// Adding a name adds that name and no other.
proof fn adding_a_name_adds_one(names: Seq<Seq<char>>, name: Seq<char>, other: Seq<char>)
    ensures
        with_name(names, name).contains(other) <==> names.contains(other) || name == other,
    decreases names.len(),
{
    let whole = with_name(names, name);
    if names.len() == 0 {
        assert(whole[0] == name);
    } else if names.last() == name {
        assert(names[names.len() - 1] == name);
    } else if text_before(names.last(), name) {
        assert(whole[names.len() as int] == name);
        if names.contains(other) {
            let at = choose|at: int| 0 <= at < names.len() && names[at] == other;
            assert(whole[at] == other);
        }
        if whole.contains(other) && other != name {
            let at = choose|at: int| 0 <= at < whole.len() && whole[at] == other;
            assert(names[at] == other);
        }
    } else {
        let front = names.drop_last();
        let inner = with_name(front, name);
        adding_a_name_adds_one(front, name, other);
        assert(whole[inner.len() as int] == names.last());
        assert(names[names.len() - 1] == names.last());
        if inner.contains(other) {
            let at = choose|at: int| 0 <= at < inner.len() && inner[at] == other;
            assert(whole[at] == other);
        }
        if whole.contains(other) && other != names.last() {
            let at = choose|at: int| 0 <= at < whole.len() && whole[at] == other;
            assert(inner[at] == other);
        }
        if front.contains(other) {
            let at = choose|at: int| 0 <= at < front.len() && front[at] == other;
            assert(names[at] == other);
        }
        if names.contains(other) && other != names.last() {
            let at = choose|at: int| 0 <= at < names.len() && names[at] == other;
            assert(front[at] == other);
        }
    }
}

/// A launcher on the desktop shows the icon of the application that its file is named after, and
/// nothing else on the desktop has an icon of its own.
pub proof fn launchers_show_their_application(
    applications: Seq<ApplicationView>,
    action: ActionView,
    path: Seq<u8>,
    at: int,
)
    requires
        0 <= at < applications.len(),
        file_name_of(path) == Some(vstd::utf8::encode_utf8(applications[at].id)),
        forall|earlier: int|
            0 <= earlier < at ==> (#[trigger] applications[earlier]).id != applications[at].id,
    ensures
        icon_name_of(applications, ActionView::OpenDesktopItem(path, DesktopItemKind::Launcher))
            == applications[at].icon,
        icon_name_of(applications, ActionView::OpenDesktopItem(path, DesktopItemKind::Directory))
            is None,
        icon_name_of(applications, action) is Some ==> action is OpenDesktopItem,
{
    broadcast use vstd::utf8::encode_utf8_valid_utf8, vstd::utf8::encode_utf8_decode_utf8;

    let id = applications[at].id;
    let keep = has_id(id);
    crate::lists::first_kept_is_first(applications, keep);
    match first_kept(applications, keep) {
        Some(first) => {
            let place = choose|place: int|
                {
                    &&& 0 <= place < applications.len()
                    &&& #[trigger] applications[place] == first
                    &&& keep(first)
                    &&& forall|earlier: int|
                        0 <= earlier < place ==> !keep(#[trigger] applications[earlier])
                };
            if place < at {
                assert(applications[place].id != id);
            } else if at < place {
                assert(!keep(applications[at]));
            }
        },
        None => {
            assert(!keep(applications[at]));
        },
    }
}

} // verus!
