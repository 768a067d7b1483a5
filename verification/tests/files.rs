//! Icons, and notifications of changed files.

use buzzardos_guest::canvas::AppIcon;
use buzzardos_guest::icons::{
    application_icons, desktop_icon_name, icon_candidates, icon_format, load_icon, recolour, symbolic, IconFormat,
};
use buzzardos_guest::model::{Application, DesktopItemKind, HitTarget, Rect, ShellAction};
use buzzardos_guest::paths::FilePath;
use buzzardos_guest::watch::{
    file_changed, nearest_real_directory, DirectoryCollector, Lookup, WatchChoice,
    MAX_WATCH_DEPTH, QUEUE_OVERFLOW,
};

fn path(text: &str) -> FilePath {
    FilePath {
        bytes: text.as_bytes().to_vec(),
    }
}

#[test]
fn icons_are_looked_for_in_order() {
    let own = icon_candidates("tool", &Some(path("/home/user")));
    assert_eq!(
        own[0],
        path("/home/user/.local/share/icons/BuzzardOS/48x48/apps/tool.png")
    );
    assert_eq!(
        own[1],
        path("/home/user/.local/share/icons/BuzzardOS/48x48/apps/tool.svg")
    );
    assert_eq!(
        own[2],
        path("/home/user/.local/share/icons/BuzzardOS/48x48/apps/tool-symbolic.png")
    );
    assert_eq!(own.len(), 5 * 5 * 7 * 9 * 4 + 8);
    let system = icon_candidates("tool.PNG", &None);
    assert_eq!(
        system[0],
        path("/usr/local/share/icons/BuzzardOS/48x48/apps/tool.png")
    );
    assert_eq!(
        system[system.len() - 1],
        path("/usr/share/pixmaps/tool-symbolic.svg")
    );
    assert_eq!(own[own.len() - system.len()..], system[..]);
    assert!(system.contains(&path("/usr/share/icons/48x48/apps/tool.png")));
    let absolute = icon_candidates("/opt/tool", &None);
    assert_eq!(absolute[0], path("/opt/tool.png"));
    assert!(icon_candidates("applications-development", &None).contains(&path(
        "/usr/share/icons/Adwaita/symbolic/categories/applications-engineering-symbolic.svg"
    )));
}

#[test]
fn icons_are_read_by_their_ending() {
    assert_eq!(icon_format(&path("/a/b.SVG")), IconFormat::Svg);
    assert_eq!(icon_format(&path("/a/b.png")), IconFormat::Png);
    assert_eq!(icon_format(&path("/a/.png")), IconFormat::Unknown);
    assert!(symbolic(&path("/a/b-symbolic.svg")));
    assert!(!symbolic(&path("/a/b.svg")));
    let rendered = || {
        Some(AppIcon {
            width: 1,
            height: 1,
            rgba: vec![1, 2, 3, 4],
        })
    };
    assert_eq!(
        load_icon(&path("/a/b-symbolic.svg"), &[], rendered())
            .unwrap()
            .rgba,
        [220, 225, 229, 4]
    );
    assert_eq!(
        load_icon(&path("/a/b.svg"), &[], rendered()).unwrap().rgba,
        [1, 2, 3, 4]
    );
    assert!(load_icon(&path("/a/b.png"), b"no image", None).is_none());
    assert!(load_icon(&path("/a/b.txt"), &[], rendered()).is_none());
    let mut odd = vec![9, 9, 9, 9, 9];
    recolour(&mut odd);
    assert_eq!(odd, [220, 225, 229, 9, 9]);
}

#[test]
fn images_are_brought_to_their_size() {
    let source = image::RgbaImage::from_pixel(128, 32, image::Rgba([255, 0, 0, 255]));
    let mut bytes = std::io::Cursor::new(Vec::new());
    source
        .write_to(&mut bytes, image::ImageFormat::Png)
        .unwrap();
    let icon = load_icon(&path("/a/b.png"), bytes.get_ref(), None).unwrap();
    assert_eq!((icon.width, icon.height), (64, 16));
    assert_eq!(icon.rgba.len(), 64 * 16 * 4);
    assert_eq!(icon.rgba[..4], [255, 0, 0, 255]);
}

#[test]
fn every_icon_is_loaded_once() {
    let app = |icon: Option<&str>| Application {
        id: "x".into(),
        name: "x".into(),
        generic_name: None,
        icon: icon.map(str::to_owned),
        categories: Vec::new(),
        source: path(""),
    };
    assert_eq!(
        application_icons(&vec![
            app(Some("b")),
            app(None),
            app(Some("a")),
            app(Some("b"))
        ]),
        ["a", "b"]
    );
}

fn event(mask: u32, name: &[u8]) -> Vec<u8> {
    let mut bytes = 1u32.to_le_bytes().to_vec();
    bytes.extend_from_slice(&mask.to_le_bytes());
    bytes.extend_from_slice(&0u32.to_le_bytes());
    bytes.extend_from_slice(&(name.len() as u32).to_le_bytes());
    bytes.extend_from_slice(name);
    bytes
}

#[test]
fn exact_files_are_told_from_their_siblings() {
    let file = b"settings.json".to_vec();
    let mut bytes = event(2, b"unrelated\0\0\0");
    assert!(!file_changed(&bytes, &file, false));
    bytes.extend_from_slice(&event(128, b"settings.json\0\0\0"));
    assert!(file_changed(&bytes, &file, false));
    assert!(!file_changed(&bytes[..bytes.len() - 1], &file, false));
    assert!(file_changed(&event(QUEUE_OVERFLOW, b""), &file, false));
    assert!(!file_changed(&[], &file, false));
    let mut big = 1u32.to_be_bytes().to_vec();
    big.extend_from_slice(&QUEUE_OVERFLOW.to_be_bytes());
    big.extend_from_slice(&[0; 8]);
    assert!(file_changed(&big, &file, true));
}

#[test]
fn directories_are_collected_as_deep_as_allowed() {
    assert_eq!(
        nearest_real_directory(Lookup::Directory, true),
        WatchChoice::Tree
    );
    assert_eq!(
        nearest_real_directory(Lookup::Directory, false),
        WatchChoice::Ancestor
    );
    assert_eq!(
        nearest_real_directory(Lookup::Other, true),
        WatchChoice::Nothing
    );
    assert_eq!(
        nearest_real_directory(Lookup::Missing, true),
        WatchChoice::Above
    );
    let mut collector = DirectoryCollector::new();
    collector.add_tree(path("/r"));
    let mut order = Vec::new();
    while let Some(next) = collector.next() {
        let text = String::from_utf8(next.bytes).unwrap();
        let children = vec![path(&format!("{text}/d")), path(&format!("{text}/link"))];
        collector.look(!text.ends_with("link"), &children);
        order.push(text);
    }
    assert_eq!(order[1], "/r/d");
    assert_eq!(collector.found.len(), MAX_WATCH_DEPTH + 1);
    collector.add_ancestor(path("/r"));
    assert_eq!(collector.found.len(), MAX_WATCH_DEPTH + 1);
    collector.add_ancestor(path("/a"));
    assert_eq!(collector.found[0], path("/a"));
}

#[test]
fn images_of_the_right_size_keep_their_pixels() {
    let source = image::RgbaImage::from_fn(64, 64, |x, y| {
        image::Rgba([x as u8, y as u8, (x * y % 251) as u8, 255 - (x as u8)])
    });
    let mut bytes = std::io::Cursor::new(Vec::new());
    source
        .write_to(&mut bytes, image::ImageFormat::Png)
        .unwrap();
    let icon = load_icon(&path("/a/b.png"), bytes.get_ref(), None).unwrap();
    assert_eq!((icon.width, icon.height), (64, 64));
    assert_eq!(icon.rgba, source.into_raw());
}

#[test]
fn launchers_on_the_desktop_show_the_icon_of_their_application() {
    let app = |id: &str, icon: Option<&str>| Application {
        id: id.into(),
        name: "x".into(),
        generic_name: None,
        icon: icon.map(str::to_owned),
        categories: Vec::new(),
        source: path("/usr/share/applications/other.desktop"),
    };
    let target = |bytes: &[u8], kind: DesktopItemKind| HitTarget {
        rect: Rect {
            x: 0,
            y: 0,
            width: 1,
            height: 1,
        },
        label: "x".into(),
        action: ShellAction::OpenDesktopItem(
            FilePath {
                bytes: bytes.to_vec(),
            },
            kind,
        ),
    };
    let applications = vec![
        app("plain.desktop", None),
        app("tool.desktop", Some("tool")),
        app("tool.desktop", Some("later")),
    ];
    let icon = |bytes: &[u8], kind| desktop_icon_name(&applications, &target(bytes, kind));
    let launcher = DesktopItemKind::Launcher;
    assert_eq!(
        icon(b"/home/user/Desktop/tool.desktop", launcher),
        Some("tool".into())
    );
    assert_eq!(icon(b"/home/user/Desktop/plain.desktop", launcher), None);
    assert_eq!(icon(b"/home/user/Desktop/other.desktop", launcher), None);
    assert_eq!(icon(b"/home/user/Desktop/\xff.desktop", launcher), None);
    assert_eq!(
        icon(
            b"/home/user/Desktop/tool.desktop",
            DesktopItemKind::RegularFile
        ),
        None
    );
}

#[test]
fn directories_are_watched_once_for_each_way_to_them() {
    let mut collector = DirectoryCollector::new();
    for text in ["/a", "a", "./a", "/a/", "//a", "../a", "-a"] {
        collector.add_ancestor(path(text));
    }
    assert_eq!(
        collector.found,
        [path("/a"), path("./a"), path("../a"), path("-a"), path("a")]
    );
    collector.add_tree(path("/a/."));
    assert_eq!(collector.next(), Some(path("/a/.")));
    collector.look(true, &Vec::new());
    assert_eq!(collector.found.len(), 5);
}
