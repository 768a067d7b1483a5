//! What applications send to the tray: icons, properties and menus, and what is accepted of them.

use vstd::prelude::*;
use vstd::string::*;
use crate::text::{characters, control, rest_of, split_chars, text_is};
use crate::text::{is_control, optional_text, part_views, split_on};

verus! {

/// The largest side of an icon.
pub const MAX_ICON_AXIS: i32 = 256;

/// The largest reply that is read, in bytes.
pub const MAX_REPLY_BYTES: usize = 2097152;

/// The largest number of entries of a menu, its root included.
pub const MAX_MENU_ITEMS: usize = 256;

/// How deep a menu may be nested.
pub const MAX_MENU_DEPTH: usize = 6;

/// An icon.
#[derive(Debug, Clone, PartialEq, Eq)]
pub struct TrayPixmap {
    pub width: u32,
    pub height: u32,
    /// Four bytes per pixel: red, green, blue and alpha.
    pub rgba: Vec<u8>,
}

/// An icon as it is sent: four bytes per pixel, alpha, red, green and blue.
#[derive(Debug, Clone, PartialEq, Eq)]
pub struct WirePixmap {
    pub width: i32,
    pub height: i32,
    pub argb: Vec<u8>,
}

/// A [`TrayPixmap`] or a [`WirePixmap`] with its bytes as a sequence.
pub struct PixmapView {
    pub width: int,
    pub height: int,
    pub bytes: Seq<u8>,
}

impl View for TrayPixmap {
    type V = PixmapView;

    open spec fn view(&self) -> PixmapView {
        PixmapView { width: self.width as int, height: self.height as int, bytes: self.rgba@ }
    }
}

impl View for WirePixmap {
    type V = PixmapView;

    open spec fn view(&self) -> PixmapView {
        PixmapView { width: self.width as int, height: self.height as int, bytes: self.argb@ }
    }
}

/// The icons of a list, each by its view.
pub open spec fn pixmap_views(pixmaps: Seq<WirePixmap>) -> Seq<PixmapView> {
    pixmaps.map_values(|pixmap: WirePixmap| pixmap@)
}

/// An icon that may be absent.
pub open spec fn optional_pixmap(pixmap: Option<TrayPixmap>) -> Option<PixmapView> {
    match pixmap {
        Some(pixmap) => Some(pixmap@),
        None => None,
    }
}

/// Whether an icon has the bytes that its size asks for, and is not too large.
pub open spec fn is_sound(pixmap: PixmapView) -> bool {
    0 < pixmap.width <= MAX_ICON_AXIS && 0 < pixmap.height <= MAX_ICON_AXIS && pixmap.bytes.len()
        == pixmap.width * pixmap.height * 4
}

/// Whether an icon is smaller than the tray draws it.
pub open spec fn is_small(pixmap: PixmapView) -> bool {
    pixmap.width < 24 || pixmap.height < 24
}

/// The distance of two numbers.
pub open spec fn apart(left: int, right: int) -> int {
    if left < right {
        right - left
    } else {
        left - right
    }
}

/// How far the size of an icon is from that at which the tray draws it.
pub open spec fn distance(pixmap: PixmapView) -> int {
    apart(pixmap.width, 24) + apart(pixmap.height, 24)
}

/// Whether an icon suits the tray better than another: one that is not smaller than drawn, then
/// one that is nearer in size.
pub open spec fn is_better(left: PixmapView, right: PixmapView) -> bool {
    if is_small(left) != is_small(right) {
        !is_small(left)
    } else {
        distance(left) < distance(right)
    }
}

/// The icon that suits the tray best, the first of those.
pub open spec fn best_pixmap(pixmaps: Seq<PixmapView>) -> Option<PixmapView>
    decreases pixmaps.len(),
{
    if pixmaps.len() == 0 {
        None
    } else {
        let last = pixmaps.last();
        match best_pixmap(pixmaps.drop_last()) {
            Some(best) => if is_sound(last) && is_better(last, best) {
                Some(last)
            } else {
                Some(best)
            },
            None => if is_sound(last) {
                Some(last)
            } else {
                None
            },
        }
    }
}

/// The bytes of an icon in the order in which the shell keeps them.
pub open spec fn rgba_of(argb: Seq<u8>) -> Seq<u8> {
    Seq::new(
        argb.len(),
        |at: int|
            if at % 4 == 3 {
                argb[at - 3]
            } else {
                argb[at + 1]
            },
    )
}

/// What is kept of the icons that an application sends.
pub open spec fn accepted_pixmap(pixmaps: Seq<PixmapView>, size: usize) -> Option<PixmapView> {
    if size > MAX_REPLY_BYTES || pixmaps.len() > 32 {
        None
    } else {
        match best_pixmap(pixmaps) {
            Some(best) => Some(PixmapView { bytes: rgba_of(best.bytes), ..best }),
            None => None,
        }
    }
}

/// The best icon is sound, and no sound one is better.
pub proof fn best_is_best(pixmaps: Seq<PixmapView>)
    ensures
        match best_pixmap(pixmaps) {
            Some(best) => pixmaps.contains(best) && is_sound(best) && forall|at: int|
                0 <= at < pixmaps.len() && is_sound(#[trigger] pixmaps[at]) ==> !is_better(
                    pixmaps[at],
                    best,
                ),
            None => forall|at: int| 0 <= at < pixmaps.len() ==> !is_sound(#[trigger] pixmaps[at]),
        },
    decreases pixmaps.len(),
{
    if pixmaps.len() > 0 {
        let front = pixmaps.drop_last();
        best_is_best(front);
        assert(pixmaps[pixmaps.len() - 1] == pixmaps.last());
        assert forall|at: int| 0 <= at < pixmaps.len() implies at == pixmaps.len() - 1
            || #[trigger] pixmaps[at] == front[at] by {}
        if let Some(best) = best_pixmap(front) {
            let at = choose|at: int| 0 <= at < front.len() && front[at] == best;
            assert(pixmaps[at] == best);
        }
    }
}

/// Whether a pixmap has the bytes that its size asks for.
fn sound(pixmap: &WirePixmap) -> (sound: bool)
    ensures
        sound == is_sound(pixmap@),
{
    if pixmap.width <= 0 || pixmap.height <= 0 || pixmap.width > MAX_ICON_AXIS || pixmap.height
        > MAX_ICON_AXIS {
        return false;
    }
    let width: usize = pixmap.width as usize;
    let height: usize = pixmap.height as usize;
    assert(width * height <= 65536) by (nonlinear_arith)
        requires
            width <= 256,
            height <= 256,
    ;
    pixmap.argb.len() == width * height * 4
}

/// The distance of two numbers.
fn gap(left: i32, right: i32) -> (gap: i32)
    requires
        0 <= left <= 256,
        0 <= right <= 256,
    ensures
        gap == apart(left as int, right as int),
{
    if left < right {
        right - left
    } else {
        left - right
    }
}

/// Whether a sound icon suits the tray better than another.
fn better(left: &WirePixmap, right: &WirePixmap) -> (better: bool)
    requires
        is_sound(left@),
        is_sound(right@),
    ensures
        better == is_better(left@, right@),
{
    let left_small = left.width < 24 || left.height < 24;
    let right_small = right.width < 24 || right.height < 24;
    if left_small != right_small {
        !left_small
    } else {
        gap(left.width, 24) + gap(left.height, 24) < gap(right.width, 24) + gap(right.height, 24)
    }
}

/// The icon that is kept of those that an application sends, which take `size` bytes together.
pub fn parse_pixmaps(pixmaps: &Vec<WirePixmap>, size: usize) -> (pixmap: Option<TrayPixmap>)
    ensures
        optional_pixmap(pixmap) == accepted_pixmap(pixmap_views(pixmaps@), size),
{
    assert(pixmap_views(pixmaps@).len() == pixmaps@.len());
    if size > MAX_REPLY_BYTES || pixmaps.len() > 32 {
        return None;
    }
    let ghost views = pixmap_views(pixmaps@);
    let mut best: Option<usize> = None;
    let mut at: usize = 0;
    assert(views.take(0) =~= seq![]);
    while at < pixmaps.len()
        invariant
            at <= pixmaps.len(),
            views == pixmap_views(pixmaps@),
            match best {
                Some(best) => best < pixmaps.len() && best_pixmap(views.take(at as int)) == Some(
                    pixmaps@[best as int]@,
                ) && is_sound(pixmaps@[best as int]@),
                None => best_pixmap(views.take(at as int)) is None,
            },
        decreases pixmaps.len() - at,
    {
        assert(views.take(at + 1).drop_last() =~= views.take(at as int));
        assert(views[at as int] == pixmaps@[at as int]@);
        if sound(&pixmaps[at]) {
            best = match best {
                Some(best) => if better(&pixmaps[at], &pixmaps[best]) {
                    Some(at)
                } else {
                    Some(best)
                },
                None => Some(at),
            };
        }
        at = at + 1;
    }
    assert(views.take(at as int) =~= views);
    match best {
        Some(best) => {
            let chosen = &pixmaps[best];
            Some(
                TrayPixmap {
                    width: chosen.width as u32,
                    height: chosen.height as u32,
                    rgba: convert(&chosen.argb),
                },
            )
        },
        None => None,
    }
}

/// The bytes of an icon in the order in which the shell keeps them.
fn convert(argb: &Vec<u8>) -> (rgba: Vec<u8>)
    requires
        argb.len() % 4 == 0,
    ensures
        rgba@ == rgba_of(argb@),
{
    let mut rgba: Vec<u8> = Vec::new();
    let mut at: usize = 0;
    while at < argb.len()
        invariant
            argb.len() % 4 == 0,
            at % 4 == 0,
            at <= argb.len(),
            rgba@ == rgba_of(argb@).take(at as int),
        decreases argb.len() - at,
    {
        let ghost whole = rgba_of(argb@);
        rgba.push(argb[at + 1]);
        rgba.push(argb[at + 2]);
        rgba.push(argb[at + 3]);
        rgba.push(argb[at]);
        assert(rgba@ =~= whole.take(at + 4));
        at = at + 4;
    }
    assert(rgba_of(argb@).take(at as int) =~= rgba_of(argb@));
    rgba
}

/// A property that an application sends.
#[derive(Debug, Clone, PartialEq, Eq)]
pub enum PropertyValue {
    Text(String),
    Flag(bool),
    Number(i32),
    /// Icons, and how many bytes they take together.
    Pixmaps(Vec<WirePixmap>, usize),
    Other,
}

/// A [`PropertyValue`] with its texts and lists as sequences.
pub enum PropertyView {
    Text(Seq<char>),
    Flag(bool),
    Number(i32),
    Pixmaps(Seq<PixmapView>, usize),
    Other,
}

impl View for PropertyValue {
    type V = PropertyView;

    open spec fn view(&self) -> PropertyView {
        match *self {
            PropertyValue::Text(text) => PropertyView::Text(text@),
            PropertyValue::Flag(flag) => PropertyView::Flag(flag),
            PropertyValue::Number(number) => PropertyView::Number(number),
            PropertyValue::Pixmaps(pixmaps, size) => PropertyView::Pixmaps(
                pixmap_views(pixmaps@),
                size,
            ),
            PropertyValue::Other => PropertyView::Other,
        }
    }
}

/// A property by its name.
#[derive(Debug, Clone, PartialEq, Eq)]
pub struct Property {
    pub name: String,
    pub value: PropertyValue,
}

/// The properties of a list, each by its view.
pub open spec fn property_views(properties: Seq<Property>) -> Seq<(Seq<char>, PropertyView)> {
    properties.map_values(|property: Property| (property.name@, property.value@))
}

/// The first property of that name.
pub open spec fn property_of(
    properties: Seq<(Seq<char>, PropertyView)>,
    name: Seq<char>,
) -> Option<PropertyView>
    decreases properties.len(),
{
    if properties.len() == 0 {
        None
    } else {
        match property_of(properties.drop_last(), name) {
            Some(value) => Some(value),
            None => if properties.last().0 == name {
                Some(properties.last().1)
            } else {
                None
            },
        }
    }
}

/// A property that was found among the first ones is the one that is found among all.
proof fn property_stays(properties: Seq<(Seq<char>, PropertyView)>, name: Seq<char>, length: int)
    requires
        0 <= length <= properties.len(),
        property_of(properties.take(length), name) is Some,
    ensures
        property_of(properties, name) == property_of(properties.take(length), name),
    decreases properties.len() - length,
{
    if length < properties.len() {
        assert(properties.take(length + 1).drop_last() =~= properties.take(length));
        property_stays(properties, name, length + 1);
    } else {
        assert(properties.take(length) =~= properties);
    }
}

/// The first property of that name.
fn find_property<'a>(properties: &'a Vec<Property>, name: &str) -> (value: Option<&'a PropertyValue>)
    ensures
        match value {
            Some(value) => property_of(property_views(properties@), name@) == Some(value@),
            None => property_of(property_views(properties@), name@) is None,
        },
{
    let ghost views = property_views(properties@);
    let mut at: usize = 0;
    while at < properties.len()
        invariant
            at <= properties.len(),
            views == property_views(properties@),
            property_of(views.take(at as int), name@) is None,
        decreases properties.len() - at,
    {
        assert(views.take(at + 1).drop_last() =~= views.take(at as int));
        assert(views[at as int] == (properties@[at as int].name@, properties@[at as int].value@));
        if text_is(&properties[at].name, name) {
            proof {
                property_stays(views, name@, at + 1);
            }
            return Some(&properties[at].value);
        }
        at = at + 1;
    }
    assert(views.take(at as int) =~= views);
    None
}

/// The text of a property, where it is one, is not too long and holds no zero.
pub open spec fn text_of_property(
    properties: Seq<(Seq<char>, PropertyView)>,
    name: Seq<char>,
) -> Option<Seq<char>> {
    match property_of(properties, name) {
        Some(PropertyView::Text(text)) => if vstd::utf8::encode_utf8(text).len() <= 1024
            && !text.contains('\0') {
            Some(text)
        } else {
            None
        },
        _ => None,
    }
}

/// The text of a property, where it is one, is not too long and holds no zero.
pub fn string_property(properties: &Vec<Property>, name: &str) -> (text: Option<String>)
    ensures
        optional_text(text) == text_of_property(property_views(properties@), name@),
{
    match find_property(properties, name) {
        Some(PropertyValue::Text(text)) => {
            if text.as_str().as_bytes().len() > 1024 {
                return None;
            }
            let chars = characters(text.as_str());
            let mut at: usize = 0;
            while at < chars.len()
                invariant
                    at <= chars.len(),
                    chars@ == text@,
                    forall|earlier: int| 0 <= earlier < at ==> chars@[earlier] != '\0',
                    text_of_property(property_views(properties@), name@) == if text@.contains(
                        '\0',
                    ) {
                        None
                    } else {
                        Some(text@)
                    },
                decreases chars.len() - at,
            {
                if chars[at] == '\0' {
                    assert(text@[at as int] == '\0');
                    return None;
                }
                at = at + 1;
            }
            Some(text.clone())
        },
        _ => None,
    }
}

/// The text of a property that is not empty.
pub open spec fn filled_text(
    properties: Seq<(Seq<char>, PropertyView)>,
    name: Seq<char>,
) -> Option<Seq<char>> {
    match text_of_property(properties, name) {
        Some(text) if text.len() > 0 => Some(text),
        _ => None,
    }
}

/// The text of a property that is not empty.
fn filled_property(properties: &Vec<Property>, name: &str) -> (text: Option<String>)
    ensures
        optional_text(text) == filled_text(property_views(properties@), name@),
{
    match string_property(properties, name) {
        Some(text) => if text.as_str().is_empty() {
            None
        } else {
            Some(text)
        },
        None => None,
    }
}

/// Whether a property is set, or what stands for it.
pub open spec fn flag_of(
    properties: Seq<(Seq<char>, PropertyView)>,
    name: Seq<char>,
    default: bool,
) -> bool {
    match property_of(properties, name) {
        Some(PropertyView::Flag(flag)) => flag,
        _ => default,
    }
}

/// Whether a property is set, or what stands for it.
fn flag_property(properties: &Vec<Property>, name: &str, default: bool) -> (flag: bool)
    ensures
        flag == flag_of(property_views(properties@), name@, default),
{
    match find_property(properties, name) {
        Some(PropertyValue::Flag(flag)) => *flag,
        _ => default,
    }
}

/// The icon that a property holds.
pub open spec fn pixmap_of(
    properties: Seq<(Seq<char>, PropertyView)>,
    name: Seq<char>,
) -> Option<PixmapView> {
    match property_of(properties, name) {
        Some(PropertyView::Pixmaps(pixmaps, size)) => accepted_pixmap(pixmaps, size),
        _ => None,
    }
}

/// The icon that a property holds.
fn pixmap_property(properties: &Vec<Property>, name: &str) -> (pixmap: Option<TrayPixmap>)
    ensures
        optional_pixmap(pixmap) == pixmap_of(property_views(properties@), name@),
{
    match find_property(properties, name) {
        Some(PropertyValue::Pixmaps(pixmaps, size)) => parse_pixmaps(pixmaps, *size),
        _ => None,
    }
}

/// Whether a character may stand in an element of an object path.
pub open spec fn is_path_char(character: char) -> bool {
    'a' <= character <= 'z' || 'A' <= character <= 'Z' || '0' <= character <= '9' || character
        == '_'
}

/// Whether a character may stand in an element of a bus name.
pub open spec fn is_name_char(character: char) -> bool {
    is_path_char(character) || character == '-'
}

/// Whether an element of an object path is one.
pub open spec fn is_path_part(part: Seq<char>) -> bool {
    part.len() > 0 && forall|at: int| 0 <= at < part.len() ==> is_path_char(#[trigger] part[at])
}

/// Whether an element of a bus name is one; it may start with a digit where `digits`.
pub open spec fn is_name_part(part: Seq<char>, digits: bool) -> bool {
    &&& part.len() > 0
    &&& forall|at: int| 0 <= at < part.len() ==> is_name_char(#[trigger] part[at])
    &&& digits || !('0' <= part[0] <= '9')
}

/// Whether every element of a list is one of an object path.
pub open spec fn all_path_parts(parts: Seq<Seq<char>>) -> bool {
    forall|at: int| 0 <= at < parts.len() ==> is_path_part(#[trigger] parts[at])
}

/// Whether every element of a list is one of a bus name.
pub open spec fn all_name_parts(parts: Seq<Seq<char>>, digits: bool) -> bool {
    forall|at: int| 0 <= at < parts.len() ==> is_name_part(#[trigger] parts[at], digits)
}

/// Whether a text is the path of an object on the bus: a slash, or elements that each follow one.
pub open spec fn is_object_path(text: Seq<char>) -> bool {
    text.len() > 0 && text[0] == '/' && (text.len() == 1 || all_path_parts(
        split_on(text.skip(1), '/'),
    ))
}

/// Whether a text is two or more elements of a bus name with points between them.
pub open spec fn is_dotted(text: Seq<char>, digits: bool) -> bool {
    split_on(text, '.').len() >= 2 && all_name_parts(split_on(text, '.'), digits)
}

/// Whether a text is the name that the bus itself gives a connection.
pub open spec fn is_unique_name(text: Seq<char>) -> bool {
    text.len() <= 255 && text.len() > 0 && text[0] == ':' && is_dotted(text.skip(1), true)
}

/// Whether a text is a name on the bus.
pub open spec fn is_bus_name(text: Seq<char>) -> bool {
    is_unique_name(text) || (text.len() <= 255 && text.len() > 0 && text[0] != ':' && is_dotted(
        text,
        false,
    ))
}

/// Whether every character of a part may stand there.
fn part_fits(part: &Vec<char>, hyphens: bool) -> (fits: bool)
    ensures
        fits == (part@.len() > 0 && forall|at: int|
            0 <= at < part@.len() ==> if hyphens {
                is_name_char(#[trigger] part@[at])
            } else {
                is_path_char(part@[at])
            }),
{
    let mut at: usize = 0;
    while at < part.len()
        invariant
            at <= part.len(),
            forall|earlier: int|
                0 <= earlier < at ==> if hyphens {
                    is_name_char(#[trigger] part@[earlier])
                } else {
                    is_path_char(part@[earlier])
                },
        decreases part.len() - at,
    {
        let character = part[at];
        let plain = ('a' <= character && character <= 'z') || ('A' <= character && character
            <= 'Z') || ('0' <= character && character <= '9') || character == '_';
        if !plain && !(hyphens && character == '-') {
            assert(!is_path_char(part@[at as int]));
            return false;
        }
        at = at + 1;
    }
    part.len() > 0
}

/// Whether a text is the path of an object on the bus.
pub fn object_path(text: &str) -> (is: bool)
    ensures
        is == is_object_path(text@),
{
    let chars = characters(text);
    if chars.len() == 0 || chars[0] != '/' {
        return false;
    }
    if chars.len() == 1 {
        return true;
    }
    let rest = rest_of(chars.as_slice(), 1);
    assert(rest@ =~= text@.skip(1));
    let parts = split_chars(rest.as_slice(), '/');
    let ghost views = part_views(parts@);
    let mut at: usize = 0;
    while at < parts.len()
        invariant
            at <= parts.len(),
            views == part_views(parts@),
            views == split_on(text@.skip(1), '/'),
            text@.len() > 1,
            text@[0] == '/',
            forall|earlier: int| 0 <= earlier < at ==> is_path_part(#[trigger] views[earlier]),
        decreases parts.len() - at,
    {
        assert(views[at as int] == parts@[at as int]@);
        if !part_fits(&parts[at], false) {
            assert(!is_path_part(views[at as int]));
            return false;
        }
        at = at + 1;
    }
    true
}

/// Whether a text is two or more elements of a bus name with points between them.
fn dotted(chars: &Vec<char>, digits: bool) -> (is: bool)
    ensures
        is == is_dotted(chars@, digits),
{
    let parts = split_chars(chars.as_slice(), '.');
    let ghost views = part_views(parts@);
    assert(views.len() == parts@.len());
    if parts.len() < 2 {
        return false;
    }
    let mut at: usize = 0;
    while at < parts.len()
        invariant
            at <= parts.len(),
            parts.len() >= 2,
            views == part_views(parts@),
            views == split_on(chars@, '.'),
            forall|earlier: int|
                0 <= earlier < at ==> is_name_part(#[trigger] views[earlier], digits),
        decreases parts.len() - at,
    {
        assert(views[at as int] == parts@[at as int]@);
        if !part_fits(&parts[at], true) {
            assert(!is_name_part(views[at as int], digits));
            return false;
        }
        let first = parts[at][0];
        if !digits && '0' <= first && first <= '9' {
            assert(!is_name_part(views[at as int], digits));
            return false;
        }
        at = at + 1;
    }
    true
}

/// Whether a text is the name that the bus itself gives a connection.
pub fn unique_name(text: &str) -> (is: bool)
    ensures
        is == is_unique_name(text@),
{
    let chars = characters(text);
    if chars.len() == 0 || chars.len() > 255 || chars[0] != ':' {
        return false;
    }
    let rest = rest_of(chars.as_slice(), 1);
    assert(rest@ =~= text@.skip(1));
    dotted(&rest, true)
}

/// Whether a text is a name on the bus.
pub fn bus_name(text: &str) -> (is: bool)
    ensures
        is == is_bus_name(text@),
{
    if unique_name(text) {
        return true;
    }
    let chars = characters(text);
    if chars.len() == 0 || chars.len() > 255 || chars[0] == ':' {
        return false;
    }
    dotted(&chars, false)
}

/// The service and the object that a connection registers with a text: an object of its own by its
/// path, or a service by its name.
pub open spec fn registered_target(sender: Seq<char>, service: Seq<char>) -> Option<
    (Seq<char>, Seq<char>),
> {
    if !is_unique_name(sender) || vstd::utf8::encode_utf8(service).len() > 1024 {
        None
    } else if service.len() > 0 && service[0] == '/' {
        if is_object_path(service) {
            Some((sender, service))
        } else {
            None
        }
    } else if is_bus_name(service) {
        Some((service, "/StatusNotifierItem"@))
    } else {
        None
    }
}

/// The service and the object that a connection registers with a text.
pub fn registration_target(sender: &str, service: &str) -> (target: Option<(String, String)>)
    ensures
        match target {
            Some(target) => registered_target(sender@, service@) == Some((target.0@, target.1@)),
            None => registered_target(sender@, service@) is None,
        },
{
    if !unique_name(sender) || service.as_bytes().len() > 1024 {
        return None;
    }
    let chars = characters(service);
    if chars.len() > 0 && chars[0] == '/' {
        if object_path(service) {
            Some((sender.to_string(), service.to_string()))
        } else {
            None
        }
    } else if bus_name(service) {
        Some((service.to_string(), "/StatusNotifierItem".to_string()))
    } else {
        None
    }
}

/// An item of the tray.
#[derive(Debug, Clone, PartialEq, Eq)]
pub struct TrayItem {
    /// The owner on the bus and the path of the object.
    pub id: String,
    pub title: String,
    pub icon_name: Option<String>,
    pub pixmap: Option<TrayPixmap>,
    pub status: String,
    pub item_is_menu: bool,
    pub has_menu: bool,
}

/// A [`TrayItem`] with its texts as sequences.
pub struct ItemView {
    pub id: Seq<char>,
    pub title: Seq<char>,
    pub icon_name: Option<Seq<char>>,
    pub pixmap: Option<PixmapView>,
    pub status: Seq<char>,
    pub item_is_menu: bool,
    pub has_menu: bool,
}

impl View for TrayItem {
    type V = ItemView;

    open spec fn view(&self) -> ItemView {
        ItemView {
            id: self.id@,
            title: self.title@,
            icon_name: optional_text(self.icon_name),
            pixmap: optional_pixmap(self.pixmap),
            status: self.status@,
            item_is_menu: self.item_is_menu,
            has_menu: self.has_menu,
        }
    }
}

/// The first of two that is there.
pub open spec fn either<T>(first: Option<T>, second: Option<T>) -> Option<T> {
    match first {
        Some(value) => Some(value),
        None => second,
    }
}

/// The status of an item.
pub open spec fn item_status(properties: Seq<(Seq<char>, PropertyView)>) -> Seq<char> {
    match text_of_property(properties, "Status"@) {
        Some(status) => status,
        None => "Active"@,
    }
}

/// The path of the menu of an item.
pub open spec fn item_menu(properties: Seq<(Seq<char>, PropertyView)>) -> Option<Seq<char>> {
    match text_of_property(properties, "Menu"@) {
        Some(path) if path != "/"@ && is_object_path(path) => Some(path),
        _ => None,
    }
}

/// The item that an application describes, unless its status is none: where it needs attention,
/// with the icon for that.
pub open spec fn described_item(id: Seq<char>, properties: Seq<(Seq<char>, PropertyView)>) -> Option<
    ItemView,
> {
    let status = item_status(properties);
    let attention = status == "NeedsAttention"@;
    if status != "Passive"@ && status != "Active"@ && !attention {
        None
    } else {
        Some(
            ItemView {
                id,
                title: match either(
                    filled_text(properties, "Title"@),
                    text_of_property(properties, "Id"@),
                ) {
                    Some(title) => title,
                    None => "Application"@,
                },
                icon_name: if attention {
                    either(
                        filled_text(properties, "AttentionIconName"@),
                        filled_text(properties, "IconName"@),
                    )
                } else {
                    filled_text(properties, "IconName"@)
                },
                pixmap: if attention {
                    either(
                        pixmap_of(properties, "AttentionIconPixmap"@),
                        pixmap_of(properties, "IconPixmap"@),
                    )
                } else {
                    pixmap_of(properties, "IconPixmap"@)
                },
                status,
                item_is_menu: flag_of(properties, "ItemIsMenu"@, false),
                has_menu: item_menu(properties) is Some,
            },
        )
    }
}

/// The name of the icon of an item.
fn icon_name_of(properties: &Vec<Property>, attention: bool) -> (name: Option<String>)
    ensures
        optional_text(name) == if attention {
            either(
                filled_text(property_views(properties@), "AttentionIconName"@),
                filled_text(property_views(properties@), "IconName"@),
            )
        } else {
            filled_text(property_views(properties@), "IconName"@)
        },
{
    if attention {
        if let Some(name) = filled_property(properties, "AttentionIconName") {
            return Some(name);
        }
    }
    filled_property(properties, "IconName")
}

/// The icon of an item.
fn icon_of(properties: &Vec<Property>, attention: bool) -> (pixmap: Option<TrayPixmap>)
    ensures
        optional_pixmap(pixmap) == if attention {
            either(
                pixmap_of(property_views(properties@), "AttentionIconPixmap"@),
                pixmap_of(property_views(properties@), "IconPixmap"@),
            )
        } else {
            pixmap_of(property_views(properties@), "IconPixmap"@)
        },
{
    if attention {
        if let Some(pixmap) = pixmap_property(properties, "AttentionIconPixmap") {
            return Some(pixmap);
        }
    }
    pixmap_property(properties, "IconPixmap")
}

/// The title of an item.
fn title_of(properties: &Vec<Property>) -> (title: String)
    ensures
        title@ == match either(
            filled_text(property_views(properties@), "Title"@),
            text_of_property(property_views(properties@), "Id"@),
        ) {
            Some(title) => title,
            None => "Application"@,
        },
{
    if let Some(title) = filled_property(properties, "Title") {
        return title;
    }
    match string_property(properties, "Id") {
        Some(title) => title,
        None => "Application".to_string(),
    }
}

/// The item that an application describes, and the path of its menu.
pub fn parse_item(id: &str, properties: &Vec<Property>) -> (item: Option<(TrayItem, Option<String>)>)
    ensures
        match item {
            Some(item) => described_item(id@, property_views(properties@)) == Some(item.0@)
                && optional_text(item.1) == item_menu(property_views(properties@)),
            None => described_item(id@, property_views(properties@)) is None,
        },
{
    let status = match string_property(properties, "Status") {
        Some(status) => status,
        None => "Active".to_string(),
    };
    let attention = text_is(&status, "NeedsAttention");
    if !attention && !text_is(&status, "Passive") && !text_is(&status, "Active") {
        return None;
    }
    let menu_path = match string_property(properties, "Menu") {
        Some(path) => if !text_is(&path, "/") && object_path(path.as_str()) {
            Some(path)
        } else {
            None
        },
        None => None,
    };
    let item = TrayItem {
        id: id.to_string(),
        title: title_of(properties),
        icon_name: icon_name_of(properties, attention),
        pixmap: icon_of(properties, attention),
        status,
        item_is_menu: flag_property(properties, "ItemIsMenu", false),
        has_menu: menu_path.is_some(),
    };
    Some((item, menu_path))
}

/// An entry of a menu as it is sent.
#[derive(Debug)]
pub struct WireNode {
    pub id: i32,
    pub properties: Vec<Property>,
    pub children: Vec<WireNode>,
}

/// An entry of a menu.
#[derive(Debug)]
pub struct TrayMenuEntry {
    pub id: i32,
    pub label: String,
    pub enabled: bool,
    pub visible: bool,
    pub separator: bool,
    pub submenu: bool,
    pub toggle_type: Option<String>,
    /// For an entry that can be on: whether it is (1), is not (0), or neither (-1).
    pub toggle_state: Option<i32>,
    pub children: Vec<TrayMenuEntry>,
}

/// A [`TrayMenuEntry`] with its texts and lists as sequences.
pub struct MenuEntryView {
    pub id: i32,
    pub label: Seq<char>,
    pub enabled: bool,
    pub visible: bool,
    pub separator: bool,
    pub submenu: bool,
    pub toggle_type: Option<Seq<char>>,
    pub toggle_state: Option<i32>,
    pub children: Seq<MenuEntryView>,
}

/// An entry with its texts and lists as sequences.
pub open spec fn menu_entry_view(entry: TrayMenuEntry) -> MenuEntryView
    decreases entry,
{
    MenuEntryView {
        id: entry.id,
        label: entry.label@,
        enabled: entry.enabled,
        visible: entry.visible,
        separator: entry.separator,
        submenu: entry.submenu,
        toggle_type: optional_text(entry.toggle_type),
        toggle_state: entry.toggle_state,
        children: Seq::new(
            entry.children@.len(),
            |at: int|
                if 0 <= at < entry.children@.len() {
                    menu_entry_view(entry.children@[at])
                } else {
                    arbitrary()
                },
        ),
    }
}

/// The entries of a list, each by its view.
pub open spec fn menu_entry_views(entries: Seq<TrayMenuEntry>) -> Seq<MenuEntryView> {
    entries.map_values(|entry: TrayMenuEntry| menu_entry_view(entry))
}

/// The children of an entry are those of its view.
proof fn children_views(entry: TrayMenuEntry)
    ensures
        menu_entry_view(entry).children == menu_entry_views(entry.children@),
{
    assert(menu_entry_view(entry).children =~= menu_entry_views(entry.children@));
}

/// A menu.
#[derive(Debug)]
pub struct TrayMenu {
    pub revision: u32,
    pub entries: Vec<TrayMenuEntry>,
}

/// Whether a character is no control character.
pub open spec fn is_shown() -> spec_fn(char) -> bool {
    |character: char| !is_control(character)
}

/// A label without the marks of its access keys: two underscores are one, one is none.
pub open spec fn unmarked(label: Seq<char>) -> Seq<char>
    decreases label.len(),
{
    if label.len() == 0 {
        seq![]
    } else if label[0] != '_' {
        seq![label[0]] + unmarked(label.skip(1))
    } else if label.len() > 1 && label[1] == '_' {
        seq!['_'] + unmarked(label.skip(2))
    } else {
        unmarked(label.skip(1))
    }
}

/// A label as it is shown.
pub open spec fn shown_label(label: Seq<char>) -> Seq<char> {
    unmarked(label.filter(is_shown()))
}

/// A label as it is shown.
pub fn menu_label(label: &str) -> (shown: String)
    ensures
        shown@ == shown_label(label@),
{
    let chars = characters(label);
    let mut plain: Vec<char> = Vec::new();
    let mut at: usize = 0;
    proof {
        crate::lists::filter_ends(chars@, is_shown());
    }
    while at < chars.len()
        invariant
            at <= chars.len(),
            chars@ == label@,
            plain@ == label@.take(at as int).filter(is_shown()),
        decreases chars.len() - at,
    {
        proof {
            crate::lists::filter_step(label@, is_shown(), at as int);
        }
        if !control(chars[at]) {
            plain.push(chars[at]);
        }
        at = at + 1;
    }
    proof {
        crate::lists::filter_ends(chars@, is_shown());
    }
    let mut shown = String::new();
    let mut place: usize = 0;
    assert(plain@.skip(0) =~= plain@);
    assert(shown@ + unmarked(plain@) =~= unmarked(plain@));
    while place < plain.len()
        invariant
            place <= plain.len(),
            shown@ + unmarked(plain@.skip(place as int)) == unmarked(plain@),
        decreases plain.len() - place,
    {
        let ghost rest = plain@.skip(place as int);
        let ghost before = shown@;
        assert(rest[0] == plain@[place as int]);
        assert(rest.skip(1) =~= plain@.skip(place + 1));
        if plain[place] != '_' {
            shown.push(plain[place]);
            assert(shown@ + unmarked(plain@.skip(place + 1)) =~= before + unmarked(rest));
            place = place + 1;
        } else if place + 1 < plain.len() && plain[place + 1] == '_' {
            shown.push('_');
            assert(rest[1] == plain@[place + 1]);
            assert(rest.skip(2) =~= plain@.skip(place + 2));
            assert(shown@ + unmarked(plain@.skip(place + 2)) =~= before + unmarked(rest));
            place = place + 2;
        } else {
            assert(rest.len() > 1 ==> rest[1] == plain@[place + 1]);
            place = place + 1;
        }
    }
    assert(plain@.skip(place as int) =~= seq![]);
    assert(shown@ =~= unmarked(plain@));
    shown
}

/// How the entry that can be on is told apart from others.
pub open spec fn toggle_kind(properties: Seq<(Seq<char>, PropertyView)>) -> Option<Seq<char>> {
    match text_of_property(properties, "toggle-type"@) {
        Some(kind) if kind == "checkmark"@ || kind == "radio"@ => Some(kind),
        _ => None,
    }
}

/// The state of an entry that can be on.
pub open spec fn toggle_value(properties: Seq<(Seq<char>, PropertyView)>) -> i32 {
    match property_of(properties, "toggle-state"@) {
        Some(PropertyView::Number(state)) if 0 <= state <= 1 => state,
        _ => -1i32,
    }
}

/// An entry without its children.
pub open spec fn entry_head(
    id: i32,
    properties: Seq<(Seq<char>, PropertyView)>,
    has_children: bool,
    children: Seq<MenuEntryView>,
) -> MenuEntryView {
    MenuEntryView {
        id,
        label: shown_label(
            match text_of_property(properties, "label"@) {
                Some(label) => label,
                None => seq![],
            },
        ),
        enabled: flag_of(properties, "enabled"@, true),
        visible: flag_of(properties, "visible"@, true),
        separator: text_of_property(properties, "type"@) == Some("separator"@),
        submenu: text_of_property(properties, "children-display"@) == Some("submenu"@)
            || has_children,
        toggle_type: toggle_kind(properties),
        toggle_state: if toggle_kind(properties) is Some {
            Some(toggle_value(properties))
        } else {
            None
        },
        children,
    }
}

/// What is left of the limits of a menu: how many entries it may still have, and which identities
/// are taken.
pub struct Budget {
    pub remaining: int,
    pub ids: Seq<i32>,
}

/// An entry that is accepted, with those below it: within the depth and the number that a menu may
/// have, each with an identity of its own.
pub open spec fn accepted_entry(node: WireNode, depth: int, budget: Budget) -> Option<
    (MenuEntryView, Budget),
>
    decreases node,
{
    if depth > MAX_MENU_DEPTH || budget.remaining <= 0 || node.id < 0 || budget.ids.contains(
        node.id,
    ) {
        None
    } else {
        match accepted_entries(
            node.children@,
            depth + 1,
            Budget { remaining: budget.remaining - 1, ids: budget.ids.push(node.id) },
        ) {
            Some((children, left)) => Some(
                (
                    entry_head(
                        node.id,
                        property_views(node.properties@),
                        node.children@.len() > 0,
                        children,
                    ),
                    left,
                ),
            ),
            None => None,
        }
    }
}

/// The entries of a list that is accepted, one after the other.
pub open spec fn accepted_entries(nodes: Seq<WireNode>, depth: int, budget: Budget) -> Option<
    (Seq<MenuEntryView>, Budget),
>
    decreases nodes,
{
    if nodes.len() == 0 {
        Some((seq![], budget))
    } else {
        match accepted_entries(nodes.drop_last(), depth, budget) {
            Some((before, left)) => match accepted_entry(nodes.last(), depth, left) {
                Some((entry, rest)) => Some((before.push(entry), rest)),
                None => None,
            },
            None => None,
        }
    }
}

/// The entries of a menu that is accepted.
pub open spec fn accepted_menu(root: WireNode, size: usize) -> Option<Seq<MenuEntryView>> {
    if size > MAX_REPLY_BYTES {
        None
    } else {
        match accepted_entry(root, 0, Budget { remaining: MAX_MENU_ITEMS as int, ids: seq![] }) {
            Some((entry, _)) if entry.id == 0 => Some(entry.children),
            _ => None,
        }
    }
}

/// An entry that is not accepted makes the list that it is in unacceptable.
proof fn refused_entries(nodes: Seq<WireNode>, depth: int, budget: Budget, length: int)
    requires
        0 <= length <= nodes.len(),
        accepted_entries(nodes.take(length), depth, budget) is None,
    ensures
        accepted_entries(nodes, depth, budget) is None,
    decreases nodes.len() - length,
{
    if length < nodes.len() {
        assert(nodes.take(length + 1).drop_last() =~= nodes.take(length));
        refused_entries(nodes, depth, budget, length + 1);
    } else {
        assert(nodes.take(length) =~= nodes);
    }
}

/// The identities of an entry and of those below it, in their order.
pub open spec fn entry_ids(entry: MenuEntryView) -> Seq<i32>
    decreases entry,
{
    seq![entry.id] + (if entry.children.len() > 0 {
        entries_ids(entry.children)
    } else {
        seq![]
    })
}

/// The identities of the entries of a list and of those below them.
pub open spec fn entries_ids(entries: Seq<MenuEntryView>) -> Seq<i32>
    decreases entries,
{
    if entries.len() == 0 {
        seq![]
    } else {
        entries_ids(entries.drop_last()) + entry_ids(entries.last())
    }
}

/// Accepting an entry takes its identities and those below it.
proof fn accepting_takes_ids(node: WireNode, depth: int, budget: Budget)
    requires
        accepted_entry(node, depth, budget) is Some,
        budget.ids.no_duplicates(),
    ensures
        ({
            let (entry, left) = accepted_entry(node, depth, budget)->0;
            &&& left.ids == budget.ids + entry_ids(entry)
            &&& left.ids.no_duplicates()
            &&& left.remaining + left.ids.len() == budget.remaining + budget.ids.len()
            &&& left.remaining >= 0
        }),
    decreases node,
{
    let next = Budget { remaining: budget.remaining - 1, ids: budget.ids.push(node.id) };
    assert(next.ids.no_duplicates()) by {
        assert forall|left: int, right: int| 0 <= left < right < next.ids.len() implies
            next.ids[left] != next.ids[right] by {
            if right == budget.ids.len() {
                assert(budget.ids[left] == next.ids[left]);
            }
        }
    }
    accepting_takes_all_ids(node.children@, depth + 1, next);
    let (children, left) = accepted_entries(node.children@, depth + 1, next)->0;
    let (entry, _) = accepted_entry(node, depth, budget)->0;
    assert(entry.children == children);
    assert(entries_ids(Seq::<MenuEntryView>::empty()) =~= seq![]);
    if children.len() == 0 {
        assert(children =~= Seq::<MenuEntryView>::empty());
    }
    assert(left.ids =~= budget.ids + entry_ids(entry));
}

/// Accepting a list of entries takes their identities and those below them.
proof fn accepting_takes_all_ids(nodes: Seq<WireNode>, depth: int, budget: Budget)
    requires
        accepted_entries(nodes, depth, budget) is Some,
        budget.ids.no_duplicates(),
        budget.remaining >= 0,
    ensures
        ({
            let (entries, left) = accepted_entries(nodes, depth, budget)->0;
            &&& left.ids == budget.ids + entries_ids(entries)
            &&& left.ids.no_duplicates()
            &&& left.remaining + left.ids.len() == budget.remaining + budget.ids.len()
            &&& left.remaining >= 0
        }),
    decreases nodes,
{
    if nodes.len() == 0 {
        assert(budget.ids =~= budget.ids + entries_ids(Seq::<MenuEntryView>::empty()));
    } else {
        accepting_takes_all_ids(nodes.drop_last(), depth, budget);
        let (before, middle) = accepted_entries(nodes.drop_last(), depth, budget)->0;
        accepting_takes_ids(nodes.last(), depth, middle);
        let (entry, left) = accepted_entry(nodes.last(), depth, middle)->0;
        assert(before.push(entry).drop_last() =~= before);
        assert(left.ids =~= budget.ids + entries_ids(before.push(entry)));
    }
}

/// A menu that is accepted has fewer entries than the limit, each with an identity of its own that
/// is not that of the root.
pub proof fn menus_are_bounded(root: WireNode, size: usize)
    requires
        accepted_menu(root, size) is Some,
    ensures
        entries_ids(accepted_menu(root, size)->0).len() < MAX_MENU_ITEMS,
        entries_ids(accepted_menu(root, size)->0).no_duplicates(),
        !entries_ids(accepted_menu(root, size)->0).contains(0),
{
    let budget = Budget { remaining: MAX_MENU_ITEMS as int, ids: seq![] };
    accepting_takes_ids(root, 0, budget);
    let (entry, left) = accepted_entry(root, 0, budget)->0;
    let ids = entries_ids(entry.children);
    if entry.children.len() == 0 {
        assert(ids =~= seq![]);
    }
    assert(left.ids =~= seq![0i32] + ids);
    assert forall|one: int, other: int| 0 <= one < other < ids.len() implies ids[one]
        != ids[other] by {
        assert(left.ids[one + 1] == ids[one] && left.ids[other + 1] == ids[other]);
    }
    assert forall|at: int| 0 <= at < ids.len() implies ids[at] != 0 by {
        assert(left.ids[at + 1] == ids[at]);
        assert(left.ids[0] == 0);
    }
}

/// An entry without its children.
fn read_head(node: &WireNode) -> (entry: TrayMenuEntry)
    ensures
        menu_entry_view(entry) == entry_head(
            node.id,
            property_views(node.properties@),
            node.children@.len() > 0,
            seq![],
        ),
        entry.children@.len() == 0,
{
    let properties = &node.properties;
    let label = match string_property(properties, "label") {
        Some(label) => label,
        None => String::new(),
    };
    assert(text_of_property(property_views(properties@), "label"@) is None ==> label@ =~= seq![]);
    let toggle_type = match string_property(properties, "toggle-type") {
        Some(kind) => if text_is(&kind, "checkmark") || text_is(&kind, "radio") {
            Some(kind)
        } else {
            None
        },
        None => None,
    };
    let state: i32 = match find_property(properties, "toggle-state") {
        Some(PropertyValue::Number(state)) => if *state == 0 || *state == 1 {
            *state
        } else {
            -1
        },
        _ => -1,
    };
    let toggle_state: Option<i32> = if toggle_type.is_some() {
        Some(state)
    } else {
        None
    };
    let separator = match string_property(properties, "type") {
        Some(kind) => text_is(&kind, "separator"),
        None => false,
    };
    let display = match string_property(properties, "children-display") {
        Some(kind) => text_is(&kind, "submenu"),
        None => false,
    };
    let entry = TrayMenuEntry {
        id: node.id,
        label: menu_label(label.as_str()),
        enabled: flag_property(properties, "enabled", true),
        visible: flag_property(properties, "visible", true),
        separator,
        submenu: display || node.children.len() > 0,
        toggle_type,
        toggle_state,
        children: Vec::new(),
    };
    assert(menu_entry_view(entry).children =~= seq![]);
    entry
}

/// Whether an identity is in a list.
fn has_id(ids: &Vec<i32>, id: i32) -> (has: bool)
    ensures
        has == ids@.contains(id),
{
    let mut at: usize = 0;
    while at < ids.len()
        invariant
            at <= ids.len(),
            forall|earlier: int| 0 <= earlier < at ==> ids@[earlier] != id,
        decreases ids.len() - at,
    {
        if ids[at] == id {
            assert(ids@[at as int] == id);
            return true;
        }
        at = at + 1;
    }
    false
}

/// Reads an entry and those below it.
fn parse_menu_entry(node: &WireNode, depth: usize, remaining: usize, ids: Vec<i32>) -> (parsed:
    Option<(TrayMenuEntry, usize, Vec<i32>)>)
    requires
        depth <= MAX_MENU_DEPTH + 1,
    ensures
        match parsed {
            Some(parsed) => accepted_entry(
                *node,
                depth as int,
                Budget { remaining: remaining as int, ids: ids@ },
            ) == Some(
                (
                    menu_entry_view(parsed.0),
                    Budget { remaining: parsed.1 as int, ids: parsed.2@ },
                ),
            ),
            None => accepted_entry(
                *node,
                depth as int,
                Budget { remaining: remaining as int, ids: ids@ },
            ) is None,
        },
    decreases *node, 1nat,
{
    if depth > MAX_MENU_DEPTH || remaining == 0 || node.id < 0 || has_id(&ids, node.id) {
        return None;
    }
    let mut taken = ids;
    taken.push(node.id);
    let mut entry = read_head(node);
    assert(decreases_to!(*node => node.children));
    assert(decreases_to!(node.children => node.children@));
    match parse_menu_entries(&node.children, depth + 1, remaining - 1, taken) {
        Some((children, left, rest)) => {
            let ghost head = entry;
            entry.children = children;
            proof {
                children_views(entry);
                children_views(head);
            }
            assert(menu_entry_view(entry) == (MenuEntryView {
                children: menu_entry_views(children@),
                ..menu_entry_view(head)
            }));
            Some((entry, left, rest))
        },
        None => None,
    }
}

/// Reads the entries of a list and those below them.
fn parse_menu_entries(nodes: &Vec<WireNode>, depth: usize, remaining: usize, ids: Vec<i32>) -> (
    parsed: Option<(Vec<TrayMenuEntry>, usize, Vec<i32>)>)
    requires
        depth <= MAX_MENU_DEPTH + 1,
    ensures
        match parsed {
            Some(parsed) => accepted_entries(
                nodes@,
                depth as int,
                Budget { remaining: remaining as int, ids: ids@ },
            ) == Some(
                (
                    menu_entry_views(parsed.0@),
                    Budget { remaining: parsed.1 as int, ids: parsed.2@ },
                ),
            ),
            None => accepted_entries(
                nodes@,
                depth as int,
                Budget { remaining: remaining as int, ids: ids@ },
            ) is None,
        },
    decreases nodes@, 0nat,
{
    let ghost start = Budget { remaining: remaining as int, ids: ids@ };
    let mut entries: Vec<TrayMenuEntry> = Vec::new();
    let mut left: usize = remaining;
    let mut taken: Vec<i32> = ids;
    let mut at: usize = 0;
    assert(nodes@.take(0) =~= seq![]);
    assert(menu_entry_views(entries@) =~= seq![]);
    while at < nodes.len()
        invariant
            at <= nodes.len(),
            depth <= MAX_MENU_DEPTH + 1,
            start == (Budget { remaining: remaining as int, ids: ids@ }),
            accepted_entries(nodes@.take(at as int), depth as int, start) == Some(
                (
                    menu_entry_views(entries@),
                    Budget { remaining: left as int, ids: taken@ },
                ),
            ),
        decreases nodes.len() - at,
    {
        assert(nodes@.take(at + 1).drop_last() =~= nodes@.take(at as int));
        assert(decreases_to!(nodes@ => nodes@[at as int]));
        let ghost before = menu_entry_views(entries@);
        match parse_menu_entry(&nodes[at], depth, left, taken) {
            Some((entry, rest, owners)) => {
                entries.push(entry);
                assert(menu_entry_views(entries@) =~= before.push(menu_entry_view(entry)));
                left = rest;
                taken = owners;
            },
            None => {
                proof {
                    reveal_with_fuel(accepted_entries, 2);
                    refused_entries(nodes@, depth as int, start, at + 1);
                }
                return None;
            },
        }
        at = at + 1;
    }
    assert(nodes@.take(at as int) =~= nodes@);
    Some((entries, left, taken))
}

/// The menu that an application sends, in a reply of `size` bytes.
pub fn parse_menu(revision: u32, size: usize, root: &WireNode) -> (menu: Option<TrayMenu>)
    ensures
        match menu {
            Some(menu) => menu.revision == revision && accepted_menu(*root, size) == Some(
                menu_entry_views(menu.entries@),
            ),
            None => accepted_menu(*root, size) is None,
        },
{
    if size > MAX_REPLY_BYTES {
        return None;
    }
    let none: Vec<i32> = Vec::new();
    assert(none@ =~= seq![]);
    match parse_menu_entry(root, 0, MAX_MENU_ITEMS, none) {
        Some((entry, _, _)) => if entry.id == 0 {
            proof {
                children_views(entry);
            }
            Some(TrayMenu { revision, entries: entry.children })
        } else {
            None
        },
        None => None,
    }
}

/// Whether an entry can be reached: it is visible, enabled and no separator.
pub open spec fn is_reachable(entry: MenuEntryView) -> bool {
    entry.visible && entry.enabled && !entry.separator
}

/// The first entry with that identity that can be reached, through entries that can be.
pub open spec fn reachable_entry(entries: Seq<MenuEntryView>, id: i32) -> Option<MenuEntryView>
    decreases entries,
{
    if entries.len() == 0 {
        None
    } else {
        match reachable_entry(entries.drop_last(), id) {
            Some(found) => Some(found),
            None => reachable_in(entries.last(), id),
        }
    }
}

/// The entry with that identity among an entry and those below it.
pub open spec fn reachable_in(entry: MenuEntryView, id: i32) -> Option<MenuEntryView>
    decreases entry,
{
    if !is_reachable(entry) {
        None
    } else if entry.id == id {
        Some(entry)
    } else if entry.children.len() > 0 {
        reachable_entry(entry.children, id)
    } else {
        None
    }
}

/// An entry that was found among the first ones is the one that is found among all.
proof fn reachable_stays(entries: Seq<MenuEntryView>, id: i32, length: int)
    requires
        0 <= length <= entries.len(),
        reachable_entry(entries.take(length), id) is Some,
    ensures
        reachable_entry(entries, id) == reachable_entry(entries.take(length), id),
    decreases entries.len() - length,
{
    if length < entries.len() {
        assert(entries.take(length + 1).drop_last() =~= entries.take(length));
        reachable_stays(entries, id, length + 1);
    } else {
        assert(entries.take(length) =~= entries);
    }
}

/// An entry that is found can itself be reached and has the identity that was asked for.
pub proof fn found_entries_are_reachable(entries: Seq<MenuEntryView>, id: i32)
    ensures
        match reachable_entry(entries, id) {
            Some(entry) => is_reachable(entry) && entry.id == id,
            None => true,
        },
    decreases entries,
{
    reveal_with_fuel(reachable_entry, 2);
    reveal_with_fuel(reachable_in, 2);
    if entries.len() > 0 {
        found_entries_are_reachable(entries.drop_last(), id);
        let last = entries.last();
        if last.children.len() > 0 {
            found_entries_are_reachable(last.children, id);
        }
    }
}

/// Nothing below an entry that is disabled, hidden or a separator can be reached through it.
pub proof fn disabled_entries_hide_what_is_below(entry: MenuEntryView, id: i32)
    requires
        !is_reachable(entry),
    ensures
        reachable_entry(seq![entry], id) is None,
{
    reveal_with_fuel(reachable_entry, 2);
    reveal_with_fuel(reachable_in, 2);
    assert(seq![entry].drop_last() =~= Seq::<MenuEntryView>::empty());
}

/// The first entry with that identity that can be reached.
pub fn menu_entry<'a>(entries: &'a Vec<TrayMenuEntry>, id: i32) -> (found: Option<&'a TrayMenuEntry>)
    ensures
        match found {
            Some(found) => reachable_entry(menu_entry_views(entries@), id) == Some(
                menu_entry_view(*found),
            ),
            None => reachable_entry(menu_entry_views(entries@), id) is None,
        },
    decreases entries@,
{
    let ghost views = menu_entry_views(entries@);
    let mut at: usize = 0;
    while at < entries.len()
        invariant
            at <= entries.len(),
            views == menu_entry_views(entries@),
            reachable_entry(views.take(at as int), id) is None,
        decreases entries.len() - at,
    {
        assert(views.take(at + 1).drop_last() =~= views.take(at as int));
        assert(views[at as int] == menu_entry_view(entries@[at as int]));
        let entry = &entries[at];
        proof {
            reveal_with_fuel(reachable_entry, 2);
            reveal_with_fuel(reachable_in, 2);
            children_views(*entry);
        }
        assert(decreases_to!(entries@ => entries@[at as int]));
        assert(decreases_to!(*entry => entry.children));
        assert(decreases_to!(entry.children => entry.children@));
        assert(menu_entry_views(entry.children@).len() == entry.children@.len());
        if entry.visible && entry.enabled && !entry.separator {
            if entry.id == id {
                proof {
                    reachable_stays(views, id, at + 1);
                }
                return Some(entry);
            }
            if entry.children.len() > 0 {
                if let Some(found) = menu_entry(&entry.children, id) {
                    proof {
                        reachable_stays(views, id, at + 1);
                    }
                    return Some(found);
                }
            }
        }
        at = at + 1;
    }
    assert(views.take(at as int) =~= views);
    None
}

/// Whether an entry can be activated: it can be reached and opens no menu of its own.
pub open spec fn is_actionable(entries: Seq<MenuEntryView>, id: i32) -> bool {
    match reachable_entry(entries, id) {
        Some(entry) => !entry.submenu,
        None => false,
    }
}

/// Whether an entry can be activated.
pub fn menu_item_actionable(entries: &Vec<TrayMenuEntry>, id: i32) -> (actionable: bool)
    ensures
        actionable == is_actionable(menu_entry_views(entries@), id),
{
    match menu_entry(entries, id) {
        Some(entry) => !entry.submenu,
        None => false,
    }
}

/// An icon of at least the size at which the tray draws it suits better than a smaller one, and of
/// two that are both large enough, or both too small, the one nearer to that size does.
pub proof fn icons_near_the_drawn_size_suit_best(left: PixmapView, right: PixmapView)
    ensures
        left.width >= 24 && left.height >= 24 && (right.width < 24 || right.height < 24)
            ==> is_better(left, right) && !is_better(right, left),
        24 <= left.width <= right.width && 24 <= left.height <= right.height ==> is_better(
            left,
            right,
        ) == (left.width < right.width || left.height < right.height),
        right.width <= left.width < 24 && right.height <= left.height < 24 ==> is_better(left, right)
            == (left.width > right.width || left.height > right.height),
        !is_better(left, left),
{
}

/// An icon is sent with its alpha first and kept with its alpha last, pixel by pixel.
pub proof fn alpha_goes_last(argb: Seq<u8>, pixel: int)
    requires
        0 <= pixel,
        4 * pixel + 4 <= argb.len(),
    ensures
        rgba_of(argb).len() == argb.len(),
        rgba_of(argb)[4 * pixel] == argb[4 * pixel + 1],
        rgba_of(argb)[4 * pixel + 1] == argb[4 * pixel + 2],
        rgba_of(argb)[4 * pixel + 2] == argb[4 * pixel + 3],
        rgba_of(argb)[4 * pixel + 3] == argb[4 * pixel],
{
}

/// An icon that is kept is one of those that were sent, in its size and sound, and where too much
/// was sent none is.
pub proof fn kept_icons_were_sent(pixmaps: Seq<PixmapView>, size: usize)
    ensures
        match accepted_pixmap(pixmaps, size) {
            Some(kept) => {
                &&& size <= MAX_REPLY_BYTES
                &&& pixmaps.len() <= 32
                &&& kept.bytes.len() == kept.width * kept.height * 4
                &&& 0 < kept.width <= MAX_ICON_AXIS
                &&& 0 < kept.height <= MAX_ICON_AXIS
                &&& exists|at: int|
                    {
                        &&& 0 <= at < pixmaps.len()
                        &&& (#[trigger] pixmaps[at]).width == kept.width
                        &&& pixmaps[at].height == kept.height
                        &&& rgba_of(pixmaps[at].bytes) == kept.bytes
                    }
            },
            None => size > MAX_REPLY_BYTES || pixmaps.len() > 32 || forall|at: int|
                0 <= at < pixmaps.len() ==> !is_sound(#[trigger] pixmaps[at]),
        },
{
    best_is_best(pixmaps);
    if let Some(best) = best_pixmap(pixmaps) {
        let at = choose|at: int| 0 <= at < pixmaps.len() && pixmaps[at] == best;
        assert(pixmaps[at] == best);
    }
}

/// A property is the first of its name, whatever comes later; where none has the name there is none.
pub proof fn properties_are_found_by_name(
    before: Seq<(Seq<char>, PropertyView)>,
    name: Seq<char>,
    value: PropertyView,
    rest: Seq<(Seq<char>, PropertyView)>,
)
    requires
        forall|at: int| 0 <= at < before.len() ==> (#[trigger] before[at]).0 != name,
    ensures
        property_of(before, name) is None,
        property_of(before.push((name, value)) + rest, name) == Some(value),
    decreases before.len() + rest.len(),
{
    if rest.len() > 0 {
        let whole = before.push((name, value)) + rest;
        properties_are_found_by_name(before, name, value, rest.drop_last());
        assert(whole.drop_last() =~= before.push((name, value)) + rest.drop_last());
    } else {
        let whole = before.push((name, value)) + rest;
        if before.len() > 0 {
            let front = before.drop_last();
            assert forall|at: int| 0 <= at < front.len() implies (#[trigger] front[at]).0
                != name by {
                assert(before[at].0 != name);
            }
            properties_are_found_by_name(front, name, value, rest);
            assert(before[before.len() - 1].0 != name);
        }
        assert(whole.drop_last() =~= before);
        assert(whole.last() == (name, value));
    }
}

/// Texts are taken over where they are short and hold no zero, and switches as they are set; a
/// property of another kind counts as absent.
pub proof fn properties_are_taken_by_kind(
    properties: Seq<(Seq<char>, PropertyView)>,
    name: Seq<char>,
    otherwise: bool,
)
    ensures
        match property_of(properties, name) {
            Some(PropertyView::Text(text)) => {
                &&& text_of_property(properties, name) == (if vstd::utf8::encode_utf8(text).len()
                    <= 1024 && !text.contains('\0') {
                    Some(text)
                } else {
                    None
                })
                &&& flag_of(properties, name, otherwise) == otherwise
                &&& pixmap_of(properties, name) is None
            },
            Some(PropertyView::Flag(flag)) => flag_of(properties, name, otherwise) == flag
                && text_of_property(properties, name) is None,
            Some(PropertyView::Pixmaps(pixmaps, size)) => pixmap_of(properties, name)
                == accepted_pixmap(pixmaps, size) && flag_of(properties, name, otherwise)
                == otherwise,
            _ => flag_of(properties, name, otherwise) == otherwise && text_of_property(
                properties,
                name,
            ) is None && pixmap_of(properties, name) is None,
        },
        filled_text(properties, name) is Some <==> text_of_property(properties, name) is Some && (
        text_of_property(properties, name)->0).len() > 0,
        filled_text(properties, name) is Some ==> filled_text(properties, name) == text_of_property(
            properties,
            name,
        ),
{
}

/// A path of an object is made of elements that each follow a slash, and every element is made of
/// letters, digits and underscores.
pub proof fn object_paths_are_made_of_elements(first: Seq<char>, rest: Seq<char>)
    requires
        !first.contains('/'),
        rest.len() > 0,
    ensures
        is_object_path(seq!['/']),
        !is_object_path(first),
        is_object_path(seq!['/'] + first) <==> first.len() == 0 || is_path_part(first),
        is_object_path(seq!['/'] + first + seq!['/'] + rest) <==> is_path_part(first)
            && is_object_path(seq!['/'] + rest),
        first.len() > 0 && (exists|at: int|
            0 <= at < first.len() && !is_path_char(#[trigger] first[at])) ==> !is_object_path(
            seq!['/'] + first,
        ),
{
    let one = seq!['/'] + first;
    let two = seq!['/'] + first + seq!['/'] + rest;
    let three = seq!['/'] + rest;
    if first.len() > 0 && first[0] == '/' {
        assert(first.contains('/'));
    }
    assert(one.skip(1) =~= first);
    assert(two.skip(1) =~= first.push('/') + rest);
    assert(three.skip(1) =~= rest);
    crate::text::split_whole(first, '/');
    crate::text::split_first(first, rest, '/');
    let parts = split_on(first.push('/') + rest, '/');
    let others = split_on(rest, '/');
    assert(split_on(first, '/')[0] == first);
    assert(parts[0] == first);
    assert(forall|at: int| 0 <= at < others.len() ==> others[at] == #[trigger] parts[at + 1]);
    if all_path_parts(parts) {
        assert(is_path_part(parts[0]));
        assert forall|at: int| 0 <= at < others.len() implies is_path_part(#[trigger] others[at]) by {
            assert(is_path_part(parts[at + 1]));
        }
    }
    if is_path_part(first) && all_path_parts(others) {
        assert forall|at: int| 0 <= at < parts.len() implies is_path_part(#[trigger] parts[at]) by {
            if at > 0 {
                assert(is_path_part(others[at - 1]));
            }
        }
    }
    if is_path_part(first) {
        assert forall|at: int| 0 <= at < split_on(first, '/').len() implies is_path_part(
            #[trigger] split_on(first, '/')[at],
        ) by {}
    }
}

/// A name on the bus has two elements or more. Those of a name that the bus gives follow a colon and
/// may start with a digit; those of another name may not.
pub proof fn bus_names_are_dotted(first: Seq<char>, second: Seq<char>)
    requires
        !first.contains('.'),
        !second.contains('.'),
        0 < first.len(),
        first.len() + second.len() + 2 <= 255,
    ensures
        is_unique_name(seq![':'] + first + seq!['.'] + second) <==> is_name_part(first, true)
            && is_name_part(second, true),
        first[0] != ':' ==> (is_bus_name(first + seq!['.'] + second) <==> is_name_part(first, false)
            && is_name_part(second, false)),
        !is_unique_name(first) || first[0] == ':',
        !is_bus_name(first),
{
    let unique = seq![':'] + first + seq!['.'] + second;
    let named = first + seq!['.'] + second;
    assert(unique.skip(1) =~= first.push('.') + second);
    assert(named =~= first.push('.') + second);
    assert(named[0] == first[0]);
    crate::text::split_whole(second, '.');
    crate::text::split_whole(first, '.');
    crate::text::split_first(first, second, '.');
    let parts = split_on(named, '.');
    assert(parts =~= seq![first, second]);
    assert(parts[0] == first && parts[1] == second);
    let tail = first.skip(1);
    if tail.contains('.') {
        let at = choose|at: int| 0 <= at < tail.len() && tail[at] == '.';
        assert(first[at + 1] == '.');
    }
    crate::text::split_whole(tail, '.');
}

/// A connection registers an object of its own by a path, and a service, at the object that items
/// have, by a name.
pub proof fn connections_register_their_own(sender: Seq<char>, service: Seq<char>)
    requires
        is_unique_name(sender),
        vstd::utf8::encode_utf8(service).len() <= 1024,
    ensures
        is_object_path(service) ==> registered_target(sender, service) == Some((sender, service)),
        is_bus_name(service) && service[0] != '/' ==> registered_target(sender, service) == Some(
            (service, "/StatusNotifierItem"@),
        ),
        !is_object_path(service) && !is_bus_name(service) ==> registered_target(
            sender,
            service,
        ) is None,
{
}

/// An item has the identity that it is read under, the title that it gives itself, and the icon for
/// its status: one that needs attention shows the icon for that where it has one.
pub proof fn items_show_what_they_say(id: Seq<char>, properties: Seq<(Seq<char>, PropertyView)>)
    ensures
        match described_item(id, properties) {
            Some(item) => {
                &&& item.id == id
                &&& item.status == "Active"@ || item.status == "Passive"@ || item.status
                    == "NeedsAttention"@
                &&& text_of_property(properties, "Status"@) is Some ==> text_of_property(
                    properties,
                    "Status"@,
                ) == Some(item.status)
                &&& text_of_property(properties, "Status"@) is None ==> item.status == "Active"@
                &&& filled_text(properties, "Title"@) is Some ==> filled_text(
                    properties,
                    "Title"@,
                ) == Some(item.title)
                &&& filled_text(properties, "Title"@) is None && text_of_property(
                    properties,
                    "Id"@,
                ) is Some ==> text_of_property(properties, "Id"@) == Some(item.title)
                &&& filled_text(properties, "Title"@) is None && text_of_property(
                    properties,
                    "Id"@,
                ) is None ==> item.title == "Application"@
                &&& item.status != "NeedsAttention"@ ==> item.icon_name == filled_text(
                    properties,
                    "IconName"@,
                ) && item.pixmap == pixmap_of(properties, "IconPixmap"@)
                &&& item.status == "NeedsAttention"@ && filled_text(
                    properties,
                    "AttentionIconName"@,
                ) is Some ==> item.icon_name == filled_text(properties, "AttentionIconName"@)
                &&& item.status == "NeedsAttention"@ && filled_text(
                    properties,
                    "AttentionIconName"@,
                ) is None ==> item.icon_name == filled_text(properties, "IconName"@)
                &&& item.status == "NeedsAttention"@ && pixmap_of(
                    properties,
                    "AttentionIconPixmap"@,
                ) is Some ==> item.pixmap == pixmap_of(properties, "AttentionIconPixmap"@)
                &&& item.status == "NeedsAttention"@ && pixmap_of(
                    properties,
                    "AttentionIconPixmap"@,
                ) is None ==> item.pixmap == pixmap_of(properties, "IconPixmap"@)
                &&& item.item_is_menu <==> property_of(properties, "ItemIsMenu"@) == Some(
                    PropertyView::Flag(true),
                )
                &&& item.has_menu <==> item_menu(properties) is Some
            },
            None => text_of_property(properties, "Status"@) is Some && text_of_property(
                properties,
                "Status"@,
            ) != Some("Active"@) && text_of_property(properties, "Status"@) != Some("Passive"@)
                && text_of_property(properties, "Status"@) != Some("NeedsAttention"@),
        },
        item_menu(properties) is Some ==> item_menu(properties) == text_of_property(
            properties,
            "Menu"@,
        ) && is_object_path(item_menu(properties)->0) && item_menu(properties) != Some("/"@),
{
}

/// The mark of an access key is not shown, two underscores are shown as one, and everything else is
/// shown as it is.
pub proof fn access_keys_are_not_shown(front: Seq<char>, key: char, rest: Seq<char>)
    requires
        !front.contains('_'),
        key != '_',
    ensures
        unmarked(front) == front,
        unmarked(front + seq!['_', key] + rest) == front + seq![key] + unmarked(rest),
        unmarked(front + seq!['_', '_'] + rest) == front + seq!['_'] + unmarked(rest),
        unmarked(front + seq!['_']) == front,
    decreases front.len(),
{
    let one = front + seq!['_', key] + rest;
    let two = front + seq!['_', '_'] + rest;
    let three = front + seq!['_'];
    if front.len() == 0 {
        assert(front =~= seq![]);
        assert(one[0] == '_' && one[1] == key);
        assert(one.skip(1) =~= seq![key] + rest);
        let tail = seq![key] + rest;
        assert(tail[0] == key);
        assert(tail.skip(1) =~= rest);
        assert(unmarked(tail) == seq![key] + unmarked(rest));
        assert(unmarked(one) == unmarked(tail));
        assert(seq![key] + unmarked(rest) =~= front + seq![key] + unmarked(rest));
        assert(two[0] == '_' && two[1] == '_');
        assert(two.skip(2) =~= rest);
        assert(seq!['_'] + unmarked(rest) =~= front + seq!['_'] + unmarked(rest));
        assert(three.skip(1) =~= seq![]);
        assert(unmarked(seq![]) =~= seq![]);
    } else {
        let tail = front.skip(1);
        assert(front[0] != '_');
        if tail.contains('_') {
            let at = choose|at: int| 0 <= at < tail.len() && tail[at] == '_';
            assert(front[at + 1] == '_');
        }
        access_keys_are_not_shown(tail, key, rest);
        assert(one.skip(1) =~= tail + seq!['_', key] + rest);
        assert(two.skip(1) =~= tail + seq!['_', '_'] + rest);
        assert(three.skip(1) =~= tail + seq!['_']);
        assert(one[0] == front[0] && two[0] == front[0] && three[0] == front[0]);
        assert(seq![front[0]] + tail =~= front);
        assert(unmarked(one) =~= front + seq![key] + unmarked(rest));
        assert(unmarked(two) =~= front + seq!['_'] + unmarked(rest));
    }
}

/// No label holds control characters.
pub proof fn labels_hold_no_control_characters(label: Seq<char>)
    ensures
        !crate::text::has_control(shown_label(label)),
{
    let plain = label.filter(is_shown());
    assert forall|at: int| 0 <= at < plain.len() implies !is_control(#[trigger] plain[at]) by {
        let place = crate::lists::kept_is_there(label, is_shown(), at);
        assert(is_shown()(label[place]));
    }
    unmarking_adds_nothing(plain);
}

/// A label without its marks holds no other characters than with them.
proof fn unmarking_adds_nothing(label: Seq<char>)
    requires
        forall|at: int| 0 <= at < label.len() ==> !is_control(#[trigger] label[at]),
    ensures
        forall|at: int| 0 <= at < unmarked(label).len() ==> !is_control(#[trigger] unmarked(label)[at]),
    decreases label.len(),
{
    if label.len() > 0 {
        let skipped: int = if label[0] == '_' && label.len() > 1 && label[1] == '_' {
            2
        } else {
            1
        };
        let rest = label.skip(skipped);
        assert forall|at: int| 0 <= at < rest.len() implies !is_control(#[trigger] rest[at]) by {
            assert(!is_control(label[at + skipped]));
        }
        unmarking_adds_nothing(rest);
        assert(!is_control(label[0]));
        let whole = unmarked(label);
        let inner = unmarked(rest);
        assert forall|at: int| 0 <= at < whole.len() implies !is_control(#[trigger] whole[at]) by {
            if whole.len() == inner.len() {
                assert(whole =~= inner);
                assert(!is_control(inner[at]));
            } else if at > 0 {
                assert(whole[at] == inner[at - 1]);
                assert(!is_control(inner[at - 1]));
            }
        }
    }
}

/// An entry says what its properties say: it is enabled and visible unless they say otherwise, can
/// be on where it is a check mark or a radio button, and opens a menu where it has entries below it.
pub proof fn entries_say_what_their_properties_say(
    id: i32,
    properties: Seq<(Seq<char>, PropertyView)>,
    has_children: bool,
    children: Seq<MenuEntryView>,
)
    ensures
        ({
            let entry = entry_head(id, properties, has_children, children);
            let kind = text_of_property(properties, "toggle-type"@);
            &&& entry.id == id
            &&& entry.children == children
            &&& text_of_property(properties, "label"@) is Some ==> entry.label == shown_label(
                text_of_property(properties, "label"@)->0,
            )
            &&& text_of_property(properties, "label"@) is None ==> entry.label.len() == 0
            &&& !entry.enabled <==> property_of(properties, "enabled"@) == Some(
                PropertyView::Flag(false),
            )
            &&& !entry.visible <==> property_of(properties, "visible"@) == Some(
                PropertyView::Flag(false),
            )
            &&& entry.separator <==> text_of_property(properties, "type"@) == Some("separator"@)
            &&& has_children ==> entry.submenu
            &&& !has_children ==> (entry.submenu <==> text_of_property(
                properties,
                "children-display"@,
            ) == Some("submenu"@))
            &&& entry.toggle_type is Some <==> kind == Some("checkmark"@) || kind == Some("radio"@)
            &&& entry.toggle_type is Some ==> entry.toggle_type == kind
            &&& entry.toggle_state is Some <==> entry.toggle_type is Some
            &&& entry.toggle_type is Some && property_of(properties, "toggle-state"@) == Some(
                PropertyView::Number(1),
            ) ==> entry.toggle_state == Some(1i32)
            &&& entry.toggle_type is Some && property_of(properties, "toggle-state"@) == Some(
                PropertyView::Number(0),
            ) ==> entry.toggle_state == Some(0i32)
            &&& entry.toggle_state is Some ==> -1 <= entry.toggle_state->0 <= 1
        }),
{
    let empty = Seq::<char>::empty();
    if text_of_property(properties, "label"@) is None {
        assert(empty.filter(is_shown()) =~= empty) by {
            reveal(Seq::filter);
        }
        assert(unmarked(empty) =~= empty);
    }
}

/// Every entry that is sent is in a menu that is accepted, in its place and with what its properties
/// say of it; one that is not accepted refuses the whole menu.
pub proof fn accepted_menus_are_complete(nodes: Seq<WireNode>, depth: int, budget: Budget, at: int)
    requires
        0 <= at < nodes.len(),
    ensures
        match accepted_entries(nodes, depth, budget) {
            Some((entries, left)) => {
                &&& entries.len() == nodes.len()
                &&& entries[at].id == nodes[at].id
                &&& nodes[at].id >= 0
                &&& depth <= MAX_MENU_DEPTH
                &&& entries[at] == entry_head(
                    nodes[at].id,
                    property_views(nodes[at].properties@),
                    nodes[at].children@.len() > 0,
                    entries[at].children,
                )
            },
            None => true,
        },
        nodes[at].id < 0 || depth > MAX_MENU_DEPTH ==> accepted_entries(
            nodes,
            depth,
            budget,
        ) is None,
    decreases nodes.len(),
{
    reveal_with_fuel(accepted_entries, 2);
    reveal_with_fuel(accepted_entry, 2);
    let front = nodes.drop_last();
    if front.len() > 0 {
        accepted_menus_are_complete(
            front,
            depth,
            budget,
            if at < front.len() {
                at
            } else {
                0
            },
        );
        if at < front.len() {
            assert(front[at] == nodes[at]);
        }
    }
}

/// A menu is accepted only where it is not too long and its root is the root.
pub proof fn menus_start_at_their_root(root: WireNode, size: usize)
    ensures
        accepted_menu(root, size) is Some ==> root.id == 0 && size <= MAX_REPLY_BYTES && (
        accepted_menu(root, size)->0).len() == root.children@.len(),
        size > MAX_REPLY_BYTES || root.id != 0 ==> accepted_menu(root, size) is None,
{
    reveal_with_fuel(accepted_entry, 2);
    reveal_with_fuel(accepted_entries, 2);
    if accepted_menu(root, size) is Some && root.children@.len() > 0 {
        accepted_menus_are_complete(
            root.children@,
            1,
            Budget { remaining: MAX_MENU_ITEMS as int - 1, ids: Seq::<i32>::empty().push(root.id) },
            0,
        );
    }
}

/// An entry can be activated exactly where it can be reached and opens no menu of its own.
pub proof fn entries_that_open_menus_are_not_activated(entries: Seq<MenuEntryView>, id: i32)
    ensures
        is_actionable(entries, id) ==> ({
            let found = reachable_entry(entries, id);
            &&& found is Some
            &&& (found->0).id == id
            &&& (found->0).enabled
            &&& (found->0).visible
            &&& !(found->0).separator
            &&& !(found->0).submenu
        }),
        reachable_entry(entries, id) is Some && !(reachable_entry(entries, id)->0).submenu
            ==> is_actionable(entries, id),
{
    found_entries_are_reachable(entries, id);
}

} // verus!
