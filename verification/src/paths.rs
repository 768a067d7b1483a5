//! File paths as byte strings.

use vstd::prelude::*;

verus! {

/// A path of the guest file system, byte for byte as the kernel names it.
#[derive(Debug, Clone, PartialEq, Eq)]
pub struct FilePath {
    pub bytes: Vec<u8>,
}

impl View for FilePath {
    type V = Seq<u8>;

    open spec fn view(&self) -> Seq<u8> {
        self.bytes@
    }
}

/// A copy of `bytes`.
pub fn copy_bytes(bytes: &[u8]) -> (copy: Vec<u8>)
    ensures
        copy@ == bytes@,
{
    let mut copy: Vec<u8> = Vec::new();
    let mut index: usize = 0;
    while index < bytes.len()
        invariant
            index <= bytes.len(),
            copy@ == bytes@.take(index as int),
        decreases bytes.len() - index,
    {
        copy.push(bytes[index]);
        assert(bytes@.take(index + 1) =~= bytes@.take(index as int).push(bytes@[index as int]));
        index = index + 1;
    }
    assert(bytes@.take(bytes@.len() as int) =~= bytes@);
    copy
}

/// Whether two byte strings are equal.
pub fn same_bytes(left: &[u8], right: &[u8]) -> (same: bool)
    ensures
        same == (left@ == right@),
{
    if left.len() != right.len() {
        return false;
    }
    let mut index: usize = 0;
    while index < left.len()
        invariant
            index <= left.len(),
            left.len() == right.len(),
            forall|at: int| 0 <= at < index ==> left@[at] == right@[at],
        decreases left.len() - index,
    {
        if left[index] != right[index] {
            return false;
        }
        index = index + 1;
    }
    assert(left@ =~= right@);
    true
}

/// Whether a path begins at the root.
pub open spec fn is_absolute_path(path: Seq<u8>) -> bool {
    path.len() > 0 && path[0] == 47
}

/// The parts of a list, each as bytes.
pub open spec fn byte_parts(parts: Seq<Vec<u8>>) -> Seq<Seq<u8>> {
    parts.map_values(|part: Vec<u8>| part@)
}

/// The parts of `path` between slashes.
pub open spec fn parts(path: Seq<u8>) -> Seq<Seq<u8>>
    decreases path.len(),
{
    if path.len() == 0 {
        seq![seq![]]
    } else {
        let before = parts(path.drop_last());
        if path.last() == 47 {
            before.push(seq![])
        } else {
            before.drop_last().push(before.last().push(path.last()))
        }
    }
}

/// The components among the first parts of a path.
pub open spec fn kept_parts(all: Seq<Seq<u8>>) -> Seq<Seq<u8>>
    decreases all.len(),
{
    if all.len() == 0 {
        seq![]
    } else {
        let before = kept_parts(all.drop_last());
        let part = all.last();
        if part.len() == 0 || (part == seq![46u8] && all.len() > 1) {
            before
        } else {
            before.push(part)
        }
    }
}

/// The components of a path but for the root: the parts between slashes, without the empty ones and
/// without the dots that stand for the directory itself, but for one that the path begins with.
pub open spec fn kept_components(path: Seq<u8>) -> Seq<Seq<u8>> {
    kept_parts(parts(path))
}

/// The components of a path, with a slash for the root where it begins there.
pub open spec fn path_components(path: Seq<u8>) -> Seq<Seq<u8>> {
    if is_absolute_path(path) {
        seq![seq![47u8]] + kept_components(path)
    } else {
        kept_components(path)
    }
}

/// Whether two paths lead the same way: they have the same components.
pub open spec fn same_place(left: Seq<u8>, right: Seq<u8>) -> bool {
    path_components(left) == path_components(right)
}

/// The components of `path` but for the root.
pub fn components_of(path: &FilePath) -> (list: Vec<Vec<u8>>)
    ensures
        byte_parts(list@) == kept_components(path@),
{
    let ghost all = path@;
    let mut list: Vec<Vec<u8>> = Vec::new();
    let mut part: Vec<u8> = Vec::new();
    let mut count: usize = 0;
    let ghost mut done: Seq<Seq<u8>> = seq![];
    let mut at: usize = 0;
    assert(all.take(0) =~= seq![]);
    assert(parts(all.take(0)) =~= done.push(part@));
    assert(byte_parts(list@) =~= kept_parts(done));
    while at < path.bytes.len()
        invariant
            at <= path.bytes.len(),
            all == path.bytes@,
            count == done.len(),
            count <= at,
            byte_parts(list@) == kept_parts(done),
            parts(all.take(at as int)) == done.push(part@),
        decreases path.bytes.len() - at,
    {
        let byte: u8 = path.bytes[at];
        assert(all.take(at + 1).drop_last() =~= all.take(at as int));
        assert(all.take(at + 1).last() == byte);
        assert(parts(all.take(at as int)).drop_last() =~= done);
        if byte == 47 {
            push_component(&mut list, part, count, Ghost(done));
            proof {
                done = done.push(part@);
            }
            part = Vec::new();
            count = count + 1;
            assert(parts(all.take(at + 1)) =~= done.push(part@));
        } else {
            part.push(byte);
            assert(parts(all.take(at + 1)) =~= done.push(part@));
        }
        at = at + 1;
    }
    assert(all.take(at as int) =~= all);
    push_component(&mut list, part, count, Ghost(done));
    list
}

/// Adds the part of a path at `count` to its components, where it is one.
fn push_component(
    list: &mut Vec<Vec<u8>>,
    part: Vec<u8>,
    count: usize,
    Ghost(done): Ghost<Seq<Seq<u8>>>,
)
    requires
        count == done.len(),
        byte_parts(old(list)@) == kept_parts(done),
    ensures
        byte_parts(final(list)@) == kept_parts(done.push(part@)),
{
    assert(done.push(part@).drop_last() =~= done);
    let ghost before = byte_parts(list@);
    let length: usize = part.len();
    assert((part@ == seq![46u8]) == (length == 1 && part@[0] == 46)) by {
        if length == 1 && part@[0] == 46 {
            assert(part@ =~= seq![46u8]);
        }
    }
    if length == 0 || (length == 1 && part[0] == 46 && count > 0) {
    } else {
        let ghost whole = part@;
        list.push(part);
        assert(byte_parts(list@) =~= before.push(whole));
    }
}

/// Whether two lists of parts are the same.
pub fn same_parts(left: &Vec<Vec<u8>>, right: &Vec<Vec<u8>>) -> (same: bool)
    ensures
        same == (byte_parts(left@) == byte_parts(right@)),
{
    assert(byte_parts(left@).len() == left@.len());
    assert(byte_parts(right@).len() == right@.len());
    if left.len() != right.len() {
        return false;
    }
    let mut at: usize = 0;
    while at < left.len()
        invariant
            at <= left.len(),
            left.len() == right.len(),
            forall|earlier: int|
                0 <= earlier < at ==> #[trigger] byte_parts(left@)[earlier] == byte_parts(
                    right@,
                )[earlier],
        decreases left.len() - at,
    {
        assert(byte_parts(left@)[at as int] == left@[at as int]@);
        assert(byte_parts(right@)[at as int] == right@[at as int]@);
        if !same_bytes(left[at].as_slice(), right[at].as_slice()) {
            return false;
        }
        at = at + 1;
    }
    assert(byte_parts(left@) =~= byte_parts(right@));
    true
}

/// The components of `path`, with a slash for the root where it begins there.
pub fn all_components(path: &FilePath) -> (list: Vec<Vec<u8>>)
    ensures
        byte_parts(list@) == path_components(path@),
{
    let mut list: Vec<Vec<u8>> = components_of(path);
    if path.is_absolute() {
        let ghost before = byte_parts(list@);
        let mut root: Vec<u8> = Vec::new();
        root.push(47);
        assert(root@ =~= seq![47u8]);
        list.insert(0, root);
        assert(byte_parts(list@) =~= seq![seq![47u8]] + before);
    }
    list
}

impl FilePath {
    /// A copy of this path.
    pub fn duplicate(&self) -> (copy: FilePath)
        ensures
            copy@ == self@,
    {
        FilePath { bytes: copy_bytes(self.bytes.as_slice()) }
    }

    /// Whether both paths lead the same way.
    pub fn same(&self, other: &FilePath) -> (same: bool)
        ensures
            same == same_place(self@, other@),
    {
        same_parts(&all_components(self), &all_components(other))
    }
}

/// The paths of a list, each as its bytes.
pub open spec fn path_views(paths: Seq<FilePath>) -> Seq<Seq<u8>> {
    paths.map_values(|path: FilePath| path@)
}

/// The bytes of a path that may be absent.
pub open spec fn optional_path(path: Option<FilePath>) -> Option<Seq<u8>> {
    match path {
        Some(path) => Some(path@),
        None => None,
    }
}

/// A copy of a list of paths.
pub fn copy_paths(paths: &Vec<FilePath>) -> (copy: Vec<FilePath>)
    ensures
        path_views(copy@) == path_views(paths@),
{
    let mut copy: Vec<FilePath> = Vec::new();
    let mut index: usize = 0;
    while index < paths.len()
        invariant
            index <= paths.len(),
            path_views(copy@) =~= path_views(paths@).take(index as int),
        decreases paths.len() - index,
    {
        let ghost before = path_views(copy@);
        copy.push(paths[index].duplicate());
        assert(path_views(copy@) =~= before.push(path_views(paths@)[index as int]));
        index = index + 1;
    }
    copy
}

/// Whether one of `paths` leads the same way as `path`.
pub open spec fn holds_path(paths: Seq<Seq<u8>>, path: Seq<u8>) -> bool {
    exists|at: int| 0 <= at < paths.len() && same_place(#[trigger] paths[at], path)
}

/// Whether no two of `paths` lead the same way.
pub open spec fn paths_differ(paths: Seq<Seq<u8>>) -> bool {
    forall|left: int, right: int|
        0 <= left < right < paths.len() ==> !same_place(
            #[trigger] paths[left],
            #[trigger] paths[right],
        )
}

/// Where a path that leads the same way as `path` first stands in `paths`, if one does.
pub fn find_path(paths: &Vec<FilePath>, path: &FilePath) -> (found: Option<usize>)
    ensures
        match found {
            Some(at) => at < paths@.len() && same_place(path_views(paths@)[at as int], path@)
                && forall|before: int|
                0 <= before < at ==> !same_place(#[trigger] path_views(paths@)[before], path@),
            None => !holds_path(path_views(paths@), path@),
        },
{
    let mut index: usize = 0;
    while index < paths.len()
        invariant
            index <= paths.len(),
            forall|at: int|
                0 <= at < index ==> !same_place(#[trigger] path_views(paths@)[at], path@),
        decreases paths.len() - index,
    {
        assert(path_views(paths@)[index as int] == paths@[index as int]@);
        if paths[index].same(path) {
            return Some(index);
        }
        index = index + 1;
    }
    None
}

/// Whether a path that leads the same way as `path` is in `paths`.
pub fn has_path(paths: &Vec<FilePath>, path: &FilePath) -> (has: bool)
    ensures
        has == holds_path(path_views(paths@), path@),
{
    find_path(paths, path).is_some()
}

/// The part of a path behind its last slash.
pub open spec fn after_slash(path: Seq<u8>) -> Seq<u8>
    decreases path.len(),
{
    if path.len() == 0 || path.last() == 47 {
        seq![]
    } else {
        after_slash(path.drop_last()).push(path.last())
    }
}

/// A path without the slashes, and the dots that stand for the directory itself, at its end.
pub open spec fn without_tail(path: Seq<u8>) -> Seq<u8>
    decreases path.len(),
{
    if path.len() > 0 && path.last() == 47 {
        without_tail(path.drop_last())
    } else if path.len() > 1 && path.last() == 46 && path[path.len() - 2] == 47 {
        without_tail(path.drop_last())
    } else {
        path
    }
}

/// The name of the file at `path`: its last component, where that names an entry.
pub open spec fn file_name_of(path: Seq<u8>) -> Option<Seq<u8>> {
    let name = after_slash(without_tail(path));
    if name.len() == 0 || name == seq![46u8] || name == seq![46u8, 46u8] {
        None
    } else {
        Some(name)
    }
}

/// Where the last component of a path begins.
proof fn after_slash_is_tail(path: Seq<u8>, start: int)
    requires
        0 <= start <= path.len(),
        start > 0 ==> path[start - 1] == 47,
        forall|at: int| start <= at < path.len() ==> path[at] != 47,
    ensures
        after_slash(path) == path.skip(start),
    decreases path.len(),
{
    if start < path.len() {
        after_slash_is_tail(path.drop_last(), start);
        assert(path.skip(start) =~= path.drop_last().skip(start).push(path.last()));
    } else {
        assert(path.skip(start) =~= Seq::<u8>::empty());
    }
}

/// A directory and the name of an entry in it, as one path; a name that begins at the root is the
/// path already.
pub open spec fn joined(directory: Seq<u8>, name: Seq<u8>) -> Seq<u8> {
    if is_absolute_path(name) {
        name
    } else if directory.len() > 0 && directory.last() != 47 {
        directory.push(47) + name
    } else {
        directory + name
    }
}

impl FilePath {
    /// Whether this path begins at the root.
    pub fn is_absolute(&self) -> (absolute: bool)
        ensures
            absolute == is_absolute_path(self@),
    {
        self.bytes.len() > 0 && self.bytes[0] == 47
    }

    /// The name of the file at this path.
    pub fn file_name(&self) -> (name: Option<Vec<u8>>)
        ensures
            match file_name_of(self@) {
                Some(bytes) => name is Some && name->0@ == bytes,
                None => name is None,
            },
    {
        let path = self.bytes.as_slice();
        let mut end: usize = path.len();
        assert(path@.take(end as int) =~= path@);
        while end > 0 && (path[end - 1] == 47 || (end > 1 && path[end - 1] == 46 && path[end - 2]
            == 47))
            invariant
                end <= path.len(),
                without_tail(path@) == without_tail(path@.take(end as int)),
            decreases end,
        {
            assert(path@.take(end as int).drop_last() =~= path@.take(end - 1));
            end = end - 1;
        }
        let ghost whole = path@.take(end as int);
        assert(without_tail(path@) == whole);
        let mut start: usize = end;
        while start > 0 && path[start - 1] != 47
            invariant
                start <= end <= path.len(),
                forall|at: int| start <= at < end ==> path@[at] != 47,
            decreases start,
        {
            start = start - 1;
        }
        proof {
            after_slash_is_tail(whole, start as int);
        }
        let mut name: Vec<u8> = Vec::new();
        let mut at: usize = start;
        while at < end
            invariant
                start <= at <= end <= path.len(),
                name@ == path@.subrange(start as int, at as int),
            decreases end - at,
        {
            name.push(path[at]);
            assert(path@.subrange(start as int, at + 1) =~= path@.subrange(
                start as int,
                at as int,
            ).push(path@[at as int]));
            at = at + 1;
        }
        assert(name@ =~= whole.skip(start as int));
        let length: usize = name.len();
        if length == 0 || (length == 1 && name[0] == 46) || (length == 2 && name[0] == 46
            && name[1] == 46) {
            assert(length == 1 ==> name@ =~= seq![46u8]);
            assert(length == 2 ==> name@ =~= seq![46u8, 46u8]);
            None
        } else {
            Some(name)
        }
    }

    /// The entry `name` of this directory.
    pub fn join(&self, name: &[u8]) -> (path: FilePath)
        ensures
            path@ == joined(self@, name@),
    {
        if name.len() > 0 && name[0] == 47 {
            return FilePath { bytes: copy_bytes(name) };
        }
        let mut bytes = copy_bytes(self.bytes.as_slice());
        if bytes.len() > 0 && bytes[bytes.len() - 1] != 47 {
            bytes.push(47);
        }
        let ghost front = bytes@;
        let mut index: usize = 0;
        while index < name.len()
            invariant
                index <= name.len(),
                bytes@ == front + name@.take(index as int),
            decreases name.len() - index,
        {
            bytes.push(name[index]);
            assert(name@.take(index + 1) =~= name@.take(index as int).push(name@[index as int]));
            index = index + 1;
        }
        assert(name@.take(name@.len() as int) =~= name@);
        assert(bytes@ =~= joined(self@, name@));
        FilePath { bytes }
    }
}

/// What `String::from_utf8_lossy` makes of `bytes`.
pub uninterp spec fn lossy_text(bytes: Seq<u8>) -> Seq<char>;

/// [`String::from_utf8_lossy`]: `bytes` as text, with a replacement character for each part that is
/// not UTF-8. The text depends on the bytes alone, and is what they encode where they are UTF-8.
#[verifier::external_body]
pub(crate) fn from_utf8_lossy(bytes: &[u8]) -> (text: String)
    ensures
        text@ == lossy_text(bytes@),
        vstd::utf8::valid_utf8(bytes@) ==> text@ == vstd::utf8::decode_utf8(bytes@),
{
    String::from_utf8_lossy(bytes).into_owned()
}

/// The bytes from `start` on.
pub fn copy_bytes_from(bytes: &Vec<u8>, start: usize) -> (rest: Vec<u8>)
    requires
        start <= bytes@.len(),
    ensures
        rest@ == bytes@.skip(start as int),
{
    let mut rest: Vec<u8> = Vec::new();
    let mut at: usize = start;
    while at < bytes.len()
        invariant
            start <= at <= bytes.len(),
            rest@ == bytes@.subrange(start as int, at as int),
        decreases bytes.len() - at,
    {
        rest.push(bytes[at]);
        assert(rest@ =~= bytes@.subrange(start as int, at + 1));
        at = at + 1;
    }
    assert(rest@ =~= bytes@.skip(start as int));
    rest
}

/// The first `end` bytes.
pub fn copy_bytes_to(bytes: &Vec<u8>, end: usize) -> (front: Vec<u8>)
    requires
        end <= bytes@.len(),
    ensures
        front@ == bytes@.take(end as int),
{
    let mut front: Vec<u8> = Vec::new();
    let mut at: usize = 0;
    while at < end
        invariant
            at <= end <= bytes.len(),
            front@ == bytes@.take(at as int),
        decreases end - at,
    {
        front.push(bytes[at]);
        assert(front@ =~= bytes@.take(at + 1));
        at = at + 1;
    }
    front
}

/// [`std::str::from_utf8`]: `bytes` as text, exactly where they are UTF-8, and then what they
/// encode.
#[verifier::external_body]
pub(crate) fn from_utf8(bytes: &[u8]) -> (text: Option<String>)
    ensures
        match text {
            Some(text) => vstd::utf8::valid_utf8(bytes@) && text@ == vstd::utf8::decode_utf8(
                bytes@,
            ),
            None => !vstd::utf8::valid_utf8(bytes@),
        },
{
    std::str::from_utf8(bytes).ok().map(str::to_owned)
}

/// Whether bytes can be the name of an entry of a directory.
pub open spec fn is_entry_name(name: Seq<u8>) -> bool {
    name.len() > 0 && !name.contains(47u8) && name != seq![46u8] && name != seq![46u8, 46u8]
}

/// Bytes without a slash add to the last part of a path alone.
proof fn parts_grow(path: Seq<u8>, name: Seq<u8>)
    requires
        !name.contains(47u8),
    ensures
        parts(path).len() > 0,
        parts(path + name) == parts(path).drop_last().push(parts(path).last() + name),
    decreases name.len(),
{
    parts_are_there(path);
    if name.len() == 0 {
        assert(path + name =~= path);
        assert(parts(path).last() + name =~= parts(path).last());
        assert(parts(path) =~= parts(path).drop_last().push(parts(path).last()));
    } else {
        let front = name.drop_last();
        assert(forall|at: int| 0 <= at < front.len() ==> front[at] == name[at]);
        assert(!front.contains(47u8)) by {
            if front.contains(47u8) {
                let at = choose|at: int| 0 <= at < front.len() && front[at] == 47u8;
                assert(name[at] == 47u8);
            }
        }
        parts_grow(path, front);
        assert(name[name.len() - 1] == name.last());
        assert((path + name).drop_last() =~= path + front);
        let before = parts(path + front);
        let last = parts(path).last();
        assert(before.drop_last() =~= parts(path).drop_last());
        assert((last + front).push(name.last()) =~= last + name);
        assert(parts(path + name) =~= parts(path).drop_last().push(last + name));
    }
}

/// Every path has a part.
proof fn parts_are_there(path: Seq<u8>)
    ensures
        parts(path).len() > 0,
        path.len() > 0 && path.last() == 47 ==> parts(path).last() == Seq::<u8>::empty(),
        path.len() == 0 ==> parts(path) == seq![Seq::<u8>::empty()],
    decreases path.len(),
{
    if path.len() > 0 {
        parts_are_there(path.drop_last());
    }
}

/// The components of an entry of a directory are those of the directory and its name; and its name
/// is read back from its path.
pub proof fn entries_are_named_in_their_directory(directory: Seq<u8>, name: Seq<u8>)
    requires
        is_entry_name(name),
    ensures
        kept_components(joined(directory, name)) == kept_components(directory).push(name),
        is_absolute_path(joined(directory, name)) == is_absolute_path(directory),
        path_components(joined(directory, name)) == path_components(directory).push(name),
        file_name_of(joined(directory, name)) == Some(name),
{
    assert(name[0] != 47) by {
        assert(name.contains(name[0]));
    }
    let path = joined(directory, name);
    let base = if directory.len() > 0 && directory.last() != 47 {
        directory.push(47)
    } else {
        directory
    };
    assert(path =~= base + name);
    parts_are_there(directory);
    parts_are_there(base);
    parts_grow(base, name);
    let whole = parts(path);
    assert(parts(base).last() + name =~= name);
    assert(whole.last() == name);
    if directory.len() > 0 && directory.last() != 47 {
        assert(base.drop_last() =~= directory);
        assert(parts(base).drop_last() =~= parts(directory));
        assert(whole.drop_last() =~= parts(directory));
    } else {
        assert(whole.drop_last() =~= parts(directory).drop_last());
        assert(kept_parts(parts(directory)) == kept_parts(parts(directory).drop_last()));
    }
    assert(kept_parts(whole) == kept_parts(whole.drop_last()).push(name));
    if is_absolute_path(directory) {
        assert(path[0] == 47);
        assert(path_components(path) =~= path_components(directory).push(name));
    } else if directory.len() == 0 {
        assert(path =~= name);
    } else {
        assert(path[0] == directory[0]);
    }
    let start = base.len() as int;
    assert(path.last() == name.last());
    assert(name.contains(name.last()));
    if path.len() > 1 && path.last() == 46 && path[path.len() - 2] == 47 {
        if name.len() > 1 {
            assert(path[path.len() - 2] == name[name.len() - 2]);
            assert(name.contains(name[name.len() - 2]));
        } else {
            assert(name =~= seq![46u8]);
        }
    }
    assert(without_tail(path) == path);
    assert(start > 0 ==> path[start - 1] == 47);
    assert forall|at: int| start <= at < path.len() implies path[at] != 47 by {
        assert(path[at] == name[at - start]);
        assert(name.contains(name[at - start]));
    }
    after_slash_is_tail(path, start);
    assert(path.skip(start) =~= name);
}

/// A slash at the end of a directory changes nothing of where its entries are; two entries are in the
/// same place exactly where their directories are and they have the same name; and what is absolute
/// never is where something relative is.
pub proof fn entries_are_where_their_names_say(
    directory: Seq<u8>,
    other: Seq<u8>,
    name: Seq<u8>,
    second: Seq<u8>,
)
    requires
        is_entry_name(name),
        is_entry_name(second),
        directory.len() > 0,
    ensures
        same_place(joined(directory, name), joined(directory.push(47), name)),
        same_place(directory, directory.push(47)),
        same_place(joined(directory, name), joined(other, second)) <==> same_place(
            directory,
            other,
        ) && name == second,
        same_place(directory, other) ==> is_absolute_path(directory) == is_absolute_path(other),
{
    entries_are_named_in_their_directory(directory, name);
    entries_are_named_in_their_directory(directory.push(47), name);
    entries_are_named_in_their_directory(other, second);
    let slashed = directory.push(47);
    assert(slashed.drop_last() =~= directory);
    assert(parts(slashed).drop_last() =~= parts(directory));
    assert(kept_parts(parts(slashed)) == kept_parts(parts(directory)));
    assert(slashed[0] == directory[0]);
    let left = path_components(directory);
    let right = path_components(other);
    if left.push(name) == right.push(second) {
        assert(left.push(name).drop_last() =~= left);
        assert(right.push(second).drop_last() =~= right);
        assert(left.push(name).last() == name && right.push(second).last() == second);
    }
    if same_place(directory, other) {
        absolute_paths_begin_at_the_root(directory);
        absolute_paths_begin_at_the_root(other);
    }
}

/// No component but that of the root holds a slash.
proof fn components_hold_no_slash(path: Seq<u8>)
    ensures
        forall|at: int| 0 <= at < parts(path).len() ==> !(#[trigger] parts(path)[at]).contains(47u8),
    decreases path.len(),
{
    if path.len() > 0 {
        let front = path.drop_last();
        components_hold_no_slash(front);
        parts_are_there(front);
        let before = parts(front);
        let all = parts(path);
        assert forall|at: int| 0 <= at < all.len() implies !(#[trigger] all[at]).contains(47u8) by {
            if path.last() == 47 {
                if at < before.len() {
                    assert(all[at] == before[at]);
                }
            } else if at < before.len() - 1 {
                assert(all[at] == before[at]);
            } else {
                let last = before.last();
                assert(before[before.len() - 1] == last);
                assert forall|place: int| 0 <= place < all[at].len() implies all[at][place] != 47 by {
                    if place < last.len() {
                        assert(last[place] == all[at][place]);
                        assert(last.contains(last[place]));
                    }
                }
            }
        }
    }
}

/// What is kept of parts without slashes are such parts.
proof fn kept_parts_hold_no_slash(all: Seq<Seq<u8>>)
    requires
        forall|at: int| 0 <= at < all.len() ==> !(#[trigger] all[at]).contains(47u8),
    ensures
        forall|at: int|
            0 <= at < kept_parts(all).len() ==> !(#[trigger] kept_parts(all)[at]).contains(47u8),
    decreases all.len(),
{
    if all.len() > 0 {
        let front = all.drop_last();
        assert(forall|at: int| 0 <= at < front.len() ==> front[at] == #[trigger] all[at]);
        kept_parts_hold_no_slash(front);
        assert(!all[all.len() - 1].contains(47u8));
        let before = kept_parts(front);
        let kept = kept_parts(all);
        assert forall|at: int| 0 <= at < kept.len() implies !(#[trigger] kept[at]).contains(
            47u8,
        ) by {
            if at < before.len() {
                assert(kept[at] == before[at]);
            }
        }
    }
}

/// The components of a path begin with the root exactly where the path does.
proof fn absolute_paths_begin_at_the_root(path: Seq<u8>)
    ensures
        is_absolute_path(path) <==> path_components(path).len() > 0 && path_components(path)[0]
            == seq![47u8],
{
    components_hold_no_slash(path);
    kept_parts_hold_no_slash(parts(path));
    let root = seq![47u8];
    assert(root[0] == 47);
    assert(root.contains(47u8));
}

} // verus!
