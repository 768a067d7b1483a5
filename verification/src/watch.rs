//! What the notifications of changed files say, and which directories are watched.

use vstd::prelude::*;
use crate::inspector::{insert_path, insert_sorted, sorted_paths, with_path};
use crate::paths::{has_path, holds_path, path_views, FilePath};
use crate::text::begins_with;

verus! {

/// How many directories are watched.
pub const MAX_WATCH_DIRECTORIES: usize = 4096;

/// How deep below its root a directory is watched.
pub const MAX_WATCH_DEPTH: usize = 16;

/// The size of the fixed part of a notification.
pub const EVENT_HEADER_BYTES: usize = 16;

/// The mark of a notification that others were lost.
pub const QUEUE_OVERFLOW: u32 = 16384;

/// The number of four bytes at `at`, in the order of the machine.
pub open spec fn number_at(bytes: Seq<u8>, at: int, big_endian: bool) -> nat {
    if big_endian {
        crate::inspector::big_endian(bytes, at)
    } else {
        crate::inspector::stored(bytes, at, 4)
    }
}

/// The bytes before the first zero.
pub open spec fn before_zero(bytes: Seq<u8>) -> Seq<u8>
    decreases bytes.len(),
{
    if bytes.len() == 0 || bytes[0] == 0 {
        seq![]
    } else {
        seq![bytes[0]] + before_zero(bytes.skip(1))
    }
}

/// Whether a notification concerns a file: it names it, or says that others were lost.
pub open spec fn concerns(bytes: Seq<u8>, at: int, file: Seq<u8>, big_endian: bool) -> bool {
    let length = number_at(bytes, at + 12, big_endian) as int;
    let mask = number_at(bytes, at + 4, big_endian) as u32;
    mask & QUEUE_OVERFLOW != 0 || (length > 0 && before_zero(
        bytes.subrange(at + EVENT_HEADER_BYTES, at + EVENT_HEADER_BYTES + length),
    ) == file)
}

/// Whether one of the notifications from `at` on concerns a file. One that is cut off ends them.
pub open spec fn any_concerns(bytes: Seq<u8>, at: int, file: Seq<u8>, big_endian: bool) -> bool
    decreases bytes.len() - at,
{
    if at < 0 || at + EVENT_HEADER_BYTES > bytes.len() {
        false
    } else {
        let length = number_at(bytes, at + 12, big_endian) as int;
        if at + EVENT_HEADER_BYTES + length > bytes.len() {
            false
        } else {
            concerns(bytes, at, file, big_endian) || any_concerns(
                bytes,
                at + EVENT_HEADER_BYTES + length,
                file,
                big_endian,
            )
        }
    }
}

/// The number of four bytes at `at`.
fn read_number(bytes: &[u8], at: usize, big_endian: bool) -> (number: u32)
    requires
        at + 4 <= bytes@.len(),
    ensures
        number == number_at(bytes@, at as int, big_endian),
{
    if big_endian {
        crate::inspector::read_big_endian(bytes, at)
    } else {
        crate::inspector::stored_u32(bytes, at)
    }
}

/// Whether the bytes before the first zero of a stretch are those of a name.
fn is_named(bytes: &[u8], start: usize, end: usize, file: &Vec<u8>) -> (named: bool)
    requires
        start <= end <= bytes@.len(),
    ensures
        named == (before_zero(bytes@.subrange(start as int, end as int)) == file@),
{
    let ghost whole = bytes@.subrange(start as int, end as int);
    let mut name: Vec<u8> = Vec::new();
    let mut at: usize = start;
    assert(bytes@.subrange(at as int, end as int) =~= whole);
    assert(name@ + before_zero(whole) =~= before_zero(whole));
    while at < end && bytes[at] != 0
        invariant
            start <= at <= end <= bytes@.len(),
            before_zero(whole) == name@ + before_zero(bytes@.subrange(at as int, end as int)),
        decreases end - at,
    {
        let ghost rest = bytes@.subrange(at as int, end as int);
        let ghost before = name@;
        assert(rest.skip(1) =~= bytes@.subrange(at + 1, end as int));
        name.push(bytes[at]);
        assert(before + (seq![rest[0]] + before_zero(rest.skip(1))) =~= name@ + before_zero(
            rest.skip(1),
        ));
        at = at + 1;
    }
    assert(name@ + Seq::<u8>::empty() =~= name@);
    assert(before_zero(bytes@.subrange(at as int, end as int)) =~= seq![]);
    crate::paths::same_bytes(name.as_slice(), file.as_slice())
}

/// Whether one of the notifications concerns a file; `big_endian` is the order of the machine.
pub fn file_changed(bytes: &[u8], file: &Vec<u8>, big_endian: bool) -> (changed: bool)
    ensures
        changed == any_concerns(bytes@, 0, file@, big_endian),
{
    let mut at: usize = 0;
    while bytes.len() - at >= EVENT_HEADER_BYTES
        invariant
            at <= bytes@.len(),
            any_concerns(bytes@, 0, file@, big_endian) == any_concerns(
                bytes@,
                at as int,
                file@,
                big_endian,
            ),
        decreases bytes.len() - at,
    {
        let length: u32 = read_number(bytes, at + 12, big_endian);
        let mask: u32 = read_number(bytes, at + 4, big_endian);
        let start: usize = at + EVENT_HEADER_BYTES;
        if length as u64 > (bytes.len() - start) as u64 {
            return false;
        }
        let end: usize = start + length as usize;
        if mask & QUEUE_OVERFLOW != 0 {
            return true;
        }
        if length > 0 && is_named(bytes, start, end, file) {
            return true;
        }
        at = end;
    }
    false
}

/// What is at a path.
#[derive(Debug, Clone, Copy, PartialEq, Eq, Structural)]
pub enum Lookup {
    /// A directory, and no link to one.
    Directory,
    /// Something else.
    Other,
    /// Nothing.
    Missing,
}

/// What is watched for a root.
#[derive(Debug, Clone, Copy, PartialEq, Eq, Structural)]
pub enum WatchChoice {
    /// The path and what is below it.
    Tree,
    /// The path alone: what it is watched for is not there yet.
    Ancestor,
    /// Nothing.
    Nothing,
    /// The directory above is looked at.
    Above,
}

/// What is watched for a root, by what is at a path that is the root or, where that is missing, lies
/// above it.
pub fn nearest_real_directory(lookup: Lookup, is_root: bool) -> (choice: WatchChoice)
    ensures
        choice == match lookup {
            Lookup::Directory => if is_root {
                WatchChoice::Tree
            } else {
                WatchChoice::Ancestor
            },
            Lookup::Other => WatchChoice::Nothing,
            Lookup::Missing => WatchChoice::Above,
        },
        choice == watched_at(lookup, is_root),
{
    match lookup {
        Lookup::Directory => if is_root {
            WatchChoice::Tree
        } else {
            WatchChoice::Ancestor
        },
        Lookup::Other => WatchChoice::Nothing,
        Lookup::Missing => WatchChoice::Above,
    }
}

/// A path that is still to be looked at.
#[derive(Debug)]
pub struct PendingDirectory {
    pub path: FilePath,
    pub depth: usize,
}

/// What [`PendingDirectory`] is a model of.
pub struct PendingView {
    pub path: Seq<u8>,
    pub depth: int,
}

impl View for PendingDirectory {
    type V = PendingView;

    open spec fn view(&self) -> PendingView {
        PendingView { path: self.path@, depth: self.depth as int }
    }
}

/// Paths that are still to be looked at, as a sequence.
pub open spec fn pending_views(pending: Seq<PendingDirectory>) -> Seq<PendingView> {
    pending.map_values(|directory: PendingDirectory| directory@)
}

/// Collects the directories that are watched: those below a root, the nearer ones of a name order
/// first, as deep and as many as is allowed.
#[derive(Debug)]
pub struct DirectoryCollector {
    /// What is still to be looked at; the last one is next.
    pub pending: Vec<PendingDirectory>,
    /// What is watched, in order.
    pub found: Vec<FilePath>,
}

/// What [`DirectoryCollector`] is a model of.
pub struct CollectorView {
    pub pending: Seq<PendingView>,
    pub found: Seq<Seq<u8>>,
}

impl View for DirectoryCollector {
    type V = CollectorView;

    open spec fn view(&self) -> CollectorView {
        CollectorView { pending: pending_views(self.pending@), found: path_views(self.found@) }
    }
}

/// The entries of a directory as what is to be looked at: the first in order comes next.
pub open spec fn stacked(children: Seq<Seq<u8>>, depth: int) -> Seq<PendingView> {
    let ordered = sorted_paths(children);
    Seq::new(
        ordered.len(),
        |at: int| PendingView { path: ordered[ordered.len() - 1 - at], depth },
    )
}

/// The state after the next path was looked at.
pub open spec fn after_look(
    state: CollectorView,
    directory: bool,
    children: Seq<Seq<u8>>,
) -> CollectorView {
    let next = state.pending.last();
    let rest = state.pending.drop_last();
    if !directory || holds_path(state.found, next.path) {
        CollectorView { pending: rest, ..state }
    } else {
        CollectorView {
            pending: if next.depth < MAX_WATCH_DEPTH {
                rest + stacked(children, next.depth + 1)
            } else {
                rest
            },
            found: with_path(state.found, next.path),
        }
    }
}

/// Whether no more is watched than is allowed, and nothing too deep is looked at.
pub open spec fn is_bounded(state: CollectorView) -> bool {
    state.found.len() <= MAX_WATCH_DIRECTORIES && forall|at: int|
        0 <= at < state.pending.len() ==> 0 <= (#[trigger] state.pending[at]).depth
            <= MAX_WATCH_DEPTH
}

impl DirectoryCollector {
    /// Nothing is watched yet.
    pub fn new() -> (collector: DirectoryCollector)
        ensures
            collector@ == (CollectorView { pending: seq![], found: seq![] }),
            is_bounded(collector@),
    {
        let collector = DirectoryCollector { pending: Vec::new(), found: Vec::new() };
        assert(collector@.pending =~= seq![]);
        assert(collector@.found =~= seq![]);
        collector
    }

    /// A root is to be looked at next, with what is below it.
    pub fn add_tree(&mut self, root: FilePath)
        ensures
            final(self)@ == (CollectorView {
                pending: old(self)@.pending.push(PendingView { path: root@, depth: 0 }),
                ..old(self)@
            }),
            is_bounded(old(self)@) ==> is_bounded(final(self)@),
    {
        let ghost before = self@.pending;
        self.pending.push(PendingDirectory { path: root, depth: 0 });
        assert(self@.pending =~= before.push(PendingView { path: root@, depth: 0 }));
    }

    /// A directory is watched alone, where there is room for it.
    pub fn add_ancestor(&mut self, directory: FilePath)
        ensures
            final(self)@ == if old(self)@.found.len() < MAX_WATCH_DIRECTORIES {
                CollectorView { found: with_path(old(self)@.found, directory@), ..old(self)@ }
            } else {
                old(self)@
            },
            is_bounded(old(self)@) ==> is_bounded(final(self)@),
    {
        proof {
            with_path_grows_by_one(self@.found, directory@);
        }
        assert(self@.found.len() == self.found@.len());
        if self.found.len() < MAX_WATCH_DIRECTORIES {
            insert_path(&mut self.found, directory);
        }
    }

    /// The path that is to be looked at next; none where nothing is left or no more can be watched.
    pub fn next(&self) -> (path: Option<FilePath>)
        ensures
            crate::paths::optional_path(path) == if self@.pending.len() > 0 && self@.found.len()
                < MAX_WATCH_DIRECTORIES {
                Some(self@.pending.last().path)
            } else {
                None
            },
            crate::paths::optional_path(path) == next_of(self@),
    {
        assert(self@.found.len() == self.found@.len());
        assert(self@.pending.len() == self.pending@.len());
        let count: usize = self.pending.len();
        if count > 0 && self.found.len() < MAX_WATCH_DIRECTORIES {
            assert(self@.pending.last() == self.pending@[count - 1]@);
            return Some(self.pending[count - 1].path.duplicate());
        }
        None
    }

    /// The next path was looked at: whether it is a directory, and no link to one, and what is in
    /// it.
    pub fn look(&mut self, directory: bool, children: &Vec<FilePath>)
        requires
            old(self)@.pending.len() > 0,
            is_bounded(old(self)@),
            old(self)@.found.len() < MAX_WATCH_DIRECTORIES,
        ensures
            final(self)@ == after_look(old(self)@, directory, path_views(children@)),
            is_bounded(final(self)@),
    {
        let ghost before = self@;
        assert(before.pending.len() == self.pending@.len());
        assert(before.found.len() == self.found@.len());
        assert(before.pending.last() == self.pending@.last()@);
        let current = match self.pending.pop() {
            Some(current) => current,
            None => {
                return;
            },
        };
        assert(pending_views(self.pending@) =~= before.pending.drop_last());
        assert(current@ == before.pending[before.pending.len() - 1]);
        assert(forall|at: int|
            0 <= at < before.pending.len() - 1 ==> before.pending.drop_last()[at]
                == before.pending[at]);
        if !directory || has_path(&self.found, &current.path) {
            return;
        }
        proof {
            with_path_grows_by_one(before.found, current.path@);
        }
        let depth: usize = current.depth;
        insert_path(&mut self.found, current.path);
        if depth >= MAX_WATCH_DEPTH {
            return;
        }
        let mut ordered: Vec<FilePath> = Vec::new();
        let ghost views = path_views(children@);
        let mut at: usize = 0;
        assert(views.take(0) =~= seq![]);
        assert(path_views(ordered@) =~= seq![]);
        while at < children.len()
            invariant
                at <= children.len(),
                views == path_views(children@),
                path_views(ordered@) == sorted_paths(views.take(at as int)),
            decreases children.len() - at,
        {
            assert(views.take(at + 1).drop_last() =~= views.take(at as int));
            assert(views[at as int] == children@[at as int]@);
            insert_sorted(&mut ordered, children[at].duplicate());
            at = at + 1;
        }
        assert(views.take(at as int) =~= views);
        let ghost rest = pending_views(self.pending@);
        let ghost above = stacked(views, depth + 1);
        let ghost names = path_views(ordered@);
        let mut left: usize = ordered.len();
        assert(names.len() == ordered@.len());
        assert(rest + above.take(0) =~= rest);
        while left > 0
            invariant
                left <= ordered.len(),
                depth < MAX_WATCH_DEPTH,
                names == path_views(ordered@),
                names == sorted_paths(views),
                names.len() == ordered@.len(),
                above == stacked(views, depth + 1),
                path_views(self.found@) == with_path(before.found, before.pending.last().path),
                pending_views(self.pending@) == rest + above.take(names.len() - left),
            decreases left,
        {
            left = left - 1;
            let ghost so_far = pending_views(self.pending@);
            assert(names[left as int] == ordered@[left as int]@);
            let path = ordered[left].duplicate();
            let child = PendingDirectory { path, depth: depth + 1 };
            let ghost shown = child@;
            self.pending.push(child);
            assert(pending_views(self.pending@) =~= so_far.push(shown));
            assert(above[names.len() - left - 1] == shown);
            assert(so_far.push(shown) =~= rest + above.take(names.len() - left));
        }
        assert(above.take(names.len() as int) =~= above);
    }
}

/// A path that is put in adds at most one.
proof fn with_path_grows_by_one(paths: Seq<Seq<u8>>, path: Seq<u8>)
    ensures
        with_path(paths, path).len() <= paths.len() + 1,
    decreases paths.len(),
{
    if paths.len() > 0 {
        with_path_grows_by_one(paths.drop_last(), path);
    }
}

/// The name in a notification ends at its first zero.
pub proof fn names_end_at_the_first_zero(name: Seq<u8>, rest: Seq<u8>)
    requires
        !name.contains(0u8),
    ensures
        before_zero(name) == name,
        before_zero(name.push(0u8) + rest) == name,
    decreases name.len(),
{
    let whole = name.push(0u8) + rest;
    if name.len() == 0 {
        assert(whole[0] == 0);
        assert(before_zero(name) =~= name);
        assert(before_zero(whole) =~= name);
    } else {
        let tail = name.skip(1);
        if tail.contains(0u8) {
            let at = choose|at: int| 0 <= at < tail.len() && tail[at] == 0u8;
            assert(name[at + 1] == 0u8);
        }
        assert(name[0] != 0u8);
        names_end_at_the_first_zero(tail, rest);
        assert(whole.skip(1) =~= tail.push(0u8) + rest);
        assert(whole[0] == name[0]);
        assert(seq![name[0]] + tail =~= name);
    }
}

/// A notification concerns a file where it names it or says that others were lost, and one that
/// names another file and lost nothing does not.
pub proof fn notifications_concern_what_they_name(
    bytes: Seq<u8>,
    at: int,
    name: Seq<u8>,
    file: Seq<u8>,
    big_endian: bool,
)
    requires
        0 <= at,
        at + EVENT_HEADER_BYTES + number_at(bytes, at + 12, big_endian) <= bytes.len(),
        number_at(bytes, at + 12, big_endian) > name.len(),
        !name.contains(0u8),
        begins_with(bytes.skip(at + EVENT_HEADER_BYTES), name.push(0u8)),
    ensures
        name == file ==> any_concerns(bytes, at, file, big_endian),
        (number_at(bytes, at + 4, big_endian) as u32) & QUEUE_OVERFLOW != 0 ==> any_concerns(
            bytes,
            at,
            file,
            big_endian,
        ),
        name != file && (number_at(bytes, at + 4, big_endian) as u32) & QUEUE_OVERFLOW == 0
            ==> any_concerns(bytes, at, file, big_endian) == any_concerns(
            bytes,
            at + EVENT_HEADER_BYTES + number_at(bytes, at + 12, big_endian),
            file,
            big_endian,
        ),
{
    let length = number_at(bytes, at + 12, big_endian) as int;
    let start = at + EVENT_HEADER_BYTES;
    let field = bytes.subrange(start, start + length);
    let front = bytes.skip(start).take(name.len() as int + 1);
    assert(front == name.push(0u8));
    assert(field =~= name.push(0u8) + field.skip(name.len() as int + 1)) by {
        assert forall|place: int| 0 <= place < name.len() + 1 implies field[place]
            == name.push(0u8)[place] by {
            assert(front[place] == field[place]);
        }
    }
    names_end_at_the_first_zero(name, field.skip(name.len() as int + 1));
}

/// What is no directory is only passed over. A directory that is not watched yet is watched, and what
/// it holds is looked at next, one level deeper and in order, unless it is as deep as is allowed.
pub proof fn directories_are_watched_once(
    state: CollectorView,
    directory: bool,
    children: Seq<Seq<u8>>,
    at: int,
)
    requires
        state.pending.len() > 0,
    ensures
        ({
            let next = state.pending.last();
            let after = after_look(state, directory, children);
            let known = holds_path(state.found, next.path);
            &&& !directory || known ==> after.found == state.found && after.pending
                == state.pending.drop_last()
            &&& directory && !known ==> after.found == with_path(state.found, next.path)
            &&& directory && !known && next.depth >= MAX_WATCH_DEPTH ==> after.pending
                == state.pending.drop_last()
            &&& directory && !known && next.depth < MAX_WATCH_DEPTH ==> {
                &&& after.pending.len() == state.pending.len() - 1 + children.len()
                &&& begins_with(after.pending, state.pending.drop_last())
                &&& 0 <= at < children.len() ==> ({
                    let added = after.pending[state.pending.len() - 1 + at];
                    &&& added.depth == next.depth + 1
                    &&& children.contains(added.path)
                    &&& added.path == sorted_paths(children)[children.len() - 1 - at]
                })
            }
        }),
{
    broadcast use vstd::seq_lib::group_to_multiset_ensures;

    let next = state.pending.last();
    let rest = state.pending.drop_last();
    let after = after_look(state, directory, children);
    let ordered = sorted_paths(children);
    crate::inspector::sorting_keeps_every_path(children);
    assert(ordered.len() == children.len()) by {
        assert(ordered.to_multiset().len() == children.to_multiset().len());
    }
    if directory && !holds_path(state.found, next.path) && next.depth < MAX_WATCH_DEPTH {
        assert(after.pending.take(rest.len() as int) =~= rest);
        if 0 <= at < children.len() {
            let path = ordered[children.len() - 1 - at];
            assert(ordered.to_multiset().contains(path));
            assert(children.to_multiset().contains(path));
            assert(children.contains(path));
        }
    }
}

/// What is watched for a root, by what is at a path.
pub open spec fn watched_at(lookup: Lookup, is_root: bool) -> WatchChoice {
    match lookup {
        Lookup::Directory => if is_root {
            WatchChoice::Tree
        } else {
            WatchChoice::Ancestor
        },
        Lookup::Other => WatchChoice::Nothing,
        Lookup::Missing => WatchChoice::Above,
    }
}

/// The path that is to be looked at next.
pub open spec fn next_of(state: CollectorView) -> Option<Seq<u8>> {
    if state.pending.len() > 0 && state.found.len() < MAX_WATCH_DIRECTORIES {
        Some(state.pending.last().path)
    } else {
        None
    }
}

/// Only a root that is a directory is watched with what is below it. Where it is missing the nearest
/// directory above is watched alone, and anything else is not watched.
pub proof fn real_directories_are_watched(is_root: bool)
    ensures
        watched_at(Lookup::Directory, true) is Tree,
        watched_at(Lookup::Directory, false) is Ancestor,
        watched_at(Lookup::Missing, is_root) is Above,
        watched_at(Lookup::Other, is_root) is Nothing,
{
}

/// What was put on last is looked at first, until as much is watched as is allowed.
pub proof fn the_last_one_is_next(state: CollectorView, path: Seq<u8>, depth: int)
    ensures
        state.found.len() < 4096 ==> next_of(
            CollectorView { pending: state.pending.push(PendingView { path, depth }), ..state },
        ) == Some(path),
        state.found.len() >= 4096 ==> next_of(state) is None,
        state.pending.len() == 0 ==> next_of(state) is None,
{
}

} // verus!
