//! The desktop items that are selected.

use vstd::prelude::*;
use crate::lists::{filter_ends, filter_step};
use crate::model::{ActionView, DesktopItemKind, HitTarget, ShellAction, TargetView};
use crate::model::target_views;
use crate::paths::{copy_paths, find_path, has_path, FilePath};
use crate::paths::{holds_path, optional_path, path_views, paths_differ, same_place};
use crate::state::{Chrome, Shell, ShellView};

verus! {

/// Whether a target is a desktop item.
pub open spec fn is_item() -> spec_fn(TargetView) -> bool {
    |target: TargetView| target.action is OpenDesktopItem
}

/// The path of a target that is a desktop item.
pub open spec fn item_path() -> spec_fn(TargetView) -> Seq<u8> {
    |target: TargetView| target.action->OpenDesktopItem_0
}

/// The paths of the desktop items among `targets`, in their order.
pub open spec fn item_paths(targets: Seq<TargetView>) -> Seq<Seq<u8>> {
    targets.filter(is_item()).map_values(item_path())
}

/// `paths` with `path` added, where none of them leads the same way.
pub open spec fn with_path(paths: Seq<Seq<u8>>, path: Seq<u8>) -> Seq<Seq<u8>> {
    if holds_path(paths, path) {
        paths
    } else {
        paths.push(path)
    }
}

/// `paths` with each of `more` added, where none of them leads the same way yet.
pub open spec fn with_paths(paths: Seq<Seq<u8>>, more: Seq<Seq<u8>>) -> Seq<Seq<u8>>
    decreases more.len(),
{
    if more.len() == 0 {
        paths
    } else {
        with_path(with_paths(paths, more.drop_last()), more.last())
    }
}

/// `paths` without the one that leads the same way as `path`.
pub open spec fn without_path(paths: Seq<Seq<u8>>, path: Seq<u8>) -> Seq<Seq<u8>> {
    paths.filter(|other: Seq<u8>| !same_place(other, path))
}

/// Where `path` first stands in `paths`, if it does.
pub open spec fn first_place(paths: Seq<Seq<u8>>, path: Seq<u8>) -> Option<int>
    decreases paths.len(),
{
    if paths.len() == 0 {
        None
    } else {
        match first_place(paths.drop_last(), path) {
            Some(at) => Some(at),
            None => if same_place(paths.last(), path) {
                Some(paths.len() - 1)
            } else {
                None
            },
        }
    }
}

/// The first place of a path is where it stands with none before it.
proof fn first_place_found(paths: Seq<Seq<u8>>, path: Seq<u8>)
    ensures
        match first_place(paths, path) {
            Some(at) => 0 <= at < paths.len() && same_place(paths[at], path) && forall|before: int|
                0 <= before < at ==> !same_place(#[trigger] paths[before], path),
            None => !holds_path(paths, path),
        },
    decreases paths.len(),
{
    if paths.len() > 0 {
        let front = paths.drop_last();
        first_place_found(front, path);
        assert(forall|at: int| 0 <= at < front.len() ==> front[at] == #[trigger] paths[at]);
        match first_place(front, path) {
            Some(at) => {
                assert(paths[at] == front[at]);
            },
            None => {
                assert forall|at: int| 0 <= at < front.len() implies !same_place(
                    #[trigger] paths[at],
                    path,
                ) by {
                    assert(same_place(front[at], path) == same_place(paths[at], path));
                }
            },
        }
    }
}

/// Where `path` first stands in `paths`.
fn place_of(paths: &Vec<FilePath>, path: &FilePath) -> (place: Option<usize>)
    ensures
        match place {
            Some(at) => first_place(path_views(paths@), path@) == Some(at as int) && at
                < paths@.len(),
            None => first_place(path_views(paths@), path@) is None,
        },
{
    proof {
        first_place_found(path_views(paths@), path@);
    }
    let found = find_path(paths, path);
    proof {
        let views = path_views(paths@);
        match (found, first_place(views, path@)) {
            (Some(at), Some(place)) => {
                assert(same_place(views[at as int], path@) && same_place(views[place], path@));
            },
            (Some(at), None) => {
                assert(same_place(views[at as int], path@));
            },
            (None, Some(place)) => {
                assert(same_place(views[place], path@));
            },
            (None, None) => {},
        }
    }
    found
}

/// The state with `selection` selected.
pub open spec fn selected(shell: ShellView, selection: Seq<Seq<u8>>) -> ShellView {
    ShellView { selection, chrome: Chrome { dirty: true, ..shell.chrome }, ..shell }
}

/// The state with only `path` selected.
pub open spec fn only_selected(shell: ShellView, path: Seq<u8>) -> ShellView {
    ShellView { selection_anchor: Some(path), ..selected(shell, seq![path]) }
}

/// The state with `path` selected where it was not, and the other way round.
pub open spec fn selection_toggled(shell: ShellView, path: Seq<u8>) -> ShellView {
    ShellView {
        selection_anchor: Some(path),
        ..selected(
            shell,
            if holds_path(shell.selection, path) {
                without_path(shell.selection, path)
            } else {
                shell.selection.push(path)
            },
        )
    }
}

/// The selection from the anchor to `path`, where both are items: with control held down it is
/// added to the one there was.
pub open spec fn range_selected(shell: ShellView, path: Seq<u8>) -> Option<Seq<Seq<u8>>> {
    let ordered = item_paths(shell.desktop_targets);
    let anchor = match shell.selection_anchor {
        Some(anchor) => first_place(ordered, anchor),
        None => None,
    };
    match (anchor, first_place(ordered, path)) {
        (Some(from), Some(to)) => Some(
            with_paths(
                if shell.chrome.input.modifiers.ctrl {
                    shell.selection
                } else {
                    seq![]
                },
                if from <= to {
                    ordered.subrange(from, to + 1)
                } else {
                    ordered.subrange(to, from + 1)
                },
            ),
        ),
        _ => None,
    }
}

/// The state after a click on the item `path` with the modifiers held down: shift selects the
/// items from the anchor on, control toggles one item, and without either only it is selected.
#[verifier::opaque]
pub open spec fn item_clicked(shell: ShellView, path: Seq<u8>) -> ShellView {
    if shell.chrome.input.modifiers.shift {
        match range_selected(shell, path) {
            Some(selection) => selected(shell, selection),
            None => only_selected(shell, path),
        }
    } else if shell.chrome.input.modifiers.ctrl {
        selection_toggled(shell, path)
    } else {
        only_selected(shell, path)
    }
}

/// The paths of the selected items, in the order of the desktop.
pub open spec fn selected_items(shell: ShellView) -> Seq<Seq<u8>> {
    item_paths(shell.desktop_targets).filter(|path: Seq<u8>| holds_path(shell.selection, path))
}

/// The only selected item, where there is exactly one.
pub open spec fn single_selected(shell: ShellView) -> Option<Seq<u8>> {
    if shell.selection.len() == 1 {
        Some(shell.selection[0])
    } else {
        None
    }
}

/// What the first desktop item at `path` is.
pub open spec fn kind_of(targets: Seq<TargetView>, path: Seq<u8>) -> Option<DesktopItemKind>
    decreases targets.len(),
{
    if targets.len() == 0 {
        None
    } else {
        match kind_of(targets.drop_last(), path) {
            Some(kind) => Some(kind),
            None => match targets.last().action {
                ActionView::OpenDesktopItem(other, kind) => if same_place(other, path) {
                    Some(kind)
                } else {
                    None
                },
                _ => None,
            },
        }
    }
}

/// The selection without the items that are no longer there.
pub open spec fn still_selected(selection: Seq<Seq<u8>>, targets: Seq<TargetView>) -> Seq<Seq<u8>> {
    selection.filter(|path: Seq<u8>| holds_path(item_paths(targets), path))
}

/// The paths of the desktop items among `targets`.
pub fn paths_of_items(targets: &Vec<HitTarget>) -> (paths: Vec<FilePath>)
    ensures
        path_views(paths@) == item_paths(target_views(targets@)),
{
    let ghost views = target_views(targets@);
    let mut paths: Vec<FilePath> = Vec::new();
    let mut at: usize = 0;
    proof {
        filter_ends(views, is_item());
        assert(item_paths(views.take(0)) =~= Seq::<Seq<u8>>::empty());
    }
    while at < targets.len()
        invariant
            at <= targets.len(),
            views == target_views(targets@),
            path_views(paths@) =~= item_paths(views.take(at as int)),
        decreases targets.len() - at,
    {
        proof {
            filter_step(views, is_item(), at as int);
            assert(views[at as int] == targets@[at as int]@);
        }
        let ghost before = path_views(paths@);
        if let ShellAction::OpenDesktopItem(path, kind) = &targets[at].action {
            paths.push(path.duplicate());
            assert(path_views(paths@) =~= before.push(path@));
            assert(item_paths(views.take(at + 1)) =~= item_paths(views.take(at as int)).push(
                path@,
            ));
        } else {
            assert(item_paths(views.take(at + 1)) =~= item_paths(views.take(at as int)));
        }
        at = at + 1;
    }
    proof {
        filter_ends(views, is_item());
    }
    paths
}

/// Adds `path` to `paths`, where it is not there yet.
fn add_path(paths: &mut Vec<FilePath>, path: FilePath)
    ensures
        path_views(final(paths)@) == with_path(path_views(old(paths)@), path@),
        paths_differ(path_views(old(paths)@)) ==> paths_differ(path_views(final(paths)@)),
{
    let ghost before = path_views(paths@);
    if !has_path(paths, &path) {
        paths.push(path);
        assert(path_views(paths@) =~= before.push(path@));
        proof {
            if paths_differ(before) {
                adding_stays_distinct(before, path@);
            }
        }
    }
}

/// The paths of `paths` that pass `keep_listed`: those that `list` holds, or those it does not.
fn retain_paths(paths: &Vec<FilePath>, list: &Vec<FilePath>, keep_listed: bool) -> (kept: Vec<
    FilePath,
>)
    ensures
        path_views(kept@) == path_views(paths@).filter(
            |path: Seq<u8>| holds_path(path_views(list@), path) == keep_listed,
        ),
{
    let ghost views = path_views(paths@);
    let ghost keep = |path: Seq<u8>| holds_path(path_views(list@), path) == keep_listed;
    let mut kept: Vec<FilePath> = Vec::new();
    let mut at: usize = 0;
    proof {
        filter_ends(views, keep);
    }
    while at < paths.len()
        invariant
            at <= paths.len(),
            views == path_views(paths@),
            keep == (|path: Seq<u8>| holds_path(path_views(list@), path) == keep_listed),
            path_views(kept@) =~= views.take(at as int).filter(keep),
        decreases paths.len() - at,
    {
        proof {
            filter_step(views, keep, at as int);
            assert(views[at as int] == paths@[at as int]@);
        }
        let ghost before = path_views(kept@);
        if has_path(list, &paths[at]) == keep_listed {
            kept.push(paths[at].duplicate());
            assert(path_views(kept@) =~= before.push(views[at as int]));
        }
        at = at + 1;
    }
    proof {
        filter_ends(views, keep);
    }
    kept
}

/// Adding a path that leads another way than all of `paths` leaves no two that lead the same way.
proof fn adding_stays_distinct(paths: Seq<Seq<u8>>, path: Seq<u8>)
    requires
        paths_differ(paths),
        !holds_path(paths, path),
    ensures
        paths_differ(paths.push(path)),
{
    let whole = paths.push(path);
    assert forall|left: int, right: int| 0 <= left < right < whole.len() implies !same_place(
        #[trigger] whole[left],
        #[trigger] whole[right],
    ) by {
        assert(whole[left] == paths[left]);
        if right < paths.len() {
            assert(whole[right] == paths[right]);
        }
    }
}

/// Filtering a list without repetitions leaves one without.
proof fn filter_keeps_distinct(paths: Seq<Seq<u8>>, keep: spec_fn(Seq<u8>) -> bool)
    requires
        paths_differ(paths),
    ensures
        paths_differ(paths.filter(keep)),
    decreases paths.len(),
{
    reveal(Seq::filter);
    if paths.len() > 0 {
        let rest = paths.drop_last();
        assert forall|left: int, right: int| 0 <= left < right < rest.len() implies !same_place(
            #[trigger] rest[left],
            #[trigger] rest[right],
        ) by {
            assert(rest[left] == paths[left] && rest[right] == paths[right]);
        }
        filter_keeps_distinct(rest, keep);
        if keep(paths.last()) {
            let kept = rest.filter(keep);
            if holds_path(kept, paths.last()) {
                let place = choose|place: int|
                    0 <= place < kept.len() && same_place(#[trigger] kept[place], paths.last());
                assert(kept.contains(kept[place]));
                rest.lemma_filter_contains_rev(keep, kept[place]);
                let at = choose|at: int| 0 <= at < rest.len() && rest[at] == kept[place];
                assert(paths[at] == kept[place]);
                assert(!same_place(paths[at], paths[paths.len() - 1]));
            }
            adding_stays_distinct(kept, paths.last());
            assert(paths.filter(keep) =~= kept.push(paths.last()));
        }
    }
}

/// Adding paths one by one never repeats one: no two lead the same way, and one leads the way of a
/// path exactly where one did before or one that was added does.
pub proof fn selection_stays_distinct(paths: Seq<Seq<u8>>, more: Seq<Seq<u8>>)
    requires
        paths_differ(paths),
    ensures
        paths_differ(with_paths(paths, more)),
        forall|path: Seq<u8>| #[trigger]
            holds_path(with_paths(paths, more), path) == (holds_path(paths, path) || holds_path(
                more,
                path,
            )),
    decreases more.len(),
{
    if more.len() > 0 {
        let fewer = more.drop_last();
        selection_stays_distinct(paths, fewer);
        let before = with_paths(paths, fewer);
        let after = with_paths(paths, more);
        let last = more.last();
        if !holds_path(before, last) {
            adding_stays_distinct(before, last);
        }
        assert forall|path: Seq<u8>| #[trigger] holds_path(after, path) == (holds_path(paths, path)
            || holds_path(more, path)) by {
            held_after_adding(fewer, last, path);
            assert(more =~= fewer.push(last));
            held_after_adding(before, last, path);
            assert(holds_path(before, path) == (holds_path(paths, path) || holds_path(
                fewer,
                path,
            )));
            if holds_path(before, last) && same_place(last, path) {
                let at = choose|at: int| 0 <= at < before.len() && same_place(
                    #[trigger] before[at],
                    last,
                );
                assert(same_place(before[at], path));
            }
        }
    }
}

/// What is held after a path was added.
proof fn held_after_adding(paths: Seq<Seq<u8>>, last: Seq<u8>, path: Seq<u8>)
    ensures
        holds_path(paths.push(last), path) == (holds_path(paths, path) || same_place(last, path)),
{
    let whole = paths.push(last);
    assert(whole[paths.len() as int] == last);
    if holds_path(paths, path) {
        let at = choose|at: int| 0 <= at < paths.len() && same_place(#[trigger] paths[at], path);
        assert(same_place(whole[at], path));
    }
    if holds_path(whole, path) {
        let at = choose|at: int| 0 <= at < whole.len() && same_place(#[trigger] whole[at], path);
        if at < paths.len() {
            assert(same_place(paths[at], path));
        }
    }
}

/// `paths` without `path` where it was there, and with it where it was not.
fn toggled_paths(paths: &Vec<FilePath>, path: &FilePath) -> (toggled: Vec<FilePath>)
    ensures
        path_views(toggled@) == (if holds_path(path_views(paths@), path@) {
            without_path(path_views(paths@), path@)
        } else {
            path_views(paths@).push(path@)
        }),
        paths_differ(path_views(paths@)) ==> paths_differ(path_views(toggled@)),
{
    let ghost before = path_views(paths@);
    if has_path(paths, path) {
        let mut single: Vec<FilePath> = Vec::new();
        single.push(path.duplicate());
        let kept = retain_paths(paths, &single, false);
        proof {
            let listed = |other: Seq<u8>| holds_path(path_views(single@), other) == false;
            let differs = |other: Seq<u8>| !same_place(other, path@);
            assert forall|other: Seq<u8>| #[trigger] listed(other) == differs(other) by {
                assert(path_views(single@)[0] == path@);
            }
            filters_agree(before, listed, differs);
            if paths_differ(before) {
                filter_keeps_distinct(before, differs);
            }
        }
        kept
    } else {
        let mut toggled = copy_paths(paths);
        toggled.push(path.duplicate());
        assert(path_views(toggled@) =~= before.push(path@));
        proof {
            if paths_differ(before) {
                adding_stays_distinct(before, path@);
            }
        }
        toggled
    }
}

/// `base` with the paths of `ordered` from `first` to `last` added, each once.
fn with_range(base: Vec<FilePath>, ordered: &Vec<FilePath>, first: usize, last: usize) -> (paths:
    Vec<FilePath>)
    requires
        first <= last < ordered@.len(),
    ensures
        path_views(paths@) == with_paths(
            path_views(base@),
            path_views(ordered@).subrange(first as int, last + 1),
        ),
        paths_differ(path_views(base@)) ==> paths_differ(path_views(paths@)),
{
    let ghost range = path_views(ordered@).subrange(first as int, last + 1);
    let ghost start = path_views(base@);
    let mut paths = base;
    let mut at: usize = first;
    assert(range.take(0) =~= Seq::<Seq<u8>>::empty());
    loop
        invariant_except_break
            first <= at <= last,
            path_views(paths@) == with_paths(start, range.take(at - first)),
        invariant
            last < ordered.len(),
            range == path_views(ordered@).subrange(first as int, last + 1),
            paths_differ(start) ==> paths_differ(path_views(paths@)),
        ensures
            path_views(paths@) == with_paths(start, range),
        decreases last - at,
    {
        assert(range.take(at - first + 1).drop_last() =~= range.take(at - first));
        assert(range[at - first] == ordered@[at as int]@);
        add_path(&mut paths, ordered[at].duplicate());
        if at == last {
            assert(range.take(range.len() as int) =~= range);
            break;
        }
        at = at + 1;
    }
    paths
}

impl Shell {
    /// The selected items, in the order of the desktop.
    pub fn selected_paths(&self) -> (paths: Vec<FilePath>)
        ensures
            path_views(paths@) == selected_items(self@),
    {
        let items = paths_of_items(&self.desktop_targets);
        let paths = retain_paths(&items, &self.selection, true);
        assert(path_views(paths@) == selected_items(self@)) by {
            filters_agree(
                item_paths(self@.desktop_targets),
                |path: Seq<u8>| holds_path(path_views(self.selection@), path) == true,
                |path: Seq<u8>| holds_path(self@.selection, path),
            );
        }
        paths
    }

    /// The only selected item, where there is exactly one.
    pub fn single_selected_path(&self) -> (path: Option<FilePath>)
        ensures
            optional_path(path) == single_selected(self@),
    {
        if self.selection.len() == 1 {
            Some(self.selection[0].duplicate())
        } else {
            None
        }
    }

    /// What the desktop item at `path` is.
    pub fn selected_item_kind(&self, path: &FilePath) -> (kind: Option<DesktopItemKind>)
        ensures
            kind == kind_of(self@.desktop_targets, path@),
    {
        let ghost views = self@.desktop_targets;
        let mut at: usize = 0;
        while at < self.desktop_targets.len()
            invariant
                at <= self.desktop_targets.len(),
                views == target_views(self.desktop_targets@),
                kind_of(views.take(at as int), path@) is None,
            decreases self.desktop_targets.len() - at,
        {
            assert(views.take(at + 1).drop_last() =~= views.take(at as int));
            assert(views[at as int] == self.desktop_targets@[at as int]@);
            if let ShellAction::OpenDesktopItem(other, kind) = &self.desktop_targets[at].action {
                if other.same(path) {
                    proof {
                        kind_of_first(views, path@, at + 1);
                    }
                    return Some(*kind);
                }
            }
            at = at + 1;
        }
        assert(views.take(views.len() as int) =~= views);
        None
    }

    /// Selects only `path`.
    pub fn select_only(&mut self, path: FilePath)
        ensures
            final(self)@ == only_selected(old(self)@, path@),
            old(self).valid() ==> final(self).valid(),
    {
        let mut selection: Vec<FilePath> = Vec::new();
        selection.push(path.duplicate());
        self.selection = selection;
        self.selection_anchor = Some(path);
        self.chrome.dirty = true;
        assert(path_views(self.selection@) =~= seq![path@]);
        assert(self@ == only_selected(old(self)@, path@));
    }

    /// Selects `path` where it was not selected, and the other way round.
    pub fn toggle_selection(&mut self, path: FilePath)
        ensures
            final(self)@ == selection_toggled(old(self)@, path@),
            old(self).valid() ==> final(self).valid(),
    {
        let ghost before = self@;
        let selection = toggled_paths(&self.selection, &path);
        self.selection = selection;
        self.selection_anchor = Some(path);
        self.chrome.dirty = true;
        assert(self@ == selection_toggled(before, path@));
    }

    /// Selects what a click on `path` selects with the modifiers that are held down.
    pub fn select_desktop_item(&mut self, path: FilePath)
        ensures
            final(self)@ == item_clicked(old(self)@, path@),
            old(self).valid() ==> final(self).valid(),
    {
        reveal(item_clicked);
        if self.chrome.input.modifiers.shift {
            match self.range_selection(&path) {
                Some(selection) => self.set_selection(selection),
                None => self.select_only(path),
            }
        } else if self.chrome.input.modifiers.ctrl {
            self.toggle_selection(path);
        } else {
            self.select_only(path);
        }
    }

    /// Selects `selection`.
    fn set_selection(&mut self, selection: Vec<FilePath>)
        ensures
            final(self)@ == selected(old(self)@, path_views(selection@)),
    {
        self.selection = selection;
        self.chrome.dirty = true;
    }

    /// What a click on `path` with shift held down selects, where the anchor and the path are items.
    fn range_selection(&self, path: &FilePath) -> (selection: Option<Vec<FilePath>>)
        ensures
            match range_selected(self@, path@) {
                Some(paths) => selection is Some && path_views(selection->0@) == paths && (
                self.valid() ==> paths_differ(paths)),
                None => selection is None,
            },
    {
        let ordered = paths_of_items(&self.desktop_targets);
        let anchor: Option<usize> = match &self.selection_anchor {
            Some(anchor) => place_of(&ordered, anchor),
            None => None,
        };
        let current: Option<usize> = place_of(&ordered, path);
        if let (Some(from), Some(to)) = (anchor, current) {
            let base = if self.chrome.input.modifiers.ctrl {
                copy_paths(&self.selection)
            } else {
                Vec::new()
            };
            assert(!self.chrome.input.modifiers.ctrl ==> path_views(base@) =~= seq![]);
            if from <= to {
                Some(with_range(base, &ordered, from, to))
            } else {
                Some(with_range(base, &ordered, to, from))
            }
        } else {
            None
        }
    }

    /// Drops from the selection the items that are no longer on the desktop.
    pub fn retain_selection(&mut self)
        ensures
            final(self)@ == (ShellView {
                selection: still_selected(old(self)@.selection, old(self)@.desktop_targets),
                ..old(self)@
            }),
            old(self).valid() ==> final(self).valid(),
    {
        let ghost before = self@;
        let live = paths_of_items(&self.desktop_targets);
        let kept = retain_paths(&self.selection, &live, true);
        proof {
            filters_agree(
                before.selection,
                |path: Seq<u8>| holds_path(path_views(live@), path) == true,
                |path: Seq<u8>| holds_path(item_paths(before.desktop_targets), path),
            );
            if paths_differ(before.selection) {
                filter_keeps_distinct(
                    before.selection,
                    |path: Seq<u8>| holds_path(item_paths(before.desktop_targets), path),
                );
            }
        }
        self.selection = kept;
        assert(self@ == ShellView {
            selection: still_selected(before.selection, before.desktop_targets),
            ..before
        });
    }
}

/// Filters that agree on every path keep the same paths.
proof fn filters_agree(
    paths: Seq<Seq<u8>>,
    left: spec_fn(Seq<u8>) -> bool,
    right: spec_fn(Seq<u8>) -> bool,
)
    requires
        forall|path: Seq<u8>| #[trigger] left(path) == right(path),
    ensures
        paths.filter(left) == paths.filter(right),
    decreases paths.len(),
{
    reveal(Seq::filter);
    if paths.len() > 0 {
        filters_agree(paths.drop_last(), left, right);
    }
}

/// The kind found among the first targets is the kind found among all of them.
proof fn kind_of_first(targets: Seq<TargetView>, path: Seq<u8>, length: int)
    requires
        0 <= length <= targets.len(),
        kind_of(targets.take(length), path) is Some,
    ensures
        kind_of(targets, path) == kind_of(targets.take(length), path),
    decreases targets.len() - length,
{
    if length < targets.len() {
        assert(targets.take(length + 1).drop_last() =~= targets.take(length));
        kind_of_first(targets, path, length + 1);
    } else {
        assert(targets.take(length) =~= targets);
    }
}

/// Selecting one item selects it alone, and makes it the anchor.
pub proof fn one_item_is_selected_alone(shell: ShellView, path: Seq<u8>, other: Seq<u8>)
    ensures
        only_selected(shell, path).selection == seq![path],
        only_selected(shell, path).selection_anchor == Some(path),
        holds_path(only_selected(shell, path).selection, other) <==> same_place(path, other),
        single_selected(only_selected(shell, path)) == Some(path),
        only_selected(shell, path).clipboard == shell.clipboard,
{
    let list = seq![path];
    assert(list[0] == path);
    if same_place(path, other) {
        assert(same_place(list[0], other));
    }
}

/// Toggling an item selects it where it was not and takes it out where it was; every other item stays
/// as it is. Toggling it twice leaves the same items selected.
pub proof fn toggling_changes_one_item(shell: ShellView, path: Seq<u8>, other: Seq<u8>)
    ensures
        holds_path(selection_toggled(shell, path).selection, path) == !holds_path(
            shell.selection,
            path,
        ),
        !same_place(other, path) ==> holds_path(selection_toggled(shell, path).selection, other)
            == holds_path(shell.selection, other),
        selection_toggled(shell, path).selection_anchor == Some(path),
{
    let before = shell.selection;
    let after = selection_toggled(shell, path).selection;
    if holds_path(before, path) {
        let keep = |other: Seq<u8>| !same_place(other, path);
        if holds_path(after, path) {
            let at = choose|at: int| 0 <= at < after.len() && same_place(#[trigger] after[at], path);
            let place = crate::lists::kept_is_there(before, keep, at);
        }
        if !same_place(other, path) {
            if holds_path(before, other) {
                let place = choose|place: int|
                    0 <= place < before.len() && same_place(#[trigger] before[place], other);
                let at = crate::lists::kept_is_found(before, keep, place);
                assert(same_place(after[at], other));
            }
            if holds_path(after, other) {
                let at = choose|at: int|
                    0 <= at < after.len() && same_place(#[trigger] after[at], other);
                let place = crate::lists::kept_is_there(before, keep, at);
                assert(same_place(before[place], other));
            }
        }
    } else {
        held_after_adding(before, path, path);
        held_after_adding(before, path, other);
    }
}

/// With shift held down, the items from the anchor to the one that was clicked are selected, both
/// among them, whichever comes first; with control too they are added to those that were.
pub proof fn ranges_reach_from_the_anchor(shell: ShellView, path: Seq<u8>)
    requires
        range_selected(shell, path) is Some,
        shell.selection_anchor is Some,
        paths_differ(shell.selection),
    ensures
        ({
            let selection = range_selected(shell, path)->0;
            &&& holds_path(selection, path)
            &&& holds_path(selection, shell.selection_anchor->0)
            &&& shell.chrome.input.modifiers.ctrl ==> forall|other: Seq<u8>|
                holds_path(shell.selection, other) ==> #[trigger] holds_path(selection, other)
            &&& !shell.chrome.input.modifiers.ctrl ==> forall|other: Seq<u8>| #[trigger]
                holds_path(selection, other) ==> holds_path(
                    item_paths(shell.desktop_targets),
                    other,
                )
        }),
{
    let ordered = item_paths(shell.desktop_targets);
    let anchor = shell.selection_anchor->0;
    let from = first_place(ordered, anchor)->0;
    let to = first_place(ordered, path)->0;
    first_place_found(ordered, anchor);
    first_place_found(ordered, path);
    let range = if from <= to {
        ordered.subrange(from, to + 1)
    } else {
        ordered.subrange(to, from + 1)
    };
    let base = if shell.chrome.input.modifiers.ctrl {
        shell.selection
    } else {
        seq![]
    };
    selection_stays_distinct(base, range);
    let low = if from <= to {
        from
    } else {
        to
    };
    assert(range[from - low] == ordered[from]);
    assert(range[to - low] == ordered[to]);
    assert(same_place(range[from - low], anchor));
    assert(same_place(range[to - low], path));
    let selection = range_selected(shell, path)->0;
    assert(holds_path(range, path) && holds_path(range, anchor));
    assert forall|other: Seq<u8>| holds_path(range, other) implies holds_path(ordered, other) by {
        let at = choose|at: int| 0 <= at < range.len() && same_place(#[trigger] range[at], other);
        assert(range[at] == ordered[low + at]);
        assert(same_place(ordered[low + at], other));
    }
}

/// A click selects one item, toggles it with control, and selects a range with shift where there is
/// one.
pub proof fn clicks_select(shell: ShellView, path: Seq<u8>)
    ensures
        ({
            let held = shell.chrome.input.modifiers;
            let after = item_clicked(shell, path);
            &&& !held.shift && !held.ctrl ==> after.selection == seq![path]
            &&& !held.shift && held.ctrl ==> after == selection_toggled(shell, path)
            &&& held.shift && range_selected(shell, path) is None ==> after.selection == seq![path]
            &&& held.shift && range_selected(shell, path) is Some ==> after.selection
                == range_selected(shell, path)->0 && after.selection_anchor
                == shell.selection_anchor
            &&& after.desktop_targets == shell.desktop_targets
        }),
{
    reveal(item_clicked);
}

/// The selected items are those on the desktop that are selected, and an item that is gone from the
/// desktop is selected no longer; all others stay.
pub proof fn only_items_that_are_there_are_selected(
    shell: ShellView,
    targets: Seq<TargetView>,
    path: Seq<u8>,
)
    ensures
        selected_items(shell).contains(path) <==> item_paths(shell.desktop_targets).contains(path)
            && holds_path(shell.selection, path),
        still_selected(shell.selection, targets).contains(path) <==> shell.selection.contains(path)
            && holds_path(item_paths(targets), path),
        single_selected(shell) is Some <==> shell.selection.len() == 1,
        single_selected(shell) is Some ==> single_selected(shell) == Some(shell.selection[0]),
{
    let items = item_paths(shell.desktop_targets);
    let keep = |path: Seq<u8>| holds_path(shell.selection, path);
    filter_holds(items, keep, path);
    let live = |path: Seq<u8>| holds_path(item_paths(targets), path);
    filter_holds(shell.selection, live, path);
}

/// What is kept of a list is what is in it and is to be kept.
proof fn filter_holds(paths: Seq<Seq<u8>>, keep: spec_fn(Seq<u8>) -> bool, path: Seq<u8>)
    ensures
        paths.filter(keep).contains(path) <==> paths.contains(path) && keep(path),
{
    if paths.filter(keep).contains(path) {
        let at = choose|at: int| 0 <= at < paths.filter(keep).len() && paths.filter(keep)[at]
            == path;
        let place = crate::lists::kept_is_there(paths, keep, at);
        assert(paths[place] == path);
    }
    if paths.contains(path) && keep(path) {
        let place = choose|place: int| 0 <= place < paths.len() && paths[place] == path;
        let at = crate::lists::kept_is_found(paths, keep, place);
        assert(paths.filter(keep)[at] == path);
    }
}

/// An item is found by its path on the desktop, with the kind that it has there.
pub proof fn items_are_found_by_their_path(targets: Seq<TargetView>, path: Seq<u8>)
    ensures
        match kind_of(targets, path) {
            Some(kind) => exists|at: int|
                0 <= at < targets.len() && (#[trigger] targets[at]).action is OpenDesktopItem
                    && same_place(targets[at].action->OpenDesktopItem_0, path)
                    && targets[at].action->OpenDesktopItem_1 == kind,
            None => forall|at: int|
                0 <= at < targets.len() && (#[trigger] targets[at]).action is OpenDesktopItem
                    ==> !same_place(targets[at].action->OpenDesktopItem_0, path),
        },
    decreases targets.len(),
{
    if targets.len() > 0 {
        let front = targets.drop_last();
        items_are_found_by_their_path(front, path);
        assert(forall|at: int| 0 <= at < front.len() ==> front[at] == #[trigger] targets[at]);
        assert(targets[targets.len() - 1] == targets.last());
        if let Some(kind) = kind_of(front, path) {
            let at = choose|at: int|
                0 <= at < front.len() && (#[trigger] front[at]).action is OpenDesktopItem
                    && same_place(front[at].action->OpenDesktopItem_0, path)
                    && front[at].action->OpenDesktopItem_1 == kind;
            assert(targets[at] == front[at]);
        }
    }
}

} // verus!
