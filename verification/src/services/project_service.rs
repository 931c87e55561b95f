//! Changes to a project's file list.  Each change reports whether the
//! project file must be written again; writing it is the caller's part.
use vstd::prelude::*;
use crate::models::project::Project;
use crate::models::project_file::ProjectFile;
use crate::models::editor_tab::EditorTab;
use crate::controller::{active_after_remove, active_after_swap, follow_remove, follow_swap};

verus! {

/// `order` with the entries at `i` and `j` exchanged.
pub open spec fn swapped(order: Seq<Seq<char>>, i: int, j: int) -> Seq<Seq<char>> {
    order.update(i, order[j]).update(j, order[i])
}

/// The file order after moving entry `index` one place up, when it can move.
pub open spec fn moved_up(order: Seq<Seq<char>>, index: int) -> Seq<Seq<char>> {
    if 0 < index < order.len() {
        swapped(order, index, index - 1)
    } else {
        order
    }
}

/// The file order after moving entry `index` one place down, when it can
/// move.
pub open spec fn moved_down(order: Seq<Seq<char>>, index: int) -> Seq<Seq<char>> {
    if 0 <= index && index + 1 < order.len() {
        swapped(order, index, index + 1)
    } else {
        order
    }
}

/// The file order without any entry equal to `path`.
pub open spec fn without(order: Seq<Seq<char>>, path: Seq<char>) -> Seq<Seq<char>> {
    order.filter(other_than(path))
}

/// Entries other than `path`.
pub open spec fn other_than(path: Seq<char>) -> spec_fn(Seq<char>) -> bool {
    |p: Seq<char>| p != path
}

/// The file order after adding `path`: at the end, unless it is listed.
pub open spec fn with_file(order: Seq<Seq<char>>, path: Seq<char>) -> Seq<Seq<char>> {
    if order.contains(path) {
        order
    } else {
        order.push(path)
    }
}

/// Exchanges the entries at `i` and `j`.
fn swap_entries(v: &mut Vec<String>, i: usize, j: usize)
    requires
        i < old(v)@.len(),
        j < old(v)@.len(),
        i != j,
    ensures
        final(v).deep_view() == swapped(old(v).deep_view(), i as int, j as int),
{
    let ghost before = v.deep_view();
    let ghost b0 = v@;
    let mut tmp = String::new();
    v.set_and_swap(i, &mut tmp);
    v.set_and_swap(j, &mut tmp);
    v.set_and_swap(i, &mut tmp);
    proof {
        assert(v@ =~= b0.update(i as int, b0[j as int]).update(j as int, b0[i as int]));
        assert(v.deep_view() =~= swapped(before, i as int, j as int));
    }
}

/// Adds a file to the project's order unless it is already listed.
/// Returns whether the order changed (and the project must be saved).
pub fn add_file(project: &mut Project, relative_path: &str) -> (changed: bool)
    ensures
        final(project).file_order.deep_view() == with_file(old(project).file_order.deep_view(), relative_path@),
        changed == !old(project).file_order.deep_view().contains(relative_path@),
        final(project).version == old(project).version,
        final(project).directory_path == old(project).directory_path,
{
    let path = String::from_str(relative_path);
    let ghost before = project.file_order.deep_view();
    let mut i: usize = 0;
    while i < project.file_order.len()
        invariant
            before == project.file_order.deep_view(),
            path@ == relative_path@,
            i <= before.len(),
            forall|j: int| 0 <= j < i ==> before[j] != path@,
        decreases project.file_order.len() - i,
    {
        if project.file_order[i] == path {
            assert(before[i as int] == path@);
            return false;
        }
        i = i + 1;
    }
    project.file_order.push(path);
    proof {
        assert(project.file_order.deep_view() =~= before.push(relative_path@));
    }
    true
}

/// Removes every entry equal to `relative_path` from the project's order.
/// The caller saves the project afterwards.
pub fn remove_file(project: &mut Project, relative_path: &str)
    ensures
        final(project).file_order.deep_view() == without(old(project).file_order.deep_view(), relative_path@),
        final(project).version == old(project).version,
        final(project).directory_path == old(project).directory_path,
{
    let path = String::from_str(relative_path);
    let ghost before = project.file_order.deep_view();
    let mut kept: Vec<String> = Vec::new();
    let mut i: usize = 0;
    while i < project.file_order.len()
        invariant
            before == project.file_order.deep_view(),
            path@ == relative_path@,
            i <= before.len(),
            kept.deep_view() == without(before.take(i as int), relative_path@),
        decreases project.file_order.len() - i,
    {
        proof {
            reveal(Seq::filter);
            assert(before.take(i + 1).drop_last() =~= before.take(i as int));
            assert(before.take(i + 1).last() == before[i as int]);
        }
        let ghost k0 = kept.deep_view();
        if project.file_order[i] != path {
            let entry = project.file_order[i].clone();
            kept.push(entry);
            proof {
                assert(kept.deep_view() =~= k0.push(before[i as int]));
            }
        }
        i = i + 1;
    }
    proof {
        assert(before.take(before.len() as int) =~= before);
    }
    project.file_order = kept;
}

/// Moves entry `index` one place up, when there is a place above it.
/// Returns whether the order changed (and the project must be saved).
pub fn move_file_up(project: &mut Project, index: usize) -> (changed: bool)
    ensures
        final(project).file_order.deep_view() == moved_up(old(project).file_order.deep_view(), index as int),
        changed == (0 < index < old(project).file_order@.len()),
        final(project).version == old(project).version,
        final(project).directory_path == old(project).directory_path,
{
    if index > 0 && index < project.file_order.len() {
        swap_entries(&mut project.file_order, index, index - 1);
        true
    } else {
        false
    }
}

/// Moves entry `index` one place down, when there is a place below it.
/// Returns whether the order changed (and the project must be saved).
pub fn move_file_down(project: &mut Project, index: usize) -> (changed: bool)
    requires
        index < usize::MAX,
    ensures
        final(project).file_order.deep_view() == moved_down(old(project).file_order.deep_view(), index as int),
        changed == (index + 1 < old(project).file_order@.len()),
        final(project).version == old(project).version,
        final(project).directory_path == old(project).directory_path,
{
    if index + 1 < project.file_order.len() {
        swap_entries(&mut project.file_order, index, index + 1);
        true
    } else {
        false
    }
}

/// The project's files, in order.
pub fn get_project_files(project: &Project) -> (files: Vec<ProjectFile>)
    ensures
        files@.len() == project.file_order@.len(),
        forall|i: int| 0 <= i < files@.len() ==> {
            &&& (#[trigger] files@[i]).relative_path@ == project.file_order.deep_view()[i]
            &&& files@[i].project_dir@ == project.directory_path@
        },
{
    let mut files: Vec<ProjectFile> = Vec::new();
    let mut i: usize = 0;
    while i < project.file_order.len()
        invariant
            i <= project.file_order@.len(),
            files@.len() == i,
            forall|j: int| 0 <= j < i ==> {
                &&& (#[trigger] files@[j]).relative_path@ == project.file_order.deep_view()[j]
                &&& files@[j].project_dir@ == project.directory_path@
            },
        decreases project.file_order.len() - i,
    {
        let f = ProjectFile::new(project.file_order[i].as_str(), project.directory_path.as_str());
        files.push(f);
        i = i + 1;
    }
    files
}

/// Moving a file up and then moving it back down restores the order.
pub proof fn law_move_up_then_down(order: Seq<Seq<char>>, index: int)
    requires
        0 < index < order.len(),
    ensures
        moved_down(moved_up(order, index), index - 1) == order,
{
    assert(moved_down(moved_up(order, index), index - 1) =~= order);
}

/// Moving a file down and then moving it back up restores the order.
pub proof fn law_move_down_then_up(order: Seq<Seq<char>>, index: int)
    requires
        0 <= index,
        index + 1 < order.len(),
    ensures
        moved_up(moved_down(order, index), index + 1) == order,
{
    assert(moved_up(moved_down(order, index), index + 1) =~= order);
}

/// Moves only reorder: the same entries stay, as many times each.
pub proof fn law_moves_keep_entries(order: Seq<Seq<char>>, index: int)
    ensures
        moved_up(order, index).to_multiset() == order.to_multiset(),
        moved_down(order, index).to_multiset() == order.to_multiset(),
{
    if 0 < index < order.len() {
        lemma_swap_multiset(order, index, index - 1);
    }
    if 0 <= index && index + 1 < order.len() {
        lemma_swap_multiset(order, index, index + 1);
    }
}

proof fn lemma_swap_multiset(order: Seq<Seq<char>>, i: int, j: int)
    requires
        0 <= i < order.len(),
        0 <= j < order.len(),
    ensures
        swapped(order, i, j).to_multiset() == order.to_multiset(),
{
    let u = order.update(i, order[j]);
    vstd::seq_lib::to_multiset_update(order, i, order[j]);
    vstd::seq_lib::to_multiset_update(u, j, order[i]);
    order.to_multiset_ensures();
    assert(order.to_multiset().count(order[i]) > 0);
    assert(u.to_multiset().count(u[j]) > 0) by {
        u.to_multiset_ensures();
    }
    assert(swapped(order, i, j).to_multiset() =~= order.to_multiset());
}

/// After a file is added it is listed exactly once, when the order listed
/// no file twice before.
pub proof fn law_add_lists_once(order: Seq<Seq<char>>, path: Seq<char>)
    requires
        order.no_duplicates(),
    ensures
        with_file(order, path).contains(path),
        with_file(order, path).no_duplicates(),
{
    if !order.contains(path) {
        assert(with_file(order, path)[order.len() as int] == path);
        assert forall|i: int, j: int| 0 <= i < j < with_file(order, path).len()
            implies with_file(order, path)[i] != with_file(order, path)[j] by {
            if j == order.len() {
                assert(order.contains(order[i]));
            }
        }
    }
}

/// After a file is removed it is no longer listed, and every other entry
/// stays.
pub proof fn law_remove_unlists(order: Seq<Seq<char>>, path: Seq<char>)
    ensures
        !without(order, path).contains(path),
        forall|p: Seq<char>| p != path ==> (without(order, path).contains(p) <==> order.contains(p)),
{
    let pred = other_than(path);
    assert forall|p: Seq<char>| p != path implies (without(order, path).contains(p) <==> order.contains(p)) by {
        if order.contains(p) {
            let k = choose|k: int| 0 <= k < order.len() && order[k] == p;
            order.lemma_filter_contains(pred, k);
        }
        if without(order, path).contains(p) {
            order.lemma_filter_contains_rev(pred, p);
        }
    }
    if without(order, path).contains(path) {
        let f = order.filter(pred);
        let k = choose|k: int| 0 <= k < f.len() && f[k] == path;
        broadcast use vstd::seq_lib::group_filter_ensures;
        assert(pred(f[k]));
    }
}

// ---------------------------------------------------------------------------
// The open tabs, kept in the order of the files
// ---------------------------------------------------------------------------

/// The files of the tabs, in order.
pub open spec fn tab_paths(tabs: Seq<EditorTab>) -> Seq<Seq<char>> {
    tabs.map_values(|t: EditorTab| t.project_file.relative_path@)
}

/// The tabs after tab `index` moves one place up, when it can move.
pub open spec fn tabs_moved_up(tabs: Seq<EditorTab>, index: int) -> Seq<EditorTab> {
    if 0 < index < tabs.len() {
        tabs.update(index, tabs[index - 1]).update(index - 1, tabs[index])
    } else {
        tabs
    }
}

/// The tabs after tab `index` moves one place down, when it can move.
pub open spec fn tabs_moved_down(tabs: Seq<EditorTab>, index: int) -> Seq<EditorTab> {
    if 0 <= index && index + 1 < tabs.len() {
        tabs.update(index, tabs[index + 1]).update(index + 1, tabs[index])
    } else {
        tabs
    }
}

/// Moves tab `index` one place up, as [`move_file_up`] moves its file.
pub fn move_tab_up(tabs: &mut Vec<EditorTab>, index: usize)
    ensures
        final(tabs)@ == tabs_moved_up(old(tabs)@, index as int),
{
    if 0 < index && index < tabs.len() {
        let t = tabs.remove(index);
        tabs.insert(index - 1, t);
        assert(tabs@ =~= tabs_moved_up(old(tabs)@, index as int));
    }
}

/// Moves tab `index` one place down, as [`move_file_down`] moves its file.
pub fn move_tab_down(tabs: &mut Vec<EditorTab>, index: usize)
    ensures
        final(tabs)@ == tabs_moved_down(old(tabs)@, index as int),
{
    if index < tabs.len() && tabs.len() - index > 1 {
        let t = tabs.remove(index);
        tabs.insert(index + 1, t);
        assert(tabs@ =~= tabs_moved_down(old(tabs)@, index as int));
    }
}

/// When the tabs show the files in the project's order, moving a tab and
/// its file up, or down, keeps them in step.
pub proof fn law_tabs_follow_file_order(tabs: Seq<EditorTab>, order: Seq<Seq<char>>, index: int)
    requires
        tab_paths(tabs) == order,
    ensures
        tab_paths(tabs_moved_up(tabs, index)) == moved_up(order, index),
        tab_paths(tabs_moved_down(tabs, index)) == moved_down(order, index),
{
    assert(tab_paths(tabs_moved_up(tabs, index)) =~= moved_up(order, index));
    assert(tab_paths(tabs_moved_down(tabs, index)) =~= moved_down(order, index));
}

// ---------------------------------------------------------------------------
// The project pane's commands on files and tabs together
// ---------------------------------------------------------------------------

/// Moves entry `index` of the project one place up together with its tab.
/// Returns whether the project must be saved, the active tab's new index
/// (it follows its tab) and the pane's new selection (the moved entry).
pub fn move_up_in_project(project: &mut Project, tabs: &mut Vec<EditorTab>, active: usize, index: usize) -> (r: (
    bool,
    usize,
    usize,
))
    ensures
        final(project).file_order.deep_view() == moved_up(old(project).file_order.deep_view(), index as int),
        final(project).version == old(project).version,
        final(project).directory_path == old(project).directory_path,
        r.0 == (0 < index < old(project).file_order@.len()),
        final(tabs)@ == tabs_moved_up(old(tabs)@, index as int),
        r.1 == if 0 < index < old(tabs)@.len() { follow_swap(active as int, index as int, index - 1) } else { active as int },
        r.2 == if 0 < index < old(tabs)@.len() { index - 1 } else { index as int },
{
    let save = move_file_up(project, index);
    if 0 < index && index < tabs.len() {
        move_tab_up(tabs, index);
        (save, active_after_swap(active, index, index - 1), index - 1)
    } else {
        move_tab_up(tabs, index);
        (save, active, index)
    }
}

/// Moves entry `index` of the project one place down together with its
/// tab; returns as [`move_up_in_project`] does.
pub fn move_down_in_project(project: &mut Project, tabs: &mut Vec<EditorTab>, active: usize, index: usize) -> (r: (
    bool,
    usize,
    usize,
))
    requires
        index < usize::MAX,
    ensures
        final(project).file_order.deep_view() == moved_down(old(project).file_order.deep_view(), index as int),
        final(project).version == old(project).version,
        final(project).directory_path == old(project).directory_path,
        r.0 == (index + 1 < old(project).file_order@.len()),
        final(tabs)@ == tabs_moved_down(old(tabs)@, index as int),
        r.1 == if index + 1 < old(tabs)@.len() { follow_swap(active as int, index as int, index + 1) } else { active as int },
        r.2 == if index + 1 < old(tabs)@.len() { index + 1 } else { index as int },
{
    let save = move_file_down(project, index);
    if index + 1 < tabs.len() {
        move_tab_down(tabs, index);
        (save, active_after_swap(active, index, index + 1), index + 1)
    } else {
        move_tab_down(tabs, index);
        (save, active, index)
    }
}

/// Removes the file of tab `index` from the project and closes its tab.
/// Returns the active tab's new index (see [`follow_remove`]).
pub fn remove_from_project(project: &mut Project, tabs: &mut Vec<EditorTab>, active: usize, index: usize) -> (r: usize)
    requires
        index < old(tabs)@.len(),
    ensures
        final(project).file_order.deep_view() == without(
            old(project).file_order.deep_view(),
            old(tabs)@[index as int].project_file.relative_path@,
        ),
        final(project).version == old(project).version,
        final(project).directory_path == old(project).directory_path,
        final(tabs)@ == old(tabs)@.remove(index as int),
        r == follow_remove(active as int, index as int, old(tabs)@.len() - 1),
{
    let path = tabs[index].project_file.relative_path.clone();
    remove_file(project, path.as_str());
    tabs.remove(index);
    active_after_remove(active, index, tabs.len())
}

proof fn lemma_without_unique(order: Seq<Seq<char>>, index: int)
    requires
        0 <= index < order.len(),
        order.no_duplicates(),
    ensures
        without(order, order[index]) == order.remove(index),
    decreases order.len(),
{
    reveal(Seq::filter);
    let p = order[index];
    if index == order.len() - 1 {
        let d = order.drop_last();
        assert forall|k: int| 0 <= k < d.len() implies d[k] != p by {
            assert(order[k] != order[index]);
        }
        lemma_without_absent(d, p);
        assert(order.remove(index) =~= d);
    } else {
        let d = order.drop_last();
        assert(d.no_duplicates()) by {
            assert forall|i: int, j: int| 0 <= i < d.len() && 0 <= j < d.len() && i != j implies d[i] != d[j] by {
                assert(order[i] != order[j]);
            }
        }
        lemma_without_unique(d, index);
        assert(d[index] == p);
        assert(order.last() != p) by {
            assert(order[order.len() - 1] != order[index]);
        }
        assert(order.remove(index) =~= d.remove(index).push(order.last()));
    }
}

proof fn lemma_without_absent(order: Seq<Seq<char>>, p: Seq<char>)
    requires
        forall|k: int| 0 <= k < order.len() ==> order[k] != p,
    ensures
        without(order, p) == order,
    decreases order.len(),
{
    reveal(Seq::filter);
    if order.len() > 0 {
        let d = order.drop_last();
        assert forall|k: int| 0 <= k < d.len() implies d[k] != p by {
            assert(d[k] == order[k]);
        }
        lemma_without_absent(d, p);
        assert(order.last() != p);
        assert(d.push(order.last()) =~= order);
    }
}

/// When the tabs show the project's files in order, each file once, the
/// pane's commands keep them in step: after moving an entry up or down,
/// or removing one, the tabs still show the files in the project's order,
/// and the active index still points at the tab that was active (unless
/// that tab was removed).
pub proof fn law_pane_keeps_tabs_and_files_in_step(
    tabs: Seq<EditorTab>,
    order: Seq<Seq<char>>,
    active: int,
    index: int,
)
    requires
        tab_paths(tabs) == order,
        order.no_duplicates(),
        0 <= active < tabs.len(),
        0 <= index < tabs.len(),
    ensures
        tab_paths(tabs_moved_up(tabs, index)) == moved_up(order, index),
        index > 0 ==> tabs_moved_up(tabs, index)[follow_swap(active, index, index - 1)] == tabs[active],
        tab_paths(tabs_moved_down(tabs, index)) == moved_down(order, index),
        index + 1 < tabs.len() ==> tabs_moved_down(tabs, index)[follow_swap(active, index, index + 1)] == tabs[active],
        tab_paths(tabs.remove(index)) == without(order, tabs[index].project_file.relative_path@),
        index != active ==> tabs.remove(index)[follow_remove(active, index, tabs.len() - 1)] == tabs[active],
{
    law_tabs_follow_file_order(tabs, order, index);
    assert(order[index] == tabs[index].project_file.relative_path@);
    lemma_without_unique(order, index);
    assert(tab_paths(tabs.remove(index)) =~= order.remove(index));
    crate::controller::law_active_tab_follows_remove(tabs, active, index);
}

} // verus!
