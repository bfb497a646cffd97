//! Composing workspaces: the workspace of a root configuration, and one for
//! every configuration file that the root names and that could be read.
use crate::entries::{distinct_names, has_name, inserted, lemma_inserted, value_of};
use crate::model::{Manager, Workspace, WorkspaceView};
use crate::registry::{registry_entries, workspace_entries, workspaces_insert, workspaces_new};
use indexmap::IndexMap;
use vstd::prelude::*;

verus! {

/// A configuration file that another one names: the name that its workspace
/// goes by, which is the base name of the file without its extension, and the
/// configuration, if the file could be read and understood.
#[derive(Debug, Clone)]
pub struct Included {
    pub name: String,
    pub config: Option<Manager>,
}

/// A named file as plain values: its name and the workspace that its
/// configuration becomes, if there is one.
pub struct IncludedView {
    pub name: Seq<char>,
    pub workspace: Option<WorkspaceView>,
}

impl View for Included {
    type V = IncludedView;

    open spec fn view(&self) -> IncludedView {
        IncludedView {
            name: self.name@,
            workspace: match self.config {
                Some(config) => Some(config.fresh()),
                None => None,
            },
        }
    }
}

/// The files as plain values, in order.
pub open spec fn included_views(included: Seq<Included>) -> Seq<IncludedView> {
    Seq::new(included.len(), |i: int| included[i]@)
}

/// The name that the workspace of a root configuration goes by.
pub open spec fn root_name_of() -> Seq<char> {
    seq!['r', 'o', 'o', 't']
}

/// The workspaces of a root configuration and of the files it names. The
/// root's comes first, under the root name. Then every file that could be
/// read adds its workspace under its name, in the order of the files; one
/// that could not be read adds nothing. Where a name is taken already, the
/// later workspace replaces the earlier one in its place.
pub open spec fn composed(root: WorkspaceView, included: Seq<IncludedView>) -> Seq<
    (Seq<char>, WorkspaceView),
>
    decreases included.len(),
{
    if included.len() == 0 {
        seq![(root_name_of(), root)]
    } else {
        let before = composed(root, included.drop_last());
        match included.last().workspace {
            Some(workspace) => inserted(before, included.last().name, workspace),
            None => before,
        }
    }
}

/// The workspace that goes by `name` once the root and the files are
/// composed: that of the last file of this name that could be read, or, where
/// there is none, the root's under the root name.
pub open spec fn winner(
    root: WorkspaceView,
    included: Seq<IncludedView>,
    name: Seq<char>,
) -> Option<WorkspaceView>
    decreases included.len(),
{
    if included.len() == 0 {
        if name == root_name_of() {
            Some(root)
        } else {
            None
        }
    } else if included.last().name == name && included.last().workspace is Some {
        included.last().workspace
    } else {
        winner(root, included.drop_last(), name)
    }
}

/// The name that the workspace of a root configuration goes by.
pub fn root_name() -> (name: String)
    ensures
        name@ == root_name_of(),
{
    proof {
        reveal_strlit("root");
        assert("root"@ =~= root_name_of());
    }
    "root".to_owned()
}

impl Manager {
    /// Composes the workspaces of this configuration, the root, and of the
    /// files it names, which the caller has read.
    pub fn compose(self, included: Vec<Included>) -> (workspaces: IndexMap<String, Workspace>)
        ensures
            workspace_entries(workspaces) == composed(self.fresh(), included_views(included@)),
    {
        let ghost root = self.fresh();
        let ghost files = included_views(included@);
        let mut workspaces = workspaces_new();
        workspaces_insert(&mut workspaces, root_name(), Workspace::from(self));
        assert(workspace_entries(workspaces) =~= composed(root, files.take(0)));
        for file in it: included
            invariant
                files == included_views(included@),
                it.seq() == included@,
                workspace_entries(workspaces) == composed(root, files.take(it.index())),
        {
            proof {
                assert(files.take(it.index() + 1).drop_last() =~= files.take(it.index()));
                assert(files.take(it.index() + 1).last() == file@);
            }
            match file.config {
                Some(config) => {
                    workspaces_insert(&mut workspaces, file.name, Workspace::from(config));
                },
                None => {},
            }
        }
        proof {
            assert(files.take(included@.len() as int) =~= files);
        }
        workspaces
    }
}

/// What composing gives is a map: no two of its workspaces go by one name.
/// The first goes by the root name. Under every name stands the workspace of
/// the last writer: see [`winner`].
pub proof fn lemma_composed(root: WorkspaceView, included: Seq<IncludedView>)
    ensures
        distinct_names(composed(root, included)),
        composed(root, included).len() >= 1,
        composed(root, included)[0].0 == root_name_of(),
        forall|name: Seq<char>| #[trigger]
            value_of(composed(root, included), name) == winner(root, included, name),
    decreases included.len(),
{
    let all = composed(root, included);
    if included.len() == 0 {
        assert forall|name: Seq<char>| #[trigger]
            value_of(all, name) == winner(root, included, name) by {
            if name == root_name_of() {
                assert(all[0].0 == name);
                let k = choose|k: int| 0 <= k < all.len() && (#[trigger] all[k]).0 == name;
                assert(k == 0);
            } else if has_name(all, name) {
                let k = choose|k: int| 0 <= k < all.len() && (#[trigger] all[k]).0 == name;
                assert(k == 0);
            }
        }
    } else {
        let before = composed(root, included.drop_last());
        lemma_composed(root, included.drop_last());
        match included.last().workspace {
            Some(workspace) => {
                lemma_inserted(before, included.last().name, workspace);
                assert(all[0].0 == before[0].0);
                assert forall|name: Seq<char>| #[trigger]
                    value_of(all, name) == winner(root, included, name) by {
                    if name != included.last().name {
                        assert(value_of(all, name) == value_of(before, name));
                    }
                }
            },
            None => {},
        }
    }
}

/// Composing depends on what the configurations hold and on nothing else.
/// Composed a second time, from a root with the same tests and the same
/// environment and from files that hold the same, the workspaces are those of
/// the first time: the same names in the same order, and under each name the
/// same registry and the same environment.
pub proof fn lemma_compose_again(
    root: Manager,
    files: Seq<Included>,
    first: IndexMap<String, Workspace>,
    root_again: Manager,
    files_again: Seq<Included>,
    second: IndexMap<String, Workspace>,
)
    requires
        registry_entries(root.tests) == registry_entries(root_again.tests),
        root.env_view() == root_again.env_view(),
        included_views(files) == included_views(files_again),
        workspace_entries(first) == composed(root.fresh(), included_views(files)),
        workspace_entries(second) == composed(root_again.fresh(), included_views(files_again)),
    ensures
        workspace_entries(first) == workspace_entries(second),
{
}

} // verus!
