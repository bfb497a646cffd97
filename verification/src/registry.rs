//! The boundary with `indexmap`: the ordered maps that hold tests, results and
//! workspaces, each seen as the sequence of its entries in map order.
//!
//! Nothing in this file is proved. Every contract here restates what the
//! documentation of `indexmap::IndexMap` says of the method that the body
//! calls.
use crate::entries::inserted;
use crate::model::{Test, TestResult, TestResultView, TestView, Workspace, WorkspaceView};
use indexmap::IndexMap;
use vstd::prelude::*;

verus! {

/// `indexmap::IndexMap`. What a map holds is told by the three functions
/// below, one for each kind of map that the library keeps.
#[verifier::external_type_specification]
#[verifier::external_body]
#[verifier::reject_recursive_types(K)]
#[verifier::reject_recursive_types(V)]
#[verifier::reject_recursive_types(S)]
pub struct ExIndexMap<K, V, S>(IndexMap<K, V, S>);

/// The entries of a test registry, in map order: each test under its name.
pub uninterp spec fn registry_entries(m: IndexMap<String, Test>) -> Seq<(Seq<char>, TestView)>;

/// The entries of a result map, in map order: each result under the name of
/// its test.
pub uninterp spec fn result_entries(m: IndexMap<String, TestResult>) -> Seq<
    (Seq<char>, TestResultView),
>;

/// The entries of a workspace map, in map order: each workspace under its
/// name.
pub uninterp spec fn workspace_entries(m: IndexMap<String, Workspace>) -> Seq<
    (Seq<char>, WorkspaceView),
>;

/// `IndexMap::len` on a registry: the number of its entries.
#[verifier::external_body]
pub(crate) fn registry_len(m: &IndexMap<String, Test>) -> (n: usize)
    ensures
        n == registry_entries(*m).len(),
{
    m.len()
}

/// `IndexMap::get_index` on a registry: the key and the value at position `i`
/// of the map order. There is an entry at every position below the length,
/// which is all that is asked for. The keys of a map are unique, so no other
/// position holds the name that is returned.
#[verifier::external_body]
pub(crate) fn registry_entry(m: &IndexMap<String, Test>, i: usize) -> (e: (&String, &Test))
    requires
        i < registry_entries(*m).len(),
    ensures
        (e.0@, e.1@) == registry_entries(*m)[i as int],
        forall|j: int|
            0 <= j < registry_entries(*m).len() && j != i ==> (#[trigger] registry_entries(
                *m,
            )[j]).0 != e.0@,
{
    m.get_index(i).unwrap()
}

/// `IndexMap::new` for results: a map without entries.
#[verifier::external_body]
pub(crate) fn results_new() -> (m: IndexMap<String, TestResult>)
    ensures
        result_entries(m) == Seq::<(Seq<char>, TestResultView)>::empty(),
{
    IndexMap::new()
}

/// `IndexMap::insert` on results. Where the map holds the name already, the
/// entry keeps its place in the order and takes the new value. Where it does
/// not, the new entry goes last. No other entry changes.
#[verifier::external_body]
pub(crate) fn results_insert(m: &mut IndexMap<String, TestResult>, name: String, result: TestResult)
    ensures
        result_entries(*final(m)) == inserted(result_entries(*old(m)), name@, result@),
{
    m.insert(name, result);
}

/// `IndexMap::len` on results: the number of entries.
#[verifier::external_body]
pub(crate) fn results_len(m: &IndexMap<String, TestResult>) -> (n: usize)
    ensures
        n == result_entries(*m).len(),
{
    m.len()
}

/// `IndexMap::get_index` on results: the key and the value at position `i` of
/// the map order. There is an entry at every position below the length, which
/// is all that is asked for.
#[verifier::external_body]
pub(crate) fn results_entry(m: &IndexMap<String, TestResult>, i: usize) -> (e: (
    &String,
    &TestResult,
))
    requires
        i < result_entries(*m).len(),
    ensures
        (e.0@, e.1@) == result_entries(*m)[i as int],
{
    m.get_index(i).unwrap()
}

/// `IndexMap::new` for workspaces: a map without entries.
#[verifier::external_body]
pub(crate) fn workspaces_new() -> (m: IndexMap<String, Workspace>)
    ensures
        workspace_entries(m) == Seq::<(Seq<char>, WorkspaceView)>::empty(),
{
    IndexMap::new()
}

/// `IndexMap::insert` on workspaces. Where the map holds the name already,
/// the entry keeps its place in the order and takes the new value. Where it
/// does not, the new entry goes last. No other entry changes.
#[verifier::external_body]
pub(crate) fn workspaces_insert(
    m: &mut IndexMap<String, Workspace>,
    name: String,
    workspace: Workspace,
)
    ensures
        workspace_entries(*final(m)) == inserted(workspace_entries(*old(m)), name@, workspace@),
{
    m.insert(name, workspace);
}

/// `IndexMap::clone`, which the derived `Clone` of the types that hold a map
/// calls. Nothing is claimed of the copy.
pub assume_specification<K, V, S>[ <IndexMap<K, V, S> as Clone>::clone ](
    m: &IndexMap<K, V, S>,
) -> (r: IndexMap<K, V, S>)
    where K: Clone, V: Clone, S: Clone
;

} // verus!
