use vstd::prelude::*;
use crate::text::{trim_of, trimmed};

verus! {


/// One step of loading the manifest, in the order the steps are to be taken.
#[derive(Debug, Clone, PartialEq)]
pub enum LoadOp {
    /// Parse the manifest kept in the persistent store.
    ParseCached,
    /// Clear the persistent store: revision marker, manifest and page sources.
    ClearStorage,
    /// Write this revision marker to the persistent store.
    StoreRevision(String),
    /// Fetch the manifest, write it to the persistent store, and parse it.
    FetchManifest,
}

pub enum LoadOpView {
    ParseCached,
    ClearStorage,
    StoreRevision(Seq<char>),
    FetchManifest,
}

impl LoadOp {
    pub open spec fn view(self) -> LoadOpView {
        match self {
            LoadOp::ParseCached => LoadOpView::ParseCached,
            LoadOp::ClearStorage => LoadOpView::ClearStorage,
            LoadOp::StoreRevision(s) => LoadOpView::StoreRevision(s@),
            LoadOp::FetchManifest => LoadOpView::FetchManifest,
        }
    }
}

pub open spec fn ops_view(s: Seq<LoadOp>) -> Seq<LoadOpView> {
    s.map_values(|o: LoadOp| o.view())
}

/// Whether the persisted revision marker is the current one, spaces around
/// either ignored; an absent marker is never current.
pub open spec fn is_current(local: Option<Seq<char>>, remote: Seq<char>) -> bool {
    match local {
        Some(l) => trim_of(l) == trim_of(remote),
        None => false,
    }
}

/// The steps that load the manifest: the persisted copy when its revision is
/// current and it exists; else clear everything, record the new revision,
/// and fetch.
pub open spec fn load_plan_spec(local: Option<Seq<char>>, remote: Seq<char>, has_cached: bool) -> Seq<
    LoadOpView,
> {
    if is_current(local, remote) && has_cached {
        seq![LoadOpView::ParseCached]
    } else {
        seq![LoadOpView::ClearStorage, LoadOpView::StoreRevision(trim_of(remote)), LoadOpView::FetchManifest]
    }
}

/// Decides how to load the manifest from the persisted revision marker
/// `local`, the remote one `remote`, and whether a persisted manifest exists.
pub fn plan_load(local: Option<&str>, remote: &str, has_cached: bool) -> (r: Vec<LoadOp>)
    ensures
        ops_view(r@) == load_plan_spec(
            match local {
                Some(l) => Some(l@),
                None => None,
            },
            remote@,
            has_cached,
        ),
{
    let remote_t = trimmed(remote);
    let current = match local {
        Some(l) => {
            let local_t = trimmed(l);
            local_t == remote_t
        },
        None => false,
    };
    let r = if current && has_cached {
        vec![LoadOp::ParseCached]
    } else {
        vec![LoadOp::ClearStorage, LoadOp::StoreRevision(remote_t), LoadOp::FetchManifest]
    };
    assert(ops_view(r@) =~= load_plan_spec(
        match local {
            Some(l) => Some(l@),
            None => None,
        },
        remote@,
        has_cached,
    ));
    r
}

/// The manifest is fetched exactly when the persisted revision is not current
/// or no persisted manifest exists; and whenever it is fetched, the store is
/// cleared first, before anything is written to it.
pub proof fn lemma_fetch_only_when_stale(local: Option<Seq<char>>, remote: Seq<char>, has_cached: bool)
    ensures
        ({
            let plan = load_plan_spec(local, remote, has_cached);
            &&& (is_current(local, remote) && has_cached) <==> !(exists|i: int|
                0 <= i < plan.len() && #[trigger] plan[i] == LoadOpView::FetchManifest)
            &&& (exists|i: int| 0 <= i < plan.len() && #[trigger] plan[i] == LoadOpView::FetchManifest)
                ==> plan[0] == LoadOpView::ClearStorage && forall|j: int|
                0 < j < plan.len() ==> #[trigger] plan[j] != LoadOpView::ClearStorage
        }),
{
    let plan = load_plan_spec(local, remote, has_cached);
    if !(is_current(local, remote) && has_cached) {
        assert(plan[2] == LoadOpView::FetchManifest);
    }
}

} // verus!
