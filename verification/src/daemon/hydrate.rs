//! Looking for recent directories on the hosts of which none is known.

use vstd::prelude::*;
use vstd::string::*;

use crate::config::configured_remote_hosts;
use crate::daemon::cycle::watched;
use crate::daemon::recent_dirs::{has_host, upserted_all};
use crate::daemon::state::{CoreView, DaemonCore};
use crate::ipc::RecentDirEntry;
use crate::text::{push_text, strings};

verus! {

/// A walk through hosts.
#[derive(Debug)]
pub struct Hydration {
    pub hosts: Vec<String>,
    /// The host at which the walk stands.
    pub at: usize,
    /// Whether directories were found.
    pub updated: bool,
}

/// A walk through hosts, as values.
#[verifier::ext_equal]
pub struct HydrationView {
    pub hosts: Seq<Seq<char>>,
    pub at: nat,
    pub updated: bool,
}

impl View for Hydration {
    type V = HydrationView;

    open spec fn view(&self) -> HydrationView {
        HydrationView { hosts: strings(self.hosts@), at: self.at as nat, updated: self.updated }
    }
}

/// The first host from a place on of which no directory is known; the end of the
/// hosts where there is none.
pub open spec fn next_lacking(
    hosts: Seq<Seq<char>>,
    recent: Seq<RecentDirEntry>,
    from: nat,
) -> nat
    decreases hosts.len() - from,
{
    if from >= hosts.len() || !has_host(recent, hosts[from as int]) {
        from
    } else {
        next_lacking(hosts, recent, from + 1)
    }
}

impl DaemonCore {
    /// The beginning of a walk through the watched hosts.
    pub fn start_hydration(&self) -> (r: Hydration)
        ensures
            r@ == (HydrationView { hosts: watched(self@), at: 0, updated: false }),
    {
        let names = configured_remote_hosts(&self.config);
        let mut hosts: Vec<String> = Vec::new();
        push_text(&mut hosts, "local");
        let ghost all = watched(self@);
        assert(strings(hosts@) =~= all.take(1));
        for i in 0..names.len()
            invariant
                all == seq!["local"@] + strings(names@),
                strings(hosts@) == all.take(i + 1),
        {
            push_text(&mut hosts, names[i].as_str());
            assert(all[i + 1] == names@[i as int]@);
            assert(strings(hosts@) =~= all.take(i + 2));
        }
        assert(all.take(all.len() as int) =~= all);
        Hydration { hosts, at: 0, updated: false }
    }

    /// Goes to the next host of which no directory is known, and gives its name;
    /// none at the end.
    pub fn next_to_hydrate(&self, walk: &mut Hydration) -> (r: Option<String>)
        ensures
            ({
                let at = next_lacking(old(walk)@.hosts, self@.recent, old(walk)@.at);
                &&& final(walk)@ == (HydrationView { at, ..old(walk)@ })
                &&& if at < old(walk)@.hosts.len() {
                    r matches Some(name) && name@ == old(walk)@.hosts[at as int]
                } else {
                    r is None
                }
            }),
    {
        let ghost start = walk@;
        while walk.at < walk.hosts.len()
            invariant
                start == old(walk)@,
                walk@ == (HydrationView { at: walk@.at, ..start }),
                next_lacking(start.hosts, self@.recent, start.at) == next_lacking(
                    start.hosts,
                    self@.recent,
                    walk@.at,
                ),
            decreases start.hosts.len() - walk@.at,
        {
            assert(start.hosts[walk.at as int] == walk.hosts@[walk.at as int]@);
            if !self.recent_dirs.has_host_entries(walk.hosts[walk.at].as_str()) {
                return Some(walk.hosts[walk.at].clone());
            }
            walk.at = walk.at + 1;
        }
        None
    }

    /// Takes in the directories that were found on the host at which the walk
    /// stands; nothing where the host could not be reached. The walk goes on.
    pub fn take_hydrated(&mut self, walk: &mut Hydration, found: Option<Vec<RecentDirEntry>>)
        requires
            old(walk)@.at < old(walk)@.hosts.len(),
        ensures
            final(walk)@ == (HydrationView {
                at: old(walk)@.at + 1,
                updated: old(walk)@.updated || (found matches Some(entries) && entries@.len() > 0),
                ..old(walk)@
            }),
            final(self)@ == (CoreView {
                recent: match found {
                    Some(entries) => upserted_all(old(self)@.recent, entries@),
                    None => old(self)@.recent,
                },
                ..old(self)@
            }),
    {
        let ghost v = self@;
        let total: usize = walk.hosts.len();
        assert(walk.at < total);
        walk.at = walk.at + 1;
        match found {
            Some(entries) => {
                if entries.len() > 0 {
                    walk.updated = true;
                }
                self.recent_dirs.upsert_many(entries);
                assert(self@ =~= CoreView { recent: upserted_all(v.recent, entries@), ..v });
            },
            None => {},
        }
    }
}

/// The walk stops at hosts that lack directories, and passes no such host.
pub proof fn law_walk_passes_no_lacking_host(
    hosts: Seq<Seq<char>>,
    recent: Seq<RecentDirEntry>,
    from: nat,
    k: int,
)
    requires
        from <= hosts.len(),
    ensures
        from <= next_lacking(hosts, recent, from) <= hosts.len(),
        next_lacking(hosts, recent, from) < hosts.len() ==> !has_host(
            recent,
            hosts[next_lacking(hosts, recent, from) as int],
        ),
        from <= k < next_lacking(hosts, recent, from) ==> has_host(recent, hosts[k]),
    decreases hosts.len() - from,
{
    if from < hosts.len() && has_host(recent, hosts[from as int]) {
        law_walk_passes_no_lacking_host(hosts, recent, from + 1, k);
    }
}

} // verus!
