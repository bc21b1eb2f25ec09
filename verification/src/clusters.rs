//! The addresses at which the nodes of the cluster take transactions, kept up to date by another
//! thread in a `dashmap::DashMap`.

use dashmap::DashMap;
use vstd::prelude::*;

use crate::packet::SocketAddr;
use crate::validators::Pubkey;

verus! {

/// The two socket addresses of a node, as far as they are known.
pub type Tpus = (Option<SocketAddr>, Option<SocketAddr>);

/// A node of the cluster and its socket addresses.
pub type ClusterEntry = (Pubkey, Tpus);

/// The socket addresses of each node of the cluster.
pub type ClustersTpus = DashMap<Pubkey, Tpus>;

/// `dashmap::DashMap`.
#[verifier::external_type_specification]
#[verifier::external_body]
#[verifier::reject_recursive_types(K)]
#[verifier::reject_recursive_types(V)]
#[verifier::reject_recursive_types(S)]
pub struct ExDashMap<K, V, S>(dashmap::DashMap<K, V, S>);

/// Every sequence of entries that walking the map yields at some time. The map changes under a
/// shared reference, so there is one for each of its states, and for each order of a state.
pub uninterp spec fn cluster_walks(clusters: ClustersTpus) -> Set<Seq<ClusterEntry>>;

/// Walks the map with `dashmap::DashMap::iter` and copies out each entry that the walk meets.
///
/// The walk is one of those that this map yields. It meets no key twice: a key always lies in the
/// same shard, and the walk holds a shard's lock until it has left that shard. Which entries it
/// meets beyond that depends on other threads and is not stated. The walk waits for ever where the
/// calling thread holds a mutable reference into the map; no function of this crate holds one.
#[verifier::external_body]
pub(crate) fn walk_clusters(clusters: &ClustersTpus) -> (walk: Vec<ClusterEntry>)
    ensures
        cluster_walks(*clusters).contains(walk@),
        forall|i: int, j: int|
            0 <= i < j < walk@.len() ==> (#[trigger] walk@[i]).0 != (#[trigger] walk@[j]).0,
{
    clusters.iter().map(|cluster| (*cluster.key(), *cluster.value())).collect()
}

/// One of the node's two socket addresses is `addr`.
pub open spec fn takes_at(cluster: ClusterEntry, addr: SocketAddr) -> bool {
    cluster.1.0 == Some(addr) || cluster.1.1 == Some(addr)
}

/// Whether one of the node's two socket addresses is `addr`.
pub fn is_at(cluster: &ClusterEntry, addr: SocketAddr) -> (found: bool)
    ensures
        found == takes_at(*cluster, addr),
{
    let tpus: &Tpus = &cluster.1;
    tpus.0 == Some(addr) || tpus.1 == Some(addr)
}

} // verus!
