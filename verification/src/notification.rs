//! The notification service of the manager: what a worker is sent when it
//! subscribes.
//!
//! A subscriber first gets a snapshot, whose contents depend on the kind of
//! worker, and is then registered for the updates that follow.

use crate::version::HummockVersion;
use std::sync::Arc;
use vstd::prelude::*;

verus! {

/// The kinds of worker nodes.
#[derive(Clone, Copy, Debug, PartialEq, Eq, Structural)]
pub enum WorkerType {
    Unspecified,
    Frontend,
    ComputeNode,
    RiseCtl,
    Compactor,
}

/// The states of a worker node.
#[derive(Clone, Copy, Debug, PartialEq, Eq, Structural)]
pub enum WorkerState {
    Unspecified,
    Starting,
    Running,
}

/// Where a worker can be reached.
#[derive(Clone, Copy, Debug, PartialEq, Eq, Structural)]
pub struct HostAddress {
    /// The IPv4 address, as a number.
    pub host: u32,
    pub port: u16,
}

/// A worker node of the cluster.
#[derive(Clone, Copy, Debug, PartialEq, Eq, Structural)]
pub struct WorkerNode {
    pub id: u32,
    pub worker_type: WorkerType,
    pub host: HostAddress,
    pub state: WorkerState,
}

/// The catalog, each item by its id.
#[derive(Debug)]
pub struct Catalog {
    pub database: Vec<u32>,
    pub schema: Vec<u32>,
    pub table: Vec<u32>,
    pub source: Vec<u32>,
    pub sink: Vec<u32>,
    pub index: Vec<u32>,
}

/// What a subscriber is sent first.
#[derive(Debug)]
pub struct MetaSnapshot {
    pub nodes: Vec<WorkerNode>,
    pub database: Vec<u32>,
    pub schema: Vec<u32>,
    pub source: Vec<u32>,
    pub sink: Vec<u32>,
    pub table: Vec<u32>,
    pub users: Vec<u32>,
    pub hummock_version: Option<Arc<HummockVersion>>,
    pub index: Vec<u32>,
}

/// The kind of a message to a subscriber.
#[derive(Clone, Copy, Debug, PartialEq, Eq, Structural)]
pub enum Operation {
    Unspecified,
    Add,
    Delete,
    Update,
    Snapshot,
}

/// A request to subscribe.
#[derive(Clone, Copy, Debug, PartialEq, Eq, Structural)]
pub struct SubscribeRequest {
    /// The kind of the worker, by its number on the wire.
    pub worker_type: i32,
    /// Where the worker can be reached.
    pub host: Option<HostAddress>,
}

/// The first message to a subscriber.
#[derive(Debug)]
pub struct SubscribeResponse {
    pub operation: Operation,
    pub snapshot: MetaSnapshot,
    /// The version of the notifications at the time of the snapshot.
    pub version: u64,
}

/// Why a subscription is refused.
#[derive(Clone, Copy, Debug, PartialEq, Eq, Structural)]
pub enum SubscribeError {
    /// The request names no known kind of worker.
    InvalidWorkerType,
    /// The request names no host.
    MissingHost,
}

/// A registered subscriber.
#[derive(Clone, Copy, Debug, PartialEq, Eq, Structural)]
pub struct Subscriber {
    pub worker_type: WorkerType,
    pub host: HostAddress,
}

/// The state of the notifications: their version and who is subscribed.
#[derive(Debug)]
pub struct MetaSrvEnv {
    pub notification_version: u64,
    pub subscribers: Vec<Subscriber>,
}

/// The catalog and the users.
#[derive(Debug)]
pub struct CatalogManager {
    pub catalog: Catalog,
    pub users: Vec<u32>,
}

/// The worker nodes of the cluster.
#[derive(Debug)]
pub struct ClusterManager {
    pub workers: Vec<WorkerNode>,
}

/// The current version of the store.
#[derive(Debug)]
pub struct HummockManager {
    pub current_version: Arc<HummockVersion>,
}

/// The tables that are being created.
#[derive(Debug)]
pub struct GlobalStreamManager {
    pub processing_tables: Vec<u32>,
}

/// The kind of worker that a number on the wire names.
pub open spec fn spec_worker_type(code: i32) -> Option<WorkerType> {
    if code == 0 {
        Some(WorkerType::Unspecified)
    } else if code == 1 {
        Some(WorkerType::Frontend)
    } else if code == 2 {
        Some(WorkerType::ComputeNode)
    } else if code == 3 {
        Some(WorkerType::RiseCtl)
    } else if code == 4 {
        Some(WorkerType::Compactor)
    } else {
        None
    }
}

/// The kind of worker that a number on the wire names.
pub fn worker_type_from_i32(code: i32) -> (t: Option<WorkerType>)
    ensures
        t == spec_worker_type(code),
{
    if code == 0 {
        Some(WorkerType::Unspecified)
    } else if code == 1 {
        Some(WorkerType::Frontend)
    } else if code == 2 {
        Some(WorkerType::ComputeNode)
    } else if code == 3 {
        Some(WorkerType::RiseCtl)
    } else if code == 4 {
        Some(WorkerType::Compactor)
    } else {
        None
    }
}

/// Whether a kind of worker can subscribe.
pub open spec fn spec_can_subscribe(worker_type: WorkerType) -> bool {
    worker_type == WorkerType::Frontend || worker_type == WorkerType::Compactor || worker_type
        == WorkerType::ComputeNode
}

/// The workers of a kind that are in a state, in order.
pub open spec fn spec_workers_of(
    workers: Seq<WorkerNode>,
    worker_type: WorkerType,
    state: WorkerState,
) -> Seq<WorkerNode> {
    workers.filter(|w: WorkerNode| w.worker_type == worker_type && w.state == state)
}

/// Copies a list of ids.
pub fn copy_ids(ids: &Vec<u32>) -> (copy: Vec<u32>)
    ensures
        copy@ == ids@,
{
    let mut copy: Vec<u32> = Vec::new();
    let mut i: usize = 0;
    while i < ids.len()
        invariant
            i <= ids@.len(),
            copy@ == ids@.subrange(0, i as int),
        decreases ids@.len() - i,
    {
        copy.push(ids[i]);
        assert(ids@.subrange(0, i + 1) =~= ids@.subrange(0, i as int).push(ids@[i as int]));
        i += 1;
    }
    assert(ids@.subrange(0, i as int) =~= ids@);
    copy
}

/// The ids of one list followed by those of another.
pub fn join_ids(first: &Vec<u32>, second: &Vec<u32>) -> (all: Vec<u32>)
    ensures
        all@ == first@ + second@,
{
    let mut all = copy_ids(first);
    let mut i: usize = 0;
    assert(second@.subrange(0, 0) =~= Seq::<u32>::empty());
    assert(first@ + Seq::<u32>::empty() =~= first@);
    while i < second.len()
        invariant
            i <= second@.len(),
            all@ == first@ + second@.subrange(0, i as int),
        decreases second@.len() - i,
    {
        all.push(second[i]);
        assert(first@ + second@.subrange(0, i + 1) =~= (first@ + second@.subrange(
            0,
            i as int,
        )).push(second@[i as int]));
        i += 1;
    }
    assert(second@.subrange(0, i as int) =~= second@);
    all
}

impl ClusterManager {
    /// The workers of a kind that are in a state, in order.
    pub fn list_worker_node(&self, worker_type: WorkerType, state: WorkerState) -> (nodes: Vec<
        WorkerNode,
    >)
        ensures
            nodes@ == spec_workers_of(self.workers@, worker_type, state),
    {
        let ghost wanted = |w: WorkerNode| w.worker_type == worker_type && w.state == state;
        let mut nodes: Vec<WorkerNode> = Vec::new();
        let mut i: usize = 0;
        assert(self.workers@.subrange(0, 0) =~= Seq::<WorkerNode>::empty());
        while i < self.workers.len()
            invariant
                i <= self.workers@.len(),
                wanted == |w: WorkerNode| w.worker_type == worker_type && w.state == state,
                nodes@ == self.workers@.subrange(0, i as int).filter(wanted),
            decreases self.workers@.len() - i,
        {
            let w = self.workers[i];
            proof {
                reveal(Seq::filter);
                assert(self.workers@.subrange(0, i + 1).drop_last() =~= self.workers@.subrange(
                    0,
                    i as int,
                ));
            }
            if w.worker_type == worker_type && w.state == state {
                nodes.push(w);
            }
            i += 1;
        }
        assert(self.workers@.subrange(0, i as int) =~= self.workers@);
        nodes
    }
}

/// Whether `snapshot` is what a worker of the given kind is sent first: a
/// frontend gets the catalog, the running compute nodes and the users; a
/// compactor gets the tables, those being created included, and nothing
/// else; a compute node gets the same tables and the current version.
pub open spec fn spec_snapshot_for(
    snapshot: MetaSnapshot,
    worker_type: WorkerType,
    catalog: Catalog,
    users: Seq<u32>,
    workers: Seq<WorkerNode>,
    current_version: Arc<HummockVersion>,
    processing_tables: Seq<u32>,
) -> bool {
    let none = Seq::<u32>::empty();
    if worker_type == WorkerType::Frontend {
        &&& snapshot.nodes@ == spec_workers_of(
            workers,
            WorkerType::ComputeNode,
            WorkerState::Running,
        )
        &&& snapshot.database@ == catalog.database@
        &&& snapshot.schema@ == catalog.schema@
        &&& snapshot.source@ == catalog.source@
        &&& snapshot.sink@ == catalog.sink@
        &&& snapshot.table@ == catalog.table@
        &&& snapshot.users@ == users
        &&& snapshot.hummock_version is None
        &&& snapshot.index@ == catalog.index@
    } else {
        &&& snapshot.nodes@.len() == 0
        &&& snapshot.database@ == none
        &&& snapshot.schema@ == none
        &&& snapshot.source@ == none
        &&& snapshot.sink@ == none
        &&& snapshot.table@ == catalog.table@ + processing_tables
        &&& snapshot.users@ == none
        &&& snapshot.hummock_version == if worker_type == WorkerType::ComputeNode {
            Some(current_version)
        } else {
            None
        }
        &&& snapshot.index@ == none
    }
}

/// Serves subscriptions to notifications.
pub struct NotificationServiceImpl {
    env: MetaSrvEnv,
    catalog_manager: CatalogManager,
    cluster_manager: ClusterManager,
    hummock_manager: HummockManager,
    stream_manager: GlobalStreamManager,
}

impl NotificationServiceImpl {
    /// The state of the notifications.
    pub closed spec fn spec_env(&self) -> MetaSrvEnv {
        self.env
    }

    /// The catalog and the users.
    pub closed spec fn spec_catalog_manager(&self) -> CatalogManager {
        self.catalog_manager
    }

    /// The worker nodes.
    pub closed spec fn spec_cluster_manager(&self) -> ClusterManager {
        self.cluster_manager
    }

    /// The current version.
    pub closed spec fn spec_hummock_manager(&self) -> HummockManager {
        self.hummock_manager
    }

    /// The tables being created.
    pub closed spec fn spec_stream_manager(&self) -> GlobalStreamManager {
        self.stream_manager
    }

    /// A service over the given parts of the manager.
    pub fn new(
        env: MetaSrvEnv,
        catalog_manager: CatalogManager,
        cluster_manager: ClusterManager,
        hummock_manager: HummockManager,
        stream_manager: GlobalStreamManager,
    ) -> (s: Self)
        ensures
            s.spec_env() == env,
            s.spec_catalog_manager() == catalog_manager,
            s.spec_cluster_manager() == cluster_manager,
            s.spec_hummock_manager() == hummock_manager,
            s.spec_stream_manager() == stream_manager,
    {
        NotificationServiceImpl {
            env,
            catalog_manager,
            cluster_manager,
            hummock_manager,
            stream_manager,
        }
    }

    /// The subscribers registered so far, in order of registration.
    pub fn subscribers(&self) -> (s: &Vec<Subscriber>)
        ensures
            s@ == self.spec_env().subscribers@,
    {
        &self.env.subscribers
    }

    /// Subscribes a worker: builds the snapshot for its kind and registers
    /// it for the updates that follow. A request that names no known kind
    /// of worker, or no host, is refused and changes nothing.
    pub fn subscribe(&mut self, request: SubscribeRequest) -> (r: Result<
        SubscribeResponse,
        SubscribeError,
    >)
        requires
            spec_worker_type(request.worker_type) matches Some(t) ==> request.host is None
                || spec_can_subscribe(t),
        ensures
            final(self).spec_catalog_manager() == old(self).spec_catalog_manager(),
            final(self).spec_cluster_manager() == old(self).spec_cluster_manager(),
            final(self).spec_hummock_manager() == old(self).spec_hummock_manager(),
            final(self).spec_stream_manager() == old(self).spec_stream_manager(),
            final(self).spec_env().notification_version == old(
                self,
            ).spec_env().notification_version,
            spec_worker_type(request.worker_type) is None ==> r == Err::<SubscribeResponse, _>(
                SubscribeError::InvalidWorkerType,
            ),
            spec_worker_type(request.worker_type) is Some && request.host is None ==> r == Err::<
                SubscribeResponse,
                _,
            >(SubscribeError::MissingHost),
            r is Err ==> final(self).spec_env().subscribers@ == old(self).spec_env().subscribers@,
            r is Ok <==> spec_worker_type(request.worker_type) is Some && request.host is Some,
            r matches Ok(response) ==> {
                let worker_type = spec_worker_type(request.worker_type)->0;
                &&& response.operation == Operation::Snapshot
                &&& response.version == old(self).spec_env().notification_version
                &&& spec_snapshot_for(
                    response.snapshot,
                    worker_type,
                    old(self).spec_catalog_manager().catalog,
                    old(self).spec_catalog_manager().users@,
                    old(self).spec_cluster_manager().workers@,
                    old(self).spec_hummock_manager().current_version,
                    old(self).spec_stream_manager().processing_tables@,
                )
                &&& final(self).spec_env().subscribers@ == old(self).spec_env().subscribers@.push(
                    Subscriber { worker_type, host: request.host->0 },
                )
            },
    {
        let worker_type = match worker_type_from_i32(request.worker_type) {
            Some(t) => t,
            None => {
                return Err(SubscribeError::InvalidWorkerType);
            },
        };
        let host_address = match request.host {
            Some(h) => h,
            None => {
                return Err(SubscribeError::MissingHost);
            },
        };
        let meta_snapshot = match worker_type {
            WorkerType::Frontend => MetaSnapshot {
                nodes: self.cluster_manager.list_worker_node(
                    WorkerType::ComputeNode,
                    WorkerState::Running,
                ),
                database: copy_ids(&self.catalog_manager.catalog.database),
                schema: copy_ids(&self.catalog_manager.catalog.schema),
                source: copy_ids(&self.catalog_manager.catalog.source),
                sink: copy_ids(&self.catalog_manager.catalog.sink),
                table: copy_ids(&self.catalog_manager.catalog.table),
                users: copy_ids(&self.catalog_manager.users),
                hummock_version: None,
                index: copy_ids(&self.catalog_manager.catalog.index),
            },
            WorkerType::Compactor => MetaSnapshot {
                nodes: Vec::new(),
                database: Vec::new(),
                schema: Vec::new(),
                source: Vec::new(),
                sink: Vec::new(),
                table: join_ids(
                    &self.catalog_manager.catalog.table,
                    &self.stream_manager.processing_tables,
                ),
                users: Vec::new(),
                hummock_version: None,
                index: Vec::new(),
            },
            _ => MetaSnapshot {
                nodes: Vec::new(),
                database: Vec::new(),
                schema: Vec::new(),
                source: Vec::new(),
                sink: Vec::new(),
                table: join_ids(
                    &self.catalog_manager.catalog.table,
                    &self.stream_manager.processing_tables,
                ),
                users: Vec::new(),
                hummock_version: Some(self.hummock_manager.current_version.clone()),
                index: Vec::new(),
            },
        };
        let response = SubscribeResponse {
            operation: Operation::Snapshot,
            snapshot: meta_snapshot,
            version: self.env.notification_version,
        };
        self.env.subscribers.push(Subscriber { worker_type, host: host_address });
        Ok(response)
    }
}

} // verus!
