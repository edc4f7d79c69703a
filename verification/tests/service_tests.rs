use hummock::manual_compaction::{manual_compaction_option, TriggerManualCompactionRequest};
use hummock::notification::{
    Catalog, CatalogManager, ClusterManager, GlobalStreamManager, HostAddress, HummockManager,
    MetaSrvEnv, NotificationServiceImpl, Operation, SubscribeError, SubscribeRequest, Subscriber,
    WorkerNode, WorkerState, WorkerType,
};
use hummock::service_loop::{
    next_step, start, FullScanTask, LoopAction, LoopEvent, LoopState, Task, VacuumTask,
    STREAM_RETRY_INTERVAL_SECS,
};
use hummock::catalog::{ColumnDesc, ColumnId, DataType, OrderType};
use hummock::table_manager::{SimpleTableManager, StateStoreImpl, TableError};
use hummock::task::TaskKeyRange;
use hummock::version::HummockVersion;
use std::collections::HashSet;
use std::sync::Arc;

fn node(id: u32, worker_type: WorkerType, state: WorkerState) -> WorkerNode {
    WorkerNode { id, worker_type, host: HostAddress { host: id, port: 1 }, state }
}

fn service() -> NotificationServiceImpl {
    NotificationServiceImpl::new(
        MetaSrvEnv { notification_version: 17, subscribers: vec![] },
        CatalogManager {
            catalog: Catalog {
                database: vec![1],
                schema: vec![2, 3],
                table: vec![4, 5],
                source: vec![6],
                sink: vec![7],
                index: vec![8],
            },
            users: vec![9, 10],
        },
        ClusterManager {
            workers: vec![
                node(1, WorkerType::ComputeNode, WorkerState::Running),
                node(2, WorkerType::ComputeNode, WorkerState::Starting),
                node(3, WorkerType::Frontend, WorkerState::Running),
                node(4, WorkerType::ComputeNode, WorkerState::Running),
            ],
        },
        HummockManager {
            current_version: Arc::new(HummockVersion {
                id: 33,
                levels: vec![],
                max_committed_epoch: 5,
                safe_epoch: 1,
            }),
        },
        GlobalStreamManager { processing_tables: vec![11] },
    )
}

fn request(worker_type: i32) -> SubscribeRequest {
    SubscribeRequest { worker_type, host: Some(HostAddress { host: 127, port: 5688 }) }
}

#[test]
fn a_frontend_gets_catalog_nodes_and_users() {
    let mut s = service();
    let r = s.subscribe(request(1)).unwrap();
    assert_eq!(r.operation, Operation::Snapshot);
    assert_eq!(r.version, 17);
    assert_eq!(r.snapshot.nodes.iter().map(|n| n.id).collect::<Vec<_>>(), vec![1, 4]);
    assert_eq!(r.snapshot.database, vec![1]);
    assert_eq!(r.snapshot.schema, vec![2, 3]);
    assert_eq!(r.snapshot.table, vec![4, 5]);
    assert_eq!(r.snapshot.source, vec![6]);
    assert_eq!(r.snapshot.sink, vec![7]);
    assert_eq!(r.snapshot.index, vec![8]);
    assert_eq!(r.snapshot.users, vec![9, 10]);
    assert!(r.snapshot.hummock_version.is_none());
    assert_eq!(
        s.subscribers(),
        &vec![Subscriber { worker_type: WorkerType::Frontend, host: HostAddress { host: 127, port: 5688 } }]
    );
}

#[test]
fn a_compactor_gets_only_the_tables() {
    let mut s = service();
    let r = s.subscribe(request(4)).unwrap();
    assert_eq!(r.snapshot.table, vec![4, 5, 11]);
    assert!(r.snapshot.nodes.is_empty() && r.snapshot.database.is_empty());
    assert!(r.snapshot.schema.is_empty() && r.snapshot.source.is_empty());
    assert!(r.snapshot.sink.is_empty() && r.snapshot.index.is_empty());
    assert!(r.snapshot.users.is_empty() && r.snapshot.hummock_version.is_none());
}

#[test]
fn a_compute_node_gets_the_tables_and_the_version() {
    let mut s = service();
    let r = s.subscribe(request(2)).unwrap();
    assert_eq!(r.snapshot.table, vec![4, 5, 11]);
    assert_eq!(r.snapshot.hummock_version.as_ref().unwrap().id, 33);
    assert!(r.snapshot.nodes.is_empty() && r.snapshot.users.is_empty());
    let second = s.subscribe(request(4)).unwrap();
    assert_eq!(second.version, 17);
    assert_eq!(s.subscribers().len(), 2);
}

#[test]
fn a_request_without_a_kind_or_a_host_is_refused() {
    let mut s = service();
    assert_eq!(s.subscribe(request(9)).err(), Some(SubscribeError::InvalidWorkerType));
    assert_eq!(s.subscribe(request(-1)).err(), Some(SubscribeError::InvalidWorkerType));
    let no_host = SubscribeRequest { worker_type: 1, host: None };
    assert_eq!(s.subscribe(no_host).err(), Some(SubscribeError::MissingHost));
    assert!(s.subscribers().is_empty());
}

fn vacuum() -> Task {
    Task::VacuumTask(VacuumTask { sstable_ids: vec![1, 2] })
}

#[test]
fn the_loop_subscribes_after_a_tick_and_spawns_what_it_receives() {
    assert_eq!(STREAM_RETRY_INTERVAL_SECS, 60);
    let (state, action) = start();
    assert_eq!(state, LoopState::WaitingForTick);
    assert!(matches!(action, LoopAction::WaitForTick));
    let (state, action) = next_step(state, LoopEvent::Tick);
    assert_eq!(state, LoopState::Subscribing);
    assert!(matches!(action, LoopAction::Subscribe));
    let (state, action) = next_step(state, LoopEvent::Subscribed);
    assert_eq!(state, LoopState::Consuming);
    assert!(matches!(action, LoopAction::Receive));
    let (state, action) = next_step(state, LoopEvent::Message(Some(vacuum())));
    assert_eq!(state, LoopState::Consuming);
    match action {
        LoopAction::Spawn(Task::VacuumTask(v)) => assert_eq!(v.sstable_ids, vec![1, 2]),
        _ => panic!("a task that arrives is spawned"),
    }
    let scan = Task::FullScanTask(FullScanTask { sst_retention_time_sec: 3 });
    let (state, action) = next_step(state, LoopEvent::Message(Some(scan)));
    assert!(matches!(action, LoopAction::Spawn(Task::FullScanTask(_))));
    let (state, action) = next_step(state, LoopEvent::Message(None));
    assert_eq!(state, LoopState::Consuming);
    assert!(matches!(action, LoopAction::Receive));
    let (state, action) = next_step(state, LoopEvent::StreamEnded);
    assert_eq!(state, LoopState::WaitingForTick);
    assert!(matches!(action, LoopAction::WaitForTick));
}

#[test]
fn the_loop_retries_after_a_failure_and_ends_on_shutdown() {
    let (state, action) = next_step(LoopState::Subscribing, LoopEvent::SubscribeFailed);
    assert_eq!(state, LoopState::WaitingForTick);
    assert!(matches!(action, LoopAction::WaitForTick));
    let (state, _) = next_step(LoopState::Consuming, LoopEvent::StreamFailed);
    assert_eq!(state, LoopState::WaitingForTick);
    let (state, action) = next_step(state, LoopEvent::Shutdown);
    assert_eq!(state, LoopState::Stopped);
    assert!(matches!(action, LoopAction::Exit));
    let (state, action) = next_step(LoopState::Consuming, LoopEvent::Shutdown);
    assert_eq!(state, LoopState::Stopped);
    assert!(matches!(action, LoopAction::Exit));
    let (state, action) = next_step(state, LoopEvent::Tick);
    assert_eq!(state, LoopState::Stopped);
    assert!(matches!(action, LoopAction::Exit));
    // An event that cannot happen in a state changes nothing.
    let (state, action) = next_step(LoopState::WaitingForTick, LoopEvent::Message(Some(vacuum())));
    assert_eq!(state, LoopState::WaitingForTick);
    assert!(matches!(action, LoopAction::WaitForTick));
    let (state, action) = next_step(LoopState::Subscribing, LoopEvent::Shutdown);
    assert_eq!(state, LoopState::Subscribing);
    assert!(matches!(action, LoopAction::Subscribe));
}

#[test]
fn a_manual_compaction_covers_the_table_and_its_internal_tables() {
    let request = TriggerManualCompactionRequest {
        compaction_group_id: 2,
        key_range: None,
        table_id: 7,
        level: 3,
        sst_ids: vec![10, 11],
    };
    let option = manual_compaction_option(request, Some(vec![8, 9, 8]));
    assert_eq!(option.level, 3);
    assert_eq!(option.sst_ids, vec![10, 11]);
    assert!(option.key_range.inf);
    assert!(option.key_range.left.is_empty() && option.key_range.right.is_empty());
    assert_eq!(option.internal_table_id, HashSet::from([7, 8, 9]));
    let request = TriggerManualCompactionRequest {
        compaction_group_id: 2,
        key_range: Some(TaskKeyRange { left: b"a".to_vec(), right: b"b".to_vec(), inf: false }),
        table_id: 7,
        level: 0,
        sst_ids: vec![],
    };
    let option = manual_compaction_option(request, None);
    assert_eq!(option.key_range.left, b"a".to_vec());
    assert_eq!(option.key_range.right, b"b".to_vec());
    assert!(!option.key_range.inf);
    assert_eq!(option.internal_table_id, HashSet::from([7]));
}

fn columns() -> Vec<ColumnDesc> {
    vec![
        ColumnDesc::unnamed(ColumnId::new(0), DataType::Int64),
        ColumnDesc::unnamed(ColumnId::new(1), DataType::Varchar),
    ]
}

#[test]
fn tables_are_registered_once_and_dropped_once() {
    let mut manager = SimpleTableManager::with_in_memory_store();
    assert_eq!(manager.state_store(), StateStoreImpl::MemoryStateStore);
    assert!(manager.lock_tables().is_empty());
    let table = manager.create_table_v2(1, columns()).unwrap();
    assert_eq!(table.keyspace_table_id, 1);
    assert_eq!(table.column_descs, columns());
    assert!(table.pk_columns.is_empty());
    assert_eq!(manager.create_table_v2(1, columns()).err(), Some(TableError::InternalError));
    assert!(Arc::ptr_eq(&manager.get_table(1).unwrap(), &table));
    assert_eq!(manager.get_table(2).err(), Some(TableError::InternalError));
    assert_eq!(manager.drop_table(2), Err(TableError::InternalError));
    assert_eq!(manager.drop_table(1), Ok(()));
    assert_eq!(manager.drop_table(1), Err(TableError::InternalError));
    assert!(manager.lock_tables().is_empty());
}

#[test]
fn a_materialized_view_needs_a_free_id_and_columns() {
    let mut manager = SimpleTableManager::new(StateStoreImpl::HummockStateStore);
    assert_eq!(
        manager.create_materialized_view(5, &columns(), vec![0], vec![OrderType::Descending]),
        Ok(())
    );
    let view = manager.get_table(5).unwrap();
    assert_eq!(view.pk_columns, vec![0]);
    assert_eq!(view.order_types, vec![OrderType::Descending]);
    assert_eq!(view.state_store, StateStoreImpl::HummockStateStore);
    assert_eq!(
        manager.create_materialized_view(5, &columns(), vec![], vec![]),
        Err(TableError::InternalError)
    );
    assert_eq!(
        manager.create_materialized_view(6, &[], vec![], vec![]),
        Err(TableError::InternalError)
    );
    assert_eq!(manager.lock_tables().len(), 1);
    assert_eq!(manager.drop_materialized_view(5), Ok(()));
    assert_eq!(manager.drop_materialized_view(5), Err(TableError::InternalError));
}

#[test]
fn an_associated_view_shares_the_table() {
    let mut manager = SimpleTableManager::with_in_memory_store();
    assert_eq!(
        manager.register_associated_materialized_view(1, 2).err(),
        Some(TableError::CatalogError)
    );
    assert!(manager.lock_tables().is_empty());
    let table = manager.create_table_v2(1, columns()).unwrap();
    let view = manager.register_associated_materialized_view(1, 2).unwrap();
    assert!(Arc::ptr_eq(&view, &table));
    assert!(Arc::ptr_eq(&manager.get_table(2).unwrap(), &table));
    // Dropping the table leaves the view, and the rows, where they are.
    assert_eq!(manager.drop_table(1), Ok(()));
    assert!(manager.get_table(2).is_ok());
}
