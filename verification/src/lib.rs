//! Compaction core of an LSM storage engine: versioned keys, retention rules,
//! capacity-split table building and the client-side version cache.

pub mod buffer;
pub mod catalog;
pub mod cell_based_row;
pub mod compactor;
pub mod concat_iterator;
pub mod context;
pub mod dedup_pk_cell_based_row_serializer;
pub mod epochs;
pub mod error;
pub mod filter;
pub mod iterator;
pub mod key;
pub mod key_range;
pub mod local_version;
pub mod manual_compaction;
pub mod memory;
pub mod merge_iterator;
pub mod multi_builder;
pub mod notification;
pub mod retention;
pub mod row;
pub mod service_loop;
pub mod shared_buffer;
pub mod split_output;
pub mod sstable;
pub mod sstable_id_manager;
pub mod sstable_store;
pub mod table_manager;
pub mod task;
pub mod task_filter;
pub mod task_input;
pub mod task_model;
pub mod task_output;
pub mod value;
pub mod version;
