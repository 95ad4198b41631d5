//! The metrics that a scrape records, grouped by the document each group reads, and what a
//! scrape reads from the server status.
use vstd::prelude::*;
use crate::doc::{Bson, integer_at};
use crate::status::{
    ScrapeError, get_server_address_and_port, get_storage_engine, get_version, names_storage_engine, read_address,
    read_version,
};
use crate::metrics::{
    Config, Error, Metric, StorageEngine, KeyValue, AttributeValue, DatabaseCount, OperationTime, IndexAccesses, CacheOperations, CursorCount, CursorTimeouts, GlobalLockTime, NetworkIn, NetworkOut, NetworkRequestCount, OperationCount, OperationReplCount, SessionCount, OperationLatencyTime, OperationLatencyOps, Uptime, Health, CollectionCount, DataSize, Extent, IndexSize, IndexCount, ObjectCount, StorageSize, ConnectionCount, DocumentOperations, MemoryUsage, LockAquireCount, LockAquireWaitCount, LockAquireTime, LockAquireDeadlockCount, Record, EmitMetric, cache_counts_fit, cache_recorded, collection_count_readings, connection_count_readings, cursor_count_readings, cursor_timeouts_readings, data_size_readings, div_toward_zero, document_operations_readings, emitted, errors_recorded, extent_readings, global_lock_path, health_readings, index_count_readings, index_size_readings, is_new_gauge, is_new_sum, lock_recorded, memory_usage_readings, network_in_readings, network_out_readings, network_request_count_readings, object_count_readings, operation_count_readings, operation_latency_ops_readings, operation_latency_time_readings, operation_repl_count_readings, point_at, readings_fit, recorded, session_count_readings, storage_size_readings, unchanged, uptime_readings,
};

verus! {

/// Every metric a scrape records, each in the group of the document it reads.
#[derive(Debug)]
pub struct Metrics {
    pub database_count: DatabaseCount,
    pub operation_time: OperationTime,
    pub index_accesses: IndexAccesses,
    pub cache_operations: CacheOperations,
    pub cursor_count: CursorCount,
    pub cursor_timeouts: CursorTimeouts,
    pub global_lock_time: GlobalLockTime,
    pub network_in: NetworkIn,
    pub network_out: NetworkOut,
    pub network_request_count: NetworkRequestCount,
    pub operation_count: OperationCount,
    pub operation_repl_count: OperationReplCount,
    pub session_count: SessionCount,
    pub operation_latency_time: OperationLatencyTime,
    pub operation_latency_ops: OperationLatencyOps,
    pub uptime: Uptime,
    pub health: Health,
    pub collection_count: CollectionCount,
    pub data_size: DataSize,
    pub extent: Extent,
    pub index_size: IndexSize,
    pub index_count: IndexCount,
    pub object_count: ObjectCount,
    pub storage_size: StorageSize,
    pub connection_count: ConnectionCount,
    pub document_operations: DocumentOperations,
    pub memory_usage: MemoryUsage,
    pub lock_aquire_count: LockAquireCount,
    pub lock_aquire_wait_count: LockAquireWaitCount,
    pub lock_aquire_time: LockAquireTime,
    pub lock_aquire_deadlock_count: LockAquireDeadlockCount,
}

impl Metrics {
    /// Every metric is new and holds no point.
    pub open spec fn fresh(self) -> bool {
        &&& is_new_sum(self.database_count.0, "mongodb.database.count"@, "The number of existing databases."@, "{databases}"@, false)
        &&& is_new_sum(
                self.operation_time.0,
                "mongodb.operation.time"@,
                "The total time spent performing operations."@,
                "ms"@,
                true,
            )
        &&& is_new_sum(
                self.index_accesses.0,
                "mongodb.index.access.count"@,
                "The number of times an index has been accessed."@,
                "{accesses}"@,
                false,
            )
        &&& is_new_sum(
                self.cache_operations.0,
                "mongodb.cache.operations"@,
                "The number of cache operations of the instance."@,
                "{operations}"@,
                true,
            )
        &&& is_new_sum(self.cursor_count.0, "mongodb.cursor.count"@, "The number of open cursors maintained for clients."@, "{cursors}"@, false)
        &&& is_new_sum(self.cursor_timeouts.0, "mongodb.cursor.timeout.count"@, "The number of cursors that have timed out."@, "{cursors}"@, false)
        &&& is_new_sum(self.global_lock_time.0, "mongodb.global_lock.time"@, "The time the global lock has been held."@, "ms"@, true)
        &&& is_new_sum(self.network_in.0, "mongodb.network.io.receive"@, "The number of bytes received."@, "By"@, false)
        &&& is_new_sum(self.network_out.0, "mongodb.network.io.transmit"@, "The number of by transmitted."@, "By"@, false)
        &&& is_new_sum(self.network_request_count.0, "mongodb.network.request.count"@, "The number of requests received by the server."@, "{requests}"@, false)
        &&& is_new_sum(self.operation_count.0, "mongodb.operation.count"@, "The number of operations executed."@, "{operations}"@, true)
        &&& is_new_sum(self.operation_repl_count.0, "mongodb.operation.repl.count"@, "The number of replicated operations executed."@, "{operations}"@, true)
        &&& is_new_sum(self.session_count.0, "mongodb.session.count"@, "The total number of active sessions."@, "{sessions}"@, false)
        &&& is_new_gauge(self.operation_latency_time.0, "mongodb.operation.latency.time"@, "The latency of operations."@, "us"@)
        &&& is_new_sum(self.operation_latency_ops.0, "mongodb.operation.latency.ops"@, "The total number of operations performed since startup."@, "{ops}"@, false)
        &&& is_new_sum(self.uptime.0, "mongodb.uptime"@, "The amount of time that the server has been running."@, "ms"@, true)
        &&& is_new_gauge(self.health.0, "mongodb.health"@, "The health status of the server."@, "1"@)
        &&& is_new_sum(self.collection_count.0, "mongodb.collection.count"@, "The number of collections."@, "{collections}"@, false)
        &&& is_new_sum(self.data_size.0, "mongodb.data.size"@, "The size of the collection. Data compression does not affect this value."@, "By"@, false)
        &&& is_new_sum(self.extent.0, "mongodb.extent.count"@, "The number of extents."@, "{extents}"@, false)
        &&& is_new_sum(self.index_size.0, "mongodb.index.size"@, "Sum of the space allocated to all indexes in the database, including free index space."@, "By"@, false)
        &&& is_new_sum(self.index_count.0, "mongodb.index.count"@, "The number of indexes."@, "{indexes}"@, false)
        &&& is_new_sum(self.object_count.0, "mongodb.object.count"@, "The number of objects."@, "{objects}"@, false)
        &&& is_new_sum(self.storage_size.0, "mongodb.storage.size"@, "The total amount of storage allocated to this collection."@, "By"@, true)
        &&& is_new_sum(self.connection_count.0, "mongodb.connection.count"@, "The number of connections."@, "{connections}"@, false)
        &&& is_new_sum(self.document_operations.0, "mongodb.document.operation.count"@, "The number of document operations executed."@, "{documents}"@, false)
        &&& is_new_sum(self.memory_usage.0, "mongodb.memory.usage"@, "The amount of memory used."@, "By"@, false)
        &&& is_new_sum(self.lock_aquire_count.0, "mongodb.lock.acquire.count"@, "Number of times the lock was acquired in the specified mode."@, "{count}"@, true)
        &&& is_new_sum(self.lock_aquire_wait_count.0, "mongodb.lock.acquire.wait_count"@, "Number of times the lock acquisitions encountered waits because the locks were held in a conflicting mode."@, "{count}"@, true)
        &&& is_new_sum(self.lock_aquire_time.0, "mongodb.lock.acquire.time"@, "Cumulative wait time for the lock acquisitions."@, "microseconds"@, true)
        &&& is_new_sum(self.lock_aquire_deadlock_count.0, "mongodb.lock.deadlock.count"@, "Number of times the lock acquisitions encountered deadlocks."@, "{count}"@, true)
    }
}

impl Default for Metrics {
    fn default() -> (r: Metrics)
        ensures
            r.fresh(),
    {
        Metrics {
            database_count: DatabaseCount::default(),
            operation_time: OperationTime::default(),
            index_accesses: IndexAccesses::default(),
            cache_operations: CacheOperations::default(),
            cursor_count: CursorCount::default(),
            cursor_timeouts: CursorTimeouts::default(),
            global_lock_time: GlobalLockTime::default(),
            network_in: NetworkIn::default(),
            network_out: NetworkOut::default(),
            network_request_count: NetworkRequestCount::default(),
            operation_count: OperationCount::default(),
            operation_repl_count: OperationReplCount::default(),
            session_count: SessionCount::default(),
            operation_latency_time: OperationLatencyTime::default(),
            operation_latency_ops: OperationLatencyOps::default(),
            uptime: Uptime::default(),
            health: Health::default(),
            collection_count: CollectionCount::default(),
            data_size: DataSize::default(),
            extent: Extent::default(),
            index_size: IndexSize::default(),
            index_count: IndexCount::default(),
            object_count: ObjectCount::default(),
            storage_size: StorageSize::default(),
            connection_count: ConnectionCount::default(),
            document_operations: DocumentOperations::default(),
            memory_usage: MemoryUsage::default(),
            lock_aquire_count: LockAquireCount::default(),
            lock_aquire_wait_count: LockAquireWaitCount::default(),
            lock_aquire_time: LockAquireTime::default(),
            lock_aquire_deadlock_count: LockAquireDeadlockCount::default(),
        }
    }
}

impl Metrics {
    /// Records the metrics read from the server status of the whole server, in order; the errors of each follow those of the one before.
    pub fn record_server_status(&mut self, doc: &Bson, config: &Config, errors: &mut Vec<Error>)
        requires
            config.storage_engine matches Some(StorageEngine::WiredTiger) ==> cache_counts_fit(*doc),
        ensures
            final(self).database_count == old(self).database_count,
            final(self).operation_time == old(self).operation_time,
            final(self).index_accesses == old(self).index_accesses,
            final(self).collection_count == old(self).collection_count,
            final(self).data_size == old(self).data_size,
            final(self).extent == old(self).extent,
            final(self).index_size == old(self).index_size,
            final(self).index_count == old(self).index_count,
            final(self).object_count == old(self).object_count,
            final(self).storage_size == old(self).storage_size,
            final(self).connection_count == old(self).connection_count,
            final(self).document_operations == old(self).document_operations,
            final(self).memory_usage == old(self).memory_usage,
            final(self).lock_aquire_count == old(self).lock_aquire_count,
            final(self).lock_aquire_wait_count == old(self).lock_aquire_wait_count,
            final(self).lock_aquire_time == old(self).lock_aquire_time,
            final(self).lock_aquire_deadlock_count == old(self).lock_aquire_deadlock_count,
            exists|es: Seq<Seq<Error>>|
                #![trigger es.len()]
                {
                    &&& es.len() == 15
                    &&& es[0] == old(errors)@
                    &&& es[14] == final(errors)@
                    &&& cache_recorded(old(self).cache_operations.0, final(self).cache_operations.0, es[0], es[1], *doc, *config)
                    &&& recorded(old(self).cursor_count.0, final(self).cursor_count.0, es[1], es[2], *doc, cursor_count_readings(), 1, false, *config)
                    &&& recorded(old(self).cursor_timeouts.0, final(self).cursor_timeouts.0, es[2], es[3], *doc, cursor_timeouts_readings(), 1, false, *config)
                    &&& final(self).global_lock_time.0.descriptor == old(self).global_lock_time.0.descriptor
                    &&& final(self).global_lock_time.0.data.same_kind(old(self).global_lock_time.0.data)
                    &&& match integer_at(*doc, global_lock_path()) {
                Some(v) => final(self).global_lock_time.0.data.points() == old(self).global_lock_time.0.data.points().push(
                    point_at(div_toward_zero(v as int, 1000) as i64, *config, Seq::empty()),
                ) && es[4] == es[3],
                None => final(self).global_lock_time.0.data.points() == old(self).global_lock_time.0.data.points() && errors_recorded(
                    es[3],
                    es[4],
                    old(self).global_lock_time.0.descriptor.name@,
                    *doc,
                    seq![global_lock_path()],
                ),
            }
                    &&& recorded(old(self).network_in.0, final(self).network_in.0, es[4], es[5], *doc, network_in_readings(), 1, false, *config)
                    &&& recorded(old(self).network_out.0, final(self).network_out.0, es[5], es[6], *doc, network_out_readings(), 1, false, *config)
                    &&& recorded(old(self).network_request_count.0, final(self).network_request_count.0, es[6], es[7], *doc, network_request_count_readings(), 1, false, *config)
                    &&& recorded(old(self).operation_count.0, final(self).operation_count.0, es[7], es[8], *doc, operation_count_readings(), 1, false, *config)
                    &&& recorded(old(self).operation_repl_count.0, final(self).operation_repl_count.0, es[8], es[9], *doc, operation_repl_count_readings(), 1, false, *config)
                    &&& if config.storage_engine matches Some(StorageEngine::WiredTiger) { recorded(old(self).session_count.0, final(self).session_count.0, es[9], es[10], *doc, session_count_readings(), 1, false, *config) } else { unchanged(old(self).session_count.0, final(self).session_count.0, es[9], es[10]) }
                    &&& recorded(old(self).operation_latency_time.0, final(self).operation_latency_time.0, es[10], es[11], *doc, operation_latency_time_readings(), 1, false, *config)
                    &&& recorded(old(self).operation_latency_ops.0, final(self).operation_latency_ops.0, es[11], es[12], *doc, operation_latency_ops_readings(), 1, false, *config)
                    &&& recorded(old(self).uptime.0, final(self).uptime.0, es[12], es[13], *doc, uptime_readings(), 1, false, *config)
                    &&& recorded(old(self).health.0, final(self).health.0, es[13], es[14], *doc, health_readings(), 1, false, *config)
                },
    {
        let ghost e0 = errors@;
        self.cache_operations.record(doc, config, errors);
        let ghost e1 = errors@;
        self.cursor_count.record(doc, config, errors);
        let ghost e2 = errors@;
        self.cursor_timeouts.record(doc, config, errors);
        let ghost e3 = errors@;
        self.global_lock_time.record(doc, config, errors);
        let ghost e4 = errors@;
        self.network_in.record(doc, config, errors);
        let ghost e5 = errors@;
        self.network_out.record(doc, config, errors);
        let ghost e6 = errors@;
        self.network_request_count.record(doc, config, errors);
        let ghost e7 = errors@;
        self.operation_count.record(doc, config, errors);
        let ghost e8 = errors@;
        self.operation_repl_count.record(doc, config, errors);
        let ghost e9 = errors@;
        self.session_count.record(doc, config, errors);
        let ghost e10 = errors@;
        self.operation_latency_time.record(doc, config, errors);
        let ghost e11 = errors@;
        self.operation_latency_ops.record(doc, config, errors);
        let ghost e12 = errors@;
        self.uptime.record(doc, config, errors);
        let ghost e13 = errors@;
        self.health.record(doc, config, errors);
        let ghost e14 = errors@;
        proof {
            let es = seq![e0, e1, e2, e3, e4, e5, e6, e7, e8, e9, e10, e11, e12, e13, e14];
            assert(es.len() == 15);
        }
    }

    /// Records the metrics read from the statistics of a database, in order; the errors of each follow those of the one before.
    pub fn record_db_stats(&mut self, doc: &Bson, config: &Config, errors: &mut Vec<Error>)
        ensures
            final(self).database_count == old(self).database_count,
            final(self).operation_time == old(self).operation_time,
            final(self).index_accesses == old(self).index_accesses,
            final(self).cache_operations == old(self).cache_operations,
            final(self).cursor_count == old(self).cursor_count,
            final(self).cursor_timeouts == old(self).cursor_timeouts,
            final(self).global_lock_time == old(self).global_lock_time,
            final(self).network_in == old(self).network_in,
            final(self).network_out == old(self).network_out,
            final(self).network_request_count == old(self).network_request_count,
            final(self).operation_count == old(self).operation_count,
            final(self).operation_repl_count == old(self).operation_repl_count,
            final(self).session_count == old(self).session_count,
            final(self).operation_latency_time == old(self).operation_latency_time,
            final(self).operation_latency_ops == old(self).operation_latency_ops,
            final(self).uptime == old(self).uptime,
            final(self).health == old(self).health,
            final(self).connection_count == old(self).connection_count,
            final(self).document_operations == old(self).document_operations,
            final(self).memory_usage == old(self).memory_usage,
            final(self).lock_aquire_count == old(self).lock_aquire_count,
            final(self).lock_aquire_wait_count == old(self).lock_aquire_wait_count,
            final(self).lock_aquire_time == old(self).lock_aquire_time,
            final(self).lock_aquire_deadlock_count == old(self).lock_aquire_deadlock_count,
            exists|es: Seq<Seq<Error>>|
                #![trigger es.len()]
                {
                    &&& es.len() == 8
                    &&& es[0] == old(errors)@
                    &&& es[7] == final(errors)@
                    &&& recorded(old(self).collection_count.0, final(self).collection_count.0, es[0], es[1], *doc, collection_count_readings(), 1, false, *config)
                    &&& recorded(old(self).data_size.0, final(self).data_size.0, es[1], es[2], *doc, data_size_readings(), 1, false, *config)
                    &&& if config.version.below(4, 4, 0) { recorded(old(self).extent.0, final(self).extent.0, es[2], es[3], *doc, extent_readings(), 1, false, *config) } else { unchanged(old(self).extent.0, final(self).extent.0, es[2], es[3]) }
                    &&& recorded(old(self).index_size.0, final(self).index_size.0, es[3], es[4], *doc, index_size_readings(), 1, false, *config)
                    &&& recorded(old(self).index_count.0, final(self).index_count.0, es[4], es[5], *doc, index_count_readings(), 1, false, *config)
                    &&& recorded(old(self).object_count.0, final(self).object_count.0, es[5], es[6], *doc, object_count_readings(), 1, false, *config)
                    &&& recorded(old(self).storage_size.0, final(self).storage_size.0, es[6], es[7], *doc, storage_size_readings(), 1, false, *config)
                },
    {
        let ghost e0 = errors@;
        self.collection_count.record(doc, config, errors);
        let ghost e1 = errors@;
        self.data_size.record(doc, config, errors);
        let ghost e2 = errors@;
        self.extent.record(doc, config, errors);
        let ghost e3 = errors@;
        self.index_size.record(doc, config, errors);
        let ghost e4 = errors@;
        self.index_count.record(doc, config, errors);
        let ghost e5 = errors@;
        self.object_count.record(doc, config, errors);
        let ghost e6 = errors@;
        self.storage_size.record(doc, config, errors);
        let ghost e7 = errors@;
        proof {
            let es = seq![e0, e1, e2, e3, e4, e5, e6, e7];
            assert(es.len() == 8);
        }
    }

    /// Records the metrics read from the server status of a database, in order; the errors of each follow those of the one before.
    pub fn record_db_server_status(&mut self, doc: &Bson, config: &Config, errors: &mut Vec<Error>)
        requires
            readings_fit(*doc, memory_usage_readings(), 1048576),
        ensures
            final(self).database_count == old(self).database_count,
            final(self).operation_time == old(self).operation_time,
            final(self).index_accesses == old(self).index_accesses,
            final(self).cache_operations == old(self).cache_operations,
            final(self).cursor_count == old(self).cursor_count,
            final(self).cursor_timeouts == old(self).cursor_timeouts,
            final(self).global_lock_time == old(self).global_lock_time,
            final(self).network_in == old(self).network_in,
            final(self).network_out == old(self).network_out,
            final(self).network_request_count == old(self).network_request_count,
            final(self).operation_count == old(self).operation_count,
            final(self).operation_repl_count == old(self).operation_repl_count,
            final(self).session_count == old(self).session_count,
            final(self).operation_latency_time == old(self).operation_latency_time,
            final(self).operation_latency_ops == old(self).operation_latency_ops,
            final(self).uptime == old(self).uptime,
            final(self).health == old(self).health,
            final(self).collection_count == old(self).collection_count,
            final(self).data_size == old(self).data_size,
            final(self).extent == old(self).extent,
            final(self).index_size == old(self).index_size,
            final(self).index_count == old(self).index_count,
            final(self).object_count == old(self).object_count,
            final(self).storage_size == old(self).storage_size,
            exists|es: Seq<Seq<Error>>|
                #![trigger es.len()]
                {
                    &&& es.len() == 8
                    &&& es[0] == old(errors)@
                    &&& es[7] == final(errors)@
                    &&& recorded(old(self).connection_count.0, final(self).connection_count.0, es[0], es[1], *doc, connection_count_readings(), 1, false, *config)
                    &&& recorded(old(self).document_operations.0, final(self).document_operations.0, es[1], es[2], *doc, document_operations_readings(), 1, false, *config)
                    &&& recorded(old(self).memory_usage.0, final(self).memory_usage.0, es[2], es[3], *doc, memory_usage_readings(), 1048576, false, *config)
                    &&& lock_recorded(old(self).lock_aquire_count.0, final(self).lock_aquire_count.0, es[3], es[4], *doc, "acquireCount"@, *config)
                    &&& lock_recorded(old(self).lock_aquire_wait_count.0, final(self).lock_aquire_wait_count.0, es[4], es[5], *doc, "acquireWaitCount"@, *config)
                    &&& lock_recorded(old(self).lock_aquire_time.0, final(self).lock_aquire_time.0, es[5], es[6], *doc, "timeAcquiringMicros"@, *config)
                    &&& lock_recorded(old(self).lock_aquire_deadlock_count.0, final(self).lock_aquire_deadlock_count.0, es[6], es[7], *doc, "deadlockCount"@, *config)
                },
    {
        let ghost e0 = errors@;
        self.connection_count.record(doc, config, errors);
        let ghost e1 = errors@;
        self.document_operations.record(doc, config, errors);
        let ghost e2 = errors@;
        self.memory_usage.record(doc, config, errors);
        let ghost e3 = errors@;
        self.lock_aquire_count.record(doc, config, errors);
        let ghost e4 = errors@;
        self.lock_aquire_wait_count.record(doc, config, errors);
        let ghost e5 = errors@;
        self.lock_aquire_time.record(doc, config, errors);
        let ghost e6 = errors@;
        self.lock_aquire_deadlock_count.record(doc, config, errors);
        let ghost e7 = errors@;
        proof {
            let es = seq![e0, e1, e2, e3, e4, e5, e6, e7];
            assert(es.len() == 8);
        }
    }

    /// Emits the metrics of the whole server: the database count, the operation times, then the server status metrics.
    pub fn emit_global(&mut self) -> (r: Vec<Metric>)
        ensures
            r@.len() == 16,
            emitted(old(self).database_count.0, final(self).database_count.0, r@[0]),
            emitted(old(self).operation_time.0, final(self).operation_time.0, r@[1]),
            emitted(old(self).cache_operations.0, final(self).cache_operations.0, r@[2]),
            emitted(old(self).cursor_count.0, final(self).cursor_count.0, r@[3]),
            emitted(old(self).cursor_timeouts.0, final(self).cursor_timeouts.0, r@[4]),
            emitted(old(self).global_lock_time.0, final(self).global_lock_time.0, r@[5]),
            emitted(old(self).network_in.0, final(self).network_in.0, r@[6]),
            emitted(old(self).network_out.0, final(self).network_out.0, r@[7]),
            emitted(old(self).network_request_count.0, final(self).network_request_count.0, r@[8]),
            emitted(old(self).operation_count.0, final(self).operation_count.0, r@[9]),
            emitted(old(self).operation_repl_count.0, final(self).operation_repl_count.0, r@[10]),
            emitted(old(self).session_count.0, final(self).session_count.0, r@[11]),
            emitted(old(self).operation_latency_time.0, final(self).operation_latency_time.0, r@[12]),
            emitted(old(self).operation_latency_ops.0, final(self).operation_latency_ops.0, r@[13]),
            emitted(old(self).uptime.0, final(self).uptime.0, r@[14]),
            emitted(old(self).health.0, final(self).health.0, r@[15]),
            final(self).index_accesses == old(self).index_accesses,
            final(self).collection_count == old(self).collection_count,
            final(self).data_size == old(self).data_size,
            final(self).extent == old(self).extent,
            final(self).index_size == old(self).index_size,
            final(self).index_count == old(self).index_count,
            final(self).object_count == old(self).object_count,
            final(self).storage_size == old(self).storage_size,
            final(self).connection_count == old(self).connection_count,
            final(self).document_operations == old(self).document_operations,
            final(self).memory_usage == old(self).memory_usage,
            final(self).lock_aquire_count == old(self).lock_aquire_count,
            final(self).lock_aquire_wait_count == old(self).lock_aquire_wait_count,
            final(self).lock_aquire_time == old(self).lock_aquire_time,
            final(self).lock_aquire_deadlock_count == old(self).lock_aquire_deadlock_count,
    {
        let mut r: Vec<Metric> = Vec::new();
        r.push(self.database_count.emit());
        r.push(self.operation_time.emit());
        r.push(self.cache_operations.emit());
        r.push(self.cursor_count.emit());
        r.push(self.cursor_timeouts.emit());
        r.push(self.global_lock_time.emit());
        r.push(self.network_in.emit());
        r.push(self.network_out.emit());
        r.push(self.network_request_count.emit());
        r.push(self.operation_count.emit());
        r.push(self.operation_repl_count.emit());
        r.push(self.session_count.emit());
        r.push(self.operation_latency_time.emit());
        r.push(self.operation_latency_ops.emit());
        r.push(self.uptime.emit());
        r.push(self.health.emit());
        r
    }

    /// Emits the metrics of a database: the index accesses, then the database statistics metrics, then its server status metrics.
    pub fn emit_database(&mut self) -> (r: Vec<Metric>)
        ensures
            r@.len() == 15,
            emitted(old(self).index_accesses.0, final(self).index_accesses.0, r@[0]),
            emitted(old(self).collection_count.0, final(self).collection_count.0, r@[1]),
            emitted(old(self).data_size.0, final(self).data_size.0, r@[2]),
            emitted(old(self).extent.0, final(self).extent.0, r@[3]),
            emitted(old(self).index_size.0, final(self).index_size.0, r@[4]),
            emitted(old(self).index_count.0, final(self).index_count.0, r@[5]),
            emitted(old(self).object_count.0, final(self).object_count.0, r@[6]),
            emitted(old(self).storage_size.0, final(self).storage_size.0, r@[7]),
            emitted(old(self).connection_count.0, final(self).connection_count.0, r@[8]),
            emitted(old(self).document_operations.0, final(self).document_operations.0, r@[9]),
            emitted(old(self).memory_usage.0, final(self).memory_usage.0, r@[10]),
            emitted(old(self).lock_aquire_count.0, final(self).lock_aquire_count.0, r@[11]),
            emitted(old(self).lock_aquire_wait_count.0, final(self).lock_aquire_wait_count.0, r@[12]),
            emitted(old(self).lock_aquire_time.0, final(self).lock_aquire_time.0, r@[13]),
            emitted(old(self).lock_aquire_deadlock_count.0, final(self).lock_aquire_deadlock_count.0, r@[14]),
            final(self).database_count == old(self).database_count,
            final(self).operation_time == old(self).operation_time,
            final(self).cache_operations == old(self).cache_operations,
            final(self).cursor_count == old(self).cursor_count,
            final(self).cursor_timeouts == old(self).cursor_timeouts,
            final(self).global_lock_time == old(self).global_lock_time,
            final(self).network_in == old(self).network_in,
            final(self).network_out == old(self).network_out,
            final(self).network_request_count == old(self).network_request_count,
            final(self).operation_count == old(self).operation_count,
            final(self).operation_repl_count == old(self).operation_repl_count,
            final(self).session_count == old(self).session_count,
            final(self).operation_latency_time == old(self).operation_latency_time,
            final(self).operation_latency_ops == old(self).operation_latency_ops,
            final(self).uptime == old(self).uptime,
            final(self).health == old(self).health,
    {
        let mut r: Vec<Metric> = Vec::new();
        r.push(self.index_accesses.emit());
        r.push(self.collection_count.emit());
        r.push(self.data_size.emit());
        r.push(self.extent.emit());
        r.push(self.index_size.emit());
        r.push(self.index_count.emit());
        r.push(self.object_count.emit());
        r.push(self.storage_size.emit());
        r.push(self.connection_count.emit());
        r.push(self.document_operations.emit());
        r.push(self.memory_usage.emit());
        r.push(self.lock_aquire_count.emit());
        r.push(self.lock_aquire_wait_count.emit());
        r.push(self.lock_aquire_time.emit());
        r.push(self.lock_aquire_deadlock_count.emit());
        r
    }
}

/// Where a scraper connects.
#[derive(Debug)]
pub struct Options {
    pub connection_uri: String,
}

/// A scraper's state: the metrics it records, and when it started.
#[derive(Debug)]
pub struct MetricScraper {
    pub metrics: Metrics,
    pub start_time: std::time::SystemTime,
}

/// What a scrape learns from the status of the whole server: the settings of its
/// recorders, and the server's address and port.
pub struct ServerInfo {
    pub config: Config,
    pub server_address: String,
    pub server_port: u16,
}

impl MetricScraper {
    /// A scraper that started at `start_time`, with every metric new.
    pub fn new(start_time: std::time::SystemTime) -> (r: MetricScraper)
        ensures
            r.metrics.fresh(),
            r.start_time == start_time,
    {
        MetricScraper { metrics: Metrics::default(), start_time }
    }

    /// Reads the version, then the storage engine, then the address and port from the
    /// status of the whole server; the settings of the recorders take the version, the
    /// storage engine, the start of the scraper and `now`, with no database. An unreadable
    /// version fails first, then an unreadable host.
    pub fn server_info(&self, server_status: &Bson, now: std::time::SystemTime) -> (r: Result<ServerInfo, ScrapeError>)
        ensures
            r is Ok <==> (read_version(*server_status) is Some && read_address(*server_status) is Some),
            read_version(*server_status) is None ==> (r matches Err(ScrapeError::Query(_)) || r matches Err(
                ScrapeError::InvalidVersion(_),
            )),
            read_version(*server_status) is Some && read_address(*server_status) is None ==> !(r matches Err(
                ScrapeError::InvalidVersion(_),
            )),
            match r {
                Ok(info) => {
                    &&& read_version(*server_status) == Some(
                        (
                            info.config.version.major,
                            info.config.version.minor,
                            info.config.version.patch,
                            info.config.version.pre@,
                            info.config.version.build@,
                        ),
                    )
                    &&& read_address(*server_status) == Some((info.server_address@, info.server_port))
                    &&& names_storage_engine(*server_status, info.config.storage_engine)
                    &&& info.config.database_name is None
                    &&& info.config.start_time == self.start_time
                    &&& info.config.time == now
                },
                Err(_) => true,
            },
    {
        let version = match get_version(server_status) {
            Ok(v) => v,
            Err(e) => {
                return Err(e);
            },
        };
        let storage_engine = get_storage_engine(server_status);
        let (address, port) = match get_server_address_and_port(server_status) {
            Ok(a) => a,
            Err(e) => {
                return Err(e);
            },
        };
        Ok(ServerInfo {
            config: Config { database_name: None, start_time: self.start_time, time: now, storage_engine, version },
            server_address: String::from_str(address),
            server_port: port,
        })
    }
}

} // verus!
