//! Counters of the storage engine's per-thread performance context, and the
//! difference between two readings of them.

use vstd::prelude::*;

verus! {

/// One reading, or the difference of two readings, of the engine's
/// performance counters.
#[derive(Default, Debug, Clone, Copy)]
pub struct PerfStatisticsFields {
    pub user_key_comparison_count: usize,
    pub block_cache_hit_count: usize,
    pub block_read_count: usize,
    pub block_read_byte: usize,
    pub block_read_time: usize,
    pub block_checksum_time: usize,
    pub block_decompress_time: usize,
    pub get_read_bytes: usize,
    pub multiget_read_bytes: usize,
    pub iter_read_bytes: usize,
    pub internal_key_skipped_count: usize,
    pub internal_delete_skipped_count: usize,
    pub internal_recent_skipped_count: usize,
    pub internal_merge_count: usize,
    pub get_snapshot_time: usize,
    pub get_from_memtable_time: usize,
    pub get_from_memtable_count: usize,
    pub get_post_process_time: usize,
    pub get_from_output_files_time: usize,
    pub seek_on_memtable_time: usize,
    pub seek_on_memtable_count: usize,
    pub next_on_memtable_count: usize,
    pub prev_on_memtable_count: usize,
    pub seek_child_seek_time: usize,
    pub seek_child_seek_count: usize,
    pub seek_min_heap_time: usize,
    pub seek_max_heap_time: usize,
    pub seek_internal_seek_time: usize,
    pub find_next_user_entry_time: usize,
    pub write_wal_time: usize,
    pub write_memtable_time: usize,
    pub write_delay_time: usize,
    pub write_pre_and_post_process_time: usize,
    pub db_mutex_lock_nanos: usize,
    pub db_condition_wait_nanos: usize,
    pub merge_operator_time_nanos: usize,
    pub read_index_block_nanos: usize,
    pub read_filter_block_nanos: usize,
    pub new_table_block_iter_nanos: usize,
    pub new_table_iterator_nanos: usize,
    pub block_seek_nanos: usize,
    pub find_table_nanos: usize,
    pub bloom_memtable_hit_count: usize,
    pub bloom_memtable_miss_count: usize,
    pub bloom_sst_hit_count: usize,
    pub bloom_sst_miss_count: usize,
    pub env_new_sequential_file_nanos: usize,
    pub env_new_random_access_file_nanos: usize,
    pub env_new_writable_file_nanos: usize,
    pub env_reuse_writable_file_nanos: usize,
    pub env_new_random_rw_file_nanos: usize,
    pub env_new_directory_nanos: usize,
    pub env_file_exists_nanos: usize,
    pub env_get_children_nanos: usize,
    pub env_get_children_file_attributes_nanos: usize,
    pub env_delete_file_nanos: usize,
    pub env_create_dir_nanos: usize,
    pub env_create_dir_if_missing_nanos: usize,
    pub env_delete_dir_nanos: usize,
    pub env_get_file_size_nanos: usize,
    pub env_get_file_modification_time_nanos: usize,
    pub env_rename_file_nanos: usize,
    pub env_link_file_nanos: usize,
    pub env_lock_file_nanos: usize,
    pub env_unlock_file_nanos: usize,
    pub env_new_logger_nanos: usize,
}

impl PerfStatisticsFields {
    /// Every counter of `self` is at most the same counter of `other`.
    pub open spec fn spec_le(&self, other: &PerfStatisticsFields) -> bool {
        &&& self.user_key_comparison_count <= other.user_key_comparison_count
        &&& self.block_cache_hit_count <= other.block_cache_hit_count
        &&& self.block_read_count <= other.block_read_count
        &&& self.block_read_byte <= other.block_read_byte
        &&& self.block_read_time <= other.block_read_time
        &&& self.block_checksum_time <= other.block_checksum_time
        &&& self.block_decompress_time <= other.block_decompress_time
        &&& self.get_read_bytes <= other.get_read_bytes
        &&& self.multiget_read_bytes <= other.multiget_read_bytes
        &&& self.iter_read_bytes <= other.iter_read_bytes
        &&& self.internal_key_skipped_count <= other.internal_key_skipped_count
        &&& self.internal_delete_skipped_count <= other.internal_delete_skipped_count
        &&& self.internal_recent_skipped_count <= other.internal_recent_skipped_count
        &&& self.internal_merge_count <= other.internal_merge_count
        &&& self.get_snapshot_time <= other.get_snapshot_time
        &&& self.get_from_memtable_time <= other.get_from_memtable_time
        &&& self.get_from_memtable_count <= other.get_from_memtable_count
        &&& self.get_post_process_time <= other.get_post_process_time
        &&& self.get_from_output_files_time <= other.get_from_output_files_time
        &&& self.seek_on_memtable_time <= other.seek_on_memtable_time
        &&& self.seek_on_memtable_count <= other.seek_on_memtable_count
        &&& self.next_on_memtable_count <= other.next_on_memtable_count
        &&& self.prev_on_memtable_count <= other.prev_on_memtable_count
        &&& self.seek_child_seek_time <= other.seek_child_seek_time
        &&& self.seek_child_seek_count <= other.seek_child_seek_count
        &&& self.seek_min_heap_time <= other.seek_min_heap_time
        &&& self.seek_max_heap_time <= other.seek_max_heap_time
        &&& self.seek_internal_seek_time <= other.seek_internal_seek_time
        &&& self.find_next_user_entry_time <= other.find_next_user_entry_time
        &&& self.write_wal_time <= other.write_wal_time
        &&& self.write_memtable_time <= other.write_memtable_time
        &&& self.write_delay_time <= other.write_delay_time
        &&& self.write_pre_and_post_process_time <= other.write_pre_and_post_process_time
        &&& self.db_mutex_lock_nanos <= other.db_mutex_lock_nanos
        &&& self.db_condition_wait_nanos <= other.db_condition_wait_nanos
        &&& self.merge_operator_time_nanos <= other.merge_operator_time_nanos
        &&& self.read_index_block_nanos <= other.read_index_block_nanos
        &&& self.read_filter_block_nanos <= other.read_filter_block_nanos
        &&& self.new_table_block_iter_nanos <= other.new_table_block_iter_nanos
        &&& self.new_table_iterator_nanos <= other.new_table_iterator_nanos
        &&& self.block_seek_nanos <= other.block_seek_nanos
        &&& self.find_table_nanos <= other.find_table_nanos
        &&& self.bloom_memtable_hit_count <= other.bloom_memtable_hit_count
        &&& self.bloom_memtable_miss_count <= other.bloom_memtable_miss_count
        &&& self.bloom_sst_hit_count <= other.bloom_sst_hit_count
        &&& self.bloom_sst_miss_count <= other.bloom_sst_miss_count
        &&& self.env_new_sequential_file_nanos <= other.env_new_sequential_file_nanos
        &&& self.env_new_random_access_file_nanos <= other.env_new_random_access_file_nanos
        &&& self.env_new_writable_file_nanos <= other.env_new_writable_file_nanos
        &&& self.env_reuse_writable_file_nanos <= other.env_reuse_writable_file_nanos
        &&& self.env_new_random_rw_file_nanos <= other.env_new_random_rw_file_nanos
        &&& self.env_new_directory_nanos <= other.env_new_directory_nanos
        &&& self.env_file_exists_nanos <= other.env_file_exists_nanos
        &&& self.env_get_children_nanos <= other.env_get_children_nanos
        &&& self.env_get_children_file_attributes_nanos <= other.env_get_children_file_attributes_nanos
        &&& self.env_delete_file_nanos <= other.env_delete_file_nanos
        &&& self.env_create_dir_nanos <= other.env_create_dir_nanos
        &&& self.env_create_dir_if_missing_nanos <= other.env_create_dir_if_missing_nanos
        &&& self.env_delete_dir_nanos <= other.env_delete_dir_nanos
        &&& self.env_get_file_size_nanos <= other.env_get_file_size_nanos
        &&& self.env_get_file_modification_time_nanos <= other.env_get_file_modification_time_nanos
        &&& self.env_rename_file_nanos <= other.env_rename_file_nanos
        &&& self.env_link_file_nanos <= other.env_link_file_nanos
        &&& self.env_lock_file_nanos <= other.env_lock_file_nanos
        &&& self.env_unlock_file_nanos <= other.env_unlock_file_nanos
        &&& self.env_new_logger_nanos <= other.env_new_logger_nanos
    }

    /// The counter-by-counter difference `self - other`.
    pub open spec fn spec_sub(&self, other: &PerfStatisticsFields) -> PerfStatisticsFields {
        PerfStatisticsFields {
            user_key_comparison_count: (self.user_key_comparison_count - other.user_key_comparison_count) as usize,
            block_cache_hit_count: (self.block_cache_hit_count - other.block_cache_hit_count) as usize,
            block_read_count: (self.block_read_count - other.block_read_count) as usize,
            block_read_byte: (self.block_read_byte - other.block_read_byte) as usize,
            block_read_time: (self.block_read_time - other.block_read_time) as usize,
            block_checksum_time: (self.block_checksum_time - other.block_checksum_time) as usize,
            block_decompress_time: (self.block_decompress_time - other.block_decompress_time) as usize,
            get_read_bytes: (self.get_read_bytes - other.get_read_bytes) as usize,
            multiget_read_bytes: (self.multiget_read_bytes - other.multiget_read_bytes) as usize,
            iter_read_bytes: (self.iter_read_bytes - other.iter_read_bytes) as usize,
            internal_key_skipped_count: (self.internal_key_skipped_count - other.internal_key_skipped_count) as usize,
            internal_delete_skipped_count: (self.internal_delete_skipped_count - other.internal_delete_skipped_count) as usize,
            internal_recent_skipped_count: (self.internal_recent_skipped_count - other.internal_recent_skipped_count) as usize,
            internal_merge_count: (self.internal_merge_count - other.internal_merge_count) as usize,
            get_snapshot_time: (self.get_snapshot_time - other.get_snapshot_time) as usize,
            get_from_memtable_time: (self.get_from_memtable_time - other.get_from_memtable_time) as usize,
            get_from_memtable_count: (self.get_from_memtable_count - other.get_from_memtable_count) as usize,
            get_post_process_time: (self.get_post_process_time - other.get_post_process_time) as usize,
            get_from_output_files_time: (self.get_from_output_files_time - other.get_from_output_files_time) as usize,
            seek_on_memtable_time: (self.seek_on_memtable_time - other.seek_on_memtable_time) as usize,
            seek_on_memtable_count: (self.seek_on_memtable_count - other.seek_on_memtable_count) as usize,
            next_on_memtable_count: (self.next_on_memtable_count - other.next_on_memtable_count) as usize,
            prev_on_memtable_count: (self.prev_on_memtable_count - other.prev_on_memtable_count) as usize,
            seek_child_seek_time: (self.seek_child_seek_time - other.seek_child_seek_time) as usize,
            seek_child_seek_count: (self.seek_child_seek_count - other.seek_child_seek_count) as usize,
            seek_min_heap_time: (self.seek_min_heap_time - other.seek_min_heap_time) as usize,
            seek_max_heap_time: (self.seek_max_heap_time - other.seek_max_heap_time) as usize,
            seek_internal_seek_time: (self.seek_internal_seek_time - other.seek_internal_seek_time) as usize,
            find_next_user_entry_time: (self.find_next_user_entry_time - other.find_next_user_entry_time) as usize,
            write_wal_time: (self.write_wal_time - other.write_wal_time) as usize,
            write_memtable_time: (self.write_memtable_time - other.write_memtable_time) as usize,
            write_delay_time: (self.write_delay_time - other.write_delay_time) as usize,
            write_pre_and_post_process_time: (self.write_pre_and_post_process_time - other.write_pre_and_post_process_time) as usize,
            db_mutex_lock_nanos: (self.db_mutex_lock_nanos - other.db_mutex_lock_nanos) as usize,
            db_condition_wait_nanos: (self.db_condition_wait_nanos - other.db_condition_wait_nanos) as usize,
            merge_operator_time_nanos: (self.merge_operator_time_nanos - other.merge_operator_time_nanos) as usize,
            read_index_block_nanos: (self.read_index_block_nanos - other.read_index_block_nanos) as usize,
            read_filter_block_nanos: (self.read_filter_block_nanos - other.read_filter_block_nanos) as usize,
            new_table_block_iter_nanos: (self.new_table_block_iter_nanos - other.new_table_block_iter_nanos) as usize,
            new_table_iterator_nanos: (self.new_table_iterator_nanos - other.new_table_iterator_nanos) as usize,
            block_seek_nanos: (self.block_seek_nanos - other.block_seek_nanos) as usize,
            find_table_nanos: (self.find_table_nanos - other.find_table_nanos) as usize,
            bloom_memtable_hit_count: (self.bloom_memtable_hit_count - other.bloom_memtable_hit_count) as usize,
            bloom_memtable_miss_count: (self.bloom_memtable_miss_count - other.bloom_memtable_miss_count) as usize,
            bloom_sst_hit_count: (self.bloom_sst_hit_count - other.bloom_sst_hit_count) as usize,
            bloom_sst_miss_count: (self.bloom_sst_miss_count - other.bloom_sst_miss_count) as usize,
            env_new_sequential_file_nanos: (self.env_new_sequential_file_nanos - other.env_new_sequential_file_nanos) as usize,
            env_new_random_access_file_nanos: (self.env_new_random_access_file_nanos - other.env_new_random_access_file_nanos) as usize,
            env_new_writable_file_nanos: (self.env_new_writable_file_nanos - other.env_new_writable_file_nanos) as usize,
            env_reuse_writable_file_nanos: (self.env_reuse_writable_file_nanos - other.env_reuse_writable_file_nanos) as usize,
            env_new_random_rw_file_nanos: (self.env_new_random_rw_file_nanos - other.env_new_random_rw_file_nanos) as usize,
            env_new_directory_nanos: (self.env_new_directory_nanos - other.env_new_directory_nanos) as usize,
            env_file_exists_nanos: (self.env_file_exists_nanos - other.env_file_exists_nanos) as usize,
            env_get_children_nanos: (self.env_get_children_nanos - other.env_get_children_nanos) as usize,
            env_get_children_file_attributes_nanos: (self.env_get_children_file_attributes_nanos - other.env_get_children_file_attributes_nanos) as usize,
            env_delete_file_nanos: (self.env_delete_file_nanos - other.env_delete_file_nanos) as usize,
            env_create_dir_nanos: (self.env_create_dir_nanos - other.env_create_dir_nanos) as usize,
            env_create_dir_if_missing_nanos: (self.env_create_dir_if_missing_nanos - other.env_create_dir_if_missing_nanos) as usize,
            env_delete_dir_nanos: (self.env_delete_dir_nanos - other.env_delete_dir_nanos) as usize,
            env_get_file_size_nanos: (self.env_get_file_size_nanos - other.env_get_file_size_nanos) as usize,
            env_get_file_modification_time_nanos: (self.env_get_file_modification_time_nanos - other.env_get_file_modification_time_nanos) as usize,
            env_rename_file_nanos: (self.env_rename_file_nanos - other.env_rename_file_nanos) as usize,
            env_link_file_nanos: (self.env_link_file_nanos - other.env_link_file_nanos) as usize,
            env_lock_file_nanos: (self.env_lock_file_nanos - other.env_lock_file_nanos) as usize,
            env_unlock_file_nanos: (self.env_unlock_file_nanos - other.env_unlock_file_nanos) as usize,
            env_new_logger_nanos: (self.env_new_logger_nanos - other.env_new_logger_nanos) as usize,
        }
    }

    /// Whether every counter of `self` is at most the same counter of `other`.
    pub fn le(&self, other: &PerfStatisticsFields) -> (r: bool)
        ensures
            r == self.spec_le(other),
    {
        self.user_key_comparison_count <= other.user_key_comparison_count
            && self.block_cache_hit_count <= other.block_cache_hit_count
            && self.block_read_count <= other.block_read_count
            && self.block_read_byte <= other.block_read_byte
            && self.block_read_time <= other.block_read_time
            && self.block_checksum_time <= other.block_checksum_time
            && self.block_decompress_time <= other.block_decompress_time
            && self.get_read_bytes <= other.get_read_bytes
            && self.multiget_read_bytes <= other.multiget_read_bytes
            && self.iter_read_bytes <= other.iter_read_bytes
            && self.internal_key_skipped_count <= other.internal_key_skipped_count
            && self.internal_delete_skipped_count <= other.internal_delete_skipped_count
            && self.internal_recent_skipped_count <= other.internal_recent_skipped_count
            && self.internal_merge_count <= other.internal_merge_count
            && self.get_snapshot_time <= other.get_snapshot_time
            && self.get_from_memtable_time <= other.get_from_memtable_time
            && self.get_from_memtable_count <= other.get_from_memtable_count
            && self.get_post_process_time <= other.get_post_process_time
            && self.get_from_output_files_time <= other.get_from_output_files_time
            && self.seek_on_memtable_time <= other.seek_on_memtable_time
            && self.seek_on_memtable_count <= other.seek_on_memtable_count
            && self.next_on_memtable_count <= other.next_on_memtable_count
            && self.prev_on_memtable_count <= other.prev_on_memtable_count
            && self.seek_child_seek_time <= other.seek_child_seek_time
            && self.seek_child_seek_count <= other.seek_child_seek_count
            && self.seek_min_heap_time <= other.seek_min_heap_time
            && self.seek_max_heap_time <= other.seek_max_heap_time
            && self.seek_internal_seek_time <= other.seek_internal_seek_time
            && self.find_next_user_entry_time <= other.find_next_user_entry_time
            && self.write_wal_time <= other.write_wal_time
            && self.write_memtable_time <= other.write_memtable_time
            && self.write_delay_time <= other.write_delay_time
            && self.write_pre_and_post_process_time <= other.write_pre_and_post_process_time
            && self.db_mutex_lock_nanos <= other.db_mutex_lock_nanos
            && self.db_condition_wait_nanos <= other.db_condition_wait_nanos
            && self.merge_operator_time_nanos <= other.merge_operator_time_nanos
            && self.read_index_block_nanos <= other.read_index_block_nanos
            && self.read_filter_block_nanos <= other.read_filter_block_nanos
            && self.new_table_block_iter_nanos <= other.new_table_block_iter_nanos
            && self.new_table_iterator_nanos <= other.new_table_iterator_nanos
            && self.block_seek_nanos <= other.block_seek_nanos
            && self.find_table_nanos <= other.find_table_nanos
            && self.bloom_memtable_hit_count <= other.bloom_memtable_hit_count
            && self.bloom_memtable_miss_count <= other.bloom_memtable_miss_count
            && self.bloom_sst_hit_count <= other.bloom_sst_hit_count
            && self.bloom_sst_miss_count <= other.bloom_sst_miss_count
            && self.env_new_sequential_file_nanos <= other.env_new_sequential_file_nanos
            && self.env_new_random_access_file_nanos <= other.env_new_random_access_file_nanos
            && self.env_new_writable_file_nanos <= other.env_new_writable_file_nanos
            && self.env_reuse_writable_file_nanos <= other.env_reuse_writable_file_nanos
            && self.env_new_random_rw_file_nanos <= other.env_new_random_rw_file_nanos
            && self.env_new_directory_nanos <= other.env_new_directory_nanos
            && self.env_file_exists_nanos <= other.env_file_exists_nanos
            && self.env_get_children_nanos <= other.env_get_children_nanos
            && self.env_get_children_file_attributes_nanos <= other.env_get_children_file_attributes_nanos
            && self.env_delete_file_nanos <= other.env_delete_file_nanos
            && self.env_create_dir_nanos <= other.env_create_dir_nanos
            && self.env_create_dir_if_missing_nanos <= other.env_create_dir_if_missing_nanos
            && self.env_delete_dir_nanos <= other.env_delete_dir_nanos
            && self.env_get_file_size_nanos <= other.env_get_file_size_nanos
            && self.env_get_file_modification_time_nanos <= other.env_get_file_modification_time_nanos
            && self.env_rename_file_nanos <= other.env_rename_file_nanos
            && self.env_link_file_nanos <= other.env_link_file_nanos
            && self.env_lock_file_nanos <= other.env_lock_file_nanos
            && self.env_unlock_file_nanos <= other.env_unlock_file_nanos
            && self.env_new_logger_nanos <= other.env_new_logger_nanos
    }

    /// The counter-by-counter difference `self - other`.
    pub fn sub(&self, other: &PerfStatisticsFields) -> (r: PerfStatisticsFields)
        requires
            other.spec_le(self),
        ensures
            r == self.spec_sub(other),
    {
        PerfStatisticsFields {
            user_key_comparison_count: self.user_key_comparison_count - other.user_key_comparison_count,
            block_cache_hit_count: self.block_cache_hit_count - other.block_cache_hit_count,
            block_read_count: self.block_read_count - other.block_read_count,
            block_read_byte: self.block_read_byte - other.block_read_byte,
            block_read_time: self.block_read_time - other.block_read_time,
            block_checksum_time: self.block_checksum_time - other.block_checksum_time,
            block_decompress_time: self.block_decompress_time - other.block_decompress_time,
            get_read_bytes: self.get_read_bytes - other.get_read_bytes,
            multiget_read_bytes: self.multiget_read_bytes - other.multiget_read_bytes,
            iter_read_bytes: self.iter_read_bytes - other.iter_read_bytes,
            internal_key_skipped_count: self.internal_key_skipped_count - other.internal_key_skipped_count,
            internal_delete_skipped_count: self.internal_delete_skipped_count - other.internal_delete_skipped_count,
            internal_recent_skipped_count: self.internal_recent_skipped_count - other.internal_recent_skipped_count,
            internal_merge_count: self.internal_merge_count - other.internal_merge_count,
            get_snapshot_time: self.get_snapshot_time - other.get_snapshot_time,
            get_from_memtable_time: self.get_from_memtable_time - other.get_from_memtable_time,
            get_from_memtable_count: self.get_from_memtable_count - other.get_from_memtable_count,
            get_post_process_time: self.get_post_process_time - other.get_post_process_time,
            get_from_output_files_time: self.get_from_output_files_time - other.get_from_output_files_time,
            seek_on_memtable_time: self.seek_on_memtable_time - other.seek_on_memtable_time,
            seek_on_memtable_count: self.seek_on_memtable_count - other.seek_on_memtable_count,
            next_on_memtable_count: self.next_on_memtable_count - other.next_on_memtable_count,
            prev_on_memtable_count: self.prev_on_memtable_count - other.prev_on_memtable_count,
            seek_child_seek_time: self.seek_child_seek_time - other.seek_child_seek_time,
            seek_child_seek_count: self.seek_child_seek_count - other.seek_child_seek_count,
            seek_min_heap_time: self.seek_min_heap_time - other.seek_min_heap_time,
            seek_max_heap_time: self.seek_max_heap_time - other.seek_max_heap_time,
            seek_internal_seek_time: self.seek_internal_seek_time - other.seek_internal_seek_time,
            find_next_user_entry_time: self.find_next_user_entry_time - other.find_next_user_entry_time,
            write_wal_time: self.write_wal_time - other.write_wal_time,
            write_memtable_time: self.write_memtable_time - other.write_memtable_time,
            write_delay_time: self.write_delay_time - other.write_delay_time,
            write_pre_and_post_process_time: self.write_pre_and_post_process_time - other.write_pre_and_post_process_time,
            db_mutex_lock_nanos: self.db_mutex_lock_nanos - other.db_mutex_lock_nanos,
            db_condition_wait_nanos: self.db_condition_wait_nanos - other.db_condition_wait_nanos,
            merge_operator_time_nanos: self.merge_operator_time_nanos - other.merge_operator_time_nanos,
            read_index_block_nanos: self.read_index_block_nanos - other.read_index_block_nanos,
            read_filter_block_nanos: self.read_filter_block_nanos - other.read_filter_block_nanos,
            new_table_block_iter_nanos: self.new_table_block_iter_nanos - other.new_table_block_iter_nanos,
            new_table_iterator_nanos: self.new_table_iterator_nanos - other.new_table_iterator_nanos,
            block_seek_nanos: self.block_seek_nanos - other.block_seek_nanos,
            find_table_nanos: self.find_table_nanos - other.find_table_nanos,
            bloom_memtable_hit_count: self.bloom_memtable_hit_count - other.bloom_memtable_hit_count,
            bloom_memtable_miss_count: self.bloom_memtable_miss_count - other.bloom_memtable_miss_count,
            bloom_sst_hit_count: self.bloom_sst_hit_count - other.bloom_sst_hit_count,
            bloom_sst_miss_count: self.bloom_sst_miss_count - other.bloom_sst_miss_count,
            env_new_sequential_file_nanos: self.env_new_sequential_file_nanos - other.env_new_sequential_file_nanos,
            env_new_random_access_file_nanos: self.env_new_random_access_file_nanos - other.env_new_random_access_file_nanos,
            env_new_writable_file_nanos: self.env_new_writable_file_nanos - other.env_new_writable_file_nanos,
            env_reuse_writable_file_nanos: self.env_reuse_writable_file_nanos - other.env_reuse_writable_file_nanos,
            env_new_random_rw_file_nanos: self.env_new_random_rw_file_nanos - other.env_new_random_rw_file_nanos,
            env_new_directory_nanos: self.env_new_directory_nanos - other.env_new_directory_nanos,
            env_file_exists_nanos: self.env_file_exists_nanos - other.env_file_exists_nanos,
            env_get_children_nanos: self.env_get_children_nanos - other.env_get_children_nanos,
            env_get_children_file_attributes_nanos: self.env_get_children_file_attributes_nanos - other.env_get_children_file_attributes_nanos,
            env_delete_file_nanos: self.env_delete_file_nanos - other.env_delete_file_nanos,
            env_create_dir_nanos: self.env_create_dir_nanos - other.env_create_dir_nanos,
            env_create_dir_if_missing_nanos: self.env_create_dir_if_missing_nanos - other.env_create_dir_if_missing_nanos,
            env_delete_dir_nanos: self.env_delete_dir_nanos - other.env_delete_dir_nanos,
            env_get_file_size_nanos: self.env_get_file_size_nanos - other.env_get_file_size_nanos,
            env_get_file_modification_time_nanos: self.env_get_file_modification_time_nanos - other.env_get_file_modification_time_nanos,
            env_rename_file_nanos: self.env_rename_file_nanos - other.env_rename_file_nanos,
            env_link_file_nanos: self.env_link_file_nanos - other.env_link_file_nanos,
            env_lock_file_nanos: self.env_lock_file_nanos - other.env_lock_file_nanos,
            env_unlock_file_nanos: self.env_unlock_file_nanos - other.env_unlock_file_nanos,
            env_new_logger_nanos: self.env_new_logger_nanos - other.env_new_logger_nanos,
        }
    }
}

/// Counters as read at one moment.
#[derive(Debug, Clone, Copy)]
pub struct PerfStatisticsInstant(pub PerfStatisticsFields);

/// Counters accumulated between two moments.
#[derive(Default, Debug, Clone, Copy)]
pub struct PerfStatisticsDelta(pub PerfStatisticsFields);

impl PerfStatisticsInstant {
    /// What the counters grew by from this reading to the later reading
    /// `now`; counters only grow between two readings on one thread.
    pub fn delta(&self, now: &PerfStatisticsInstant) -> (r: PerfStatisticsDelta)
        requires
            self.0.spec_le(&now.0),
        ensures
            r.0 == now.0.spec_sub(&self.0),
    {
        PerfStatisticsDelta(now.0.sub(&self.0))
    }
}

} // verus!
