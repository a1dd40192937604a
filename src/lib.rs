//! Per-application foreground usage tracking: a gap-tolerant in-memory
//! aggregator and a durable, range-queryable usage store.
mod aggregator;
mod platform;
mod stats;
mod storage;

pub use aggregator::{
    AppState, AppUsage, AppUsageView, CONTINUITY_TOLERANCE, Tick, advance, continues, credited,
    lemma_totals_never_decrease,
    lemma_continuous_samples_count_each_tick, lemma_gap_adds_nothing, names_unique, position_of,
    record_step, replay, views,
};
pub use platform::{
    Linux, LinuxMonitor, MacOS, MacOSMonitor, Windows, WindowsMonitor, image_name, last_component,
    lossy_text, process_name_from_image_buffer, process_name_from_image_path,
    process_name_from_ps_output, process_name_from_trimmed, strip_leading_nul, strip_trailing_nul,
    trim_white_space, trimmed, is_white_space, white_space, strip_leading_white_space,
    strip_trailing_white_space,
};
pub use stats::{
    AppUsageStats, AppUsageStatsView, DailyUsage, DayTotal, DayTotalView, app_names, day_views,
    days_of, duration_sum, group_by_app, group_by_application, insert_by_total,
    lemma_larger_total_first, lemma_lone_day_summarized, lemma_sort_by_total_orders,
    lemma_summary_names_occur, order_by_total, saturate, sort_by_total, sorted_by_total,
    stats_of, stats_views, summarize, summary_of,
};
pub use storage::{
    AppUsageRecord, DayRow, Storage, StorageError, UsageRange, UsageRow, day_of_row, day_totals,
    usage_row,
    days_of_rows, lemma_lone_row_round_trip, lemma_unknown_token_is_daily, query_of, range_of_token, rejects,
    row_accepted, rows_read, rfc3339_seconds, rfc3339_text, usage_stats_from_rows,
};
