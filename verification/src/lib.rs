pub mod flume_view_sql;
pub mod frame;
pub mod offset_log;
