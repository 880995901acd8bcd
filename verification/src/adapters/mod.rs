pub mod provider;
pub mod parquet;
pub mod timestamps;
