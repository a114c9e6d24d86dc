//! s3perf — building blocks of an S3 benchmarking tool: request planning,
//! configuration handling, object generation and result bookkeeping.
pub mod text;
pub mod num;
pub mod checksum;
pub mod tree;
pub mod protocol;
pub mod codec;
pub mod iceberg;
pub mod schema;
pub mod random;
pub mod generator;
pub mod config;
pub mod bench;
pub mod ops;
pub mod influx;
pub mod monitor;
pub mod workload;
pub mod tar;
pub mod dataset;
pub mod multipart;
pub mod upload;
pub mod runs;
pub mod autoterm;
pub mod segments;
pub mod grouping;
pub mod units;
pub mod pacing;
pub mod session;
pub mod archive;
pub mod datafile;
