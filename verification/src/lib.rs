//! A collection of small verified libraries: text and string handling, HTTP
//! responses, a library lending system, log analysis, generic queues,
//! plugins, word counting, Markdown processing, configuration parsing,
//! power management, temperature buffers and statistics for a monitoring
//! device with its command and serial protocols, the decisions of its
//! firmware, and the rules of an image processing service.
pub mod text;

pub mod http;
pub mod seqs;
pub mod lending;
pub mod logs;
pub mod generics;
pub mod plugins;
pub mod word_count;
pub mod markdown;
pub mod config;
pub mod power;
pub mod fundamentals;
pub mod structs_enums;
pub mod ownership;
pub mod readings;
pub mod sensor;
pub mod monitor;
pub mod data_buffer;
pub mod imaging;
pub mod serial;
pub mod liquids;
pub mod firmware;
