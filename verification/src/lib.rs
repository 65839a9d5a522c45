//! Wren's verified core: the text metrics of the transcription benchmark,
//! the silence trimming and pause compression of the speech detector, the
//! audio preprocessing, the worker protocol, the model catalog and its
//! download, and the decisions of the adapters (paste delivery, remote
//! provider, persistence).

pub mod domain;
pub mod ports;
pub mod text;
pub mod metrics;
pub mod alignment;
pub mod vad;
pub mod preprocess;
pub mod protocol;
pub mod models;
pub mod download;
pub mod textsink;
pub mod remote;
pub mod bench;
pub mod stores;
pub mod embedded;
