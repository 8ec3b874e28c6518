//! How the charts get their data: which requests are made, and what becomes of the replies.
pub mod client;
pub mod fetcher;
pub mod frame_laws;
pub mod frames;
pub mod network;
pub mod paging;
pub mod request_laws;
pub mod requests;
pub mod stream_laws;
