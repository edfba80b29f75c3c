pub mod didl;
pub mod http;
pub mod ids;
pub mod remux;
pub mod request;
pub mod server;
pub mod ssdp;

pub use didl::{ResKind, cover_art_uri, didl_for_episode, mime_for};
pub use http::{
    Body, FileOpen, HttpResponse, RangePlan, browse_response, extract_tag, parse_range, plan_range,
    serve_bytes_response, serve_file_response, soap_envelope, soap_fault, split_didl_items,
};
pub use ids::{decode_id, encode_id, xml_escape};
pub use remux::{
    REMUX_CACHE_CAP_BYTES, REMUX_TIMEOUT_SECS, escape_filter_path, remux_path, should_mark_played,
};
pub use ssdp::DlnaServer;
