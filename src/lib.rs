//! Ingestion of SMS/MMS backup documents: repair of split surrogate
//! character references, validation of the XML tree into a typed message
//! log, and the ASCII-only string escaping used when the log is written
//! out as JSON; also the contact directory and what an HTML transcript of
//! a conversation shows.

pub mod backup;
pub mod contacts;
pub mod formatter;
pub mod model;
pub mod render;
pub mod sanitize;
pub mod text;
pub mod tree;
pub mod xml;
