//! Streaming search for delimited byte runs, and the small decisions of a
//! download watcher that shuts the machine down once a download is done.

pub mod pattern;
pub mod window;
pub mod scan;
pub mod stream;
pub mod naming;
pub mod laws;
pub mod watch;
