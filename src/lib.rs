//! Assembly of comic-book archives (ZIP containers of page images) out of
//! chapter directories: volume naming, natural page order, the image
//! extension filter, the archive's entry layout, the page counter, and the
//! checks that decide whether a volume is skipped, written and published.
pub mod archive;
pub mod naming;
pub mod natural;
pub mod scan;
pub mod transcode;
pub mod volume;
