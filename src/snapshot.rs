//! Addresses of the archive service and where each capture is saved.

use vstd::prelude::*;

verus! {

/// The archive's query endpoint, which lists the captures of a URL.
pub const INDEX_ENDPOINT: &'static str = "https://web.archive.org/cdx/search/cdx";

/// Seconds a single request may take before it is given up.
pub const REQUEST_TIMEOUT_SECS: u64 = 180;

/// Seconds to wait before each download, out of courtesy to the service.
pub const DOWNLOAD_DELAY_SECS: u64 = 10;

/// Directory that receives the captures when none is given.
pub const DEFAULT_OUTPUT_DIR: &'static str = "waybackmachine_data";

/// Position of the capture's timestamp within an index record.
pub const TIMESTAMP_FIELD: usize = 2;

/// Position of the captured page's original URL within an index record.
pub const ORIGINAL_URL_FIELD: usize = 3;

/// The query that asks the index for every distinct capture under `target`.
pub open spec fn index_request_url_of(target: Seq<char>) -> Seq<char> {
    INDEX_ENDPOINT@ + "?url="@ + target + "&output=json&collapse=digest&matchType=prefix"@
}

/// The address at which the archive plays back the capture taken at `timestamp`.
pub open spec fn playback_url_of(timestamp: Seq<char>, original_url: Seq<char>) -> Seq<char> {
    "https://web.archive.org/web/"@ + timestamp + "/"@ + original_url
}

/// The name of the file that holds the capture taken at `timestamp`.
pub open spec fn file_name_of(timestamp: Seq<char>) -> Seq<char> {
    timestamp + ".html"@
}

/// Where, under `output_dir`, the capture taken at `timestamp` is saved.
pub open spec fn save_path_of(output_dir: Seq<char>, timestamp: Seq<char>) -> Seq<char> {
    output_dir + "/"@ + file_name_of(timestamp)
}

/// Builds the index query for `target`.
pub fn index_request_url(target: &str) -> (r: String)
    ensures
        r@ == index_request_url_of(target@),
{
    let mut r = String::from_str(INDEX_ENDPOINT);
    r.append("?url=");
    r.append(target);
    r.append("&output=json&collapse=digest&matchType=prefix");
    r
}

/// Builds the playback address of the capture taken at `timestamp` of `original_url`.
pub fn playback_url(timestamp: &str, original_url: &str) -> (r: String)
    ensures
        r@ == playback_url_of(timestamp@, original_url@),
{
    let mut r = String::from_str("https://web.archive.org/web/");
    r.append(timestamp);
    r.append("/");
    r.append(original_url);
    r
}

/// Builds the file name of the capture taken at `timestamp`.
pub fn snapshot_file_name(timestamp: &str) -> (r: String)
    ensures
        r@ == file_name_of(timestamp@),
{
    let mut r = String::from_str(timestamp);
    r.append(".html");
    r
}

/// Builds the path under `output_dir` of the capture taken at `timestamp`.
pub fn save_path(output_dir: &str, timestamp: &str) -> (r: String)
    ensures
        r@ == save_path_of(output_dir@, timestamp@),
{
    let name = snapshot_file_name(timestamp);
    let mut r = String::from_str(output_dir);
    r.append("/");
    r.append(name.as_str());
    proof {
        assert(r@ =~= output_dir@ + "/"@ + file_name_of(timestamp@));
    }
    r
}

} // verus!
