//! The in-memory parts of fetching a dataset file: unpacking it, and keeping
//! count of a download.

use std::io::Read;
use vstd::prelude::*;

verus! {

/// What `flate2::read::GzDecoder` makes of the gzip stream `compressed`: the
/// bytes it unpacks to, or `None` where the decoder rejects the stream.
pub uninterp spec fn gunzip(compressed: Seq<u8>) -> Option<Seq<u8>>;

/// `std::io::Error`, handed on as the decoder gave it; nothing is claimed of
/// what it holds.
#[verifier::external_type_specification]
#[verifier::external_body]
pub struct ExIoError(std::io::Error);

/// Why a file could not be unpacked.
#[derive(Debug)]
pub struct DecompressError {
    /// What the decoder reported.
    pub source: std::io::Error,
}

/// Reads a `flate2::read::GzDecoder` over `compressed` to its end. Trusted,
/// not proved: what the decoder hands out, and whether it fails, depends on
/// the bytes it is given and on nothing else, so both are `gunzip` of those
/// bytes.
#[verifier::external_body]
fn inflate(compressed: &[u8]) -> (unpacked: Result<Vec<u8>, std::io::Error>)
    ensures
        match unpacked {
            Ok(bytes) => gunzip(compressed@) == Some(bytes@),
            Err(_) => gunzip(compressed@) is None,
        },
{
    let mut bytes: Vec<u8> = Vec::new();
    match flate2::read::GzDecoder::new(compressed).read_to_end(&mut bytes) {
        Ok(_) => Ok(bytes),
        Err(error) => Err(error),
    }
}

/// Unpacks the contents of a gzip file.
pub fn decompress_file(compressed: &[u8]) -> (unpacked: Result<Vec<u8>, DecompressError>)
    ensures
        match unpacked {
            Ok(bytes) => gunzip(compressed@) == Some(bytes@),
            Err(_) => gunzip(compressed@) is None,
        },
{
    match inflate(compressed) {
        Ok(bytes) => Ok(bytes),
        Err(source) => Err(DecompressError { source }),
    }
}

/// A report is due once more than this many bytes came in since the last one.
pub const REPORT_INTERVAL: usize = 1_000_000;

/// A download's count as a value: bytes received, and how many of them the
/// last report spoke of.
pub struct Progress {
    pub downloaded: nat,
    pub reported: nat,
}

impl Progress {
    /// Whether a report is due once `chunk_len` more bytes are in.
    pub open spec fn due(self, chunk_len: nat) -> bool {
        self.downloaded + chunk_len - self.reported > REPORT_INTERVAL
    }

    /// The count once `chunk_len` more bytes are in, and reported if due.
    pub open spec fn after(self, chunk_len: nat) -> Progress {
        Progress {
            downloaded: self.downloaded + chunk_len,
            reported: if self.due(chunk_len) {
                self.downloaded + chunk_len
            } else {
                self.reported
            },
        }
    }
}

/// Counts the bytes of a download and says when to report on it.
pub struct DownloadProgress {
    bytes_downloaded: usize,
    last_reported: usize,
}

impl View for DownloadProgress {
    type V = Progress;

    closed spec fn view(&self) -> Progress {
        Progress { downloaded: self.bytes_downloaded as nat, reported: self.last_reported as nat }
    }
}

impl DownloadProgress {
    /// No report speaks of more bytes than came in.
    #[verifier::type_invariant]
    spec fn reported_within(&self) -> bool {
        self.last_reported <= self.bytes_downloaded
    }

    /// The count before the first chunk.
    pub fn new() -> (progress: Self)
        ensures
            progress@ == (Progress { downloaded: 0, reported: 0 }),
    {
        Self { bytes_downloaded: 0, last_reported: 0 }
    }

    /// Bytes counted so far.
    pub fn bytes_downloaded(&self) -> (downloaded: usize)
        ensures
            downloaded == self@.downloaded,
            self@.reported <= downloaded,
    {
        proof {
            use_type_invariant(self);
        }
        self.bytes_downloaded
    }

    /// Counts a chunk of `chunk_len` bytes, and says whether to report now.
    pub fn record_chunk(&mut self, chunk_len: usize) -> (report: bool)
        requires
            old(self)@.downloaded + chunk_len <= usize::MAX,
        ensures
            report == old(self)@.due(chunk_len as nat),
            final(self)@ == old(self)@.after(chunk_len as nat),
    {
        proof {
            use_type_invariant(&*self);
        }
        self.bytes_downloaded += chunk_len;
        let since_last_report = self.bytes_downloaded - self.last_reported;
        let report = since_last_report > REPORT_INTERVAL;
        if report {
            self.last_reported = self.bytes_downloaded;
        }
        report
    }
}

} // verus!
