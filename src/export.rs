//! The export stage: compressing a chunk of SQL, and when to try its upload.
use vstd::prelude::*;
use vstd::string::StringSliceAdditionalSpecFns;

verus! {

/// Attempts to upload one chunk before it is given up.
pub const UPLOAD_ATTEMPTS: u32 = 4;

/// The gzip stream that flate2 writes for `data` at the default level.
pub uninterp spec fn gzip_of(data: Seq<u8>) -> Seq<u8>;

/// Relies on flate2's `GzEncoder` over a `Vec` at `Compression::default()`:
/// writing all of `data` and finishing gives the gzip stream, with a fixed
/// header, so it depends on `data` alone. Neither step fails: writing into a
/// `Vec` cannot, and a fresh encoder at the default level never asks for a
/// dictionary nor reaches a broken stream state, the only errors of its
/// deflate backend.
#[verifier::external_body]
fn gzip_bytes(data: &[u8]) -> (r: Option<Vec<u8>>)
    ensures
        r is Some,
        r matches Some(v) ==> v@ == gzip_of(data@),
{
    let mut encoder = flate2::write::GzEncoder::new(Vec::new(), flate2::Compression::default());
    match std::io::Write::write_all(&mut encoder, data) {
        Ok(()) => {},
        Err(_) => return None,
    }
    match encoder.finish() {
        Ok(v) => Some(v),
        Err(_) => None,
    }
}

/// The gzip-compressed UTF-8 bytes of `sql`, the body of one output file.
pub fn compress_sql(sql: &str) -> (r: Vec<u8>)
    ensures
        r@ == gzip_of(sql.spec_bytes()),
{
    match gzip_bytes(sql.as_bytes()) {
        Some(v) => v,
        None => Vec::new(),
    }
}

/// How to make one upload attempt: after what pause, and whether with a
/// newly built client rather than the existing connection pool.
#[derive(Debug, Clone, Copy, PartialEq, Eq)]
pub struct UploadAttempt {
    pub delay_millis: u64,
    pub fresh_client: bool,
}

/// The pause before attempt `n` (counting from 0): none for the first try and
/// the immediate retry, then five and twenty seconds.
pub open spec fn upload_delay(n: nat) -> u64 {
    if n <= 1 {
        0
    } else if n == 2 {
        5000
    } else {
        20000
    }
}

/// Attempt `n` of an upload, or `None` once all attempts are spent. Every
/// attempt but the immediate retry builds a fresh client, since a pool whose
/// connections the store closed can block forever.
pub fn upload_attempt(n: u32) -> (r: Option<UploadAttempt>)
    ensures
        r is None <==> n >= UPLOAD_ATTEMPTS,
        r matches Some(a) ==> a.delay_millis == upload_delay(n as nat) && a.fresh_client == (n
            != 1),
{
    if n >= UPLOAD_ATTEMPTS {
        None
    } else if n <= 1 {
        Some(UploadAttempt { delay_millis: 0, fresh_client: n != 1 })
    } else if n == 2 {
        Some(UploadAttempt { delay_millis: 5000, fresh_client: true })
    } else {
        Some(UploadAttempt { delay_millis: 20000, fresh_client: true })
    }
}

} // verus!
