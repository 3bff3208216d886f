//! Integrity-checked downloads: the archive file is named after the URL's
//! final path segment, and is kept only when its digest equals the
//! fetched checksum — a corrupt file is removed before the failure is
//! surfaced.

use vstd::prelude::*;

use crate::errors::{SpecErr, YenError};
use crate::fsmodel::{Counters, FsModel, SpecCnt, SpecFs};
use crate::strutil::{last_segment_str, push_char, spec_last_segment, str_eq};

verus! {

/// The SHA-256 digest of a byte sequence, rendered as lowercase
/// hexadecimal; a function of the bytes alone.
pub uninterp spec fn sha256_hex(data: Seq<u8>) -> Seq<char>;

/// Relies on `sha256::digest`: the SHA-256 digest of the bytes, as 64
/// hexadecimal characters.
#[verifier::external_body]
pub(crate) fn compute_sha256(data: &Vec<u8>) -> (r: String)
    ensures
        r@ == sha256_hex(data@),
        r@.len() == 64,
{
    sha256::digest(data)
}

/// An ASCII whitespace character, as found at the end of a checksum file.
pub open spec fn is_ws(c: char) -> bool {
    c == ' ' || c == '\n' || c == '\r' || c == '\t'
}

/// `s` without its trailing whitespace.
pub open spec fn spec_trim_end(s: Seq<char>) -> Seq<char>
    decreases s.len(),
{
    if s.len() > 0 && is_ws(s.last()) {
        spec_trim_end(s.drop_last())
    } else {
        s
    }
}

/// Trimming cuts exactly at the last non-whitespace character.
proof fn lemma_trim_end_at(s: Seq<char>, e: int)
    requires
        0 <= e <= s.len(),
        forall|k: int| e <= k < s.len() ==> is_ws(#[trigger] s[k]),
        e > 0 ==> !is_ws(s[e - 1]),
    ensures
        spec_trim_end(s) == s.take(e),
    decreases s.len(),
{
    if s.len() > 0 && is_ws(s.last()) {
        assert(e < s.len());
        lemma_trim_end_at(s.drop_last(), e);
        assert(s.drop_last().take(e) =~= s.take(e));
    } else {
        assert(e == s.len());
        assert(s.take(e) =~= s);
    }
}

/// `s` without its trailing whitespace.
pub fn trim_end_str(s: &str) -> (r: String)
    ensures
        r@ == spec_trim_end(s@),
{
    let len = s.unicode_len();
    let mut e: usize = len;
    while e > 0 && (s.get_char(e - 1) == ' ' || s.get_char(e - 1) == '\n' || s.get_char(e - 1)
        == '\r' || s.get_char(e - 1) == '\t')
        invariant
            len == s@.len(),
            0 <= e <= len,
            forall|k: int| e <= k < len ==> is_ws(#[trigger] s@[k]),
        decreases e,
    {
        e = e - 1;
    }
    proof {
        lemma_trim_end_at(s@, e as int);
    }
    let cut = s.substring_char(0, e);
    proof {
        assert(s@.subrange(0, e as int) =~= s@.take(e as int));
    }
    cut.to_owned()
}

/// Does the downloaded data's digest equal the fetched checksum text,
/// once that text is stripped of trailing whitespace?
pub fn checksum_matches(data: &Vec<u8>, fetched: &str) -> (r: bool)
    ensures
        r == (sha256_hex(data@) == spec_trim_end(fetched@)),
{
    let digest = compute_sha256(data);
    let expected = trim_end_str(fetched);
    str_eq(digest.as_str(), expected.as_str())
}

/// What the network handed back for one archive download: the declared
/// content length (absent when the server reported none), the body bytes
/// received, and the checksum resource's text (absent when fetching it
/// failed).
pub struct DownloadOutcome {
    pub content_length: Option<u64>,
    pub body: Vec<u8>,
    pub checksum_fetch: Option<String>,
}

/// The download outcome as the specification sees it.
pub struct SpecDownloadOutcome {
    pub content_length: Option<u64>,
    pub body: Seq<u8>,
    pub checksum_fetch: Option<Seq<char>>,
}

impl View for DownloadOutcome {
    type V = SpecDownloadOutcome;

    open spec fn view(&self) -> SpecDownloadOutcome {
        SpecDownloadOutcome {
            content_length: self.content_length,
            body: self.body@,
            checksum_fetch: match &self.checksum_fetch {
                Some(t) => Some(t@),
                None => None,
            },
        }
    }
}

/// The file an archive from `url` is streamed into under `dest_dir`.
pub open spec fn spec_download_path(url: Seq<char>, dest_dir: Seq<char>) -> Seq<char> {
    dest_dir + seq!['/'] + spec_last_segment(url, '/')
}

/// What downloading does to the world. Without a declared content length
/// nothing is written. Otherwise the body is streamed to the target file
/// and one download is counted; a failed checksum fetch leaves the file;
/// a checksum disagreement removes it before failing.
pub open spec fn spec_download(
    fs: SpecFs,
    cnt: SpecCnt,
    url: Seq<char>,
    dest_dir: Seq<char>,
    out: SpecDownloadOutcome,
) -> (SpecFs, SpecCnt, Result<Seq<char>, SpecErr>) {
    let filepath = spec_download_path(url, dest_dir);
    if out.content_length is None {
        (fs, cnt, Err(SpecErr::MissingContentLength))
    } else {
        let fs1 = SpecFs { paths: fs.paths.insert(filepath), ..fs };
        let cnt1 = SpecCnt { downloads: cnt.downloads + 1, ..cnt };
        match out.checksum_fetch {
            None => (fs1, cnt1, Err(SpecErr::Network)),
            Some(expected) => {
                if sha256_hex(out.body) == spec_trim_end(expected) {
                    (fs1, cnt1, Ok(filepath))
                } else {
                    (SpecFs { paths: fs.paths.remove(filepath), ..fs }, cnt1, Err(
                        SpecErr::ChecksumMismatch,
                    ))
                }
            },
        }
    }
}

/// Streams one archive to disk and verifies it, as `spec_download` lays
/// out: the file is kept only when its digest equals the fetched
/// checksum; a corrupt file is removed before the failure is surfaced.
pub fn download(
    fs: &mut FsModel,
    eff: &mut Counters,
    url: &str,
    dest_dir: &str,
    outcome: &DownloadOutcome,
) -> (r: Result<String, YenError>)
    requires
        old(eff).can_count(),
    ensures
        ({
            let t = spec_download(old(fs)@, old(eff)@, url@, dest_dir@, outcome@);
            &&& final(fs)@ == t.0
            &&& final(eff)@ == t.1
            &&& match r {
                Ok(p) => t.2 == Ok::<Seq<char>, SpecErr>(p@),
                Err(e) => t.2 == Err::<Seq<char>, SpecErr>(e@),
            }
        }),
{
    let seg = last_segment_str(url, '/');
    let mut filepath = dest_dir.to_owned();
    push_char(&mut filepath, '/');
    filepath.append(seg.as_str());
    proof {
        assert(filepath@ =~= spec_download_path(url@, dest_dir@));
    }
    if outcome.content_length.is_none() {
        return Err(YenError::MissingContentLength);
    }
    fs.add_path(filepath.clone());
    eff.downloads = eff.downloads + 1;
    match &outcome.checksum_fetch {
        None => Err(YenError::Network),
        Some(expected) => {
            if checksum_matches(&outcome.body, expected.as_str()) {
                Ok(filepath)
            } else {
                fs.remove_path(filepath.as_str());
                proof {
                    assert(old(fs)@.paths.insert(filepath@).remove(filepath@) =~= old(
                        fs,
                    )@.paths.remove(filepath@));
                }
                Err(YenError::ChecksumMismatch)
            }
        },
    }
}

/// A checksum disagreement never leaves the downloaded file behind: the
/// download fails with the integrity error and the file does not exist
/// afterwards.
pub proof fn lemma_download_integrity(
    fs: SpecFs,
    cnt: SpecCnt,
    url: Seq<char>,
    dest_dir: Seq<char>,
    out: SpecDownloadOutcome,
)
    requires
        out.content_length is Some,
        out.checksum_fetch is Some,
        sha256_hex(out.body) != spec_trim_end(out.checksum_fetch->0),
    ensures
        spec_download(fs, cnt, url, dest_dir, out).2 == Err::<Seq<char>, SpecErr>(
            SpecErr::ChecksumMismatch,
        ),
        !spec_download(fs, cnt, url, dest_dir, out).0.paths.contains(
            spec_download_path(url, dest_dir),
        ),
{
}

} // verus!
