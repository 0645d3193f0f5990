//! Fetching one release: where to ask for it, how far the download has
//! come, and whether what arrived may stay.

use vstd::prelude::*;
use vstd::string::{StrSliceExecFns, StringExecFns};
use crate::catalog::{Release, ReleaseView};

verus! {

/// Why a downloaded archive was thrown away.
#[derive(Debug)]
pub enum AcquireError {
    /// The archive does not have the checksum that the release declares.
    IntegrityMismatch { expected: String, actual: String },
    /// The file cannot be opened as an archive.
    CorruptArchive,
}

/// An acquisition error as contracts speak of it.
pub enum AcquireErrorView {
    IntegrityMismatch { expected: Seq<char>, actual: Seq<char> },
    CorruptArchive,
}

impl View for AcquireError {
    type V = AcquireErrorView;

    open spec fn view(&self) -> AcquireErrorView {
        match self {
            AcquireError::IntegrityMismatch {
                expected,
                actual,
            } => AcquireErrorView::IntegrityMismatch { expected: expected@, actual: actual@ },
            AcquireError::CorruptArchive => AcquireErrorView::CorruptArchive,
        }
    }
}

/// The address from which the release `release` is downloaded by the
/// user `username` with the token `token`.
pub open spec fn authenticated_url(release: ReleaseView, username: Seq<char>, token: Seq<char>) -> Seq<
    char,
> {
    "https://mods.factorio.com"@ + release.download_url + "?username="@ + username + "&token="@
        + token
}

/// The address from which the release `release` is downloaded by the
/// user `username` with the token `token`.
pub fn download_url(release: &Release, username: &str, token: &str) -> (r: String)
    ensures
        r@ == authenticated_url(release@, username@, token@),
{
    let mut out = String::from_str("https://mods.factorio.com");
    out.append(release.download_url.as_str());
    out.append("?username=");
    out.append(username);
    out.append("&token=");
    out.append(token);
    assert(out@ =~= authenticated_url(release@, username@, token@));
    out
}

/// The file that the release `release` is written to in the directory
/// `dir`.
pub fn destination_path(release: &Release, dir: &str) -> (r: String)
    ensures
        r@ == dir@ + seq!['/'] + release@.file_name,
{
    proof {
        reveal_strlit("/");
    }
    let mut out = String::from_str(dir);
    out.append("/");
    out.append(release.file_name.as_str());
    assert(out@ =~= dir@ + seq!['/'] + release@.file_name);
    out
}

/// How far a download has come.
#[derive(Clone, Copy, Debug, PartialEq, Eq, Structural)]
pub struct DownloadProgress {
    /// The bytes that have arrived, never more than `total`.
    pub downloaded: u64,
    /// The bytes that are to arrive.
    pub total: u64,
}

/// The part of `total` that `downloaded` is, in hundredths, rounded
/// down. Nothing of nothing counts as zero.
pub open spec fn percent_of(downloaded: nat, total: nat) -> nat {
    if total == 0 {
        0
    } else {
        downloaded * 100 / total
    }
}

/// The smaller of two numbers.
pub open spec fn smaller(a: int, b: int) -> int {
    if a <= b {
        a
    } else {
        b
    }
}

impl DownloadProgress {
    /// Whether no more has arrived than is to arrive.
    pub open spec fn wf(self) -> bool {
        self.downloaded <= self.total
    }

    /// The start of a download of `content_length` bytes. Where the
    /// length is not known, one byte is expected.
    pub fn new(content_length: Option<u64>) -> (r: DownloadProgress)
        ensures
            r.wf(),
            r.downloaded == 0,
            r.total == (match content_length {
                Some(n) => n,
                None => 1,
            }),
    {
        let total = match content_length {
            Some(n) => n,
            None => 1,
        };
        DownloadProgress { downloaded: 0, total }
    }

    /// The part that has arrived, in hundredths.
    pub fn percent(&self) -> (r: u16)
        requires
            self.wf(),
        ensures
            r == percent_of(self.downloaded as nat, self.total as nat),
            r <= 100,
    {
        if self.total == 0 {
            0
        } else {
            let scaled: u128 = (self.downloaded as u128) * 100;
            let total: u128 = self.total as u128;
            let p: u128 = scaled / total;
            assert(p <= 100) by (nonlinear_arith)
                requires
                    p == scaled / total,
                    scaled <= total * 100,
                    total > 0,
            ;
            p as u16
        }
    }

    /// Takes note of `chunk` more bytes and says how far the download has
    /// come, in hundredths. What arrives beyond the expected length is
    /// not counted.
    pub fn advance(&mut self, chunk: usize) -> (r: u16)
        requires
            old(self).wf(),
        ensures
            final(self).wf(),
            final(self).total == old(self).total,
            final(self).downloaded == smaller(old(self).downloaded + chunk, old(self).total as int),
            r == percent_of(final(self).downloaded as nat, final(self).total as nat),
            r <= 100,
    {
        let room: u64 = self.total - self.downloaded;
        if (chunk as u128) >= (room as u128) {
            self.downloaded = self.total;
        } else {
            self.downloaded = self.downloaded + (chunk as u64);
        }
        self.percent()
    }
}

/// A download never reports less after more has arrived.
pub proof fn lemma_percent_monotonic(a: nat, b: nat, total: nat)
    requires
        a <= b,
    ensures
        percent_of(a, total) <= percent_of(b, total),
{
    if total > 0 {
        assert(a * 100 / total <= b * 100 / total) by (nonlinear_arith)
            requires
                a <= b,
                total > 0,
        ;
    }
}

/// A download that has all its bytes reports one hundred.
pub proof fn lemma_percent_complete(total: nat)
    requires
        total > 0,
    ensures
        percent_of(total, total) == 100,
{
    assert(total * 100 / total == 100) by (nonlinear_arith)
        requires
            total > 0,
    ;
}

/// Whether the release `release` declares a checksum that a download
/// must have.
pub fn declares_checksum(release: &Release) -> (r: bool)
    ensures
        r == (release@.sha1.len() > 0),
{
    release.sha1.as_str().unicode_len() > 0
}

/// What is found of a downloaded file: its checksum, and whether it opens
/// as an archive.
pub open spec fn judgement(expected: Seq<char>, actual: Seq<char>, opens: bool) -> Result<
    (),
    AcquireErrorView,
> {
    if expected.len() > 0 && actual != expected {
        Err(AcquireErrorView::IntegrityMismatch { expected, actual })
    } else if !opens {
        Err(AcquireErrorView::CorruptArchive)
    } else {
        Ok(())
    }
}

/// What a verdict is, as contracts speak of it.
pub open spec fn verdict_view(r: Result<(), AcquireError>) -> Result<(), AcquireErrorView> {
    match r {
        Ok(()) => Ok(()),
        Err(e) => Err(e@),
    }
}

/// Judges a downloaded file by the checksum `actual` that was computed of
/// it and by whether it `opens` as an archive. The file may stay only if
/// the verdict is `Ok`; on any error it has to be deleted.
///
/// A release that declares a checksum is held to it first; whether the
/// file opens as an archive is asked of every release.
pub fn verify_download(release: &Release, actual: &str, opens: bool) -> (r: Result<(), AcquireError>)
    ensures
        verdict_view(r) == judgement(release@.sha1, actual@, opens),
{
    let computed = String::from_str(actual);
    if declares_checksum(release) && computed != release.sha1 {
        Err(AcquireError::IntegrityMismatch { expected: release.sha1.clone(), actual: computed })
    } else if !opens {
        Err(AcquireError::CorruptArchive)
    } else {
        Ok(())
    }
}

/// A file that does not open as an archive is never kept, whatever its
/// checksum, and a file with the wrong checksum is never kept either.
pub proof fn lemma_only_verified_files_stay(expected: Seq<char>, actual: Seq<char>, opens: bool)
    ensures
        judgement(expected, actual, opens) is Ok <==> opens && (expected.len() == 0 || actual
            == expected),
{
}

} // verus!
