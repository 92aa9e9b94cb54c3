//! Accumulation of a source archive that arrives as a stream of chunks.
//!
//! The stream itself is driven by the caller; a `Downloader` receives each
//! chunk in order, counts the bytes for progress reporting, and hands out
//! the completed archive once the stream has ended.
use vstd::prelude::*;
use vstd::string::*;

verus! {

/// Base of the endpoint that serves a tag's source archive.
pub const DOWNLOAD_URL: &'static str = "https://api.github.com/repos/php/php-src/tarball/refs/tags/";

/// Capacity reserved up front for an archive: 12 MiB.
pub const MIN_TAR_SIZE: usize = 12582912;

/// Why no archive could be had.
#[derive(Debug, Clone, Copy, PartialEq, Eq, Structural)]
pub enum DownloadError {
    /// The archive's address could not be formed from the tag.
    InvalidUrl,
    /// No download has been completed.
    NoArchive,
}

/// The address that `url` text gives when joined to `base`, or `None` when
/// either does not parse.
pub uninterp spec fn joined_url(base: Seq<char>, input: Seq<char>) -> Option<Seq<char>>;

/// Relies on reqwest's `Url` (the url crate): `Url::parse` of `base`, then
/// `Url::join` of `input`; the serialisation of the result, or `None` when
/// either call fails.
#[verifier::external_body]
fn join_url(base: &str, input: &str) -> (r: Option<String>)
    ensures
        match r {
            Some(s) => joined_url(base@, input@) == Some(s@),
            None => joined_url(base@, input@) is None,
        },
{
    let base = reqwest::Url::parse(base).ok()?;
    base.join(input).ok().map(String::from)
}

/// The relative name under which the archive of `tag` is served.
pub open spec fn archive_name(tag: Seq<char>) -> Seq<char> {
    seq!['p', 'h', 'p', '-'] + tag
}

/// The address of the source archive of `tag`.
pub fn archive_url(tag: &str) -> (r: Result<String, DownloadError>)
    ensures
        match joined_url(DOWNLOAD_URL@, archive_name(tag@)) {
            Some(u) => r matches Ok(s) && s@ == u,
            None => r == Err::<String, DownloadError>(DownloadError::InvalidUrl),
        },
{
    let mut name = String::from_str("php-");
    name.append(tag);
    proof {
        reveal_strlit("php-");
    }
    assert(name@ =~= archive_name(tag@));
    match join_url(DOWNLOAD_URL, name.as_str()) {
        Some(u) => Ok(u),
        None => Err(DownloadError::InvalidUrl),
    }
}

/// What a `Downloader` holds: the bytes received so far, the progress
/// counter, and the completed archive once the stream has ended.
pub struct DownloadView {
    pub buffer: Seq<u8>,
    pub received: nat,
    pub archive: Option<Seq<u8>>,
}

/// The state after the chunks have been received in order from `v`.
pub open spec fn feed(v: DownloadView, chunks: Seq<Seq<u8>>) -> DownloadView
    decreases chunks.len(),
{
    if chunks.len() == 0 {
        v
    } else {
        let w = feed(v, chunks.drop_last());
        DownloadView {
            buffer: w.buffer + chunks.last(),
            received: w.received + chunks.last().len(),
            archive: w.archive,
        }
    }
}

/// The chunks laid end to end.
pub open spec fn concat_chunks(chunks: Seq<Seq<u8>>) -> Seq<u8>
    decreases chunks.len(),
{
    if chunks.len() == 0 {
        Seq::empty()
    } else {
        concat_chunks(chunks.drop_last()) + chunks.last()
    }
}

/// One download: the bytes received so far in stream order, a counter of
/// them for progress reporting, and the archive once complete.
pub struct Downloader {
    buffer: Vec<u8>,
    received: u64,
    archive: Option<Vec<u8>>,
}

impl View for Downloader {
    type V = DownloadView;

    closed spec fn view(&self) -> DownloadView {
        DownloadView {
            buffer: self.buffer@,
            received: self.received as nat,
            archive: match self.archive {
                Some(a) => Some(a@),
                None => None,
            },
        }
    }
}

impl Downloader {
    /// A session that has received nothing yet, with room reserved for a
    /// typical archive.
    pub fn new() -> (r: Self)
        ensures
            r@.buffer.len() == 0,
            r@.received == 0,
            r@.archive is None,
    {
        Downloader { buffer: Vec::with_capacity(MIN_TAR_SIZE), received: 0, archive: None }
    }

    /// Bytes received so far.
    pub fn received(&self) -> (r: u64)
        ensures
            r == self@.received,
    {
        self.received
    }

    /// Appends the next chunk of the stream and counts its bytes.
    pub fn push_chunk(&mut self, chunk: &[u8])
        requires
            old(self)@.buffer.len() + chunk@.len() <= usize::MAX,
            old(self)@.received + chunk@.len() <= u64::MAX,
        ensures
            final(self)@.buffer == old(self)@.buffer + chunk@,
            final(self)@.received == old(self)@.received + chunk@.len(),
            final(self)@.archive == old(self)@.archive,
    {
        let ghost before = self.buffer@;
        let mut i: usize = 0;
        while i < chunk.len()
            invariant
                i <= chunk@.len(),
                self.buffer@ == before + chunk@.subrange(0, i as int),
                self.received == old(self).received,
                self.archive == old(self).archive,
                old(self)@.received + chunk@.len() <= u64::MAX,
            decreases chunk@.len() - i,
        {
            self.buffer.push(chunk[i]);
            assert(chunk@.subrange(0, i + 1) =~= chunk@.subrange(0, i as int).push(chunk@[i as int]));
            i = i + 1;
        }
        assert(chunk@.subrange(0, chunk@.len() as int) =~= chunk@);
        self.received = self.received + chunk.len() as u64;
    }

    /// The stream has ended: what was received becomes the archive, and the
    /// session is ready for another download.
    pub fn finish(&mut self)
        ensures
            final(self)@.archive == Some(old(self)@.buffer),
            final(self)@.buffer.len() == 0,
            final(self)@.received == old(self)@.received,
    {
        let mut buffer: Vec<u8> = Vec::new();
        core::mem::swap(&mut buffer, &mut self.buffer);
        self.archive = Some(buffer);
    }

    /// The stream failed: the partial bytes are discarded.
    pub fn abort(&mut self)
        ensures
            final(self)@.archive is None,
            final(self)@.buffer.len() == 0,
            final(self)@.received == old(self)@.received,
    {
        self.buffer = Vec::new();
        self.archive = None;
    }

    /// Takes the completed archive out of the session.
    pub fn take_archive(&mut self) -> (r: Result<Vec<u8>, DownloadError>)
        ensures
            match old(self)@.archive {
                Some(a) => r matches Ok(got) && got@ == a,
                None => r == Err::<Vec<u8>, DownloadError>(DownloadError::NoArchive),
            },
            final(self)@.archive is None,
            final(self)@.buffer == old(self)@.buffer,
            final(self)@.received == old(self)@.received,
    {
        match self.archive.take() {
            Some(a) => Ok(a),
            None => Err(DownloadError::NoArchive),
        }
    }
}

/// Receiving chunks appends them in stream order and counts every byte.
proof fn lemma_feed_appends(v: DownloadView, chunks: Seq<Seq<u8>>)
    ensures
        feed(v, chunks) == (DownloadView {
            buffer: v.buffer + concat_chunks(chunks),
            received: v.received + concat_chunks(chunks).len(),
            archive: v.archive,
        }),
    decreases chunks.len(),
{
    if chunks.len() == 0 {
        assert(v.buffer + Seq::<u8>::empty() =~= v.buffer);
    } else {
        lemma_feed_appends(v, chunks.drop_last());
        assert(v.buffer + concat_chunks(chunks.drop_last()) + chunks.last() =~= v.buffer
            + concat_chunks(chunks));
    }
}

/// How a stream is cut into chunks does not matter: receiving the chunks
/// one by one leaves the session as receiving their concatenation in one
/// chunk does, bytes and counter alike.
pub proof fn lemma_chunking_irrelevant(v: DownloadView, chunks: Seq<Seq<u8>>)
    ensures
        feed(v, chunks) == feed(v, seq![concat_chunks(chunks)]),
        feed(v, chunks).buffer == v.buffer + concat_chunks(chunks),
{
    lemma_feed_appends(v, chunks);
    lemma_feed_appends(v, seq![concat_chunks(chunks)]);
    let one = seq![concat_chunks(chunks)];
    assert(one.drop_last() =~= Seq::<Seq<u8>>::empty());
    assert(one.last() == concat_chunks(chunks));
    assert(concat_chunks(one.drop_last()) == Seq::<u8>::empty());
    assert(Seq::<u8>::empty() + concat_chunks(chunks) =~= concat_chunks(chunks));
    assert(concat_chunks(one) =~= concat_chunks(chunks));
}

} // verus!
