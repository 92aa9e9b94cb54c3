use maphp::download::{archive_url, DownloadError, Downloader};

fn bytes(n: usize, seed: u8) -> Vec<u8> {
    (0..n).map(|i| (i as u8).wrapping_mul(31).wrapping_add(seed)).collect()
}

#[test]
fn chunking_does_not_change_the_archive() {
    let chunks = vec![bytes(3, 1), bytes(0, 2), bytes(7, 3), bytes(5000, 4)];
    let mut split = Downloader::new();
    for c in &chunks {
        split.push_chunk(c);
    }
    split.finish();
    let whole: Vec<u8> = chunks.concat();
    let mut single = Downloader::new();
    single.push_chunk(&whole);
    single.finish();
    assert_eq!(split.received(), 5010);
    assert_eq!(single.received(), 5010);
    let a = split.take_archive().unwrap();
    let b = single.take_archive().unwrap();
    assert_eq!(a, b);
    assert_eq!(a, whole);
}

#[test]
fn no_archive_before_the_stream_ends() {
    let mut d = Downloader::new();
    d.push_chunk(&[1, 2, 3]);
    assert_eq!(d.take_archive(), Err(DownloadError::NoArchive));
    d.finish();
    assert_eq!(d.take_archive(), Ok(vec![1, 2, 3]));
    assert_eq!(d.take_archive(), Err(DownloadError::NoArchive));
}

#[test]
fn failed_stream_discards_partial_bytes() {
    let mut d = Downloader::new();
    d.push_chunk(&[9; 16]);
    d.abort();
    assert_eq!(d.take_archive(), Err(DownloadError::NoArchive));
    d.push_chunk(&[1]);
    d.finish();
    assert_eq!(d.take_archive(), Ok(vec![1]));
    assert_eq!(d.received(), 17);
}

#[test]
fn archive_address_of_a_tag() {
    assert_eq!(
        archive_url("8.4.11").unwrap(),
        "https://api.github.com/repos/php/php-src/tarball/refs/tags/php-8.4.11"
    );
}
