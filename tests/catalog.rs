use maphp::catalog::{Catalog, Commit, Tag};
use maphp::sync::{accept_page, listing_ended, CatalogSync};

fn tag(name: &str) -> Tag {
    Tag {
        name: name.to_string(),
        tarball_url: format!("https://api.github.com/repos/php/php-src/tarball/refs/tags/{name}"),
        zipball_url: format!("https://api.github.com/repos/php/php-src/zipball/refs/tags/{name}"),
        commit: Commit { sha: format!("sha-{name}"), url: format!("https://example.org/{name}") },
        node_id: format!("node-{name}"),
    }
}

/// Runs one synchronisation against raw pages, the way the listing serves them.
fn sync(catalog: Catalog, listing: &[Vec<Tag>]) -> (Catalog, usize, u64) {
    let mut s = CatalogSync::new(catalog);
    let mut requests = 0;
    while let Some(page) = s.next_page() {
        requests += 1;
        let raw = listing.get(page as usize - 1).cloned();
        s.on_page(raw.and_then(accept_page));
    }
    let (c, added) = s.into_parts();
    (c, added, requests)
}

fn listing(n: usize, per_page: usize) -> Vec<Vec<Tag>> {
    let names: Vec<String> = (0..n).rev().map(|i| format!("php-8.{}.{}", i / 100, i % 100)).collect();
    names.chunks(per_page).map(|c| c.iter().map(|s| tag(s)).collect()).collect()
}

#[test]
fn semver_strips_prefix_and_whitespace() {
    assert_eq!(tag("php-8.4.11").as_semver(), "8.4.11");
    assert_eq!(tag("  php-8.4.11 ").as_semver(), "php-8.4.11");
    assert_eq!(tag("php- 8.3.0RC1\n").as_semver(), "8.3.0RC1");
    assert_eq!(tag("8.1.0").as_semver(), "8.1.0");
}

#[test]
fn tag_kinds() {
    assert!(tag("php-8.4.0alpha1").is_alpha());
    assert!(tag("php-5.0.0ALPHA").is_alpha());
    assert!(tag("php-8.4.0beta2").is_beta());
    assert!(tag("php-8.4.0RC1").is_rc());
    assert!(!tag("php-8.4.0RC1").is_stable());
    assert!(tag("php-8.4.11").is_stable());
    assert!(tag("php-8.4.11").is_release());
    assert!(!tag("release-1").is_release());
}

#[test]
fn insert_detects_duplicates() {
    let mut c = Catalog::new();
    assert!(c.insert(tag("php-8.4.11")));
    assert!(!c.insert(tag("php-8.4.11")));
    let mut other = tag("php-8.4.11");
    other.node_id = "another".to_string();
    assert!(c.insert(other));
    assert_eq!(c.len(), 2);
    assert!(c.contains(&tag("php-8.4.11")));
    assert!(!c.contains(&tag("php-8.4.10")));
}

#[test]
fn reading_tags_keeps_the_first_of_repeated_ones() {
    let c = Catalog::from_tags(vec![tag("php-1"), tag("php-2"), tag("php-1")]);
    assert_eq!(c.tags(), &vec![tag("php-1"), tag("php-2")]);
}

fn round_trip(n: usize) {
    let c = Catalog::from_tags((0..n).map(|i| tag(&format!("php-{i}"))).collect());
    assert_eq!(c.len(), n);
    let back = Catalog::from_tags(c.tags().clone());
    assert_eq!(back.tags(), c.tags());
}

#[test]
fn round_trip_of_catalogs() {
    round_trip(0);
    round_trip(1);
    round_trip(1200);
}

#[test]
fn single_tag_page_is_the_end_of_data() {
    assert!(accept_page(vec![tag("php-8.4.11")]).is_none());
    assert!(accept_page(vec![]).is_none());
    assert!(accept_page(vec![tag("php-8.4.11"), tag("release-1")]).is_none());
    let kept = accept_page(vec![tag("php-8.4.11"), tag("release-1"), tag("php-8.4.10")]).unwrap();
    assert_eq!(kept, vec![tag("php-8.4.11"), tag("php-8.4.10")]);

    let (c, added, requests) = sync(Catalog::new(), &[vec![tag("php-8.4.11")], listing(10, 5)[0].clone()]);
    assert_eq!((c.len(), added, requests), (0, 0, 1));
}

#[test]
fn non_success_status_ends_the_listing() {
    assert!(!listing_ended(200));
    assert!(listing_ended(404));
    assert!(listing_ended(403));
}

#[test]
fn second_sync_adds_nothing_and_reads_one_page() {
    let remote = listing(250, 100);
    let (c, added, requests) = sync(Catalog::new(), &remote);
    assert_eq!((c.len(), added, requests), (250, 250, 4));
    let (c2, added2, requests2) = sync(c, &remote);
    assert_eq!((c2.len(), added2, requests2), (250, 0, 1));
}

#[test]
fn sync_stops_at_the_first_known_tag() {
    let old = listing(250, 100);
    let (c, _, _) = sync(Catalog::new(), &old[1..]);
    assert_eq!(c.len(), 150);
    let (c, added, requests) = sync(c, &old);
    assert_eq!((c.len(), added, requests), (250, 100, 2));
    let mut seen = std::collections::HashSet::new();
    for t in c.tags() {
        assert!(seen.insert(t.name.clone()));
    }
}

#[test]
fn sync_stops_mid_page() {
    let remote = vec![vec![tag("php-3"), tag("php-2"), tag("php-1")]];
    let start = Catalog::from_tags(vec![tag("php-2"), tag("php-1")]);
    let (c, added, requests) = sync(start, &remote);
    assert_eq!((c.len(), added, requests), (3, 1, 1));
}
