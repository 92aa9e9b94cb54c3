//! Incremental synchronisation of the catalog with the remote tag listing.
//!
//! The listing is read page by page, newest tags first. Each tag is added
//! to the catalog in turn; the first one that is already known means that
//! the catalog has caught up, and reading stops there, even mid-page. This
//! relies on the listing being ordered newest first and stable between
//! requests. The requests themselves are made by the caller, which hands
//! each page back through [`CatalogSync::on_page`].
use vstd::prelude::*;
use crate::catalog::{Catalog, Tag, TagView, add_tag, is_release, tag_views};

verus! {

/// Number of tags asked for per page.
pub const PAGE_SIZE: u64 = 100;

/// The release tags of a page, in order.
pub open spec fn releases(s: Seq<TagView>) -> Seq<TagView>
    decreases s.len(),
{
    if s.len() == 0 {
        Seq::empty()
    } else if is_release(s.last()) {
        releases(s.drop_last()).push(s.last())
    } else {
        releases(s.drop_last())
    }
}

/// What a page contributes: its release tags, or nothing when at most one
/// is left. A page of one tag or none is taken for the end of the data.
pub open spec fn accepted(raw: Seq<TagView>) -> Option<Seq<TagView>> {
    if releases(raw).len() > 1 {
        Some(releases(raw))
    } else {
        None
    }
}

/// The release tags of a fetched page, or `None` when the page is taken for
/// the end of the data.
pub fn accept_page(tags: Vec<Tag>) -> (r: Option<Vec<Tag>>)
    ensures
        match accepted(tag_views(tags@)) {
            Some(kept) => r matches Some(v) && tag_views(v@) == kept,
            None => r is None,
        },
{
    let ghost all = tag_views(tags@);
    let mut kept: Vec<Tag> = Vec::new();
    let mut i: usize = 0;
    assert(all.subrange(0, 0) =~= Seq::<TagView>::empty());
    while i < tags.len()
        invariant
            i <= tags@.len(),
            all == tag_views(tags@),
            tag_views(kept@) == releases(all.subrange(0, i as int)),
        decreases tags@.len() - i,
    {
        let ghost before = tag_views(kept@);
        assert(all.subrange(0, i + 1).drop_last() =~= all.subrange(0, i as int));
        assert(all.subrange(0, i + 1).last() == tags@[i as int]@);
        if tags[i].is_release() {
            kept.push(tags[i].clone());
            assert(tag_views(kept@) =~= before.push(all[i as int]));
        }
        i = i + 1;
    }
    assert(all.subrange(0, all.len() as int) =~= all);
    if kept.len() > 1 {
        Some(kept)
    } else {
        None
    }
}

/// Whether a response status ends the listing: anything but 200 means that
/// there are no more pages.
pub fn listing_ended(status: u16) -> (r: bool)
    ensures
        r == (status != 200),
{
    status != 200
}

/// The catalog after adding the tags of `page` in order, how many were
/// added, and whether a tag already known was met (where adding stops).
pub open spec fn merge(cat: Seq<TagView>, page: Seq<TagView>) -> (Seq<TagView>, nat, bool)
    decreases page.len(),
{
    if page.len() == 0 {
        (cat, 0, false)
    } else if cat.contains(page[0]) {
        (cat, 0, true)
    } else {
        let r = merge(cat.push(page[0]), page.drop_first());
        (r.0, r.1 + 1, r.2)
    }
}

/// Where a synchronisation stands.
pub struct SyncView {
    /// The catalog merged so far.
    pub catalog: Seq<TagView>,
    /// The next page to ask for, counting from 1.
    pub page: nat,
    /// How many pages have been asked for.
    pub fetched: nat,
    /// How many tags have been added.
    pub added: nat,
    /// Whether the synchronisation has ended.
    pub done: bool,
}

/// A synchronisation that is about to ask for the first page.
pub open spec fn start(cat: Seq<TagView>) -> SyncView {
    SyncView { catalog: cat, page: 1, fetched: 0, added: 0, done: false }
}

/// The state after the answer to one page request: `None` for the end of
/// the data, else the accepted tags of the page.
pub open spec fn sync_step(s: SyncView, page: Option<Seq<TagView>>) -> SyncView {
    match page {
        None => SyncView { fetched: s.fetched + 1, done: true, ..s },
        Some(p) => {
            let m = merge(s.catalog, p);
            SyncView {
                catalog: m.0,
                page: if s.page < u64::MAX { s.page + 1 } else { s.page },
                fetched: s.fetched + 1,
                added: s.added + m.1,
                done: m.2 || s.page >= u64::MAX,
            }
        },
    }
}

/// The answer of a remote listing, given as its raw pages, to a request for
/// page `n`.
pub open spec fn response(listing: Seq<Seq<TagView>>, n: nat) -> Option<Seq<TagView>> {
    if 1 <= n <= listing.len() {
        accepted(listing[n - 1])
    } else {
        None
    }
}

pub open spec fn run_measure(s: SyncView, listing: Seq<Seq<TagView>>) -> nat {
    if s.page <= listing.len() + 1 {
        (listing.len() + 1 - s.page) as nat
    } else {
        0
    }
}

/// A synchronisation from `s` against an unchanging listing, to its end.
pub open spec fn run(s: SyncView, listing: Seq<Seq<TagView>>) -> SyncView
    decreases run_measure(s, listing),
{
    if s.done {
        s
    } else {
        let t = sync_step(s, response(listing, s.page));
        if t.done {
            t
        } else {
            run(t, listing)
        }
    }
}

pub open spec fn page_views(page: Option<Vec<Tag>>) -> Option<Seq<TagView>> {
    match page {
        Some(v) => Some(tag_views(v@)),
        None => None,
    }
}

/// One synchronisation of a catalog with the remote listing.
pub struct CatalogSync {
    catalog: Catalog,
    page: u64,
    fetched: u64,
    added: usize,
    done: bool,
}

impl View for CatalogSync {
    type V = SyncView;

    closed spec fn view(&self) -> SyncView {
        SyncView {
            catalog: self.catalog@,
            page: self.page as nat,
            fetched: self.fetched as nat,
            added: self.added as nat,
            done: self.done,
        }
    }
}

impl CatalogSync {
    #[verifier::type_invariant]
    closed spec fn counters(self) -> bool {
        &&& 1 <= self.page
        &&& self.fetched <= self.page
        &&& !self.done ==> self.fetched + 1 == self.page
        &&& self.added <= self.catalog@.len()
    }

    /// A synchronisation of `catalog` that starts at the first page.
    pub fn new(catalog: Catalog) -> (r: Self)
        ensures
            r@ == start(catalog@),
    {
        CatalogSync { catalog, page: 1, fetched: 0, added: 0, done: false }
    }

    /// The page to ask for next, or `None` once the synchronisation has ended.
    pub fn next_page(&self) -> (r: Option<u64>)
        ensures
            r == (if self@.done { None } else { Some(self@.page as u64) }),
    {
        if self.done {
            None
        } else {
            Some(self.page)
        }
    }

    pub fn is_done(&self) -> (r: bool)
        ensures
            r == self@.done,
    {
        self.done
    }

    /// How many tags have been added so far.
    pub fn added(&self) -> (r: usize)
        ensures
            r == self@.added,
    {
        self.added
    }

    /// Takes in the answer to the request for the current page: `None` when
    /// the listing has no more data, else the page's accepted tags.
    pub fn on_page(&mut self, page: Option<Vec<Tag>>)
        requires
            !old(self)@.done,
        ensures
            final(self)@ == sync_step(old(self)@, page_views(page)),
    {
        proof {
            use_type_invariant(&*self);
        }
        let ghost s0 = self@;
        let mut held = CatalogSync::new(Catalog::new());
        core::mem::swap(self, &mut held);
        let CatalogSync { mut catalog, page: mut cur, fetched, mut added, done: _ } = held;
        match page {
            None => {
                *self = CatalogSync { catalog, page: cur, fetched: fetched + 1, added, done: true };
            },
            Some(tags) => {
                let ghost p = tag_views(tags@);
                let mut i: usize = 0;
                let mut met = false;
                assert(p.subrange(0, p.len() as int) =~= p);
                while i < tags.len()
                    invariant_except_break
                        !met,
                        ({
                            let r = merge(catalog@, p.subrange(i as int, p.len() as int));
                            merge(s0.catalog, p) == (r.0, (r.1 + (added - s0.added)) as nat, r.2)
                        }),
                    invariant
                        i <= tags@.len(),
                        s0 == (SyncView { catalog: s0.catalog, page: cur as nat, fetched: fetched as nat, added: s0.added, done: false }),
                        p == tag_views(tags@),
                        s0.added <= added <= catalog@.len(),
                    ensures
                        merge(s0.catalog, p) == (catalog@, (added - s0.added) as nat, met),
                    decreases tags@.len() - i,
                {
                    let ghost rest = p.subrange(i as int, p.len() as int);
                    assert(i + 1 == tags@.len() ==> p.subrange(i + 1, p.len() as int) =~= Seq::<TagView>::empty());
                    assert(rest[0] == tags@[i as int]@);
                    assert(rest.drop_first() =~= p.subrange(i + 1, p.len() as int));
                    let t = tags[i].clone();
                    if !catalog.insert(t) {
                        met = true;
                        break;
                    }
                    let _ = catalog.len();
                    added = added + 1;
                    i = i + 1;
                }
                let last = cur == u64::MAX;
                if !last {
                    cur = cur + 1;
                }
                *self = CatalogSync { catalog, page: cur, fetched: fetched + 1, added, done: met || last };
            },
        }
    }

    /// The merged catalog and the number of tags added.
    pub fn into_parts(self) -> (r: (Catalog, usize))
        ensures
            r.0@ == self@.catalog,
            r.1 == self@.added,
    {
        (self.catalog, self.added)
    }
}

/// Merging never loses a tag.
proof fn lemma_merge_grows(cat: Seq<TagView>, page: Seq<TagView>, x: TagView)
    requires
        cat.contains(x),
    ensures
        merge(cat, page).0.contains(x),
    decreases page.len(),
{
    if page.len() > 0 && !cat.contains(page[0]) {
        let k = choose|k: int| 0 <= k < cat.len() && cat[k] == x;
        assert(cat.push(page[0])[k] == x);
        lemma_merge_grows(cat.push(page[0]), page.drop_first(), x);
    }
}

/// After a merge, the first tag of a non-empty page is in the catalog.
proof fn lemma_merge_holds_first(cat: Seq<TagView>, page: Seq<TagView>)
    requires
        page.len() > 0,
    ensures
        merge(cat, page).0.contains(page[0]),
{
    if !cat.contains(page[0]) {
        let c = cat.push(page[0]);
        assert(c[cat.len() as int] == page[0]);
        lemma_merge_grows(c, page.drop_first(), page[0]);
    }
}

/// Merging keeps every tag unique.
proof fn lemma_merge_unique(cat: Seq<TagView>, page: Seq<TagView>)
    requires
        cat.no_duplicates(),
    ensures
        merge(cat, page).0.no_duplicates(),
    decreases page.len(),
{
    if page.len() > 0 && !cat.contains(page[0]) {
        let c = cat.push(page[0]);
        assert(c.no_duplicates()) by {
            assert forall|i: int, j: int| 0 <= i < c.len() && 0 <= j < c.len() && i != j implies c[i] != c[j] by {
                if i < cat.len() && j < cat.len() {
                } else if i < cat.len() {
                    assert(c[i] == cat[i]);
                } else if j < cat.len() {
                    assert(c[j] == cat[j]);
                }
            }
        }
        lemma_merge_unique(c, page.drop_first());
    }
}

/// A synchronisation never loses a tag.
proof fn lemma_run_grows(s: SyncView, listing: Seq<Seq<TagView>>, x: TagView)
    requires
        s.catalog.contains(x),
    ensures
        run(s, listing).catalog.contains(x),
    decreases run_measure(s, listing),
{
    if !s.done {
        let r = response(listing, s.page);
        let t = sync_step(s, r);
        if let Some(p) = r {
            lemma_merge_grows(s.catalog, p, x);
        }
        if !t.done {
            lemma_run_grows(t, listing, x);
        }
    }
}

/// A synchronisation keeps every tag unique.
proof fn lemma_run_unique(s: SyncView, listing: Seq<Seq<TagView>>)
    requires
        s.catalog.no_duplicates(),
    ensures
        run(s, listing).catalog.no_duplicates(),
    decreases run_measure(s, listing),
{
    if !s.done {
        let r = response(listing, s.page);
        let t = sync_step(s, r);
        if let Some(p) = r {
            lemma_merge_unique(s.catalog, p);
        }
        if !t.done {
            lemma_run_unique(t, listing);
        }
    }
}

/// Synchronising twice against an unchanged listing: the second run adds
/// nothing, leaves the catalog as it was, and ends after one page request.
pub proof fn lemma_second_sync_converges(c0: Seq<TagView>, listing: Seq<Seq<TagView>>)
    ensures
        ({
            let s1 = run(start(c0), listing);
            let s2 = run(start(s1.catalog), listing);
            &&& s2.done
            &&& s2.catalog == s1.catalog
            &&& s2.added == 0
            &&& s2.fetched == 1
        }),
{
    let s1 = run(start(c0), listing);
    let r = response(listing, 1);
    if let Some(p) = r {
        assert(p.len() > 1);
        let t1 = sync_step(start(c0), r);
        lemma_merge_holds_first(c0, p);
        if !t1.done {
            lemma_run_grows(t1, listing, p[0]);
        }
        assert(s1.catalog.contains(p[0]));
        assert(merge(s1.catalog, p) == (s1.catalog, 0nat, true));
    }
}

/// No synchronisation puts a tag in the catalog twice.
pub proof fn lemma_sync_keeps_unique(c0: Seq<TagView>, listing: Seq<Seq<TagView>>)
    requires
        c0.no_duplicates(),
    ensures
        run(start(c0), listing).catalog.no_duplicates(),
{
    lemma_run_unique(start(c0), listing);
}

/// A page of one tag is taken as an empty page is: the synchronisation
/// ends and nothing is added.
pub proof fn lemma_single_tag_page(s: SyncView, t: TagView)
    ensures
        accepted(seq![t]) == accepted(Seq::<TagView>::empty()),
        accepted(seq![t]) is None,
        sync_step(s, accepted(seq![t])) == sync_step(s, accepted(Seq::<TagView>::empty())),
        sync_step(s, accepted(seq![t])).done,
        sync_step(s, accepted(seq![t])).catalog == s.catalog,
        sync_step(s, accepted(seq![t])).added == s.added,
{
    let one = seq![t];
    assert(one.drop_last() =~= Seq::<TagView>::empty());
    assert(releases(one).len() <= 1);
}

} // verus!
