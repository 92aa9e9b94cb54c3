//! Tags of the upstream repository and the local catalog that mirrors them.
use vstd::prelude::*;
use vstd::string::*;
use crate::text::{contains, contains_str, has_prefix, starts_with};

verus! {

/// The commit that a tag points at.
#[derive(Debug)]
pub struct Commit {
    pub sha: String,
    pub url: String,
}

/// One entry of the remote tag listing.
#[derive(Debug)]
pub struct Tag {
    pub name: String,
    pub tarball_url: String,
    pub zipball_url: String,
    pub commit: Commit,
    pub node_id: String,
}

/// The full identity of a tag: every field.
pub struct TagView {
    pub name: Seq<char>,
    pub tarball_url: Seq<char>,
    pub zipball_url: Seq<char>,
    pub sha: Seq<char>,
    pub commit_url: Seq<char>,
    pub node_id: Seq<char>,
}

impl View for Tag {
    type V = TagView;

    open spec fn view(&self) -> TagView {
        TagView {
            name: self.name@,
            tarball_url: self.tarball_url@,
            zipball_url: self.zipball_url@,
            sha: self.commit.sha@,
            commit_url: self.commit.url@,
            node_id: self.node_id@,
        }
    }
}

impl Clone for Commit {
    fn clone(&self) -> (r: Self)
        ensures
            r.sha@ == self.sha@,
            r.url@ == self.url@,
    {
        Commit { sha: self.sha.clone(), url: self.url.clone() }
    }
}

impl Clone for Tag {
    fn clone(&self) -> (r: Self)
        ensures
            r@ == self@,
    {
        Tag {
            name: self.name.clone(),
            tarball_url: self.tarball_url.clone(),
            zipball_url: self.zipball_url.clone(),
            commit: self.commit.clone(),
            node_id: self.node_id.clone(),
        }
    }
}

impl PartialEq for Commit {
    fn eq(&self, other: &Commit) -> (r: bool) {
        self.sha == other.sha && self.url == other.url
    }
}

impl vstd::std_specs::cmp::PartialEqSpecImpl for Commit {
    open spec fn obeys_eq_spec() -> bool {
        true
    }

    open spec fn eq_spec(&self, other: &Commit) -> bool {
        self.sha@ == other.sha@ && self.url@ == other.url@
    }
}

impl PartialEq for Tag {
    fn eq(&self, other: &Tag) -> (r: bool) {
        self.same_as(other)
    }
}

impl vstd::std_specs::cmp::PartialEqSpecImpl for Tag {
    open spec fn obeys_eq_spec() -> bool {
        true
    }

    open spec fn eq_spec(&self, other: &Tag) -> bool {
        self@ == other@
    }
}

/// The naming convention of release tags.
pub const RELEASE_PREFIX: &'static str = "php-";

/// A release tag's name starts with the release prefix.
pub open spec fn is_release(t: TagView) -> bool {
    starts_with(t.name, RELEASE_PREFIX@)
}

/// `s` without leading and trailing whitespace.
pub uninterp spec fn trimmed(s: Seq<char>) -> Seq<char>;

/// Relies on `str::trim`: leading and trailing whitespace removed, which
/// depends on the characters alone.
#[verifier::external_body]
fn trim(s: &str) -> (r: &str)
    ensures
        r@ == trimmed(s@),
{
    s.trim()
}

/// The version number that a tag names, as shown to users.
pub open spec fn semver_of(name: Seq<char>) -> Seq<char> {
    if starts_with(name, RELEASE_PREFIX@) {
        trimmed(name.subrange(4, name.len() as int))
    } else {
        trimmed(name)
    }
}

pub open spec fn alpha_name(n: Seq<char>) -> bool {
    contains(n, "alpha"@) || contains(n, "ALPHA"@)
}

pub open spec fn beta_name(n: Seq<char>) -> bool {
    contains(n, "beta"@) || contains(n, "BETA"@)
}

pub open spec fn rc_name(n: Seq<char>) -> bool {
    contains(n, "RC"@) || contains(n, "rc"@)
}

impl Tag {
    /// Whether the two tags agree on every field.
    pub fn same_as(&self, other: &Tag) -> (r: bool)
        ensures
            r == (self@ == other@),
    {
        self.name == other.name && self.tarball_url == other.tarball_url
            && self.zipball_url == other.zipball_url && self.commit.sha == other.commit.sha
            && self.commit.url == other.commit.url && self.node_id == other.node_id
    }

    /// The version number: the name without its release prefix, trimmed.
    pub fn as_semver(&self) -> (r: &str)
        ensures
            r@ == semver_of(self.name@),
    {
        proof {
            reveal_strlit("php-");
        }
        let name = self.name.as_str();
        if has_prefix(name, RELEASE_PREFIX) {
            trim(name.substring_char(4, name.unicode_len()))
        } else {
            trim(name)
        }
    }

    pub fn is_alpha(&self) -> (r: bool)
        ensures
            r == alpha_name(self.name@),
    {
        contains_str(self.name.as_str(), "alpha") || contains_str(self.name.as_str(), "ALPHA")
    }

    pub fn is_beta(&self) -> (r: bool)
        ensures
            r == beta_name(self.name@),
    {
        contains_str(self.name.as_str(), "beta") || contains_str(self.name.as_str(), "BETA")
    }

    pub fn is_rc(&self) -> (r: bool)
        ensures
            r == rc_name(self.name@),
    {
        contains_str(self.name.as_str(), "RC") || contains_str(self.name.as_str(), "rc")
    }

    /// Neither an alpha, a beta nor a release candidate.
    pub fn is_stable(&self) -> (r: bool)
        ensures
            r == !(alpha_name(self.name@) || beta_name(self.name@) || rc_name(self.name@)),
    {
        !self.is_beta() && !self.is_alpha() && !self.is_rc()
    }

    /// Whether the tag follows the release naming convention.
    pub fn is_release(&self) -> (r: bool)
        ensures
            r == is_release(self@),
    {
        has_prefix(self.name.as_str(), RELEASE_PREFIX)
    }
}

pub open spec fn tag_views(v: Seq<Tag>) -> Seq<TagView> {
    v.map_values(|t: Tag| t@)
}

/// `cat` after an attempt to add `t`: unchanged when `t` is already there.
pub open spec fn add_tag(cat: Seq<TagView>, t: TagView) -> Seq<TagView> {
    if cat.contains(t) {
        cat
    } else {
        cat.push(t)
    }
}

/// `cat` after attempts to add each of `s` in order.
pub open spec fn add_all(cat: Seq<TagView>, s: Seq<TagView>) -> Seq<TagView>
    decreases s.len(),
{
    if s.len() == 0 {
        cat
    } else {
        add_all(add_tag(cat, s[0]), s.drop_first())
    }
}

/// The set of known tags. Each tag, by full identity, is held once.
pub struct Catalog {
    tags: Vec<Tag>,
}

impl View for Catalog {
    type V = Seq<TagView>;

    closed spec fn view(&self) -> Seq<TagView> {
        tag_views(self.tags@)
    }
}

impl Catalog {
    /// No tag is held twice.
    #[verifier::type_invariant]
    pub(crate) closed spec fn unique(self) -> bool {
        tag_views(self.tags@).no_duplicates()
    }

    /// The empty catalog.
    pub fn new() -> (r: Self)
        ensures
            r@ == Seq::<TagView>::empty(),
    {
        let r = Catalog { tags: Vec::new() };
        assert(r@ =~= Seq::<TagView>::empty());
        r
    }

    pub fn len(&self) -> (r: usize)
        ensures
            r == self@.len(),
    {
        self.tags.len()
    }

    /// Whether a tag equal to `t` in every field is held.
    pub fn contains(&self, t: &Tag) -> (r: bool)
        ensures
            r == self@.contains(t@),
    {
        let mut i: usize = 0;
        while i < self.tags.len()
            invariant
                i <= self.tags@.len(),
                forall|k: int| 0 <= k < i ==> self@[k] != t@,
            decreases self.tags@.len() - i,
        {
            if self.tags[i].same_as(t) {
                assert(self@[i as int] == t@);
                return true;
            }
            i = i + 1;
        }
        false
    }

    /// Adds `t` unless it is already held; says whether it was added.
    pub fn insert(&mut self, t: Tag) -> (r: bool)
        ensures
            r == !old(self)@.contains(t@),
            final(self)@ == add_tag(old(self)@, t@),
    {
        if self.contains(&t) {
            false
        } else {
            proof {
                use_type_invariant(&*self);
            }
            let ghost tv = t@;
            let ghost before = self@;
            let mut held = Catalog::new();
            core::mem::swap(self, &mut held);
            let Catalog { mut tags } = held;
            tags.push(t);
            assert(tag_views(tags@) =~= before.push(tv));
            *self = Catalog { tags };
            true
        }
    }

    /// The catalog that holds each of `tags` once; of repeated tags the
    /// first is kept.
    pub fn from_tags(tags: Vec<Tag>) -> (r: Self)
        ensures
            r@ == add_all(Seq::empty(), tag_views(tags@)),
    {
        let mut cat = Catalog::new();
        let ghost all = tag_views(tags@);
        let mut i: usize = 0;
        assert(all.subrange(0, all.len() as int) =~= all);
        while i < tags.len()
            invariant
                i <= tags@.len(),
                all == tag_views(tags@),
                add_all(cat@, all.subrange(i as int, all.len() as int)) == add_all(Seq::empty(), all),
            decreases tags@.len() - i,
        {
            assert(all.subrange(i as int, all.len() as int).drop_first() =~= all.subrange(i + 1, all.len() as int));
            let t = tags[i].clone();
            cat.insert(t);
            i = i + 1;
        }
        assert(all.subrange(i as int, all.len() as int) =~= Seq::<TagView>::empty());
        cat
    }

    /// The tags held, in the order they were added.
    pub fn tags(&self) -> (r: &Vec<Tag>)
        ensures
            tag_views(r@) == self@,
    {
        &self.tags
    }
}

/// Adding tags that are all new, and distinct, appends them in order.
proof fn lemma_add_all_fresh(cat: Seq<TagView>, s: Seq<TagView>)
    requires
        (cat + s).no_duplicates(),
    ensures
        add_all(cat, s) == cat + s,
    decreases s.len(),
{
    if s.len() == 0 {
        assert(cat + s =~= cat);
    } else {
        assert((cat + s)[cat.len() as int] == s[0]);
        assert(!cat.contains(s[0])) by {
            if cat.contains(s[0]) {
                let k = choose|k: int| 0 <= k < cat.len() && cat[k] == s[0];
                assert((cat + s)[k] == (cat + s)[cat.len() as int]);
            }
        }
        assert(cat.push(s[0]) + s.drop_first() =~= cat + s);
        lemma_add_all_fresh(cat.push(s[0]), s.drop_first());
    }
}

/// Reading back the tags of a catalog gives the same catalog: the tags in
/// the same order, so the same set.
pub proof fn lemma_round_trip(c: Seq<TagView>)
    requires
        c.no_duplicates(),
    ensures
        add_all(Seq::empty(), c) == c,
        add_all(Seq::empty(), c).to_set() == c.to_set(),
{
    assert(Seq::<TagView>::empty() + c =~= c);
    lemma_add_all_fresh(Seq::empty(), c);
}

} // verus!
