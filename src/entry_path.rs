//! Where an archive entry lands under the extraction directory.
//!
//! Source snapshots carry one synthetic top-level directory named after the
//! repository and the tag; it is dropped. Entries that are absolute or that
//! climb with `..` are refused, so every accepted entry stays beneath the
//! destination.
use vstd::prelude::*;
use vstd::string::*;
use crate::text::{join, join_path, join_with, joined, has_prefix, starts_with, views};

verus! {

/// Name prefix of the synthetic top-level directory of a source snapshot.
pub const PREFIX: &'static str = "php-php-src";

/// Why an entry was refused.
#[derive(Debug, Clone, Copy, PartialEq, Eq, Structural)]
pub enum PathViolation {
    /// The entry's path starts at the file-system root.
    Absolute,
    /// One of the entry's components is `..`.
    Traversal,
}

/// What to do with one archive entry.
#[derive(Debug)]
pub enum EntryAction {
    /// It resolves to the destination itself: nothing to write.
    Skip,
    /// Write it at this path.
    Unpack(String),
    /// Refuse it.
    Reject(PathViolation),
}

pub open spec fn dot() -> Seq<char> {
    seq!['.']
}

pub open spec fn dot_dot() -> Seq<char> {
    seq!['.', '.']
}

/// The components that a pending segment `cur` contributes: none when it is
/// empty (a repeated separator) or `.`.
pub open spec fn keep(cur: Seq<char>) -> Seq<Seq<char>> {
    if cur.len() == 0 || cur == dot() {
        Seq::empty()
    } else {
        seq![cur]
    }
}

/// Components of `q`, read left to right, with `cur` the segment read so far.
pub open spec fn components_from(q: Seq<char>, cur: Seq<char>) -> Seq<Seq<char>>
    decreases q.len(),
{
    if q.len() == 0 {
        keep(cur)
    } else if q[0] == '/' {
        keep(cur) + components_from(q.drop_first(), Seq::empty())
    } else {
        components_from(q.drop_first(), cur.push(q[0]))
    }
}

/// The components of a path: its `/`-separated segments, without empty
/// segments and without `.`.
pub open spec fn components(p: Seq<char>) -> Seq<Seq<char>> {
    components_from(p, Seq::empty())
}

/// A plain name: not empty, no separator, and neither `.` nor `..`.
pub open spec fn plain_name(c: Seq<char>) -> bool {
    c.len() > 0 && !c.contains('/') && c != dot() && c != dot_dot()
}

/// Segments joined with `/`.
pub open spec fn join_segments(segs: Seq<Seq<char>>) -> Seq<char> {
    joined(segs, seq!['/'])
}

/// The components that remain once the synthetic top-level directory is
/// dropped: the first component goes when its name starts with the prefix.
pub open spec fn strip_top(cs: Seq<Seq<char>>) -> Seq<Seq<char>> {
    if cs.len() > 0 && starts_with(cs[0], PREFIX@) {
        cs.drop_first()
    } else {
        cs
    }
}

/// `dir` extended by the components `segs`.
pub open spec fn resolve(dir: Seq<char>, segs: Seq<Seq<char>>) -> Seq<char> {
    if segs.len() == 0 {
        dir
    } else {
        join_path(dir, join_segments(segs))
    }
}

/// Where the entry at `p` is written under `dir`, or why it is refused.
pub open spec fn extract_path(dir: Seq<char>, p: Seq<char>) -> Result<Seq<char>, PathViolation> {
    if p.len() > 0 && p[0] == '/' {
        Err(PathViolation::Absolute)
    } else if components(p).contains(dot_dot()) {
        Err(PathViolation::Traversal)
    } else {
        Ok(resolve(dir, strip_top(components(p))))
    }
}

/// The components of `p`, in order.
pub fn split_components(p: &str) -> (r: Vec<String>)
    ensures
        views(r@) == components(p@),
{
    let n = p.unicode_len();
    let mut out: Vec<String> = Vec::new();
    let mut start: usize = 0;
    let mut i: usize = 0;
    assert(p@.subrange(0, n as int) =~= p@);
    assert(p@.subrange(0, 0) =~= Seq::<char>::empty());
    assert(views(out@) =~= Seq::<Seq<char>>::empty());
    assert(views(out@) + components(p@) =~= components(p@));
    while i < n
        invariant
            n == p@.len(),
            start <= i <= n,
            views(out@) + components_from(p@.subrange(i as int, n as int), p@.subrange(start as int, i as int))
                == components(p@),
        decreases n - i,
    {
        let c = p.get_char(i);
        assert(p@.subrange(i as int, n as int).drop_first() =~= p@.subrange(i + 1, n as int));
        if c == '/' {
            let seg = String::from_str(p.substring_char(start, i));
            let ghost before = views(out@);
            if !(seg.unicode_len() == 0 || (seg.unicode_len() == 1 && seg.as_str().get_char(0) == '.')) {
                assert(seg@ != dot());
                out.push(seg);
                assert(views(out@) =~= before + keep(p@.subrange(start as int, i as int)));
            } else {
                assert(seg@.len() == 0 || seg@ =~= dot());
                assert(views(out@) =~= before + keep(p@.subrange(start as int, i as int)));
            }
            start = i + 1;
            assert(p@.subrange(start as int, start as int) =~= Seq::<char>::empty());
        } else {
            assert(p@.subrange(start as int, i as int).push(c) =~= p@.subrange(start as int, i + 1));
        }
        i = i + 1;
    }
    let seg = String::from_str(p.substring_char(start, n));
    let ghost before = views(out@);
    assert(p@.subrange(n as int, n as int) =~= Seq::<char>::empty());
    if !(seg.unicode_len() == 0 || (seg.unicode_len() == 1 && seg.as_str().get_char(0) == '.')) {
        assert(seg@ != dot());
        out.push(seg);
        assert(views(out@) =~= before + keep(p@.subrange(start as int, n as int)));
    } else {
        assert(seg@.len() == 0 || seg@ =~= dot());
        assert(views(out@) =~= before + keep(p@.subrange(start as int, n as int)));
    }
    out
}

/// Keeps the component `c` found at position `pos`, unless it is the
/// synthetic top-level directory: the first component, named with the prefix.
pub fn skip_if_prefix(pos: usize, c: String) -> (r: Option<String>)
    ensures
        r == (if pos != 0 || !starts_with(c@, PREFIX@) { Some(c) } else { None::<String> }),
{
    if pos != 0 || !has_prefix(c.as_str(), PREFIX) {
        Some(c)
    } else {
        None
    }
}

/// Where the entry at `entry` is written under `dir`: the directory itself
/// when nothing but the synthetic top-level directory remains.
pub fn get_extract_path(dir: &str, entry: &str) -> (r: Result<String, PathViolation>)
    ensures
        match (r, extract_path(dir@, entry@)) {
            (Ok(got), Ok(want)) => got@ == want,
            (Err(e), Err(f)) => e == f,
            _ => false,
        },
{
    if entry.unicode_len() > 0 && entry.get_char(0) == '/' {
        return Err(PathViolation::Absolute);
    }
    assert(!(entry@.len() > 0 && entry@[0] == '/'));
    let cs = split_components(entry);
    let ghost cv = components(entry@);
    let mut i: usize = 0;
    while i < cs.len()
        invariant
            views(cs@) == cv,
            cv == components(entry@),
            !(entry@.len() > 0 && entry@[0] == '/'),
            i <= cs@.len(),
            forall|k: int| 0 <= k < i ==> cv[k] != dot_dot(),
        decreases cs@.len() - i,
    {
        assert(cv[i as int] == cs@[i as int]@);
        if cs[i].unicode_len() == 2 && cs[i].as_str().get_char(0) == '.' && cs[i].as_str().get_char(1) == '.' {
            assert(cv[i as int] =~= dot_dot());
            assert(cv.contains(dot_dot()));
            return Err(PathViolation::Traversal);
        }
        i = i + 1;
    }
    assert(!cv.contains(dot_dot()));
    let mut kept: Vec<String> = Vec::new();
    let mut pos: usize = 0;
    let ghost d: int = cv.len() - strip_top(cv).len();
    assert(strip_top(cv) =~= cv.subrange(d, cv.len() as int));
    while pos < cs.len()
        invariant
            views(cs@) == cv,
            pos <= cs@.len(),
            0 <= d <= 1,
            d == 1 ==> starts_with(cv[0], PREFIX@),
            d == 0 ==> cv.len() == 0 || !starts_with(cv[0], PREFIX@),
            pos == 0 ==> kept@.len() == 0,
            pos > 0 ==> views(kept@) == cv.subrange(d, pos as int),
        decreases cs@.len() - pos,
    {
        let c = cs[pos].clone();
        assert(c@ == cv[pos as int]);
        match skip_if_prefix(pos, c) {
            Some(c) => {
                kept.push(c);
            },
            None => {},
        }
        assert(views(kept@) =~= cv.subrange(d, pos + 1));
        pos = pos + 1;
    }
    assert(views(kept@) =~= strip_top(cv));
    if kept.len() == 0 {
        assert(views(kept@).len() == 0);
        Ok(String::from_str(dir))
    } else {
        let rest = join_with(&kept, "/");
        proof {
            reveal_strlit("/");
            assert("/"@ =~= seq!['/']);
        }
        Ok(join(dir, rest.as_str()))
    }
}

/// The action for one archive entry: refused, skipped when it resolves to
/// `dir` itself, or written at its resolved path.
pub fn plan_entry(dir: &str, entry: &str) -> (r: EntryAction)
    ensures
        match (r, extract_path(dir@, entry@)) {
            (EntryAction::Reject(e), Err(f)) => e == f,
            (EntryAction::Skip, Ok(want)) => want == dir@,
            (EntryAction::Unpack(got), Ok(want)) => got@ == want && want != dir@,
            _ => false,
        },
{
    match get_extract_path(dir, entry) {
        Err(e) => EntryAction::Reject(e),
        Ok(path) => {
            if path == String::from_str(dir) {
                EntryAction::Skip
            } else {
                EntryAction::Unpack(path)
            }
        },
    }
}

/// One extraction into a destination directory, and the number of bytes
/// of the files written so far (for progress reports only).
pub struct Extraction {
    dest: String,
    total: u64,
}

impl Extraction {
    pub closed spec fn dest_view(&self) -> Seq<char> {
        self.dest@
    }

    pub closed spec fn total_view(&self) -> nat {
        self.total as nat
    }

    /// An extraction into `dest` that has written nothing yet.
    pub fn new(dest: String) -> (r: Self)
        ensures
            r.dest_view() == dest@,
            r.total_view() == 0,
    {
        Extraction { dest, total: 0 }
    }

    /// The destination directory.
    pub fn dest(&self) -> (r: &str)
        ensures
            r@ == self.dest_view(),
    {
        self.dest.as_str()
    }

    /// What to do with the entry at `entry`.
    pub fn plan(&self, entry: &str) -> (r: EntryAction)
        ensures
            match (r, extract_path(self.dest_view(), entry@)) {
                (EntryAction::Reject(e), Err(f)) => e == f,
                (EntryAction::Skip, Ok(want)) => want == self.dest_view(),
                (EntryAction::Unpack(got), Ok(want)) => got@ == want && want != self.dest_view(),
                _ => false,
            },
    {
        plan_entry(self.dest.as_str(), entry)
    }

    /// Counts a written file of `len` bytes; the count stops at its maximum.
    pub fn record_file(&mut self, len: u64)
        ensures
            final(self).dest_view() == old(self).dest_view(),
            final(self).total_view() == if old(self).total_view() + len <= u64::MAX {
                old(self).total_view() + len
            } else {
                u64::MAX as int
            },
    {
        self.total = self.total.saturating_add(len);
    }

    /// Bytes of the files written so far.
    pub fn total(&self) -> (r: u64)
        ensures
            r == self.total_view(),
    {
        self.total
    }
}

/// Every component is a name without separator, and neither empty nor `.`.
proof fn lemma_components_are_names(q: Seq<char>, cur: Seq<char>)
    requires
        !cur.contains('/'),
    ensures
        forall|i: int|
            0 <= i < components_from(q, cur).len() ==> {
                let c = #[trigger] components_from(q, cur)[i];
                c.len() > 0 && !c.contains('/') && c != dot()
            },
    decreases q.len(),
{
    if q.len() == 0 {
        assert forall|i: int| 0 <= i < components_from(q, cur).len() implies {
            let c = #[trigger] components_from(q, cur)[i];
            c.len() > 0 && !c.contains('/') && c != dot()
        } by {
            assert(components_from(q, cur)[i] == cur);
        }
    } else if q[0] == '/' {
        lemma_components_are_names(q.drop_first(), Seq::empty());
        let k = keep(cur);
        let rest = components_from(q.drop_first(), Seq::empty());
        assert forall|i: int| 0 <= i < components_from(q, cur).len() implies {
            let c = #[trigger] components_from(q, cur)[i];
            c.len() > 0 && !c.contains('/') && c != dot()
        } by {
            if i < k.len() {
                assert(components_from(q, cur)[i] == cur);
            } else {
                assert(components_from(q, cur)[i] == rest[i - k.len()]);
            }
        }
    } else {
        let next = cur.push(q[0]);
        assert forall|j: int| 0 <= j < next.len() implies next[j] != '/' by {
            if j < cur.len() {
                assert(next[j] == cur[j]);
            }
        }
        assert(!next.contains('/'));
        lemma_components_are_names(q.drop_first(), next);
        assert(components_from(q, cur) == components_from(q.drop_first(), next));
    }
}

/// Reading a run without separators only extends the pending segment.
proof fn lemma_components_of_name(a: Seq<char>, cur: Seq<char>)
    requires
        !a.contains('/'),
    ensures
        components_from(a, cur) == keep(cur + a),
    decreases a.len(),
{
    if a.len() == 0 {
        assert(cur + a =~= cur);
    } else {
        assert(a[0] != '/');
        assert(!a.drop_first().contains('/')) by {
            assert forall|j: int| 0 <= j < a.drop_first().len() implies a.drop_first()[j] != '/' by {
                assert(a.drop_first()[j] == a[j + 1]);
            }
        }
        lemma_components_of_name(a.drop_first(), cur.push(a[0]));
        assert(cur.push(a[0]) + a.drop_first() =~= cur + a);
    }
}

/// A separator splits the components of a path in two.
proof fn lemma_components_split(x: Seq<char>, y: Seq<char>, cur: Seq<char>)
    ensures
        components_from(x + seq!['/'] + y, cur) == components_from(x, cur) + components(y),
    decreases x.len(),
{
    let whole = x + seq!['/'] + y;
    if x.len() == 0 {
        assert(whole[0] == '/');
        assert(whole.drop_first() =~= y);
    } else {
        assert(whole[0] == x[0]);
        assert(whole.drop_first() =~= x.drop_first() + seq!['/'] + y);
        if x[0] == '/' {
            lemma_components_split(x.drop_first(), y, Seq::empty());
            assert(components_from(whole, cur) =~= components_from(x, cur) + components(y));
        } else {
            lemma_components_split(x.drop_first(), y, cur.push(x[0]));
        }
    }
}

/// Plain names joined with `/` read back as the same names.
proof fn lemma_components_of_joined(segs: Seq<Seq<char>>)
    requires
        forall|i: int| 0 <= i < segs.len() ==> plain_name(#[trigger] segs[i]),
    ensures
        components(join_segments(segs)) == segs,
    decreases segs.len(),
{
    if segs.len() == 0 {
        assert(components(Seq::<char>::empty()) =~= segs);
    } else if segs.len() == 1 {
        assert(plain_name(segs[0]));
        lemma_components_of_name(segs[0], Seq::empty());
        assert(Seq::<char>::empty() + segs[0] =~= segs[0]);
        assert(keep(segs[0]) =~= segs);
    } else {
        let init = segs.drop_last();
        assert forall|i: int| 0 <= i < init.len() implies plain_name(#[trigger] init[i]) by {
            assert(init[i] == segs[i]);
        }
        lemma_components_of_joined(init);
        lemma_components_split(join_segments(init), segs.last(), Seq::empty());
        assert(plain_name(segs[segs.len() - 1]));
        lemma_components_of_name(segs.last(), Seq::empty());
        assert(Seq::<char>::empty() + segs.last() =~= segs.last());
        assert(init + keep(segs.last()) =~= segs);
    }
}

/// A path of one or more plain names joined with `/`: joined to a
/// directory, it names something strictly beneath that directory.
pub open spec fn descendant_path(rest: Seq<char>) -> bool {
    exists|segs: Seq<Seq<char>>|
        segs.len() > 0 && (forall|i: int| 0 <= i < segs.len() ==> plain_name(#[trigger] segs[i]))
            && rest == join_segments(segs)
}

/// No entry is written outside the destination. An absolute entry is
/// refused, and so is one with a `..` component (`../../etc/passwd`); any
/// other entry resolves to the destination itself or to the destination
/// joined with a path of plain names.
pub proof fn lemma_entry_stays_inside(dir: Seq<char>, p: Seq<char>)
    ensures
        p.len() > 0 && p[0] == '/' ==> extract_path(dir, p) == Err::<Seq<char>, PathViolation>(
            PathViolation::Absolute,
        ),
        components(p).contains(dot_dot()) ==> extract_path(dir, p) is Err,
        extract_path(dir, p) is Ok ==> {
            let r = extract_path(dir, p)->Ok_0;
            r == dir || exists|rest: Seq<char>| descendant_path(rest) && r == join_path(dir, rest)
        },
{
    if extract_path(dir, p) is Ok {
        let cs = components(p);
        let segs = strip_top(cs);
        lemma_components_are_names(p, Seq::empty());
        if segs.len() > 0 {
            assert forall|i: int| 0 <= i < segs.len() implies plain_name(#[trigger] segs[i]) by {
                let k = if cs.len() > 0 && starts_with(cs[0], PREFIX@) { i + 1 } else { i };
                assert(segs[i] == cs[k]);
                assert(cs[k] != dot_dot()) by {
                    if cs[k] == dot_dot() {
                        assert(cs.contains(dot_dot()));
                    }
                }
            }
            assert(descendant_path(join_segments(segs)));
        }
    }
}

/// The synthetic top-level directory is dropped: the entry
/// `<top>/<names...>`, where `top` starts with the prefix, lands at the
/// destination joined with the names alone.
pub proof fn lemma_top_level_dropped(dir: Seq<char>, top: Seq<char>, segs: Seq<Seq<char>>)
    requires
        plain_name(top),
        starts_with(top, PREFIX@),
        forall|i: int| 0 <= i < segs.len() ==> plain_name(#[trigger] segs[i]),
    ensures
        extract_path(dir, top + seq!['/'] + join_segments(segs)) == Ok::<Seq<char>, PathViolation>(
            resolve(dir, segs),
        ),
{
    let p = top + seq!['/'] + join_segments(segs);
    lemma_components_split(top, join_segments(segs), Seq::empty());
    lemma_components_of_name(top, Seq::empty());
    lemma_components_of_joined(segs);
    assert(Seq::<char>::empty() + top =~= top);
    let cs = components(p);
    assert(cs =~= seq![top] + segs);
    assert(strip_top(cs) =~= segs);
    assert(p[0] == top[0]);
    assert(top[0] != '/') by {
        assert(!top.contains('/'));
    }
    assert(!cs.contains(dot_dot())) by {
        if cs.contains(dot_dot()) {
            let k = choose|k: int| 0 <= k < cs.len() && cs[k] == dot_dot();
            if k > 0 {
                assert(cs[k] == segs[k - 1]);
            }
        }
    }
}

} // verus!
