//! The path model used by the sorter and the watcher: a path is its sequence
//! of segments. The filesystem work on real paths happens outside this
//! crate; prefix tests, parents and equality are decided here.

use vstd::prelude::*;

use crate::strutil::push_char;
use crate::strutil::str_eq;

verus! {

/// A filesystem path as the sequence of its segments, root to leaf.
#[derive(Debug, Clone, PartialEq, Eq, Hash)]
pub struct MusoPath {
    pub segments: Vec<String>,
}

impl View for MusoPath {
    type V = Seq<Seq<char>>;

    open spec fn view(&self) -> Seq<Seq<char>> {
        self.segments.deep_view()
    }
}

impl DeepView for MusoPath {
    type V = Seq<Seq<char>>;

    open spec fn deep_view(&self) -> Seq<Seq<char>> {
        self.view()
    }
}

/// Whether `prefix` is a leading run of `whole`'s segments (every path is a
/// prefix of itself).
pub open spec fn spec_prefix_of(prefix: Seq<Seq<char>>, whole: Seq<Seq<char>>) -> bool {
    prefix.len() <= whole.len() && whole.subrange(0, prefix.len() as int) == prefix
}

/// `p` rendered with `/` between segments (no leading or trailing slash).
pub open spec fn spec_render(p: Seq<Seq<char>>) -> Seq<char>
    decreases p.len(),
{
    if p.len() == 0 {
        Seq::empty()
    } else if p.len() == 1 {
        p[0]
    } else {
        spec_render(p.drop_last()).push('/') + p.last()
    }
}

impl MusoPath {
    /// A path from its segments.
    pub fn new(segments: Vec<String>) -> (r: MusoPath)
        ensures
            r@ == segments.deep_view(),
    {
        MusoPath { segments }
    }

    /// The segments, root to leaf.
    pub fn segments(&self) -> (r: &Vec<String>)
        ensures
            r.deep_view() == self@,
    {
        &self.segments
    }

    /// How many segments the path has.
    pub fn depth(&self) -> (r: usize)
        ensures
            r == self@.len(),
    {
        self.segments.len()
    }

    /// An equal path, segment for segment.
    pub fn duplicate(&self) -> (r: MusoPath)
        ensures
            r@ == self@,
    {
        let n = self.segments.len();
        let mut v: Vec<String> = Vec::new();
        let mut i: usize = 0;
        while i < n
            invariant
                0 <= i <= n,
                n == self.segments@.len(),
                forall|l: int| 0 <= l < self.segments@.len() ==> #[trigger] self@[l] == self.segments@[l]@,
                forall|l: int| 0 <= l < v@.len() ==> #[trigger] v.deep_view()[l] == v@[l]@,
                v.deep_view() =~= self@.subrange(0, i as int),
            decreases n - i,
        {
            let item = self.segments[i].clone();
            let ghost pre = v.deep_view();
            v.push(item);
            proof {
                assert(v.deep_view() =~~= pre.push(self@[i as int]));
                assert(v.deep_view() =~~= self@.subrange(0, i + 1));
            }
            i = i + 1;
        }
        proof {
            assert(v.deep_view() =~~= self@);
        }
        MusoPath { segments: v }
    }

    /// Segment-for-segment equality.
    pub fn path_eq(&self, other: &MusoPath) -> (r: bool)
        ensures
            r == (self@ == other@),
    {
        let n = self.segments.len();
        if n != other.segments.len() {
            proof {
                assert(self@.len() != other@.len());
            }
            return false;
        }
        let mut i: usize = 0;
        while i < n
            invariant
                0 <= i <= n,
                n == self.segments@.len(),
                n == other.segments@.len(),
                self@.len() == n,
                other@.len() == n,
                forall|l: int| 0 <= l < self.segments@.len() ==> #[trigger] self@[l] == self.segments@[l]@,
                forall|l: int| 0 <= l < other.segments@.len() ==> #[trigger] other@[l] == other.segments@[l]@,
                forall|l: int| 0 <= l < i ==> self@[l] == other@[l],
            decreases n - i,
        {
            if !str_eq(self.segments[i].as_str(), other.segments[i].as_str()) {
                proof {
                    assert(self@[i as int] != other@[i as int]);
                }
                return false;
            }
            i = i + 1;
        }
        proof {
            assert(self@ =~~= other@);
        }
        true
    }

    /// The path without its last segment; nothing for the empty path.
    pub fn parent(&self) -> (r: Option<MusoPath>)
        ensures
            match r {
                Some(p) => self@.len() > 0 && p@ == self@.drop_last(),
                None => self@.len() == 0,
            },
    {
        let n = self.segments.len();
        if n == 0 {
            return None;
        }
        let mut v: Vec<String> = Vec::new();
        let mut i: usize = 0;
        while i < n - 1
            invariant
                0 <= i <= n - 1,
                n == self.segments@.len(),
                n >= 1,
                forall|l: int| 0 <= l < self.segments@.len() ==> #[trigger] self@[l] == self.segments@[l]@,
                forall|l: int| 0 <= l < v@.len() ==> #[trigger] v.deep_view()[l] == v@[l]@,
                v.deep_view() =~= self@.subrange(0, i as int),
            decreases n - 1 - i,
        {
            let item = self.segments[i].clone();
            let ghost pre = v.deep_view();
            v.push(item);
            proof {
                assert(v.deep_view() =~~= pre.push(self@[i as int]));
                assert(v.deep_view() =~~= self@.subrange(0, i + 1));
            }
            i = i + 1;
        }
        proof {
            assert(v.deep_view() =~~= self@.drop_last());
        }
        Some(MusoPath { segments: v })
    }

    /// Whether this path lies at or below `base`: `base`'s segments are a
    /// leading run of this path's.
    pub fn starts_with(&self, base: &MusoPath) -> (r: bool)
        ensures
            r == spec_prefix_of(base@, self@),
    {
        let nb = base.segments.len();
        if nb > self.segments.len() {
            return false;
        }
        let mut i: usize = 0;
        while i < nb
            invariant
                0 <= i <= nb,
                nb == base.segments@.len(),
                nb <= self.segments@.len(),
                self@.len() == self.segments@.len(),
                base@.len() == nb,
                forall|l: int| 0 <= l < self.segments@.len() ==> #[trigger] self@[l] == self.segments@[l]@,
                forall|l: int| 0 <= l < base.segments@.len() ==> #[trigger] base@[l] == base.segments@[l]@,
                forall|l: int| 0 <= l < i ==> self@[l] == base@[l],
            decreases nb - i,
        {
            if !str_eq(self.segments[i].as_str(), base.segments[i].as_str()) {
                proof {
                    assert(self@[i as int] != base@[i as int]);
                    assert(!spec_prefix_of(base@, self@)) by {
                        if spec_prefix_of(base@, self@) {
                            assert(self@.subrange(0, base@.len() as int)[i as int] == base@.index(
                                i as int,
                            ));
                        }
                    }
                }
                return false;
            }
            i = i + 1;
        }
        proof {
            assert(self@.subrange(0, base@.len() as int) =~~= base@);
        }
        true
    }

    /// The first `k` segments as a path.
    pub fn prefix(&self, k: usize) -> (r: MusoPath)
        requires
            k <= self@.len(),
        ensures
            r@ == self@.subrange(0, k as int),
    {
        let mut v: Vec<String> = Vec::new();
        let mut i: usize = 0;
        while i < k
            invariant
                0 <= i <= k,
                k <= self.segments@.len(),
                forall|l: int| 0 <= l < self.segments@.len() ==> #[trigger] self@[l] == self.segments@[l]@,
                forall|l: int| 0 <= l < v@.len() ==> #[trigger] v.deep_view()[l] == v@[l]@,
                v.deep_view() =~= self@.subrange(0, i as int),
            decreases k - i,
        {
            let item = self.segments[i].clone();
            let ghost pre = v.deep_view();
            v.push(item);
            proof {
                assert(v.deep_view() =~~= pre.push(self@[i as int]));
                assert(v.deep_view() =~~= self@.subrange(0, i + 1));
            }
            i = i + 1;
        }
        MusoPath { segments: v }
    }

    /// The path rendered with `/` between its segments.
    pub fn render(&self) -> (r: String)
        ensures
            r@ == spec_render(self@),
    {
        let n = self.segments.len();
        let mut r = String::new();
        let mut i: usize = 0;
        while i < n
            invariant
                0 <= i <= n,
                n == self.segments@.len(),
                r@ == spec_render(self@.subrange(0, i as int)),
            decreases n - i,
        {
            if i > 0 {
                push_char(&mut r, '/');
            }
            r.append(self.segments[i].as_str());
            proof {
                let sub = self@.subrange(0, i + 1);
                assert(sub.drop_last() =~~= self@.subrange(0, i as int));
                assert(sub.last() == self@[i as int]);
                if i == 0 {
                    assert(r@ =~= spec_render(sub));
                } else {
                    assert(r@ =~= spec_render(sub.drop_last()).push('/') + sub.last());
                }
            }
            i = i + 1;
        }
        proof {
            assert(self@.subrange(0, self@.len() as int) =~= self@);
        }
        r
    }
}

} // verus!
