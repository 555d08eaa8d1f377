use vstd::prelude::*;

use crate::geometry::{mul_dims, MAX_PIXELS};
use crate::img::{recv_image, Img};

verus! {

/// Why the registry could not hand an image out.
#[derive(Clone, Copy, Debug, PartialEq, Eq, Structural)]
pub enum LoadError {
    /// No load task was ever registered for the path.
    UnknownPath,
    /// The loader gave up: its channel closed without an image.
    Failed,
    /// The loader sent an image the pipeline cannot hold: empty, or beyond
    /// `MAX_PIXELS`.
    Unusable,
}

/// The deduplicated source-image loader: one registered load task per unique
/// path, each delivered at most once and cached for the rest of the run.
pub struct Registry {
    paths: Vec<String>,
    sources: Vec<std::sync::mpsc::Receiver<image::DynamicImage>>,
    loaded: Vec<Option<Img>>,
}

impl Registry {
    /// The number of registered paths.
    pub closed spec fn len(self) -> nat {
        self.paths@.len()
    }

    /// Structural soundness: one source and one cache slot per path, no path
    /// registered twice, every cached image well formed.
    pub closed spec fn wf(self) -> bool {
        &&& self.sources@.len() == self.paths@.len()
        &&& self.loaded@.len() == self.paths@.len()
        &&& forall|i: int, j: int|
            0 <= i < j < self.paths@.len() ==> self.paths@[i]@ != self.paths@[j]@
        &&& forall|i: int|
            0 <= i < self.loaded@.len() && self.loaded@[i] is Some ==> self.loaded@[i]->0.wf()
    }

    /// A load task exists for the path.
    pub closed spec fn registered(self, k: Seq<char>) -> bool {
        exists|i: int| 0 <= i < self.paths@.len() && self.paths@[i]@ == k
    }

    spec fn idx(self, k: Seq<char>) -> int {
        choose|i: int| 0 <= i < self.paths@.len() && self.paths@[i]@ == k
    }

    /// The path's image has been delivered and sits in the cache.
    pub closed spec fn delivered(self, k: Seq<char>) -> bool {
        self.registered(k) && self.loaded@[self.idx(k)] is Some
    }

    /// The cached image of a delivered path.
    pub closed spec fn image_at(self, k: Seq<char>) -> Img {
        self.loaded@[self.idx(k)]->0
    }

    /// `self` holds everything `other` holds: a delivery is never undone and
    /// a cached image never changes.
    pub open spec fn extends(self, other: Registry) -> bool {
        forall|k: Seq<char>|
            #[trigger] other.delivered(k) ==> self.delivered(k) && self.image_at(k)
                == other.image_at(k)
    }

    proof fn lemma_idx(self, k: Seq<char>, i: int)
        requires
            self.wf(),
            0 <= i < self.paths@.len(),
            self.paths@[i]@ == k,
        ensures
            self.registered(k),
            self.idx(k) == i,
    {
        assert(self.registered(k));
        let j = self.idx(k);
        assert(0 <= j < self.paths@.len() && self.paths@[j]@ == k);
        if i < j {
            assert(self.paths@[i]@ != self.paths@[j]@);
        } else if j < i {
            assert(self.paths@[j]@ != self.paths@[i]@);
        }
    }

    /// An empty registry: no load task, nothing delivered.
    pub fn new() -> (r: Registry)
        ensures
            r.wf(),
            r.len() == 0,
            forall|k: Seq<char>| !r.registered(k),
            forall|k: Seq<char>| !r.delivered(k),
    {
        let r = Registry { paths: Vec::new(), sources: Vec::new(), loaded: Vec::new() };
        proof {
            assert(forall|k: Seq<char>| !r.registered(k));
        }
        r
    }

    /// Whether a load task is already registered for the path.
    pub fn contains(&self, path: &str) -> (r: bool)
        requires
            self.wf(),
        ensures
            r == self.registered(path@),
    {
        let n = self.paths.len();
        let mut i: usize = 0;
        while i < n
            invariant
                n == self.paths@.len(),
                i <= n,
                forall|j: int| 0 <= j < i ==> self.paths@[j]@ != path@,
            decreases n - i,
        {
            if crate::strutil::str_eq(self.paths[i].as_str(), path) {
                proof {
                    assert(self.registered(path@));
                }
                return true;
            }
            i += 1;
        }
        proof {
            if self.registered(path@) {
                let w = choose|j: int| 0 <= j < self.paths@.len() && self.paths@[j]@ == path@;
                assert(self.paths@[w]@ != path@);
            }
        }
        false
    }

    /// Register the one load task for a path that has none yet. The caller
    /// spawns the loader; the registry keeps the receiving end.
    pub fn register(
        &mut self,
        path: String,
        source: std::sync::mpsc::Receiver<image::DynamicImage>,
    )
        requires
            old(self).wf(),
            !old(self).registered(path@),
        ensures
            final(self).wf(),
            final(self).len() == old(self).len() + 1,
            final(self).registered(path@),
            final(self).extends(*old(self)),
            forall|k: Seq<char>|
                #[trigger] final(self).registered(k) == (old(self).registered(k) || k == path@),
            forall|k: Seq<char>| #[trigger] final(self).delivered(k) == old(self).delivered(k),
    {
        let ghost pre = *self;
        let ghost n = self.paths@.len() as int;
        self.paths.push(path);
        self.sources.push(source);
        self.loaded.push(None);
        proof {
            assert forall|i: int, j: int|
                0 <= i < j < self.paths@.len() implies self.paths@[i]@ != self.paths@[j]@ by {
                if j < n {
                    assert(pre.paths@[i]@ != pre.paths@[j]@);
                } else {
                    assert(self.paths@[j]@ == path@);
                    pre.lemma_registered_witness(i);
                }
            }
            assert(self.wf());
            self.lemma_idx(path@, n);
            assert forall|k: Seq<char>|
                #[trigger] self.registered(k) == (pre.registered(k) || k == path@) by {
                if pre.registered(k) {
                    let w = choose|i: int| 0 <= i < pre.paths@.len() && pre.paths@[i]@ == k;
                    assert(self.paths@[w]@ == k);
                }
                if self.registered(k) && k != path@ {
                    let w = choose|i: int| 0 <= i < self.paths@.len() && self.paths@[i]@ == k;
                    assert(w < n && pre.paths@[w]@ == k);
                }
            }
            assert forall|k: Seq<char>| #[trigger] self.delivered(k) == pre.delivered(k) by {
                self.lemma_same_slot(pre, k, n);
            }
            assert forall|k: Seq<char>| pre.delivered(k) implies self.delivered(k)
                && self.image_at(k) == pre.image_at(k) by {
                self.lemma_same_slot(pre, k, n);
            }
        }
    }

    proof fn lemma_registered_witness(self, i: int)
        requires
            0 <= i < self.paths@.len(),
        ensures
            self.registered(self.paths@[i]@),
    {
    }

    proof fn lemma_same_slot(self, pre: Registry, k: Seq<char>, n: int)
        requires
            pre.wf(),
            self.wf(),
            n == pre.paths@.len(),
            self.paths@.len() == n + 1,
            self.loaded@.len() == n + 1,
            forall|i: int| 0 <= i < n ==> self.paths@[i] == pre.paths@[i],
            forall|i: int| 0 <= i < n ==> self.loaded@[i] == pre.loaded@[i],
            self.loaded@[n] is None,
        ensures
            self.delivered(k) == pre.delivered(k),
            pre.delivered(k) ==> self.image_at(k) == pre.image_at(k),
    {
        if pre.registered(k) {
            let w = choose|i: int| 0 <= i < pre.paths@.len() && pre.paths@[i]@ == k;
            pre.lemma_idx(k, w);
            self.lemma_idx(k, w);
        } else {
            if self.registered(k) {
                let w = choose|i: int| 0 <= i < self.paths@.len() && self.paths@[i]@ == k;
                if w < n {
                    pre.lemma_registered_witness(w);
                } else {
                    self.lemma_idx(k, n);
                    assert(!self.delivered(k));
                }
            }
        }
    }

    /// Hand out the image for a path: the first request blocks on the load
    /// task and caches the result; every later request is served from the
    /// cache without touching the loader again. Each caller owns its copy.
    pub fn deliver(&mut self, path: &str) -> (r: Result<Img, LoadError>)
        requires
            old(self).wf(),
        ensures
            final(self).wf(),
            final(self).extends(*old(self)),
            forall|k: Seq<char>|
                #[trigger] final(self).registered(k) == old(self).registered(k),
            forall|k: Seq<char>|
                k != path@ ==> #[trigger] final(self).delivered(k) == old(self).delivered(k),
            match r {
                Ok(img) => {
                    &&& img.wf()
                    &&& old(self).registered(path@)
                    &&& final(self).delivered(path@)
                    &&& final(self).image_at(path@) == img
                    &&& (old(self).delivered(path@) ==> img == old(self).image_at(path@))
                },
                Err(e) => {
                    &&& *final(self) == *old(self)
                    &&& !final(self).delivered(path@)
                    &&& (e == LoadError::UnknownPath <==> !old(self).registered(path@))
                },
            },
            old(self).delivered(path@) ==> r is Ok && *final(self) == *old(self),
    {
        let n = self.paths.len();
        let mut i: usize = 0;
        while i < n && !crate::strutil::str_eq(self.paths[i].as_str(), path)
            invariant
                n == self.paths@.len(),
                i <= n,
                forall|j: int| 0 <= j < i ==> self.paths@[j]@ != path@,
            decreases n - i,
        {
            i += 1;
        }
        if i == n {
            proof {
                if self.registered(path@) {
                    let w = choose|j: int| 0 <= j < self.paths@.len() && self.paths@[j]@ == path@;
                    assert(self.paths@[w]@ != path@);
                }
            }
            return Err(LoadError::UnknownPath);
        }
        proof {
            self.lemma_idx(path@, i as int);
        }
        match &self.loaded[i] {
            Some(img) => {
                return Ok(img.duplicate());
            },
            None => {},
        }
        let got = recv_image(&self.sources[i]);
        match got {
            None => Err(LoadError::Failed),
            Some(img) => {
                let w = img.width();
                let h = img.height();
                if w == 0 || h == 0 || mul_dims(w, h) > MAX_PIXELS {
                    return Err(LoadError::Unusable);
                }
                let ghost pre = *self;
                let copy = img.duplicate();
                self.loaded.set(i, Some(img));
                proof {
                    assert(self.wf());
                    self.lemma_idx(path@, i as int);
                    assert(self.delivered(path@));
                    assert(self.image_at(path@) == copy);
                    assert forall|k: Seq<char>| k != path@ implies #[trigger] self.delivered(k)
                        == pre.delivered(k) && (pre.delivered(k) ==> self.image_at(k)
                        == pre.image_at(k)) by {
                        self.lemma_other_slot(pre, k, i as int);
                    }
                }
                Ok(copy)
            },
        }
    }

    proof fn lemma_other_slot(self, pre: Registry, k: Seq<char>, i: int)
        requires
            pre.wf(),
            self.wf(),
            0 <= i < pre.paths@.len(),
            self.paths@ == pre.paths@,
            self.loaded@.len() == pre.loaded@.len(),
            forall|j: int| 0 <= j < pre.loaded@.len() && j != i ==> self.loaded@[j] == pre.loaded@[j],
            k != pre.paths@[i]@,
        ensures
            self.delivered(k) == pre.delivered(k),
            pre.delivered(k) ==> self.image_at(k) == pre.image_at(k),
    {
        if pre.registered(k) {
            let w = choose|j: int| 0 <= j < pre.paths@.len() && pre.paths@[j]@ == k;
            pre.lemma_idx(k, w);
            self.lemma_idx(k, w);
            assert(w != i);
        }
    }
}

} // verus!
