use std::collections::VecDeque;

use vstd::prelude::*;

use crate::season::ImageHash;
use crate::text::{decimal_text, push_decimal, push_str, string_of};

verus! {

/// How many images are loaded together.
pub const IMAGE_BATCH: usize = 10;

/// How an image is to be sized.
#[derive(Clone, Copy, Debug, PartialEq, Eq, Structural)]
pub enum ImageHint {
    /// Fit centered within the bounds.
    Fit(u32, u32),
    /// Fill the bounds.
    Fill(u32, u32),
}

/// The text of a sizing hint: `fit-WxH` or `fill-WxH`.
pub open spec fn hint_text(h: ImageHint) -> Seq<char> {
    match h {
        ImageHint::Fit(w, ht) => "fit-"@ + decimal_text(w as nat) + "x"@ + decimal_text(ht as nat),
        ImageHint::Fill(w, ht) => "fill-"@ + decimal_text(w as nat) + "x"@ + decimal_text(
            ht as nat,
        ),
    }
}

impl ImageHint {
    /// The hint as text.
    pub fn to_string(&self) -> (s: String)
        ensures
            s@ == hint_text(*self),
    {
        let (mut s, w, h) = match self {
            ImageHint::Fit(w, h) => (string_of("fit-"), *w, *h),
            ImageHint::Fill(w, h) => (string_of("fill-"), *w, *h),
        };
        push_decimal(&mut s, w as u64);
        push_str(&mut s, "x");
        push_decimal(&mut s, h as u64);
        s
    }
}

/// The key of an image held in memory: which image, and how it is sized.
#[derive(Clone, Copy, Debug, PartialEq, Eq, Structural)]
pub struct ImageKey {
    pub id: ImageHash,
    pub hint: Option<ImageHint>,
}

/// The keys of the given images, all with the same hint.
pub open spec fn keys_of(ids: Seq<ImageHash>, hint: Option<ImageHint>) -> Seq<ImageKey> {
    Seq::new(ids.len(), |i: int| ImageKey { id: ids[i], hint })
}

/// The marked images that still have to be loaded, in the order they were marked.
pub open spec fn to_load(marked: Seq<ImageKey>, loaded: Set<ImageKey>) -> Seq<ImageKey>
    decreases marked.len(),
{
    if marked.len() == 0 {
        Seq::empty()
    } else {
        let rest = to_load(marked.drop_last(), loaded);
        if loaded.contains(marked.last()) {
            rest
        } else {
            rest.push(marked.last())
        }
    }
}

/// The next image in the queue that is not in memory, and what stays queued after it.
pub open spec fn next_unloaded(queue: Seq<ImageKey>, loaded: Set<ImageKey>) -> (
    Option<ImageKey>,
    Seq<ImageKey>,
)
    decreases queue.len(),
{
    if queue.len() == 0 {
        (None, queue)
    } else if loaded.contains(queue[0]) {
        next_unloaded(queue.drop_first(), loaded)
    } else {
        (Some(queue[0]), queue.drop_first())
    }
}

/// Up to `n` images taken from the queue one by one, and what stays queued.
pub open spec fn batch_of(queue: Seq<ImageKey>, loaded: Set<ImageKey>, n: nat) -> (
    Seq<ImageKey>,
    Seq<ImageKey>,
)
    decreases n,
{
    if n == 0 {
        (Seq::empty(), queue)
    } else {
        match next_unloaded(queue, loaded).0 {
            None => (Seq::empty(), next_unloaded(queue, loaded).1),
            Some(k) => {
                let rest = batch_of(next_unloaded(queue, loaded).1, loaded, (n - 1) as nat);
                (seq![k] + rest.0, rest.1)
            },
        }
    }
}

/// The images that the assets hold: what is asked for, and what is in memory.
pub struct AssetsModel {
    /// Whether images not marked again are dropped at the next commit.
    pub clear: bool,
    /// Images waiting to be loaded, in order.
    pub queue: Seq<ImageKey>,
    /// Images marked for use since the last commit.
    pub marked: Seq<ImageKey>,
    /// Images in memory.
    pub loaded: Set<ImageKey>,
}

/// The images in memory after a commit.
pub open spec fn committed_loaded(m: AssetsModel) -> Set<ImageKey> {
    if m.clear {
        m.loaded.intersect(m.marked.to_set())
    } else {
        m.loaded
    }
}

/// The assets after a commit: a cleared cache drops what was not marked again and forgets its
/// queue; then each marked image not in memory is queued.
pub open spec fn commit_model(m: AssetsModel) -> AssetsModel {
    AssetsModel {
        clear: false,
        queue: (if m.clear {
            Seq::empty()
        } else {
            m.queue
        }) + to_load(m.marked, committed_loaded(m)),
        marked: Seq::empty(),
        loaded: committed_loaded(m),
    }
}

/// Keeps track of the images that are to be loaded and those held in memory.
pub struct Assets {
    clear: bool,
    image_queue: VecDeque<ImageKey>,
    marked: Vec<ImageKey>,
    /// The keys of the images in memory, each once.
    loaded: Vec<ImageKey>,
}

proof fn lemma_push_contains(s: Seq<ImageKey>, x: ImageKey, k: ImageKey)
    ensures
        s.push(x).contains(k) <==> (s.contains(k) || k == x),
{
    if s.contains(k) {
        let i = choose|i: int| 0 <= i < s.len() && s[i] == k;
        assert(s.push(x)[i] == k);
    }
    if k == x {
        assert(s.push(x)[s.len() as int] == k);
    }
    if s.push(x).contains(k) {
        let i = choose|i: int| 0 <= i < s.push(x).len() && s.push(x)[i] == k;
        if i < s.len() {
            assert(s[i] == k);
        }
    }
}

proof fn lemma_push_no_duplicates(s: Seq<ImageKey>, x: ImageKey)
    requires
        s.no_duplicates(),
        !s.contains(x),
    ensures
        s.push(x).no_duplicates(),
{
    assert forall|i: int, j: int|
        0 <= i < s.push(x).len() && 0 <= j < s.push(x).len() && i != j implies s.push(x)[i]
        != s.push(x)[j] by {
        if i < s.len() && j == s.len() {
            assert(s[i] == s.push(x)[i]);
        }
        if j < s.len() && i == s.len() {
            assert(s[j] == s.push(x)[j]);
        }
    }
}

proof fn lemma_to_load_in(marked: Seq<ImageKey>, loaded: Set<ImageKey>, k: ImageKey)
    ensures
        to_load(marked, loaded).contains(k) <==> (marked.contains(k) && !loaded.contains(k)),
    decreases marked.len(),
{
    if marked.len() > 0 {
        let d = marked.drop_last();
        let l = marked.last();
        lemma_to_load_in(d, loaded, k);
        assert(marked =~= d.push(l));
        lemma_push_contains(d, l, k);
        lemma_push_contains(to_load(d, loaded), l, k);
    }
}

proof fn lemma_to_load_push(marked: Seq<ImageKey>, loaded: Set<ImageKey>, k: ImageKey)
    ensures
        to_load(marked.push(k), loaded) == if loaded.contains(k) {
            to_load(marked, loaded)
        } else {
            to_load(marked, loaded).push(k)
        },
{
    assert(marked.push(k).drop_last() =~= marked);
}

impl Assets {
    /// The view of the assets.
    pub closed spec fn view(&self) -> AssetsModel {
        AssetsModel {
            clear: self.clear,
            queue: self.image_queue@,
            marked: self.marked@,
            loaded: self.loaded@.to_set(),
        }
    }

    /// Each image in memory is recorded once.
    pub closed spec fn wf(&self) -> bool {
        self.loaded@.no_duplicates()
    }

    /// Nothing marked, queued or in memory.
    pub fn new() -> (a: Assets)
        ensures
            a.wf(),
            a.view().clear == false,
            a.view().queue == Seq::<ImageKey>::empty(),
            a.view().marked == Seq::<ImageKey>::empty(),
            a.view().loaded == Set::<ImageKey>::empty(),
    {
        let a = Assets {
            clear: false,
            image_queue: VecDeque::new(),
            marked: Vec::new(),
            loaded: Vec::new(),
        };
        assert(a.loaded@.to_set() =~= Set::<ImageKey>::empty());
        a
    }

    /// Drops, at the next commit, the images in memory that are not marked again.
    pub fn clear(&mut self)
        ensures
            final(self).wf() == old(self).wf(),
            final(self).view() == (AssetsModel { clear: true, ..old(self).view() }),
    {
        self.clear = true;
    }

    /// Whether the images in memory are to be dropped at the next commit.
    pub fn is_cleared(&self) -> (r: bool)
        ensures
            r == self.view().clear,
    {
        self.clear
    }

    /// Marks images for use, without a sizing hint.
    pub fn mark(&mut self, ids: &[ImageHash])
        ensures
            final(self).wf() == old(self).wf(),
            final(self).view() == (AssetsModel {
                marked: old(self).view().marked + keys_of(ids@, None),
                ..old(self).view()
            }),
    {
        self.mark_keys(ids, None);
    }

    /// Marks images for use with the given sizing hint.
    pub fn mark_with_hint(&mut self, ids: &[ImageHash], hint: ImageHint)
        ensures
            final(self).wf() == old(self).wf(),
            final(self).view() == (AssetsModel {
                marked: old(self).view().marked + keys_of(ids@, Some(hint)),
                ..old(self).view()
            }),
    {
        self.mark_keys(ids, Some(hint));
    }

    fn mark_keys(&mut self, ids: &[ImageHash], hint: Option<ImageHint>)
        ensures
            final(self).wf() == old(self).wf(),
            final(self).view() == (AssetsModel {
                marked: old(self).view().marked + keys_of(ids@, hint),
                ..old(self).view()
            }),
    {
        let ghost start = self.marked@;
        let mut i: usize = 0;
        while i < ids.len()
            invariant
                i <= ids.len(),
                self.marked@ == start + keys_of(ids@.take(i as int), hint),
                self.clear == old(self).clear,
                self.image_queue@ == old(self).image_queue@,
                self.loaded@ == old(self).loaded@,
                start == old(self).marked@,
            decreases ids.len() - i,
        {
            self.marked.push(ImageKey { id: ids[i], hint });
            assert(keys_of(ids@.take(i + 1), hint) =~= keys_of(ids@.take(i as int), hint).push(
                ImageKey { id: ids@[i as int], hint },
            ));
            i = i + 1;
        }
        assert(ids@.take(i as int) =~= ids@);
    }

    /// Whether the image is in memory.
    pub fn contains(&self, key: &ImageKey) -> (r: bool)
        ensures
            r == self.view().loaded.contains(*key),
    {
        seq_contains(&self.loaded, key)
    }

    /// Records images that were loaded into memory.
    pub fn insert_images(&mut self, keys: &[ImageKey])
        requires
            old(self).wf(),
        ensures
            final(self).wf(),
            final(self).view() == (AssetsModel {
                loaded: old(self).view().loaded.union(keys@.to_set()),
                ..old(self).view()
            }),
    {
        let mut i: usize = 0;
        while i < keys.len()
            invariant
                i <= keys.len(),
                self.loaded@.no_duplicates(),
                self.loaded@.to_set() == old(self).loaded@.to_set().union(
                    keys@.take(i as int).to_set(),
                ),
                self.clear == old(self).clear,
                self.image_queue@ == old(self).image_queue@,
                self.marked@ == old(self).marked@,
            decreases keys.len() - i,
        {
            let key = keys[i];
            let ghost prev = self.loaded@;
            if !seq_contains(&self.loaded, &key) {
                proof {
                    lemma_push_no_duplicates(prev, key);
                }
                self.loaded.push(key);
            }
            assert(keys@.take(i + 1) =~= keys@.take(i as int).push(key));
            assert forall|k: ImageKey| #[trigger] self.loaded@.contains(k) <==> (prev.contains(k)
                || k == key) by {
                lemma_push_contains(prev, key, k);
                lemma_push_contains(keys@.take(i as int), key, k);
            }
            assert forall|k: ImageKey| #[trigger] keys@.take(i + 1).contains(k) <==> (keys@.take(
                i as int,
            ).contains(k) || k == key) by {
                lemma_push_contains(keys@.take(i as int), key, k);
            }
            assert forall|k: ImageKey| #[trigger] self.loaded@.to_set().contains(k) == old(
                self,
            ).loaded@.to_set().union(keys@.take(i + 1).to_set()).contains(k) by {
                assert(prev.to_set().contains(k) == prev.contains(k));
                assert(keys@.take(i as int).to_set().contains(k) == keys@.take(i as int).contains(
                    k,
                ));
                assert(self.loaded@.contains(k) == (prev.contains(k) || k == key));
                assert(keys@.take(i + 1).contains(k) == (keys@.take(i as int).contains(k) || k
                    == key));
            }
            assert(self.loaded@.to_set() =~= old(self).loaded@.to_set().union(
                keys@.take(i + 1).to_set(),
            ));
            i = i + 1;
        }
        assert(keys@.take(i as int) =~= keys@);
    }

    /// Commits the marked images: if the assets were cleared, the images in memory that are not
    /// marked again are dropped (their keys are returned) and the queue is forgotten; then each
    /// marked image that is not in memory is queued for loading.
    pub fn commit(&mut self) -> (dropped: Vec<ImageKey>)
        requires
            old(self).wf(),
        ensures
            final(self).wf(),
            final(self).view() == commit_model(old(self).view()),
            dropped@.no_duplicates(),
            dropped@.to_set() == old(self).view().loaded.difference(
                committed_loaded(old(self).view()),
            ),
    {
        let mut dropped: Vec<ImageKey> = Vec::new();
        if self.clear {
            let mut kept: Vec<ImageKey> = Vec::new();
            let mut i: usize = 0;
            while i < self.loaded.len()
                invariant
                    i <= self.loaded.len(),
                    self.loaded@ == old(self).loaded@,
                    self.marked@ == old(self).marked@,
                    self.loaded@.no_duplicates(),
                    kept@.no_duplicates(),
                    dropped@.no_duplicates(),
                    forall|k: ImageKey|
                        #![trigger kept@.contains(k)]
                        kept@.contains(k) <==> (self.loaded@.take(i as int).contains(k)
                            && self.marked@.contains(k)),
                    forall|k: ImageKey|
                        #![trigger dropped@.contains(k)]
                        dropped@.contains(k) <==> (self.loaded@.take(i as int).contains(k)
                            && !self.marked@.contains(k)),
                decreases self.loaded.len() - i,
            {
                let key = self.loaded[i];
                proof {
                    assert(!self.loaded@.take(i as int).contains(key)) by {
                        if self.loaded@.take(i as int).contains(key) {
                            let j = choose|j: int|
                                0 <= j < i && self.loaded@.take(i as int)[j] == key;
                            assert(self.loaded@[j] == self.loaded@[i as int]);
                        }
                    }
                    assert(self.loaded@.take(i + 1) =~= self.loaded@.take(i as int).push(key));
                    assert forall|k: ImageKey|
                        #[trigger] self.loaded@.take(i + 1).contains(k) <==> (self.loaded@.take(
                            i as int,
                        ).contains(k) || k == key) by {
                        lemma_push_contains(self.loaded@.take(i as int), key, k);
                    }
                }
                let ghost pk = kept@;
                let ghost pd = dropped@;
                if seq_contains(&self.marked, &key) {
                    proof {
                        lemma_push_no_duplicates(pk, key);
                    }
                    kept.push(key);
                } else {
                    proof {
                        lemma_push_no_duplicates(pd, key);
                    }
                    dropped.push(key);
                }
                assert forall|k: ImageKey| #[trigger] kept@.contains(k) <==> (pk.contains(k) || (
                k == key && self.marked@.contains(key))) by {
                    lemma_push_contains(pk, key, k);
                }
                assert forall|k: ImageKey| #[trigger] dropped@.contains(k) <==> (pd.contains(k) || (
                k == key && !self.marked@.contains(key))) by {
                    lemma_push_contains(pd, key, k);
                }
                i = i + 1;
            }
            assert(self.loaded@.take(i as int) =~= self.loaded@);
            assert(kept@.to_set() =~= old(self).loaded@.to_set().intersect(
                old(self).marked@.to_set(),
            ));
            assert(dropped@.to_set() =~= old(self).loaded@.to_set().difference(
                committed_loaded(old(self).view()),
            ));
            self.loaded = kept;
            self.image_queue.clear();
            self.clear = false;
        } else {
            assert(dropped@.to_set() =~= old(self).loaded@.to_set().difference(
                committed_loaded(old(self).view()),
            ));
        }
        let ghost base = self.image_queue@;
        let mut j: usize = 0;
        while j < self.marked.len()
            invariant
                j <= self.marked.len(),
                self.marked@ == old(self).marked@,
                self.loaded@.no_duplicates(),
                !self.clear,
                base == (if old(self).clear {
                    Seq::<ImageKey>::empty()
                } else {
                    old(self).image_queue@
                }),
                self.loaded@.to_set() == committed_loaded(old(self).view()),
                self.image_queue@ == base + to_load(
                    self.marked@.take(j as int),
                    self.loaded@.to_set(),
                ),
            decreases self.marked.len() - j,
        {
            let key = self.marked[j];
            proof {
                lemma_to_load_push(self.marked@.take(j as int), self.loaded@.to_set(), key);
                assert(self.marked@.take(j + 1) =~= self.marked@.take(j as int).push(key));
            }
            if !seq_contains(&self.loaded, &key) {
                self.image_queue.push_back(key);
            }
            j = j + 1;
        }
        assert(self.marked@.take(j as int) =~= self.marked@);
        self.marked.clear();
        dropped
    }

    /// Takes the next queued image that is not in memory.
    pub fn next_image(&mut self) -> (r: Option<ImageKey>)
        requires
            old(self).wf(),
        ensures
            final(self).wf(),
            (r, final(self).view().queue) == next_unloaded(
                old(self).view().queue,
                old(self).view().loaded,
            ),
            final(self).view() == (AssetsModel {
                queue: final(self).view().queue,
                ..old(self).view()
            }),
    {
        loop
            invariant
                self.loaded@ == old(self).loaded@,
                self.marked@ == old(self).marked@,
                self.clear == old(self).clear,
                self.loaded@.no_duplicates(),
                next_unloaded(self.image_queue@, self.loaded@.to_set()) == next_unloaded(
                    old(self).image_queue@,
                    old(self).loaded@.to_set(),
                ),
            decreases self.image_queue@.len(),
        {
            let ghost before = self.image_queue@;
            match self.image_queue.pop_front() {
                None => {
                    return None;
                },
                Some(key) => {
                    assert(before.drop_first() =~= self.image_queue@);
                    if seq_contains(&self.loaded, &key) {
                        continue ;
                    }
                    return Some(key);
                },
            }
        }
    }

    /// Takes up to `batch` queued images that are not in memory, one after the other.
    pub fn next_batch(&mut self, batch: usize) -> (r: Vec<ImageKey>)
        requires
            old(self).wf(),
        ensures
            final(self).wf(),
            (r@, final(self).view().queue) == batch_of(
                old(self).view().queue,
                old(self).view().loaded,
                batch as nat,
            ),
            final(self).view() == (AssetsModel {
                queue: final(self).view().queue,
                ..old(self).view()
            }),
    {
        let mut r: Vec<ImageKey> = Vec::new();
        loop
            invariant_except_break
                r@.len() <= batch,
                self.wf(),
                self.view() == (AssetsModel { queue: self.view().queue, ..old(self).view() }),
                batch_of(old(self).view().queue, old(self).view().loaded, batch as nat) == (
                    r@ + batch_of(
                        self.view().queue,
                        old(self).view().loaded,
                        (batch - r@.len()) as nat,
                    ).0,
                    batch_of(
                        self.view().queue,
                        old(self).view().loaded,
                        (batch - r@.len()) as nat,
                    ).1,
                ),
            ensures
                self.wf(),
                self.view() == (AssetsModel { queue: self.view().queue, ..old(self).view() }),
                (r@, self.view().queue) == batch_of(
                    old(self).view().queue,
                    old(self).view().loaded,
                    batch as nat,
                ),
            decreases batch - r@.len(),
        {
            if r.len() >= batch {
                assert(r@ + Seq::<ImageKey>::empty() =~= r@);
                break;
            }
            let ghost q = self.view().queue;
            let ghost n = (batch - r@.len()) as nat;
            match self.next_image() {
                None => {
                    assert(batch_of(q, old(self).view().loaded, n).0 =~= Seq::<ImageKey>::empty());
                    assert(r@ + Seq::<ImageKey>::empty() =~= r@);
                    break;
                },
                Some(key) => {
                    let ghost before = r@;
                    r.push(key);
                    assert(r@ + batch_of(
                        self.view().queue,
                        old(self).view().loaded,
                        (n - 1) as nat,
                    ).0 =~= before + batch_of(q, old(self).view().loaded, n).0);
                },
            }
        }
        r
    }
}

/// Whether the key occurs in the sequence.
fn seq_contains(v: &Vec<ImageKey>, key: &ImageKey) -> (r: bool)
    ensures
        r == v@.contains(*key),
{
    let mut i: usize = 0;
    while i < v.len()
        invariant
            i <= v.len(),
            forall|j: int| 0 <= j < i ==> v@[j] != *key,
        decreases v.len() - i,
    {
        if v[i] == *key {
            return true;
        }
        i = i + 1;
    }
    false
}

/// A commit leaves each marked image either in memory or queued for loading.
pub proof fn lemma_commit_covers_marked(m: AssetsModel, k: ImageKey)
    requires
        m.marked.contains(k),
    ensures
        commit_model(m).loaded.contains(k) || commit_model(m).queue.contains(k),
{
    lemma_to_load_in(m.marked, committed_loaded(m), k);
    let c = commit_model(m);
    let base = if m.clear {
        Seq::<ImageKey>::empty()
    } else {
        m.queue
    };
    if !c.loaded.contains(k) {
        let t = to_load(m.marked, committed_loaded(m));
        let i = choose|i: int| 0 <= i < t.len() && t[i] == k;
        assert(c.queue[base.len() + i] == k);
    }
}

/// After a commit of cleared assets, only images marked again stay in memory.
pub proof fn lemma_cleared_commit_keeps_marked(m: AssetsModel, k: ImageKey)
    requires
        m.clear,
        commit_model(m).loaded.contains(k),
    ensures
        m.marked.contains(k),
        m.loaded.contains(k),
{
}

/// The image taken from the queue is never one already in memory.
pub proof fn lemma_next_unloaded_not_loaded(queue: Seq<ImageKey>, loaded: Set<ImageKey>)
    ensures
        next_unloaded(queue, loaded).0 matches Some(k) ==> !loaded.contains(k),
        next_unloaded(queue, loaded).1.len() <= queue.len(),
    decreases queue.len(),
{
    if queue.len() > 0 {
        lemma_next_unloaded_not_loaded(queue.drop_first(), loaded);
    }
}

} // verus!
