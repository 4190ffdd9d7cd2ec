use vstd::prelude::*;

verus! {

/// A change to the CPU-side store of one asset kind, by asset id.
#[derive(Clone, Copy, Debug, PartialEq, Eq, Structural)]
pub enum AssetEvent {
    Added(u64),
    Modified(u64),
    Removed(u64),
    LoadedWithDependencies(u64),
    Unused(u64),
}

/// Where the GPU side of an asset stands.
pub enum VulkanAssetLoadingState<P> {
    /// Sent to the preparation worker; nothing GPU-side exists yet.
    Loading,
    /// Prepared and ready for use.
    Loaded(P),
}

pub open spec fn ids_unique<P>(s: Seq<(u64, VulkanAssetLoadingState<P>)>) -> bool {
    forall|i: int, j: int| 0 <= i < s.len() && 0 <= j < s.len() && s[i].0 == s[j].0 ==> i == j
}

pub open spec fn has_id<P>(s: Seq<(u64, VulkanAssetLoadingState<P>)>, id: u64) -> bool {
    exists|i: int| 0 <= i < s.len() && s[i].0 == id
}

/// The ids whose resource is loaded.
pub open spec fn loaded_ids<P>(m: Map<u64, VulkanAssetLoadingState<P>>) -> Set<u64> {
    m.dom().filter(|id: u64| m[id] is Loaded)
}

/// The ids still being prepared.
pub open spec fn loading_ids<P>(m: Map<u64, VulkanAssetLoadingState<P>>) -> Set<u64> {
    m.dom().filter(|id: u64| m[id] is Loading)
}

/// The live resource table of one asset kind.
pub struct VulkanAssets<P> {
    entries: Vec<(u64, VulkanAssetLoadingState<P>)>,
}

impl<P> View for VulkanAssets<P> {
    type V = Map<u64, VulkanAssetLoadingState<P>>;

    closed spec fn view(&self) -> Map<u64, VulkanAssetLoadingState<P>> {
        Map::new(
            |id: u64| has_id(self.entries@, id),
            |id: u64|
                self.entries@[choose|i: int|
                    0 <= i < self.entries@.len() && self.entries@[i].0 == id].1,
        )
    }
}

impl<P> VulkanAssets<P> {
    pub closed spec fn wf(&self) -> bool {
        ids_unique(self.entries@)
    }

    proof fn lemma_at(&self, i: int)
        requires
            self.wf(),
            0 <= i < self.entries@.len(),
        ensures
            self@.contains_key(self.entries@[i].0),
            self@[self.entries@[i].0] == self.entries@[i].1,
    {
        assert(has_id(self.entries@, self.entries@[i].0));
    }

    /// An empty table.
    pub fn new() -> (r: Self)
        ensures
            r.wf(),
            r@ == Map::<u64, VulkanAssetLoadingState<P>>::empty(),
    {
        let r = VulkanAssets { entries: Vec::new() };
        assert(r@ =~= Map::<u64, VulkanAssetLoadingState<P>>::empty());
        r
    }

    fn position(&self, id: u64) -> (r: Option<usize>)
        requires
            self.wf(),
        ensures
            r.is_none() <==> !self@.contains_key(id),
            r matches Some(i) ==> i < self.entries@.len() && self.entries@[i as int].0 == id,
    {
        let mut i: usize = 0;
        while i < self.entries.len()
            invariant
                i <= self.entries@.len(),
                forall|j: int| 0 <= j < i ==> self.entries@[j].0 != id,
            decreases self.entries@.len() - i,
        {
            if self.entries[i].0 == id {
                return Some(i);
            }
            i = i + 1;
        }
        None
    }

    /// The prepared resource of `id`, if it is loaded.
    pub fn get(&self, id: u64) -> (r: Option<&P>)
        requires
            self.wf(),
        ensures
            r matches Some(p) ==> self@.contains_key(id) && self@[id]
                == VulkanAssetLoadingState::Loaded(*p),
            r.is_none() ==> !self@.contains_key(id) || self@[id] is Loading,
    {
        match self.position(id) {
            Some(i) => {
                proof {
                    self.lemma_at(i as int);
                }
                match &self.entries[i].1 {
                    VulkanAssetLoadingState::Loading => None,
                    VulkanAssetLoadingState::Loaded(p) => Some(p),
                }
            },
            None => None,
        }
    }

    /// Whether `id` has an entry, loading or loaded.
    pub fn contains(&self, id: u64) -> (r: bool)
        requires
            self.wf(),
        ensures
            r == self@.contains_key(id),
    {
        self.position(id).is_some()
    }

    /// Decides what one store event does. `extracted` tells whether a
    /// snapshot of the asset could be taken. An added or fully loaded asset
    /// that has no entry yet becomes `Loading` and its snapshot goes to the
    /// worker; a modified asset's snapshot goes to the worker and its entry
    /// stays; nothing else changes anything. Returns whether the snapshot
    /// is sent.
    pub fn on_event(&mut self, event: AssetEvent, extracted: bool) -> (send: bool)
        requires
            old(self).wf(),
        ensures
            final(self).wf(),
            match event {
                AssetEvent::Added(id) | AssetEvent::LoadedWithDependencies(id) => {
                    &&& send == (extracted && !old(self)@.contains_key(id))
                    &&& send ==> final(self)@ == old(self)@.insert(
                        id,
                        VulkanAssetLoadingState::Loading,
                    )
                    &&& !send ==> final(self)@ == old(self)@
                },
                AssetEvent::Modified(_) => send == extracted && final(self)@ == old(self)@,
                AssetEvent::Removed(_) | AssetEvent::Unused(_) => !send && final(self)@ == old(
                    self,
                )@,
            },
    {
        match event {
            AssetEvent::Added(id) | AssetEvent::LoadedWithDependencies(id) => {
                if !extracted || self.contains(id) {
                    return false;
                }
                self.push_new(id, VulkanAssetLoadingState::Loading);
                true
            },
            AssetEvent::Modified(_) => extracted,
            AssetEvent::Removed(_) | AssetEvent::Unused(_) => false,
        }
    }

    fn push_new(&mut self, id: u64, state: VulkanAssetLoadingState<P>)
        requires
            old(self).wf(),
            !old(self)@.contains_key(id),
        ensures
            final(self).wf(),
            final(self)@ == old(self)@.insert(id, state),
    {
        let ghost s = self.entries@;
        self.entries.push((id, state));
        proof {
            let t = self.entries@;
            assert forall|i: int, j: int|
                0 <= i < t.len() && 0 <= j < t.len() && t[i].0 == t[j].0 implies i == j by {
                if i < s.len() && j == s.len() {
                    assert(has_id(s, id));
                }
                if j < s.len() && i == s.len() {
                    assert(has_id(s, id));
                }
            }
            assert forall|k: u64| #[trigger] self@.contains_key(k) == old(self)@.insert(id, state).contains_key(k) by {
                if has_id(s, k) {
                    let w = choose|w: int| 0 <= w < s.len() && s[w].0 == k;
                    assert(t[w].0 == k);
                }
                if k == id {
                    assert(t[s.len() as int].0 == k);
                }
                if has_id(t, k) && k != id {
                    let w = choose|w: int| 0 <= w < t.len() && t[w].0 == k;
                    assert(s[w].0 == k);
                }
            }
            assert forall|k: u64| #[trigger] self@.contains_key(k) implies self@[k] == old(self)@.insert(id, state)[k] by {
                if k == id {
                    self.lemma_at(s.len() as int);
                } else {
                    let w = choose|w: int| 0 <= w < s.len() && s[w].0 == k;
                    self.lemma_at(w);
                    old(self).lemma_at(w);
                }
            }
            assert(self@ =~= old(self)@.insert(id, state));
        }
    }

    /// Installs a prepared resource that came back from the worker. Returns
    /// the resource it replaces, if one was loaded: that one is due for
    /// deferred destruction.
    pub fn apply_result(&mut self, id: u64, prepared: P) -> (replaced: Option<P>)
        requires
            old(self).wf(),
        ensures
            final(self).wf(),
            final(self)@ == old(self)@.insert(id, VulkanAssetLoadingState::Loaded(prepared)),
            old(self)@.contains_key(id) ==> (old(self)@[id] matches VulkanAssetLoadingState::Loaded(p)
                ==> replaced == Some(p)),
            !(old(self)@.contains_key(id) && old(self)@[id] is Loaded) ==> replaced.is_none(),
    {
        match self.position(id) {
            None => {
                self.push_new(id, VulkanAssetLoadingState::Loaded(prepared));
                None
            },
            Some(i) => {
                proof {
                    old(self).lemma_at(i as int);
                }
                let ghost s = self.entries@;
                let mut entry = (id, VulkanAssetLoadingState::Loaded(prepared));
                std::mem::swap(&mut self.entries[i], &mut entry);
                proof {
                    let t = self.entries@;
                    assert(t == s.update(i as int, (id, VulkanAssetLoadingState::Loaded(prepared))));
                    assert forall|a: int, b: int|
                        0 <= a < t.len() && 0 <= b < t.len() && t[a].0 == t[b].0 implies a == b by {
                        assert(s[a].0 == t[a].0 && s[b].0 == t[b].0);
                    }
                    assert forall|k: u64| #[trigger] self@.contains_key(k) == old(self)@.insert(id, VulkanAssetLoadingState::Loaded(prepared)).contains_key(k) by {
                        if has_id(s, k) {
                            let w = choose|w: int| 0 <= w < s.len() && s[w].0 == k;
                            assert(t[w].0 == k);
                        }
                        if has_id(t, k) {
                            let w = choose|w: int| 0 <= w < t.len() && t[w].0 == k;
                            assert(s[w].0 == k);
                        }
                    }
                    assert forall|k: u64| #[trigger] self@.contains_key(k) implies self@[k] == old(self)@.insert(id, VulkanAssetLoadingState::Loaded(prepared))[k] by {
                        let w = choose|w: int| 0 <= w < t.len() && t[w].0 == k;
                        self.lemma_at(w);
                        if k != id {
                            old(self).lemma_at(w);
                        }
                    }
                    assert(self@ =~= old(self)@.insert(id, VulkanAssetLoadingState::Loaded(prepared)));
                }
                match entry.1 {
                    VulkanAssetLoadingState::Loading => None,
                    VulkanAssetLoadingState::Loaded(p) => Some(p),
                }
            },
        }
    }

    /// Empties the table at shutdown: hands back every loaded resource,
    /// for destruction, and tells how many entries were still loading,
    /// which have nothing GPU-side to free.
    pub fn drain(self) -> (r: (Vec<P>, usize))
        requires
            self.wf(),
        ensures
            forall|i: int|
                0 <= i < r.0@.len() ==> exists|id: u64|
                    self@.contains_key(id) && self@[id] == VulkanAssetLoadingState::Loaded(
                        #[trigger] r.0@[i],
                    ),
            forall|id: u64|
                #[trigger] self@.contains_key(id) ==> (self@[id] matches VulkanAssetLoadingState::Loaded(
                    p,
                ) ==> r.0@.contains(p)),
            r.1 > 0 <==> exists|id: u64| #[trigger] self@.contains_key(id) && self@[id] is Loading,
            r.0@.len() == loaded_ids(self@).len(),
            r.1 == loading_ids(self@).len(),
    {
        let ghost full = self@;
        let ghost es = self.entries@;
        let mut entries = self.entries;
        let total = entries.len();
        let mut loaded: Vec<P> = Vec::new();
        let mut loading: usize = 0;
        let ghost mut sl = Set::<u64>::empty();
        let ghost mut sg = Set::<u64>::empty();
        while entries.len() > 0
            invariant
                ids_unique(es),
                sl.finite(),
                sg.finite(),
                loaded@.len() == sl.len(),
                loading == sg.len(),
                forall|id: u64|
                    #[trigger] sl.contains(id) <==> exists|j: int|
                        entries@.len() <= j < es.len() && es[j].0 == id && es[j].1 is Loaded,
                forall|id: u64|
                    #[trigger] sg.contains(id) <==> exists|j: int|
                        entries@.len() <= j < es.len() && es[j].0 == id && es[j].1 is Loading,
                total == es.len(),
                entries@.len() <= es.len(),
                entries@ == es.subrange(0, entries@.len() as int),
                loading <= es.len() - entries@.len(),
                forall|i: int|
                    0 <= i < loaded@.len() ==> exists|j: int|
                        entries@.len() <= j < es.len() && es[j].1 == VulkanAssetLoadingState::Loaded(
                            #[trigger] loaded@[i],
                        ),
                forall|j: int|
                    entries@.len() <= j < es.len() ==> (#[trigger] es[j].1 matches VulkanAssetLoadingState::Loaded(
                        p,
                    ) ==> loaded@.contains(p)),
                loading > 0 <==> exists|j: int| entries@.len() <= j < es.len() && #[trigger] es[j].1 is Loading,
            decreases entries@.len(),
        {
            let ghost n = entries@.len();
            let e = entries.pop().unwrap();
            assert(es[n - 1] == e);
            proof {
                let x = e.0;
                assert(!sl.contains(x) && !sg.contains(x));
                if e.1 is Loaded {
                    sl = sl.insert(x);
                } else {
                    sg = sg.insert(x);
                }
                assert forall|id: u64|
                    #[trigger] sl.contains(id) <==> exists|j: int|
                        n - 1 <= j < es.len() && es[j].0 == id && es[j].1 is Loaded by {
                    if id == x && e.1 is Loaded {
                        assert(es[n - 1].0 == id);
                    }
                }
                assert forall|id: u64|
                    #[trigger] sg.contains(id) <==> exists|j: int|
                        n - 1 <= j < es.len() && es[j].0 == id && es[j].1 is Loading by {
                    if id == x && e.1 is Loading {
                        assert(es[n - 1].0 == id);
                    }
                }
            }
            match e.1 {
                VulkanAssetLoadingState::Loading => {
                    loading = loading + 1;
                },
                VulkanAssetLoadingState::Loaded(p) => {
                    let ghost before = loaded@;
                    loaded.push(p);
                    proof {
                        assert(loaded@[before.len() as int] == p);
                        assert forall|j: int|
                            n - 1 <= j < es.len() implies (#[trigger] es[j].1 matches VulkanAssetLoadingState::Loaded(
                            q,
                        ) ==> loaded@.contains(q)) by {
                            if let VulkanAssetLoadingState::Loaded(q) = es[j].1 {
                                if j >= n {
                                    let w = choose|w: int| 0 <= w < before.len() && before[w] == q;
                                    assert(loaded@[w] == q);
                                }
                            }
                        }
                        assert forall|i: int| 0 <= i < loaded@.len() implies exists|j: int|
                            n - 1 <= j < es.len() && es[j].1 == VulkanAssetLoadingState::Loaded(
                                #[trigger] loaded@[i],
                            ) by {
                            if i < before.len() {
                                assert(loaded@[i] == before[i]);
                            }
                        }
                    }
                },
            }
        }
        proof {
            assert forall|i: int| 0 <= i < loaded@.len() implies exists|id: u64|
                full.contains_key(id) && full[id] == VulkanAssetLoadingState::Loaded(
                    #[trigger] loaded@[i],
                ) by {
                let j = choose|j: int| 0 <= j < es.len() && es[j].1 == VulkanAssetLoadingState::Loaded(loaded@[i]);
                self.lemma_at(j);
            }
            assert forall|id: u64| #[trigger] full.contains_key(id) implies (full[id] matches VulkanAssetLoadingState::Loaded(
                p,
            ) ==> loaded@.contains(p)) by {
                let w = choose|w: int| 0 <= w < es.len() && es[w].0 == id;
                self.lemma_at(w);
            }
            if loading > 0 {
                let j = choose|j: int| 0 <= j < es.len() && es[j].1 is Loading;
                self.lemma_at(j);
            }
            assert forall|id: u64| #[trigger] sl.contains(id) == loaded_ids(full).contains(id) by {
                if sl.contains(id) {
                    let j = choose|j: int| 0 <= j < es.len() && es[j].0 == id && es[j].1 is Loaded;
                    self.lemma_at(j);
                }
                if loaded_ids(full).contains(id) {
                    let w = choose|w: int| 0 <= w < es.len() && es[w].0 == id;
                    self.lemma_at(w);
                }
            }
            assert(sl =~= loaded_ids(full));
            assert forall|id: u64| #[trigger] sg.contains(id) == loading_ids(full).contains(id) by {
                if sg.contains(id) {
                    let j = choose|j: int| 0 <= j < es.len() && es[j].0 == id && es[j].1 is Loading;
                    self.lemma_at(j);
                }
                if loading_ids(full).contains(id) {
                    let w = choose|w: int| 0 <= w < es.len() && es[w].0 == id;
                    self.lemma_at(w);
                }
            }
            assert(sg =~= loading_ids(full));
            if exists|id: u64| #[trigger] full.contains_key(id) && full[id] is Loading {
                let id = choose|id: u64| #[trigger] full.contains_key(id) && full[id] is Loading;
                let w = choose|w: int| 0 <= w < es.len() && es[w].0 == id;
                self.lemma_at(w);
            }
        }
        (loaded, loading)
    }
}

} // verus!
