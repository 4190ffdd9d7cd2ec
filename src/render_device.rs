use vstd::prelude::*;

verus! {

/// Bindless slot of the 1x1 white texture, registered first.
pub const WHITE_TEXTURE_IDX: u32 = 0;

/// Bindless slot of the flat default normal map, registered second.
pub const DEFAULT_NORMAL_TEXTURE_IDX: u32 = 1;

/// Number of slots in the global bindless descriptor array.
pub const MAX_BINDLESS_IMAGES: u32 = 16536;

/// A request for the destruction thread. Handles are the raw 64-bit values
/// of the GPU objects.
#[derive(Clone, Copy, Debug, PartialEq, Eq, Structural)]
pub enum VkDestroyCmd {
    ImageView(u64),
    Image(u64),
    Buffer(u64),
    Swapchain(u64),
    Pipeline(u64),
    PipelineLayout(u64),
    DescriptorSetLayout(u64),
    AccelerationStructure(u64),
    Tick,
}

/// The ring after a request: it joins the newest list.
pub open spec fn ring_request(r: Seq<Seq<VkDestroyCmd>>, c: VkDestroyCmd) -> Seq<Seq<VkDestroyCmd>> {
    r.update(0, r[0].push(c))
}

/// The ring after a tick: a fresh list in front, the oldest one gone.
pub open spec fn ring_tick(r: Seq<Seq<VkDestroyCmd>>) -> Seq<Seq<VkDestroyCmd>> {
    seq![Seq::<VkDestroyCmd>::empty()] + r.drop_last()
}

/// The ring after `k` ticks and no requests.
pub open spec fn after_ticks(r: Seq<Seq<VkDestroyCmd>>, k: nat) -> Seq<Seq<VkDestroyCmd>>
    decreases k,
{
    if k == 0 {
        r
    } else {
        ring_tick(after_ticks(r, (k - 1) as nat))
    }
}

/// Everything destroyed, in order, during `k` ticks with no requests.
pub open spec fn destroyed_within(r: Seq<Seq<VkDestroyCmd>>, k: nat) -> Seq<VkDestroyCmd>
    decreases k,
{
    if k == 0 {
        Seq::empty()
    } else {
        destroyed_within(r, (k - 1) as nat) + after_ticks(r, (k - 1) as nat).last()
    }
}

/// The pending destruction batches, newest first. A request waits for as
/// many ticks as there are batches before it is carried out.
pub struct DestroyRing {
    lists: Vec<Vec<VkDestroyCmd>>,
}

impl View for DestroyRing {
    type V = Seq<Seq<VkDestroyCmd>>;

    closed spec fn view(&self) -> Seq<Seq<VkDestroyCmd>> {
        Seq::new(self.lists@.len(), |i: int| self.lists@[i]@)
    }
}

impl DestroyRing {
    /// An empty ring of `frames_in_flight` batches.
    pub fn new(frames_in_flight: usize) -> (r: Self)
        requires
            frames_in_flight >= 1,
        ensures
            r@.len() == frames_in_flight,
            forall|i: int| 0 <= i < r@.len() ==> r@[i].len() == 0,
    {
        let mut lists: Vec<Vec<VkDestroyCmd>> = Vec::new();
        let mut i: usize = 0;
        while i < frames_in_flight
            invariant
                i <= frames_in_flight,
                lists@.len() == i,
                forall|j: int| 0 <= j < i ==> lists@[j]@.len() == 0,
            decreases frames_in_flight - i,
        {
            lists.push(Vec::new());
            i = i + 1;
        }
        DestroyRing { lists }
    }

    /// Number of batches, that is the delay in ticks.
    pub fn frames_in_flight(&self) -> (r: usize)
        ensures
            r == self@.len(),
    {
        self.lists.len()
    }

    /// Queues `cmd` in the newest batch.
    pub fn request(&mut self, cmd: VkDestroyCmd)
        requires
            old(self)@.len() >= 1,
        ensures
            final(self)@ == ring_request(old(self)@, cmd),
    {
        let mut front = Vec::new();
        std::mem::swap(&mut front, &mut self.lists[0]);
        front.push(cmd);
        self.lists[0] = front;
        proof {
            assert(self@ =~= ring_request(old(self)@, cmd));
        }
    }

    /// Advances one frame: returns the oldest batch, now due for destruction,
    /// and opens a fresh newest batch.
    pub fn tick(&mut self) -> (due: Vec<VkDestroyCmd>)
        requires
            old(self)@.len() >= 1,
        ensures
            final(self)@ == ring_tick(old(self)@),
            due@ == old(self)@.last(),
    {
        let due = self.lists.pop().unwrap();
        self.lists.insert(0, Vec::new());
        proof {
            assert(self@ =~= ring_tick(old(self)@));
        }
        due
    }

    /// Handles one message of the destruction thread: a tick hands back the
    /// batch that is now due, any other command is queued and nothing is due.
    pub fn handle(&mut self, cmd: VkDestroyCmd) -> (due: Vec<VkDestroyCmd>)
        requires
            old(self)@.len() >= 1,
        ensures
            cmd == VkDestroyCmd::Tick ==> final(self)@ == ring_tick(old(self)@) && due@ == old(
                self,
            )@.last(),
            cmd != VkDestroyCmd::Tick ==> final(self)@ == ring_request(old(self)@, cmd)
                && due@.len() == 0,
    {
        match cmd {
            VkDestroyCmd::Tick => self.tick(),
            _ => {
                self.request(cmd);
                Vec::new()
            },
        }
    }
}

proof fn lemma_after_ticks(r: Seq<Seq<VkDestroyCmd>>, k: nat)
    requires
        k <= r.len(),
    ensures
        after_ticks(r, k).len() == r.len(),
        forall|i: int|
            0 <= i < r.len() ==> #[trigger] after_ticks(r, k)[i] == if i < k {
                Seq::<VkDestroyCmd>::empty()
            } else {
                r[i - k]
            },
    decreases k,
{
    if k > 0 {
        lemma_after_ticks(r, (k - 1) as nat);
        let a = after_ticks(r, (k - 1) as nat);
        assert forall|i: int| 0 <= i < r.len() implies #[trigger] after_ticks(r, k)[i] == if i < k {
            Seq::<VkDestroyCmd>::empty()
        } else {
            r[i - k]
        } by {
            if i > 0 {
                assert(after_ticks(r, k)[i] == a[i - 1]);
            }
        }
    }
}

proof fn lemma_destroyed_after_request(r: Seq<Seq<VkDestroyCmd>>, c: VkDestroyCmd, k: nat)
    requires
        r.len() >= 1,
        k <= r.len(),
    ensures
        k < r.len() ==> destroyed_within(ring_request(r, c), k) == destroyed_within(r, k),
        k == r.len() ==> destroyed_within(ring_request(r, c), k) == destroyed_within(r, k).push(
            c,
        ),
    decreases k,
{
    if k > 0 {
        let r2 = ring_request(r, c);
        lemma_destroyed_after_request(r, c, (k - 1) as nat);
        lemma_after_ticks(r, (k - 1) as nat);
        lemma_after_ticks(r2, (k - 1) as nat);
        let n = r.len();
        assert(after_ticks(r, (k - 1) as nat).last() == r[n - k]);
        assert(after_ticks(r2, (k - 1) as nat).last() == r2[n - k]);
        if k == n {
            assert(destroyed_within(r2, k) =~= destroyed_within(r, k).push(c));
        }
    }
}

/// A destruction request is never carried out before as many ticks as the
/// ring has batches have passed, and it is carried out on exactly that tick:
/// over the next `N - 1` ticks the same handles are destroyed as without the
/// request, and the `N`-th tick destroys the request last.
pub proof fn lemma_destroy_delay(r: Seq<Seq<VkDestroyCmd>>, c: VkDestroyCmd)
    requires
        r.len() >= 1,
    ensures
        forall|k: nat|
            k < r.len() ==> #[trigger] destroyed_within(ring_request(r, c), k)
                == destroyed_within(r, k),
        destroyed_within(ring_request(r, c), r.len()) == destroyed_within(r, r.len()).push(c),
{
    assert forall|k: nat| k < r.len() implies #[trigger] destroyed_within(ring_request(r, c), k)
        == destroyed_within(r, k) by {
        lemma_destroyed_after_request(r, c, k);
    }
    lemma_destroyed_after_request(r, c, r.len());
}

/// The registry after registering `view`: unchanged when it is there
/// already, else `view` takes the next slot.
pub open spec fn registered(s: Seq<u64>, view: u64) -> Seq<u64> {
    if s.contains(view) {
        s
    } else {
        s.push(view)
    }
}

/// The image views of the bindless descriptor table; slot `i` holds the
/// `i`-th registered view, and each view has one slot.
pub struct BindlessRegistry {
    views: Vec<u64>,
}

impl View for BindlessRegistry {
    type V = Seq<u64>;

    closed spec fn view(&self) -> Seq<u64> {
        self.views@
    }
}

impl BindlessRegistry {
    pub open spec fn wf(&self) -> bool {
        &&& self@.no_duplicates()
        &&& self@.len() <= MAX_BINDLESS_IMAGES
    }

    /// An empty table.
    pub fn new() -> (r: Self)
        ensures
            r.wf(),
            r@.len() == 0,
    {
        BindlessRegistry { views: Vec::new() }
    }

    /// A table whose two reserved slots hold the white texture and the
    /// default normal map.
    pub fn with_defaults(white_view: u64, normal_view: u64) -> (r: Self)
        requires
            white_view != normal_view,
        ensures
            r.wf(),
            r@ == seq![white_view, normal_view],
            r@[WHITE_TEXTURE_IDX as int] == white_view,
            r@[DEFAULT_NORMAL_TEXTURE_IDX as int] == normal_view,
    {
        let mut r = BindlessRegistry::new();
        r.register_bindless_texture(white_view);
        r.register_bindless_texture(normal_view);
        assert(r@ =~= seq![white_view, normal_view]);
        r
    }

    pub fn len(&self) -> (r: usize)
        ensures
            r == self@.len(),
    {
        self.views.len()
    }

    /// The slot of `view`, if it has one.
    pub fn get_bindless_texture_index(&self, view: u64) -> (r: Option<u32>)
        requires
            self.wf(),
        ensures
            r.is_some() <==> self@.contains(view),
            r matches Some(i) ==> i < self@.len() && self@[i as int] == view,
    {
        let mut i: usize = 0;
        while i < self.views.len()
            invariant
                i <= self@.len(),
                self@.len() <= MAX_BINDLESS_IMAGES,
                forall|j: int| 0 <= j < i ==> self@[j] != view,
            decreases self@.len() - i,
        {
            if self.views[i] == view {
                return Some(i as u32);
            }
            i = i + 1;
        }
        None
    }

    /// Gives `view` a slot: the one it has, or the next free one.
    pub fn register_bindless_texture(&mut self, view: u64) -> (r: u32)
        requires
            old(self).wf(),
            old(self)@.contains(view) || old(self)@.len() < MAX_BINDLESS_IMAGES,
        ensures
            final(self).wf(),
            final(self)@ == registered(old(self)@, view),
            r < final(self)@.len(),
            final(self)@[r as int] == view,
            !old(self)@.contains(view) ==> r == old(self)@.len(),
    {
        match self.get_bindless_texture_index(view) {
            Some(i) => i,
            None => {
                let i = self.views.len() as u32;
                self.views.push(view);
                proof {
                    assert forall|a: int, b: int|
                        0 <= a < b < self@.len() implies self@[a] != self@[b] by {
                        if b == self@.len() - 1 {
                            assert(old(self)@[a] != view);
                        }
                    }
                }
                i
            },
        }
    }
}

/// Registering the same view a second time changes nothing, and the view
/// has exactly one slot, so both calls give the same slot.
pub proof fn lemma_register_idempotent(s: Seq<u64>, view: u64)
    requires
        s.no_duplicates(),
    ensures
        registered(registered(s, view), view) == registered(s, view),
        registered(s, view).no_duplicates(),
        forall|a: int, b: int|
            0 <= a < registered(s, view).len() && 0 <= b < registered(s, view).len()
                && registered(s, view)[a] == view && registered(s, view)[b] == view ==> a == b,
{
    let s1 = registered(s, view);
    if !s.contains(view) {
        assert(s1.contains(view)) by {
            assert(s1[s.len() as int] == view);
        }
        assert forall|a: int, b: int| 0 <= a < b < s1.len() implies s1[a] != s1[b] by {
            if b == s.len() {
                assert(!s.contains(view));
                assert(s[a] == s1[a]);
            }
        }
    }
}

} // verus!
