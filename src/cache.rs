//! Content-addressed cursor cache: each entry is stored under the identifier
//! derived from its pixels, never changed once stored, and the cache is
//! culled by half when it is full.

use vstd::prelude::*;

verus! {

/// Number of cursors a cache holds unless told otherwise.
pub const DEFAULT_CACHE_CAPACITY: usize = 50;

/// A cursor ready for the wire: its identifier, its encoded image and its
/// base (server-DPI) geometry.
pub struct CachedCursor {
    pub id: String,
    /// Lossless WebP, animated where the cursor has several frames.
    pub webp_data: Vec<u8>,
    pub width: u32,
    pub height: u32,
    pub hotspot_x: i32,
    pub hotspot_y: i32,
    pub is_animated: bool,
    pub frame_count: u32,
    pub frame_delay_ms: u32,
}

/// What a cached cursor holds, as plain values.
pub struct CursorView {
    pub id: Seq<char>,
    pub webp_data: Seq<u8>,
    pub width: u32,
    pub height: u32,
    pub hotspot_x: i32,
    pub hotspot_y: i32,
    pub is_animated: bool,
    pub frame_count: u32,
    pub frame_delay_ms: u32,
}

impl View for CachedCursor {
    type V = CursorView;

    open spec fn view(&self) -> CursorView {
        CursorView {
            id: self.id@,
            webp_data: self.webp_data@,
            width: self.width,
            height: self.height,
            hotspot_x: self.hotspot_x,
            hotspot_y: self.hotspot_y,
            is_animated: self.is_animated,
            frame_count: self.frame_count,
            frame_delay_ms: self.frame_delay_ms,
        }
    }
}

impl CachedCursor {
    /// A copy of this cursor.
    pub fn duplicate(&self) -> (r: CachedCursor)
        ensures
            r@ == self@,
    {
        let data = self.webp_data.clone();
        assert(data@ =~= self.webp_data@);
        CachedCursor {
            id: self.id.clone(),
            webp_data: data,
            width: self.width,
            height: self.height,
            hotspot_x: self.hotspot_x,
            hotspot_y: self.hotspot_y,
            is_animated: self.is_animated,
            frame_count: self.frame_count,
            frame_delay_ms: self.frame_delay_ms,
        }
    }
}

/// The map from identifier to cursor that a list of entries with distinct
/// identifiers stands for.
pub open spec fn entries_map(entries: Seq<CursorView>) -> Map<Seq<char>, CursorView>
    decreases entries.len(),
{
    if entries.len() == 0 {
        Map::empty()
    } else {
        entries_map(entries.drop_last()).insert(entries.last().id, entries.last())
    }
}

/// Whether each cursor of `m` is stored under its own identifier.
pub open spec fn keys_are_ids(m: Map<Seq<char>, CursorView>) -> bool {
    forall|k: Seq<char>| #[trigger] m.contains_key(k) ==> m[k].id == k
}

pub open spec fn ids_distinct(entries: Seq<CursorView>) -> bool {
    forall|i: int, j: int| 0 <= i < j < entries.len() ==> entries[i].id != entries[j].id
}

proof fn lemma_entries_map(entries: Seq<CursorView>)
    requires
        ids_distinct(entries),
    ensures
        forall|i: int| 0 <= i < entries.len() ==> #[trigger] entries_map(entries).contains_key(entries[i].id)
            && entries_map(entries)[entries[i].id] == entries[i],
        forall|k: Seq<char>| #[trigger] entries_map(entries).contains_key(k) ==> exists|i: int|
            0 <= i < entries.len() && entries[i].id == k,
        entries_map(entries).dom().finite(),
        entries_map(entries).dom().len() == entries.len(),
    decreases entries.len(),
{
    if entries.len() > 0 {
        let pre = entries.drop_last();
        lemma_entries_map(pre);
        let last = entries.last();
        assert(!entries_map(pre).contains_key(last.id)) by {
            if entries_map(pre).contains_key(last.id) {
                let i = choose|i: int| 0 <= i < pre.len() && pre[i].id == last.id;
                assert(entries[i].id == entries[entries.len() - 1].id);
            }
        }
        assert forall|i: int| 0 <= i < entries.len() implies #[trigger] entries_map(entries).contains_key(
            entries[i].id,
        ) && entries_map(entries)[entries[i].id] == entries[i] by {
            if i < entries.len() - 1 {
                assert(pre[i] == entries[i]);
                assert(entries[i].id != last.id);
            }
        }
        assert forall|k: Seq<char>| #[trigger] entries_map(entries).contains_key(k) implies exists|i: int|
            0 <= i < entries.len() && entries[i].id == k by {
            if k != last.id {
                let i = choose|i: int| 0 <= i < pre.len() && pre[i].id == k;
                assert(entries[i].id == k);
            } else {
                assert(entries[entries.len() - 1].id == k);
            }
        }
    }
}

/// A bounded cache of cursors keyed by identifier.
pub struct CursorCache {
    entries: Vec<CachedCursor>,
    capacity: usize,
}

/// What an insertion of `c` into a cache whose contents were `before`
/// leaves behind as `after`, `is_new` telling whether `c` was absent. An
/// identifier already present leaves the cache as it was. Otherwise `c` is
/// stored under its identifier, every other entry that remains is one that
/// was there, unchanged, nothing is dropped while there was room, and a
/// full cache keeps only the larger half of its entries besides `c`.
pub open spec fn cache_insert_post(
    before: Map<Seq<char>, CursorView>,
    c: CursorView,
    after: Map<Seq<char>, CursorView>,
    is_new: bool,
    capacity: nat,
) -> bool {
    if before.contains_key(c.id) {
        !is_new && after == before
    } else {
        &&& is_new
        &&& after.contains_key(c.id)
        &&& after[c.id] == c
        &&& forall|k: Seq<char>|
            #[trigger] after.contains_key(k) && k != c.id ==> before.contains_key(k) && after[k]
                == before[k]
        &&& before.dom().len() < capacity ==> after == before.insert(c.id, c)
        &&& before.dom().len() >= capacity ==> after.dom().len() == before.dom().len() - before.dom().len() / 2
            + 1
    }
}

impl CursorCache {
    /// Identifier to cursor.
    pub closed spec fn contents(&self) -> Map<Seq<char>, CursorView> {
        entries_map(self.entries@.map_values(|e: CachedCursor| e@))
    }

    pub closed spec fn capacity(&self) -> nat {
        self.capacity as nat
    }

    /// Identifiers are distinct and the cache is within its capacity.
    pub closed spec fn wf(&self) -> bool {
        &&& ids_distinct(self.entries@.map_values(|e: CachedCursor| e@))
        &&& self.entries@.len() <= self.capacity
        &&& self.capacity >= 2
    }

    /// What a well-formed cache guarantees: each cursor is stored under its
    /// own identifier, and there are finitely many, no more than the
    /// capacity.
    pub proof fn lemma_shape(&self)
        requires
            self.wf(),
        ensures
            keys_are_ids(self.contents()),
            self.contents().dom().finite(),
            self.contents().dom().len() <= self.capacity(),
    {
        let v = self.entries@.map_values(|e: CachedCursor| e@);
        lemma_entries_map(v);
        assert forall|k: Seq<char>| #[trigger] self.contents().contains_key(k) implies self.contents()[k].id == k by {
            let i = choose|i: int| 0 <= i < v.len() && v[i].id == k;
            assert(entries_map(v).contains_key(v[i].id));
        }
    }

    /// An empty cache that holds at most `capacity` cursors.
    pub fn new(capacity: usize) -> (r: Self)
        requires
            capacity >= 2,
        ensures
            r.wf(),
            r.contents() == Map::<Seq<char>, CursorView>::empty(),
            r.capacity() == capacity,
    {
        let r = CursorCache { entries: Vec::new(), capacity };
        assert(r.entries@.map_values(|e: CachedCursor| e@) =~= Seq::<CursorView>::empty());
        r
    }

    /// Number of cursors held.
    pub fn len(&self) -> (r: usize)
        requires
            self.wf(),
        ensures
            r == self.contents().dom().len(),
    {
        proof {
            lemma_entries_map(self.entries@.map_values(|e: CachedCursor| e@));
        }
        self.entries.len()
    }

    fn position(&self, id: &String) -> (r: Option<usize>)
        requires
            self.wf(),
        ensures
            r matches Some(i) ==> i < self.entries@.len() && self.entries@[i as int].id@ == id@,
            r is None ==> !self.contents().contains_key(id@),
    {
        let ghost v = self.entries@.map_values(|e: CachedCursor| e@);
        proof {
            lemma_entries_map(v);
        }
        let mut i: usize = 0;
        while i < self.entries.len()
            invariant
                i <= self.entries@.len(),
                v == self.entries@.map_values(|e: CachedCursor| e@),
                forall|j: int| 0 <= j < i ==> self.entries@[j].id@ != id@,
            decreases self.entries@.len() - i,
        {
            if self.entries[i].id == *id {
                return Some(i);
            }
            i = i + 1;
        }
        proof {
            if self.contents().contains_key(id@) {
                let j = choose|j: int| 0 <= j < v.len() && v[j].id == id@;
                assert(v[j] == self.entries@[j]@);
            }
        }
        None
    }

    /// Whether a cursor is stored under `id`.
    pub fn contains(&self, id: &String) -> (r: bool)
        requires
            self.wf(),
        ensures
            r == self.contents().contains_key(id@),
    {
        match self.position(id) {
            Some(i) => {
                proof {
                    let v = self.entries@.map_values(|e: CachedCursor| e@);
                    lemma_entries_map(v);
                    assert(v[i as int].id == id@);
                }
                true
            },
            None => false,
        }
    }

    /// A copy of the cursor stored under `id`, if any.
    pub fn get(&self, id: &String) -> (r: Option<CachedCursor>)
        requires
            self.wf(),
        ensures
            r is Some <==> self.contents().contains_key(id@),
            r matches Some(c) ==> c@ == self.contents()[id@],
    {
        match self.position(id) {
            Some(i) => {
                proof {
                    let v = self.entries@.map_values(|e: CachedCursor| e@);
                    lemma_entries_map(v);
                    assert(v[i as int] == self.entries@[i as int]@);
                    assert(entries_map(v).contains_key(v[i as int].id));
                }
                Some(self.entries[i].duplicate())
            },
            None => None,
        }
    }

    /// Stores `c` under its identifier unless that identifier is present.
    /// When the cache is full, the older half of its entries is dropped
    /// first. Returns whether `c` was new.
    pub fn insert(&mut self, c: CachedCursor) -> (is_new: bool)
        requires
            old(self).wf(),
        ensures
            final(self).wf(),
            final(self).capacity() == old(self).capacity(),
            final(self).contents().dom().len() <= final(self).capacity(),
            cache_insert_post(old(self).contents(), c@, final(self).contents(), is_new, old(self).capacity()),
    {
        let ghost v0 = self.entries@.map_values(|e: CachedCursor| e@);
        proof {
            lemma_entries_map(v0);
        }
        if self.contains(&c.id) {
            return false;
        }
        let ghost cv = c@;
        let n = self.entries.len();
        if n >= self.capacity {
            let half = n / 2;
            let kept = self.entries.split_off(half);
            self.entries = kept;
            proof {
                let v1 = self.entries@.map_values(|e: CachedCursor| e@);
                assert(v1 =~= v0.subrange(half as int, n as int));
                assert(ids_distinct(v1)) by {
                    assert forall|i: int, j: int| 0 <= i < j < v1.len() implies v1[i].id != v1[j].id by {
                        assert(v1[i] == v0[i + half] && v1[j] == v0[j + half]);
                    }
                }
                lemma_entries_map(v1);
                assert forall|k: Seq<char>| #[trigger] entries_map(v1).contains_key(k) implies entries_map(
                    v0,
                ).contains_key(k) && entries_map(v1)[k] == entries_map(v0)[k] by {
                    let i = choose|i: int| 0 <= i < v1.len() && v1[i].id == k;
                    assert(v1[i] == v0[i + half]);
                    assert(entries_map(v0).contains_key(v0[i + half].id));
                    assert(entries_map(v1).contains_key(v1[i].id));
                }
            }
        }
        let ghost v1 = self.entries@.map_values(|e: CachedCursor| e@);
        proof {
            lemma_entries_map(v1);
            assert(!entries_map(v1).contains_key(cv.id)) by {
                if entries_map(v1).contains_key(cv.id) {
                    let i = choose|i: int| 0 <= i < v1.len() && v1[i].id == cv.id;
                    assert(v1[i] == entries_map(v1)[cv.id]);
                }
            }
        }
        self.entries.push(c);
        proof {
            let v2 = self.entries@.map_values(|e: CachedCursor| e@);
            assert(v2 =~= v1.push(cv));
            assert(v2.drop_last() =~= v1);
            assert(ids_distinct(v2)) by {
                assert forall|i: int, j: int| 0 <= i < j < v2.len() implies v2[i].id != v2[j].id by {
                    if j == v2.len() - 1 {
                        assert(v2[i] == v1[i]);
                        assert(entries_map(v1).contains_key(v1[i].id));
                    } else {
                        assert(v2[i] == v1[i] && v2[j] == v1[j]);
                    }
                }
            }
            lemma_entries_map(v2);
            if n >= old(self).capacity {
                assert(v1.len() < n);
                assert(v1.len() == n - n / 2);
            } else {
                assert(v1 == v0);
            }
        }
        true
    }
}


/// Inserting a cursor twice changes nothing the second time, and the entry
/// is found under its own identifier whether it was already there or had
/// been evicted and came back.
pub proof fn cache_insert_idempotent(
    m0: Map<Seq<char>, CursorView>,
    m1: Map<Seq<char>, CursorView>,
    m2: Map<Seq<char>, CursorView>,
    c: CursorView,
    new1: bool,
    new2: bool,
    capacity: nat,
)
    requires
        cache_insert_post(m0, c, m1, new1, capacity),
        cache_insert_post(m1, c, m2, new2, capacity),
    ensures
        m2 == m1,
        !new2,
        !m0.contains_key(c.id) ==> m1.contains_key(c.id) && m1[c.id] == c,
{
}

} // verus!
