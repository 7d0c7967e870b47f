use vstd::prelude::*;

verus! {

/// One serialized state of a contract, effective from `height` on.
pub struct Snapshot {
    pub height: u64,
    pub payload: Vec<u8>,
}

/// The history of one contract's serialized state, keyed by ledger height.
pub struct SnapshotStore {
    entries: Vec<Snapshot>,
}

/// Whether some entry of `s` sits at height `k`.
pub open spec fn has_height(s: Seq<Snapshot>, k: u64) -> bool {
    exists|i: int| 0 <= i < s.len() && s[i].height == k
}

/// An index of `s` whose entry sits at height `k`.
pub open spec fn index_of(s: Seq<Snapshot>, k: u64) -> int {
    choose|i: int| 0 <= i < s.len() && s[i].height == k
}

/// The heights of `s` are pairwise distinct.
pub open spec fn distinct_heights(s: Seq<Snapshot>) -> bool {
    forall|i: int, j: int|
        0 <= i < s.len() && 0 <= j < s.len() && i != j ==> s[i].height != s[j].height
}

/// The map from height to payload that the entries of `s` hold.
pub open spec fn history_of(s: Seq<Snapshot>) -> Map<u64, Seq<u8>> {
    Map::new(|k: u64| has_height(s, k), |k: u64| s[index_of(s, k)].payload@)
}

/// `k` is the greatest height of `m` that is not above `h`.
pub open spec fn is_latest_at_or_before(m: Map<u64, Seq<u8>>, h: u64, k: u64) -> bool {
    &&& m.contains_key(k)
    &&& k <= h
    &&& forall|k2: u64| m.contains_key(k2) && k2 <= h ==> k2 <= k
}

/// The payload at the greatest height of `m` that is not above `h`, if there is one.
pub open spec fn latest_at_or_before(m: Map<u64, Seq<u8>>, h: u64) -> Option<Seq<u8>> {
    if exists|k: u64| is_latest_at_or_before(m, h, k) {
        Some(m[choose|k: u64| is_latest_at_or_before(m, h, k)])
    } else {
        None
    }
}

/// Where `k` is the greatest height not above `h`, the lookup gives its payload.
pub proof fn lemma_latest_is(m: Map<u64, Seq<u8>>, h: u64, k: u64)
    requires
        is_latest_at_or_before(m, h, k),
    ensures
        latest_at_or_before(m, h) == Some(m[k]),
{
    let k2 = choose|k2: u64| is_latest_at_or_before(m, h, k2);
    assert(is_latest_at_or_before(m, h, k2));
    assert(k2 <= k && k <= k2);
}

proof fn lemma_history_at(s: Seq<Snapshot>, i: int)
    requires
        distinct_heights(s),
        0 <= i < s.len(),
    ensures
        history_of(s).contains_key(s[i].height),
        history_of(s)[s[i].height] == s[i].payload@,
{
    assert(has_height(s, s[i].height));
    let j = index_of(s, s[i].height);
    assert(0 <= j < s.len() && s[j].height == s[i].height);
    assert(i == j);
}

/// A height written after an earlier one shadows it from its own height on:
/// where every stored height is at most `h1` (or is `h2` itself), after writing
/// `p1` at `h1` and then `p2` at `h2 > h1`, a lookup at `h` gives `p1` for
/// `h1 <= h < h2` and `p2` for `h >= h2`.
pub proof fn lemma_later_write_shadows(
    m: Map<u64, Seq<u8>>,
    h1: u64,
    p1: Seq<u8>,
    h2: u64,
    p2: Seq<u8>,
    h: u64,
)
    requires
        h1 < h2,
        forall|k: u64| m.contains_key(k) ==> k <= h1 || k == h2,
    ensures
        h1 <= h < h2 ==> latest_at_or_before(m.insert(h1, p1).insert(h2, p2), h) == Some(p1),
        h2 <= h ==> latest_at_or_before(m.insert(h1, p1).insert(h2, p2), h) == Some(p2),
{
    let m2 = m.insert(h1, p1).insert(h2, p2);
    if h1 <= h && h < h2 {
        assert(is_latest_at_or_before(m2, h, h1));
        lemma_latest_is(m2, h, h1);
    }
    if h2 <= h {
        assert(is_latest_at_or_before(m2, h, h2));
        lemma_latest_is(m2, h, h2);
    }
}

/// A lookup below every stored height finds nothing.
pub proof fn lemma_below_first_is_absent(m: Map<u64, Seq<u8>>, h: u64)
    requires
        forall|k: u64| m.contains_key(k) ==> h < k,
    ensures
        latest_at_or_before(m, h) == None::<Seq<u8>>,
{
}

/// A copy of the bytes of `v`.
pub fn copy_bytes(v: &Vec<u8>) -> (r: Vec<u8>)
    ensures
        r@ == v@,
{
    let mut r: Vec<u8> = Vec::new();
    let mut i: usize = 0;
    while i < v.len()
        invariant
            i <= v@.len(),
            r@ =~= v@.subrange(0, i as int),
        decreases v@.len() - i,
    {
        r.push(v[i]);
        i = i + 1;
    }
    assert(v@.subrange(0, v@.len() as int) =~= v@);
    r
}

impl View for SnapshotStore {
    type V = Map<u64, Seq<u8>>;

    closed spec fn view(&self) -> Map<u64, Seq<u8>> {
        history_of(self.entries@)
    }
}

impl SnapshotStore {
    pub closed spec fn wf(&self) -> bool {
        distinct_heights(self.entries@)
    }

    /// An empty history.
    pub fn new() -> (r: SnapshotStore)
        ensures
            r.wf(),
            r@ == Map::<u64, Seq<u8>>::empty(),
    {
        let r = SnapshotStore { entries: Vec::new() };
        assert(r@ =~= Map::<u64, Seq<u8>>::empty());
        r
    }

    /// Stores `payload` at `height`, replacing what was stored there.
    pub fn write(&mut self, height: u64, payload: Vec<u8>)
        requires
            old(self).wf(),
        ensures
            final(self).wf(),
            final(self)@ == old(self)@.insert(height, payload@),
    {
        let ghost s0 = self.entries@;
        let ghost p = payload@;
        let mut found: Option<usize> = None;
        let mut n: usize = 0;
        while n < self.entries.len()
            invariant
                self.entries@ == s0,
                n <= s0.len(),
                match found {
                    Some(f) => f < s0.len() && s0[f as int].height == height,
                    None => forall|j: int| 0 <= j < n ==> s0[j].height != height,
                },
            decreases s0.len() - n,
        {
            if found.is_none() && self.entries[n].height == height {
                found = Some(n);
            }
            n = n + 1;
        }
        if let Some(i) = found {
            self.entries.set(i, Snapshot { height, payload });
            let ghost s1 = self.entries@;
            assert(distinct_heights(s1)) by {
                assert forall|a: int, b: int|
                    0 <= a < s1.len() && 0 <= b < s1.len() && a != b implies s1[a].height
                    != s1[b].height by {
                    if a != i {
                        assert(s1[a] == s0[a]);
                    }
                    if b != i {
                        assert(s1[b] == s0[b]);
                    }
                }
            }
            assert(history_of(s1) =~= history_of(s0).insert(height, p)) by {
                assert forall|k: u64| #[trigger]
                    history_of(s1).contains_key(k) <==> history_of(s0).insert(
                        height,
                        p,
                    ).contains_key(k) by {
                    if has_height(s1, k) {
                        let j = choose|j: int| 0 <= j < s1.len() && s1[j].height == k;
                        if j != i {
                            assert(s0[j].height == k);
                        }
                    }
                    if has_height(s0, k) {
                        let j = choose|j: int| 0 <= j < s0.len() && s0[j].height == k;
                        if j != i {
                            assert(s1[j].height == k);
                        } else {
                            assert(s1[j].height == k);
                        }
                        assert(has_height(s1, k));
                    }
                    if k == height {
                        assert(s1[i as int].height == k);
                    }
                }
                assert forall|k: u64| #[trigger]
                    history_of(s1).contains_key(k) implies history_of(s1)[k] == history_of(
                    s0,
                ).insert(height, p)[k] by {
                    let j = choose|j: int| 0 <= j < s1.len() && s1[j].height == k;
                    lemma_history_at(s1, j);
                    if j != i {
                        assert(s0[j] == s1[j]);
                        lemma_history_at(s0, j);
                    }
                }
            }
        } else {
            self.entries.push(Snapshot { height, payload });
            let ghost s1 = self.entries@;
            assert(forall|j: int| 0 <= j < s0.len() ==> s1[j] == s0[j]);
            assert(distinct_heights(s1));
            assert(history_of(s1) =~= history_of(s0).insert(height, p)) by {
                assert forall|k: u64| #[trigger]
                    history_of(s1).contains_key(k) <==> history_of(s0).insert(
                        height,
                        p,
                    ).contains_key(k) by {
                    if has_height(s1, k) {
                        let j = choose|j: int| 0 <= j < s1.len() && s1[j].height == k;
                        if j < s0.len() {
                            assert(s0[j].height == k);
                        }
                    }
                    if has_height(s0, k) {
                        let j = choose|j: int| 0 <= j < s0.len() && s0[j].height == k;
                        assert(s1[j].height == k);
                    }
                    if k == height {
                        assert(s1[s0.len() as int].height == k);
                    }
                }
                assert forall|k: u64| #[trigger]
                    history_of(s1).contains_key(k) implies history_of(s1)[k] == history_of(
                    s0,
                ).insert(height, p)[k] by {
                    let j = choose|j: int| 0 <= j < s1.len() && s1[j].height == k;
                    lemma_history_at(s1, j);
                    if j < s0.len() {
                        lemma_history_at(s0, j);
                    }
                }
            }
        }
    }

    /// The payload at the greatest stored height not above `height`; `None`
    /// where every stored height is above it.
    pub fn read_at_or_before(&self, height: u64) -> (r: Option<Vec<u8>>)
        requires
            self.wf(),
        ensures
            match r {
                Some(p) => latest_at_or_before(self@, height) == Some(p@),
                None => latest_at_or_before(self@, height) == None::<Seq<u8>>,
            },
    {
        let ghost s = self.entries@;
        let mut best: Option<usize> = None;
        let mut i: usize = 0;
        while i < self.entries.len()
            invariant
                self.entries@ == s,
                i <= s.len(),
                match best {
                    None => forall|j: int| 0 <= j < i ==> s[j].height > height,
                    Some(b) => b < i && s[b as int].height <= height && forall|j: int|
                        0 <= j < i && s[j].height <= height ==> s[j].height <= s[b as int].height,
                },
            decreases s.len() - i,
        {
            let hi = self.entries[i].height;
            if hi <= height {
                match best {
                    None => {
                        best = Some(i);
                    },
                    Some(b) => {
                        if hi > self.entries[b].height {
                            best = Some(i);
                        }
                    },
                }
            }
            i = i + 1;
        }
        match best {
            None => {
                assert forall|k: u64| !is_latest_at_or_before(self@, height, k) by {
                    if self@.contains_key(k) {
                        let j = choose|j: int| 0 <= j < s.len() && s[j].height == k;
                        assert(s[j].height > height);
                    }
                }
                None
            },
            Some(b) => {
                let k = self.entries[b].height;
                proof {
                    lemma_history_at(s, b as int);
                    assert forall|k2: u64|
                        self@.contains_key(k2) && k2 <= height implies k2 <= k by {
                        let j = choose|j: int| 0 <= j < s.len() && s[j].height == k2;
                        assert(s[j].height <= height);
                    }
                    assert(is_latest_at_or_before(self@, height, k));
                    lemma_latest_is(self@, height, k);
                }
                Some(copy_bytes(&self.entries[b].payload))
            },
        }
    }

    /// Every stored height with its payload, one pair per height.
    pub fn entries(&self) -> (r: Vec<(u64, Vec<u8>)>)
        requires
            self.wf(),
        ensures
            forall|i: int, j: int|
                0 <= i < r@.len() && 0 <= j < r@.len() && i != j ==> r@[i].0 != r@[j].0,
            forall|i: int| 0 <= i < r@.len() ==> self@.contains_key(#[trigger] r@[i].0)
                && self@[r@[i].0] == r@[i].1@,
            forall|k: u64| #[trigger] self@.contains_key(k) ==> exists|i: int|
                0 <= i < r@.len() && r@[i].0 == k,
    {
        let ghost s = self.entries@;
        let mut r: Vec<(u64, Vec<u8>)> = Vec::new();
        let mut i: usize = 0;
        while i < self.entries.len()
            invariant
                self.entries@ == s,
                distinct_heights(s),
                i <= s.len(),
                r@.len() == i,
                forall|j: int| 0 <= j < i ==> r@[j].0 == s[j].height && r@[j].1@ == s[j].payload@,
            decreases s.len() - i,
        {
            let e = &self.entries[i];
            r.push((e.height, copy_bytes(&e.payload)));
            i = i + 1;
        }
        assert forall|a: int| 0 <= a < r@.len() implies self@.contains_key(#[trigger] r@[a].0)
            && self@[r@[a].0] == r@[a].1@ by {
            lemma_history_at(s, a);
        }
        assert forall|k: u64| #[trigger] self@.contains_key(k) implies exists|a: int|
            0 <= a < r@.len() && r@[a].0 == k by {
            let j = choose|j: int| 0 <= j < s.len() && s[j].height == k;
            assert(r@[j].0 == k);
        }
        assert forall|a: int, b: int|
            0 <= a < r@.len() && 0 <= b < r@.len() && a != b implies r@[a].0 != r@[b].0 by {
            assert(r@[a].0 == s[a].height && r@[b].0 == s[b].height);
        }
        r
    }

    /// Whether nothing is stored.
    pub fn is_empty(&self) -> (r: bool)
        requires
            self.wf(),
        ensures
            r == (self@.dom() == Set::<u64>::empty()),
    {
        proof {
            if self.entries@.len() > 0 {
                lemma_history_at(self.entries@, 0);
            } else {
                assert(self@.dom() =~= Set::<u64>::empty());
            }
        }
        self.entries.len() == 0
    }
}

} // verus!
