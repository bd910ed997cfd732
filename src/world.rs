use vstd::prelude::*;

use crate::distance::ChunkVec2;
use crate::smp::ChunkColumn;

verus! {

broadcast use vstd::seq_lib::lemma_seq_contains_after_push;

/// The loaded chunk columns, at most one per position.
pub struct ChunkStore {
    pub columns: Vec<ChunkColumn>,
}

pub open spec fn key_of(c: ChunkColumn) -> ChunkVec2 {
    ChunkVec2 { x: c.x, z: c.z }
}

/// Whether column position `k` lies within `distance` columns of `center`
/// along both axes.
pub open spec fn within(k: ChunkVec2, center: ChunkVec2, distance: u32) -> bool {
    -(distance as int) <= k.x - center.x <= distance && -(distance as int) <= k.z - center.z
        <= distance
}

/// The largest number of columns within `distance` of a position.
pub open spec fn area(distance: u32) -> int {
    (2 * distance + 1) * (2 * distance + 1)
}

impl ChunkStore {
    /// No two columns share a position.
    pub open spec fn wf(&self) -> bool {
        forall|i: int, j: int|
            0 <= i < j < self.columns@.len() ==> key_of(#[trigger] self.columns@[i]) != key_of(
                #[trigger] self.columns@[j],
            )
    }

    /// Whether a column is held at `k`.
    pub open spec fn has(&self, k: ChunkVec2) -> bool {
        exists|i: int| 0 <= i < self.columns@.len() && key_of(#[trigger] self.columns@[i]) == k
    }

    pub fn new() -> (r: ChunkStore)
        ensures
            r.wf(),
            r.columns@.len() == 0,
    {
        ChunkStore { columns: Vec::new() }
    }

    pub fn len(&self) -> (r: usize)
        ensures
            r == self.columns@.len(),
    {
        self.columns.len()
    }

    fn find(&self, x: i32, z: i32) -> (r: Option<usize>)
        ensures
            r is Some ==> r->Some_0 < self.columns@.len() && key_of(self.columns@[r->Some_0 as int])
                == (ChunkVec2 { x, z }),
            r is None ==> !self.has(ChunkVec2 { x, z }),
    {
        let mut i: usize = 0;
        while i < self.columns.len()
            invariant
                i <= self.columns@.len(),
                forall|j: int| 0 <= j < i ==> key_of(#[trigger] self.columns@[j]) != (ChunkVec2 { x, z }),
            decreases self.columns@.len() - i,
        {
            if self.columns[i].x == x && self.columns[i].z == z {
                return Some(i);
            }
            i = i + 1;
        }
        None
    }

    /// Whether a column is held at `(x, z)`.
    pub fn contains(&self, x: i32, z: i32) -> (r: bool)
        ensures
            r == self.has(ChunkVec2 { x, z }),
    {
        self.find(x, z).is_some()
    }

    /// The column held at `(x, z)`.
    pub fn get(&self, x: i32, z: i32) -> (r: Option<&ChunkColumn>)
        ensures
            r is Some <==> self.has(ChunkVec2 { x, z }),
            r is Some ==> exists|i: int|
                0 <= i < self.columns@.len() && self.columns@[i] == *r->Some_0 && key_of(
                    self.columns@[i],
                ) == (ChunkVec2 { x, z }),
    {
        match self.find(x, z) {
            Some(i) => Some(&self.columns[i]),
            None => None,
        }
    }

    /// Stores `column`; a column already held at its position is replaced.
    pub fn insert(&mut self, column: ChunkColumn)
        requires
            old(self).wf(),
        ensures
            final(self).wf(),
            old(self).has(key_of(column)) ==> exists|i: int|
                0 <= i < old(self).columns@.len() && key_of(old(self).columns@[i]) == key_of(column)
                    && final(self).columns@ == old(self).columns@.update(i, column),
            !old(self).has(key_of(column)) ==> final(self).columns@ == old(self).columns@.push(
                column,
            ),
    {
        match self.find(column.x, column.z) {
            Some(i) => {
                let ghost prev = self.columns@;
                self.columns.set(i, column);
                assert(forall|j: int|
                    0 <= j < prev.len() ==> key_of(#[trigger] self.columns@[j]) == key_of(prev[j]));
            },
            None => {
                let ghost prev = self.columns@;
                self.columns.push(column);
                assert(forall|j: int|
                    0 <= j < prev.len() ==> #[trigger] self.columns@[j] == prev[j]);
                assert(forall|j: int|
                    0 <= j < prev.len() ==> key_of(#[trigger] prev[j]) != key_of(column));
            },
        }
    }

    /// Positions of the held columns within `distance` of `center`, each
    /// once; at most `area(distance)` of them.
    #[verifier::spinoff_prover]
    pub fn active_keys(&self, center: ChunkVec2, distance: u32) -> (r: Vec<ChunkVec2>)
        ensures
            forall|k: ChunkVec2| r@.contains(k) <==> (self.has(k) && within(k, center, distance)),
            r@.no_duplicates(),
            r@.len() <= area(distance),
    {
        let side: i64 = 2 * (distance as i64) + 1;
        let mut out: Vec<ChunkVec2> = Vec::new();
        let mut i: i64 = 0;
        while i < side
            invariant
                side == 2 * distance + 1,
                0 <= i <= side,
                out@.no_duplicates(),
                out@.len() <= i * side,
                forall|k: ChunkVec2|
                    out@.contains(k) <==> (self.has(k) && within(k, center, distance) && k.x
                        - center.x + distance < i),
            decreases side - i,
        {
            let x: i64 = center.x as i64 - distance as i64 + i;
            let mut j: i64 = 0;
            while j < side
                invariant
                    side == 2 * distance + 1,
                    0 <= i < side,
                    0 <= j <= side,
                    x == center.x - distance + i,
                    out@.no_duplicates(),
                    out@.len() <= i * side + j,
                    forall|k: ChunkVec2|
                        out@.contains(k) <==> (self.has(k) && within(k, center, distance) && (k.x
                            - center.x + distance < i || (k.x - center.x + distance == i && k.z
                            - center.z + distance < j))),
                decreases side - j,
            {
                let z: i64 = center.z as i64 - distance as i64 + j;
                let ghost prev = out@;
                assert(forall|k: ChunkVec2|
                    #[trigger] prev.contains(k) <==> (self.has(k) && within(k, center, distance) && (k.x
                        - center.x + distance < i || (k.x - center.x + distance == i && k.z
                        - center.z + distance < j))));
                let in_range = i32::MIN as i64 <= x && x <= i32::MAX as i64 && i32::MIN as i64 <= z
                    && z <= i32::MAX as i64;
                let mut found = false;
                if in_range {
                    if self.contains(x as i32, z as i32) {
                        found = true;
                        let key = ChunkVec2 { x: x as i32, z: z as i32 };
                        out.push(key);
                        assert forall|a: int, b: int|
                            0 <= a < out@.len() && 0 <= b < out@.len() && a != b implies out@[a]
                            != out@[b] by {
                            if a < prev.len() && b < prev.len() {
                                assert(out@[a] == prev[a] && out@[b] == prev[b]);
                            } else if a == prev.len() {
                                assert(out@[b] == prev[b]);
                                assert(prev.contains(out@[b]));
                            } else {
                                assert(out@[a] == prev[a]);
                                assert(prev.contains(out@[a]));
                            }
                        }
                    }
                }
                assert forall|k: ChunkVec2|
                    out@.contains(k) <==> (self.has(k) && within(k, center, distance) && (k.x
                        - center.x + distance < i || (k.x - center.x + distance == i && k.z
                        - center.z + distance < j + 1))) by {
                    let here = k.x - center.x + distance == i && k.z - center.z + distance == j;
                    assert(prev.contains(k) <==> (self.has(k) && within(k, center, distance) && (k.x
                        - center.x + distance < i || (k.x - center.x + distance == i && k.z
                        - center.z + distance < j))));
                    if found {
                        assert(out@ == prev.push(ChunkVec2 { x: x as i32, z: z as i32 }));
                        assert(out@.contains(k) == (prev.contains(k) || k == ChunkVec2 {
                            x: x as i32,
                            z: z as i32,
                        }));
                    } else {
                        assert(out@ == prev);
                        if here {
                            assert(k.x == x && k.z == z);
                            assert(!self.has(k));
                        }
                    }
                }
                j = j + 1;
            }
            proof {
                assert(i * side + side == (i + 1) * side) by (nonlinear_arith);
            }
            i = i + 1;
        }
        proof {
            assert(side * side == area(distance));
        }
        out
    }
}

/// The columns the player keeps loaded around them.
pub struct ActiveChunks {
    pub keys: Vec<ChunkVec2>,
    pub view_distance: u32,
    /// Block position of the last recomputation.
    pub last: Option<(i32, i32)>,
}

impl ActiveChunks {
    /// The active set never holds more columns than the view square.
    pub open spec fn wf(&self) -> bool {
        self.keys@.len() <= area(self.view_distance)
    }

    pub fn new(view_distance: u32) -> (r: ActiveChunks)
        ensures
            r.wf(),
            r.keys@.len() == 0,
            r.view_distance == view_distance,
    {
        ActiveChunks { keys: Vec::new(), view_distance, last: None }
    }

    /// Called when the player's block position is `(x, z)`: the set is
    /// recomputed when the position moved in X or Z or when the store
    /// changed; returns whether it was.
    #[verifier::spinoff_prover]
    pub fn update(&mut self, store: &ChunkStore, x: i32, z: i32, store_changed: bool) -> (r: bool)
        requires
            old(self).wf(),
        ensures
            final(self).wf(),
            final(self).view_distance == old(self).view_distance,
            r == (old(self).last != Some((x, z)) || store_changed),
            !r ==> final(self).keys@ == old(self).keys@,
            r ==> forall|k: ChunkVec2|
                final(self).keys@.contains(k) <==> (store.has(k) && within(
                    k,
                    ChunkVec2 { x: crate::distance::chunk_of(x) as i32, z: crate::distance::chunk_of(z) as i32 },
                    old(self).view_distance,
                )),
    {
        let same = match self.last {
            Some((lx, lz)) => lx == x && lz == z,
            None => false,
        };
        if same && !store_changed {
            return false;
        }
        self.last = Some((x, z));
        let center = ChunkVec2::new_global(x, z);
        self.keys = store.active_keys(center, self.view_distance);
        true
    }
}

/// Columns to start and to stop rendering: those in front of the camera not
/// rendered yet, and those rendered no longer in front.
pub fn render_changes(in_front: &Vec<ChunkVec2>, rendered: &Vec<ChunkVec2>) -> (r: (
    Vec<ChunkVec2>,
    Vec<ChunkVec2>,
))
    ensures
        forall|k: ChunkVec2| r.0@.contains(k) <==> (in_front@.contains(k) && !rendered@.contains(k)),
        forall|k: ChunkVec2| r.1@.contains(k) <==> (rendered@.contains(k) && !in_front@.contains(k)),
        in_front@.no_duplicates() ==> r.0@.no_duplicates(),
        rendered@.no_duplicates() ==> r.1@.no_duplicates(),
{
    (difference(in_front, rendered), difference(rendered, in_front))
}

/// The rendered set after a scheduler step: the columns in front of the
/// camera, each once; those rendered before keep their place first.
pub fn next_rendered(in_front: &Vec<ChunkVec2>, rendered: &Vec<ChunkVec2>) -> (r: Vec<ChunkVec2>)
    ensures
        forall|k: ChunkVec2| r@.contains(k) <==> in_front@.contains(k),
        r@.no_duplicates(),
{
    let mut out: Vec<ChunkVec2> = Vec::new();
    let mut i: usize = 0;
    while i < rendered.len()
        invariant
            i <= rendered@.len(),
            out@.no_duplicates(),
            forall|k: ChunkVec2| out@.contains(k) ==> in_front@.contains(k),
            forall|j: int| 0 <= j < i && in_front@.contains(rendered@[j]) ==> out@.contains(#[trigger] rendered@[j]),
        decreases rendered@.len() - i,
    {
        let k = rendered[i];
        if member(in_front, k) {
            push_unique(&mut out, k);
        }
        i = i + 1;
    }
    let mut j: usize = 0;
    while j < in_front.len()
        invariant
            j <= in_front@.len(),
            out@.no_duplicates(),
            forall|k: ChunkVec2| out@.contains(k) ==> in_front@.contains(k),
            forall|m: int| 0 <= m < j ==> out@.contains(#[trigger] in_front@[m]),
        decreases in_front@.len() - j,
    {
        push_unique(&mut out, in_front[j]);
        j = j + 1;
    }
    assert forall|k: ChunkVec2| in_front@.contains(k) implies out@.contains(k) by {
        let m = choose|m: int| 0 <= m < in_front@.len() && #[trigger] in_front@[m] == k;
        assert(out@.contains(in_front@[m]));
    }
    out
}

/// Appends `k` unless `out` holds it already.
fn push_unique(out: &mut Vec<ChunkVec2>, k: ChunkVec2)
    requires
        old(out)@.no_duplicates(),
    ensures
        final(out)@.no_duplicates(),
        forall|q: ChunkVec2| final(out)@.contains(q) <==> (old(out)@.contains(q) || q == k),
{
    if member(out, k) {
        return;
    }
    let ghost prev = out@;
    out.push(k);
    assert forall|p: int, q: int| 0 <= p < out@.len() && 0 <= q < out@.len() && p != q implies out@[p] != out@[q] by {
        if p < prev.len() && q < prev.len() {
            assert(out@[p] == prev[p] && out@[q] == prev[q]);
        } else if p == prev.len() {
            assert(out@[q] == prev[q]);
            assert(prev.contains(out@[q]));
        } else {
            assert(out@[p] == prev[p]);
            assert(prev.contains(out@[p]));
        }
    }
}

fn member(v: &Vec<ChunkVec2>, k: ChunkVec2) -> (r: bool)
    ensures
        r == v@.contains(k),
{
    let mut i: usize = 0;
    while i < v.len()
        invariant
            i <= v@.len(),
            forall|j: int| 0 <= j < i ==> v@[j] != k,
        decreases v@.len() - i,
    {
        if v[i] == k {
            return true;
        }
        i = i + 1;
    }
    false
}

fn difference(a: &Vec<ChunkVec2>, b: &Vec<ChunkVec2>) -> (r: Vec<ChunkVec2>)
    ensures
        forall|k: ChunkVec2| r@.contains(k) <==> (a@.contains(k) && !b@.contains(k)),
        a@.no_duplicates() ==> r@.no_duplicates(),
{
    let mut out: Vec<ChunkVec2> = Vec::new();
    let mut i: usize = 0;
    while i < a.len()
        invariant
            i <= a@.len(),
            forall|k: ChunkVec2| out@.contains(k) <==> (a@.take(i as int).contains(k) && !b@.contains(k)),
            a@.no_duplicates() ==> out@.no_duplicates(),
        decreases a@.len() - i,
    {
        let k = a[i];
        let ghost prev = out@;
        assert(a@.take(i + 1) =~= a@.take(i as int).push(k));
        if !member(b, k) {
            out.push(k);
            assert(out@ =~= prev.push(k));
            proof {
                if a@.no_duplicates() {
                    assert(!a@.take(i as int).contains(k)) by {
                        if a@.take(i as int).contains(k) {
                            let j = choose|j: int| 0 <= j < a@.take(i as int).len() && #[trigger] a@.take(i as int)[j] == k;
                            assert(a@[j] == a@[i as int]);
                        }
                    }
                    assert(!prev.contains(k));
                    assert forall|p: int, q: int| 0 <= p < out@.len() && 0 <= q < out@.len() && p != q implies out@[p] != out@[q] by {
                        if p < prev.len() && q < prev.len() {
                            assert(out@[p] == prev[p] && out@[q] == prev[q]);
                        } else if p == prev.len() {
                            assert(out@[q] == prev[q]);
                            assert(prev.contains(out@[q]));
                        } else {
                            assert(out@[p] == prev[p]);
                            assert(prev.contains(out@[p]));
                        }
                    }
                }
            }
        }
        i = i + 1;
    }
    assert(a@.take(i as int) =~= a@);
    out
}

} // verus!
