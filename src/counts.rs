use vstd::prelude::*;

use crate::chunk::{
    admits, classify_status, is_admitted, is_full_status, status_of, ChunkContents, ChunkStatus,
    ProtoOption,
};
use crate::tally::{
    lemma_sum_insert, lemma_sum_single, lemma_sum_split, lemma_sum_update, lemma_sum_zero, sum_of,
};

verus! {

/// Occurrences of one block kind: `(level, count)` pairs, sorted by level.
pub struct BlockTally {
    pub name: String,
    pub levels: Vec<(isize, u64)>,
}

/// What a `(level, count)` pair contributes to the count at level `y`.
pub open spec fn level_term(y: int) -> spec_fn((isize, u64)) -> nat {
    |e: (isize, u64)|
        if e.0 == y {
            e.1 as nat
        } else {
            0nat
        }
}

/// The count at level `y` of a list of `(level, count)` pairs.
pub open spec fn level_tally(levels: Seq<(isize, u64)>, y: int) -> nat {
    sum_of(levels, level_term(y))
}

/// What an entry contributes to the count of `name` at level `y`.
pub open spec fn entry_term(name: Seq<char>, y: int) -> spec_fn(BlockTally) -> nat {
    |t: BlockTally|
        if t.name@ == name {
            level_tally(t.levels@, y)
        } else {
            0nat
        }
}

/// Levels strictly increase along the list.
pub open spec fn levels_sorted(levels: Seq<(isize, u64)>) -> bool {
    forall|i: int, j: int| 0 <= i < j < levels.len() ==> levels[i].0 < levels[j].0
}

/// Block occurrences by name and level over the chunks counted so far.
pub struct BlockCounts {
    pub counts: Vec<BlockTally>,
    pub blocks_counted: u64,
    pub chunks_counted: usize,
    pub protochunks_seen: usize,
    pub dimension: String,
}

fn find_level(levels: &Vec<(isize, u64)>, y: isize) -> (r: Result<usize, usize>)
    requires
        levels_sorted(levels@),
    ensures
        r matches Ok(j) ==> j < levels.len() && levels@[j as int].0 == y,
        r matches Err(p) ==> p <= levels.len() && (forall|i: int|
            0 <= i < p ==> #[trigger] levels@[i].0 < y) && (forall|i: int|
            p <= i < levels.len() ==> #[trigger] levels@[i].0 > y),
{
    let mut lo: usize = 0;
    let mut hi: usize = levels.len();
    while lo < hi
        invariant
            lo <= hi <= levels.len(),
            levels_sorted(levels@),
            forall|i: int| 0 <= i < lo ==> #[trigger] levels@[i].0 < y,
            forall|i: int| hi <= i < levels.len() ==> #[trigger] levels@[i].0 > y,
        decreases hi - lo,
    {
        let mid = lo + (hi - lo) / 2;
        let m = levels[mid].0;
        if m == y {
            return Ok(mid);
        } else if m < y {
            lo = mid + 1;
        } else {
            hi = mid;
        }
    }
    Err(lo)
}

/// Adds one occurrence at level `y`.
fn bump_level(levels: &mut Vec<(isize, u64)>, y: isize, bound: u64)
    requires
        levels_sorted(old(levels)@),
        forall|j: int| 0 <= j < old(levels)@.len() ==> 0 < #[trigger] old(levels)@[j].1 <= bound,
        bound < u64::MAX,
    ensures
        levels_sorted(final(levels)@),
        forall|j: int| 0 <= j < final(levels)@.len() ==> 0 < #[trigger] final(levels)@[j].1 <= bound
            + 1,
        forall|l: int|
            level_tally(final(levels)@, l) == level_tally(old(levels)@, l) + if l == y {
                1nat
            } else {
                0nat
            },
{
    let ghost before = levels@;
    match find_level(levels, y) {
        Ok(j) => {
            let c = levels[j].1;
            levels.set(j, (y, c + 1));
            assert forall|l: int|
                level_tally(levels@, l) == level_tally(before, l) + if l == y {
                    1nat
                } else {
                    0nat
                } by {
                lemma_sum_update(before, j as int, (y, (c + 1) as u64), level_term(l));
            }
        },
        Err(p) => {
            levels.insert(p, (y, 1));
            assert(levels@ == before.insert(p as int, (y, 1u64)));
            assert forall|l: int|
                level_tally(levels@, l) == level_tally(before, l) + if l == y {
                    1nat
                } else {
                    0nat
                } by {
                lemma_sum_insert(before, p as int, (y, 1u64), level_term(l));
            }
            assert forall|i: int, k: int| 0 <= i < k < levels@.len() implies levels@[i].0
                < levels@[k].0 by {
                if k < p {
                } else if k == p {
                } else if i < p {
                    assert(levels@[k] == before[k - 1]);
                } else if i == p {
                    assert(levels@[k] == before[k - 1]);
                } else {
                    assert(levels@[k] == before[k - 1]);
                    assert(levels@[i] == before[i - 1]);
                }
            }
            assert forall|j: int| 0 <= j < levels@.len() implies 0 < #[trigger] levels@[j].1
                <= bound + 1 by {
                if j > p {
                    assert(levels@[j] == before[j - 1]);
                }
            }
        },
    }
}

impl BlockCounts {
    /// Occurrences of blocks named `name` at level `y`.
    pub open spec fn tally(&self, name: Seq<char>, y: int) -> nat {
        sum_of(self.counts@, entry_term(name, y))
    }

    pub open spec fn names_unique(&self) -> bool {
        forall|i: int, j: int|
            0 <= i < j < self.counts.len() ==> self.counts@[i].name@ != self.counts@[j].name@
    }

    /// Every stored count is positive and at most `bound`.
    pub open spec fn counts_within(&self, bound: int) -> bool {
        forall|i: int, j: int|
            0 <= i < self.counts.len() && 0 <= j < self.counts@[i].levels.len() ==> 0
                < #[trigger] self.counts@[i].levels@[j].1 <= bound
    }

    pub open spec fn shaped(&self) -> bool {
        &&& self.names_unique()
        &&& forall|i: int| 0 <= i < self.counts.len() ==> levels_sorted(#[trigger] self.counts@[i].levels@)
    }

    /// One entry per name, levels sorted, and no count above the number of
    /// blocks counted.
    pub open spec fn wf(&self) -> bool {
        &&& self.shaped()
        &&& self.counts_within(self.blocks_counted as int)
    }

    /// An empty table for a dimension.
    pub fn new(dimension: &str) -> (r: BlockCounts)
        ensures
            r.wf(),
            r.dimension@ == dimension@,
            r.blocks_counted == 0,
            r.chunks_counted == 0,
            r.protochunks_seen == 0,
            r.counts.len() == 0,
            forall|name: Seq<char>, y: int| r.tally(name, y) == 0,
    {
        BlockCounts {
            counts: Vec::new(),
            blocks_counted: 0,
            chunks_counted: 0,
            protochunks_seen: 0,
            dimension: dimension.to_owned(),
        }
    }

    fn find_block(&self, name: &String, hint: usize) -> (r: Option<usize>)
        ensures
            r matches Some(i) ==> i < self.counts.len() && self.counts@[i as int].name@ == name@,
            r is None ==> forall|i: int|
                0 <= i < self.counts.len() ==> #[trigger] self.counts@[i].name@ != name@,
    {
        if hint < self.counts.len() && self.counts[hint].name == *name {
            return Some(hint);
        }
        let mut i: usize = 0;
        while i < self.counts.len()
            invariant
                i <= self.counts.len(),
                forall|j: int| 0 <= j < i ==> #[trigger] self.counts@[j].name@ != name@,
            decreases self.counts.len() - i,
        {
            if self.counts[i].name == *name {
                return Some(i);
            }
            i = i + 1;
        }
        None
    }

    /// Adds one block named `name` at level `y`, returning the entry it went
    /// to.
    fn bump(&mut self, name: &String, y: isize, hint: usize) -> (r: usize)
        requires
            old(self).shaped(),
            old(self).counts_within(old(self).blocks_counted as int),
            old(self).blocks_counted < u64::MAX,
        ensures
            final(self).shaped(),
            final(self).counts_within(old(self).blocks_counted + 1),
            final(self).blocks_counted == old(self).blocks_counted,
            final(self).chunks_counted == old(self).chunks_counted,
            final(self).protochunks_seen == old(self).protochunks_seen,
            final(self).dimension == old(self).dimension,
            forall|n: Seq<char>, l: int|
                #[trigger] final(self).tally(n, l) == old(self).tally(n, l) + if n == name@ && l
                    == y {
                    1nat
                } else {
                    0nat
                },
    {
        let ghost before = self.counts@;
        let bound = self.blocks_counted;
        match self.find_block(name, hint) {
            Some(i) => {
                assert(forall|j: int|
                    0 <= j < before[i as int].levels@.len() ==> 0
                        < #[trigger] before[i as int].levels@[j].1 <= bound);
                bump_level(&mut self.counts[i].levels, y, bound);
                let ghost e = self.counts@[i as int];
                assert(self.counts@ == before.update(i as int, e));
                assert forall|n: Seq<char>, l: int|
                    #[trigger] self.tally(n, l) == sum_of(before, entry_term(n, l)) + if n
                        == name@ && l == y {
                        1nat
                    } else {
                        0nat
                    } by {
                    lemma_sum_update(before, i as int, e, entry_term(n, l));
                }
                assert forall|a: int, b: int|
                    0 <= a < self.counts.len() && 0 <= b < self.counts@[a].levels.len() implies 0
                        < #[trigger] self.counts@[a].levels@[b].1 <= bound + 1 by {
                    if a != i {
                        assert(self.counts@[a] == before[a]);
                    }
                }
                assert forall|a: int| 0 <= a < self.counts.len() implies levels_sorted(
                    #[trigger] self.counts@[a].levels@,
                ) by {
                    if a != i {
                        assert(self.counts@[a] == before[a]);
                    }
                }
                i
            },
            None => {
                let mut levels: Vec<(isize, u64)> = Vec::new();
                levels.push((y, 1));
                let e = BlockTally { name: name.clone(), levels };
                self.counts.push(e);
                assert(self.counts@.drop_last() == before);
                assert forall|n: Seq<char>, l: int|
                    #[trigger] self.tally(n, l) == sum_of(before, entry_term(n, l)) + if n
                        == name@ && l == y {
                        1nat
                    } else {
                        0nat
                    } by {
                    let ls = self.counts@.last().levels@;
                    assert(ls.len() == 1 && ls.last() == (y, 1u64));
                    assert(ls.drop_last() =~= Seq::<(isize, u64)>::empty());
                    assert(sum_of(ls.drop_last(), level_term(l)) == 0);
                    assert(sum_of(ls, level_term(l)) == level_term(l)(ls.last()));
                    assert(level_tally(ls, l) == if l == y {
                        1nat
                    } else {
                        0nat
                    });
                    assert(self.counts@.last().name@ == name@);
                }
                assert forall|a: int| 0 <= a < self.counts.len() implies levels_sorted(
                    #[trigger] self.counts@[a].levels@,
                ) by {
                    if a < before.len() {
                        assert(self.counts@[a] == before[a]);
                    }
                }
                assert forall|a: int, b: int|
                    0 <= a < self.counts.len() && 0 <= b < self.counts@[a].levels.len() implies 0
                        < #[trigger] self.counts@[a].levels@[b].1 <= bound + 1 by {
                    if a < before.len() {
                        assert(self.counts@[a] == before[a]);
                    }
                }
                self.counts.len() - 1
            },
        }
    }

    /// Counts one decoded chunk under the protochunk policy. A chunk whose
    /// status is not full is noted as a protochunk whatever the policy; a chunk
    /// that the policy admits has every block position counted in
    /// `blocks_counted`, and every named block at its level.
    pub fn add_chunk(&mut self, chunk: &ChunkContents, proto: ProtoOption)
        requires
            old(self).wf(),
            chunk.wf(),
            admits(proto, status_of(chunk.status@)) ==> old(self).blocks_counted
                + chunk.blocks.len() <= u64::MAX,
            old(self).chunks_counted < usize::MAX,
            old(self).protochunks_seen < usize::MAX,
        ensures
            final(self).wf(),
            final(self).dimension == old(self).dimension,
            final(self).protochunks_seen == old(self).protochunks_seen + if is_full_status(
                chunk.status@,
            ) {
                0int
            } else {
                1int
            },
            admits(proto, status_of(chunk.status@)) ==> {
                &&& final(self).chunks_counted == old(self).chunks_counted + 1
                &&& final(self).blocks_counted == old(self).blocks_counted + chunk.blocks.len()
                &&& forall|name: Seq<char>, y: int|
                    #[trigger] final(self).tally(name, y) == old(self).tally(name, y) + chunk.count(
                        name,
                        y,
                    )
            },
            !admits(proto, status_of(chunk.status@)) ==> {
                &&& final(self).chunks_counted == old(self).chunks_counted
                &&& final(self).blocks_counted == old(self).blocks_counted
                &&& final(self).counts@ == old(self).counts@
            },
    {
        let status = classify_status(chunk.status.as_str());
        if status == ChunkStatus::Proto {
            self.protochunks_seen = self.protochunks_seen + 1;
        }
        if !is_admitted(proto, status) {
            return;
        }
        let n = chunk.blocks.len();
        let mut k: usize = 0;
        let mut hint: usize = 0;
        while k < n
            invariant
                n == chunk.blocks.len(),
                chunk.wf(),
                k <= n,
                self.shaped(),
                self.counts_within(self.blocks_counted as int),
                self.blocks_counted == old(self).blocks_counted + k,
                old(self).blocks_counted + n <= u64::MAX,
                self.chunks_counted == old(self).chunks_counted,
                self.chunks_counted < usize::MAX,
                self.dimension == old(self).dimension,
                self.protochunks_seen == old(self).protochunks_seen + if is_full_status(
                    chunk.status@,
                ) {
                    0int
                } else {
                    1int
                },
                forall|name: Seq<char>, y: int|
                    #[trigger] self.tally(name, y) == old(self).tally(name, y)
                        + chunk.occurrences(k as int, name, y),
            decreases n - k,
        {
            proof {
                let d = chunk.y_end - chunk.y_start;
                assert(k / 256 < d) by (nonlinear_arith)
                    requires
                        k < 256 * d,
                        0 <= k,
                ;
            }
            let y: isize = (chunk.y_start as i128 + (k / 256) as i128) as isize;
            assert(y == chunk.level_at(k as int));
            match &chunk.blocks[k] {
                Some(name) => {
                    hint = self.bump(name, y, hint);
                },
                None => {},
            }
            let ghost mid = *self;
            self.blocks_counted = self.blocks_counted + 1;
            assert forall|nm: Seq<char>, l: int|
                #[trigger] self.tally(nm, l) == old(self).tally(nm, l) + chunk.occurrences(
                    k + 1,
                    nm,
                    l,
                ) by {
                assert(self.tally(nm, l) == mid.tally(nm, l));
                assert(chunk.occurrences(k + 1, nm, l) == chunk.occurrences(k as int, nm, l)
                    + if chunk.is_at(k as int, nm, l) {
                    1nat
                } else {
                    0nat
                });
            }
            k = k + 1;
        }
        let ghost done = *self;
        self.chunks_counted = self.chunks_counted + 1;
        assert forall|name: Seq<char>, y: int|
            #[trigger] self.tally(name, y) == old(self).tally(name, y) + chunk.count(name, y) by {
            assert(self.tally(name, y) == done.tally(name, y));
        }
    }

    /// The number of blocks named `name` at level `y`.
    pub fn count(&self, name: &str, y: isize) -> (r: u64)
        requires
            self.wf(),
        ensures
            r == self.tally(name@, y as int),
    {
        let key = name.to_owned();
        match self.find_block(&key, 0) {
            None => {
                assert forall|i: int| 0 <= i < self.counts.len() implies #[trigger] entry_term(
                    name@,
                    y as int,
                )(self.counts@[i]) == 0 by {}
                proof {
                    lemma_sum_zero(self.counts@, entry_term(name@, y as int));
                }
                0
            },
            Some(i) => {
                let levels = &self.counts[i].levels;
                assert forall|j: int| 0 <= j < self.counts.len() && j != i implies #[trigger] entry_term(
                    name@,
                    y as int,
                )(self.counts@[j]) == 0 by {
                    if j < i {
                        assert(self.counts@[j].name@ != self.counts@[i as int].name@);
                    } else {
                        assert(self.counts@[i as int].name@ != self.counts@[j].name@);
                    }
                }
                proof {
                    lemma_sum_single(self.counts@, i as int, entry_term(name@, y as int));
                }
                assert(levels_sorted(levels@));
                match find_level(levels, y) {
                    Ok(j) => {
                        assert forall|m: int| 0 <= m < levels@.len() && m != j implies #[trigger] level_term(
                            y as int,
                        )(levels@[m]) == 0 by {
                            if m < j {
                                assert(levels@[m].0 < levels@[j as int].0);
                            } else {
                                assert(levels@[j as int].0 < levels@[m].0);
                            }
                        }
                        proof {
                            lemma_sum_single(levels@, j as int, level_term(y as int));
                        }
                        levels[j].1
                    },
                    Err(_) => {
                        assert forall|m: int| 0 <= m < levels@.len() implies #[trigger] level_term(
                            y as int,
                        )(levels@[m]) == 0 by {}
                        proof {
                            lemma_sum_zero(levels@, level_term(y as int));
                        }
                        0
                    },
                }
            },
        }
    }

    /// The sampled horizontal area: 256 block columns per counted chunk.
    pub fn area(&self) -> (r: u64)
        requires
            256 * self.chunks_counted <= u64::MAX,
        ensures
            r == 256 * self.chunks_counted,
    {
        256 * (self.chunks_counted as u64)
    }
}

/// What a chunk slot contributes to `chunks_counted` under the policy.
pub open spec fn slot_chunks(proto: ProtoOption) -> spec_fn(Option<ChunkContents>) -> nat {
    |o: Option<ChunkContents>|
        match o {
            Some(c) => if admits(proto, status_of(c.status@)) {
                1nat
            } else {
                0nat
            },
            None => 0nat,
        }
}

/// What a chunk slot contributes to `protochunks_seen`, whatever the policy.
pub open spec fn slot_protochunks() -> spec_fn(Option<ChunkContents>) -> nat {
    |o: Option<ChunkContents>|
        match o {
            Some(c) => if is_full_status(c.status@) {
                0nat
            } else {
                1nat
            },
            None => 0nat,
        }
}

/// What a chunk slot contributes to `blocks_counted` under the policy.
pub open spec fn slot_blocks(proto: ProtoOption) -> spec_fn(Option<ChunkContents>) -> nat {
    |o: Option<ChunkContents>|
        match o {
            Some(c) => if admits(proto, status_of(c.status@)) {
                c.blocks.len() as nat
            } else {
                0nat
            },
            None => 0nat,
        }
}

/// What a chunk slot contributes to the count of `name` at level `y` under
/// the policy.
pub open spec fn slot_tally(proto: ProtoOption, name: Seq<char>, y: int) -> spec_fn(
    Option<ChunkContents>,
) -> nat {
    |o: Option<ChunkContents>|
        match o {
            Some(c) => if admits(proto, status_of(c.status@)) {
                c.count(name, y)
            } else {
                0nat
            },
            None => 0nat,
        }
}

/// Every present chunk is well formed.
pub open spec fn slots_wf(chunks: Seq<Option<ChunkContents>>) -> bool {
    forall|i: int| 0 <= i < chunks.len() ==> (#[trigger] chunks[i] matches Some(c) ==> c.wf())
}

proof fn lemma_take_step<T>(s: Seq<T>, i: int, f: spec_fn(T) -> nat)
    requires
        0 <= i < s.len(),
    ensures
        sum_of(s.take(i + 1), f) == sum_of(s.take(i), f) + f(s[i]),
{
    assert(s.take(i + 1).drop_last() =~= s.take(i));
}

proof fn lemma_sum_prefix_le<T>(s: Seq<T>, i: int, f: spec_fn(T) -> nat)
    requires
        0 <= i <= s.len(),
    ensures
        sum_of(s.take(i), f) <= sum_of(s, f),
    decreases s.len() - i,
{
    if i < s.len() {
        lemma_take_step(s, i, f);
        lemma_sum_prefix_le(s, i + 1, f);
    } else {
        assert(s.take(i) =~= s);
    }
}

/// Counts the chunks of one region, given each chunk slot in order: the
/// decoded chunk, or `None` for a slot that is empty or does not decode. A
/// chunk that is not fully generated is noted as a protochunk whatever the
/// policy; every chunk that the policy admits has all its block positions
/// counted in `blocks_counted` and its named blocks counted by level.
pub fn count_blocks(chunks: &Vec<Option<ChunkContents>>, dimension: &str, proto: ProtoOption) -> (r:
    BlockCounts)
    requires
        slots_wf(chunks@),
        sum_of(chunks@, slot_blocks(proto)) <= u64::MAX,
    ensures
        r.wf(),
        r.dimension@ == dimension@,
        r.chunks_counted == sum_of(chunks@, slot_chunks(proto)),
        r.protochunks_seen == sum_of(chunks@, slot_protochunks()),
        r.blocks_counted == sum_of(chunks@, slot_blocks(proto)),
        forall|name: Seq<char>, y: int|
            #[trigger] r.tally(name, y) == sum_of(chunks@, slot_tally(proto, name, y)),
{
    let mut counts = BlockCounts::new(dimension);
    let mut i: usize = 0;
    assert(chunks@.take(0) =~= Seq::<Option<ChunkContents>>::empty());
    while i < chunks.len()
        invariant
            i <= chunks.len(),
            slots_wf(chunks@),
            sum_of(chunks@, slot_blocks(proto)) <= u64::MAX,
            counts.wf(),
            counts.dimension@ == dimension@,
            counts.chunks_counted == sum_of(chunks@.take(i as int), slot_chunks(proto)),
            counts.chunks_counted <= i,
            counts.protochunks_seen == sum_of(chunks@.take(i as int), slot_protochunks()),
            counts.protochunks_seen <= i,
            counts.blocks_counted == sum_of(chunks@.take(i as int), slot_blocks(proto)),
            forall|name: Seq<char>, y: int|
                #[trigger] counts.tally(name, y) == sum_of(
                    chunks@.take(i as int),
                    slot_tally(proto, name, y),
                ),
        decreases chunks.len() - i,
    {
        proof {
            lemma_take_step(chunks@, i as int, slot_chunks(proto));
            lemma_take_step(chunks@, i as int, slot_protochunks());
            lemma_take_step(chunks@, i as int, slot_blocks(proto));
            lemma_sum_prefix_le(chunks@, i + 1, slot_blocks(proto));
        }
        let ghost before = counts;
        if let Some(c) = &chunks[i] {
            assert(chunks@[i as int] matches Some(c) ==> c.wf());
            counts.add_chunk(c, proto);
        }
        assert forall|name: Seq<char>, y: int|
            #[trigger] counts.tally(name, y) == sum_of(
                chunks@.take(i + 1),
                slot_tally(proto, name, y),
            ) by {
            lemma_take_step(chunks@, i as int, slot_tally(proto, name, y));
            assert(before.tally(name, y) == sum_of(chunks@.take(i as int), slot_tally(proto, name, y)));
        }
        i = i + 1;
    }
    assert(chunks@.take(chunks.len() as int) =~= chunks@);
    counts
}

/// Counting a region with every chunk admitted gives, in the chunks counted,
/// the blocks counted and every count by name and level, the sum of counting
/// only its full chunks and counting only its protochunks; the protochunks
/// seen do not depend on the policy.
pub proof fn lemma_policies_partition(chunks: Seq<Option<ChunkContents>>)
    ensures
        sum_of(chunks, slot_chunks(ProtoOption::Include)) == sum_of(
            chunks,
            slot_chunks(ProtoOption::Skip),
        ) + sum_of(chunks, slot_chunks(ProtoOption::OnlyProto)),
        sum_of(chunks, slot_blocks(ProtoOption::Include)) == sum_of(
            chunks,
            slot_blocks(ProtoOption::Skip),
        ) + sum_of(chunks, slot_blocks(ProtoOption::OnlyProto)),
        forall|name: Seq<char>, y: int|
            #[trigger] sum_of(chunks, slot_tally(ProtoOption::Include, name, y)) == sum_of(
                chunks,
                slot_tally(ProtoOption::Skip, name, y),
            ) + sum_of(chunks, slot_tally(ProtoOption::OnlyProto, name, y)),
{
    lemma_sum_split(
        chunks,
        slot_chunks(ProtoOption::Include),
        slot_chunks(ProtoOption::Skip),
        slot_chunks(ProtoOption::OnlyProto),
    );
    lemma_sum_split(
        chunks,
        slot_blocks(ProtoOption::Include),
        slot_blocks(ProtoOption::Skip),
        slot_blocks(ProtoOption::OnlyProto),
    );
    assert forall|name: Seq<char>, y: int|
        #[trigger] sum_of(chunks, slot_tally(ProtoOption::Include, name, y)) == sum_of(
            chunks,
            slot_tally(ProtoOption::Skip, name, y),
        ) + sum_of(chunks, slot_tally(ProtoOption::OnlyProto, name, y)) by {
        lemma_sum_split(
            chunks,
            slot_tally(ProtoOption::Include, name, y),
            slot_tally(ProtoOption::Skip, name, y),
            slot_tally(ProtoOption::OnlyProto, name, y),
        );
    }
}

} // verus!
