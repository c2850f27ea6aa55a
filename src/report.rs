use vstd::prelude::*;
use crate::analysis::{
    GapCounts, classes_spec, entity_counts, entity_gaps, gaps_spec, interesting_spec,
    is_interesting, is_sorted_distinct_of, lemma_sorted_distinct_len, tallies, HISTOGRAM_BUCKETS,
};
use crate::codec::{decode_spec, well_formed};

verus! {

/// `c` is the tally of the gaps of the stored timeline `b`.
pub open spec fn counts_of(c: GapCounts, b: Seq<u8>) -> bool {
    exists|d: Seq<i16>|
        #[trigger] is_sorted_distinct_of(d, decode_spec(b)) && tallies(c, classes_spec(gaps_spec(d)))
}

/// An entity reported by the filter, with its timely and rescued counts.
#[derive(Debug, PartialEq, Eq)]
pub struct InterestingEntity {
    pub name: String,
    pub timely: usize,
    pub rescued: usize,
}

/// Entity-level aggregation: keeps the interesting entities and counts the
/// timelines that could not be decoded.
pub struct EntityFilter {
    pub interesting: Vec<InterestingEntity>,
    pub defects: usize,
}

impl EntityFilter {
    /// An empty report.
    pub fn new() -> (r: EntityFilter)
        ensures
            r.interesting@.len() == 0,
            r.defects == 0,
    {
        EntityFilter { interesting: Vec::new(), defects: 0 }
    }

    /// Takes one scanned entity into the report.
    pub fn observe(&mut self, name: &String, b: &Vec<u8>)
        requires
            old(self).defects < usize::MAX,
        ensures
            !well_formed(b@) ==> final(self).defects == old(self).defects + 1
                && final(self).interesting@ == old(self).interesting@,
            well_formed(b@) ==> final(self).defects == old(self).defects && exists|c: GapCounts|
                #[trigger] counts_of(c, b@) && if interesting_spec(c) {
                    final(self).interesting@ == old(self).interesting@.push(
                        (InterestingEntity { name: *name, timely: c.timely, rescued: c.rescued }),
                    )
                } else {
                    final(self).interesting@ == old(self).interesting@
                },
    {
        match entity_counts(b) {
            Err(_) => {
                self.defects = self.defects + 1;
            },
            Ok(c) => {
                if is_interesting(&c) {
                    let e = InterestingEntity { name: name.clone(), timely: c.timely, rescued: c.rescued };
                    self.interesting.push(e);
                }
                assert(counts_of(c, b@));
            },
        }
    }
}

/// The histogram bucket of a gap of `g` days: gaps from the last bucket up share it.
pub open spec fn bucket_spec(g: int) -> int {
    if g < 0 {
        0
    } else if g >= HISTOGRAM_BUCKETS - 1 {
        HISTOGRAM_BUCKETS - 1
    } else {
        g
    }
}

/// How many of the gaps `gs` fall in bucket `k`.
pub open spec fn count_bucket(gs: Seq<int>, k: int) -> nat
    decreases gs.len(),
{
    if gs.len() == 0 {
        0
    } else {
        count_bucket(gs.drop_last(), k) + if bucket_spec(gs.last()) == k {
            1nat
        } else {
            0nat
        }
    }
}

proof fn lemma_count_bucket_le(gs: Seq<int>, k: int)
    ensures
        count_bucket(gs, k) <= gs.len(),
    decreases gs.len(),
{
    if gs.len() > 0 {
        lemma_count_bucket_le(gs.drop_last(), k);
    }
}

/// Global aggregation: how often each gap occurs over all entities, by bucket.
pub struct GapHistogram {
    buckets: Vec<u64>,
}

impl View for GapHistogram {
    type V = Seq<u64>;

    closed spec fn view(&self) -> Seq<u64> {
        self.buckets@
    }
}

impl GapHistogram {
    /// A histogram with every bucket at zero.
    pub fn new() -> (r: GapHistogram)
        ensures
            r@.len() == HISTOGRAM_BUCKETS,
            forall|k: int| 0 <= k < HISTOGRAM_BUCKETS ==> r@[k] == 0,
    {
        let mut buckets: Vec<u64> = Vec::new();
        let mut i: usize = 0;
        while i < HISTOGRAM_BUCKETS
            invariant
                i <= HISTOGRAM_BUCKETS,
                buckets@.len() == i,
                forall|k: int| 0 <= k < i ==> buckets@[k] == 0,
            decreases HISTOGRAM_BUCKETS - i,
        {
            buckets.push(0);
            i += 1;
        }
        GapHistogram { buckets }
    }

    /// The count held in bucket `k`.
    pub fn bucket(&self, k: usize) -> (r: u64)
        requires
            k < self@.len(),
        ensures
            r == self@[k as int],
    {
        self.buckets[k]
    }

    /// Adds the gaps `gs` to their buckets.
    pub fn add_gaps(&mut self, gs: &Vec<i32>)
        requires
            old(self)@.len() == HISTOGRAM_BUCKETS,
            forall|k: int| 0 <= k < HISTOGRAM_BUCKETS ==> old(self)@[k] + gs@.len() <= u64::MAX,
        ensures
            final(self)@.len() == HISTOGRAM_BUCKETS,
            forall|k: int|
                0 <= k < HISTOGRAM_BUCKETS ==> final(self)@[k] == old(self)@[k] + count_bucket(
                    gs@.map_values(|g: i32| g as int),
                    k,
                ),
    {
        let ghost pre = self@;
        let ghost all = gs@.map_values(|g: i32| g as int);
        let mut i: usize = 0;
        while i < gs.len()
            invariant
                i <= gs@.len(),
                all == gs@.map_values(|g: i32| g as int),
                self@.len() == HISTOGRAM_BUCKETS,
                forall|k: int| 0 <= k < HISTOGRAM_BUCKETS ==> pre[k] + gs@.len() <= u64::MAX,
                forall|k: int|
                    0 <= k < HISTOGRAM_BUCKETS ==> self@[k] == pre[k] + count_bucket(
                        all.subrange(0, i as int),
                        k,
                    ),
            decreases gs@.len() - i,
        {
            let g = gs[i];
            let b: usize = if g < 0 {
                0
            } else if g >= (HISTOGRAM_BUCKETS - 1) as i32 {
                HISTOGRAM_BUCKETS - 1
            } else {
                g as usize
            };
            proof {
                assert(all.subrange(0, i + 1).drop_last() =~= all.subrange(0, i as int));
                lemma_count_bucket_le(all.subrange(0, i as int), b as int);
            }
            let v = self.buckets[b];
            self.buckets.set(b, v + 1);
            i += 1;
        }
        assert(all.subrange(0, gs@.len() as int) =~= all);
    }

    /// Adds the gaps of one stored timeline; a malformed timeline leaves the
    /// histogram as it is and is reported as an error.
    pub fn observe(&mut self, b: &Vec<u8>) -> (r: Result<(), crate::codec::TimelineError>)
        requires
            old(self)@.len() == HISTOGRAM_BUCKETS,
            forall|k: int| 0 <= k < HISTOGRAM_BUCKETS ==> old(self)@[k] + b@.len() <= u64::MAX,
        ensures
            r is Err <==> !well_formed(b@),
            r is Err ==> final(self)@ == old(self)@,
            final(self)@.len() == HISTOGRAM_BUCKETS,
            r is Ok ==> exists|d: Seq<i16>|
                #[trigger] is_sorted_distinct_of(d, decode_spec(b@)) && forall|k: int|
                    0 <= k < HISTOGRAM_BUCKETS ==> final(self)@[k] == old(self)@[k] + count_bucket(
                        gaps_spec(d),
                        k,
                    ),
    {
        let g = match entity_gaps(b) {
            Ok(g) => g,
            Err(e) => {
                return Err(e);
            },
        };
        proof {
            let d = choose|d: Seq<i16>|
                #[trigger] is_sorted_distinct_of(d, decode_spec(b@)) && g@.map_values(|x: i32| x as int)
                    == gaps_spec(d);
            assert(g@.len() <= b@.len()) by {
                lemma_sorted_distinct_len(d, decode_spec(b@));
                assert(g@.map_values(|x: i32| x as int).len() == g@.len());
                assert(gaps_spec(d).len() <= d.len());
                assert(decode_spec(b@).len() <= b@.len());
            }
        }
        self.add_gaps(&g);
        Ok(())
    }
}

} // verus!
