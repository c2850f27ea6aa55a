use vstd::prelude::*;
use crate::ingest::{
    DATE_COLUMN, NAME_COLUMN, SourceError, TIMESTAMP_FORMAT, date_offset_spec, parse_record,
    utc_seconds_of,
};
use crate::merge::{atomic_merge_spec, tx_merge_spec};
use crate::store::MemStore;

verus! {

/// Which merge a pipeline applies to every event.
#[derive(Debug, Clone, Copy, PartialEq, Eq, Structural)]
pub enum MergeStrategy {
    /// Read-modify-write in one unit of work, with set semantics.
    Transactional,
    /// One conditional append per event, duplicates kept.
    AtomicAppend,
}

/// The event of a source record, or why it has none.
pub open spec fn record_spec(fields: Seq<String>) -> Result<(Seq<char>, i16), SourceError> {
    if fields.len() <= DATE_COLUMN {
        Err(SourceError::MissingColumn)
    } else {
        match date_offset_spec(utc_seconds_of(fields[DATE_COLUMN as int]@, TIMESTAMP_FORMAT@)) {
            Ok(x) => Ok((fields[NAME_COLUMN as int]@, x)),
            Err(e) => Err(e),
        }
    }
}

/// The store contents `m` after merging `x` into the timeline of `name`.
pub open spec fn merge_into(
    m: Map<Seq<char>, Seq<u8>>,
    name: Seq<char>,
    x: i16,
    s: MergeStrategy,
) -> Map<Seq<char>, Seq<u8>> {
    match s {
        MergeStrategy::Transactional => m.insert(
            name,
            tx_merge_spec(
                if m.contains_key(name) {
                    m[name]
                } else {
                    Seq::empty()
                },
                x,
            ),
        ),
        MergeStrategy::AtomicAppend => m.insert(
            name,
            atomic_merge_spec(
                if m.contains_key(name) {
                    Some(m[name])
                } else {
                    None
                },
                x,
            ),
        ),
    }
}

/// The store contents `m` after the events of the records `recs`, in order.
pub open spec fn apply_records(
    m: Map<Seq<char>, Seq<u8>>,
    recs: Seq<Vec<String>>,
    s: MergeStrategy,
) -> Map<Seq<char>, Seq<u8>>
    decreases recs.len(),
{
    if recs.len() == 0 {
        m
    } else {
        let prev = apply_records(m, recs.drop_last(), s);
        match record_spec(recs.last()@) {
            Ok(ev) => merge_into(prev, ev.0, ev.1, s),
            Err(_) => prev,
        }
    }
}

/// Ingests the records `recs` into `store`, one after another, with the merge
/// `s`. The first record without an event stops the file: the error names its
/// position, and the events before it stay merged.
pub fn ingest_records(store: &mut MemStore, recs: &Vec<Vec<String>>, s: MergeStrategy) -> (r: Result<
    usize,
    (usize, SourceError),
>)
    requires
        old(store).wf(),
    ensures
        final(store).wf(),
        r matches Ok(n) ==> n == recs@.len() && (forall|i: int|
            0 <= i < recs@.len() ==> #[trigger] record_spec(recs@[i]@) is Ok) && final(store)@
            == apply_records(old(store)@, recs@, s),
        r matches Err(p) ==> p.0 < recs@.len() && record_spec(recs@[p.0 as int]@) == Err::<
            (Seq<char>, i16),
            SourceError,
        >(p.1) && (forall|i: int| 0 <= i < p.0 ==> #[trigger] record_spec(recs@[i]@) is Ok)
            && final(store)@ == apply_records(old(store)@, recs@.subrange(0, p.0 as int), s),
{
    let ghost start = store@;
    let mut i: usize = 0;
    while i < recs.len()
        invariant
            i <= recs@.len(),
            start == old(store)@,
            store.wf(),
            forall|k: int| 0 <= k < i ==> #[trigger] record_spec(recs@[k]@) is Ok,
            store@ == apply_records(start, recs@.subrange(0, i as int), s),
        decreases recs@.len() - i,
    {
        let ghost pre = recs@.subrange(0, i as int);
        proof {
            assert(recs@.subrange(0, i + 1).drop_last() =~= pre);
        }
        match parse_record(&recs[i]) {
            Ok((name, x)) => {
                match s {
                    MergeStrategy::Transactional => store.merge_transactional(&name, x),
                    MergeStrategy::AtomicAppend => store.merge_atomic_append(&name, x),
                }
            },
            Err(e) => {
                assert(record_spec(recs@[i as int]@) == Err::<(Seq<char>, i16), SourceError>(e));
                return Err((i, e));
            },
        }
        i += 1;
    }
    assert(recs@.subrange(0, recs@.len() as int) =~= recs@);
    Ok(recs.len())
}

} // verus!
