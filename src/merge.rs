use vstd::prelude::*;
use crate::codec::{
    TimelineError, decode, decode_spec, encode_spec, hi_byte, lo_byte, lemma_decode_append,
    lemma_encode_push, offset_bytes, well_formed,
};

verus! {

/// Byte length at which a timeline stops growing (one hundred offsets).
pub const CAPACITY_BYTES: usize = 200;

/// The timeline `cur` with the packing of `x` appended.
pub open spec fn appended(cur: Seq<u8>, x: i16) -> Seq<u8> {
    cur + seq![hi_byte(x), lo_byte(x)]
}

/// Transactional merge: an offset already present, or a full timeline, leaves
/// the timeline as it is; otherwise the offset is appended.
pub open spec fn tx_merge_spec(cur: Seq<u8>, x: i16) -> Seq<u8> {
    if decode_spec(cur).contains(x) || cur.len() >= CAPACITY_BYTES {
        cur
    } else {
        appended(cur, x)
    }
}

/// Atomic conditional append: an absent timeline is created with `x`; a present
/// one below the capacity gets `x` appended, duplicates included.
pub open spec fn atomic_merge_spec(cur: Option<Seq<u8>>, x: i16) -> Seq<u8> {
    match cur {
        None => seq![hi_byte(x), lo_byte(x)],
        Some(c) => if c.len() < CAPACITY_BYTES {
            appended(c, x)
        } else {
            c
        },
    }
}

/// A stored timeline as the store keeps it: well formed and within the capacity.
pub open spec fn stored_ok(b: Seq<u8>) -> bool {
    well_formed(b) && b.len() <= CAPACITY_BYTES
}

/// The timeline after transactional merges of `xs`, one after another.
pub open spec fn tx_merge_all(cur: Seq<u8>, xs: Seq<i16>) -> Seq<u8>
    decreases xs.len(),
{
    if xs.len() == 0 {
        cur
    } else {
        tx_merge_spec(tx_merge_all(cur, xs.drop_last()), xs.last())
    }
}

/// The timeline after atomic appends of `xs`, one after another.
pub open spec fn atomic_merge_all(cur: Option<Seq<u8>>, xs: Seq<i16>) -> Seq<u8>
    recommends
        xs.len() > 0,
    decreases xs.len(),
{
    if xs.len() <= 1 {
        atomic_merge_spec(cur, xs[0])
    } else {
        atomic_merge_spec(Some(atomic_merge_all(cur, xs.drop_last())), xs.last())
    }
}

/// Appending the packing of `x` to a well-formed timeline appends `x` to its offsets.
pub proof fn lemma_appended_decode(cur: Seq<u8>, x: i16)
    requires
        well_formed(cur),
    ensures
        well_formed(appended(cur, x)),
        decode_spec(appended(cur, x)) == decode_spec(cur).push(x),
        appended(cur, x).len() == cur.len() + 2,
{
    lemma_decode_append(cur, x);
}

/// Either merge keeps a timeline well formed and within the capacity.
pub proof fn lemma_merges_keep_stored_ok(cur: Seq<u8>, x: i16)
    requires
        stored_ok(cur),
    ensures
        stored_ok(tx_merge_spec(cur, x)),
        stored_ok(atomic_merge_spec(Some(cur), x)),
        stored_ok(atomic_merge_spec(None, x)),
{
    lemma_appended_decode(cur, x);
    lemma_appended_decode(Seq::empty(), x);
    assert(appended(Seq::empty(), x) =~= seq![hi_byte(x), lo_byte(x)]);
}

/// Merging the same offset transactionally a second time changes nothing.
pub proof fn lemma_tx_merge_idempotent(cur: Seq<u8>, x: i16)
    requires
        well_formed(cur),
    ensures
        tx_merge_spec(tx_merge_spec(cur, x), x) == tx_merge_spec(cur, x),
{
    if !(decode_spec(cur).contains(x) || cur.len() >= CAPACITY_BYTES) {
        lemma_appended_decode(cur, x);
        let d = decode_spec(cur).push(x);
        assert(d[d.len() - 1] == x);
    }
}

/// No update is lost: transactional merges of distinct offsets into an absent
/// timeline, in any order and up to the capacity, leave exactly those offsets,
/// in the order the merges took effect.
pub proof fn lemma_tx_merge_no_lost_update(xs: Seq<i16>)
    requires
        xs.no_duplicates(),
        2 * xs.len() <= CAPACITY_BYTES,
    ensures
        well_formed(tx_merge_all(Seq::empty(), xs)),
        decode_spec(tx_merge_all(Seq::empty(), xs)) == xs,
        decode_spec(tx_merge_all(Seq::empty(), xs)).len() == xs.len(),
    decreases xs.len(),
{
    let e = Seq::<u8>::empty();
    if xs.len() == 0 {
        assert(decode_spec(e) =~= xs);
    } else {
        let p = xs.drop_last();
        let x = xs.last();
        assert forall|i: int, j: int| 0 <= i < j < p.len() implies p[i] != p[j] by {
            assert(p[i] == xs[i] && p[j] == xs[j]);
        }
        lemma_tx_merge_no_lost_update(p);
        let cur = tx_merge_all(e, p);
        assert(!decode_spec(cur).contains(x)) by {
            if decode_spec(cur).contains(x) {
                let k = choose|k: int| 0 <= k < p.len() && p[k] == x;
                assert(xs[k] == xs[xs.len() - 1]);
            }
        }
        assert(cur.len() == 2 * p.len());
        lemma_appended_decode(cur, x);
        assert(p.push(x) =~= xs);
    }
}

/// However many atomic appends reach a timeline, it stays well formed and
/// never grows past the capacity.
pub proof fn lemma_atomic_merge_capacity(cur: Option<Seq<u8>>, xs: Seq<i16>)
    requires
        xs.len() > 0,
        cur matches Some(c) ==> stored_ok(c),
    ensures
        stored_ok(atomic_merge_all(cur, xs)),
        atomic_merge_all(cur, xs).len() <= CAPACITY_BYTES,
    decreases xs.len(),
{
    if xs.len() <= 1 {
        match cur {
            None => lemma_merges_keep_stored_ok(Seq::empty(), xs[0]),
            Some(c) => lemma_merges_keep_stored_ok(c, xs[0]),
        }
    } else {
        lemma_atomic_merge_capacity(cur, xs.drop_last());
        lemma_merges_keep_stored_ok(atomic_merge_all(cur, xs.drop_last()), xs.last());
    }
}

/// No update is lost, whatever the timeline held before: after transactional
/// merges of `xs`, in any order, that fit within the capacity, the offsets held
/// before stay as a prefix, none is held twice, and the offsets held are
/// exactly those held before together with those of `xs`.
pub proof fn lemma_tx_merge_set(cur: Seq<u8>, xs: Seq<i16>)
    requires
        well_formed(cur),
        decode_spec(cur).no_duplicates(),
        2 * (decode_spec(cur).to_set() + xs.to_set()).len() <= CAPACITY_BYTES,
    ensures
        well_formed(tx_merge_all(cur, xs)),
        decode_spec(tx_merge_all(cur, xs)).no_duplicates(),
        decode_spec(cur).len() <= decode_spec(tx_merge_all(cur, xs)).len(),
        decode_spec(tx_merge_all(cur, xs)).subrange(0, decode_spec(cur).len() as int) == decode_spec(cur),
        decode_spec(tx_merge_all(cur, xs)).to_set() == decode_spec(cur).to_set() + xs.to_set(),
    decreases xs.len(),
{
    let d = decode_spec(cur);
    if xs.len() == 0 {
        assert(d.subrange(0, d.len() as int) =~= d);
        assert(xs.to_set() =~= Set::<i16>::empty());
        assert(d.to_set() + xs.to_set() =~= d.to_set());
    } else {
        let p = xs.drop_last();
        let x = xs.last();
        assert(p.to_set().subset_of(xs.to_set())) by {
            assert forall|y: i16| p.to_set().contains(y) implies xs.to_set().contains(y) by {
                let k = choose|k: int| 0 <= k < p.len() && p[k] == y;
                assert(xs[k] == y);
            }
        }
        assert(xs.to_set() =~= p.to_set().insert(x)) by {
            assert forall|y: i16| xs.to_set().contains(y) implies p.to_set().insert(x).contains(y) by {
                let k = choose|k: int| 0 <= k < xs.len() && xs[k] == y;
                if k < p.len() {
                    assert(p[k] == y);
                }
            }
            assert(xs.contains(x));
        }
        let all = d.to_set() + xs.to_set();
        let before = d.to_set() + p.to_set();
        d.lemma_cardinality_of_set();
        xs.lemma_cardinality_of_set();
        p.lemma_cardinality_of_set();
        vstd::set_lib::lemma_len_subset(before, all);
        lemma_tx_merge_set(cur, p);
        let prev = tx_merge_all(cur, p);
        let dp = decode_spec(prev);
        if !dp.contains(x) {
            assert(!before.contains(x)) by {
                if before.contains(x) {
                    assert(dp.to_set().contains(x));
                }
            }
            vstd::set_lib::lemma_len_subset(before.insert(x), all);
            dp.unique_seq_to_set();
            assert(dp.len() < CAPACITY_BYTES / 2);
            lemma_appended_decode(prev, x);
            let dn = dp.push(x);
            assert(dn.no_duplicates()) by {
                assert forall|a: int, b: int| 0 <= a < dn.len() && 0 <= b < dn.len() && a != b implies dn[a] != dn[b] by {
                    if a == dn.len() - 1 {
                        assert(dp.contains(dn[b]) || b == dn.len() - 1);
                    } else if b == dn.len() - 1 {
                        assert(dp.contains(dn[a]));
                    }
                }
            }
            assert(dn.subrange(0, d.len() as int) =~= dp.subrange(0, d.len() as int));
            assert forall|y: i16| dn.to_set().contains(y) <==> dp.to_set().insert(x).contains(y) by {
                if dn.contains(y) && y != x {
                    let k = choose|k: int| 0 <= k < dn.len() && dn[k] == y;
                    assert(dp[k] == y);
                }
                if dp.contains(y) {
                    let k = choose|k: int| 0 <= k < dp.len() && dp[k] == y;
                    assert(dn[k] == y);
                }
                assert(dn[dn.len() - 1] == x);
            }
            assert(dn.to_set() =~= dp.to_set().insert(x));
            assert(all =~= before.insert(x));
        } else {
            assert(dp.to_set().contains(x));
            assert(all =~= before);
        }
    }
}

/// The timeline that `cur` stands for: empty when absent.
pub open spec fn base_of(cur: Option<Seq<u8>>) -> Seq<u8> {
    match cur {
        None => Seq::empty(),
        Some(c) => c,
    }
}

/// Appending the packing of `s` to a well-formed timeline appends the offsets of `s`.
pub proof fn lemma_decode_concat_encode(b: Seq<u8>, s: Seq<i16>)
    requires
        well_formed(b),
    ensures
        well_formed(b + encode_spec(s)),
        decode_spec(b + encode_spec(s)) == decode_spec(b) + s,
    decreases s.len(),
{
    if s.len() == 0 {
        assert(b + encode_spec(s) =~= b);
        assert(decode_spec(b) + s =~= decode_spec(b));
    } else {
        let p = s.drop_last();
        let x = s.last();
        lemma_decode_concat_encode(b, p);
        lemma_encode_push(p, x);
        assert(p.push(x) =~= s);
        assert(b + encode_spec(s) =~= appended(b + encode_spec(p), x));
        lemma_appended_decode(b + encode_spec(p), x);
        assert((decode_spec(b) + p).push(x) =~= decode_spec(b) + s);
    }
}

/// Under atomic appends, however many, a timeline keeps what it held as a
/// prefix, and what is added is the packing of a leading run of the appended
/// offsets, in order (so a sub-multiset of them); the run stops short only once
/// the capacity is reached.
pub proof fn lemma_atomic_merge_prefix(cur: Option<Seq<u8>>, xs: Seq<i16>)
    requires
        xs.len() > 0,
        cur matches Some(c) ==> stored_ok(c),
    ensures
        exists|k: int|
            0 <= k <= xs.len() && #[trigger] atomic_merge_all(cur, xs) == base_of(cur) + encode_spec(
                xs.subrange(0, k),
            ) && decode_spec(atomic_merge_all(cur, xs)) == decode_spec(base_of(cur)) + xs.subrange(
                0,
                k,
            ) && (k < xs.len() ==> atomic_merge_all(cur, xs).len() >= CAPACITY_BYTES),
    decreases xs.len(),
{
    let base = base_of(cur);
    let e = Seq::<i16>::empty();
    assert(encode_spec(e) =~= Seq::<u8>::empty());
    if xs.len() == 1 {
        let x = xs[0];
        lemma_encode_push(e, x);
        assert(e.push(x) =~= xs.subrange(0, 1));
        assert(xs.subrange(0, 0) =~= e);
        let r = atomic_merge_all(cur, xs);
        if cur is None || base.len() < CAPACITY_BYTES {
            assert(r =~= base + encode_spec(xs.subrange(0, 1)));
            lemma_decode_concat_encode(base, xs.subrange(0, 1));
        } else {
            assert(r =~= base + encode_spec(xs.subrange(0, 0)));
            lemma_decode_concat_encode(base, xs.subrange(0, 0));
        }
    } else {
        let p = xs.drop_last();
        let x = xs.last();
        lemma_atomic_merge_prefix(cur, p);
        let prev = atomic_merge_all(cur, p);
        let k = choose|k: int|
            0 <= k <= p.len() && #[trigger] atomic_merge_all(cur, p) == base + encode_spec(
                p.subrange(0, k),
            ) && decode_spec(atomic_merge_all(cur, p)) == decode_spec(base) + p.subrange(0, k) && (k
                < p.len() ==> atomic_merge_all(cur, p).len() >= CAPACITY_BYTES);
        let r = atomic_merge_all(cur, xs);
        if prev.len() < CAPACITY_BYTES {
            assert(p.subrange(0, k) =~= p);
            lemma_encode_push(p, x);
            assert(p.push(x) =~= xs.subrange(0, xs.len() as int));
            assert(r =~= base + encode_spec(xs.subrange(0, xs.len() as int)));
            lemma_decode_concat_encode(base, xs.subrange(0, xs.len() as int));
        } else {
            assert(p.subrange(0, k) =~= xs.subrange(0, k));
            assert(r == prev);
        }
    }
}

/// A leading run of `s` holds each offset no more often than `s` does, so what
/// atomic appends add is a sub-multiset of the offsets appended.
pub proof fn lemma_leading_run_sub_multiset(s: Seq<i16>, k: int)
    requires
        0 <= k <= s.len(),
    ensures
        s.subrange(0, k).to_multiset().subset_of(s.to_multiset()),
    decreases s.len(),
{
    if k == s.len() {
        assert(s.subrange(0, k) =~= s);
    } else {
        let p = s.drop_last();
        lemma_leading_run_sub_multiset(p, k);
        assert(p.subrange(0, k) =~= s.subrange(0, k));
        vstd::seq_lib::to_multiset_build(p, s.last());
        assert(p.push(s.last()) =~= s);
        assert forall|y: i16| s.subrange(0, k).to_multiset().count(y) <= s.to_multiset().count(y) by {
            assert(p.subrange(0, k).to_multiset().count(y) <= p.to_multiset().count(y));
        }
    }
}

/// Whether `x` occurs in `v`.
pub fn contains_offset(v: &Vec<i16>, x: i16) -> (r: bool)
    ensures
        r == v@.contains(x),
{
    let mut i: usize = 0;
    while i < v.len()
        invariant
            i <= v@.len(),
            forall|k: int| 0 <= k < i ==> v@[k] != x,
        decreases v@.len() - i,
    {
        if v[i] == x {
            return true;
        }
        i += 1;
    }
    false
}

/// `cur` with the packing of `x` appended.
pub fn append_offset(cur: &Vec<u8>, x: i16) -> (r: Vec<u8>)
    requires
        cur@.len() + 2 <= usize::MAX,
    ensures
        r@ == appended(cur@, x),
{
    let mut out: Vec<u8> = Vec::new();
    let mut i: usize = 0;
    while i < cur.len()
        invariant
            i <= cur@.len(),
            out@ == cur@.subrange(0, i as int),
        decreases cur@.len() - i,
    {
        out.push(cur[i]);
        i += 1;
        assert(out@ =~= cur@.subrange(0, i as int));
    }
    let (hi, lo) = offset_bytes(x);
    out.push(hi);
    out.push(lo);
    assert(out@ =~= appended(cur@, x));
    out
}

/// Decides one transactional merge of `x` into the current timeline (`None` when the
/// entity has none yet). `Ok(None)`: nothing is to be written. `Ok(Some(b))`: `b` is
/// to be written back. Fails exactly when the stored timeline is malformed.
pub fn merge_transactional_step(cur: Option<&Vec<u8>>, x: i16) -> (r: Result<
    Option<Vec<u8>>,
    TimelineError,
>)
    ensures
        r is Err <==> (cur matches Some(c) && !well_formed(c@)),
        r matches Ok(w) ==> {
            let c = match cur {
                Some(c) => c@,
                None => Seq::<u8>::empty(),
            };
            &&& w is None <==> tx_merge_spec(c, x) == c
            &&& w matches Some(b) ==> b@ == tx_merge_spec(c, x)
        },
{
    match cur {
        None => {
            let (hi, lo) = offset_bytes(x);
            let mut b: Vec<u8> = Vec::new();
            b.push(hi);
            b.push(lo);
            assert(decode_spec(Seq::<u8>::empty()).len() == 0);
            assert(b@ =~= appended(Seq::<u8>::empty(), x));
            Ok(Some(b))
        },
        Some(c) => {
            let v = match decode(c) {
                Ok(v) => v,
                Err(e) => {
                    return Err(e);
                },
            };
            if contains_offset(&v, x) || c.len() >= CAPACITY_BYTES {
                Ok(None)
            } else {
                let b = append_offset(c, x);
                Ok(Some(b))
            }
        },
    }
}

/// The timeline after one atomic conditional append of `x` to `cur`.
pub fn merge_atomic_append_step(cur: Option<&Vec<u8>>, x: i16) -> (r: Vec<u8>)
    ensures
        r@ == atomic_merge_spec(
            match cur {
                Some(c) => Some(c@),
                None => None,
            },
            x,
        ),
{
    match cur {
        None => {
            let (hi, lo) = offset_bytes(x);
            let mut b: Vec<u8> = Vec::new();
            b.push(hi);
            b.push(lo);
            assert(b@ =~= seq![hi_byte(x), lo_byte(x)]);
            b
        },
        Some(c) => {
            if c.len() < CAPACITY_BYTES {
                append_offset(c, x)
            } else {
                c.clone()
            }
        },
    }
}

} // verus!
