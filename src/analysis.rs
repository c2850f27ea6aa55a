use vstd::prelude::*;
use crate::codec::{TimelineError, decode, decode_spec, well_formed};

verus! {

/// Largest gap, in days, that still counts as a timely renewal.
pub const TIMELY_MAX_GAP: i32 = 70;

/// Number of buckets of the global gap histogram; the last one takes every larger gap.
pub const HISTOGRAM_BUCKETS: usize = 200;

/// How the gap between two consecutive events is classified.
#[derive(Debug, Clone, Copy, PartialEq, Eq, Structural)]
pub enum RenewalType {
    Timely,
    Rescued,
    Expired,
}

/// Each offset is smaller than the next.
pub open spec fn strictly_increasing(s: Seq<i16>) -> bool {
    forall|i: int, j: int| 0 <= i < j < s.len() ==> s[i] < s[j]
}

/// `d` is the ascending, duplicate-free arrangement of the offsets of `s`.
pub open spec fn is_sorted_distinct_of(d: Seq<i16>, s: Seq<i16>) -> bool {
    &&& strictly_increasing(d)
    &&& forall|x: i16| d.contains(x) <==> s.contains(x)
}

/// The differences between consecutive offsets of `s`.
pub open spec fn gaps_spec(s: Seq<i16>) -> Seq<int> {
    if s.len() == 0 {
        Seq::empty()
    } else {
        Seq::new((s.len() - 1) as nat, |i: int| s[i + 1] - s[i])
    }
}

/// The class of a gap of `g` days.
pub open spec fn classify_spec(g: int) -> RenewalType {
    if g <= TIMELY_MAX_GAP {
        RenewalType::Timely
    } else if g == TIMELY_MAX_GAP + 1 {
        RenewalType::Rescued
    } else {
        RenewalType::Expired
    }
}

/// The classes of the gaps `gs`, in order.
pub open spec fn classes_spec(gs: Seq<int>) -> Seq<RenewalType> {
    gs.map_values(|g: int| classify_spec(g))
}

/// How many entries of `ks` are `k`.
pub open spec fn count_kind(ks: Seq<RenewalType>, k: RenewalType) -> nat
    decreases ks.len(),
{
    if ks.len() == 0 {
        0
    } else {
        count_kind(ks.drop_last(), k) + if ks.last() == k {
            1nat
        } else {
            0nat
        }
    }
}

/// Per-class tally of one entity's gaps.
#[derive(Debug, Clone, Copy, PartialEq, Eq, Structural)]
pub struct GapCounts {
    pub timely: usize,
    pub rescued: usize,
    pub expired: usize,
}

/// `c` tallies the classes `ks`.
pub open spec fn tallies(c: GapCounts, ks: Seq<RenewalType>) -> bool {
    &&& c.timely == count_kind(ks, RenewalType::Timely)
    &&& c.rescued == count_kind(ks, RenewalType::Rescued)
    &&& c.expired == count_kind(ks, RenewalType::Expired)
}

/// More than two timely renewals, at least one rescued, none expired.
pub open spec fn interesting_spec(c: GapCounts) -> bool {
    c.timely > 2 && c.expired == 0 && c.rescued > 0
}

/// The ascending, duplicate-free arrangement of `s` is no longer than `s`.
pub proof fn lemma_sorted_distinct_len(d: Seq<i16>, s: Seq<i16>)
    requires
        is_sorted_distinct_of(d, s),
    ensures
        d.len() <= s.len(),
{
    assert(d.no_duplicates()) by {
        assert forall|i: int, j: int| 0 <= i < d.len() && 0 <= j < d.len() && i != j implies d[i] != d[j] by {
            if i < j {
                assert(d[i] < d[j]);
            } else {
                assert(d[j] < d[i]);
            }
        }
    }
    d.unique_seq_to_set();
    s.lemma_cardinality_of_set();
    assert(d.to_set().subset_of(s.to_set())) by {
        assert forall|x: i16| d.to_set().contains(x) implies s.to_set().contains(x) by {
            assert(d.contains(x));
        }
    }
    vstd::set_lib::lemma_len_subset(d.to_set(), s.to_set());
}

/// The ascending, duplicate-free arrangement of a sequence is unique.
pub proof fn lemma_sorted_distinct_unique(a: Seq<i16>, b: Seq<i16>, s: Seq<i16>)
    requires
        is_sorted_distinct_of(a, s),
        is_sorted_distinct_of(b, s),
    ensures
        a == b,
    decreases a.len(),
{
    if a.len() == 0 {
        if b.len() > 0 {
            assert(b.contains(b[0]));
            assert(s.contains(b[0]));
        }
        assert(a =~= b);
    } else {
        assert(a.contains(a[0]));
        assert(b.contains(a[0]));
        assert(b.len() > 0);
        assert(b.contains(b[0]));
        assert(a.contains(b[0]));
        let j = choose|j: int| 0 <= j < b.len() && b[j] == a[0];
        let k = choose|k: int| 0 <= k < a.len() && a[k] == b[0];
        assert(a[0] <= a[k]);
        assert(b[0] <= b[j]);
        assert(a[0] == b[0]);
        let ra = a.drop_first();
        let rb = b.drop_first();
        let rs = ra;
        assert(is_sorted_distinct_of(ra, rs)) by {
            assert forall|i: int, l: int| 0 <= i < l < ra.len() implies ra[i] < ra[l] by {
                assert(a[i + 1] < a[l + 1]);
            }
        }
        assert(is_sorted_distinct_of(rb, rs)) by {
            assert forall|i: int, l: int| 0 <= i < l < rb.len() implies rb[i] < rb[l] by {
                assert(b[i + 1] < b[l + 1]);
            }
            assert forall|x: i16| rb.contains(x) <==> rs.contains(x) by {
                if rb.contains(x) {
                    let l = choose|l: int| 0 <= l < rb.len() && rb[l] == x;
                    assert(b[l + 1] == x && b[0] < b[l + 1]);
                    assert(b.contains(x));
                    assert(a.contains(x));
                    let m = choose|m: int| 0 <= m < a.len() && a[m] == x;
                    assert(m != 0);
                    assert(ra[m - 1] == x);
                }
                if rs.contains(x) {
                    let l = choose|l: int| 0 <= l < ra.len() && ra[l] == x;
                    assert(a[l + 1] == x && a[0] < a[l + 1]);
                    assert(a.contains(x));
                    assert(b.contains(x));
                    let m = choose|m: int| 0 <= m < b.len() && b[m] == x;
                    assert(m != 0);
                    assert(rb[m - 1] == x);
                }
            }
        }
        lemma_sorted_distinct_unique(ra, rb, rs);
        assert forall|i: int| 0 <= i < a.len() implies a[i] == b[i] by {
            if i > 0 {
                assert(a[i] == ra[i - 1] && b[i] == rb[i - 1]);
            }
        }
        assert(a =~= b);
    }
}

spec fn above(x: i16, lo: Option<i16>) -> bool {
    match lo {
        None => true,
        Some(l) => x > l,
    }
}

/// The smallest offset of `v` above `lo` (every offset when `lo` is `None`).
fn min_above(v: &Vec<i16>, lo: Option<i16>) -> (r: Option<i16>)
    ensures
        r matches Some(m) ==> v@.contains(m) && above(m, lo) && forall|k: int|
            0 <= k < v@.len() && above(v@[k], lo) ==> m <= v@[k],
        r is None ==> forall|k: int| 0 <= k < v@.len() ==> !above(v@[k], lo),
{
    let mut best: Option<i16> = None;
    let mut i: usize = 0;
    while i < v.len()
        invariant
            i <= v@.len(),
            best matches Some(m) ==> v@.contains(m) && above(m, lo) && forall|k: int|
                0 <= k < i && above(v@[k], lo) ==> m <= v@[k],
            best is None ==> forall|k: int| 0 <= k < i ==> !above(v@[k], lo),
        decreases v@.len() - i,
    {
        let x = v[i];
        let is_above = match lo {
            None => true,
            Some(l) => x > l,
        };
        if is_above {
            match best {
                None => {
                    best = Some(x);
                },
                Some(m) => {
                    if x < m {
                        best = Some(x);
                    }
                },
            }
        }
        i += 1;
    }
    best
}

/// The offsets of `v` in ascending order, each once.
pub fn sorted_distinct(v: &Vec<i16>) -> (r: Vec<i16>)
    ensures
        is_sorted_distinct_of(r@, v@),
{
    let mut out: Vec<i16> = Vec::new();
    let mut last: Option<i16> = None;
    loop
        invariant
            strictly_increasing(out@),
            forall|x: i16| out@.contains(x) ==> v@.contains(x),
            last is None <==> out@.len() == 0,
            last matches Some(l) ==> out@.last() == l,
            forall|k: int| 0 <= k < v@.len() && !above(v@[k], last) ==> out@.contains(v@[k]),
        ensures
            strictly_increasing(out@),
            forall|x: i16| out@.contains(x) ==> v@.contains(x),
            forall|k: int| 0 <= k < v@.len() ==> out@.contains(v@[k]),
        decreases (match last {
            None => 65537,
            Some(l) => 32767 - l,
        }),
    {
        match min_above(v, last) {
            None => {
                break ;
            },
            Some(m) => {
                let ghost prev = out@;
                out.push(m);
                proof {
                    assert forall|i: int, j: int| 0 <= i < j < out@.len() implies out@[i] < out@[j] by {
                        if j == out@.len() - 1 && i < j {
                            assert(prev.contains(prev[i]));
                        }
                    }
                    assert forall|x: i16| out@.contains(x) implies v@.contains(x) by {
                        if x != m {
                            let k = choose|k: int| 0 <= k < out@.len() && out@[k] == x;
                            assert(prev[k] == x);
                        }
                    }
                    assert forall|k: int| 0 <= k < v@.len() && !above(v@[k], Some(m)) implies out@.contains(v@[k]) by {
                        if above(v@[k], last) {
                            assert(v@[k] == m);
                            assert(out@[out@.len() - 1] == m);
                        } else {
                            let j = choose|j: int| 0 <= j < prev.len() && prev[j] == v@[k];
                            assert(out@[j] == v@[k]);
                        }
                    }
                }
                last = Some(m);
            },
        }
    }
    assert forall|x: i16| v@.contains(x) implies out@.contains(x) by {
        let k = choose|k: int| 0 <= k < v@.len() && v@[k] == x;
    }
    out
}

/// The differences between consecutive offsets of `s`.
pub fn gaps(s: &Vec<i16>) -> (r: Vec<i32>)
    ensures
        r@.len() == gaps_spec(s@).len(),
        forall|i: int| 0 <= i < r@.len() ==> r@[i] as int == gaps_spec(s@)[i],
{
    let mut out: Vec<i32> = Vec::new();
    if s.len() == 0 {
        return out;
    }
    let mut i: usize = 1;
    while i < s.len()
        invariant
            1 <= i <= s@.len(),
            out@.len() == i - 1,
            forall|k: int| 0 <= k < out@.len() ==> out@[k] as int == s@[k + 1] - s@[k],
        decreases s@.len() - i,
    {
        out.push(s[i] as i32 - s[i - 1] as i32);
        i += 1;
    }
    out
}

/// The class of a gap of `g` days.
pub fn classify(g: i32) -> (r: RenewalType)
    ensures
        r == classify_spec(g as int),
{
    if g <= TIMELY_MAX_GAP {
        RenewalType::Timely
    } else if g == TIMELY_MAX_GAP + 1 {
        RenewalType::Rescued
    } else {
        RenewalType::Expired
    }
}

/// The classes of the gaps `gs`, in order.
pub fn classify_all(gs: &Vec<i32>) -> (r: Vec<RenewalType>)
    ensures
        r@ == classes_spec(gs@.map_values(|g: i32| g as int)),
{
    let mut out: Vec<RenewalType> = Vec::new();
    let mut i: usize = 0;
    while i < gs.len()
        invariant
            i <= gs@.len(),
            out@ == classes_spec(gs@.map_values(|g: i32| g as int)).subrange(0, i as int),
        decreases gs@.len() - i,
    {
        out.push(classify(gs[i]));
        i += 1;
        assert(out@ =~= classes_spec(gs@.map_values(|g: i32| g as int)).subrange(0, i as int));
    }
    assert(out@ =~= classes_spec(gs@.map_values(|g: i32| g as int)));
    out
}

proof fn lemma_count_le(ks: Seq<RenewalType>, k: RenewalType)
    ensures
        count_kind(ks, k) <= ks.len(),
    decreases ks.len(),
{
    if ks.len() > 0 {
        lemma_count_le(ks.drop_last(), k);
    }
}

/// Tallies the classes `ks`.
pub fn tally(ks: &Vec<RenewalType>) -> (r: GapCounts)
    ensures
        tallies(r, ks@),
{
    let mut c = GapCounts { timely: 0, rescued: 0, expired: 0 };
    let mut i: usize = 0;
    while i < ks.len()
        invariant
            i <= ks@.len(),
            tallies(c, ks@.subrange(0, i as int)),
        decreases ks@.len() - i,
    {
        let ghost pre = ks@.subrange(0, i as int);
        let ghost next = ks@.subrange(0, i + 1);
        proof {
            assert(next.drop_last() =~= pre);
            lemma_count_le(pre, RenewalType::Timely);
            lemma_count_le(pre, RenewalType::Rescued);
            lemma_count_le(pre, RenewalType::Expired);
        }
        match ks[i] {
            RenewalType::Timely => {
                c.timely = c.timely + 1;
            },
            RenewalType::Rescued => {
                c.rescued = c.rescued + 1;
            },
            RenewalType::Expired => {
                c.expired = c.expired + 1;
            },
        }
        i += 1;
    }
    assert(ks@.subrange(0, ks@.len() as int) =~= ks@);
    c
}

/// Whether an entity with the tally `c` is reported as interesting.
pub fn is_interesting(c: &GapCounts) -> (r: bool)
    ensures
        r == interesting_spec(*c),
{
    c.timely > 2 && c.expired == 0 && c.rescued > 0
}

/// The gaps of one stored timeline: decoded, sorted, deduplicated, then differenced.
/// Fails exactly when the timeline is malformed.
pub fn entity_gaps(b: &Vec<u8>) -> (r: Result<Vec<i32>, TimelineError>)
    ensures
        r is Err <==> !well_formed(b@),
        r matches Err(e) ==> e == TimelineError::MalformedTimeline,
        r matches Ok(g) ==> exists|d: Seq<i16>|
            #[trigger] is_sorted_distinct_of(d, decode_spec(b@)) && g@.map_values(|x: i32| x as int)
                == gaps_spec(d),
{
    let v = match decode(b) {
        Ok(v) => v,
        Err(e) => {
            return Err(e);
        },
    };
    let d = sorted_distinct(&v);
    let g = gaps(&d);
    assert(g@.map_values(|x: i32| x as int) =~= gaps_spec(d@));
    Ok(g)
}

/// The tally of one stored timeline's gaps. Fails exactly when the timeline is malformed.
pub fn entity_counts(b: &Vec<u8>) -> (r: Result<GapCounts, TimelineError>)
    ensures
        r is Err <==> !well_formed(b@),
        r matches Err(e) ==> e == TimelineError::MalformedTimeline,
        r matches Ok(c) ==> exists|d: Seq<i16>|
            #[trigger] is_sorted_distinct_of(d, decode_spec(b@)) && tallies(c, classes_spec(gaps_spec(d))),
{
    let g = match entity_gaps(b) {
        Ok(g) => g,
        Err(e) => {
            return Err(e);
        },
    };
    let ks = classify_all(&g);
    let c = tally(&ks);
    Ok(c)
}

} // verus!
