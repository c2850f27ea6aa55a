use issuance::analysis::{
    classify, classify_all, entity_counts, entity_gaps, gaps, is_interesting, sorted_distinct,
    tally, GapCounts, RenewalType,
};
use issuance::codec::{encode, TimelineError};
use issuance::report::{EntityFilter, GapHistogram, InterestingEntity};

#[test]
fn classification_of_gaps_in_order() {
    let b = encode(&vec![131, 0, 221, 60]);
    let g = entity_gaps(&b).unwrap();
    assert_eq!(g, vec![60, 71, 90]);
    assert_eq!(
        classify_all(&g),
        vec![RenewalType::Timely, RenewalType::Rescued, RenewalType::Expired]
    );
}

#[test]
fn dedup_then_gaps() {
    let d = sorted_distinct(&vec![10, 10, 20, 30]);
    assert_eq!(d, vec![10, 20, 30]);
    let g = gaps(&d);
    assert_eq!(g, vec![10, 10]);
    assert_eq!(classify_all(&g), vec![RenewalType::Timely, RenewalType::Timely]);
}

#[test]
fn sorted_distinct_orders_numerically() {
    assert_eq!(sorted_distinct(&vec![5, -7, 5, 32767, -32768, 0, -7]), vec![-32768, -7, 0, 5, 32767]);
    assert_eq!(sorted_distinct(&Vec::new()), Vec::<i16>::new());
}

#[test]
fn gaps_do_not_overflow() {
    assert_eq!(gaps(&vec![-32768, 32767]), vec![65535]);
    assert_eq!(gaps(&vec![3]), Vec::<i32>::new());
}

#[test]
fn classify_thresholds() {
    assert_eq!(classify(-5), RenewalType::Timely);
    assert_eq!(classify(70), RenewalType::Timely);
    assert_eq!(classify(71), RenewalType::Rescued);
    assert_eq!(classify(72), RenewalType::Expired);
}

#[test]
fn tally_counts_each_class() {
    let ks = vec![
        RenewalType::Timely,
        RenewalType::Expired,
        RenewalType::Timely,
        RenewalType::Rescued,
    ];
    assert_eq!(tally(&ks), GapCounts { timely: 2, rescued: 1, expired: 1 });
}

#[test]
fn interesting_rule() {
    assert!(is_interesting(&GapCounts { timely: 3, rescued: 1, expired: 0 }));
    assert!(!is_interesting(&GapCounts { timely: 3, rescued: 0, expired: 0 }));
    assert!(!is_interesting(&GapCounts { timely: 3, rescued: 1, expired: 1 }));
    assert!(!is_interesting(&GapCounts { timely: 2, rescued: 1, expired: 0 }));
}

#[test]
fn entity_counts_of_timeline() {
    let b = encode(&vec![0, 60, 120, 180, 251, 251]);
    assert_eq!(entity_counts(&b), Ok(GapCounts { timely: 3, rescued: 1, expired: 0 }));
    assert_eq!(entity_counts(&vec![1, 2, 3]), Err(TimelineError::MalformedTimeline));
}

#[test]
fn filter_reports_interesting_and_defects() {
    let mut f = EntityFilter::new();
    f.observe(&"keep".to_string(), &encode(&vec![0, 60, 120, 180, 251]));
    f.observe(&"lapsed".to_string(), &encode(&vec![0, 60, 120, 180, 251, 400]));
    f.observe(&"broken".to_string(), &vec![0, 1, 2]);
    assert_eq!(
        f.interesting,
        vec![InterestingEntity { name: "keep".to_string(), timely: 3, rescued: 1 }]
    );
    assert_eq!(f.defects, 1);
}

#[test]
fn histogram_buckets_gaps() {
    let mut h = GapHistogram::new();
    h.add_gaps(&vec![5, 250, -3, 199, 198, 5]);
    assert_eq!(h.bucket(0), 1);
    assert_eq!(h.bucket(5), 2);
    assert_eq!(h.bucket(198), 1);
    assert_eq!(h.bucket(199), 2);
    assert_eq!(h.bucket(100), 0);
}

#[test]
fn histogram_observes_timelines() {
    let mut h = GapHistogram::new();
    assert_eq!(h.observe(&encode(&vec![0, 60, 131, 131, 500])), Ok(()));
    assert_eq!(h.observe(&vec![9]), Err(TimelineError::MalformedTimeline));
    assert_eq!(h.bucket(60), 1);
    assert_eq!(h.bucket(71), 1);
    assert_eq!(h.bucket(199), 1);
}
