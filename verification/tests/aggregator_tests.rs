use hotstuff_mux::aggregator::CertAggregator;
use hotstuff_mux::committee::{Authority, Committee};

fn committee4() -> Committee {
    Committee::new(vec![
        Authority { name: 10, stake: 1 },
        Authority { name: 11, stake: 1 },
        Authority { name: 12, stake: 1 },
        Authority { name: 13, stake: 1 },
    ])
}

#[test]
fn certificate_forms_exactly_at_quorum() {
    let c = committee4();
    let mut agg = CertAggregator::new();
    assert!(agg.append(10, 100, &c).is_none());
    assert!(agg.append(11, 101, &c).is_none());
    let formed = agg.append(12, 102, &c);
    let votes = formed.expect("third distinct vote must form the certificate");
    assert_eq!(votes.len(), 3);
    assert_eq!(votes, vec![(10, 100), (11, 101), (12, 102)]);
}

#[test]
fn duplicate_vote_changes_nothing() {
    let c = committee4();
    let mut agg = CertAggregator::new();
    assert!(agg.append(10, 100, &c).is_none());
    assert!(agg.append(10, 100, &c).is_none());
    assert!(agg.append(10, 777, &c).is_none());
    assert_eq!(agg.weight, 1);
    assert_eq!(agg.votes.len(), 1);
    // Two more distinct voters still complete the quorum.
    assert!(agg.append(11, 101, &c).is_none());
    assert!(agg.append(12, 102, &c).is_some());
}

#[test]
fn arrival_order_does_not_matter() {
    let c = committee4();
    let mut a = CertAggregator::new();
    assert!(a.append(13, 0, &c).is_none());
    assert!(a.append(10, 0, &c).is_none());
    assert!(a.append(12, 0, &c).is_some());
    let mut b = CertAggregator::new();
    assert!(b.append(12, 0, &c).is_none());
    assert!(b.append(13, 0, &c).is_none());
    assert!(b.append(10, 0, &c).is_some());
}

#[test]
fn no_certificate_below_quorum_weight() {
    let c = Committee::new(vec![
        Authority { name: 1, stake: 5 },
        Authority { name: 2, stake: 3 },
        Authority { name: 3, stake: 1 },
    ]);
    // Threshold 7: members 2 and 3 together weigh 4, no certificate.
    let mut agg = CertAggregator::new();
    assert!(agg.append(2, 0, &c).is_none());
    assert!(agg.append(3, 0, &c).is_none());
    assert_eq!(agg.weight, 4);
    // Member 1 brings the weight to 9, crossing 7.
    assert!(agg.append(1, 0, &c).is_some());
}
