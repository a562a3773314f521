use hotstuff_mux::committee::{Authority, Committee};

fn committee4() -> Committee {
    Committee::new(vec![
        Authority { name: 10, stake: 1 },
        Authority { name: 11, stake: 1 },
        Authority { name: 12, stake: 1 },
        Authority { name: 13, stake: 1 },
    ])
}

#[test]
fn total_stake_sums_weights() {
    let c = committee4();
    assert_eq!(c.total_stake(), 4);
}

#[test]
fn quorum_threshold_is_two_f_plus_one() {
    // 4 = 3f+1 with f = 1: the threshold must be 2f+1 = 3.
    let c = committee4();
    assert_eq!(c.quorum_threshold(), 3);
}

#[test]
fn quorum_threshold_weighted() {
    let c = Committee::new(vec![
        Authority { name: 1, stake: 5 },
        Authority { name: 2, stake: 3 },
        Authority { name: 3, stake: 1 },
    ]);
    // Total weight 9: the threshold is 2*9/3 + 1 = 7.
    assert_eq!(c.quorum_threshold(), 7);
}

#[test]
fn stake_of_member_and_stranger() {
    let c = committee4();
    assert_eq!(c.stake(11), 1);
    assert_eq!(c.stake(99), 0);
    assert!(c.is_member(13));
    assert!(!c.is_member(99));
}

#[test]
fn leader_rotates_deterministically() {
    let c = committee4();
    assert_eq!(c.leader(0), 10);
    assert_eq!(c.leader(1), 11);
    assert_eq!(c.leader(5), 11);
    assert_eq!(c.leader(7), 13);
    // Every participant holding the same committee agrees.
    let c2 = committee4();
    for r in 0..20u64 {
        assert_eq!(c.leader(r), c2.leader(r));
    }
}
