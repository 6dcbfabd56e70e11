use learn_cli::scoring::{assign_rank, Rank};

#[test]
fn ranks_follow_the_score_limits() {
    // 100 / score <= 7 earns gold, <= 20 silver, anything else bronze.
    assert_eq!(assign_rank(15), Rank::Gold);
    assert_eq!(assign_rank(100), Rank::Gold);
    assert_eq!(assign_rank(14), Rank::Silver);
    assert_eq!(assign_rank(5), Rank::Silver);
    assert_eq!(assign_rank(4), Rank::Bronze);
    assert_eq!(assign_rank(1), Rank::Bronze);
    assert_eq!(assign_rank(0), Rank::Bronze);
    assert_eq!(assign_rank(-1), Rank::Gold);
    assert_eq!(assign_rank(i32::MIN), Rank::Gold);
    assert_eq!(assign_rank(i32::MAX), Rank::Gold);
}

#[test]
fn higher_positive_scores_never_rank_worse() {
    let level = |r: Rank| match r {
        Rank::Gold => 2,
        Rank::Silver => 1,
        Rank::Bronze => 0,
    };
    for s in 1..200 {
        assert!(level(assign_rank(s)) <= level(assign_rank(s + 1)));
    }
}

#[test]
fn rank_names() {
    assert_eq!(Rank::Gold.as_str(), "Gold");
    assert_eq!(Rank::Silver.as_str(), "Silver");
    assert_eq!(Rank::Bronze.as_str(), "Bronze");
}
