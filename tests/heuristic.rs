use turing_machine_game::cards::constraint_from_id;
use turing_machine_game::code::Code;
use turing_machine_game::heuristic::{
    best_question, best_verifier_for_question, expected_eliminations, question_score,
};

fn pool(ids: &[u8]) -> Vec<turing_machine_game::constraint::Constraint> {
    ids.iter().map(|&i| constraint_from_id(i).1).collect()
}

#[test]
fn expected_eliminations_formula() {
    // Card 2: ▲<3, ▲=3, ▲>3. Code 3xx: one accepts, two reject: 2·2·1/3.
    assert_eq!(expected_eliminations(&pool(&[25, 3, 18]), Code::new(3, 1, 1)), (4, 3));
    // Code 1xx: one accepts (▲<3), two reject.
    assert_eq!(expected_eliminations(&pool(&[25, 3, 18]), Code::new(1, 1, 1)), (4, 3));
    // Card 1: ▲=1, ▲>1: one each way: 2·1·1/2.
    assert_eq!(expected_eliminations(&pool(&[1, 16]), Code::new(2, 2, 2)), (2, 2));
    // All agree: nothing to learn.
    assert_eq!(expected_eliminations(&pool(&[1]), Code::new(2, 2, 2)), (0, 1));
    assert_eq!(expected_eliminations(&vec![], Code::new(2, 2, 2)), (0, 1));
}

#[test]
fn best_verifier_prefers_first_maximum() {
    let pools = vec![pool(&[1]), pool(&[1, 16]), pool(&[25, 3, 18]), pool(&[1, 16])];
    // Pool 1: 2/2 = 1; pool 2 on 3xx: 4/3; pool 3: 1.
    assert_eq!(best_verifier_for_question(&pools, Code::new(3, 1, 1)), Some(2));
    // On 2xx pool 2 has ▲<3 accept, others reject: 4/3 as well; pools 1 and 3 give 1.
    assert_eq!(best_verifier_for_question(&pools, Code::new(2, 1, 1)), Some(2));
    let flat = vec![pool(&[1, 16]), pool(&[1, 16])];
    assert_eq!(best_verifier_for_question(&flat, Code::new(1, 1, 1)), Some(0));
    let known = vec![pool(&[1]), pool(&[3])];
    assert_eq!(best_verifier_for_question(&known, Code::new(1, 1, 1)), None);
}

#[test]
fn score_sums_three_largest() {
    let pools = vec![pool(&[1, 16]), pool(&[25, 3, 18]), pool(&[1]), pool(&[28, 8, 21]), pool(&[34, 37])];
    let s = question_score(&pools, Code::new(3, 3, 3));
    // Largest three: 4/3 (▲ card), 4/3 (■ card), 1 (either two-constraint card).
    assert_eq!(s.0 as i64 * 3, s.1 as i64 * 11);
}

#[test]
fn best_question_breaks_ties_towards_larger_codes() {
    // With only ▲=1 / ▲>1 every code scores 1: the last code wins.
    let pools = vec![pool(&[1, 16])];
    assert_eq!(best_question(&pools), Code::new(5, 5, 5));
    // With ▲<3 / ▲=3 / ▲>3, codes 1xx..5xx all score 4/3: again the last.
    let pools = vec![pool(&[25, 3, 18])];
    assert_eq!(best_question(&pools), Code::new(5, 5, 5));
    // Card 8 (#1 = 0, 1, 2): 111 splits nothing; every other code scores 4/3.
    let pools = vec![pool(&[40, 41, 42])];
    assert_eq!(question_score(&pools, Code::new(1, 1, 1)), (0, 1));
    let q = best_question(&pools);
    let (n, d) = question_score(&pools, q);
    assert_eq!((n as i64) * 3, (d as i64) * 4);
    assert_eq!(q, Code::new(5, 5, 5));
}
