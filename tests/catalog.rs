use turing_machine_game::cards::{card_from_id, constraint_from_id};
use turing_machine_game::code::Code;
use turing_machine_game::problem::{Problem, ProblemMode};

fn count(id: u8) -> u32 {
    constraint_from_id(id).1.num_solutions()
}

#[test]
fn primitive_constraints() {
    let (name, k) = constraint_from_id(1);
    assert_eq!(name, "▲=1");
    assert_eq!(k.num_solutions(), 25);
    assert!(k.accepts(Code::new(1, 4, 4)));
    assert!(!k.accepts(Code::new(2, 4, 4)));
    assert_eq!(constraint_from_id(16).0, "▲>1");
    assert_eq!(count(16), 100);
    assert_eq!(count(28), 50);
    assert_eq!(count(34), 50);
    assert_eq!(count(37), 75);
    assert_eq!(count(40), 64);
    assert_eq!(count(60), 10);
    assert_eq!(count(89), 25);
    assert_eq!(count(119), 5);
    assert_eq!(count(121), 60);
    assert_eq!(count(145), 25);
    assert!(constraint_from_id(133).1.accepts(Code::new(1, 3, 5)));
    assert!(!constraint_from_id(133).1.accepts(Code::new(1, 3, 3)));
    assert!(constraint_from_id(84).1.accepts(Code::new(1, 2, 4)));
    assert!(constraint_from_id(122).1.accepts(Code::new(1, 3, 5)));
    assert!(constraint_from_id(124).1.accepts(Code::new(3, 2, 1)));
    assert!(constraint_from_id(57).1.accepts(Code::new(1, 2, 3)));
    assert!(!constraint_from_id(58).1.accepts(Code::new(1, 2, 3)));
    assert_eq!(constraint_from_id(136).0, "▲+■>6");
}

#[test]
fn every_primitive_is_nonempty() {
    for id in 1..=145u8 {
        let n = count(id);
        assert!(n > 0 && n < 125, "constraint {} accepts {} codes", id, n);
    }
}

#[test]
fn card_constraints_partition_the_codes() {
    for id in [1u8, 2, 3, 4, 5, 8, 11, 14, 15, 16, 17, 18, 19, 20, 21, 22, 23, 24, 25] {
        let card = card_from_id(id);
        for c in Code::all() {
            let n = card.constraints().iter().filter(|k| k.accepts(c)).count();
            assert!(n <= 1, "card {} accepts {:?} more than once", id, c);
        }
    }
    let card = card_from_id(24);
    assert_eq!(card.constraints.len(), 3);
    assert!(card.constraints()[0].accepts(Code::new(1, 2, 3)));
}

#[test]
fn cards_have_expected_sizes() {
    assert_eq!(card_from_id(1).constraints.len(), 2);
    assert_eq!(card_from_id(17).constraints.len(), 4);
    assert_eq!(card_from_id(40).constraints.len(), 9);
    assert_eq!(card_from_id(48).constraints.len(), 9);
    assert_eq!(card_from_id(2).constraints[1].0, "▲=3");
}

#[test]
fn problem_from_ids() {
    let p = Problem::from_card_ids(ProblemMode::Extreme, vec![1, 2, 3]);
    assert_eq!(p.cards.len(), 3);
    assert_eq!(p.mode, ProblemMode::Extreme);
    assert_eq!(p.cards[2].constraints.len(), 3);
}

#[test]
fn constraint_names() {
    assert_eq!(constraint_from_id(9).0, "■=4");
    assert_eq!(constraint_from_id(41).0, "#1=1");
    assert_eq!(constraint_from_id(58).0, "▲+■+●=4n");
    assert_eq!(constraint_from_id(64).0, "▲+■+●=10");
    assert_eq!(constraint_from_id(81).0, "#distinct≠2");
    assert_eq!(constraint_from_id(104).0, "▲+●=5");
    assert_eq!(constraint_from_id(113).0, "▲>■●");
    assert_eq!(constraint_from_id(129).0, "■≤▲●");
    assert_eq!(constraint_from_id(135).0, "not(▲<■<●|▲>■>●)");
    let names: Vec<String> = card_from_id(24).constraints.iter().map(|p| p.0.clone()).collect();
    assert_eq!(names, vec!["#steps-up=2", "#steps-up=1", "#steps-up=0"]);
}
