use turing_machine_game::cards::{card_from_id, constraint_from_id};
use turing_machine_game::code::Code;
use turing_machine_game::constraint::Constraint;
use turing_machine_game::problem::{Card, Problem, ProblemMode};
use turing_machine_game::assignment::valid_constraints;
use turing_machine_game::solve::{AutomaticVerifier, Solver, SolverError, SolverVerbosity, Verifier};

struct Silent;

impl Verifier for Silent {
    fn accepts(&self, _idx: usize, _code: Code) -> bool {
        false
    }
}

fn card_of(ids: &[u8]) -> Card {
    Card::new(ids.iter().map(|&i| constraint_from_id(i)).collect())
}

fn law(id: u8) -> Constraint {
    constraint_from_id(id).1
}

fn same_codes(a: &Constraint, b: &Constraint) -> bool {
    a.is_superset_of(b) && b.is_superset_of(a)
}

fn automatic(problem: &Problem, laws: &[u8]) -> Solver<AutomaticVerifier> {
    Solver::new(problem, Silent).automatic(laws.iter().map(|&i| law(i)).collect())
}

#[test]
fn trivial_single_card() {
    let only = Constraint::new(|c| c == Code::new(1, 2, 3));
    let card = Card::new(vec![("(1,2,3)".to_string(), only)]);
    let problem = Problem::from_cards(ProblemMode::Normal, vec![card]);
    let mut solver = Solver::new(&problem, Silent).automatic(vec![only]);
    assert!(matches!(solver.solve(), Ok(c) if c == Code::new(1, 2, 3)));
    assert_eq!(solver.num_rounds(), 0);
    assert_eq!(solver.num_questions(), 0);
}

#[test]
fn two_card_disambiguation() {
    let problem = Problem::from_cards(
        ProblemMode::Normal,
        vec![card_from_id(1), card_from_id(3), card_of(&[31, 13, 24])],
    );
    let mut solver = automatic(&problem, &[1, 8, 13]);
    assert!(matches!(solver.solve(), Ok(c) if c == Code::new(1, 3, 3)));
    assert!(solver.num_rounds() <= 2);
}

#[test]
fn solves_with_questions() {
    let problem = Problem::from_card_ids(ProblemMode::Normal, vec![2, 3, 13]);
    let laws = [3u8, 28, 95];
    let tagged: Vec<Constraint> = laws.iter().enumerate().map(|(g, &i)| law(i).with_group(g as u8)).collect();
    assert!(valid_constraints(&tagged));
    let mut solver = automatic(&problem, &laws);
    assert!(matches!(solver.solve(), Ok(c) if c == Code::new(3, 2, 1)));
    assert!(solver.num_rounds() >= 1);
    for v in 0..3 {
        assert_eq!(solver.pool(v).len(), 1);
        assert!(same_codes(&solver.pool(v)[0], &law(laws[v])));
    }
}

#[test]
fn rounds_and_questions_are_counted() {
    let problem = Problem::from_card_ids(ProblemMode::Normal, vec![2, 3, 13]);
    let mut solver = automatic(&problem, &[3, 28, 95]);
    assert!(solver.solve().is_ok());
    assert_eq!(solver.num_rounds(), solver.questions().len());
    let mut answers = 0;
    for r in 0..solver.num_rounds() {
        let asked = (0..solver.num_verifiers()).filter(|&v| solver.answer(r, v).is_some()).count();
        assert!(asked >= 1 && asked <= 3);
        answers += asked;
    }
    assert_eq!(solver.num_questions(), answers);
}

#[test]
fn extreme_pairing() {
    let problem = Problem::from_card_ids(ProblemMode::Extreme, vec![1, 3, 5, 8]);
    let solver = Solver::new(&problem, Silent);
    assert_eq!(solver.num_verifiers(), 2);
    let expect = [vec![1u8, 16, 28, 8, 21], vec![34, 37, 40, 41, 42]];
    for v in 0..2 {
        let pool = solver.pool(v);
        assert_eq!(pool.len(), expect[v].len());
        for (k, &id) in expect[v].iter().enumerate() {
            assert_eq!(pool[k].group() as usize, v);
            assert!(same_codes(&pool[k], &law(id)));
        }
    }
}

#[test]
fn extreme_odd_card_count() {
    let problem = Problem::from_card_ids(ProblemMode::Extreme, vec![1, 3, 5]);
    let solver = Solver::new(&problem, Silent);
    assert_eq!(solver.num_verifiers(), 2);
    assert_eq!(solver.pool(1).len(), 2);
    assert_eq!(solver.pool(1)[1].group(), 1);
}

#[test]
fn nightmare_pools_share_all_cards() {
    let problem = Problem::from_card_ids(ProblemMode::Nightmare, vec![1, 3, 5]);
    let solver = Solver::new(&problem, Silent);
    assert_eq!(solver.num_verifiers(), 3);
    for v in 0..3 {
        let pool = solver.pool(v);
        assert_eq!(pool.len(), 7);
        let groups: Vec<u8> = pool.iter().map(|k| k.group()).collect();
        assert_eq!(groups, vec![0, 0, 1, 1, 1, 2, 2]);
    }
}

#[test]
fn nightmare_distinct_groups() {
    let problem = Problem::from_cards(
        ProblemMode::Nightmare,
        vec![card_from_id(1), card_from_id(3), card_of(&[31, 13, 24])],
    );
    let mut solver = automatic(&problem, &[1, 8, 13]);
    assert!(matches!(solver.solve(), Ok(c) if c == Code::new(1, 3, 3)));
    let groups: Vec<u8> = (0..3).map(|v| solver.pool(v)[0].group()).collect();
    assert_eq!(groups, vec![0, 1, 2]);
    for v in 0..3 {
        assert_eq!(solver.pool(v).len(), 1);
    }
}

#[test]
fn ill_posed_multiple_solutions() {
    let a = Constraint::new(|c| c.triangle == 5 && c.square == 5);
    let b = Constraint::new(|c| c.circle > 3);
    let problem = Problem::from_cards(
        ProblemMode::Normal,
        vec![Card::new(vec![("a".to_string(), a)]), Card::new(vec![("b".to_string(), b)])],
    );
    let solver = Solver::new(&problem, Silent);
    match solver.has_solution() {
        Err(SolverError::MultipleSolutions(codes)) => {
            assert_eq!(codes, vec![Code::new(5, 5, 4), Code::new(5, 5, 5)])
        }
        _ => panic!("expected several solutions"),
    }
    let mut solver = Solver::new(&problem, Silent);
    assert!(matches!(solver.solve(), Err(SolverError::Impossible(vs)) if vs == vec![0, 1]));
}

#[test]
fn inconsistent_oracle_impossible() {
    let problem = Problem::from_card_ids(ProblemMode::Normal, vec![2, 3, 13]);
    let mut solver = Solver::new(&problem, Silent);
    assert!(solver.eliminate().is_ok());
    let before: Vec<usize> = (0..3).map(|v| solver.pool(v).len()).collect();
    let all_accept = Code::all()
        .into_iter()
        .find(|&c| solver.pool(0).iter().all(|k| k.accepts(c)))
        .expect("a code accepted by the whole pool");
    match solver.question(all_accept, 0) {
        Err(SolverError::Impossible(vs)) => assert!(vs.contains(&0)),
        _ => panic!("an answer that contradicts the whole pool"),
    }
    for v in 0..3 {
        assert!(solver.pool(v).len() <= before[v]);
    }
}

#[test]
fn elimination_keeps_only_valid_assignments() {
    let problem = Problem::from_card_ids(ProblemMode::Normal, vec![2, 3, 13]);
    let mut solver = Solver::new(&problem, Silent);
    let before: Vec<usize> = (0..3).map(|v| solver.pool(v).len()).collect();
    assert!(solver.eliminate().is_ok());
    for v in 0..3 {
        assert!(solver.pool(v).len() <= before[v]);
        for k in solver.pool(v) {
            let mut found = false;
            for a in solver.pool(0) {
                for b in solver.pool(1) {
                    for c in solver.pool(2) {
                        let pick = vec![*a, *b, *c];
                        if valid_constraints(&pick) && same_codes(&pick[v], k) {
                            found = true;
                        }
                    }
                }
            }
            assert!(found);
        }
    }
}

#[test]
fn validity_rules() {
    // Two constraints from the same card are never valid together.
    let a = law(3).with_group(0);
    let b = law(28).with_group(0);
    let c = law(95).with_group(2);
    assert!(!valid_constraints(&vec![a, b, c]));
    assert!(valid_constraints(&vec![a, b.with_group(1), c]));
    // A redundant constraint makes the assignment invalid.
    let d = law(29).with_group(3);
    assert!(!valid_constraints(&vec![a, b.with_group(1), c, d]));
    // No unique code.
    assert!(!valid_constraints(&vec![a, b.with_group(1)]));
}

#[test]
fn verbosity_builder() {
    let problem = Problem::from_card_ids(ProblemMode::Normal, vec![1]);
    let solver = Solver::new(&problem, Silent);
    assert_eq!(solver.get_verbosity(), SolverVerbosity::Normal);
    let solver = solver.verbosity(SolverVerbosity::Verbose);
    assert_eq!(solver.get_verbosity(), SolverVerbosity::Verbose);
    let solver = solver.automatic(vec![law(1)]);
    assert_eq!(solver.get_verbosity(), SolverVerbosity::Silent);
}

#[test]
fn apply_answer_filters_then_eliminates() {
    let problem = Problem::from_card_ids(ProblemMode::Normal, vec![2, 3, 13]);
    let mut solver = Solver::new(&problem, Silent);
    assert!(solver.eliminate().is_ok());
    let code = Code::new(3, 2, 1);
    // ■<3 and ■>● accept 321; the answer "yes" for verifier 1 keeps only ■<3.
    assert!(solver.apply_answer(code, 1, true).is_ok());
    assert_eq!(solver.pool(1).len(), 1);
    assert!(same_codes(&solver.pool(1)[0], &law(28)));
    for v in 0..3 {
        assert!(solver.pool(v).iter().all(|k| v != 1 || k.accepts(code)));
    }
    assert!(matches!(solver.has_solution(), Ok(Some(c)) if c == Code::new(3, 2, 1)));
    assert_eq!(solver.num_rounds(), 0);
}

#[test]
fn apply_answer_contradiction_is_impossible() {
    let problem = Problem::from_card_ids(ProblemMode::Normal, vec![2, 3, 13]);
    let mut solver = Solver::new(&problem, Silent);
    assert!(solver.eliminate().is_ok());
    // Only ▲=3 is left for verifier 0: the answer "no" on 3xx empties it.
    match solver.apply_answer(Code::new(3, 1, 1), 0, false) {
        Err(SolverError::Impossible(vs)) => assert_eq!(vs, vec![0, 1, 2]),
        _ => panic!("expected an impossible state"),
    }
}

#[test]
fn automatic_verifier_answers_from_laws() {
    let oracle = AutomaticVerifier(vec![law(1), law(8)]);
    assert!(oracle.accepts(0, Code::new(1, 5, 5)));
    assert!(!oracle.accepts(0, Code::new(2, 5, 5)));
    assert!(oracle.accepts(1, Code::new(2, 3, 5)));
    assert!(!oracle.accepts(2, Code::new(1, 3, 5)));
}

#[test]
fn recorded_answers_come_from_the_oracle() {
    let problem = Problem::from_card_ids(ProblemMode::Normal, vec![2, 3, 13]);
    let laws = [3u8, 28, 95];
    let mut solver = automatic(&problem, &laws);
    assert!(solver.solve().is_ok());
    for (r, q) in solver.questions().iter().enumerate() {
        for v in 0..3 {
            if let Some(a) = solver.answer(r, v) {
                assert_eq!(a, law(laws[v]).accepts(*q));
            }
        }
    }
}
