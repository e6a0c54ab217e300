use turing_machine_game::code::{Code, Symbol};
use turing_machine_game::constraint::Constraint;

#[test]
fn code_index_is_lexicographic() {
    assert_eq!(Code::new(1, 1, 1).index(), 0);
    assert_eq!(Code::new(1, 2, 3).index(), 7);
    assert_eq!(Code::new(2, 1, 1).index(), 25);
    assert_eq!(Code::new(5, 5, 5).index(), 124);
}

#[test]
fn all_codes_in_order() {
    let all = Code::all();
    assert_eq!(all.len(), 125);
    assert_eq!(all[0], Code::new(1, 1, 1));
    assert_eq!(all[1], Code::new(1, 1, 2));
    assert_eq!(all[5], Code::new(1, 2, 1));
    assert_eq!(all[124], Code::new(5, 5, 5));
    for (i, c) in all.iter().enumerate() {
        assert_eq!(c.index() as usize, i);
    }
}

#[test]
fn code_digit_helpers() {
    let c = Code::new(2, 3, 2);
    assert_eq!(c.get(Symbol::Triangle), 2);
    assert_eq!(c.get(Symbol::Square), 3);
    assert_eq!(c.get(Symbol::Circle), 2);
    assert_eq!(c.sum(), 7);
    assert_eq!(c.count(|d| d == 2), 2);
    assert_eq!(c.count(|d| d % 2 == 0), 2);
    assert_eq!(c.num_distinct(), 2);
    assert_eq!(Code::new(4, 4, 4).num_distinct(), 1);
    assert_eq!(Code::new(1, 2, 3).num_distinct(), 3);
    assert_eq!(Code::new(1, 2, 3).count_adj(|a, b| a + 1 == b), 2);
    assert_eq!(c.count_adj(|a, b| a < b), 1);
}

#[test]
fn symbols_and_pairs() {
    assert_eq!(Symbol::all_symbols(), vec![Symbol::Triangle, Symbol::Square, Symbol::Circle]);
    assert_eq!(
        Symbol::all_combinations(),
        vec![
            (Symbol::Triangle, Symbol::Square),
            (Symbol::Triangle, Symbol::Circle),
            (Symbol::Square, Symbol::Circle)
        ]
    );
}

#[test]
fn new_is_faithful_to_predicate() {
    let pred = |c: Code| c.triangle + c.circle == 6;
    let k = Constraint::new(pred);
    for c in Code::all() {
        assert_eq!(k.accepts(c), pred(c));
    }
    assert_eq!(k.num_solutions(), 25);
    assert_eq!(k.group(), 0);
}

#[test]
fn intersection_accepts_when_both_do() {
    let a = Constraint::new(|c| c.triangle == 1);
    let b = Constraint::new(|c| c.square > 3);
    let both = a.intersect(&b);
    let folded = Constraint::inter(&vec![a, b]);
    for c in Code::all() {
        assert_eq!(both.accepts(c), a.accepts(c) && b.accepts(c));
        assert_eq!(folded.accepts(c), a.accepts(c) && b.accepts(c));
    }
    assert_eq!(both.num_solutions(), 10);
}

#[test]
fn top_constraint_accepts_everything() {
    let top = Constraint::none();
    assert_eq!(top.num_solutions(), 125);
    assert_eq!(Constraint::inter(&vec![]).num_solutions(), 125);
    assert_eq!(top.solution(), None);
}

#[test]
fn unique_solution_matches_count() {
    let one = Constraint::new(|c| c == Code::new(1, 2, 3));
    assert_eq!(one.num_solutions(), 1);
    assert!(one.has_unique_solution());
    assert_eq!(one.solution(), Some(Code::new(1, 2, 3)));
    assert_eq!(one.solutions(), vec![Code::new(1, 2, 3)]);

    let two = Constraint::new(|c| c.triangle == 5 && c.square == 5 && c.circle > 3);
    assert_eq!(two.num_solutions(), 2);
    assert!(!two.has_unique_solution());
    assert_eq!(two.solution(), None);
    assert_eq!(two.solutions(), vec![Code::new(5, 5, 4), Code::new(5, 5, 5)]);

    let none = Constraint::new(|_| false);
    assert_eq!(none.num_solutions(), 0);
    assert!(!none.has_unique_solution());
    assert_eq!(none.solutions(), vec![]);
}

#[test]
fn group_tag_is_kept_apart_from_codes() {
    let k = Constraint::new(|c| c.square == 2);
    let g = k.with_group(5);
    assert_eq!(g.group(), 5);
    assert_eq!(g.num_solutions(), 25);
    for c in Code::all() {
        assert_eq!(g.accepts(c), k.accepts(c));
    }
    assert!(g.is_superset_of(&k) && k.is_superset_of(&g));
    assert_eq!(g.with_group(7).group(), 7);
    assert_eq!(g.with_group(0).group(), 0);
}

#[test]
fn superset_ignores_groups() {
    let wide = Constraint::new(|c| c.triangle < 3).with_group(3);
    let narrow = Constraint::new(|c| c.triangle == 1).with_group(6);
    assert!(wide.is_superset_of(&narrow));
    assert!(!narrow.is_superset_of(&wide));
    let skip = Constraint::inter_skipping(&vec![wide, narrow], 1);
    assert_eq!(skip.num_solutions(), 50);
}
