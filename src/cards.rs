use vstd::prelude::*;
use vstd::string::*;
use crate::code::{Code, Digit, Symbol, count3, distinct_count};
use crate::constraint::Constraint;
use crate::problem::{Card, bare};

verus! {

const TRI: Symbol = Symbol::Triangle;
const SQU: Symbol = Symbol::Square;
const CIR: Symbol = Symbol::Circle;

/// Number of digits of `c` equal to `v`.
pub open spec fn count_of(c: Code, v: int) -> int {
    count3(c.triangle == v, c.square == v, c.circle == v)
}

/// Number of even digits of `c`.
pub open spec fn evens_of(c: Code) -> int {
    count3(c.triangle % 2 == 0, c.square % 2 == 0, c.circle % 2 == 0)
}

/// Number of adjacent pairs going up by exactly one.
pub open spec fn steps_up_of(c: Code) -> int {
    count3(c.triangle + 1 == c.square, c.square + 1 == c.circle, false)
}

/// Number of adjacent pairs going down by exactly one.
pub open spec fn steps_down_of(c: Code) -> int {
    count3(c.square + 1 == c.triangle, c.circle + 1 == c.square, false)
}

/// Number of adjacent pairs that increase.
pub open spec fn rises_of(c: Code) -> int {
    count3(c.triangle < c.square, c.square < c.circle, false)
}

/// Number of adjacent pairs that decrease.
pub open spec fn falls_of(c: Code) -> int {
    count3(c.triangle > c.square, c.square > c.circle, false)
}

/// The two symbols other than `s`, in order.
pub open spec fn others(s: Symbol) -> (Symbol, Symbol) {
    match s {
        Symbol::Triangle => (Symbol::Square, Symbol::Circle),
        Symbol::Square => (Symbol::Triangle, Symbol::Circle),
        Symbol::Circle => (Symbol::Triangle, Symbol::Square),
    }
}

/// Whether primitive constraint `id` (1 to 145) accepts the valid code `c`.
pub open spec fn law_holds(id: int, c: Code) -> bool {
    let t = c.triangle as int;
    let s = c.square as int;
    let k = c.circle as int;
    let sum = t + s + k;
    if 1 <= id <= 5 { t == id }
    else if 6 <= id <= 10 { s == id - 5 }
    else if 11 <= id <= 15 { k == id - 10 }
    else if 16 <= id <= 18 { t > id - 15 }
    else if 19 <= id <= 21 { s > id - 18 }
    else if 22 <= id <= 24 { k > id - 21 }
    else if 25 <= id <= 27 { t < id - 22 }
    else if 28 <= id <= 30 { s < id - 25 }
    else if 31 <= id <= 33 { k < id - 28 }
    else if id == 34 { t % 2 == 0 }
    else if id == 35 { s % 2 == 0 }
    else if id == 36 { k % 2 == 0 }
    else if id == 37 { t % 2 != 0 }
    else if id == 38 { s % 2 != 0 }
    else if id == 39 { k % 2 != 0 }
    else if 40 <= id <= 42 { count_of(c, 1) == id - 40 }
    else if 43 <= id <= 45 { count_of(c, 2) == id - 43 }
    else if 46 <= id <= 48 { count_of(c, 3) == id - 46 }
    else if 49 <= id <= 51 { count_of(c, 4) == id - 49 }
    else if 52 <= id <= 54 { count_of(c, 5) == id - 52 }
    else if id == 55 { sum % 2 == 0 }
    else if id == 56 { sum % 2 != 0 }
    else if 57 <= id <= 59 { sum % (id - 54) == 0 }
    else if 60 <= id <= 66 { sum == id - 54 }
    else if 67 <= id <= 73 { sum > id - 61 }
    else if 74 <= id <= 80 { sum < id - 68 }
    else if id == 81 { distinct_count(c) != 2 }
    else if id == 82 { distinct_count(c) == 2 }
    else if id == 83 { steps_up_of(c) == 0 }
    else if id == 84 { steps_up_of(c) == 1 }
    else if 85 <= id <= 88 { evens_of(c) == id - 85 }
    else if id == 89 { t == s }
    else if id == 90 { t == k }
    else if id == 91 { s == k }
    else if id == 92 { t > s }
    else if id == 93 { t > k }
    else if id == 94 { s > t }
    else if id == 95 { s > k }
    else if id == 96 { k > t }
    else if id == 97 { k > s }
    else if 98 <= id <= 102 { t + s == id - 94 }
    else if 103 <= id <= 107 { t + k == id - 99 }
    else if 108 <= id <= 112 { s + k == id - 104 }
    else if id == 113 { t > s && t > k }
    else if id == 114 { s > t && s > k }
    else if id == 115 { k > t && k > s }
    else if id == 116 { t < s && t < k }
    else if id == 117 { s < t && s < k }
    else if id == 118 { k < t && k < s }
    else if 119 <= id <= 121 { distinct_count(c) == id - 118 }
    else if 122 <= id <= 124 { (if steps_up_of(c) >= steps_down_of(c) { steps_up_of(c) } else { steps_down_of(c) }) == id - 122 }
    else if id == 125 { t >= s && t >= k }
    else if id == 126 { s >= t && s >= k }
    else if id == 127 { k >= t && k >= s }
    else if id == 128 { t <= s && t <= k }
    else if id == 129 { s <= t && s <= k }
    else if id == 130 { k <= t && k <= s }
    else if id == 131 { evens_of(c) > 3 - evens_of(c) }
    else if id == 132 { 3 - evens_of(c) > evens_of(c) }
    else if id == 133 { rises_of(c) == 2 }
    else if id == 134 { falls_of(c) == 2 }
    else if id == 135 { rises_of(c) != 2 && falls_of(c) != 2 }
    else if id == 136 { t + s > 6 }
    else if id == 137 { t + s < 6 }
    else if id == 138 { s > 4 }
    else if id == 139 { t < s }
    else if id == 140 { t < k }
    else if id == 141 { s < k }
    else if id == 142 { t > 4 }
    else if id == 143 { k > 4 }
    else if id == 144 { s < t }
    else { s == t }
}

/// The labels that make up the name of primitive constraint `id` (1 to 145).
pub open spec fn law_parts(id: u8) -> Seq<&'static str> {
    if id <= 5 {
        seq![sym_label(Symbol::Triangle), "=", num_label(id)]
    } else if id <= 10 {
        seq![sym_label(Symbol::Square), "=", num_label((id - 5) as u8)]
    } else if id <= 15 {
        seq![sym_label(Symbol::Circle), "=", num_label((id - 10) as u8)]
    } else if id <= 18 {
        seq![sym_label(Symbol::Triangle), ">", num_label((id - 15) as u8)]
    } else if id <= 21 {
        seq![sym_label(Symbol::Square), ">", num_label((id - 18) as u8)]
    } else if id <= 24 {
        seq![sym_label(Symbol::Circle), ">", num_label((id - 21) as u8)]
    } else if id <= 27 {
        seq![sym_label(Symbol::Triangle), "<", num_label((id - 22) as u8)]
    } else if id <= 30 {
        seq![sym_label(Symbol::Square), "<", num_label((id - 25) as u8)]
    } else if id <= 33 {
        seq![sym_label(Symbol::Circle), "<", num_label((id - 28) as u8)]
    } else if id == 34 {
        seq!["even(", sym_label(Symbol::Triangle), ")"]
    } else if id == 35 {
        seq!["even(", sym_label(Symbol::Square), ")"]
    } else if id == 36 {
        seq!["even(", sym_label(Symbol::Circle), ")"]
    } else if id == 37 {
        seq!["odd(", sym_label(Symbol::Triangle), ")"]
    } else if id == 38 {
        seq!["odd(", sym_label(Symbol::Square), ")"]
    } else if id == 39 {
        seq!["odd(", sym_label(Symbol::Circle), ")"]
    } else if id <= 42 {
        seq!["#", num_label(1), "=", num_label((id - 40) as u8)]
    } else if id <= 45 {
        seq!["#", num_label(2), "=", num_label((id - 43) as u8)]
    } else if id <= 48 {
        seq!["#", num_label(3), "=", num_label((id - 46) as u8)]
    } else if id <= 51 {
        seq!["#", num_label(4), "=", num_label((id - 49) as u8)]
    } else if id <= 54 {
        seq!["#", num_label(5), "=", num_label((id - 52) as u8)]
    } else if id == 55 {
        seq!["even(▲+■+●)"]
    } else if id == 56 {
        seq!["odd(▲+■+●)"]
    } else if id <= 59 {
        seq!["▲+■+●=", num_label((id - 54) as u8), "n"]
    } else if id <= 66 {
        seq!["▲+■+●=", num_label((id - 54) as u8)]
    } else if id <= 73 {
        seq!["▲+■+●>", num_label((id - 61) as u8)]
    } else if id <= 80 {
        seq!["▲+■+●<", num_label((id - 68) as u8)]
    } else if id == 81 {
        seq!["#distinct≠2"]
    } else if id == 82 {
        seq!["#distinct=", num_label(2)]
    } else if id == 83 {
        seq!["#steps-up=", num_label(0)]
    } else if id == 84 {
        seq!["#steps-up=", num_label(1)]
    } else if id <= 88 {
        seq!["#even=", num_label((id - 85) as u8)]
    } else if id == 89 {
        seq![sym_label(Symbol::Triangle), "=", sym_label(Symbol::Square)]
    } else if id == 90 {
        seq![sym_label(Symbol::Triangle), "=", sym_label(Symbol::Circle)]
    } else if id == 91 {
        seq![sym_label(Symbol::Square), "=", sym_label(Symbol::Circle)]
    } else if id == 92 {
        seq![sym_label(Symbol::Triangle), ">", sym_label(Symbol::Square)]
    } else if id == 93 {
        seq![sym_label(Symbol::Triangle), ">", sym_label(Symbol::Circle)]
    } else if id == 94 {
        seq![sym_label(Symbol::Square), ">", sym_label(Symbol::Triangle)]
    } else if id == 95 {
        seq![sym_label(Symbol::Square), ">", sym_label(Symbol::Circle)]
    } else if id == 96 {
        seq![sym_label(Symbol::Circle), ">", sym_label(Symbol::Triangle)]
    } else if id == 97 {
        seq![sym_label(Symbol::Circle), ">", sym_label(Symbol::Square)]
    } else if id <= 102 {
        seq![sym_label(Symbol::Triangle), "+", sym_label(Symbol::Square), "=", num_label((id - 94) as u8)]
    } else if id <= 107 {
        seq![sym_label(Symbol::Triangle), "+", sym_label(Symbol::Circle), "=", num_label((id - 99) as u8)]
    } else if id <= 112 {
        seq![sym_label(Symbol::Square), "+", sym_label(Symbol::Circle), "=", num_label((id - 104) as u8)]
    } else if id == 113 {
        seq![sym_label(Symbol::Triangle), ">", sym_label(others(Symbol::Triangle).0), sym_label(others(Symbol::Triangle).1)]
    } else if id == 114 {
        seq![sym_label(Symbol::Square), ">", sym_label(others(Symbol::Square).0), sym_label(others(Symbol::Square).1)]
    } else if id == 115 {
        seq![sym_label(Symbol::Circle), ">", sym_label(others(Symbol::Circle).0), sym_label(others(Symbol::Circle).1)]
    } else if id == 116 {
        seq![sym_label(Symbol::Triangle), "<", sym_label(others(Symbol::Triangle).0), sym_label(others(Symbol::Triangle).1)]
    } else if id == 117 {
        seq![sym_label(Symbol::Square), "<", sym_label(others(Symbol::Square).0), sym_label(others(Symbol::Square).1)]
    } else if id == 118 {
        seq![sym_label(Symbol::Circle), "<", sym_label(others(Symbol::Circle).0), sym_label(others(Symbol::Circle).1)]
    } else if id <= 121 {
        seq!["#distinct=", num_label((id - 118) as u8)]
    } else if id <= 124 {
        seq!["#steps=", num_label((id - 122) as u8)]
    } else if id == 125 {
        seq![sym_label(Symbol::Triangle), "≥", sym_label(others(Symbol::Triangle).0), sym_label(others(Symbol::Triangle).1)]
    } else if id == 126 {
        seq![sym_label(Symbol::Square), "≥", sym_label(others(Symbol::Square).0), sym_label(others(Symbol::Square).1)]
    } else if id == 127 {
        seq![sym_label(Symbol::Circle), "≥", sym_label(others(Symbol::Circle).0), sym_label(others(Symbol::Circle).1)]
    } else if id == 128 {
        seq![sym_label(Symbol::Triangle), "≤", sym_label(others(Symbol::Triangle).0), sym_label(others(Symbol::Triangle).1)]
    } else if id == 129 {
        seq![sym_label(Symbol::Square), "≤", sym_label(others(Symbol::Square).0), sym_label(others(Symbol::Square).1)]
    } else if id == 130 {
        seq![sym_label(Symbol::Circle), "≤", sym_label(others(Symbol::Circle).0), sym_label(others(Symbol::Circle).1)]
    } else if id == 131 {
        seq!["#even>#odd"]
    } else if id == 132 {
        seq!["#odd>#even"]
    } else if id == 133 {
        seq!["▲<■<●"]
    } else if id == 134 {
        seq!["▲>■>●"]
    } else if id == 135 {
        seq!["not(▲<■<●|▲>■>●)"]
    } else if id == 136 {
        seq![sym_label(Symbol::Triangle), "+", sym_label(Symbol::Square), ">", num_label(6)]
    } else if id == 137 {
        seq![sym_label(Symbol::Triangle), "+", sym_label(Symbol::Square), "<", num_label(6)]
    } else if id == 138 {
        seq![sym_label(Symbol::Square), ">", num_label(4)]
    } else if id == 139 {
        seq![sym_label(Symbol::Triangle), "<", sym_label(Symbol::Square)]
    } else if id == 140 {
        seq![sym_label(Symbol::Triangle), "<", sym_label(Symbol::Circle)]
    } else if id == 141 {
        seq![sym_label(Symbol::Square), "<", sym_label(Symbol::Circle)]
    } else if id == 142 {
        seq![sym_label(Symbol::Triangle), ">", num_label(4)]
    } else if id == 143 {
        seq![sym_label(Symbol::Circle), ">", num_label(4)]
    } else if id == 144 {
        seq![sym_label(Symbol::Square), "<", sym_label(Symbol::Triangle)]
    } else {
        seq![sym_label(Symbol::Square), "=", sym_label(Symbol::Triangle)]
    }
}

/// The name of primitive constraint `id`.
pub open spec fn law_name(id: u8) -> Seq<char> {
    joined(law_parts(id))
}

/// The label of a symbol.
pub open spec fn sym_label(s: Symbol) -> &'static str {
    match s {
        Symbol::Triangle => "▲",
        Symbol::Square => "■",
        Symbol::Circle => "●",
    }
}

/// The decimal label of a small number.
pub open spec fn num_label(n: u8) -> &'static str {
    if n == 0 { "0" } else if n == 1 { "1" } else if n == 2 { "2" } else if n == 3 { "3" } else if n == 4 { "4" }
    else if n == 5 { "5" } else if n == 6 { "6" } else if n == 7 { "7" } else if n == 8 { "8" } else if n == 9 { "9" }
    else if n == 10 { "10" } else if n == 11 { "11" } else if n == 12 { "12" } else { "?" }
}

/// The concatenation of the labels `parts`.
pub open spec fn joined(parts: Seq<&str>) -> Seq<char>
    decreases parts.len(),
{
    if parts.len() == 0 {
        Seq::empty()
    } else {
        joined(parts.drop_last()) + parts.last()@
    }
}

/// The label of a symbol.
fn sym_str(s: Symbol) -> (r: &'static str)
    ensures
        r == sym_label(s),
{
    match s {
        Symbol::Triangle => "▲",
        Symbol::Square => "■",
        Symbol::Circle => "●",
    }
}

/// The decimal label of a small number.
fn num_str(n: u8) -> (r: &'static str)
    ensures
        r == num_label(n),
{
    match n {
        0 => "0",
        1 => "1",
        2 => "2",
        3 => "3",
        4 => "4",
        5 => "5",
        6 => "6",
        7 => "7",
        8 => "8",
        9 => "9",
        10 => "10",
        11 => "11",
        12 => "12",
        _ => "?",
    }
}

/// The concatenation of labels.
fn label(parts: &Vec<&str>) -> (r: String)
    ensures
        r@ == joined(parts@),
{
    let mut r = String::new();
    let mut i: usize = 0;
    while i < parts.len()
        invariant
            i <= parts@.len(),
            r@ == joined(parts@.subrange(0, i as int)),
        decreases parts@.len() - i,
    {
        proof {
            assert(parts@.subrange(0, i + 1).drop_last() =~= parts@.subrange(0, i as int));
        }
        r.append(parts[i]);
        i = i + 1;
    }
    assert(parts@.subrange(0, i as int) =~= parts@);
    r
}

/// A named constraint accepting the codes on which `f` holds.
fn cons<F: Fn(Code) -> bool>(f: F, name: String) -> (r: (String, Constraint))
    requires
        forall|c: Code| c.wf() ==> f.requires((c,)),
    ensures
        forall|c: Code| c.wf() ==> f.ensures((c,), #[trigger] r.1.holds(c)),
        r.1.tag() == 0,
        r.0 == name,
{
    (name, Constraint::new(f))
}

fn eqs(s1: Symbol, s2: Symbol) -> (r: (String, Constraint))
    ensures
        forall|c: Code| c.wf() ==> #[trigger] r.1.holds(c) == (c.at(s1) == c.at(s2)),
        r.1.tag() == 0,
        r.0@ == joined(seq![sym_label(s1), "=", sym_label(s2)]),
{
    cons(|c: Code| -> (b: bool) ensures b == (c.at(s1) == c.at(s2)) { c.get(s1) == c.get(s2) },
        label(&vec![sym_str(s1), "=", sym_str(s2)]))
}

fn lts(s1: Symbol, s2: Symbol) -> (r: (String, Constraint))
    ensures
        forall|c: Code| c.wf() ==> #[trigger] r.1.holds(c) == (c.at(s1) < c.at(s2)),
        r.1.tag() == 0,
        r.0@ == joined(seq![sym_label(s1), "<", sym_label(s2)]),
{
    cons(|c: Code| -> (b: bool) ensures b == (c.at(s1) < c.at(s2)) { c.get(s1) < c.get(s2) },
        label(&vec![sym_str(s1), "<", sym_str(s2)]))
}

fn gts(s1: Symbol, s2: Symbol) -> (r: (String, Constraint))
    ensures
        forall|c: Code| c.wf() ==> #[trigger] r.1.holds(c) == (c.at(s1) > c.at(s2)),
        r.1.tag() == 0,
        r.0@ == joined(seq![sym_label(s1), ">", sym_label(s2)]),
{
    cons(|c: Code| -> (b: bool) ensures b == (c.at(s1) > c.at(s2)) { c.get(s1) > c.get(s2) },
        label(&vec![sym_str(s1), ">", sym_str(s2)]))
}

/// The two symbols other than `s1`.
fn other_symbols(s1: Symbol) -> (r: (Symbol, Symbol))
    ensures
        r == others(s1),
{
    match s1 {
        Symbol::Triangle => (Symbol::Square, Symbol::Circle),
        Symbol::Square => (Symbol::Triangle, Symbol::Circle),
        Symbol::Circle => (Symbol::Triangle, Symbol::Square),
    }
}

fn smallest(s1: Symbol) -> (r: (String, Constraint))
    ensures
        forall|c: Code| c.wf() ==> #[trigger] r.1.holds(c) == (c.at(s1) <= c.at(others(s1).0) && c.at(s1) <= c.at(others(s1).1)),
        r.1.tag() == 0,
        r.0@ == joined(seq![sym_label(s1), "≤", sym_label(others(s1).0), sym_label(others(s1).1)]),
{
    let (s2, s3) = other_symbols(s1);
    cons(|c: Code| -> (b: bool) ensures b == (c.at(s1) <= c.at(s2) && c.at(s1) <= c.at(s3))
        { c.get(s1) <= c.get(s2) && c.get(s1) <= c.get(s3) },
        label(&vec![sym_str(s1), "≤", sym_str(s2), sym_str(s3)]))
}

fn biggest(s1: Symbol) -> (r: (String, Constraint))
    ensures
        forall|c: Code| c.wf() ==> #[trigger] r.1.holds(c) == (c.at(s1) >= c.at(others(s1).0) && c.at(s1) >= c.at(others(s1).1)),
        r.1.tag() == 0,
        r.0@ == joined(seq![sym_label(s1), "≥", sym_label(others(s1).0), sym_label(others(s1).1)]),
{
    let (s2, s3) = other_symbols(s1);
    cons(|c: Code| -> (b: bool) ensures b == (c.at(s1) >= c.at(s2) && c.at(s1) >= c.at(s3))
        { c.get(s1) >= c.get(s2) && c.get(s1) >= c.get(s3) },
        label(&vec![sym_str(s1), "≥", sym_str(s2), sym_str(s3)]))
}

fn strictly_smallest(s1: Symbol) -> (r: (String, Constraint))
    ensures
        forall|c: Code| c.wf() ==> #[trigger] r.1.holds(c) == (c.at(s1) < c.at(others(s1).0) && c.at(s1) < c.at(others(s1).1)),
        r.1.tag() == 0,
        r.0@ == joined(seq![sym_label(s1), "<", sym_label(others(s1).0), sym_label(others(s1).1)]),
{
    let (s2, s3) = other_symbols(s1);
    cons(|c: Code| -> (b: bool) ensures b == (c.at(s1) < c.at(s2) && c.at(s1) < c.at(s3))
        { c.get(s1) < c.get(s2) && c.get(s1) < c.get(s3) },
        label(&vec![sym_str(s1), "<", sym_str(s2), sym_str(s3)]))
}

fn strictly_biggest(s1: Symbol) -> (r: (String, Constraint))
    ensures
        forall|c: Code| c.wf() ==> #[trigger] r.1.holds(c) == (c.at(s1) > c.at(others(s1).0) && c.at(s1) > c.at(others(s1).1)),
        r.1.tag() == 0,
        r.0@ == joined(seq![sym_label(s1), ">", sym_label(others(s1).0), sym_label(others(s1).1)]),
{
    let (s2, s3) = other_symbols(s1);
    cons(|c: Code| -> (b: bool) ensures b == (c.at(s1) > c.at(s2) && c.at(s1) > c.at(s3))
        { c.get(s1) > c.get(s2) && c.get(s1) > c.get(s3) },
        label(&vec![sym_str(s1), ">", sym_str(s2), sym_str(s3)]))
}

fn eqv(s: Symbol, v: u8) -> (r: (String, Constraint))
    ensures
        forall|c: Code| c.wf() ==> #[trigger] r.1.holds(c) == (c.at(s) == v),
        r.1.tag() == 0,
        r.0@ == joined(seq![sym_label(s), "=", num_label(v)]),
{
    cons(|c: Code| -> (b: bool) ensures b == (c.at(s) == v) { c.get(s) == v }, label(&vec![sym_str(s), "=", num_str(v)]))
}

fn ltv(s: Symbol, v: u8) -> (r: (String, Constraint))
    ensures
        forall|c: Code| c.wf() ==> #[trigger] r.1.holds(c) == (c.at(s) < v),
        r.1.tag() == 0,
        r.0@ == joined(seq![sym_label(s), "<", num_label(v)]),
{
    cons(|c: Code| -> (b: bool) ensures b == (c.at(s) < v) { c.get(s) < v }, label(&vec![sym_str(s), "<", num_str(v)]))
}

fn gtv(s: Symbol, v: u8) -> (r: (String, Constraint))
    ensures
        forall|c: Code| c.wf() ==> #[trigger] r.1.holds(c) == (c.at(s) > v),
        r.1.tag() == 0,
        r.0@ == joined(seq![sym_label(s), ">", num_label(v)]),
{
    cons(|c: Code| -> (b: bool) ensures b == (c.at(s) > v) { c.get(s) > v }, label(&vec![sym_str(s), ">", num_str(v)]))
}

fn numv(v: u8, n: u8) -> (r: (String, Constraint))
    ensures
        forall|c: Code| c.wf() ==> #[trigger] r.1.holds(c) == (count_of(c, v as int) == n),
        r.1.tag() == 0,
        r.0@ == joined(seq!["#", num_label(v), "=", num_label(n)]),
{
    cons(|c: Code| -> (b: bool) ensures b == (count_of(c, v as int) == n)
        { c.count(|x: Digit| -> (e: bool) ensures e == (x == v) { x == v }) == n },
        label(&vec!["#", num_str(v), "=", num_str(n)]))
}

fn even(n: Digit) -> (r: bool)
    ensures
        r == (n % 2 == 0),
{
    n % 2 == 0
}

fn odd(n: Digit) -> (r: bool)
    ensures
        r == (n % 2 != 0),
{
    n % 2 != 0
}

fn evens(s: Symbol) -> (r: (String, Constraint))
    ensures
        forall|c: Code| c.wf() ==> #[trigger] r.1.holds(c) == (c.at(s) % 2 == 0),
        r.1.tag() == 0,
        r.0@ == joined(seq!["even(", sym_label(s), ")"]),
{
    cons(|c: Code| -> (b: bool) ensures b == (c.at(s) % 2 == 0) { even(c.get(s)) }, label(&vec!["even(", sym_str(s), ")"]))
}

fn odds(s: Symbol) -> (r: (String, Constraint))
    ensures
        forall|c: Code| c.wf() ==> #[trigger] r.1.holds(c) == (c.at(s) % 2 != 0),
        r.1.tag() == 0,
        r.0@ == joined(seq!["odd(", sym_label(s), ")"]),
{
    cons(|c: Code| -> (b: bool) ensures b == (c.at(s) % 2 != 0) { odd(c.get(s)) }, label(&vec!["odd(", sym_str(s), ")"]))
}

/// Number of even digits of a code.
fn count_even(c: Code) -> (r: u8)
    ensures
        r as int == evens_of(c),
{
    c.count(|x: Digit| -> (e: bool) ensures e == (x % 2 == 0) { even(x) })
}

fn num_even(n: u8) -> (r: (String, Constraint))
    ensures
        forall|c: Code| c.wf() ==> #[trigger] r.1.holds(c) == (evens_of(c) == n),
        r.1.tag() == 0,
        r.0@ == joined(seq!["#even=", num_label(n)]),
{
    cons(|c: Code| -> (b: bool) ensures b == (evens_of(c) == n) { count_even(c) == n }, label(&vec!["#even=", num_str(n)]))
}

fn num_distinct(n: u8) -> (r: (String, Constraint))
    ensures
        forall|c: Code| c.wf() ==> #[trigger] r.1.holds(c) == (distinct_count(c) == n),
        r.1.tag() == 0,
        r.0@ == joined(seq!["#distinct=", num_label(n)]),
{
    cons(|c: Code| -> (b: bool) ensures b == (distinct_count(c) == n) { c.num_distinct() == n },
        label(&vec!["#distinct=", num_str(n)]))
}

/// Number of adjacent pairs of a code going up by exactly one.
fn count_steps_up(c: Code) -> (r: u8)
    ensures
        r as int == steps_up_of(c),
{
    c.count_adj(|a: Digit, b: Digit| -> (e: bool) ensures e == (a + 1 == b) { (a as u16) + 1 == b as u16 })
}

/// Number of adjacent pairs of a code going down by exactly one.
fn count_steps_down(c: Code) -> (r: u8)
    ensures
        r as int == steps_down_of(c),
{
    c.count_adj(|a: Digit, b: Digit| -> (e: bool) ensures e == (b + 1 == a) { (b as u16) + 1 == a as u16 })
}

fn num_steps_up(n: u8) -> (r: (String, Constraint))
    ensures
        forall|c: Code| c.wf() ==> #[trigger] r.1.holds(c) == (steps_up_of(c) == n),
        r.1.tag() == 0,
        r.0@ == joined(seq!["#steps-up=", num_label(n)]),
{
    cons(|c: Code| -> (b: bool) ensures b == (steps_up_of(c) == n) { count_steps_up(c) == n },
        label(&vec!["#steps-up=", num_str(n)]))
}

fn num_steps(n: u8) -> (r: (String, Constraint))
    ensures
        forall|c: Code| c.wf() ==> #[trigger] r.1.holds(c) == ((if steps_up_of(c) >= steps_down_of(c) { steps_up_of(c) } else { steps_down_of(c) }) == n),
        r.1.tag() == 0,
        r.0@ == joined(seq!["#steps=", num_label(n)]),
{
    cons(|c: Code| -> (b: bool) ensures b == ((if steps_up_of(c) >= steps_down_of(c) { steps_up_of(c) } else { steps_down_of(c) }) == n)
        {
            let up = count_steps_up(c);
            let down = count_steps_down(c);
            (if up >= down { up } else { down }) == n
        },
        label(&vec!["#steps=", num_str(n)]))
}


/// A named constraint on the sum of the digits.
fn sum_cons(op: u8, v: u8) -> (r: (String, Constraint))
    requires
        op < 4,
        op == 3 ==> v > 0,
    ensures
        forall|c: Code| c.wf() ==> #[trigger] r.1.holds(c) == {
            let sum = c.triangle + c.square + c.circle;
            if op == 0 { sum == v } else if op == 1 { sum > v } else if op == 2 { sum < v } else { sum % (v as int) == 0 }
        },
        r.1.tag() == 0,
        r.0@ == joined(if op == 0 { seq!["▲+■+●=", num_label(v)] } else if op == 1 { seq!["▲+■+●>", num_label(v)] } else if op == 2 { seq!["▲+■+●<", num_label(v)] } else { seq!["▲+■+●=", num_label(v), "n"] }),
{
    let f = |c: Code| -> (b: bool)
        requires
            c.wf(),
        ensures
            b == {
                let sum = c.triangle + c.square + c.circle;
                if op == 0 { sum == v } else if op == 1 { sum > v } else if op == 2 { sum < v } else { sum % (v as int) == 0 }
            },
        {
            let sum = c.sum();
            if op == 0 {
                sum == v
            } else if op == 1 {
                sum > v
            } else if op == 2 {
                sum < v
            } else {
                sum % v == 0
            }
        };
    let name = if op == 0 {
        label(&vec!["▲+■+●=", num_str(v)])
    } else if op == 1 {
        label(&vec!["▲+■+●>", num_str(v)])
    } else if op == 2 {
        label(&vec!["▲+■+●<", num_str(v)])
    } else {
        label(&vec!["▲+■+●=", num_str(v), "n"])
    };
    cons(f, name)
}

/// A named constraint on the sum of the digits under two symbols.
fn pair_sum_cons(s1: Symbol, s2: Symbol, op: u8, v: u8) -> (r: (String, Constraint))
    requires
        op < 3,
    ensures
        forall|c: Code| c.wf() ==> #[trigger] r.1.holds(c) == {
            let sum = c.at(s1) + c.at(s2);
            if op == 0 { sum == v } else if op == 1 { sum > v } else { sum < v }
        },
        r.1.tag() == 0,
        r.0@ == joined(seq![sym_label(s1), "+", sym_label(s2), if op == 0 { "=" } else if op == 1 { ">" } else { "<" }, num_label(v)]),
{
    let f = |c: Code| -> (b: bool)
        requires
            c.wf(),
        ensures
            b == {
                let sum = c.at(s1) + c.at(s2);
                if op == 0 { sum == v } else if op == 1 { sum > v } else { sum < v }
            },
        {
            let sum = c.get(s1) + c.get(s2);
            if op == 0 {
                sum == v
            } else if op == 1 {
                sum > v
            } else {
                sum < v
            }
        };
    let rel = if op == 0 { "=" } else if op == 1 { ">" } else { "<" };
    cons(f, label(&vec![sym_str(s1), "+", sym_str(s2), rel, num_str(v)]))
}

/// A named constraint on how the adjacent pairs are ordered: all rising (0), all falling (1),
/// or neither (2).
fn order_cons(kind: u8) -> (r: (String, Constraint))
    requires
        kind < 3,
    ensures
        forall|c: Code| c.wf() ==> #[trigger] r.1.holds(c) == if kind == 0 {
            rises_of(c) == 2
        } else if kind == 1 {
            falls_of(c) == 2
        } else {
            rises_of(c) != 2 && falls_of(c) != 2
        },
        r.1.tag() == 0,
        r.0@ == joined(seq![if kind == 0 { "▲<■<●" } else if kind == 1 { "▲>■>●" } else { "not(▲<■<●|▲>■>●)" }]),
{
    let f = |c: Code| -> (b: bool)
        ensures
            b == if kind == 0 {
                rises_of(c) == 2
            } else if kind == 1 {
                falls_of(c) == 2
            } else {
                rises_of(c) != 2 && falls_of(c) != 2
            },
        {
            let up = c.count_adj(|a: Digit, b: Digit| -> (e: bool) ensures e == (a < b) { a < b });
            let down = c.count_adj(|a: Digit, b: Digit| -> (e: bool) ensures e == (a > b) { a > b });
            if kind == 0 {
                up == 2
            } else if kind == 1 {
                down == 2
            } else {
                up != 2 && down != 2
            }
        };
    let parts = vec![if kind == 0 { "▲<■<●" } else if kind == 1 { "▲>■>●" } else { "not(▲<■<●|▲>■>●)" }];
    assert(parts@ =~= seq![if kind == 0 { "▲<■<●" } else if kind == 1 { "▲>■>●" } else { "not(▲<■<●|▲>■>●)" }]);
    let name = label(&parts);
    cons(f, name)
}

/// A named constraint comparing the numbers of even and odd digits: more even (true) or more odd.
fn parity_cons(more_even: bool) -> (r: (String, Constraint))
    ensures
        forall|c: Code| c.wf() ==> #[trigger] r.1.holds(c) == if more_even {
            evens_of(c) > 3 - evens_of(c)
        } else {
            3 - evens_of(c) > evens_of(c)
        },
        r.1.tag() == 0,
        r.0@ == joined(seq![if more_even { "#even>#odd" } else { "#odd>#even" }]),
{
    let f = |c: Code| -> (b: bool)
        ensures
            b == if more_even {
                evens_of(c) > 3 - evens_of(c)
            } else {
                3 - evens_of(c) > evens_of(c)
            },
        {
            let e = count_even(c);
            let o = c.count(|x: Digit| -> (r: bool) ensures r == (x % 2 != 0) { odd(x) });
            if more_even {
                e > o
            } else {
                o > e
            }
        };
    let parts = vec![if more_even { "#even>#odd" } else { "#odd>#even" }];
    assert(parts@ =~= seq![if more_even { "#even>#odd" } else { "#odd>#even" }]);
    let name = label(&parts);
    cons(f, name)
}

/// A named constraint on the number of distinct digits not being two.
fn not_two_distinct() -> (r: (String, Constraint))
    ensures
        forall|c: Code| c.wf() ==> #[trigger] r.1.holds(c) == (distinct_count(c) != 2),
        r.1.tag() == 0,
        r.0@ == joined(seq!["#distinct≠2"]),
{
    cons(|c: Code| -> (b: bool) ensures b == (distinct_count(c) != 2) { c.num_distinct() != 2 },
        {
            let parts = vec!["#distinct≠2"];
            assert(parts@ =~= seq!["#distinct≠2"]);
            label(&parts)
        })
}

/// A named constraint on the parity of the sum of the digits.
fn sum_parity_cons(want_even: bool) -> (r: (String, Constraint))
    ensures
        forall|c: Code| c.wf() ==> #[trigger] r.1.holds(c) == (((c.triangle + c.square + c.circle) % 2 == 0) == want_even),
        r.1.tag() == 0,
        r.0@ == joined(seq![if want_even { "even(▲+■+●)" } else { "odd(▲+■+●)" }]),
{
    let f = |c: Code| -> (b: bool)
        requires
            c.wf(),
        ensures
            b == (((c.triangle + c.square + c.circle) % 2 == 0) == want_even),
        { even(c.sum()) == want_even };
    let parts = vec![if want_even { "even(▲+■+●)" } else { "odd(▲+■+●)" }];
    assert(parts@ =~= seq![if want_even { "even(▲+■+●)" } else { "odd(▲+■+●)" }]);
    let name = label(&parts);
    cons(f, name)
}

/// The primitive constraint `id` of the catalog, with its name.
#[verifier::rlimit(50)]
pub fn constraint_from_id(id: u8) -> (r: (String, Constraint))
    requires
        1 <= id <= 145,
    ensures
        forall|c: Code| c.wf() ==> #[trigger] r.1.holds(c) == law_holds(id as int, c),
        r.1.tag() == 0,
        r.0@ == law_name(id),
{
    if id <= 5 {
        eqv(TRI, id)
    } else if id <= 10 {
        eqv(SQU, id - 5)
    } else if id <= 15 {
        eqv(CIR, id - 10)
    } else if id <= 18 {
        gtv(TRI, id - 15)
    } else if id <= 21 {
        gtv(SQU, id - 18)
    } else if id <= 24 {
        gtv(CIR, id - 21)
    } else if id <= 27 {
        ltv(TRI, id - 22)
    } else if id <= 30 {
        ltv(SQU, id - 25)
    } else if id <= 33 {
        ltv(CIR, id - 28)
    } else if id == 34 {
        evens(TRI)
    } else if id == 35 {
        evens(SQU)
    } else if id == 36 {
        evens(CIR)
    } else if id == 37 {
        odds(TRI)
    } else if id == 38 {
        odds(SQU)
    } else if id == 39 {
        odds(CIR)
    } else if id <= 42 {
        numv(1, id - 40)
    } else if id <= 45 {
        numv(2, id - 43)
    } else if id <= 48 {
        numv(3, id - 46)
    } else if id <= 51 {
        numv(4, id - 49)
    } else if id <= 54 {
        numv(5, id - 52)
    } else if id == 55 {
        sum_parity_cons(true)
    } else if id == 56 {
        sum_parity_cons(false)
    } else if id <= 59 {
        sum_cons(3, id - 54)
    } else if id <= 66 {
        sum_cons(0, id - 54)
    } else if id <= 73 {
        sum_cons(1, id - 61)
    } else if id <= 80 {
        sum_cons(2, id - 68)
    } else if id == 81 {
        not_two_distinct()
    } else if id == 82 {
        num_distinct(2)
    } else if id == 83 {
        num_steps_up(0)
    } else if id == 84 {
        num_steps_up(1)
    } else if id <= 88 {
        num_even(id - 85)
    } else {
        constraint_from_id_high(id)
    }
}

/// The primitive constraints 89 to 145 of the catalog.
#[verifier::rlimit(50)]
fn constraint_from_id_high(id: u8) -> (r: (String, Constraint))
    requires
        89 <= id <= 145,
    ensures
        forall|c: Code| c.wf() ==> #[trigger] r.1.holds(c) == law_holds(id as int, c),
        r.1.tag() == 0,
        r.0@ == law_name(id),
{
    if id == 89 {
        eqs(TRI, SQU)
    } else if id == 90 {
        eqs(TRI, CIR)
    } else if id == 91 {
        eqs(SQU, CIR)
    } else if id == 92 {
        gts(TRI, SQU)
    } else if id == 93 {
        gts(TRI, CIR)
    } else if id == 94 {
        gts(SQU, TRI)
    } else if id == 95 {
        gts(SQU, CIR)
    } else if id == 96 {
        gts(CIR, TRI)
    } else if id == 97 {
        gts(CIR, SQU)
    } else if id <= 102 {
        pair_sum_cons(TRI, SQU, 0, id - 94)
    } else if id <= 107 {
        pair_sum_cons(TRI, CIR, 0, id - 99)
    } else if id <= 112 {
        pair_sum_cons(SQU, CIR, 0, id - 104)
    } else if id == 113 {
        strictly_biggest(TRI)
    } else if id == 114 {
        strictly_biggest(SQU)
    } else if id == 115 {
        strictly_biggest(CIR)
    } else if id == 116 {
        strictly_smallest(TRI)
    } else if id == 117 {
        strictly_smallest(SQU)
    } else if id == 118 {
        strictly_smallest(CIR)
    } else if id <= 121 {
        num_distinct(id - 118)
    } else if id <= 124 {
        num_steps(id - 122)
    } else if id == 125 {
        biggest(TRI)
    } else if id == 126 {
        biggest(SQU)
    } else if id == 127 {
        biggest(CIR)
    } else if id == 128 {
        smallest(TRI)
    } else if id == 129 {
        smallest(SQU)
    } else if id == 130 {
        smallest(CIR)
    } else if id == 131 {
        parity_cons(true)
    } else if id == 132 {
        parity_cons(false)
    } else if id <= 135 {
        order_cons(id - 133)
    } else if id == 136 {
        pair_sum_cons(TRI, SQU, 1, 6)
    } else if id == 137 {
        pair_sum_cons(TRI, SQU, 2, 6)
    } else if id == 138 {
        gtv(SQU, 4)
    } else if id == 139 {
        lts(TRI, SQU)
    } else if id == 140 {
        lts(TRI, CIR)
    } else if id == 141 {
        lts(SQU, CIR)
    } else if id == 142 {
        gtv(TRI, 4)
    } else if id == 143 {
        gtv(CIR, 4)
    } else if id == 144 {
        lts(SQU, TRI)
    } else {
        eqs(SQU, TRI)
    }
}


/// The primitive constraints of card `id`, in order (card 24 is built otherwise).
pub open spec fn card_ids(id: u8) -> Seq<u8> {
    match id {
        1 => seq![1u8, 16u8],
        2 => seq![25u8, 3u8, 18u8],
        3 => seq![28u8, 8u8, 21u8],
        4 => seq![29u8, 9u8, 138u8],
        5 => seq![34u8, 37u8],
        6 => seq![35u8, 38u8],
        7 => seq![36u8, 39u8],
        8 => seq![40u8, 41u8, 42u8],
        9 => seq![46u8, 47u8, 48u8],
        10 => seq![49u8, 50u8, 51u8],
        11 => seq![139u8, 89u8, 92u8],
        12 => seq![140u8, 90u8, 93u8],
        13 => seq![141u8, 91u8, 95u8],
        14 => seq![116u8, 117u8, 118u8],
        15 => seq![113u8, 114u8, 115u8],
        16 => seq![131u8, 132u8],
        17 => seq![85u8, 86u8, 87u8, 88u8],
        18 => seq![55u8, 56u8],
        19 => seq![137u8, 100u8, 136u8],
        20 => seq![119u8, 120u8, 121u8],
        21 => seq![81u8, 82u8],
        22 => seq![133u8, 134u8, 135u8],
        23 => seq![74u8, 60u8, 67u8],
        25 => seq![122u8, 123u8, 124u8],
        26 => seq![25u8, 28u8, 31u8],
        27 => seq![26u8, 29u8, 32u8],
        28 => seq![1u8, 6u8, 11u8],
        29 => seq![3u8, 8u8, 13u8],
        30 => seq![4u8, 9u8, 14u8],
        31 => seq![16u8, 19u8, 22u8],
        32 => seq![18u8, 21u8, 24u8],
        33 => seq![34u8, 37u8, 35u8, 38u8, 36u8, 39u8],
        34 => seq![128u8, 129u8, 130u8],
        35 => seq![125u8, 126u8, 127u8],
        36 => seq![57u8, 58u8, 59u8],
        37 => seq![98u8, 103u8, 108u8],
        38 => seq![100u8, 105u8, 110u8],
        39 => seq![1u8, 16u8, 6u8, 19u8, 11u8, 22u8],
        40 => seq![25u8, 3u8, 18u8, 28u8, 8u8, 21u8, 31u8, 13u8, 24u8],
        41 => seq![26u8, 4u8, 142u8, 29u8, 9u8, 138u8, 32u8, 14u8, 143u8],
        42 => seq![116u8, 113u8, 117u8, 114u8, 118u8, 115u8],
        43 => seq![139u8, 140u8, 89u8, 90u8, 92u8, 93u8],
        44 => seq![144u8, 141u8, 145u8, 91u8, 94u8, 95u8],
        45 => seq![40u8, 41u8, 42u8, 46u8, 47u8, 48u8],
        46 => seq![46u8, 47u8, 48u8, 49u8, 50u8, 51u8],
        47 => seq![40u8, 41u8, 41u8, 49u8, 50u8, 51u8],
        48 => seq![139u8, 89u8, 92u8, 140u8, 90u8, 93u8, 141u8, 91u8, 95u8],
        _ => Seq::empty(),
    }
}

/// Whether constraint `k` of card `id` accepts the valid code `c`.
pub open spec fn card_law(id: u8, k: int, c: Code) -> bool {
    if id == 24 {
        steps_up_of(c) == 2 - k
    } else {
        law_holds(card_ids(id)[k] as int, c)
    }
}

/// Number of constraints on card `id`.
pub open spec fn card_len(id: u8) -> int {
    if id == 24 {
        3
    } else {
        card_ids(id).len() as int
    }
}

/// `card` holds the constraints of card `id` of the catalog, untagged.
pub open spec fn card_matches(card: Seq<Constraint>, id: u8) -> bool {
    &&& card.len() == card_len(id)
    &&& forall|k: int, c: Code| 0 <= k < card.len() && c.wf() ==> #[trigger] card[k].holds(c) == card_law(id, k, c)
    &&& forall|k: int| 0 <= k < card.len() ==> #[trigger] card[k].tag() == 0
}

/// The named constraints `card` carry the names of card `id` of the catalog.
pub open spec fn card_names(card: Seq<(String, Constraint)>, id: u8) -> bool {
    forall|k: int|
        0 <= k < card.len() ==> (#[trigger] card[k]).0@ == if id == 24 {
            joined(seq!["#steps-up=", num_label((2 - k) as u8)])
        } else {
            law_name(card_ids(id)[k])
        }
}

/// The card made of the primitive constraints `ids`, in order.
fn card_from_ids(ids: &Vec<u8>) -> (r: Card)
    requires
        forall|k: int| 0 <= k < ids@.len() ==> 1 <= #[trigger] ids@[k] <= 145,
    ensures
        r.view().len() == ids@.len(),
        forall|k: int, c: Code| 0 <= k < ids@.len() && c.wf() ==> #[trigger] r.view()[k].holds(c) == law_holds(ids@[k] as int, c),
        forall|k: int| 0 <= k < ids@.len() ==> #[trigger] r.view()[k].tag() == 0,
        r.constraints@.len() == ids@.len(),
        forall|k: int| 0 <= k < ids@.len() ==> (#[trigger] r.constraints@[k]).0@ == law_name(ids@[k]),
{
    let mut cs: Vec<(String, Constraint)> = Vec::new();
    let mut i: usize = 0;
    while i < ids.len()
        invariant
            i <= ids@.len(),
            forall|k: int| 0 <= k < ids@.len() ==> 1 <= #[trigger] ids@[k] <= 145,
            cs@.len() == i,
            forall|k: int, c: Code| 0 <= k < i && c.wf() ==> #[trigger] cs@[k].1.holds(c) == law_holds(ids@[k] as int, c),
            forall|k: int| 0 <= k < i ==> #[trigger] cs@[k].1.tag() == 0,
            forall|k: int| 0 <= k < i ==> (#[trigger] cs@[k]).0@ == law_name(ids@[k]),
        decreases ids@.len() - i,
    {
        cs.push(constraint_from_id(ids[i]));
        i = i + 1;
    }
    let card = Card::new(cs);
    proof {
        assert forall|k: int| 0 <= k < ids@.len() implies #[trigger] card.view()[k] == cs@[k].1 by {}
    }
    card
}

/// Card `id` of the catalog.
#[verifier::rlimit(50)]
pub fn card_from_id(id: u8) -> (r: Card)
    requires
        1 <= id <= 48,
    ensures
        card_matches(r.view(), id),
        card_names(r.constraints@, id),
{
    match id {
        1 => card_from_ids(&vec![1, 16]),
        2 => card_from_ids(&vec![25, 3, 18]),
        3 => card_from_ids(&vec![28, 8, 21]),
        4 => card_from_ids(&vec![29, 9, 138]),
        5 => card_from_ids(&vec![34, 37]),
        6 => card_from_ids(&vec![35, 38]),
        7 => card_from_ids(&vec![36, 39]),
        8 => card_from_ids(&vec![40, 41, 42]),
        9 => card_from_ids(&vec![46, 47, 48]),
        10 => card_from_ids(&vec![49, 50, 51]),
        11 => card_from_ids(&vec![139, 89, 92]),
        12 => card_from_ids(&vec![140, 90, 93]),
        13 => card_from_ids(&vec![141, 91, 95]),
        14 => card_from_ids(&vec![116, 117, 118]),
        15 => card_from_ids(&vec![113, 114, 115]),
        16 => card_from_ids(&vec![131, 132]),
        17 => card_from_ids(&vec![85, 86, 87, 88]),
        18 => card_from_ids(&vec![55, 56]),
        19 => card_from_ids(&vec![137, 100, 136]),
        20 => card_from_ids(&vec![119, 120, 121]),
        21 => card_from_ids(&vec![81, 82]),
        22 => card_from_ids(&vec![133, 134, 135]),
        23 => card_from_ids(&vec![74, 60, 67]),
        24 => {
            let card = Card::new(vec![num_steps_up(2), num_steps_up(1), num_steps_up(0)]);
            proof {
                assert(card.view() =~= bare(card.constraints@));
            }
            card
        },
        25 => card_from_ids(&vec![122, 123, 124]),
        26 => card_from_ids(&vec![25, 28, 31]),
        27 => card_from_ids(&vec![26, 29, 32]),
        28 => card_from_ids(&vec![1, 6, 11]),
        29 => card_from_ids(&vec![3, 8, 13]),
        30 => card_from_ids(&vec![4, 9, 14]),
        31 => card_from_ids(&vec![16, 19, 22]),
        32 => card_from_ids(&vec![18, 21, 24]),
        33 => card_from_ids(&vec![34, 37, 35, 38, 36, 39]),
        34 => card_from_ids(&vec![128, 129, 130]),
        35 => card_from_ids(&vec![125, 126, 127]),
        36 => card_from_ids(&vec![57, 58, 59]),
        37 => card_from_ids(&vec![98, 103, 108]),
        38 => card_from_ids(&vec![100, 105, 110]),
        39 => card_from_ids(&vec![1, 16, 6, 19, 11, 22]),
        40 => card_from_ids(&vec![25, 3, 18, 28, 8, 21, 31, 13, 24]),
        41 => card_from_ids(&vec![26, 4, 142, 29, 9, 138, 32, 14, 143]),
        42 => card_from_ids(&vec![116, 113, 117, 114, 118, 115]),
        43 => card_from_ids(&vec![139, 140, 89, 90, 92, 93]),
        44 => card_from_ids(&vec![144, 141, 145, 91, 94, 95]),
        45 => card_from_ids(&vec![40, 41, 42, 46, 47, 48]),
        46 => card_from_ids(&vec![46, 47, 48, 49, 50, 51]),
        47 => card_from_ids(&vec![40, 41, 41, 49, 50, 51]),
        48 => card_from_ids(&vec![139, 89, 92, 140, 90, 93, 141, 91, 95]),
        _ => card_from_ids(&vec![45, 3, 18]),
    }
}

} // verus!
