use vstd::prelude::*;

verus! {

/// A digit of a code, 1 to 5 in a valid code.
pub type Digit = u8;

/// One of the three positions of a code.
#[derive(Clone, Copy, Debug, PartialEq, Eq, Structural)]
pub enum Symbol {
    Triangle,
    Square,
    Circle,
}

impl Symbol {
    /// The three positions, in order.
    pub fn all_symbols() -> (r: Vec<Symbol>)
        ensures
            r@ == seq![Symbol::Triangle, Symbol::Square, Symbol::Circle],
    {
        vec![Symbol::Triangle, Symbol::Square, Symbol::Circle]
    }

    /// The unordered pairs of distinct positions, in lexicographic order.
    pub fn all_combinations() -> (r: Vec<(Symbol, Symbol)>)
        ensures
            r@ == seq![
                (Symbol::Triangle, Symbol::Square),
                (Symbol::Triangle, Symbol::Circle),
                (Symbol::Square, Symbol::Circle),
            ],
    {
        vec![
            (Symbol::Triangle, Symbol::Square),
            (Symbol::Triangle, Symbol::Circle),
            (Symbol::Square, Symbol::Circle),
        ]
    }
}

/// A code: one digit per symbol.
#[derive(Clone, Copy, Debug, PartialEq, Eq, PartialOrd, Ord, Structural)]
pub struct Code {
    pub triangle: Digit,
    pub square: Digit,
    pub circle: Digit,
}

/// Whether `d` is a legal digit.
pub open spec fn is_digit(d: int) -> bool {
    1 <= d <= 5
}

/// The code at position `i` of the lexicographic enumeration.
pub open spec fn code_at(i: int) -> Code {
    Code { triangle: (i / 25 + 1) as u8, square: ((i / 5) % 5 + 1) as u8, circle: (i % 5 + 1) as u8 }
}

/// Number of `true` among three booleans.
pub open spec fn count3(b0: bool, b1: bool, b2: bool) -> int {
    (if b0 { 1int } else { 0 }) + (if b1 { 1int } else { 0 }) + (if b2 { 1int } else { 0 })
}

impl Code {
    /// All three digits are in 1..=5.
    pub open spec fn wf(self) -> bool {
        is_digit(self.triangle as int) && is_digit(self.square as int) && is_digit(self.circle as int)
    }

    /// Dense index of the code in 0..125, lexicographic on (triangle, square, circle).
    pub open spec fn idx(self) -> int {
        25 * (self.triangle - 1) + 5 * (self.square - 1) + (self.circle - 1)
    }

    /// The digit under symbol `s`.
    pub open spec fn at(self, s: Symbol) -> Digit {
        match s {
            Symbol::Triangle => self.triangle,
            Symbol::Square => self.square,
            Symbol::Circle => self.circle,
        }
    }

    pub fn new(triangle: u8, square: u8, circle: u8) -> (r: Code)
        ensures
            r == (Code { triangle, square, circle }),
    {
        Code { triangle, square, circle }
    }

    /// All 125 valid codes, in lexicographic order.
    pub fn all() -> (r: Vec<Code>)
        ensures
            r@.len() == 125,
            forall|i: int| 0 <= i < 125 ==> r@[i] == code_at(i),
    {
        let mut r: Vec<Code> = Vec::new();
        let mut t: u8 = 1;
        while t <= 5
            invariant
                1 <= t <= 6,
                r@.len() == 25 * (t - 1),
                forall|i: int| 0 <= i < r@.len() ==> r@[i] == code_at(i),
            decreases 6 - t,
        {
            let mut s: u8 = 1;
            while s <= 5
                invariant
                    1 <= t <= 5,
                    1 <= s <= 6,
                    r@.len() == 25 * (t - 1) + 5 * (s - 1),
                    forall|i: int| 0 <= i < r@.len() ==> r@[i] == code_at(i),
                decreases 6 - s,
            {
                let mut c: u8 = 1;
                while c <= 5
                    invariant
                        1 <= t <= 5,
                        1 <= s <= 5,
                        1 <= c <= 6,
                        r@.len() == 25 * (t - 1) + 5 * (s - 1) + (c - 1),
                        forall|i: int| 0 <= i < r@.len() ==> r@[i] == code_at(i),
                    decreases 6 - c,
                {
                    proof {
                        let i = 25 * (t - 1) + 5 * (s - 1) + (c - 1);
                        lemma_code_at_idx(Code { triangle: t, square: s, circle: c });
                        assert(code_at(i) == Code { triangle: t, square: s, circle: c });
                    }
                    r.push(Code { triangle: t, square: s, circle: c });
                    c = c + 1;
                }
                s = s + 1;
            }
            t = t + 1;
        }
        r
    }

    /// The dense index of a valid code.
    pub fn index(&self) -> (r: u8)
        requires
            self.wf(),
        ensures
            r as int == self.idx(),
            r < 125,
            code_at(r as int) == *self,
    {
        proof {
            lemma_code_at_idx(*self);
        }
        25 * self.triangle + 5 * self.square + self.circle - 31
    }

    /// The digit under symbol `s`.
    pub fn get(&self, s: Symbol) -> (r: Digit)
        ensures
            r == self.at(s),
    {
        match s {
            Symbol::Triangle => self.triangle,
            Symbol::Square => self.square,
            Symbol::Circle => self.circle,
        }
    }

    /// How many of the three digits satisfy `pred`.
    pub fn count<F: Fn(Digit) -> bool>(&self, pred: F) -> (r: u8)
        requires
            forall|d: Digit| pred.requires((d,)),
        ensures
            exists|b0: bool, b1: bool, b2: bool|
                pred.ensures((self.triangle,), b0) && pred.ensures((self.square,), b1)
                    && pred.ensures((self.circle,), b2) && r as int == count3(b0, b1, b2),
    {
        let b0 = pred(self.triangle);
        let b1 = pred(self.square);
        let b2 = pred(self.circle);
        let r: u8 = (if b0 { 1u8 } else { 0 }) + (if b1 { 1u8 } else { 0 }) + (if b2 { 1u8 } else { 0 });
        assert(pred.ensures((self.triangle,), b0) && pred.ensures((self.square,), b1)
            && pred.ensures((self.circle,), b2) && r as int == count3(b0, b1, b2));
        r
    }

    /// Sum of the three digits.
    pub fn sum(&self) -> (r: u8)
        requires
            self.wf(),
        ensures
            r == self.triangle + self.square + self.circle,
    {
        self.triangle + self.square + self.circle
    }

    /// Number of distinct digits (1, 2 or 3).
    pub fn num_distinct(&self) -> (r: u8)
        ensures
            r == distinct_count(*self),
    {
        if self.triangle == self.square && self.square == self.circle {
            1
        } else if self.triangle == self.square || self.square == self.circle || self.triangle == self.circle {
            2
        } else {
            3
        }
    }

    /// How many of the two adjacent pairs (triangle, square) and (square, circle) satisfy `f`.
    pub fn count_adj<F: Fn(Digit, Digit) -> bool>(&self, f: F) -> (r: u8)
        requires
            forall|a: Digit, b: Digit| f.requires((a, b)),
        ensures
            exists|b0: bool, b1: bool|
                f.ensures((self.triangle, self.square), b0) && f.ensures((self.square, self.circle), b1)
                    && r as int == count3(b0, b1, false),
    {
        let b0 = f(self.triangle, self.square);
        let b1 = f(self.square, self.circle);
        let r: u8 = (if b0 { 1u8 } else { 0 }) + (if b1 { 1u8 } else { 0 });
        assert(f.ensures((self.triangle, self.square), b0) && f.ensures((self.square, self.circle), b1)
            && r as int == count3(b0, b1, false));
        r
    }
}

/// Number of distinct digits of a code.
pub open spec fn distinct_count(c: Code) -> u8 {
    if c.triangle == c.square && c.square == c.circle {
        1
    } else if c.triangle == c.square || c.square == c.circle || c.triangle == c.circle {
        2
    } else {
        3
    }
}

/// The index of a valid code is in range, and the enumeration maps it back to the code.
pub proof fn lemma_code_at_idx(c: Code)
    requires
        c.wf(),
    ensures
        0 <= c.idx() < 125,
        code_at(c.idx()) == c,
{
    let i = c.idx();
    let t = c.triangle as int;
    let s = c.square as int;
    let k = c.circle as int;
    assert(i / 25 == t - 1 && (i / 5) % 5 == s - 1 && i % 5 == k - 1) by (nonlinear_arith)
        requires
            i == 25 * (t - 1) + 5 * (s - 1) + (k - 1),
            1 <= t <= 5,
            1 <= s <= 5,
            1 <= k <= 5,
    ;
}

/// Every index in 0..125 names a valid code whose index it is.
pub proof fn lemma_idx_code_at(i: int)
    requires
        0 <= i < 125,
    ensures
        code_at(i).wf(),
        code_at(i).idx() == i,
{
    assert(25 * (i / 25) + 5 * ((i / 5) % 5) + i % 5 == i && 0 <= i / 25 < 5) by (nonlinear_arith)
        requires
            0 <= i < 125,
    ;
}

} // verus!
