use vstd::prelude::*;
use crate::code::{Code, code_at, lemma_code_at_idx, lemma_idx_code_at};

verus! {

/// The low 125 bits: one membership bit per code.
pub const MEMBERS: u128 = 0x1fff_ffff_ffff_ffff_ffff_ffff_ffff_ffff;

/// A set of codes, one bit per code index (bits 0..125), with a group tag in the top three bits.
#[derive(Clone, Copy, Debug)]
pub struct Constraint {
    pub value: u128,
}

/// Bit `i` of `v`.
pub open spec fn bit(v: u128, i: int) -> bool {
    (v >> (i as u128)) & 1 == 1
}

/// Number of set bits of `v` among bits 0..n.
pub open spec fn count_bits(v: u128, n: int) -> nat
    decreases n,
{
    if n <= 0 {
        0
    } else {
        count_bits(v, n - 1) + if bit(v, n - 1) { 1nat } else { 0 }
    }
}

/// The accepted codes among the first `n` of the enumeration, in order.
pub open spec fn accepted_upto(v: u128, n: int) -> Seq<Code>
    decreases n,
{
    if n <= 0 {
        Seq::empty()
    } else if bit(v, n - 1) {
        accepted_upto(v, n - 1).push(code_at(n - 1))
    } else {
        accepted_upto(v, n - 1)
    }
}

/// Intersection of `cs[0..n]`, leaving out position `skip` (pass -1 to leave out nothing).
pub open spec fn meet_skip(cs: Seq<Constraint>, skip: int, n: int) -> Constraint
    decreases n,
{
    if n <= 0 {
        Constraint { value: !0u128 }
    } else if n - 1 == skip {
        meet_skip(cs, skip, n - 1)
    } else {
        Constraint { value: meet_skip(cs, skip, n - 1).value & cs[n - 1].value }
    }
}

/// Intersection of all constraints of `cs`; the top constraint when `cs` is empty.
pub open spec fn inter_of(cs: Seq<Constraint>) -> Constraint {
    meet_skip(cs, -1, cs.len() as int)
}

impl Constraint {
    /// Whether the code of index `i` belongs to the set.
    pub open spec fn has(self, i: int) -> bool {
        bit(self.value, i)
    }

    /// Whether a valid code belongs to the set.
    pub open spec fn holds(self, c: Code) -> bool {
        self.has(c.idx())
    }

    /// The group tag.
    pub open spec fn tag(self) -> u8 {
        (self.value >> 125u128) as u8
    }

    /// Number of accepted codes.
    pub open spec fn size(self) -> nat {
        count_bits(self.value, 125)
    }

    /// The accepted codes, in lexicographic order.
    pub open spec fn members(self) -> Seq<Code> {
        accepted_upto(self.value, 125)
    }

    /// Every code that `other` accepts, `self` accepts too.
    pub open spec fn contains(self, other: Constraint) -> bool {
        self.value & (other.value & MEMBERS) == other.value & MEMBERS
    }

    /// The top constraint: accepts every code.
    pub fn none() -> (r: Constraint)
        ensures
            r.value == !0u128,
            forall|i: int| 0 <= i < 125 ==> r.has(i),
    {
        proof {
            assert forall|i: int| 0 <= i < 125 implies bit(!0u128, i) by {
                lemma_bit_all_ones(i as u128);
            }
        }
        Constraint { value: !0u128 }
    }

    /// Intersection of two constraints.
    pub fn intersect(&self, other: &Constraint) -> (r: Constraint)
        ensures
            r.value == self.value & other.value,
            forall|i: int| 0 <= i < 128 ==> (r.has(i) == (self.has(i) && other.has(i))),
    {
        proof {
            assert forall|i: int| 0 <= i < 128 implies (bit(self.value & other.value, i) == (bit(
                self.value,
                i,
            ) && bit(other.value, i))) by {
                lemma_bit_and(self.value, other.value, i as u128);
            }
        }
        Constraint { value: self.value & other.value }
    }

    /// Intersection of all constraints of `cs`, starting from the top constraint.
    pub fn inter(cs: &Vec<Constraint>) -> (r: Constraint)
        ensures
            r == inter_of(cs@),
    {
        Self::inter_skipping(cs, cs.len())
    }

    /// Intersection of all constraints of `cs` but the one at position `skip`.
    pub fn inter_skipping(cs: &Vec<Constraint>, skip: usize) -> (r: Constraint)
        ensures
            r == meet_skip(cs@, if skip < cs@.len() { skip as int } else { -1 }, cs@.len() as int),
    {
        let ghost sk: int = if skip < cs@.len() { skip as int } else { -1 };
        let mut acc: u128 = !0u128;
        let mut j: usize = 0;
        while j < cs.len()
            invariant
                j <= cs@.len(),
                sk == if skip < cs@.len() { skip as int } else { -1 },
                acc == meet_skip(cs@, sk, j as int).value,
            decreases cs@.len() - j,
        {
            if j != skip {
                acc = acc & cs[j].value;
            }
            j = j + 1;
        }
        Constraint { value: acc }
    }

    /// Whether every code accepted by `other` is accepted by `self` (group tags ignored).
    pub fn is_superset_of(&self, other: &Constraint) -> (r: bool)
        ensures
            r == self.contains(*other),
    {
        let v = other.value & MEMBERS;
        self.value & v == v
    }

    /// The constraint accepting exactly the codes on which `f` returns true, with group tag 0.
    pub fn new<F: Fn(Code) -> bool>(f: F) -> (r: Constraint)
        requires
            forall|c: Code| c.wf() ==> f.requires((c,)),
        ensures
            forall|i: int| 0 <= i < 125 ==> f.ensures((code_at(i),), #[trigger] r.has(i)),
            forall|c: Code| c.wf() ==> f.ensures((c,), #[trigger] r.holds(c)),
            r.tag() == 0,
            r.value < (1u128 << 125u128),
    {
        let codes = Code::all();
        let mut value: u128 = 0;
        let mut i: usize = 0;
        assert(0u128 < (1u128 << 0u128)) by (bit_vector);
        while i < 125
            invariant
                i <= 125,
                codes@.len() == 125,
                forall|k: int| 0 <= k < 125 ==> codes@[k] == code_at(k),
                forall|c: Code| c.wf() ==> f.requires((c,)),
                value < (1u128 << (i as u128)),
                forall|k: int| 0 <= k < i ==> f.ensures((code_at(k),), #[trigger] bit(value, k)),
            decreases 125 - i,
        {
            proof {
                lemma_idx_code_at(i as int);
            }
            let b = f(codes[i]);
            let ghost old_value = value;
            if b {
                value = value | (1u128 << (i as u128));
            }
            proof {
                lemma_set_bit_range(old_value, i as u128, b);
                assert forall|k: int| 0 <= k <= i implies f.ensures((code_at(k),), #[trigger] bit(value, k)) by {
                    lemma_set_bit(old_value, i as u128, k as u128, b);
                    if k == i {
                        assert(codes@[i as int] == code_at(i as int));
                    } else {
                        assert(f.ensures((code_at(k),), bit(old_value, k)));
                    }
                }
            }
            i = i + 1;
        }
        proof {
            lemma_below_125(value);
            assert forall|c: Code| c.wf() implies f.ensures((c,), #[trigger] bit(value, c.idx())) by {
                lemma_code_at_idx(c);
            }
        }
        Constraint { value }
    }

    /// The same set of codes, with group tag `group`.
    pub fn with_group(&self, group: u8) -> (r: Constraint)
        requires
            group < 8,
        ensures
            r.value == (self.value & MEMBERS) | ((group as u128) << 125u128),
            r.tag() == group,
            forall|i: int| 0 <= i < 125 ==> r.has(i) == self.has(i),
            r.contains(*self) && self.contains(r),
            r.size() == self.size(),
            r.members() == self.members(),
    {
        let r = Constraint { value: (self.value & MEMBERS) | ((group as u128) << 125u128) };
        proof {
            lemma_with_group(self.value, group as u128);
            assert forall|i: int| 0 <= i < 125 implies bit(r.value, i) == bit(self.value, i) by {
                lemma_with_group_bit(self.value, group as u128, i as u128);
            }
            lemma_same_bits(r.value, self.value, 125);
        }
        r
    }

    /// The group tag.
    pub fn group(&self) -> (r: u8)
        ensures
            r == self.tag(),
    {
        (self.value >> 125u128) as u8
    }

    /// Whether the constraint accepts a valid code.
    pub fn accepts(&self, code: Code) -> (r: bool)
        requires
            code.wf(),
        ensures
            r == self.holds(code),
    {
        let i = code.index();
        (self.value >> (i as u128)) & 1 == 1
    }

    /// Number of accepted codes (group tag ignored).
    pub fn num_solutions(&self) -> (r: u32)
        ensures
            r as nat == self.size(),
            r <= 128,
    {
        let m = self.value & MEMBERS;
        proof {
            assert forall|i: int| 0 <= i < 125 implies bit(m, i) == bit(self.value, i) by {
                lemma_members_bit(self.value, i as u128);
            }
            lemma_same_bits(m, self.value, 125);
            lemma_members_top(self.value);
            assert(count_bits(m, 126) == count_bits(m, 125));
            assert(count_bits(m, 127) == count_bits(m, 126));
            assert(count_bits(m, 128) == count_bits(m, 127));
            lemma_count_bits_bound(m, 128);
        }
        ones(m)
    }

    /// Whether exactly one code is accepted.
    pub fn has_unique_solution(&self) -> (r: bool)
        ensures
            r == (self.size() == 1),
    {
        self.num_solutions() == 1
    }

    /// The accepted codes, in lexicographic order.
    pub fn solutions(&self) -> (r: Vec<Code>)
        ensures
            r@ == self.members(),
            r@.len() == self.size(),
    {
        let codes = Code::all();
        let mut r: Vec<Code> = Vec::new();
        let mut i: usize = 0;
        while i < 125
            invariant
                i <= 125,
                codes@.len() == 125,
                forall|k: int| 0 <= k < 125 ==> codes@[k] == code_at(k),
                r@ == accepted_upto(self.value, i as int),
                r@.len() == count_bits(self.value, i as int),
            decreases 125 - i,
        {
            if (self.value >> (i as u128)) & 1 == 1 {
                r.push(codes[i]);
            }
            i = i + 1;
        }
        r
    }

    /// The accepted code, when there is exactly one.
    pub fn solution(&self) -> (r: Option<Code>)
        ensures
            r == (if self.size() == 1 { Some(self.members()[0]) } else { None::<Code> }),
            r is Some ==> r->0.wf() && self.holds(r->0),
    {
        let sols = self.solutions();
        if sols.len() == 1 {
            proof {
                lemma_members_valid(self.value, 125);
            }
            Some(sols[0])
        } else {
            None
        }
    }
}

/// Every listed member is a valid code that the bits accept.
pub proof fn lemma_members_valid(v: u128, n: int)
    requires
        0 <= n <= 125,
    ensures
        forall|k: int|
            0 <= k < accepted_upto(v, n).len() ==> (#[trigger] accepted_upto(v, n)[k]).wf() && bit(
                v,
                accepted_upto(v, n)[k].idx(),
            ),
    decreases n,
{
    if n > 0 {
        lemma_members_valid(v, n - 1);
        lemma_idx_code_at(n - 1);
        let s = accepted_upto(v, n - 1);
        if bit(v, n - 1) {
            assert forall|k: int| 0 <= k < s.len() + 1 implies (#[trigger] s.push(code_at(n - 1))[k]).wf() && bit(
                v,
                s.push(code_at(n - 1))[k].idx(),
            ) by {
                if k < s.len() {
                    assert(s.push(code_at(n - 1))[k] == s[k]);
                }
            }
        }
    }
}

/// As many members are listed as bits are set.
pub proof fn lemma_members_len(v: u128, n: int)
    requires
        0 <= n,
    ensures
        accepted_upto(v, n).len() == count_bits(v, n),
    decreases n,
{
    if n > 0 {
        lemma_members_len(v, n - 1);
    }
}

/// Relies on u128::count_ones: the number of one bits of `v`.
#[verifier::external_body]
fn ones(v: u128) -> (r: u32)
    ensures
        r as nat == count_bits(v, 128),
{
    v.count_ones()
}

proof fn lemma_count_bits_bound(v: u128, n: int)
    requires
        0 <= n,
    ensures
        count_bits(v, n) <= n,
    decreases n,
{
    if n > 0 {
        lemma_count_bits_bound(v, n - 1);
    }
}

proof fn lemma_members_bit(v: u128, i: u128)
    requires
        i < 125,
    ensures
        (((v & MEMBERS) >> i) & 1 == 1) == ((v >> i) & 1 == 1),
{
    assert((((v & 0x1fff_ffff_ffff_ffff_ffff_ffff_ffff_ffffu128) >> i) & 1 == 1) == ((v >> i) & 1 == 1))
        by (bit_vector)
        requires
            i < 125,
    ;
}

proof fn lemma_members_top(v: u128)
    ensures
        !bit(v & MEMBERS, 125),
        !bit(v & MEMBERS, 126),
        !bit(v & MEMBERS, 127),
{
    assert(((v & 0x1fff_ffff_ffff_ffff_ffff_ffff_ffff_ffffu128) >> 125u128) & 1 == 0
        && ((v & 0x1fff_ffff_ffff_ffff_ffff_ffff_ffff_ffffu128) >> 126u128) & 1 == 0
        && ((v & 0x1fff_ffff_ffff_ffff_ffff_ffff_ffff_ffffu128) >> 127u128) & 1 == 0) by (bit_vector);
}

/// Two values agreeing on bits 0..n have the same count and members there.
pub proof fn lemma_same_bits(a: u128, b: u128, n: int)
    requires
        0 <= n <= 125,
        forall|i: int| 0 <= i < n ==> bit(a, i) == bit(b, i),
    ensures
        count_bits(a, n) == count_bits(b, n),
        accepted_upto(a, n) == accepted_upto(b, n),
    decreases n,
{
    if n > 0 {
        lemma_same_bits(a, b, n - 1);
    }
}

proof fn lemma_bit_all_ones(i: u128)
    requires
        i < 128,
    ensures
        (!0u128 >> i) & 1 == 1,
{
    assert((!0u128 >> i) & 1 == 1) by (bit_vector)
        requires
            i < 128,
    ;
}

pub proof fn lemma_bit_and(a: u128, b: u128, i: u128)
    requires
        i < 128,
    ensures
        (((a & b) >> i) & 1 == 1) == (((a >> i) & 1 == 1) && ((b >> i) & 1 == 1)),
{
    assert((((a & b) >> i) & 1 == 1) == (((a >> i) & 1 == 1) && ((b >> i) & 1 == 1))) by (bit_vector)
        requires
            i < 128,
    ;
}

proof fn lemma_set_bit_range(v: u128, i: u128, b: bool)
    requires
        i < 125,
        v < (1u128 << i),
    ensures
        (if b { v | (1u128 << i) } else { v }) < (1u128 << (i + 1)),
{
    assert(v < (1u128 << i) ==> v < (1u128 << (i + 1)) && (v | (1u128 << i)) < (1u128 << (i + 1))) by (bit_vector)
        requires
            i < 125,
    ;
}

proof fn lemma_set_bit(v: u128, i: u128, k: u128, b: bool)
    requires
        i < 125,
        k <= i,
        v < (1u128 << i),
    ensures
        k < i ==> (((if b { v | (1u128 << i) } else { v }) >> k) & 1 == 1) == ((v >> k) & 1 == 1),
        k == i ==> (((if b { v | (1u128 << i) } else { v }) >> k) & 1 == 1) == b,
{
    assert(k < i ==> (((v | (1u128 << i)) >> k) & 1 == 1) == ((v >> k) & 1 == 1)) by (bit_vector)
        requires
            i < 125,
            k <= i,
    ;
    assert(((v | (1u128 << i)) >> i) & 1 == 1) by (bit_vector)
        requires
            i < 125,
    ;
    assert(v < (1u128 << i) ==> (v >> i) & 1 == 0) by (bit_vector)
        requires
            i < 125,
    ;
}

proof fn lemma_below_125(v: u128)
    requires
        v < (1u128 << 125u128),
    ensures
        (v >> 125u128) as u8 == 0,
{
    assert(v < (1u128 << 125u128) ==> (v >> 125u128) == 0) by (bit_vector);
}

proof fn lemma_with_group(v: u128, g: u128)
    requires
        g < 8,
    ensures
        ((((v & MEMBERS) | (g << 125u128)) >> 125u128) as u8) == g as u8,
        (v & MEMBERS) & (((v & MEMBERS) | (g << 125u128)) & MEMBERS) == ((v & MEMBERS) | (g << 125u128)) & MEMBERS,
        ((v & MEMBERS) | (g << 125u128)) & (v & MEMBERS) == v & MEMBERS,
        v & (((v & MEMBERS) | (g << 125u128)) & MEMBERS) == ((v & MEMBERS) | (g << 125u128)) & MEMBERS,
        ((v & MEMBERS) | (g << 125u128)) & MEMBERS == v & MEMBERS,
{
    assert(((((v & 0x1fff_ffff_ffff_ffff_ffff_ffff_ffff_ffffu128) | (g << 125u128)) >> 125u128)) == g
        && ((v & 0x1fff_ffff_ffff_ffff_ffff_ffff_ffff_ffffu128) | (g << 125u128))
        & 0x1fff_ffff_ffff_ffff_ffff_ffff_ffff_ffffu128 == v & 0x1fff_ffff_ffff_ffff_ffff_ffff_ffff_ffffu128)
        by (bit_vector)
        requires
            g < 8,
    ;
    assert(v & (v & 0x1fff_ffff_ffff_ffff_ffff_ffff_ffff_ffffu128) == v & 0x1fff_ffff_ffff_ffff_ffff_ffff_ffff_ffffu128
        && (v & 0x1fff_ffff_ffff_ffff_ffff_ffff_ffff_ffffu128) & (v & 0x1fff_ffff_ffff_ffff_ffff_ffff_ffff_ffffu128)
        == v & 0x1fff_ffff_ffff_ffff_ffff_ffff_ffff_ffffu128) by (bit_vector);
    assert(((v & 0x1fff_ffff_ffff_ffff_ffff_ffff_ffff_ffffu128) | (g << 125u128)) & (v
        & 0x1fff_ffff_ffff_ffff_ffff_ffff_ffff_ffffu128) == v & 0x1fff_ffff_ffff_ffff_ffff_ffff_ffff_ffffu128)
        by (bit_vector);
}

proof fn lemma_with_group_bit(v: u128, g: u128, i: u128)
    requires
        g < 8,
        i < 125,
    ensures
        ((((v & MEMBERS) | (g << 125u128)) >> i) & 1 == 1) == ((v >> i) & 1 == 1),
{
    assert(((((v & 0x1fff_ffff_ffff_ffff_ffff_ffff_ffff_ffffu128) | (g << 125u128)) >> i) & 1 == 1) == ((v >> i) & 1 == 1))
        by (bit_vector)
        requires
            g < 8,
            i < 125,
    ;
}

/// A code accepted by the intersection of `cs[0..n]` is accepted by each of them.
proof fn lemma_meet_bit(cs: Seq<Constraint>, n: int, i: int)
    requires
        0 <= n <= cs.len(),
        0 <= i < 125,
        bit(meet_skip(cs, -1, n).value, i),
    ensures
        forall|k: int| 0 <= k < n ==> #[trigger] cs[k].has(i),
    decreases n,
{
    if n > 0 {
        lemma_bit_and(meet_skip(cs, -1, n - 1).value, cs[n - 1].value, i as u128);
        lemma_meet_bit(cs, n - 1, i);
    }
}

/// Sequences whose constraints accept the same codes, position by position, have
/// intersections accepting the same codes.
pub proof fn lemma_meet_same(cs: Seq<Constraint>, fs: Seq<Constraint>, n: int)
    requires
        0 <= n <= cs.len(),
        cs.len() == fs.len(),
        forall|k: int, i: int| 0 <= k < cs.len() && 0 <= i < 125 ==> #[trigger] cs[k].has(i) == fs[k].has(i),
    ensures
        forall|i: int| 0 <= i < 125 ==> #[trigger] bit(meet_skip(cs, -1, n).value, i) == bit(meet_skip(fs, -1, n).value, i),
    decreases n,
{
    if n > 0 {
        lemma_meet_same(cs, fs, n - 1);
        assert forall|i: int| 0 <= i < 125 implies #[trigger] bit(meet_skip(cs, -1, n).value, i) == bit(
            meet_skip(fs, -1, n).value,
            i,
        ) by {
            assert(meet_skip(cs, -1, n).value == meet_skip(cs, -1, n - 1).value & cs[n - 1].value);
            assert(meet_skip(fs, -1, n).value == meet_skip(fs, -1, n - 1).value & fs[n - 1].value);
            lemma_bit_and(meet_skip(cs, -1, n - 1).value, cs[n - 1].value, i as u128);
            lemma_bit_and(meet_skip(fs, -1, n - 1).value, fs[n - 1].value, i as u128);
            assert(cs[n - 1].has(i) == fs[n - 1].has(i));
            assert(bit(meet_skip(cs, -1, n - 1).value, i) == bit(meet_skip(fs, -1, n - 1).value, i));
        }
    }
}

/// Round trip: when the intersection of chosen constraints accepts exactly one code, that code
/// is valid and each chosen constraint accepts it.
pub proof fn lemma_unique_solution_accepted(cs: Seq<Constraint>)
    requires
        inter_of(cs).size() == 1,
    ensures
        inter_of(cs).members().len() == 1,
        inter_of(cs).members()[0].wf(),
        forall|k: int| 0 <= k < cs.len() ==> #[trigger] cs[k].holds(inter_of(cs).members()[0]),
{
    let v = inter_of(cs).value;
    lemma_members_len(v, 125);
    lemma_members_valid(v, 125);
    let c = inter_of(cs).members()[0];
    lemma_meet_bit(cs, cs.len() as int, c.idx());
}

/// The intersection of two constraints accepts a code exactly when both do.
pub proof fn lemma_inter_pair(a: Constraint, b: Constraint, c: Code)
    requires
        c.wf(),
    ensures
        inter_of(seq![a, b]).holds(c) == (a.holds(c) && b.holds(c)),
{
    lemma_code_at_idx(c);
    let s = seq![a, b];
    assert(s[0] == a && s[1] == b);
    assert(meet_skip(s, -1, 0).value == !0u128);
    assert(meet_skip(s, -1, 1).value == !0u128 & a.value);
    assert(meet_skip(s, -1, 2).value == (!0u128 & a.value) & b.value);
    lemma_bit_and(!0u128, a.value, c.idx() as u128);
    lemma_bit_all_ones(c.idx() as u128);
    lemma_bit_and(!0u128 & a.value, b.value, c.idx() as u128);
}

} // verus!
