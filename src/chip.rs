//! The Poseidon permutation as a gadget of constraint rows: each row holds the
//! cells and the selector values of one instance of the constraint
//! `sum_i q_1[i]*s[i] + sum_i q_5[i]*s[i]^5 + rc + q_i*input + q_o*out = 0`,
//! and the cell `out` carries one slot of the next state.
use crate::field::{
    Fe, fe_add, fe_minus_one, fe_mul, fe_pow5, fe_zero, field_add, field_invert, field_mul,
    field_neg, lemma_add_val, lemma_minus_one, lemma_mul_val, lemma_pow5_val, lemma_val_determines,
    modulus, pow5, pow5_int,
};
use crate::input::rows_view;
use crate::poseidon::{
    PoseidonSpec, add_vec, dot, full_round, partial_round, pre_round, sbox_full,
    sparse_mix,
};
use vstd::prelude::*;

verus! {

/// `a[0] * b[0] + ... + a[n-1] * b[n-1]` over the integers.
pub open spec fn isum(a: Seq<Fe>, b: Seq<Fe>, n: nat) -> int
    decreases n,
{
    if n == 0 {
        0
    } else {
        isum(a, b, (n - 1) as nat) + a[n - 1].val() * b[n - 1].val()
    }
}

/// `q[0] * s[0]^5 + ... + q[n-1] * s[n-1]^5` over the integers.
pub open spec fn isum_pow5(q: Seq<Fe>, s: Seq<Fe>, n: nat) -> int
    decreases n,
{
    if n == 0 {
        0
    } else {
        isum_pow5(q, s, (n - 1) as nat) + q[n - 1].val() * pow5_int(s[n - 1].val())
    }
}

/// The linear and quintic terms of the constraint.
pub open spec fn gate_terms(s: Seq<Fe>, q_1: Seq<Fe>, q_5: Seq<Fe>) -> int {
    isum(q_1, s, s.len()) + isum_pow5(q_5, s, s.len())
}

/// One row of the constraint.
#[derive(Clone, Debug)]
pub struct GateRow {
    pub state: Vec<Fe>,
    pub input: Fe,
    pub out: Fe,
    pub q_1: Vec<Fe>,
    pub q_5: Vec<Fe>,
    pub q_i: Fe,
    pub q_o: Fe,
    pub rc: Fe,
}

impl GateRow {
    /// The row satisfies the constraint.
    pub open spec fn satisfied(&self) -> bool {
        &&& self.q_1@.len() == self.state@.len()
        &&& self.q_5@.len() == self.state@.len()
        &&& (gate_terms(self.state@, self.q_1@, self.q_5@) + self.rc.val() + self.q_i.val()
            * self.input.val() + self.q_o.val() * self.out.val()) % modulus() == 0
    }
}

/// The rows assigned so far in one region of the circuit.
#[derive(Clone, Debug)]
pub struct RegionCtx {
    pub rows: Vec<GateRow>,
}

impl RegionCtx {
    pub open spec fn all_satisfied(&self) -> bool {
        forall|i: int| 0 <= i < self.rows@.len() ==> (#[trigger] self.rows@[i]).satisfied()
    }

    pub fn new() -> (r: RegionCtx)
        ensures
            r.rows@.len() == 0,
    {
        RegionCtx { rows: Vec::new() }
    }

    /// The number of rows assigned.
    pub fn offset(&self) -> (r: usize)
        ensures
            r == self.rows@.len(),
    {
        self.rows.len()
    }

    /// Moves the cursor to `offset`: rows from there on are dropped, and rows
    /// up to there that were never assigned are blank.
    pub fn reset(&mut self, offset: usize)
        ensures
            final(self).rows@.len() == offset,
            forall|i: int|
                0 <= i < offset && i < old(self).rows@.len() ==> #[trigger] final(self).rows@[i]
                    == old(self).rows@[i],
            forall|i: int|
                old(self).rows@.len() <= i < offset ==> (#[trigger] final(self).rows@[i]).is_blank(),
    {
        if offset < self.rows.len() {
            self.rows.truncate(offset);
        }
        let ghost kept = self.rows@;
        while self.rows.len() < offset
            invariant
                self.rows@.len() <= offset,
                kept.len() <= self.rows@.len(),
                kept.len() == if offset < old(self).rows@.len() {
                    offset as int
                } else {
                    old(self).rows@.len() as int
                },
                forall|i: int| 0 <= i < kept.len() ==> #[trigger] self.rows@[i] == old(self).rows@[i],
                forall|i: int| kept.len() <= i < self.rows@.len() ==> (#[trigger] self.rows@[i]).is_blank(),
            decreases offset - self.rows@.len(),
        {
            self.rows.push(GateRow::blank());
        }
    }
}

impl GateRow {
    /// A row that was never assigned: every cell and selector is zero.
    pub open spec fn is_blank(&self) -> bool {
        &&& self.state@.len() == 0
        &&& self.q_1@.len() == 0
        &&& self.q_5@.len() == 0
        &&& self.input == fe_zero()
        &&& self.out == fe_zero()
        &&& self.q_i == fe_zero()
        &&& self.q_o == fe_zero()
        &&& self.rc == fe_zero()
    }

    pub fn blank() -> (r: GateRow)
        ensures
            r.is_blank(),
            r.satisfied(),
    {
        let r = GateRow {
            state: Vec::new(),
            input: Fe::zero(),
            out: Fe::zero(),
            q_1: Vec::new(),
            q_5: Vec::new(),
            q_i: Fe::zero(),
            q_o: Fe::zero(),
            rc: Fe::zero(),
        };
        proof {
            assert(fe_zero().val() == 0);
            vstd::arithmetic::mul::lemma_mul_basics(0);
            assert(gate_terms(r.state@, r.q_1@, r.q_5@) == 0);
        }
        r
    }
}

proof fn lemma_mod_add(a: int, b: int)
    ensures
        ((a % modulus()) + (b % modulus())) % modulus() == (a + b) % modulus(),
        ((a % modulus()) + b) % modulus() == (a + b) % modulus(),
        (a + (b % modulus())) % modulus() == (a + b) % modulus(),
{
    vstd::arithmetic::div_mod::lemma_add_mod_noop(a, b, modulus());
    vstd::arithmetic::div_mod::lemma_add_mod_noop_right(a, b, modulus());
    vstd::arithmetic::div_mod::lemma_add_mod_noop(a, b % modulus(), modulus());
    vstd::arithmetic::div_mod::lemma_mod_twice(b, modulus());
    vstd::arithmetic::div_mod::lemma_add_mod_noop_right(b, a, modulus());
}

proof fn lemma_mod_mul(a: int, b: int)
    ensures
        ((a % modulus()) * b) % modulus() == (a * b) % modulus(),
        (a * (b % modulus())) % modulus() == (a * b) % modulus(),
{
    vstd::arithmetic::div_mod::lemma_mul_mod_noop_general(a, b, modulus());
}

/// When `i` inverts `-q`, the constraint with output `a * i` is satisfied by `a`.
proof fn lemma_gate_inverse(a: int, q: int, i: int)
    requires
        q % modulus() != 0,
        ((modulus() - q % modulus()) % modulus() * i) % modulus() == 1,
    ensures
        (a + q * ((a * i) % modulus())) % modulus() == 0,
{
    let p = modulus();
    let qm = q % p;
    vstd::arithmetic::div_mod::lemma_mod_bound(q, p);
    vstd::arithmetic::div_mod::lemma_small_mod((p - qm) as nat, p as nat);
    assert((p - qm) * i == p * i + (-qm * i)) by (nonlinear_arith);
    vstd::arithmetic::div_mod::lemma_mod_multiples_vanish(i, -qm * i, p);
    let k = (-qm * i) / p;
    vstd::arithmetic::div_mod::lemma_fundamental_div_mod(-qm * i, p);
    assert(1 + qm * i == -k * p) by (nonlinear_arith)
        requires
            -qm * i == p * k + 1,
    ;
    lemma_mod_mul(q, a * i);
    lemma_mod_mul(a * i, q);
    assert(q * ((a * i) % p) % p == (qm * (a * i)) % p) by {
        lemma_mod_mul(q, (a * i));
        assert(q * ((a * i) % p) % p == (q * (a * i)) % p);
        assert((q * (a * i)) % p == ((q % p) * (a * i)) % p);
    }
    lemma_mod_add(a, q * ((a * i) % p));
    lemma_mod_add(a, qm * (a * i));
    assert(a + qm * (a * i) == a * (1 + qm * i)) by (nonlinear_arith);
    assert(a * (1 + qm * i) == (-a * k) * p) by (nonlinear_arith)
        requires
            1 + qm * i == -k * p,
    ;
    vstd::arithmetic::div_mod::lemma_mod_multiples_basic(-a * k, p);
}

/// `init + sum_j (s[j]^5 * q_5[j] + s[j] * q_1[j])`, summed from the left.
pub fn gate_sum(state: &Vec<Fe>, q_1: &Vec<Fe>, q_5: &Vec<Fe>, init: Fe) -> (r: Fe)
    requires
        q_1@.len() == state@.len(),
        q_5@.len() == state@.len(),
    ensures
        r.val() % modulus() == (init.val() + isum(q_1@, state@, state@.len()) + isum_pow5(
            q_5@,
            state@,
            state@.len(),
        )) % modulus(),
        state@.len() > 0 ==> r.wf(),
        state@.len() == 0 ==> r == init,
{
    let mut out = init;
    let mut j: usize = 0;
    while j < state.len()
        invariant
            j <= state@.len(),
            q_1@.len() == state@.len(),
            q_5@.len() == state@.len(),
            j > 0 ==> out.wf(),
            j == 0 ==> out == init,
            out.val() % modulus() == (init.val() + isum(q_1@, state@, j as nat) + isum_pow5(
                q_5@,
                state@,
                j as nat,
            )) % modulus(),
        decreases state@.len() - j,
    {
        let s = state[j];
        let p5 = pow5(s);
        let t1 = field_mul(p5, q_5[j]);
        let a1 = field_add(out, t1);
        let t2 = field_mul(s, q_1[j]);
        let ghost old_out = out;
        out = field_add(a1, t2);
        proof {
            let m = modulus();
            let base = init.val() + isum(q_1@, state@, j as nat) + isum_pow5(q_5@, state@, j as nat);
            let pw = q_5@[j as int].val() * pow5_int(s.val());
            let ln = q_1@[j as int].val() * s.val();
            lemma_pow5_val(s);
            lemma_mul_val(p5, q_5@[j as int]);
            lemma_mul_val(s, q_1@[j as int]);
            lemma_add_val(old_out, t1);
            lemma_add_val(a1, t2);
            vstd::arithmetic::mul::lemma_mul_is_commutative(pow5_int(s.val()), q_5@[j as int].val());
            vstd::arithmetic::mul::lemma_mul_is_commutative(s.val(), q_1@[j as int].val());
            lemma_mod_mul(pow5_int(s.val()), q_5@[j as int].val());
            assert(t1.val() == pw % m);
            assert(t2.val() == ln % m);
            lemma_mod_add(old_out.val(), pw);
            assert(a1.val() == (old_out.val() + pw) % m);
            lemma_mod_add(a1.val(), ln);
            lemma_mod_add(old_out.val() + pw, ln);
            assert(out.val() == (old_out.val() + pw + ln) % m);
            lemma_mod_add(old_out.val(), pw + ln);
            lemma_mod_add(base, pw + ln);
            assert(old_out.val() + pw + ln == old_out.val() + (pw + ln));
            assert((old_out.val() + (pw + ln)) % m == (base + (pw + ln)) % m);
            vstd::arithmetic::div_mod::lemma_mod_twice(old_out.val() + pw + ln, m);
            assert(init.val() + isum(q_1@, state@, (j + 1) as nat) + isum_pow5(q_5@, state@, (j + 1) as nat)
                == base + (pw + ln));
        }
        j += 1;
    }
    out
}

/// The value that the constraint fixes for `out`, given the other cells:
/// `-(rc + terms) / q_o`.
pub fn next_state_val(state: &Vec<Fe>, q_1: &Vec<Fe>, q_5: &Vec<Fe>, q_o: Fe, rc: Fe) -> (r: Fe)
    requires
        q_1@.len() == state@.len(),
        q_5@.len() == state@.len(),
        q_o.val() % modulus() != 0,
    ensures
        r.wf(),
        (gate_terms(state@, q_1@, q_5@) + rc.val() + q_o.val() * r.val()) % modulus() == 0,
        q_o == fe_minus_one() ==> r.val() == (gate_terms(state@, q_1@, q_5@) + rc.val())
            % modulus(),
{
    let out = gate_sum(state, q_1, q_5, rc);
    let neg = field_neg(q_o);
    let inv = match field_invert(neg) {
        Some(inv) => inv,
        None => {
            proof {
                let m = modulus();
                let v = (m - q_o.val() % m) % m;
                vstd::arithmetic::div_mod::lemma_mod_bound(q_o.val(), m);
                vstd::arithmetic::div_mod::lemma_small_mod((m - q_o.val() % m) as nat, m as nat);
                lemma_neg_val(q_o);
                vstd::arithmetic::div_mod::lemma_mod_twice(v, m);
                assert(false);
            }
            return Fe::zero();
        },
    };
    let r = field_mul(out, inv);
    proof {
        let m = modulus();
        let terms = gate_terms(state@, q_1@, q_5@);
        lemma_mul_val(out, inv);
        lemma_neg_val(q_o);
        assert(isum(q_1@, state@, state@.len()) + isum_pow5(q_5@, state@, state@.len()) == terms);
        lemma_add_val(out, fe_zero());
        assert((inv.val() * neg.val()) % m == 1);
        assert(neg.val() == (m - q_o.val() % m) % m);
        vstd::arithmetic::mul::lemma_mul_is_commutative(neg.val(), inv.val());
        assert(((m - q_o.val() % m) % m * inv.val()) % m == 1);
        lemma_gate_inverse(out.val(), q_o.val(), inv.val());
        lemma_mod_add(out.val(), q_o.val() * r.val());
        lemma_mod_add(terms + rc.val(), q_o.val() * r.val());
        vstd::arithmetic::div_mod::lemma_mod_twice(out.val(), m);
        if q_o == fe_minus_one() {
            lemma_minus_one();
            lemma_neg_val(q_o);
            assert(neg.val() == 1) by {
                vstd::arithmetic::div_mod::lemma_small_mod((m - 1) as nat, m as nat);
                vstd::arithmetic::div_mod::lemma_small_mod(1, m as nat);
            }
            vstd::arithmetic::mul::lemma_mul_basics(inv.val());
            lemma_val_determines(inv);
            vstd::arithmetic::div_mod::lemma_small_mod(inv.val() as nat, m as nat);
            assert(inv.val() == 1);
            assert(r.val() == (out.val() * 1) % m);
        }
    }
    r
}

/// The value of a negation.
proof fn lemma_neg_val(a: Fe)
    ensures
        crate::field::fe_of((modulus() - a.val() % modulus()) % modulus()).val() == (modulus()
            - a.val() % modulus()) % modulus(),
{
    let m = modulus();
    let v = (m - a.val() % m) % m;
    lemma_minus_one();
    vstd::arithmetic::div_mod::lemma_mod_bound(m - a.val() % m, m);
    lemma_val_determines(fe_minus_one());
    crate::field::lemma_fe_of_val(v);
}

} // verus!

verus! {

/// Every coefficient below `n` but the one at `k` is zero.
pub open spec fn zero_but(a: Seq<Fe>, n: nat, k: int) -> bool {
    forall|j: int| 0 <= j < n && j != k ==> (#[trigger] a[j]).val() == 0
}

proof fn lemma_isum_single(a: Seq<Fe>, b: Seq<Fe>, n: nat, k: int)
    requires
        zero_but(a, n, k),
    ensures
        isum(a, b, n) == if 0 <= k < n {
            a[k].val() * b[k].val()
        } else {
            0
        },
    decreases n,
{
    if n > 0 {
        lemma_isum_single(a, b, (n - 1) as nat, k);
        if n - 1 != k {
            assert(a[n - 1].val() == 0);
            assert(a[n - 1].val() * b[n - 1].val() == 0);
        }
    }
}

proof fn lemma_isum_pow5_single(a: Seq<Fe>, s: Seq<Fe>, n: nat, k: int)
    requires
        zero_but(a, n, k),
    ensures
        isum_pow5(a, s, n) == if 0 <= k < n {
            a[k].val() * pow5_int(s[k].val())
        } else {
            0
        },
    decreases n,
{
    if n > 0 {
        lemma_isum_pow5_single(a, s, (n - 1) as nat, k);
        if n - 1 != k {
            assert(a[n - 1].val() == 0);
            assert(a[n - 1].val() * pow5_int(s[n - 1].val()) == 0);
        }
    }
}

/// The value of a dot product.
proof fn lemma_dot_val(a: Seq<Fe>, b: Seq<Fe>, n: nat)
    ensures
        dot(a, b, n).val() == isum(a, b, n) % modulus(),
        dot(a, b, n).wf(),
    decreases n,
{
    if n == 0 {
        crate::field::lemma_fe_of_val(0);
        lemma_add_val(fe_zero(), fe_zero());
        vstd::arithmetic::div_mod::lemma_small_mod(0, modulus() as nat);
    } else {
        let k = (n - 1) as nat;
        lemma_dot_val(a, b, k);
        lemma_mul_val(a[k as int], b[k as int]);
        lemma_add_val(dot(a, b, k), fe_mul(a[k as int], b[k as int]));
        lemma_mod_add(isum(a, b, k), a[k as int].val() * b[k as int].val());
    }
}

/// A full row: the dot product of a matrix row with `s^5 + c` is the sum of
/// the quintic terms and of the row's product with the constants.
proof fn lemma_full_row(mr: Seq<Fe>, s: Seq<Fe>, c: Seq<Fe>, n: nat)
    requires
        n <= s.len(),
        c.len() == s.len(),
    ensures
        isum(mr, add_vec(sbox_full(s), c), n) % modulus() == (isum_pow5(mr, s, n) + isum(mr, c, n))
            % modulus(),
    decreases n,
{
    if n > 0 {
        let k = (n - 1) as nat;
        let m = modulus();
        lemma_full_row(mr, s, c, k);
        let x = add_vec(sbox_full(s), c)[k as int];
        lemma_pow5_val(s[k as int]);
        lemma_add_val(fe_pow5(s[k as int]), c[k as int]);
        let a = mr[k as int].val();
        let p5 = pow5_int(s[k as int].val());
        let cv = c[k as int].val();
        assert(x.val() == (p5 % m + cv) % m);
        lemma_mod_add(p5, cv);
        lemma_mod_mul(a, p5 + cv);
        assert(a * (p5 + cv) == a * p5 + a * cv) by (nonlinear_arith);
        let l = isum(mr, add_vec(sbox_full(s), c), k);
        let r = isum_pow5(mr, s, k) + isum(mr, c, k);
        lemma_mod_add(l, a * x.val());
        lemma_mod_add(r, a * p5 + a * cv);
        lemma_mod_add(l, a * (p5 + cv));
        lemma_mod_add(r, a * (p5 + cv));
    }
}

/// A partial row at slot 0: the dot product with the state whose slot 0 took
/// the S-box is the first coefficient times that slot plus the rest.
proof fn lemma_partial_row0(row: Seq<Fe>, q1: Seq<Fe>, s: Seq<Fe>, v0: Fe, n: nat)
    requires
        1 <= n <= s.len(),
        n <= row.len(),
        n <= q1.len(),
        q1[0].val() == 0,
        forall|j: int| 1 <= j < n ==> #[trigger] q1[j] == row[j],
    ensures
        isum(row, s.update(0, v0), n) == row[0].val() * v0.val() + isum(q1, s, n),
    decreases n,
{
    if n > 1 {
        lemma_partial_row0(row, q1, s, v0, (n - 1) as nat);
        assert(s.update(0, v0)[n - 1] == s[n - 1]);
        assert(q1[n - 1] == row[n - 1]);
        assert(isum(row, s.update(0, v0), n) == isum(row, s.update(0, v0), (n - 1) as nat)
            + row[n - 1].val() * s[n - 1].val());
        assert(isum(q1, s, n) == isum(q1, s, (n - 1) as nat) + q1[n - 1].val() * s[n - 1].val());
    } else {
        assert(isum(q1, s, 1) == isum(q1, s, 0) + q1[0].val() * s[0].val());
        assert(isum(row, s.update(0, v0), 1) == isum(row, s.update(0, v0), 0) + row[0].val()
            * s.update(0, v0)[0].val());
        assert(q1[0].val() * s[0].val() == 0);
        assert(s.update(0, v0)[0] == v0);
    }
}

/// `x - y` is a multiple of the modulus when `y` is `x` reduced.
proof fn lemma_minus_one_gate(x: int, y: int)
    requires
        y == x % modulus(),
    ensures
        (x + (modulus() - 1) * y) % modulus() == 0,
{
    let m = modulus();
    vstd::arithmetic::div_mod::lemma_fundamental_div_mod(x, m);
    assert(x + (m - 1) * y == m * (x / m + y)) by (nonlinear_arith)
        requires
            x == m * (x / m) + y,
    ;
    vstd::arithmetic::div_mod::lemma_mod_multiples_basic(x / m + y, m);
    vstd::arithmetic::mul::lemma_mul_is_commutative(m, x / m + y);
}

/// Two canonical elements of equal value are equal.
proof fn lemma_eq_by_val(a: Fe, b: Fe)
    requires
        a.val() == b.val(),
    ensures
        a == b,
{
    lemma_val_determines(a);
    lemma_val_determines(b);
}

/// `n` zeros and a one at `k`.
pub fn unit_vec(n: usize, k: usize) -> (r: Vec<Fe>)
    ensures
        r@.len() == n,
        forall|j: int| 0 <= j < n ==> #[trigger] r@[j] == if j == k {
            Fe { w0: 1, w1: 0, w2: 0, w3: 0 }
        } else {
            fe_zero()
        },
{
    let mut r: Vec<Fe> = Vec::new();
    while r.len() < n
        invariant
            r@.len() <= n,
            forall|j: int| 0 <= j < r@.len() ==> #[trigger] r@[j] == if j == k {
                Fe { w0: 1, w1: 0, w2: 0, w3: 0 }
            } else {
                fe_zero()
            },
        decreases n - r@.len(),
    {
        if r.len() == k {
            r.push(Fe::from_u64(1));
        } else {
            r.push(Fe::zero());
        }
    }
    r
}

pub fn minus_one() -> (r: Fe)
    ensures
        r == fe_minus_one(),
{
    Fe { w0: 0x992d30ed00000000, w1: 0x224698fc094cf91b, w2: 0, w3: 0x4000000000000000 }
}

} // verus!

verus! {

/// `new` is `old` with one more row, which satisfies the constraint and whose
/// output cell holds `out`.
pub open spec fn pushed_row(old: Seq<GateRow>, new: Seq<GateRow>, out: Fe) -> bool {
    &&& new.len() == old.len() + 1
    &&& new.subrange(0, old.len() as int) == old
    &&& new.last().satisfied()
    &&& new.last().out == out
}

/// `n` zeros and `x` at `k`.
pub fn vec_with(n: usize, k: usize, x: Fe) -> (r: Vec<Fe>)
    ensures
        r@.len() == n,
        forall|j: int| 0 <= j < n ==> #[trigger] r@[j] == if j == k {
            x
        } else {
            fe_zero()
        },
{
    let mut r: Vec<Fe> = Vec::new();
    while r.len() < n
        invariant
            r@.len() <= n,
            forall|j: int| 0 <= j < r@.len() ==> #[trigger] r@[j] == if j == k {
                x
            } else {
                fe_zero()
            },
        decreases n - r@.len(),
    {
        if r.len() == k {
            r.push(x);
        } else {
            r.push(Fe::zero());
        }
    }
    r
}

/// The gadget: the constant table, the buffer of absorbed elements and the
/// row at which the last squeeze ended.
#[derive(Clone, Debug)]
pub struct PoseidonChip {
    pub spec: PoseidonSpec,
    pub buf: Vec<Fe>,
    pub offset: usize,
}

impl PoseidonChip {
    pub fn new(spec: PoseidonSpec) -> (r: PoseidonChip)
        ensures
            r.spec == spec,
            r.buf@.len() == 0,
            r.offset == 0,
    {
        PoseidonChip { spec, buf: Vec::new(), offset: 0 }
    }

    /// The row of slot `state_idx` of the pre-round.
    pub fn pre_round(
        &self,
        ctx: &mut RegionCtx,
        inputs: &Vec<Fe>,
        state_idx: usize,
        state: &Vec<Fe>,
    ) -> (r: Fe)
        requires
            self.spec.wf(),
            inputs@.len() <= self.spec.rate,
            state@.len() == self.spec.t,
            state_idx < self.spec.t,
        ensures
            r == pre_round(self.spec, state@, inputs@)[state_idx as int],
            pushed_row(old(ctx).rows@, final(ctx).rows@, r),
            final(ctx).rows@.last().state@.len() == state@.len(),
            final(ctx).rows@.last().state@[state_idx as int] == state@[state_idx as int],
    {
        let t = self.spec.t;
        let p = crate::poseidon::padded_exec(inputs, t);
        assert(self.spec.start@[0]@.len() == t);
        let c = self.spec.start[0][state_idx];
        let s = state[state_idx];
        let input = p[state_idx];
        let out = field_add(field_add(s, input), c);
        let st = vec_with(t, state_idx, s);
        let q_1 = unit_vec(t, state_idx);
        let q_5 = vec_with(t, 0, Fe::zero());
        let row = GateRow {
            state: st,
            input,
            out,
            q_1,
            q_5,
            q_i: Fe::from_u64(1),
            q_o: minus_one(),
            rc: c,
        };
        proof {
            let m = modulus();
            assert(fe_zero().val() == 0);
            assert(row.q_1@[state_idx as int].val() == 1);
            assert(zero_but(row.q_1@, t as nat, state_idx as int));
            assert(zero_but(row.q_5@, t as nat, -1));
            assert(row.state@[state_idx as int] == s);
            lemma_isum_single(row.q_1@, row.state@, t as nat, state_idx as int);
            lemma_isum_pow5_single(row.q_5@, row.state@, t as nat, -1);
            lemma_add_val(s, input);
            lemma_add_val(fe_add(s, input), c);
            lemma_mod_add(s.val() + input.val(), c.val());
            lemma_minus_one();
            lemma_minus_one_gate(s.val() + input.val() + c.val(), out.val());
            assert(row.state@.len() == t);
            assert(isum(row.q_1@, row.state@, t as nat) == s.val());
            assert(isum_pow5(row.q_5@, row.state@, t as nat) == 0);
            assert(gate_terms(row.state@, row.q_1@, row.q_5@) == s.val());
            assert(row.satisfied());
        }
        ctx.rows.push(row);
        proof {
            assert(final(ctx).rows@.subrange(0, old(ctx).rows@.len() as int) =~= old(ctx).rows@);
        }
        out
    }
}

} // verus!

verus! {

impl PoseidonChip {
    /// The row of slot `state_idx` of full round `round_idx` of the first or
    /// the second half.
    pub fn full_round(
        &self,
        ctx: &mut RegionCtx,
        is_first_half_full: bool,
        round_idx: usize,
        state_idx: usize,
        state: &Vec<Fe>,
    ) -> (r: Fe)
        requires
            self.spec.wf(),
            round_idx < self.spec.half(),
            state_idx < self.spec.t,
            state@.len() == self.spec.t,
        ensures
            r == full_round(
                state@,
                if is_first_half_full {
                    self.spec.first_constants(round_idx as nat)
                } else {
                    self.spec.second_constants(round_idx as nat)
                },
                if is_first_half_full {
                    self.spec.first_matrix(round_idx as nat)
                } else {
                    rows_view(self.spec.mds@)
                },
            )[state_idx as int],
            pushed_row(old(ctx).rows@, final(ctx).rows@, r),
            final(ctx).rows@.last().state@ == state@,
    {
        let t = self.spec.t;
        let half = self.spec.r_f / 2;
        let zeros = crate::poseidon::zero_vec(t);
        let rcs = if is_first_half_full {
            &self.spec.start[round_idx + 1]
        } else if round_idx + 1 < half {
            &self.spec.end[round_idx]
        } else {
            &zeros
        };
        let mds = if is_first_half_full && round_idx + 1 == half {
            &self.spec.pre_sparse_mds
        } else {
            &self.spec.mds
        };
        let ghost cs = if is_first_half_full {
            self.spec.first_constants(round_idx as nat)
        } else {
            self.spec.second_constants(round_idx as nat)
        };
        let ghost ms = if is_first_half_full {
            self.spec.first_matrix(round_idx as nat)
        } else {
            rows_view(self.spec.mds@)
        };
        assert(rcs@ == cs);
        assert(rows_view(mds@) == ms);
        assert(mds@[state_idx as int]@.len() == t);
        let mrow = &mds[state_idx];
        let rc_val = crate::poseidon::dot_exec(mrow, rcs, t);
        let q_5 = crate::input::copy_fes(mrow);
        let q_1 = vec_with(t, 0, Fe::zero());
        let q_o = minus_one();
        proof {
            lemma_minus_one();
        }
        let out = next_state_val(state, &q_1, &q_5, q_o, rc_val);
        let row = GateRow {
            state: crate::input::copy_fes(state),
            input: Fe::zero(),
            out,
            q_1,
            q_5,
            q_i: Fe::zero(),
            q_o,
            rc: rc_val,
        };
        proof {
            let m = modulus();
            let s = state@;
            let x = add_vec(sbox_full(s), cs);
            let native = full_round(s, cs, ms)[state_idx as int];
            assert(native == dot(mrow@, x, t as nat));
            assert(fe_zero().val() == 0);
            assert(zero_but(row.q_1@, t as nat, -1));
            lemma_isum_single(row.q_1@, s, t as nat, -1);
            lemma_dot_val(mrow@, cs, t as nat);
            lemma_dot_val(mrow@, x, t as nat);
            lemma_full_row(mrow@, s, cs, t as nat);
            let p5 = isum_pow5(mrow@, s, t as nat);
            let cc = isum(mrow@, cs, t as nat);
            assert(out.val() == (p5 + cc % m) % m);
            lemma_mod_add(p5, cc);
            lemma_eq_by_val(out, native);
            assert(row.state@ == state@);
            assert(row.q_i.val() == 0);
            vstd::arithmetic::mul::lemma_mul_basics(row.input.val());
            assert(row.q_i.val() * row.input.val() == 0);
            assert(row.satisfied());
        }
        ctx.rows.push(row);
        proof {
            assert(final(ctx).rows@.subrange(0, old(ctx).rows@.len() as int) =~= old(ctx).rows@);
        }
        out
    }

    /// The row of slot `state_idx` of partial round `round_idx`.
    #[verifier::rlimit(80)]
    pub fn partial_round(&self, ctx: &mut RegionCtx, round_idx: usize, state_idx: usize, state: &Vec<Fe>) -> (r: Fe)
        requires
            self.spec.wf(),
            round_idx < self.spec.r_p(),
            state_idx < self.spec.t,
            state@.len() == self.spec.t,
        ensures
            r == partial_round(
                state@,
                self.spec.partial@[round_idx as int],
                self.spec.sparse_matrices@[round_idx as int],
            )[state_idx as int],
            pushed_row(old(ctx).rows@, final(ctx).rows@, r),
            final(ctx).rows@.last().state@ == state@,
    {
        let t = self.spec.t;
        let rc = self.spec.partial[round_idx];
        let sm = &self.spec.sparse_matrices[round_idx];
        let q_5: Vec<Fe>;
        let q_1: Vec<Fe>;
        let rc_val: Fe;
        if state_idx == 0 {
            q_5 = vec_with(t, 0, sm.row[0]);
            let mut q: Vec<Fe> = Vec::new();
            while q.len() < t
                invariant
                    q@.len() <= t,
                    sm.row@.len() == t,
                    forall|j: int| 0 <= j < q@.len() ==> #[trigger] q@[j] == if j == 0 {
                        fe_zero()
                    } else {
                        sm.row@[j]
                    },
                decreases t - q@.len(),
            {
                if q.len() == 0 {
                    q.push(Fe::zero());
                } else {
                    q.push(sm.row[q.len()]);
                }
            }
            q_1 = q;
            rc_val = field_mul(sm.row[0], rc);
        } else {
            q_5 = vec_with(t, 0, sm.col_hat[state_idx - 1]);
            q_1 = unit_vec(t, state_idx);
            rc_val = field_mul(sm.col_hat[state_idx - 1], rc);
        }
        let q_o = minus_one();
        proof {
            lemma_minus_one();
        }
        let out = next_state_val(state, &q_1, &q_5, q_o, rc_val);
        let row = GateRow {
            state: crate::input::copy_fes(state),
            input: Fe::zero(),
            out,
            q_1,
            q_5,
            q_i: Fe::zero(),
            q_o,
            rc: rc_val,
        };
        proof {
            let m = modulus();
            let s = state@;
            let s0 = s[0];
            let v0 = fe_add(fe_pow5(s0), rc);
            let v = s.update(0, v0);
            let native = partial_round(s, rc, *sm)[state_idx as int];
            assert(native == sparse_mix(*sm, v)[state_idx as int]);
            assert(fe_zero().val() == 0);
            lemma_pow5_val(s0);
            lemma_add_val(fe_pow5(s0), rc);
            let pw = pow5_int(s0.val());
            assert(v0.val() == (pw % m + rc.val()) % m);
            lemma_mod_add(pw, rc.val());
            assert(zero_but(row.q_5@, t as nat, 0));
            lemma_isum_pow5_single(row.q_5@, s, t as nat, 0);
            if state_idx == 0 {
                let a = sm.row@[0].val();
                lemma_partial_row0(sm.row@, row.q_1@, s, v0, t as nat);
                lemma_dot_val(sm.row@, v, t as nat);
                lemma_mul_val(sm.row@[0], rc);
                let rest = isum(row.q_1@, s, t as nat);
                assert(native.val() == (a * v0.val() + rest) % m);
                lemma_mod_mul(a, pw + rc.val());
                assert(a * (pw + rc.val()) == a * pw + a * rc.val()) by (nonlinear_arith);
                lemma_mod_add(a * v0.val(), rest);
                lemma_mod_add(a * (pw + rc.val()), rest);
                lemma_mod_add(rest + a * pw, a * rc.val());
                assert(out.val() == (rest + a * pw + (a * rc.val()) % m) % m);
                assert((a * v0.val()) % m == (a * (pw + rc.val())) % m);
                assert(a * (pw + rc.val()) + rest == rest + a * pw + a * rc.val());
                lemma_eq_by_val(out, native);
            } else {
                let a = sm.col_hat@[state_idx - 1].val();
                let si = s[state_idx as int];
                assert(v[state_idx as int] == si);
                assert(zero_but(row.q_1@, t as nat, state_idx as int));
                lemma_isum_single(row.q_1@, s, t as nat, state_idx as int);
                assert(row.q_1@[state_idx as int].val() == 1);
                vstd::arithmetic::mul::lemma_mul_basics(si.val());
                assert(isum(row.q_1@, s, t as nat) == si.val());
                lemma_mul_val(sm.col_hat@[state_idx - 1], v0);
                lemma_add_val(fe_mul(sm.col_hat@[state_idx - 1], v0), si);
                lemma_mul_val(sm.col_hat@[state_idx - 1], rc);
                assert(native.val() == ((a * v0.val()) % m + si.val()) % m);
                lemma_mod_mul(a, pw + rc.val());
                assert(a * (pw + rc.val()) == a * pw + a * rc.val()) by (nonlinear_arith);
                lemma_mod_add(a * v0.val(), si.val());
                lemma_mod_add(a * (pw + rc.val()), si.val());
                lemma_mod_add(si.val() + a * pw, a * rc.val());
                assert(out.val() == (si.val() + a * pw + (a * rc.val()) % m) % m);
                assert((a * v0.val()) % m == (a * (pw + rc.val())) % m);
                assert(a * (pw + rc.val()) + si.val() == si.val() + a * pw + a * rc.val());
                lemma_eq_by_val(out, native);
            }
            assert(row.state@ == state@);
            assert(row.q_i.val() == 0);
            vstd::arithmetic::mul::lemma_mul_basics(row.input.val());
            assert(row.q_i.val() * row.input.val() == 0);
            assert((gate_terms(state@, row.q_1@, row.q_5@) + rc_val.val() + q_o.val() * out.val())
                % m == 0);
            assert(row.satisfied());
        }
        ctx.rows.push(row);
        proof {
            assert(final(ctx).rows@.subrange(0, old(ctx).rows@.len() as int) =~= old(ctx).rows@);
        }
        out
    }
}

} // verus!

verus! {

/// `new` keeps the rows of `old` and adds only rows that satisfy the constraint.
pub open spec fn extends_satisfied(old: Seq<GateRow>, new: Seq<GateRow>) -> bool {
    &&& new.len() >= old.len()
    &&& new.subrange(0, old.len() as int) == old
    &&& forall|i: int| old.len() <= i < new.len() ==> (#[trigger] new[i]).satisfied()
}

proof fn lemma_extends_push(a: Seq<GateRow>, b: Seq<GateRow>, c: Seq<GateRow>, r: Fe)
    requires
        extends_satisfied(a, b),
        pushed_row(b, c, r),
    ensures
        extends_satisfied(a, c),
{
    assert(c.subrange(0, a.len() as int) =~= c.subrange(0, b.len() as int).subrange(0, a.len() as int));
    assert forall|i: int| a.len() <= i < c.len() implies (#[trigger] c[i]).satisfied() by {
        if i < b.len() {
            assert(c[i] == c.subrange(0, b.len() as int)[i]);
        } else {
            assert(c[i] == c.last());
        }
    }
}

proof fn lemma_extends_trans(a: Seq<GateRow>, b: Seq<GateRow>, c: Seq<GateRow>)
    requires
        extends_satisfied(a, b),
        extends_satisfied(b, c),
    ensures
        extends_satisfied(a, c),
{
    assert(c.subrange(0, a.len() as int) =~= c.subrange(0, b.len() as int).subrange(0, a.len() as int));
    assert forall|i: int| a.len() <= i < c.len() implies (#[trigger] c[i]).satisfied() by {
        if i < b.len() {
            assert(c[i] == c.subrange(0, b.len() as int)[i]);
        }
    }
}

/// The state that enters round `k`, counting the full and the partial rounds
/// together, of a permutation whose pre-round gave `s0`.
pub open spec fn state_before_round(sp: PoseidonSpec, s0: Seq<Fe>, k: nat) -> Seq<Fe> {
    let h = sp.half();
    let p = sp.r_p();
    if k <= h {
        crate::poseidon::first_half(sp, s0, k)
    } else if k <= h + p {
        crate::poseidon::partial_rounds(sp, crate::poseidon::first_half(sp, s0, h), (k - h) as nat)
    } else {
        crate::poseidon::second_half(
            sp,
            crate::poseidon::partial_rounds(sp, crate::poseidon::first_half(sp, s0, h), p),
            (k - h - p) as nat,
        )
    }
}

/// The number of rows of one permutation: `t` for the pre-round and `t` for
/// each round.
pub open spec fn rows_per_permutation(sp: PoseidonSpec) -> nat {
    (sp.t * (1 + sp.r_f + sp.r_p())) as nat
}

/// The rows of a permutation laid out from row `base` are wired: the state
/// cell of pre-round row `i` holds slot `i` of the initial state, and the
/// state cells of each row of round `k` hold the state that enters round `k`,
/// for the first `k` rounds.
pub open spec fn wired(
    sp: PoseidonSpec,
    rows: Seq<GateRow>,
    base: int,
    init: Seq<Fe>,
    inputs: Seq<Fe>,
    k: nat,
) -> bool {
    let t = sp.t as int;
    let s0 = pre_round(sp, init, inputs);
    &&& forall|j: int|
        base <= j < base + t ==> (#[trigger] rows[j]).state@.len() == t && rows[j].state@[j
            - base] == init[j - base]
    &&& forall|j: int|
        base + t <= j < base + t + t * k ==> (#[trigger] rows[j]).state@ == state_before_round(
            sp,
            s0,
            ((j - base - t) / t) as nat,
        )
}

/// The number of chunks of at most `rate` elements in `n` elements.
pub open spec fn num_chunks(n: nat, rate: nat) -> nat
    decreases n,
{
    if n == 0 || rate == 0 {
        0
    } else if n <= rate {
        1
    } else {
        1 + num_chunks((n - rate) as nat, rate)
    }
}

/// The number of permutations the sponge runs on `n` elements: one per chunk,
/// and one more when the last chunk is full.
pub open spec fn sponge_permutations(sp: PoseidonSpec, n: nat) -> nat {
    num_chunks(n, sp.rate as nat) + if n > 0 && n % (sp.rate as nat) == 0 {
        1nat
    } else {
        0nat
    }
}

/// The rows after the cursor moved to `offset`: those below it are kept,
/// those never assigned are blank.
pub open spec fn reset_to(old: Seq<GateRow>, new: Seq<GateRow>, offset: int) -> bool {
    &&& new.len() >= offset
    &&& forall|i: int| 0 <= i < offset && i < old.len() ==> #[trigger] new[i] == old[i]
    &&& forall|i: int| old.len() <= i < offset ==> (#[trigger] new[i]).is_blank()
}

proof fn lemma_wired_round(
    sp: PoseidonSpec,
    a: Seq<GateRow>,
    b: Seq<GateRow>,
    base: int,
    init: Seq<Fe>,
    inputs: Seq<Fe>,
    k: nat,
)
    requires
        sp.t > 0,
        base >= 0,
        wired(sp, a, base, init, inputs, k),
        a.len() == base + sp.t + sp.t * k,
        b.len() == a.len() + sp.t,
        b.subrange(0, a.len() as int) == a,
        forall|j: int|
            a.len() <= j < b.len() ==> (#[trigger] b[j]).state@ == state_before_round(
                sp,
                pre_round(sp, init, inputs),
                k,
            ),
    ensures
        wired(sp, b, base, init, inputs, k + 1),
        b.len() == base + sp.t + sp.t * (k + 1),
{
    let t = sp.t as int;
    let s0 = pre_round(sp, init, inputs);
    assert(t * (k + 1) == t * k + t) by (nonlinear_arith);
    assert forall|j: int| base <= j < base + t implies (#[trigger] b[j]).state@.len() == t
        && b[j].state@[j - base] == init[j - base] by {
        assert(b[j] == b.subrange(0, a.len() as int)[j]);
        assert(a[j] == b[j]);
    }
    assert forall|j: int| base + t <= j < base + t + t * (k + 1) implies (#[trigger] b[j]).state@
        == state_before_round(sp, s0, ((j - base - t) / t) as nat) by {
        if j < a.len() {
            assert(b[j] == b.subrange(0, a.len() as int)[j]);
            assert(a[j] == b[j]);
        } else {
            assert(j - base - t == k * t + (j - a.len())) by (nonlinear_arith)
                requires
                    a.len() == base + t + t * k,
            ;
            vstd::arithmetic::div_mod::lemma_fundamental_div_mod_converse(
                j - base - t,
                t,
                k as int,
                j - a.len(),
            );
        }
    }
}

impl PoseidonChip {
    /// One round of full rows on every slot.
    fn full_rounds_row(&self, ctx: &mut RegionCtx, first: bool, round_idx: usize, state: &Vec<Fe>) -> (r: Vec<Fe>)
        requires
            self.spec.wf(),
            round_idx < self.spec.half(),
            state@.len() == self.spec.t,
        ensures
            r@ == full_round(
                state@,
                if first {
                    self.spec.first_constants(round_idx as nat)
                } else {
                    self.spec.second_constants(round_idx as nat)
                },
                if first {
                    self.spec.first_matrix(round_idx as nat)
                } else {
                    rows_view(self.spec.mds@)
                },
            ),
            r@.len() == self.spec.t,
            extends_satisfied(old(ctx).rows@, final(ctx).rows@),
            final(ctx).rows@.len() == old(ctx).rows@.len() + self.spec.t,
            forall|j: int|
                old(ctx).rows@.len() <= j < final(ctx).rows@.len() ==> (#[trigger] final(ctx).rows@[j]).state@ == state@,
    {
        let ghost target = full_round(
            state@,
            if first {
                self.spec.first_constants(round_idx as nat)
            } else {
                self.spec.second_constants(round_idx as nat)
            },
            if first {
                self.spec.first_matrix(round_idx as nat)
            } else {
                rows_view(self.spec.mds@)
            },
        );
        let mut next: Vec<Fe> = Vec::new();
        let mut i: usize = 0;
        proof {
            assert(ctx.rows@.subrange(0, ctx.rows@.len() as int) =~= ctx.rows@);
        }
        while i < self.spec.t
            invariant
                self.spec.wf(),
                round_idx < self.spec.half(),
                state@.len() == self.spec.t,
                i <= self.spec.t,
                target.len() == self.spec.t,
                target == full_round(
                    state@,
                    if first {
                        self.spec.first_constants(round_idx as nat)
                    } else {
                        self.spec.second_constants(round_idx as nat)
                    },
                    if first {
                        self.spec.first_matrix(round_idx as nat)
                    } else {
                        rows_view(self.spec.mds@)
                    },
                ),
                next@ == target.subrange(0, i as int),
                extends_satisfied(old(ctx).rows@, ctx.rows@),
                ctx.rows@.len() == old(ctx).rows@.len() + i,
                forall|j: int|
                    old(ctx).rows@.len() <= j < ctx.rows@.len() ==> (#[trigger] ctx.rows@[j]).state@
                        == state@,
            decreases self.spec.t - i,
        {
            let ghost before = ctx.rows@;
            let v = self.full_round(ctx, first, round_idx, i, state);
            proof {
                lemma_extends_push(old(ctx).rows@, before, ctx.rows@, v);
                assert forall|j: int|
                    old(ctx).rows@.len() <= j < ctx.rows@.len() implies (#[trigger] ctx.rows@[j]).state@
                        == state@ by {
                    if j < before.len() {
                        assert(ctx.rows@[j] == ctx.rows@.subrange(0, before.len() as int)[j]);
                    }
                }
            }
            let ghost prev = next@;
            next.push(v);
            proof {
                assert(next@ == prev.push(v));
                assert(next@ =~= target.subrange(0, i + 1));
            }
            i += 1;
        }
        proof {
            assert(next@ =~= target);
        }
        next
    }

    /// One round of partial rows on every slot.
    fn partial_rounds_row(&self, ctx: &mut RegionCtx, round_idx: usize, state: &Vec<Fe>) -> (r: Vec<Fe>)
        requires
            self.spec.wf(),
            round_idx < self.spec.r_p(),
            state@.len() == self.spec.t,
        ensures
            r@ == partial_round(
                state@,
                self.spec.partial@[round_idx as int],
                self.spec.sparse_matrices@[round_idx as int],
            ),
            r@.len() == self.spec.t,
            extends_satisfied(old(ctx).rows@, final(ctx).rows@),
            final(ctx).rows@.len() == old(ctx).rows@.len() + self.spec.t,
            forall|j: int|
                old(ctx).rows@.len() <= j < final(ctx).rows@.len() ==> (#[trigger] final(ctx).rows@[j]).state@ == state@,
    {
        let ghost target = partial_round(
            state@,
            self.spec.partial@[round_idx as int],
            self.spec.sparse_matrices@[round_idx as int],
        );
        let mut next: Vec<Fe> = Vec::new();
        let mut i: usize = 0;
        proof {
            assert(ctx.rows@.subrange(0, ctx.rows@.len() as int) =~= ctx.rows@);
        }
        while i < self.spec.t
            invariant
                self.spec.wf(),
                round_idx < self.spec.r_p(),
                state@.len() == self.spec.t,
                i <= self.spec.t,
                target.len() == self.spec.t,
                target == partial_round(
                    state@,
                    self.spec.partial@[round_idx as int],
                    self.spec.sparse_matrices@[round_idx as int],
                ),
                next@ == target.subrange(0, i as int),
                extends_satisfied(old(ctx).rows@, ctx.rows@),
                ctx.rows@.len() == old(ctx).rows@.len() + i,
                forall|j: int|
                    old(ctx).rows@.len() <= j < ctx.rows@.len() ==> (#[trigger] ctx.rows@[j]).state@
                        == state@,
            decreases self.spec.t - i,
        {
            let ghost before = ctx.rows@;
            let v = self.partial_round(ctx, round_idx, i, state);
            proof {
                lemma_extends_push(old(ctx).rows@, before, ctx.rows@, v);
                assert forall|j: int|
                    old(ctx).rows@.len() <= j < ctx.rows@.len() implies (#[trigger] ctx.rows@[j]).state@
                        == state@ by {
                    if j < before.len() {
                        assert(ctx.rows@[j] == ctx.rows@.subrange(0, before.len() as int)[j]);
                    }
                }
            }
            let ghost prev = next@;
            next.push(v);
            proof {
                assert(next@ == prev.push(v));
                assert(next@ =~= target.subrange(0, i + 1));
            }
            i += 1;
        }
        proof {
            assert(next@ =~= target);
        }
        next
    }

    /// The whole permutation as rows: it computes what the native
    /// permutation computes, lays out `rows_per_permutation` rows, every row
    /// satisfies the constraint, and the state cells of every row are wired
    /// to the state it was computed from.
    pub fn permutation(&self, ctx: &mut RegionCtx, inputs: &Vec<Fe>, init_state: &Vec<Fe>) -> (r: Vec<Fe>)
        requires
            self.spec.wf(),
            inputs@.len() <= self.spec.rate,
            init_state@.len() == self.spec.t,
        ensures
            r@ == crate::poseidon::permutation(self.spec, init_state@, inputs@),
            r@.len() == self.spec.t,
            extends_satisfied(old(ctx).rows@, final(ctx).rows@),
            final(ctx).rows@.len() == old(ctx).rows@.len() + rows_per_permutation(self.spec),
            wired(
                self.spec,
                final(ctx).rows@,
                old(ctx).rows@.len() as int,
                init_state@,
                inputs@,
                (self.spec.r_f + self.spec.r_p()) as nat,
            ),
    {
        let ghost base = ctx.rows@.len() as int;
        let ghost s0 = pre_round(self.spec, init_state@, inputs@);
        let ghost t = self.spec.t as int;
        let mut state: Vec<Fe> = Vec::new();
        let mut i: usize = 0;
        proof {
            assert(ctx.rows@.subrange(0, ctx.rows@.len() as int) =~= ctx.rows@);
        }
        while i < self.spec.t
            invariant
                self.spec.wf(),
                inputs@.len() <= self.spec.rate,
                init_state@.len() == self.spec.t,
                i <= self.spec.t,
                t == self.spec.t,
                base == old(ctx).rows@.len(),
                s0.len() == self.spec.t,
                s0 == pre_round(self.spec, init_state@, inputs@),
                state@ == s0.subrange(0, i as int),
                extends_satisfied(old(ctx).rows@, ctx.rows@),
                ctx.rows@.len() == base + i,
                forall|j: int|
                    base <= j < base + i ==> (#[trigger] ctx.rows@[j]).state@.len() == t
                        && ctx.rows@[j].state@[j - base] == init_state@[j - base],
            decreases self.spec.t - i,
        {
            let ghost before = ctx.rows@;
            let v = self.pre_round(ctx, inputs, i, init_state);
            proof {
                lemma_extends_push(old(ctx).rows@, before, ctx.rows@, v);
                assert forall|j: int| base <= j < base + i + 1 implies (#[trigger] ctx.rows@[j]).state@.len()
                    == t && ctx.rows@[j].state@[j - base] == init_state@[j - base] by {
                    if j < before.len() {
                        assert(ctx.rows@[j] == ctx.rows@.subrange(0, before.len() as int)[j]);
                    }
                }
            }
            let ghost prev = state@;
            state.push(v);
            proof {
                assert(v == s0[i as int]);
                assert(state@ == prev.push(v));
                assert(state@ =~= s0.subrange(0, i + 1));
            }
            i += 1;
        }
        proof {
            assert(state@ =~= s0);
            assert(t * 0 == 0);
            assert(wired(self.spec, ctx.rows@, base, init_state@, inputs@, 0));
        }
        let half = self.spec.r_f / 2;
        let mut r: usize = 0;
        while r < half
            invariant
                self.spec.wf(),
                half == self.spec.half(),
                r <= half,
                t == self.spec.t,
                base == old(ctx).rows@.len(),
                s0 == pre_round(self.spec, init_state@, inputs@),
                state@ == crate::poseidon::first_half(self.spec, s0, r as nat),
                state@.len() == self.spec.t,
                extends_satisfied(old(ctx).rows@, ctx.rows@),
                ctx.rows@.len() == base + t + t * r,
                wired(self.spec, ctx.rows@, base, init_state@, inputs@, r as nat),
            decreases half - r,
        {
            let ghost before = ctx.rows@;
            proof {
                assert(state_before_round(self.spec, s0, r as nat) == state@);
            }
            state = self.full_rounds_row(ctx, true, r, &state);
            proof {
                lemma_extends_trans(old(ctx).rows@, before, ctx.rows@);
                lemma_wired_round(self.spec, before, ctx.rows@, base, init_state@, inputs@, r as nat);
            }
            r += 1;
        }
        let ghost s1 = state@;
        let mut r: usize = 0;
        while r < self.spec.partial.len()
            invariant
                self.spec.wf(),
                half == self.spec.half(),
                r <= self.spec.r_p(),
                t == self.spec.t,
                base == old(ctx).rows@.len(),
                s0 == pre_round(self.spec, init_state@, inputs@),
                s1 == crate::poseidon::first_half(self.spec, s0, half as nat),
                state@ == crate::poseidon::partial_rounds(self.spec, s1, r as nat),
                state@.len() == self.spec.t,
                extends_satisfied(old(ctx).rows@, ctx.rows@),
                ctx.rows@.len() == base + t + t * (half + r),
                wired(self.spec, ctx.rows@, base, init_state@, inputs@, (half + r) as nat),
            decreases self.spec.r_p() - r,
        {
            let ghost before = ctx.rows@;
            proof {
                assert(state_before_round(self.spec, s0, (half + r) as nat) == state@);
            }
            state = self.partial_rounds_row(ctx, r, &state);
            proof {
                lemma_extends_trans(old(ctx).rows@, before, ctx.rows@);
                lemma_wired_round(self.spec, before, ctx.rows@, base, init_state@, inputs@, (half + r) as nat);
            }
            r += 1;
        }
        let ghost s2 = state@;
        let ghost rp = self.spec.r_p();
        let mut r: usize = 0;
        while r < half
            invariant
                self.spec.wf(),
                half == self.spec.half(),
                rp == self.spec.r_p(),
                r <= half,
                t == self.spec.t,
                base == old(ctx).rows@.len(),
                s0 == pre_round(self.spec, init_state@, inputs@),
                s2 == crate::poseidon::partial_rounds(
                    self.spec,
                    crate::poseidon::first_half(self.spec, s0, half as nat),
                    rp,
                ),
                state@ == crate::poseidon::second_half(self.spec, s2, r as nat),
                state@.len() == self.spec.t,
                extends_satisfied(old(ctx).rows@, ctx.rows@),
                ctx.rows@.len() == base + t + t * (half + rp + r),
                wired(self.spec, ctx.rows@, base, init_state@, inputs@, (half + rp + r) as nat),
            decreases half - r,
        {
            let ghost before = ctx.rows@;
            proof {
                assert(state_before_round(self.spec, s0, (half + rp + r) as nat) == state@);
            }
            state = self.full_rounds_row(ctx, false, r, &state);
            proof {
                lemma_extends_trans(old(ctx).rows@, before, ctx.rows@);
                lemma_wired_round(self.spec, before, ctx.rows@, base, init_state@, inputs@, (half + rp + r) as nat);
            }
            r += 1;
        }
        proof {
            assert(self.spec.r_f == 2 * half);
            assert(t + t * (half + rp + half) == t * (1 + self.spec.r_f + rp)) by (nonlinear_arith)
                requires
                    self.spec.r_f == 2 * half,
            ;
        }
        state
    }

    /// Buffers `inputs`.
    pub fn update(&mut self, inputs: &Vec<Fe>)
        ensures
            final(self).spec == old(self).spec,
            final(self).offset == old(self).offset,
            final(self).buf@ == old(self).buf@ + inputs@,
    {
        crate::stream::append_all(inputs, &mut self.buf);
    }

    /// Lays out the sponge from the row where the last squeeze ended, and
    /// returns the cell of the digest: it holds what the native sponge
    /// computes. One permutation runs per chunk, and one more when the last
    /// chunk is full; every row laid out satisfies the constraint.
    #[verifier::rlimit(80)]
    pub fn squeeze(&mut self, ctx: &mut RegionCtx) -> (r: Fe)
        requires
            old(self).spec.wf(),
        ensures
            r == crate::poseidon::sponge_hash(old(self).spec, old(self).buf@),
            final(self).spec == old(self).spec,
            final(self).buf@ == old(self).buf@,
            final(self).offset == final(ctx).rows@.len(),
            final(ctx).rows@.len() == old(self).offset + sponge_permutations(
                old(self).spec,
                old(self).buf@.len(),
            ) * rows_per_permutation(old(self).spec),
            reset_to(old(ctx).rows@, final(ctx).rows@, old(self).offset as int),
            forall|i: int|
                old(self).offset <= i < final(ctx).rows@.len() ==> (#[trigger] final(ctx).rows@[i]).satisfied(),
    {
        ctx.reset(self.offset);
        let ghost start = ctx.rows@;
        let ghost o = self.offset as int;
        proof {
            assert(ctx.rows@.subrange(0, ctx.rows@.len() as int) =~= ctx.rows@);
            assert(reset_to(old(ctx).rows@, ctx.rows@, o));
        }
        let sp = &self.spec;
        let buf = &self.buf;
        let len = buf.len();
        let ghost per = rows_per_permutation(*sp) as int;
        let ghost total = num_chunks(len as nat, sp.rate as nat) as int;
        let mut s = crate::poseidon::initial_state_exec(sp.t);
        let mut i: usize = 0;
        proof {
            assert(buf@.subrange(0, len as int) == buf@);
            assert(per * 0 == 0);
        }
        while i < len
            invariant
                sp.wf(),
                *sp == self.spec,
                *buf == self.buf,
                self.spec == old(self).spec,
                self.buf@ == old(self).buf@,
                self.offset == o,
                len == buf@.len(),
                i <= len,
                s@.len() == sp.t,
                per == rows_per_permutation(*sp),
                total == num_chunks(len as nat, sp.rate as nat),
                crate::poseidon::absorb_from(*sp, crate::poseidon::initial_state(sp.t as nat), buf@)
                    == crate::poseidon::absorb_from(*sp, s@, buf@.subrange(i as int, len as int)),
                extends_satisfied(start, ctx.rows@),
                start.len() == o,
                ctx.rows@.len() == o + per * (total - num_chunks((len - i) as nat, sp.rate as nat)),
            decreases len - i,
        {
            let rem = len - i;
            let take = if rem <= sp.rate {
                rem
            } else {
                sp.rate
            };
            let mut chunk: Vec<Fe> = Vec::new();
            let mut j: usize = 0;
            while j < take
                invariant
                    j <= take,
                    i + take <= len,
                    len == buf@.len(),
                    chunk@ == buf@.subrange(i as int, i + j),
                decreases take - j,
            {
                chunk.push(buf[i + j]);
                proof {
                    assert(chunk@ =~= buf@.subrange(i as int, i + j + 1));
                }
                j += 1;
            }
            let ghost before = ctx.rows@;
            let ghost done = total - num_chunks(rem as nat, sp.rate as nat);
            s = self.permutation(ctx, &chunk, &s);
            proof {
                lemma_extends_trans(start, before, ctx.rows@);
                let rest = buf@.subrange(i as int, len as int);
                if rem <= sp.rate {
                    assert(chunk@ =~= rest);
                    assert(buf@.subrange((i + take) as int, len as int).len() == 0);
                } else {
                    assert(rest.take(sp.rate as int) =~= chunk@);
                    assert(rest.skip(sp.rate as int) =~= buf@.subrange((i + take) as int, len as int));
                }
                assert(num_chunks(rem as nat, sp.rate as nat) == 1 + num_chunks((rem - take) as nat, sp.rate as nat));
                assert(per * done + per == per * (done + 1)) by (nonlinear_arith);
            }
            i += take;
        }
        proof {
            assert(buf@.subrange(len as int, len as int).len() == 0);
        }
        if len > 0 && len % sp.rate == 0 {
            let ghost before = ctx.rows@;
            s = self.permutation(ctx, &Vec::new(), &s);
            proof {
                lemma_extends_trans(start, before, ctx.rows@);
                assert(per * total + per == per * (total + 1)) by (nonlinear_arith);
            }
        }
        proof {
            assert(sponge_permutations(*sp, len as nat) * per == per * sponge_permutations(*sp, len as nat)) by (nonlinear_arith);
            assert forall|k: int| 0 <= k < o && k < old(ctx).rows@.len() implies #[trigger] ctx.rows@[k]
                == old(ctx).rows@[k] by {
                assert(ctx.rows@[k] == ctx.rows@.subrange(0, start.len() as int)[k]);
            }
            assert forall|k: int| old(ctx).rows@.len() <= k < o implies (#[trigger] ctx.rows@[k]).is_blank() by {
                assert(ctx.rows@[k] == ctx.rows@.subrange(0, start.len() as int)[k]);
            }
        }
        self.offset = ctx.offset();
        s[1]
    }
}

} // verus!

verus! {

impl GateRow {
    /// Evaluates the constraint on the row.
    pub fn is_satisfied(&self) -> (r: bool)
        ensures
            r == self.satisfied(),
    {
        if self.q_1.len() != self.state.len() || self.q_5.len() != self.state.len() {
            return false;
        }
        let a = field_add(self.rc, field_mul(self.q_i, self.input));
        let b = field_add(a, field_mul(self.q_o, self.out));
        let acc = gate_sum(&self.state, &self.q_1, &self.q_5, b);
        proof {
            let m = modulus();
            let qi = self.q_i.val() * self.input.val();
            let qo = self.q_o.val() * self.out.val();
            let t = isum(self.q_1@, self.state@, self.state@.len()) + isum_pow5(
                self.q_5@,
                self.state@,
                self.state@.len(),
            );
            lemma_mul_val(self.q_i, self.input);
            lemma_mul_val(self.q_o, self.out);
            lemma_add_val(self.rc, fe_mul(self.q_i, self.input));
            lemma_add_val(a, fe_mul(self.q_o, self.out));
            lemma_mod_add(self.rc.val(), qi);
            lemma_mod_add(a.val(), qo);
            lemma_mod_add(self.rc.val() + qi, qo);
            lemma_mod_add(b.val(), t);
            lemma_mod_add(self.rc.val() + qi + qo, t);
            assert(gate_terms(self.state@, self.q_1@, self.q_5@) == t);
            assert(acc.val() % m == (t + self.rc.val() + qi + qo) % m);
            lemma_val_determines(acc);
            vstd::arithmetic::div_mod::lemma_small_mod(acc.val() as nat, m as nat);
            lemma_val_determines(fe_zero());
            if acc.val() == 0 {
                lemma_eq_by_val(acc, fe_zero());
            }
        }
        acc == Fe::zero()
    }
}

impl RegionCtx {
    /// Checks every row against the constraint.
    pub fn check(&self) -> (r: bool)
        ensures
            r == self.all_satisfied(),
    {
        let mut i: usize = 0;
        while i < self.rows.len()
            invariant
                i <= self.rows@.len(),
                forall|k: int| 0 <= k < i ==> (#[trigger] self.rows@[k]).satisfied(),
            decreases self.rows@.len() - i,
        {
            if !self.rows[i].is_satisfied() {
                return false;
            }
            i += 1;
        }
        true
    }
}

} // verus!
