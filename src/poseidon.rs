//! The Poseidon permutation over the native field, and the sponge built on
//! it. The round constants and the MDS matrices, with their sparse
//! factorisation, come in as a table fixed per (width, full rounds, partial
//! rounds).
use crate::field::{Fe, fe_add, fe_mul, fe_pow5, fe_zero, field_add, field_mul, pow5};
use crate::input::rows_view;
use vstd::prelude::*;

verus! {

/// The rank-one factor of the MDS matrix that a partial round applies.
#[derive(Clone, Debug)]
pub struct SparseMatrix {
    pub row: Vec<Fe>,
    pub col_hat: Vec<Fe>,
}

/// The parameters of one instance of the permutation: its width `t`, its rate,
/// the number of full rounds `r_f`, and the constant tables.
#[derive(Clone, Debug)]
pub struct PoseidonSpec {
    pub t: usize,
    pub rate: usize,
    pub r_f: usize,
    /// The constants of the pre-round and of the first half of the full rounds.
    pub start: Vec<Vec<Fe>>,
    /// One constant per partial round.
    pub partial: Vec<Fe>,
    /// The constants of the second half of the full rounds but its last.
    pub end: Vec<Vec<Fe>>,
    pub mds: Vec<Vec<Fe>>,
    pub pre_sparse_mds: Vec<Vec<Fe>>,
    pub sparse_matrices: Vec<SparseMatrix>,
}

pub open spec fn is_square(m: Seq<Vec<Fe>>, t: nat) -> bool {
    m.len() == t && forall|i: int| 0 <= i < t ==> (#[trigger] m[i])@.len() == t
}

pub open spec fn rows_of_len(m: Seq<Vec<Fe>>, t: nat) -> bool {
    forall|i: int| 0 <= i < m.len() ==> (#[trigger] m[i])@.len() == t
}

impl PoseidonSpec {
    pub open spec fn half(&self) -> nat {
        (self.r_f / 2) as nat
    }

    pub open spec fn r_p(&self) -> nat {
        self.partial@.len()
    }

    pub open spec fn wf(&self) -> bool {
        &&& 1 <= self.rate < self.t
        &&& self.r_f >= 2
        &&& self.r_f % 2 == 0
        &&& self.start@.len() == self.half() + 1
        &&& rows_of_len(self.start@, self.t as nat)
        &&& self.end@.len() == self.half() - 1
        &&& rows_of_len(self.end@, self.t as nat)
        &&& is_square(self.mds@, self.t as nat)
        &&& is_square(self.pre_sparse_mds@, self.t as nat)
        &&& self.sparse_matrices@.len() == self.partial@.len()
        &&& forall|i: int|
            0 <= i < self.sparse_matrices@.len() ==> {
                &&& (#[trigger] self.sparse_matrices@[i]).row@.len() == self.t
                &&& self.sparse_matrices@[i].col_hat@.len() == self.t - 1
            }
    }

    /// The constants that full round `r` of the first half adds.
    pub open spec fn first_constants(&self, r: nat) -> Seq<Fe> {
        self.start@[r + 1 as int]@
    }

    /// The matrix of full round `r` of the first half: its last round mixes by
    /// the pre-sparse matrix.
    pub open spec fn first_matrix(&self, r: nat) -> Seq<Seq<Fe>> {
        if r + 1 == self.half() {
            rows_view(self.pre_sparse_mds@)
        } else {
            rows_view(self.mds@)
        }
    }

    /// The constants that full round `r` of the second half adds: none in the
    /// last round.
    pub open spec fn second_constants(&self, r: nat) -> Seq<Fe> {
        if r + 1 < self.half() {
            self.end@[r as int]@
        } else {
            Seq::new(self.t as nat, |i: int| fe_zero())
        }
    }
}

/// `a[0] * b[0] + ... + a[n-1] * b[n-1]`, summed from the left.
pub open spec fn dot(a: Seq<Fe>, b: Seq<Fe>, n: nat) -> Fe
    decreases n,
{
    if n == 0 {
        fe_zero()
    } else {
        fe_add(dot(a, b, (n - 1) as nat), fe_mul(a[n - 1], b[n - 1]))
    }
}

pub open spec fn mat_vec(m: Seq<Seq<Fe>>, v: Seq<Fe>) -> Seq<Fe> {
    Seq::new(m.len(), |i: int| dot(m[i], v, v.len()))
}

pub open spec fn add_vec(a: Seq<Fe>, b: Seq<Fe>) -> Seq<Fe> {
    Seq::new(a.len(), |i: int| fe_add(a[i], b[i]))
}

pub open spec fn sbox_full(s: Seq<Fe>) -> Seq<Fe> {
    Seq::new(s.len(), |i: int| fe_pow5(s[i]))
}

/// The absorbed block as the permutation sees it: a zero for the capacity
/// slot, the inputs, a one that separates domains, then zeros.
pub open spec fn padded(inputs: Seq<Fe>, t: nat) -> Seq<Fe> {
    Seq::new(
        t,
        |i: int|
            if i == 0 {
                fe_zero()
            } else if i <= inputs.len() {
                inputs[i - 1]
            } else if i == inputs.len() + 1 {
                Fe { w0: 1, w1: 0, w2: 0, w3: 0 }
            } else {
                fe_zero()
            },
    )
}

/// Adds the padded block and then the first constants to every slot.
pub open spec fn pre_round(sp: PoseidonSpec, s: Seq<Fe>, inputs: Seq<Fe>) -> Seq<Fe> {
    let p = padded(inputs, sp.t as nat);
    Seq::new(sp.t as nat, |i: int| fe_add(fe_add(s[i], p[i]), sp.start@[0]@[i]))
}

/// S-box on every slot, the round constants, then the matrix.
pub open spec fn full_round(s: Seq<Fe>, c: Seq<Fe>, m: Seq<Seq<Fe>>) -> Seq<Fe> {
    mat_vec(m, add_vec(sbox_full(s), c))
}

/// The rank-one mix: slot 0 becomes `row . v`, slot `i` gains
/// `col_hat[i-1] * v[0]`.
pub open spec fn sparse_mix(sm: SparseMatrix, v: Seq<Fe>) -> Seq<Fe> {
    Seq::new(
        v.len(),
        |i: int|
            if i == 0 {
                dot(sm.row@, v, v.len())
            } else {
                fe_add(fe_mul(sm.col_hat@[i - 1], v[0]), v[i])
            },
    )
}

/// S-box and constant on slot 0 only, then the sparse matrix.
pub open spec fn partial_round(s: Seq<Fe>, c: Fe, sm: SparseMatrix) -> Seq<Fe> {
    sparse_mix(sm, s.update(0, fe_add(fe_pow5(s[0]), c)))
}

/// The first `n` full rounds of the first half.
pub open spec fn first_half(sp: PoseidonSpec, s: Seq<Fe>, n: nat) -> Seq<Fe>
    decreases n,
{
    if n == 0 {
        s
    } else {
        let r = (n - 1) as nat;
        full_round(first_half(sp, s, r), sp.first_constants(r), sp.first_matrix(r))
    }
}

/// The first `n` partial rounds.
pub open spec fn partial_rounds(sp: PoseidonSpec, s: Seq<Fe>, n: nat) -> Seq<Fe>
    decreases n,
{
    if n == 0 {
        s
    } else {
        let r = n - 1;
        partial_round(partial_rounds(sp, s, (n - 1) as nat), sp.partial@[r], sp.sparse_matrices@[r])
    }
}

/// The first `n` full rounds of the second half.
pub open spec fn second_half(sp: PoseidonSpec, s: Seq<Fe>, n: nat) -> Seq<Fe>
    decreases n,
{
    if n == 0 {
        s
    } else {
        let r = (n - 1) as nat;
        full_round(second_half(sp, s, r), sp.second_constants(r), rows_view(sp.mds@))
    }
}

/// One call of the permutation on `state` with at most `rate` inputs.
pub open spec fn permutation(sp: PoseidonSpec, state: Seq<Fe>, inputs: Seq<Fe>) -> Seq<Fe> {
    let s = first_half(sp, pre_round(sp, state, inputs), sp.half());
    second_half(sp, partial_rounds(sp, s, sp.r_p()), sp.half())
}

} // verus!

verus! {

/// The sum of `a[i] * b[i]` over the first `n` slots.
pub fn dot_exec(a: &Vec<Fe>, b: &Vec<Fe>, n: usize) -> (r: Fe)
    requires
        n <= a@.len(),
        n <= b@.len(),
    ensures
        r == dot(a@, b@, n as nat),
{
    let mut acc = Fe::zero();
    let mut i: usize = 0;
    while i < n
        invariant
            i <= n,
            n <= a@.len(),
            n <= b@.len(),
            acc == dot(a@, b@, i as nat),
        decreases n - i,
    {
        acc = field_add(acc, field_mul(a[i], b[i]));
        i += 1;
    }
    acc
}

/// One full round.
pub fn full_round_exec(s: &Vec<Fe>, c: &Vec<Fe>, m: &Vec<Vec<Fe>>) -> (r: Vec<Fe>)
    requires
        c@.len() == s@.len(),
        rows_of_len(m@, s@.len()),
    ensures
        r@ == full_round(s@, c@, rows_view(m@)),
{
    let mut x: Vec<Fe> = Vec::new();
    let mut i: usize = 0;
    while i < s.len()
        invariant
            i <= s@.len(),
            c@.len() == s@.len(),
            x@ == add_vec(sbox_full(s@), c@).subrange(0, i as int),
        decreases s@.len() - i,
    {
        x.push(field_add(pow5(s[i]), c[i]));
        proof {
            assert(x@ =~= add_vec(sbox_full(s@), c@).subrange(0, i + 1));
        }
        i += 1;
    }
    proof {
        assert(x@ =~= add_vec(sbox_full(s@), c@));
    }
    let mut out: Vec<Fe> = Vec::new();
    let mut k: usize = 0;
    while k < m.len()
        invariant
            k <= m@.len(),
            rows_of_len(m@, s@.len()),
            x@ == add_vec(sbox_full(s@), c@),
            out@ == mat_vec(rows_view(m@), x@).subrange(0, k as int),
        decreases m@.len() - k,
    {
        assert(m@[k as int]@.len() == s@.len());
        out.push(dot_exec(&m[k], &x, x.len()));
        proof {
            assert(out@ =~= mat_vec(rows_view(m@), x@).subrange(0, k + 1));
        }
        k += 1;
    }
    proof {
        assert(out@ =~= mat_vec(rows_view(m@), x@));
    }
    out
}

/// One partial round.
pub fn partial_round_exec(s: &Vec<Fe>, c: Fe, sm: &SparseMatrix) -> (r: Vec<Fe>)
    requires
        s@.len() >= 1,
        sm.row@.len() == s@.len(),
        sm.col_hat@.len() == s@.len() - 1,
    ensures
        r@ == partial_round(s@, c, *sm),
{
    let mut v: Vec<Fe> = Vec::new();
    let mut i: usize = 0;
    while i < s.len()
        invariant
            i <= s@.len(),
            s@.len() >= 1,
            v@ == s@.update(0, fe_add(fe_pow5(s@[0]), c)).subrange(0, i as int),
        decreases s@.len() - i,
    {
        if i == 0 {
            v.push(field_add(pow5(s[0]), c));
        } else {
            v.push(s[i]);
        }
        proof {
            assert(v@ =~= s@.update(0, fe_add(fe_pow5(s@[0]), c)).subrange(0, i + 1));
        }
        i += 1;
    }
    proof {
        assert(v@ =~= s@.update(0, fe_add(fe_pow5(s@[0]), c)));
    }
    let mut out: Vec<Fe> = Vec::new();
    let mut k: usize = 0;
    while k < v.len()
        invariant
            k <= v@.len(),
            v@.len() == s@.len(),
            s@.len() >= 1,
            sm.row@.len() == s@.len(),
            sm.col_hat@.len() == s@.len() - 1,
            out@ == sparse_mix(*sm, v@).subrange(0, k as int),
        decreases v@.len() - k,
    {
        if k == 0 {
            out.push(dot_exec(&sm.row, &v, v.len()));
        } else {
            out.push(field_add(field_mul(sm.col_hat[k - 1], v[0]), v[k]));
        }
        proof {
            assert(out@ =~= sparse_mix(*sm, v@).subrange(0, k + 1));
        }
        k += 1;
    }
    proof {
        assert(out@ =~= sparse_mix(*sm, v@));
    }
    out
}

/// The block that the pre-round adds, for inputs that fit in the rate.
pub fn padded_exec(inputs: &Vec<Fe>, t: usize) -> (r: Vec<Fe>)
    requires
        inputs@.len() < t,
    ensures
        r@ == padded(inputs@, t as nat),
{
    let mut r: Vec<Fe> = Vec::new();
    let mut i: usize = 0;
    while i < t
        invariant
            i <= t,
            inputs@.len() < t,
            r@ == padded(inputs@, t as nat).subrange(0, i as int),
        decreases t - i,
    {
        if i == 0 {
            r.push(Fe::zero());
        } else if i <= inputs.len() {
            r.push(inputs[i - 1]);
        } else if i == inputs.len() + 1 {
            r.push(Fe::from_u64(1));
        } else {
            r.push(Fe::zero());
        }
        proof {
            assert(r@ =~= padded(inputs@, t as nat).subrange(0, i + 1));
        }
        i += 1;
    }
    proof {
        assert(r@ =~= padded(inputs@, t as nat));
    }
    r
}

impl PoseidonSpec {
    /// The pre-round: the padded block and the first constants added slot by
    /// slot.
    pub fn pre_round(&self, inputs: &Vec<Fe>, state: &Vec<Fe>) -> (r: Vec<Fe>)
        requires
            self.wf(),
            inputs@.len() <= self.rate,
            state@.len() == self.t,
        ensures
            r@ == pre_round(*self, state@, inputs@),
    {
        let p = padded_exec(inputs, self.t);
        let c = &self.start[0];
        let mut r: Vec<Fe> = Vec::new();
        let mut i: usize = 0;
        while i < self.t
            invariant
                self.wf(),
                i <= self.t,
                state@.len() == self.t,
                p@ == padded(inputs@, self.t as nat),
                c@ == self.start@[0]@,
                r@ == pre_round(*self, state@, inputs@).subrange(0, i as int),
            decreases self.t - i,
        {
            assert(c@.len() == self.t);
            r.push(field_add(field_add(state[i], p[i]), c[i]));
            proof {
                assert(r@ =~= pre_round(*self, state@, inputs@).subrange(0, i + 1));
            }
            i += 1;
        }
        proof {
            assert(r@ =~= pre_round(*self, state@, inputs@));
        }
        r
    }

    /// The whole permutation on `state` with at most `rate` inputs.
    pub fn permutation(&self, inputs: &Vec<Fe>, state: &Vec<Fe>) -> (r: Vec<Fe>)
        requires
            self.wf(),
            inputs@.len() <= self.rate,
            state@.len() == self.t,
        ensures
            r@ == permutation(*self, state@, inputs@),
            r@.len() == self.t,
    {
        let half = self.r_f / 2;
        let mut s = self.pre_round(inputs, state);
        let ghost s0 = s@;
        let mut r: usize = 0;
        while r < half
            invariant
                self.wf(),
                half == self.half(),
                r <= half,
                s@ == first_half(*self, s0, r as nat),
                s@.len() == self.t,
            decreases half - r,
        {
            assert(self.start@[r + 1]@.len() == self.t);
            let m = if r + 1 == half {
                &self.pre_sparse_mds
            } else {
                &self.mds
            };
            s = full_round_exec(&s, &self.start[r + 1], m);
            proof {
                assert(s@.len() == self.t);
            }
            r += 1;
        }
        let ghost s1 = s@;
        let mut r: usize = 0;
        while r < self.partial.len()
            invariant
                self.wf(),
                r <= self.partial@.len(),
                s@ == partial_rounds(*self, s1, r as nat),
                s@.len() == self.t,
            decreases self.partial@.len() - r,
        {
            s = partial_round_exec(&s, self.partial[r], &self.sparse_matrices[r]);
            r += 1;
        }
        let ghost s2 = s@;
        let zero_constants = zero_vec(self.t);
        let mut r: usize = 0;
        while r < half
            invariant
                self.wf(),
                half == self.half(),
                r <= half,
                s@ == second_half(*self, s2, r as nat),
                s@.len() == self.t,
                zero_constants@ == Seq::new(self.t as nat, |i: int| fe_zero()),
            decreases half - r,
        {
            let c = if r + 1 < half {
                &self.end[r]
            } else {
                &zero_constants
            };
            assert(c@ == self.second_constants(r as nat));
            s = full_round_exec(&s, c, &self.mds);
            r += 1;
        }
        s
    }
}

/// `n` zeros.
pub fn zero_vec(n: usize) -> (r: Vec<Fe>)
    ensures
        r@ == Seq::new(n as nat, |i: int| fe_zero()),
{
    let mut r: Vec<Fe> = Vec::new();
    while r.len() < n
        invariant
            r@.len() <= n,
            r@ == Seq::new(r@.len(), |i: int| fe_zero()),
        decreases n - r@.len(),
    {
        r.push(Fe::zero());
        proof {
            assert(r@ =~= Seq::new(r@.len(), |i: int| fe_zero()));
        }
    }
    r
}

} // verus!

verus! {

/// The state the sponge starts from: `2^64` in the capacity slot, zeros
/// elsewhere.
pub open spec fn initial_state(t: nat) -> Seq<Fe> {
    Seq::new(t, |i: int| if i == 0 { Fe { w0: 0, w1: 1, w2: 0, w3: 0 } } else { fe_zero() })
}

/// The state after absorbing `buf` from `state`, one permutation per chunk of
/// `rate` elements; the last chunk may be shorter.
pub open spec fn absorb_from(sp: PoseidonSpec, state: Seq<Fe>, buf: Seq<Fe>) -> Seq<Fe>
    decreases buf.len(),
{
    if buf.len() == 0 || sp.rate == 0 {
        state
    } else if buf.len() <= sp.rate {
        permutation(sp, state, buf)
    } else {
        absorb_from(sp, permutation(sp, state, buf.take(sp.rate as int)), buf.skip(sp.rate as int))
    }
}

/// Whether the buffer ends exactly on a chunk boundary, which calls for one
/// more permutation on an empty chunk.
pub open spec fn ends_on_boundary(sp: PoseidonSpec, buf: Seq<Fe>) -> bool {
    buf.len() > 0 && buf.len() % (sp.rate as nat) == 0
}

/// The final state of the sponge on `buf`.
pub open spec fn sponge_state(sp: PoseidonSpec, buf: Seq<Fe>) -> Seq<Fe> {
    let s = absorb_from(sp, initial_state(sp.t as nat), buf);
    if ends_on_boundary(sp, buf) {
        permutation(sp, s, Seq::empty())
    } else {
        s
    }
}

/// The digest of `buf`: the first rate slot of the final state.
pub open spec fn sponge_hash(sp: PoseidonSpec, buf: Seq<Fe>) -> Fe {
    sponge_state(sp, buf)[1]
}

/// The sponge: a buffer of absorbed elements over one permutation.
#[derive(Clone, Debug)]
pub struct PoseidonSponge {
    pub spec: PoseidonSpec,
    pub buf: Vec<Fe>,
}

impl PoseidonSponge {
    pub fn new(spec: PoseidonSpec) -> (r: PoseidonSponge)
        ensures
            r.spec == spec,
            r.buf@ == Seq::<Fe>::empty(),
    {
        PoseidonSponge { spec, buf: Vec::new() }
    }

    /// Buffers `inputs`; nothing is permuted yet.
    pub fn update(&mut self, inputs: &Vec<Fe>)
        ensures
            final(self).spec == old(self).spec,
            final(self).buf@ == old(self).buf@ + inputs@,
    {
        crate::stream::append_all(inputs, &mut self.buf);
    }

    /// The digest of everything buffered so far.
    pub fn squeeze(&self) -> (r: Fe)
        requires
            self.spec.wf(),
        ensures
            r == sponge_hash(self.spec, self.buf@),
    {
        let sp = &self.spec;
        let buf = &self.buf;
        let len = buf.len();
        let mut s = initial_state_exec(sp.t);
        let mut i: usize = 0;
        proof {
            assert(buf@.subrange(0, len as int) == buf@);
        }
        while i < len
            invariant
                sp.wf(),
                len == buf@.len(),
                i <= len,
                s@.len() == sp.t,
                absorb_from(*sp, initial_state(sp.t as nat), buf@) == absorb_from(
                    *sp,
                    s@,
                    buf@.subrange(i as int, len as int),
                ),
            decreases len - i,
        {
            let rem = len - i;
            let take = if rem <= sp.rate {
                rem
            } else {
                sp.rate
            };
            let mut chunk: Vec<Fe> = Vec::new();
            let mut j: usize = 0;
            while j < take
                invariant
                    j <= take,
                    i + take <= len,
                    len == buf@.len(),
                    chunk@ == buf@.subrange(i as int, i + j),
                decreases take - j,
            {
                chunk.push(buf[i + j]);
                proof {
                    assert(chunk@ =~= buf@.subrange(i as int, i + j + 1));
                }
                j += 1;
            }
            let ghost old_s = s@;
            s = sp.permutation(&chunk, &s);
            proof {
                let rest = buf@.subrange(i as int, len as int);
                if rem <= sp.rate {
                    assert(chunk@ =~= rest);
                    assert(buf@.subrange((i + take) as int, len as int).len() == 0);
                } else {
                    assert(rest.take(sp.rate as int) =~= chunk@);
                    assert(rest.skip(sp.rate as int) =~= buf@.subrange((i + take) as int, len as int));
                }
            }
            i += take;
        }
        proof {
            assert(buf@.subrange(len as int, len as int).len() == 0);
        }
        if len > 0 && len % sp.rate == 0 {
            s = sp.permutation(&Vec::new(), &s);
        }
        s[1]
    }
}

pub fn initial_state_exec(t: usize) -> (r: Vec<Fe>)
    ensures
        r@ == initial_state(t as nat),
{
    let mut r: Vec<Fe> = Vec::new();
    let mut i: usize = 0;
    while i < t
        invariant
            i <= t,
            r@ == initial_state(t as nat).subrange(0, i as int),
        decreases t - i,
    {
        if i == 0 {
            r.push(Fe { w0: 0, w1: 1, w2: 0, w3: 0 });
        } else {
            r.push(Fe::zero());
        }
        proof {
            assert(r@ =~= initial_state(t as nat).subrange(0, i + 1));
        }
        i += 1;
    }
    proof {
        assert(r@ =~= initial_state(t as nat));
    }
    r
}

} // verus!

verus! {

/// Absorbing a buffer that ends on a chunk boundary and then more elements is
/// absorbing the first part, then the rest.
proof fn lemma_absorb_concat(sp: PoseidonSpec, s: Seq<Fe>, x: Seq<Fe>, y: Seq<Fe>)
    requires
        sp.rate >= 1,
        x.len() % (sp.rate as nat) == 0,
    ensures
        absorb_from(sp, s, x + y) == absorb_from(sp, absorb_from(sp, s, x), y),
    decreases x.len(),
{
    let r = sp.rate as int;
    if x.len() == 0 {
        assert(x + y =~= y);
    } else {
        if y.len() == 0 {
            assert(x + y =~= x);
        } else {
            assert(x.len() >= r) by {
                if x.len() < r {
                    vstd::arithmetic::div_mod::lemma_small_mod(x.len(), sp.rate as nat);
                }
            }
            assert((x + y).take(r) =~= x.take(r));
            assert((x + y).skip(r) =~= x.skip(r) + y);
            if x.len() == r {
                assert(x.take(r) =~= x);
                assert(x.skip(r).len() == 0);
                assert(x.skip(r) + y =~= y);
            } else {
                assert(x.skip(r).len() % (sp.rate as nat) == 0) by {
                    vstd::arithmetic::div_mod::lemma_mod_sub_multiples_vanish(x.len() as int, r);
                }
                lemma_absorb_concat(sp, permutation(sp, s, x.take(r)), x.skip(r), y);
            }
        }
    }
}

/// Domain separation at a chunk boundary: a buffer that ends exactly on a
/// chunk boundary is finished by a permutation on an empty chunk, while the
/// same buffer with one more zero is finished by a permutation on the chunk
/// holding that zero, from the same state; the two padded blocks differ in
/// their first rate slot.
pub proof fn lemma_boundary_separation(sp: PoseidonSpec, x: Seq<Fe>)
    requires
        sp.wf(),
        ends_on_boundary(sp, x),
    ensures
        sponge_hash(sp, x) == permutation(
            sp,
            absorb_from(sp, initial_state(sp.t as nat), x),
            Seq::empty(),
        )[1],
        sp.rate >= 2 ==> sponge_hash(sp, x.push(fe_zero())) == permutation(
            sp,
            absorb_from(sp, initial_state(sp.t as nat), x),
            seq![fe_zero()],
        )[1],
        padded(Seq::empty(), sp.t as nat)[1] != padded(seq![fe_zero()], sp.t as nat)[1],
{
    let s0 = initial_state(sp.t as nat);
    lemma_absorb_concat(sp, s0, x, seq![fe_zero()]);
    assert(x + seq![fe_zero()] =~= x.push(fe_zero()));
    if sp.rate >= 2 {
        let n = x.len() as int;
        let r = sp.rate as int;
        assert((n + 1) % r == 1) by {
            vstd::arithmetic::div_mod::lemma_add_mod_noop(n, 1, r);
            vstd::arithmetic::div_mod::lemma_small_mod(1, r as nat);
        }
        assert(!ends_on_boundary(sp, x.push(fe_zero())));
    }
}

} // verus!
