//! The canonical form of one step of the recursion: what the step circuit
//! takes as witness, and the order in which it is fed to the random oracle.
use crate::field::{Fe, SupportScalar, fe_zero, modulus, project};
use crate::scheme::{
    AccumulatorInstance, FoldablePlonkInstance, InputError, MainPoint, PlonkInstance,
    PlonkStructure, ProtoGalaxyProof, RelaxedPlonkInstance, SCInstancesHashAcc, SupportPoint,
    SupportStructure,
    all_affine_main, all_affine_support, all_in_field, all_rows_in_field, coords,
};
use crate::stream::{append_all, append_pairs, append_rows, flatten_pairs, flatten_rows};
use vstd::prelude::*;

verus! {

/// The number of limbs of a coordinate of a native-curve point.
pub const LIMBS_COUNT: usize = 10;

/// The width of one limb, in bits.
pub const LIMB_WIDTH: u64 = 32;

pub open spec fn limb_base() -> int {
    0x1_0000_0000
}

/// The low and high limbs of one 64-bit word.
pub open spec fn low_limb(w: u64) -> Fe {
    Fe { w0: (w % 0x1_0000_0000) as u64, w1: 0, w2: 0, w3: 0 }
}

pub open spec fn high_limb(w: u64) -> Fe {
    Fe { w0: (w / 0x1_0000_0000) as u64, w1: 0, w2: 0, w3: 0 }
}

/// A coordinate as its ten 32-bit limbs, least significant first; the two
/// limbs above 256 bits are zero.
pub open spec fn limbs_of(c: SupportScalar) -> Seq<Fe> {
    seq![
        low_limb(c.w0), high_limb(c.w0), low_limb(c.w1), high_limb(c.w1),
        low_limb(c.w2), high_limb(c.w2), low_limb(c.w3), high_limb(c.w3),
        fe_zero(), fe_zero(),
    ]
}

/// A support scalar read as a native field element, word for word.
pub open spec fn lift(s: SupportScalar) -> Fe {
    Fe { w0: s.w0, w1: s.w1, w2: s.w2, w3: s.w3 }
}

pub open spec fn rows_view(rows: Seq<Vec<Fe>>) -> Seq<Seq<Fe>> {
    rows.map_values(|r: Vec<Fe>| r@)
}

pub open spec fn lift_seq(xs: Seq<SupportScalar>) -> Seq<Fe> {
    xs.map_values(|s: SupportScalar| lift(s))
}

pub open spec fn lift_rows(rows: Seq<Vec<SupportScalar>>) -> Seq<Seq<Fe>> {
    rows.map_values(|r: Vec<SupportScalar>| lift_seq(r@))
}

pub open spec fn all_zero(xs: Seq<Fe>) -> bool {
    forall|i: int| 0 <= i < xs.len() ==> xs[i] == fe_zero()
}

/// Two rectangles have rows of the same lengths.
pub open spec fn same_shape(a: Seq<Vec<Fe>>, b: Seq<Vec<Fe>>) -> bool {
    a.len() == b.len() && forall|i: int| 0 <= i < a.len() ==> (#[trigger] a[i])@.len() == b[i]@.len()
}

pub open spec fn rows_zero(a: Seq<Vec<Fe>>) -> bool {
    forall|i: int| 0 <= i < a.len() ==> all_zero((#[trigger] a[i])@)
}

/// A copy of a list of field elements.
pub fn copy_fes(xs: &Vec<Fe>) -> (r: Vec<Fe>)
    ensures
        r@ == xs@,
{
    let mut r: Vec<Fe> = Vec::new();
    append_all(xs, &mut r);
    proof {
        assert(r@ == Seq::<Fe>::empty() + xs@);
    }
    r
}

/// A copy of a rectangle of field elements.
pub fn copy_rows(rows: &Vec<Vec<Fe>>) -> (r: Vec<Vec<Fe>>)
    ensures
        rows_view(r@) == rows_view(rows@),
{
    let mut r: Vec<Vec<Fe>> = Vec::new();
    let mut i: usize = 0;
    while i < rows.len()
        invariant
            i <= rows.len(),
            r@.len() == i,
            forall|j: int| 0 <= j < i ==> (#[trigger] r@[j])@ == rows@[j]@,
        decreases rows.len() - i,
    {
        r.push(copy_fes(&rows[i]));
        i += 1;
    }
    proof {
        assert(rows_view(r@) =~= rows_view(rows@));
    }
    r
}

/// `n` zeros.
pub fn zeros(n: usize) -> (r: Vec<Fe>)
    ensures
        r@.len() == n,
        all_zero(r@),
{
    let mut r: Vec<Fe> = Vec::new();
    while r.len() < n
        invariant
            r@.len() <= n,
            all_zero(r@),
        decreases n - r@.len(),
    {
        r.push(Fe::zero());
    }
    r
}

/// A rectangle of zeros with the given row lengths.
pub fn zero_rows(lens: &Vec<usize>) -> (r: Vec<Vec<Fe>>)
    ensures
        r@.len() == lens@.len(),
        forall|i: int| 0 <= i < lens@.len() ==> (#[trigger] r@[i])@.len() == lens@[i],
        rows_zero(r@),
{
    let mut r: Vec<Vec<Fe>> = Vec::new();
    let mut i: usize = 0;
    while i < lens.len()
        invariant
            i <= lens.len(),
            r@.len() == i,
            forall|j: int| 0 <= j < i ==> (#[trigger] r@[j])@.len() == lens@[j],
            rows_zero(r@),
        decreases lens.len() - i,
    {
        r.push(zeros(lens[i]));
        i += 1;
    }
    r
}

/// A rectangle of zeros with the shape of `rows`.
pub fn zero_rows_like(rows: &Vec<Vec<Fe>>) -> (r: Vec<Vec<Fe>>)
    ensures
        same_shape(r@, rows@),
        rows_zero(r@),
{
    let mut r: Vec<Vec<Fe>> = Vec::new();
    let mut i: usize = 0;
    while i < rows.len()
        invariant
            i <= rows.len(),
            r@.len() == i,
            forall|j: int| 0 <= j < i ==> (#[trigger] r@[j])@.len() == rows@[j]@.len(),
            rows_zero(r@),
        decreases rows.len() - i,
    {
        r.push(zeros(rows[i].len()));
        i += 1;
    }
    r
}

/// A point of the native curve with each coordinate split into limbs of the
/// native field.
#[derive(Clone, Debug)]
pub struct BigUintPoint {
    pub x: Vec<Fe>,
    pub y: Vec<Fe>,
}

impl BigUintPoint {
    pub open spec fn absorbed(&self) -> Seq<Fe> {
        self.x@ + self.y@
    }

    /// The limbs are those of the affine coordinates of `p`.
    pub open spec fn is_limbs_of(&self, p: MainPoint) -> bool {
        match p {
            MainPoint::Affine { x, y } => self.x@ == limbs_of(x) && self.y@ == limbs_of(y),
            MainPoint::Identity => false,
        }
    }

    pub open spec fn is_identity(&self) -> bool {
        self.x@.len() == LIMBS_COUNT && self.y@.len() == LIMBS_COUNT && all_zero(self.x@)
            && all_zero(self.y@)
    }

    /// The point with every limb zero, which stands in for the identity.
    pub fn identity() -> (r: BigUintPoint)
        ensures
            r.is_identity(),
    {
        BigUintPoint { x: zeros(LIMBS_COUNT), y: zeros(LIMBS_COUNT) }
    }

    /// Splits the affine coordinates of `p` into limbs; the identity has none.
    pub fn new(p: &MainPoint) -> (r: Result<BigUintPoint, InputError>)
        ensures
            r is Ok <==> *p is Affine,
            r is Ok ==> r->Ok_0.is_limbs_of(*p),
            r is Err ==> r->Err_0 == InputError::PointAtInfinity,
    {
        match p {
            MainPoint::Identity => Err(InputError::PointAtInfinity),
            MainPoint::Affine { x, y } => Ok(BigUintPoint { x: split_limbs(x), y: split_limbs(y) }),
        }
    }
}

fn limb(v: u64) -> (r: Fe)
    requires
        v < 0x1_0000_0000,
    ensures
        r == (Fe { w0: v, w1: 0, w2: 0, w3: 0 }),
{
    Fe::from_u64(v)
}

/// The ten limbs of a coordinate.
pub fn split_limbs(c: &SupportScalar) -> (r: Vec<Fe>)
    ensures
        r@ == limbs_of(*c),
{
    let b: u64 = 0x1_0000_0000;
    let mut r: Vec<Fe> = Vec::new();
    r.push(limb(c.w0 % b));
    r.push(Fe::from_u64(c.w0 / b));
    r.push(limb(c.w1 % b));
    r.push(Fe::from_u64(c.w1 / b));
    r.push(limb(c.w2 % b));
    r.push(Fe::from_u64(c.w2 / b));
    r.push(limb(c.w3 % b));
    r.push(Fe::from_u64(c.w3 / b));
    r.push(Fe::zero());
    r.push(Fe::zero());
    proof {
        assert(r@ =~= limbs_of(*c));
    }
    r
}

/// The limbs of a list of points, point after point.
pub open spec fn flatten_points(ps: Seq<BigUintPoint>) -> Seq<Fe>
    decreases ps.len(),
{
    if ps.len() == 0 {
        Seq::empty()
    } else {
        flatten_points(ps.drop_last()) + ps.last().absorbed()
    }
}

} // verus!

verus! {

/// Carries every scalar into the native field, in order.
pub fn project_all(xs: &Vec<SupportScalar>) -> (r: Result<Vec<Fe>, InputError>)
    ensures
        r is Ok <==> all_in_field(xs@),
        r is Ok ==> r->Ok_0@ == lift_seq(xs@),
        r is Err ==> r->Err_0 == InputError::NotInField,
{
    let mut out: Vec<Fe> = Vec::new();
    let mut i: usize = 0;
    while i < xs.len()
        invariant
            i <= xs.len(),
            out@ == lift_seq(xs@.subrange(0, i as int)),
            all_in_field(xs@.subrange(0, i as int)),
        decreases xs.len() - i,
    {
        match project(xs[i]) {
            Some(v) => out.push(v),
            None => {
                proof {
                    assert(!all_in_field(xs@)) by {
                        assert(!(xs@[i as int].val() < modulus()));
                    }
                }
                return Err(InputError::NotInField);
            },
        }
        proof {
            assert(out@ =~= lift_seq(xs@.subrange(0, i + 1)));
            assert(all_in_field(xs@.subrange(0, i + 1))) by {
                assert forall|j: int| 0 <= j < i + 1 implies (#[trigger] xs@.subrange(0, i + 1)[j]).val() < modulus() by {
                    if j < i {
                        assert(xs@.subrange(0, i + 1)[j] == xs@.subrange(0, i as int)[j]);
                    }
                }
            }
        }
        i += 1;
    }
    proof {
        assert(xs@.subrange(0, xs.len() as int) == xs@);
    }
    Ok(out)
}

/// Carries every row of scalars into the native field.
pub fn project_rows(rows: &Vec<Vec<SupportScalar>>) -> (r: Result<Vec<Vec<Fe>>, InputError>)
    ensures
        r is Ok <==> all_rows_in_field(rows@),
        r is Ok ==> rows_view(r->Ok_0@) == lift_rows(rows@),
        r is Err ==> r->Err_0 == InputError::NotInField,
{
    let mut out: Vec<Vec<Fe>> = Vec::new();
    let mut i: usize = 0;
    while i < rows.len()
        invariant
            i <= rows.len(),
            out@.len() == i,
            forall|j: int| 0 <= j < i ==> (#[trigger] out@[j])@ == lift_seq(rows@[j]@),
            forall|j: int| 0 <= j < i ==> all_in_field((#[trigger] rows@[j])@),
        decreases rows.len() - i,
    {
        match project_all(&rows[i]) {
            Ok(v) => out.push(v),
            Err(e) => {
                return Err(e);
            },
        }
        i += 1;
    }
    proof {
        assert(rows_view(out@) =~= lift_rows(rows@));
    }
    Ok(out)
}

/// The affine coordinates of every support point, in order.
pub fn support_coords(ps: &Vec<SupportPoint>) -> (r: Result<Vec<(Fe, Fe)>, InputError>)
    ensures
        r is Ok <==> all_affine_support(ps@),
        r is Ok ==> r->Ok_0@ == ps@.map_values(|p: SupportPoint| coords(p)),
        r is Err ==> r->Err_0 == InputError::PointAtInfinity,
{
    let mut out: Vec<(Fe, Fe)> = Vec::new();
    let mut i: usize = 0;
    while i < ps.len()
        invariant
            i <= ps.len(),
            out@.len() == i,
            forall|j: int| 0 <= j < i ==> (#[trigger] out@[j]) == coords(ps@[j]),
            forall|j: int| 0 <= j < i ==> (#[trigger] ps@[j]) is Affine,
        decreases ps.len() - i,
    {
        match ps[i] {
            SupportPoint::Affine { x, y } => out.push((x, y)),
            SupportPoint::Identity => {
                return Err(InputError::PointAtInfinity);
            },
        }
        i += 1;
    }
    proof {
        assert(out@ =~= ps@.map_values(|p: SupportPoint| coords(p)));
    }
    Ok(out)
}

/// The coordinates of one support point.
pub fn support_point_coords(p: &SupportPoint) -> (r: Result<(Fe, Fe), InputError>)
    ensures
        r is Ok <==> *p is Affine,
        r is Ok ==> r->Ok_0 == coords(*p),
        r is Err ==> r->Err_0 == InputError::PointAtInfinity,
{
    match p {
        SupportPoint::Affine { x, y } => Ok((*x, *y)),
        SupportPoint::Identity => Err(InputError::PointAtInfinity),
    }
}

/// The limbs of every native point, in order.
pub fn main_points(ps: &Vec<MainPoint>) -> (r: Result<Vec<BigUintPoint>, InputError>)
    ensures
        r is Ok <==> all_affine_main(ps@),
        r is Ok ==> r->Ok_0@.len() == ps@.len() && forall|i: int|
            0 <= i < ps@.len() ==> (#[trigger] r->Ok_0@[i]).is_limbs_of(ps@[i]),
        r is Err ==> r->Err_0 == InputError::PointAtInfinity,
{
    let mut out: Vec<BigUintPoint> = Vec::new();
    let mut i: usize = 0;
    while i < ps.len()
        invariant
            i <= ps.len(),
            out@.len() == i,
            forall|j: int| 0 <= j < i ==> (#[trigger] out@[j]).is_limbs_of(ps@[j]),
            forall|j: int| 0 <= j < i ==> (#[trigger] ps@[j]) is Affine,
        decreases ps.len() - i,
    {
        match BigUintPoint::new(&ps[i]) {
            Ok(b) => out.push(b),
            Err(e) => {
                return Err(e);
            },
        }
        i += 1;
    }
    Ok(out)
}

} // verus!

verus! {

/// Appends the limbs of every point, point after point.
pub fn append_points(ps: &Vec<BigUintPoint>, ro: &mut Vec<Fe>)
    ensures
        final(ro)@ == old(ro)@ + flatten_points(ps@),
{
    let mut i: usize = 0;
    while i < ps.len()
        invariant
            i <= ps.len(),
            ro@ == old(ro)@ + flatten_points(ps@.subrange(0, i as int)),
        decreases ps.len() - i,
    {
        append_all(&ps[i].x, ro);
        append_all(&ps[i].y, ro);
        proof {
            assert(ps@.subrange(0, i + 1).drop_last() == ps@.subrange(0, i as int));
        }
        i += 1;
    }
    proof {
        assert(ps@.subrange(0, ps.len() as int) == ps@);
    }
}

/// A plonk instance of the native track in canonical form.
#[derive(Clone, Debug)]
pub struct NativePlonkInstance {
    pub w_commitments: Vec<BigUintPoint>,
    pub instances: Vec<Vec<Fe>>,
    pub challenges: Vec<Fe>,
}

impl NativePlonkInstance {
    /// The stream: commitment limbs, then the public inputs column by column,
    /// then the challenges.
    pub open spec fn absorbed(&self) -> Seq<Fe> {
        flatten_points(self.w_commitments@) + flatten_rows(self.instances@) + self.challenges@
    }

    /// This is the canonical form of `src`.
    pub open spec fn projects(&self, src: PlonkInstance) -> bool {
        &&& self.w_commitments@.len() == src.w_commitments@.len()
        &&& forall|i: int|
            0 <= i < src.w_commitments@.len() ==> (#[trigger] self.w_commitments@[i]).is_limbs_of(
                src.w_commitments@[i],
            )
        &&& rows_view(self.instances@) == rows_view(src.instances@)
        &&& self.challenges@ == src.challenges@
    }

    /// Every value is zero and every commitment is the identity.
    pub open spec fn is_zero(&self) -> bool {
        &&& forall|i: int|
            0 <= i < self.w_commitments@.len() ==> (#[trigger] self.w_commitments@[i]).is_identity()
        &&& rows_zero(self.instances@)
        &&& all_zero(self.challenges@)
    }

    /// `self` and `o` have the same lengths at every level.
    pub open spec fn same_shape(&self, o: &NativePlonkInstance) -> bool {
        &&& self.w_commitments@.len() == o.w_commitments@.len()
        &&& same_shape(self.instances@, o.instances@)
        &&& self.challenges@.len() == o.challenges@.len()
    }

    pub fn new(acc: &PlonkInstance) -> (r: Result<NativePlonkInstance, InputError>)
        ensures
            r is Ok <==> all_affine_main(acc.w_commitments@),
            r is Ok ==> r->Ok_0.projects(*acc),
            r is Err ==> r->Err_0 == InputError::PointAtInfinity,
    {
        let w_commitments = main_points(&acc.w_commitments)?;
        Ok(
            NativePlonkInstance {
                w_commitments,
                instances: copy_rows(&acc.instances),
                challenges: copy_fes(&acc.challenges),
            },
        )
    }

    /// An instance of the same shape as `self` with every value zero.
    pub fn zeroed_like(&self) -> (r: NativePlonkInstance)
        ensures
            r.is_zero(),
            r.same_shape(self),
    {
        let mut w: Vec<BigUintPoint> = Vec::new();
        while w.len() < self.w_commitments.len()
            invariant
                w@.len() <= self.w_commitments@.len(),
                forall|i: int| 0 <= i < w@.len() ==> (#[trigger] w@[i]).is_identity(),
            decreases self.w_commitments@.len() - w@.len(),
        {
            w.push(BigUintPoint::identity());
        }
        NativePlonkInstance {
            w_commitments: w,
            instances: zero_rows_like(&self.instances),
            challenges: zeros(self.challenges.len()),
        }
    }

    pub fn absorb_into(&self, ro: &mut Vec<Fe>)
        ensures
            final(ro)@ == old(ro)@ + self.absorbed(),
    {
        append_points(&self.w_commitments, ro);
        append_rows(&self.instances, ro);
        append_all(&self.challenges, ro);
        proof {
            assert(final(ro)@ =~= old(ro)@ + self.absorbed());
        }
    }
}

/// A plonk instance of the support track in canonical form: its public
/// inputs and challenges are carried into the native field.
#[derive(Clone, Debug)]
pub struct SupportPlonkInstance {
    pub w_commitments: Vec<(Fe, Fe)>,
    pub instances: Vec<Vec<Fe>>,
    pub challenges: Vec<Fe>,
}

impl SupportPlonkInstance {
    /// The stream: commitment coordinates (x then y), then the public inputs
    /// column by column, then the challenges.
    pub open spec fn absorbed(&self) -> Seq<Fe> {
        flatten_pairs(self.w_commitments@) + flatten_rows(self.instances@) + self.challenges@
    }

    pub open spec fn projects(&self, src: FoldablePlonkInstance) -> bool {
        &&& self.w_commitments@ == src.w_commitments@.map_values(|p: SupportPoint| coords(p))
        &&& rows_view(self.instances@) == lift_rows(src.instances@)
        &&& self.challenges@ == lift_seq(src.challenges@)
    }

    pub open spec fn is_zero(&self) -> bool {
        &&& forall|i: int|
            0 <= i < self.w_commitments@.len() ==> #[trigger] self.w_commitments@[i] == (
            fe_zero(),
            fe_zero(),
        )
        &&& rows_zero(self.instances@)
        &&& all_zero(self.challenges@)
    }

    pub open spec fn same_shape(&self, o: &SupportPlonkInstance) -> bool {
        &&& self.w_commitments@.len() == o.w_commitments@.len()
        &&& same_shape(self.instances@, o.instances@)
        &&& self.challenges@.len() == o.challenges@.len()
    }

    pub fn new(acc: &FoldablePlonkInstance) -> (r: Result<SupportPlonkInstance, InputError>)
        ensures
            r is Ok <==> acc.points_affine() && acc.scalars_in_field(),
            r is Ok ==> r->Ok_0.projects(*acc),
            r is Err ==> r->Err_0 == (if acc.points_affine() {
                InputError::NotInField
            } else {
                InputError::PointAtInfinity
            }),
    {
        let w_commitments = support_coords(&acc.w_commitments)?;
        let instances = project_rows(&acc.instances)?;
        let challenges = project_all(&acc.challenges)?;
        Ok(SupportPlonkInstance { w_commitments, instances, challenges })
    }

    pub fn zeroed_like(&self) -> (r: SupportPlonkInstance)
        ensures
            r.is_zero(),
            r.same_shape(self),
    {
        SupportPlonkInstance {
            w_commitments: zero_pairs(self.w_commitments.len()),
            instances: zero_rows_like(&self.instances),
            challenges: zeros(self.challenges.len()),
        }
    }

    pub fn absorb_into(&self, ro: &mut Vec<Fe>)
        ensures
            final(ro)@ == old(ro)@ + self.absorbed(),
    {
        append_pairs(&self.w_commitments, ro);
        append_rows(&self.instances, ro);
        append_all(&self.challenges, ro);
        proof {
            assert(final(ro)@ =~= old(ro)@ + self.absorbed());
        }
    }
}

/// `n` copies of the pair of zeros.
pub fn zero_pairs(n: usize) -> (r: Vec<(Fe, Fe)>)
    ensures
        r@.len() == n,
        forall|i: int| 0 <= i < n ==> #[trigger] r@[i] == (fe_zero(), fe_zero()),
{
    let mut r: Vec<(Fe, Fe)> = Vec::new();
    while r.len() < n
        invariant
            r@.len() <= n,
            forall|i: int| 0 <= i < r@.len() ==> #[trigger] r@[i] == (fe_zero(), fe_zero()),
        decreases n - r@.len(),
    {
        r.push((Fe::zero(), Fe::zero()));
    }
    r
}

} // verus!

verus! {

/// The accumulator of the native track in canonical form.
#[derive(Clone, Debug)]
pub struct ProtoGalaxyAccumulatorInstance {
    pub ins: NativePlonkInstance,
    pub betas: Vec<Fe>,
    pub e: Fe,
}

impl ProtoGalaxyAccumulatorInstance {
    /// The stream: the instance, then the betas, then the error term.
    pub open spec fn absorbed(&self) -> Seq<Fe> {
        self.ins.absorbed() + self.betas@ + seq![self.e]
    }

    pub open spec fn projects(&self, src: AccumulatorInstance) -> bool {
        self.ins.projects(src.ins) && self.betas@ == src.betas@ && self.e == src.e
    }

    pub open spec fn is_zero(&self) -> bool {
        self.ins.is_zero() && all_zero(self.betas@) && self.e == fe_zero()
    }

    pub open spec fn same_shape(&self, o: &ProtoGalaxyAccumulatorInstance) -> bool {
        self.ins.same_shape(&o.ins) && self.betas@.len() == o.betas@.len()
    }

    pub fn new(acc: &AccumulatorInstance) -> (r: Result<ProtoGalaxyAccumulatorInstance, InputError>)
        ensures
            r is Ok <==> all_affine_main(acc.ins.w_commitments@),
            r is Ok ==> r->Ok_0.projects(*acc),
            r is Err ==> r->Err_0 == InputError::PointAtInfinity,
    {
        let ins = NativePlonkInstance::new(&acc.ins)?;
        Ok(ProtoGalaxyAccumulatorInstance { ins, betas: copy_fes(&acc.betas), e: acc.e })
    }

    pub fn zeroed_like(&self) -> (r: ProtoGalaxyAccumulatorInstance)
        ensures
            r.is_zero(),
            r.same_shape(self),
    {
        ProtoGalaxyAccumulatorInstance {
            ins: self.ins.zeroed_like(),
            betas: zeros(self.betas.len()),
            e: Fe::zero(),
        }
    }

    pub fn absorb_into(&self, ro: &mut Vec<Fe>)
        ensures
            final(ro)@ == old(ro)@ + self.absorbed(),
    {
        self.ins.absorb_into(ro);
        append_all(&self.betas, ro);
        ro.push(self.e);
        proof {
            assert(final(ro)@ =~= old(ro)@ + self.absorbed());
        }
    }
}

/// The number of native commitments, and of support instances folded per
/// step, for a number of native challenges.
pub open spec fn commitments_len_for(num_challenges: nat) -> nat {
    if num_challenges <= 1 {
        1
    } else {
        num_challenges
    }
}

/// The trace of the native track: the accumulator before the step, the
/// incoming instance and the folding proof.
#[derive(Clone, Debug)]
pub struct SelfTrace {
    pub input_accumulator: ProtoGalaxyAccumulatorInstance,
    pub incoming: NativePlonkInstance,
    pub proof: ProtoGalaxyProof,
}

impl SelfTrace {
    /// The stream: the accumulator, the incoming instance, then the
    /// coefficients of `poly_k` followed by those of `poly_f`.
    pub open spec fn absorbed(&self) -> Seq<Fe> {
        self.input_accumulator.absorbed() + self.incoming.absorbed() + self.proof.poly_k@
            + self.proof.poly_f@
    }

    pub open spec fn is_zero(&self) -> bool {
        &&& self.input_accumulator.is_zero()
        &&& self.incoming.is_zero()
        &&& all_zero(self.proof.poly_f@)
        &&& all_zero(self.proof.poly_k@)
    }

    pub open spec fn same_shape(&self, o: &SelfTrace) -> bool {
        &&& self.input_accumulator.same_shape(&o.input_accumulator)
        &&& self.incoming.same_shape(&o.incoming)
        &&& self.proof.poly_f@.len() == o.proof.poly_f@.len()
        &&& self.proof.poly_k@.len() == o.proof.poly_k@.len()
    }

    /// The lengths that the native structure `st` fixes, as `new_initial`
    /// gives them.
    pub open spec fn has_initial_shape(&self, st: PlonkStructure) -> bool {
        let ins = self.input_accumulator.ins;
        &&& ins.w_commitments@.len() == commitments_len_for(st.num_challenges as nat)
        &&& ins.instances@.len() == st.num_io@.len()
        &&& forall|i: int|
            0 <= i < st.num_io@.len() ==> (#[trigger] ins.instances@[i])@.len() == st.num_io@[i]
        &&& ins.challenges@.len() == st.num_challenges
        &&& self.incoming.same_shape(&ins)
        &&& self.input_accumulator.betas@.len() == st.betas_count
        &&& self.proof.poly_f@.len() == st.poly_f_len
        &&& self.proof.poly_k@.len() == st.poly_k_len
    }

    /// The zero trace of the native circuit's shape, with every commitment at
    /// the identity; a circuit with more than three challenges is refused.
    pub fn new_initial(native_plonk_structure: &PlonkStructure) -> (r: Result<SelfTrace, InputError>)
        ensures
            r is Ok <==> native_plonk_structure.num_challenges <= 3,
            r is Ok ==> r->Ok_0.is_zero() && r->Ok_0.has_initial_shape(*native_plonk_structure),
            r is Err ==> r->Err_0 == InputError::UnsupportedChallengeCount,
    {
        let n = native_plonk_structure.num_challenges;
        let w_commitments_len: usize = if n <= 1 {
            1
        } else if n <= 3 {
            n
        } else {
            return Err(InputError::UnsupportedChallengeCount);
        };
        let mut w: Vec<BigUintPoint> = Vec::new();
        while w.len() < w_commitments_len
            invariant
                w@.len() <= w_commitments_len,
                forall|i: int| 0 <= i < w@.len() ==> (#[trigger] w@[i]).is_identity(),
            decreases w_commitments_len - w@.len(),
        {
            w.push(BigUintPoint::identity());
        }
        let ins = NativePlonkInstance {
            w_commitments: w,
            instances: zero_rows(&native_plonk_structure.num_io),
            challenges: zeros(n),
        };
        let incoming = ins.zeroed_like();
        Ok(
            SelfTrace {
                input_accumulator: ProtoGalaxyAccumulatorInstance {
                    ins,
                    betas: zeros(native_plonk_structure.betas_count),
                    e: Fe::zero(),
                },
                incoming,
                proof: ProtoGalaxyProof {
                    poly_f: zeros(native_plonk_structure.poly_f_len),
                    poly_k: zeros(native_plonk_structure.poly_k_len),
                },
            },
        )
    }

    /// The number of commitments of the native instance.
    #[allow(non_snake_case)]
    pub fn W_commitments_len(&self) -> (r: usize)
        ensures
            r == self.input_accumulator.ins.w_commitments@.len(),
    {
        self.input_accumulator.ins.w_commitments.len()
    }

    pub fn zeroed_like(&self) -> (r: SelfTrace)
        ensures
            r.is_zero(),
            r.same_shape(self),
    {
        SelfTrace {
            input_accumulator: self.input_accumulator.zeroed_like(),
            incoming: self.incoming.zeroed_like(),
            proof: ProtoGalaxyProof {
                poly_f: zeros(self.proof.poly_f.len()),
                poly_k: zeros(self.proof.poly_k.len()),
            },
        }
    }

    pub fn absorb_into(&self, ro: &mut Vec<Fe>)
        ensures
            final(ro)@ == old(ro)@ + self.absorbed(),
    {
        self.input_accumulator.absorb_into(ro);
        self.incoming.absorb_into(ro);
        append_all(&self.proof.poly_k, ro);
        append_all(&self.proof.poly_f, ro);
        proof {
            assert(final(ro)@ =~= old(ro)@ + self.absorbed());
        }
    }
}

} // verus!

verus! {

/// The accumulator of the support track in canonical form.
#[derive(Debug)]
pub struct SangriaAccumulatorInstance {
    pub ins: SupportPlonkInstance,
    pub e_commitment: (Fe, Fe),
    pub u: Fe,
}

impl SangriaAccumulatorInstance {
    /// The stream: the instance, the slack `u`, the error commitment (x then
    /// y), then one zero that pads the place of a field this track keeps at
    /// zero.
    pub open spec fn absorbed(&self) -> Seq<Fe> {
        self.ins.absorbed() + seq![self.u, self.e_commitment.0, self.e_commitment.1, fe_zero()]
    }

    /// This is the canonical form of `src`: the consistency markers become
    /// the one column of public inputs.
    pub open spec fn projects(&self, src: RelaxedPlonkInstance) -> bool {
        &&& self.ins.w_commitments@ == src.w_commitments@.map_values(|p: SupportPoint| coords(p))
        &&& rows_view(self.ins.instances@) == seq![lift_seq(src.consistency_markers@)]
        &&& self.ins.challenges@ == lift_seq(src.challenges@)
        &&& self.e_commitment == coords(src.e_commitment)
        &&& self.u == lift(src.u)
    }

    pub open spec fn is_zero(&self) -> bool {
        self.ins.is_zero() && self.e_commitment == (fe_zero(), fe_zero()) && self.u == fe_zero()
    }

    pub open spec fn same_shape(&self, o: &SangriaAccumulatorInstance) -> bool {
        self.ins.same_shape(&o.ins)
    }

    pub fn new(acc: &RelaxedPlonkInstance) -> (r: Result<SangriaAccumulatorInstance, InputError>)
        requires
            acc.step_circuit_instances_hash_accumulator == SCInstancesHashAcc::Empty,
        ensures
            r is Ok <==> acc.points_affine() && acc.scalars_in_field(),
            r is Ok ==> r->Ok_0.projects(*acc),
            r is Err ==> r->Err_0 == (if acc.points_affine() {
                InputError::NotInField
            } else {
                InputError::PointAtInfinity
            }),
    {
        let w_commitments = support_coords(&acc.w_commitments)?;
        let e_commitment = support_point_coords(&acc.e_commitment)?;
        let markers = project_all(&acc.consistency_markers)?;
        let challenges = project_all(&acc.challenges)?;
        let u = match project(acc.u) {
            Some(u) => u,
            None => {
                return Err(InputError::NotInField);
            },
        };
        let mut instances: Vec<Vec<Fe>> = Vec::new();
        instances.push(markers);
        proof {
            assert(rows_view(instances@) =~= seq![lift_seq(acc.consistency_markers@)]);
        }
        Ok(
            SangriaAccumulatorInstance {
                ins: SupportPlonkInstance { w_commitments, instances, challenges },
                e_commitment,
                u,
            },
        )
    }

    pub fn zeroed_like(&self) -> (r: SangriaAccumulatorInstance)
        ensures
            r.is_zero(),
            r.same_shape(self),
    {
        SangriaAccumulatorInstance {
            ins: self.ins.zeroed_like(),
            e_commitment: (Fe::zero(), Fe::zero()),
            u: Fe::zero(),
        }
    }

    pub fn absorb_into(&self, ro: &mut Vec<Fe>)
        ensures
            final(ro)@ == old(ro)@ + self.absorbed(),
    {
        self.ins.absorb_into(ro);
        ro.push(self.u);
        ro.push(self.e_commitment.0);
        ro.push(self.e_commitment.1);
        ro.push(Fe::zero());
        proof {
            assert(final(ro)@ =~= old(ro)@ + self.absorbed());
        }
    }
}

/// One incoming instance of the support track with its cross-term
/// commitments.
#[derive(Clone, Debug)]
pub struct SupportIncoming {
    pub instance: SupportPlonkInstance,
    pub proof: Vec<(Fe, Fe)>,
}

impl SupportIncoming {
    /// The stream: the instance, then the cross-term commitments (x then y).
    pub open spec fn absorbed(&self) -> Seq<Fe> {
        self.instance.absorbed() + flatten_pairs(self.proof@)
    }

    pub open spec fn projects(&self, instance: FoldablePlonkInstance, proof: Seq<SupportPoint>) -> bool {
        self.instance.projects(instance) && self.proof@ == proof.map_values(
            |p: SupportPoint| coords(p),
        )
    }

    pub open spec fn is_zero(&self) -> bool {
        &&& self.instance.is_zero()
        &&& forall|i: int|
            0 <= i < self.proof@.len() ==> #[trigger] self.proof@[i] == (fe_zero(), fe_zero())
    }

    pub open spec fn same_shape(&self, o: &SupportIncoming) -> bool {
        self.instance.same_shape(&o.instance) && self.proof@.len() == o.proof@.len()
    }

    pub fn new(instance: &FoldablePlonkInstance, proof: &Vec<SupportPoint>) -> (r: Result<
        SupportIncoming,
        InputError,
    >)
        ensures
            r is Ok <==> all_affine_support(proof@) && instance.points_affine()
                && instance.scalars_in_field(),
            r is Ok ==> r->Ok_0.projects(*instance, proof@),
            r is Err ==> r->Err_0 == (if all_affine_support(proof@) && instance.points_affine() {
                InputError::NotInField
            } else {
                InputError::PointAtInfinity
            }),
    {
        let proof = support_coords(proof)?;
        let instance = SupportPlonkInstance::new(instance)?;
        Ok(SupportIncoming { instance, proof })
    }

    pub fn zeroed_like(&self) -> (r: SupportIncoming)
        ensures
            r.is_zero(),
            r.same_shape(self),
    {
        SupportIncoming { instance: self.instance.zeroed_like(), proof: zero_pairs(self.proof.len()) }
    }

    pub fn absorb_into(&self, ro: &mut Vec<Fe>)
        ensures
            final(ro)@ == old(ro)@ + self.absorbed(),
    {
        self.instance.absorb_into(ro);
        append_pairs(&self.proof, ro);
        proof {
            assert(final(ro)@ =~= old(ro)@ + self.absorbed());
        }
    }
}

/// The streams of a list of incoming instances, one after the other.
pub open spec fn flatten_incoming(xs: Seq<SupportIncoming>) -> Seq<Fe>
    decreases xs.len(),
{
    if xs.len() == 0 {
        Seq::empty()
    } else {
        flatten_incoming(xs.drop_last()) + xs.last().absorbed()
    }
}

/// The trace of the support track: the accumulator before the step and one
/// to three incoming instances.
#[derive(Debug)]
pub struct SupportTrace {
    pub input_accumulator: SangriaAccumulatorInstance,
    pub incoming: Vec<SupportIncoming>,
}

impl SupportTrace {
    /// The stream: the accumulator, then each incoming instance in order.
    pub open spec fn absorbed(&self) -> Seq<Fe> {
        self.input_accumulator.absorbed() + flatten_incoming(self.incoming@)
    }

    pub open spec fn is_zero(&self) -> bool {
        &&& self.input_accumulator.is_zero()
        &&& forall|i: int| 0 <= i < self.incoming@.len() ==> (#[trigger] self.incoming@[i]).is_zero()
    }

    pub open spec fn same_shape(&self, o: &SupportTrace) -> bool {
        &&& self.input_accumulator.same_shape(&o.input_accumulator)
        &&& self.incoming@.len() == o.incoming@.len()
        &&& forall|i: int|
            0 <= i < self.incoming@.len() ==> (#[trigger] self.incoming@[i]).same_shape(
                &o.incoming@[i],
            )
    }

    /// The initial trace: the given support instance carried over as the
    /// accumulator's instance and as each of `w_commitments_len` incoming
    /// instances, with zero cross terms (one fewer than the folding degree),
    /// a zero error commitment and a zero slack.
    pub fn new_initial(
        support_plonk_structure: &SupportStructure,
        support_plonk_instance: &FoldablePlonkInstance,
        w_commitments_len: usize,
    ) -> (r: Result<SupportTrace, InputError>)
        ensures
            r is Ok <==> support_plonk_instance.points_affine()
                && support_plonk_instance.scalars_in_field(),
            r is Err ==> r->Err_0 == (if support_plonk_instance.points_affine() {
                InputError::NotInField
            } else {
                InputError::PointAtInfinity
            }),
            r is Ok ==> {
                let t = r->Ok_0;
                &&& t.input_accumulator.ins.projects(*support_plonk_instance)
                &&& t.input_accumulator.e_commitment == (fe_zero(), fe_zero())
                &&& t.input_accumulator.u == fe_zero()
                &&& t.incoming@.len() == w_commitments_len
                &&& forall|i: int|
                    0 <= i < w_commitments_len ==> {
                        &&& (#[trigger] t.incoming@[i]).instance.projects(*support_plonk_instance)
                        &&& t.incoming@[i].proof@.len() == if support_plonk_structure.degree_for_folding
                            == 0 {
                            0
                        } else {
                            support_plonk_structure.degree_for_folding - 1
                        }
                        &&& forall|j: int|
                            0 <= j < t.incoming@[i].proof@.len() ==> #[trigger] t.incoming@[i].proof@[j]
                                == (fe_zero(), fe_zero())
                    }
            },
    {
        let ins = SupportPlonkInstance::new(support_plonk_instance)?;
        let cross_terms = support_plonk_structure.degree_for_folding.saturating_sub(1);
        let mut incoming: Vec<SupportIncoming> = Vec::new();
        while incoming.len() < w_commitments_len
            invariant
                incoming@.len() <= w_commitments_len,
                ins.projects(*support_plonk_instance),
                forall|i: int|
                    0 <= i < incoming@.len() ==> {
                        &&& (#[trigger] incoming@[i]).instance.projects(*support_plonk_instance)
                        &&& incoming@[i].proof@.len() == cross_terms
                        &&& forall|j: int|
                            0 <= j < incoming@[i].proof@.len() ==> #[trigger] incoming@[i].proof@[j]
                                == (fe_zero(), fe_zero())
                    },
            decreases w_commitments_len - incoming@.len(),
        {
            incoming.push(
                SupportIncoming { instance: ins.copy(), proof: zero_pairs(cross_terms) },
            );
        }
        Ok(
            SupportTrace {
                input_accumulator: SangriaAccumulatorInstance {
                    ins,
                    e_commitment: (Fe::zero(), Fe::zero()),
                    u: Fe::zero(),
                },
                incoming,
            },
        )
    }

    pub fn zeroed_like(&self) -> (r: SupportTrace)
        ensures
            r.is_zero(),
            r.same_shape(self),
    {
        let mut incoming: Vec<SupportIncoming> = Vec::new();
        let mut i: usize = 0;
        while i < self.incoming.len()
            invariant
                i <= self.incoming@.len(),
                incoming@.len() == i,
                forall|j: int| 0 <= j < i ==> (#[trigger] incoming@[j]).is_zero(),
                forall|j: int| 0 <= j < i ==> (#[trigger] incoming@[j]).same_shape(&self.incoming@[j]),
            decreases self.incoming@.len() - i,
        {
            incoming.push(self.incoming[i].zeroed_like());
            i += 1;
        }
        SupportTrace { input_accumulator: self.input_accumulator.zeroed_like(), incoming }
    }

    pub fn absorb_into(&self, ro: &mut Vec<Fe>)
        ensures
            final(ro)@ == old(ro)@ + self.absorbed(),
    {
        self.input_accumulator.absorb_into(ro);
        let ghost start = ro@;
        let mut i: usize = 0;
        while i < self.incoming.len()
            invariant
                i <= self.incoming@.len(),
                ro@ == start + flatten_incoming(self.incoming@.subrange(0, i as int)),
            decreases self.incoming@.len() - i,
        {
            self.incoming[i].absorb_into(ro);
            proof {
                assert(self.incoming@.subrange(0, i + 1).drop_last() == self.incoming@.subrange(
                    0,
                    i as int,
                ));
            }
            i += 1;
        }
        proof {
            assert(self.incoming@.subrange(0, self.incoming@.len() as int) == self.incoming@);
            assert(final(ro)@ =~= old(ro)@ + self.absorbed());
        }
    }
}

impl SupportPlonkInstance {
    /// A copy of the instance.
    pub fn copy(&self) -> (r: SupportPlonkInstance)
        ensures
            r.w_commitments@ == self.w_commitments@,
            rows_view(r.instances@) == rows_view(self.instances@),
            r.challenges@ == self.challenges@,
    {
        let mut i: usize = 0;
        let mut w2: Vec<(Fe, Fe)> = Vec::new();
        while i < self.w_commitments.len()
            invariant
                i <= self.w_commitments@.len(),
                w2@ == self.w_commitments@.subrange(0, i as int),
            decreases self.w_commitments@.len() - i,
        {
            w2.push(self.w_commitments[i]);
            proof {
                assert(w2@ =~= self.w_commitments@.subrange(0, i + 1));
            }
            i += 1;
        }
        proof {
            assert(self.w_commitments@.subrange(0, self.w_commitments@.len() as int) == self.w_commitments@);
        }
        SupportPlonkInstance {
            w_commitments: w2,
            instances: copy_rows(&self.instances),
            challenges: copy_fes(&self.challenges),
        }
    }
}

} // verus!

verus! {

/// The step counter as a field element.
pub open spec fn step_fe(step: usize) -> Fe {
    Fe { w0: step as u64, w1: 0, w2: 0, w3: 0 }
}

/// The whole witness of one step: the digest of the public parameters, both
/// traces, the step counter, and the initial and current state of the
/// application.
#[derive(Debug)]
pub struct Input<const ARITY: usize> {
    pub pp_digest: (Fe, Fe),
    pub self_trace: SelfTrace,
    pub support_trace: SupportTrace,
    pub step: usize,
    pub z_0: [Fe; ARITY],
    pub z_i: [Fe; ARITY],
}

impl<const ARITY: usize> Input<ARITY> {
    /// The stream: the native accumulator, the support accumulator, the two
    /// halves of the digest, the step, then `z_0` and `z_i`.
    pub open spec fn absorbed(&self) -> Seq<Fe> {
        self.self_trace.input_accumulator.absorbed() + self.support_trace.input_accumulator.absorbed()
            + seq![self.pp_digest.0, self.pp_digest.1, step_fe(self.step)] + self.z_0@
            + self.z_i@
    }

    pub open spec fn is_zero(&self) -> bool {
        &&& self.pp_digest == (fe_zero(), fe_zero())
        &&& self.self_trace.is_zero()
        &&& self.support_trace.is_zero()
        &&& self.step == 0
        &&& all_zero(self.z_0@)
        &&& all_zero(self.z_i@)
    }

    pub open spec fn same_shape(&self, o: &Input<ARITY>) -> bool {
        self.self_trace.same_shape(&o.self_trace) && self.support_trace.same_shape(&o.support_trace)
    }

    pub fn absorb_into(&self, ro: &mut Vec<Fe>)
        ensures
            final(ro)@ == old(ro)@ + self.absorbed(),
    {
        self.self_trace.input_accumulator.absorb_into(ro);
        self.support_trace.input_accumulator.absorb_into(ro);
        ro.push(self.pp_digest.0);
        ro.push(self.pp_digest.1);
        ro.push(Fe::from_u64(self.step as u64));
        let ghost mid = ro@;
        let mut i: usize = 0;
        while i < ARITY
            invariant
                i <= ARITY,
                self.z_0@.len() == ARITY,
                ro@ == mid + self.z_0@.subrange(0, i as int),
            decreases ARITY - i,
        {
            ro.push(self.z_0[i]);
            proof {
                assert(self.z_0@.subrange(0, i + 1) == self.z_0@.subrange(0, i as int).push(self.z_0@[i as int]));
            }
            i += 1;
        }
        let ghost mid2 = ro@;
        let mut i: usize = 0;
        while i < ARITY
            invariant
                i <= ARITY,
                self.z_i@.len() == ARITY,
                ro@ == mid2 + self.z_i@.subrange(0, i as int),
            decreases ARITY - i,
        {
            ro.push(self.z_i[i]);
            proof {
                assert(self.z_i@.subrange(0, i + 1) == self.z_i@.subrange(0, i as int).push(self.z_i@[i as int]));
            }
            i += 1;
        }
        proof {
            assert(self.z_0@.subrange(0, ARITY as int) == self.z_0@);
            assert(self.z_i@.subrange(0, ARITY as int) == self.z_i@);
            assert(final(ro)@ =~= old(ro)@ + self.absorbed());
        }
    }

    /// The same input with every value zeroed and every length kept, for a
    /// circuit that is laid out without a witness.
    pub fn get_without_witness(&self) -> (r: Input<ARITY>)
        ensures
            r.is_zero(),
            r.same_shape(self),
            r.wf(),
    {
        Input {
            pp_digest: (Fe::zero(), Fe::zero()),
            self_trace: self.self_trace.zeroed_like(),
            support_trace: self.support_trace.zeroed_like(),
            step: 0,
            z_0: zero_array(),
            z_i: zero_array(),
        }
    }

    /// The zero input of the given shapes, used to fix the circuit's layout
    /// before any proof exists. The support track folds as many incoming
    /// instances as the native track has commitments.
    pub fn new_initial(
        native_plonk_structure: &PlonkStructure,
        support_plonk_structure: &SupportStructure,
        support_plonk_instance: &FoldablePlonkInstance,
    ) -> (r: Result<Input<ARITY>, InputError>)
        ensures
            r is Ok <==> native_plonk_structure.num_challenges <= 3
                && support_plonk_instance.points_affine()
                && support_plonk_instance.scalars_in_field(),
            r is Err ==> r->Err_0 == (if native_plonk_structure.num_challenges > 3 {
                InputError::UnsupportedChallengeCount
            } else if !support_plonk_instance.points_affine() {
                InputError::PointAtInfinity
            } else {
                InputError::NotInField
            }),
            r is Ok ==> {
                let i = r->Ok_0;
                &&& i.pp_digest == (fe_zero(), fe_zero())
                &&& i.step == 0
                &&& all_zero(i.z_0@)
                &&& all_zero(i.z_i@)
                &&& i.self_trace.is_zero()
                &&& i.self_trace.has_initial_shape(*native_plonk_structure)
                &&& i.support_trace.input_accumulator.ins.projects(*support_plonk_instance)
                &&& i.support_trace.input_accumulator.e_commitment == (fe_zero(), fe_zero())
                &&& i.support_trace.input_accumulator.u == fe_zero()
                &&& i.support_trace.has_shape(
                    &i.support_trace.input_accumulator.ins,
                    commitments_len_for(native_plonk_structure.num_challenges as nat),
                    if support_plonk_structure.degree_for_folding == 0 {
                        0
                    } else {
                        (support_plonk_structure.degree_for_folding - 1) as nat
                    },
                )
                &&& i.support_trace.incoming@.len() == commitments_len_for(
                    native_plonk_structure.num_challenges as nat,
                )
                &&& forall|k: int|
                    0 <= k < i.support_trace.incoming@.len() ==> {
                        &&& (#[trigger] i.support_trace.incoming@[k]).instance.projects(
                            *support_plonk_instance,
                        )
                        &&& i.support_trace.incoming@[k].proof@.len() == if support_plonk_structure.degree_for_folding
                            == 0 {
                            0
                        } else {
                            support_plonk_structure.degree_for_folding - 1
                        }
                        &&& forall|j: int|
                            0 <= j < i.support_trace.incoming@[k].proof@.len()
                                ==> #[trigger] i.support_trace.incoming@[k].proof@[j] == (
                            fe_zero(),
                            fe_zero(),
                        )
                    }
            },
    {
        let self_trace = SelfTrace::new_initial(native_plonk_structure)?;
        let support_trace = SupportTrace::new_initial(
            support_plonk_structure,
            support_plonk_instance,
            self_trace.W_commitments_len(),
        )?;
        proof {
            let like = support_trace.input_accumulator.ins;
            assert forall|k: int| 0 <= k < support_trace.incoming@.len() implies (#[trigger] support_trace.incoming@[k]).instance.same_shape(
                &like,
            ) by {
                lemma_projections_same_shape(
                    support_trace.incoming@[k].instance,
                    like,
                    *support_plonk_instance,
                );
            }
            lemma_projections_same_shape(like, like, *support_plonk_instance);
        }
        Ok(
            Input {
                pp_digest: (Fe::zero(), Fe::zero()),
                support_trace,
                self_trace,
                step: 0,
                z_0: zero_array(),
                z_i: zero_array(),
            },
        )
    }
}

/// An array of zeros.
pub fn zero_array<const N: usize>() -> (r: [Fe; N])
    ensures
        r@.len() == N,
        all_zero(r@),
{
    let r: [Fe; N] = [Fe { w0: 0, w1: 0, w2: 0, w3: 0 }; N];
    proof {
        assert(all_zero(r@));
    }
    r
}

} // verus!

verus! {

/// A support instance with its cross-term commitments folds without error.
pub open spec fn incoming_ok(p: (FoldablePlonkInstance, Vec<SupportPoint>)) -> bool {
    all_affine_support(p.1@) && p.0.points_affine() && p.0.scalars_in_field()
}

pub open spec fn incoming_error(p: (FoldablePlonkInstance, Vec<SupportPoint>)) -> InputError {
    if all_affine_support(p.1@) && p.0.points_affine() {
        InputError::NotInField
    } else {
        InputError::PointAtInfinity
    }
}

/// The error of the first incoming pair from `i` on that fails, if any.
pub open spec fn first_incoming_error(
    xs: Seq<(FoldablePlonkInstance, Vec<SupportPoint>)>,
    i: int,
) -> Option<InputError>
    decreases xs.len() - i,
{
    if i < 0 || i >= xs.len() {
        None
    } else if incoming_ok(xs[i]) {
        first_incoming_error(xs, i + 1)
    } else {
        Some(incoming_error(xs[i]))
    }
}

/// The objects of one step, as the folding schemes hand them over.
pub struct InputBuilder<'link, const ARITY: usize> {
    pub pp_digest: (Fe, Fe),
    pub step: usize,
    pub self_acc: &'link AccumulatorInstance,
    pub self_incoming: &'link PlonkInstance,
    pub self_proof: ProtoGalaxyProof,
    pub support_acc: &'link RelaxedPlonkInstance,
    pub support_incoming: &'link [(FoldablePlonkInstance, Vec<SupportPoint>)],
    pub z_0: [Fe; ARITY],
    pub z_i: [Fe; ARITY],
}

impl<'link, const ARITY: usize> InputBuilder<'link, ARITY> {
    /// The first error that `build` meets, in the order in which it projects
    /// the objects.
    pub open spec fn first_error(&self) -> Option<InputError> {
        if !all_affine_main(self.self_acc.ins.w_commitments@) {
            Some(InputError::PointAtInfinity)
        } else if !all_affine_main(self.self_incoming.w_commitments@) {
            Some(InputError::PointAtInfinity)
        } else if !self.support_acc.points_affine() {
            Some(InputError::PointAtInfinity)
        } else if !self.support_acc.scalars_in_field() {
            Some(InputError::NotInField)
        } else {
            first_incoming_error(self.support_incoming@, 0)
        }
    }

    /// Projects every object into its canonical form.
    pub fn build(self) -> (r: Result<Input<ARITY>, InputError>)
        requires
            self.support_acc.step_circuit_instances_hash_accumulator == SCInstancesHashAcc::Empty,
        ensures
            r is Ok <==> self.first_error() is None,
            r is Err ==> self.first_error() == Some(r->Err_0),
            r is Ok ==> {
                let i = r->Ok_0;
                &&& i.pp_digest == self.pp_digest
                &&& i.step == self.step
                &&& i.z_0 == self.z_0
                &&& i.z_i == self.z_i
                &&& i.self_trace.input_accumulator.projects(*self.self_acc)
                &&& i.self_trace.incoming.projects(*self.self_incoming)
                &&& i.self_trace.proof == self.self_proof
                &&& i.support_trace.input_accumulator.projects(*self.support_acc)
                &&& i.support_trace.incoming@.len() == self.support_incoming@.len()
                &&& forall|k: int|
                    0 <= k < self.support_incoming@.len() ==> (#[trigger] i.support_trace.incoming@[k]).projects(
                        self.support_incoming@[k].0,
                        self.support_incoming@[k].1@,
                    )
            },
    {
        let input_accumulator = ProtoGalaxyAccumulatorInstance::new(self.self_acc)?;
        let incoming = NativePlonkInstance::new(self.self_incoming)?;
        let support_accumulator = SangriaAccumulatorInstance::new(self.support_acc)?;
        let xs = self.support_incoming;
        let mut support_incoming: Vec<SupportIncoming> = Vec::new();
        let mut i: usize = 0;
        while i < xs.len()
            invariant
                i <= xs@.len(),
                xs@ == self.support_incoming@,
                all_affine_main(self.self_acc.ins.w_commitments@),
                all_affine_main(self.self_incoming.w_commitments@),
                self.support_acc.points_affine(),
                self.support_acc.scalars_in_field(),
                first_incoming_error(xs@, 0) == first_incoming_error(xs@, i as int),
                support_incoming@.len() == i,
                forall|k: int|
                    0 <= k < i ==> (#[trigger] support_incoming@[k]).projects(xs@[k].0, xs@[k].1@),
            decreases xs@.len() - i,
        {
            let (instance, proof) = &xs[i];
            match SupportIncoming::new(instance, proof) {
                Ok(v) => support_incoming.push(v),
                Err(e) => {
                    proof {
                        assert(xs@[i as int] == (*instance, *proof));
                        assert(!incoming_ok(xs@[i as int]));
                        assert(first_incoming_error(xs@, i as int) == Some(e));
                    }
                    return Err(e);
                },
            }
            i += 1;
        }
        Ok(
            Input {
                pp_digest: self.pp_digest,
                step: self.step,
                z_0: self.z_0,
                z_i: self.z_i,
                self_trace: SelfTrace { input_accumulator, incoming, proof: self.self_proof },
                support_trace: SupportTrace {
                    input_accumulator: support_accumulator,
                    incoming: support_incoming,
                },
            },
        )
    }
}

} // verus!

verus! {

/// Every point has its full count of limbs in each coordinate.
pub open spec fn points_wf(ps: Seq<BigUintPoint>) -> bool {
    forall|i: int|
        0 <= i < ps.len() ==> (#[trigger] ps[i]).x@.len() == LIMBS_COUNT && ps[i].y@.len()
            == LIMBS_COUNT
}

impl<const ARITY: usize> Input<ARITY> {
    pub open spec fn wf(&self) -> bool {
        points_wf(self.self_trace.input_accumulator.ins.w_commitments@) && points_wf(
            self.self_trace.incoming.w_commitments@,
        )
    }
}

proof fn lemma_rows_len(a: Seq<Vec<Fe>>, b: Seq<Vec<Fe>>)
    requires
        same_shape(a, b),
    ensures
        flatten_rows(a).len() == flatten_rows(b).len(),
    decreases a.len(),
{
    if a.len() > 0 {
        assert(same_shape(a.drop_last(), b.drop_last())) by {
            assert forall|i: int| 0 <= i < a.len() - 1 implies (#[trigger] a.drop_last()[i])@.len()
                == b.drop_last()[i]@.len() by {
                assert(a[i]@.len() == b[i]@.len());
            }
        }
        lemma_rows_len(a.drop_last(), b.drop_last());
        assert(a[a.len() - 1]@.len() == b[b.len() - 1]@.len());
    }
}

proof fn lemma_pairs_len(a: Seq<(Fe, Fe)>)
    ensures
        flatten_pairs(a).len() == 2 * a.len(),
    decreases a.len(),
{
    if a.len() > 0 {
        lemma_pairs_len(a.drop_last());
    }
}

proof fn lemma_points_len(a: Seq<BigUintPoint>)
    requires
        points_wf(a),
    ensures
        flatten_points(a).len() == 2 * LIMBS_COUNT * a.len(),
    decreases a.len(),
{
    if a.len() > 0 {
        assert(points_wf(a.drop_last())) by {
            assert forall|i: int| 0 <= i < a.len() - 1 implies (#[trigger] a.drop_last()[i]).x@.len()
                == LIMBS_COUNT && a.drop_last()[i].y@.len() == LIMBS_COUNT by {
                assert(a.drop_last()[i] == a[i]);
            }
        }
        lemma_points_len(a.drop_last());
        assert(a.last() == a[a.len() - 1]);
    }
}

/// Inputs of the same shape feed streams of the same length to the sponge,
/// so an input with its witness removed lays out the same circuit as the
/// input itself.
pub proof fn lemma_same_shape_same_stream_len<const ARITY: usize>(a: Input<ARITY>, b: Input<ARITY>)
    requires
        a.wf(),
        b.wf(),
        a.same_shape(&b),
    ensures
        a.absorbed().len() == b.absorbed().len(),
{
    let na = a.self_trace.input_accumulator;
    let nb = b.self_trace.input_accumulator;
    let sa = a.support_trace.input_accumulator;
    let sb = b.support_trace.input_accumulator;
    lemma_points_len(na.ins.w_commitments@);
    lemma_points_len(nb.ins.w_commitments@);
    lemma_rows_len(na.ins.instances@, nb.ins.instances@);
    lemma_pairs_len(sa.ins.w_commitments@);
    lemma_pairs_len(sb.ins.w_commitments@);
    lemma_rows_len(sa.ins.instances@, sb.ins.instances@);
}

/// A native field element read back as a support scalar, word for word.
pub open spec fn unlift(f: Fe) -> SupportScalar {
    SupportScalar { w0: f.w0, w1: f.w1, w2: f.w2, w3: f.w3 }
}

pub open spec fn unlift_seq(xs: Seq<Fe>) -> Seq<SupportScalar> {
    xs.map_values(|f: Fe| unlift(f))
}

/// Carrying support scalars into the native field and reading them back
/// gives them exactly: the projection `project_rows` makes is injective.
pub proof fn lemma_values_round_trip(rows: Seq<Vec<Fe>>, src: Seq<Vec<SupportScalar>>)
    requires
        rows_view(rows) == lift_rows(src),
    ensures
        rows.len() == src.len(),
        forall|i: int| 0 <= i < src.len() ==> unlift_seq((#[trigger] rows[i])@) == src[i]@,
{
    assert(rows_view(rows).len() == rows.len());
    assert(lift_rows(src).len() == src.len());
    assert forall|i: int| 0 <= i < src.len() implies unlift_seq((#[trigger] rows[i])@) == src[i]@ by {
        assert(rows_view(rows)[i] == rows[i]@);
        assert(lift_rows(src)[i] == lift_seq(src[i]@));
        assert(unlift_seq(rows[i]@) =~= src[i]@);
    }
}

/// The same for one list of scalars, as `project_all` makes it.
pub proof fn lemma_value_list_round_trip(xs: Seq<Fe>, src: Seq<SupportScalar>)
    requires
        xs == lift_seq(src),
    ensures
        unlift_seq(xs) == src,
{
    assert(unlift_seq(xs) =~= src);
}

/// Reading the canonical form of a support instance back gives its public
/// inputs and challenges exactly.
pub proof fn lemma_support_round_trip(ins: SupportPlonkInstance, src: FoldablePlonkInstance)
    requires
        ins.projects(src),
    ensures
        unlift_seq(ins.challenges@) == src.challenges@,
        ins.instances@.len() == src.instances@.len(),
        forall|i: int|
            0 <= i < src.instances@.len() ==> unlift_seq((#[trigger] ins.instances@[i])@)
                == src.instances@[i]@,
{
    assert(unlift_seq(ins.challenges@) =~= src.challenges@);
    assert(rows_view(ins.instances@).len() == lift_rows(src.instances@).len());
    assert forall|i: int| 0 <= i < src.instances@.len() implies unlift_seq(
        (#[trigger] ins.instances@[i])@,
    ) == src.instances@[i]@ by {
        assert(rows_view(ins.instances@)[i] == lift_rows(src.instances@)[i]);
        assert(unlift_seq(ins.instances@[i]@) =~= src.instances@[i]@);
    }
}

/// Reading the canonical form of the support accumulator back gives its
/// consistency markers, challenges and slack exactly.
pub proof fn lemma_accumulator_round_trip(acc: SangriaAccumulatorInstance, src: RelaxedPlonkInstance)
    requires
        acc.projects(src),
    ensures
        acc.ins.instances@.len() == 1,
        unlift_seq(acc.ins.instances@[0]@) == src.consistency_markers@,
        unlift_seq(acc.ins.challenges@) == src.challenges@,
        unlift(acc.u) == src.u,
{
    assert(rows_view(acc.ins.instances@).len() == 1);
    assert(rows_view(acc.ins.instances@)[0] == lift_seq(src.consistency_markers@));
    assert(unlift_seq(acc.ins.instances@[0]@) =~= src.consistency_markers@);
    assert(unlift_seq(acc.ins.challenges@) =~= src.challenges@);
}

/// The canonical form of a native instance holds its public inputs and
/// challenges unchanged.
pub proof fn lemma_native_round_trip(ins: NativePlonkInstance, src: PlonkInstance)
    requires
        ins.projects(src),
    ensures
        ins.challenges@ == src.challenges@,
        ins.instances@.len() == src.instances@.len(),
        forall|i: int|
            0 <= i < src.instances@.len() ==> (#[trigger] ins.instances@[i])@ == src.instances@[i]@,
{
    assert(rows_view(ins.instances@).len() == rows_view(src.instances@).len());
    assert forall|i: int| 0 <= i < src.instances@.len() implies (#[trigger] ins.instances@[i])@
        == src.instances@[i]@ by {
        assert(rows_view(ins.instances@)[i] == rows_view(src.instances@)[i]);
    }
}

} // verus!

verus! {

impl Clone for SangriaAccumulatorInstance {
    fn clone(&self) -> (r: SangriaAccumulatorInstance) {
        SangriaAccumulatorInstance { ins: self.ins.clone(), e_commitment: self.e_commitment, u: self.u }
    }
}

impl Clone for SupportTrace {
    fn clone(&self) -> (r: SupportTrace) {
        SupportTrace { input_accumulator: self.input_accumulator.clone(), incoming: self.incoming.clone() }
    }
}

impl<const ARITY: usize> Clone for Input<ARITY> {
    fn clone(&self) -> (r: Input<ARITY>) {
        Input {
            pp_digest: self.pp_digest,
            self_trace: self.self_trace.clone(),
            support_trace: self.support_trace.clone(),
            step: self.step,
            z_0: self.z_0,
            z_i: self.z_i,
        }
    }
}

} // verus!

verus! {

/// Every scalar is zero.
pub open spec fn scalars_zero(xs: Seq<SupportScalar>) -> bool {
    forall|i: int| 0 <= i < xs.len() ==> (#[trigger] xs[i]) == (SupportScalar { w0: 0, w1: 0, w2: 0, w3: 0 })
}

/// An instance carried over from a support instance whose public inputs and
/// challenges are zero holds only zeros there; with the zero error
/// commitment, slack and cross terms that `new_initial` states, every scalar
/// of its support trace is zero.
pub proof fn lemma_zero_support_instance(ins: SupportPlonkInstance, src: FoldablePlonkInstance)
    requires
        ins.projects(src),
        forall|i: int| 0 <= i < src.instances@.len() ==> scalars_zero((#[trigger] src.instances@[i])@),
        scalars_zero(src.challenges@),
    ensures
        rows_zero(ins.instances@),
        all_zero(ins.challenges@),
{
    lemma_support_round_trip(ins, src);
    assert forall|i: int| 0 <= i < ins.instances@.len() implies all_zero((#[trigger] ins.instances@[i])@) by {
        assert(rows_view(ins.instances@)[i] == lift_rows(src.instances@)[i]);
        assert forall|j: int| 0 <= j < ins.instances@[i]@.len() implies ins.instances@[i]@[j] == fe_zero() by {
            assert(ins.instances@[i]@[j] == lift(src.instances@[i]@[j]));
        }
    }
    assert forall|j: int| 0 <= j < ins.challenges@.len() implies ins.challenges@[j] == fe_zero() by {
        assert(ins.challenges@[j] == lift(src.challenges@[j]));
    }
}

/// Two canonical forms of one support instance have the same shape.
pub proof fn lemma_projections_same_shape(a: SupportPlonkInstance, b: SupportPlonkInstance, src: FoldablePlonkInstance)
    requires
        a.projects(src),
        b.projects(src),
    ensures
        a.same_shape(&b),
{
    assert(rows_view(a.instances@).len() == a.instances@.len());
    assert(rows_view(b.instances@).len() == b.instances@.len());
    assert forall|i: int| 0 <= i < a.instances@.len() implies (#[trigger] a.instances@[i])@.len()
        == b.instances@[i]@.len() by {
        assert(rows_view(a.instances@)[i] == a.instances@[i]@);
        assert(rows_view(b.instances@)[i] == b.instances@[i]@);
    }
}

impl SupportTrace {
    /// The lengths of a support trace whose instances all have the shape of
    /// `like`, with `n` incoming instances of `cross` cross terms each.
    pub open spec fn has_shape(&self, like: &SupportPlonkInstance, n: nat, cross: nat) -> bool {
        &&& self.input_accumulator.ins.same_shape(like)
        &&& self.incoming@.len() == n
        &&& forall|i: int|
            0 <= i < n ==> (#[trigger] self.incoming@[i]).instance.same_shape(like)
                && self.incoming@[i].proof@.len() == cross
    }
}

/// Two inputs whose traces follow the same native structure and the same
/// support shape have the same lengths at every level; so an initial input
/// lays out the circuit of every real input of those shapes.
pub proof fn lemma_shapes_agree<const ARITY: usize>(
    a: Input<ARITY>,
    b: Input<ARITY>,
    st: PlonkStructure,
    like: SupportPlonkInstance,
    n: nat,
    cross: nat,
)
    requires
        a.self_trace.has_initial_shape(st),
        b.self_trace.has_initial_shape(st),
        a.support_trace.has_shape(&like, n, cross),
        b.support_trace.has_shape(&like, n, cross),
    ensures
        a.same_shape(&b),
{
    let an = a.self_trace.input_accumulator.ins;
    let bn = b.self_trace.input_accumulator.ins;
    assert(same_shape(an.instances@, bn.instances@)) by {
        assert forall|i: int| 0 <= i < an.instances@.len() implies (#[trigger] an.instances@[i])@.len()
            == bn.instances@[i]@.len() by {
            assert(an.instances@[i]@.len() == st.num_io@[i]);
            assert(bn.instances@[i]@.len() == st.num_io@[i]);
        }
    }
    let ai = a.self_trace.incoming;
    let bi = b.self_trace.incoming;
    assert(same_shape(ai.instances@, bi.instances@)) by {
        assert forall|i: int| 0 <= i < ai.instances@.len() implies (#[trigger] ai.instances@[i])@.len()
            == bi.instances@[i]@.len() by {
            assert(ai.instances@[i]@.len() == an.instances@[i]@.len());
            assert(bi.instances@[i]@.len() == bn.instances@[i]@.len());
            assert(an.instances@[i]@.len() == st.num_io@[i]);
            assert(bn.instances@[i]@.len() == st.num_io@[i]);
        }
    }
    let asup = a.support_trace.input_accumulator.ins;
    let bsup = b.support_trace.input_accumulator.ins;
    assert(same_shape(asup.instances@, bsup.instances@)) by {
        assert forall|i: int| 0 <= i < asup.instances@.len() implies (#[trigger] asup.instances@[i])@.len()
            == bsup.instances@[i]@.len() by {
            assert(asup.instances@[i]@.len() == like.instances@[i]@.len());
            assert(bsup.instances@[i]@.len() == like.instances@[i]@.len());
        }
    }
    assert forall|k: int| 0 <= k < a.support_trace.incoming@.len() implies (#[trigger] a.support_trace.incoming@[k]).same_shape(
        &b.support_trace.incoming@[k],
    ) by {
        let x = a.support_trace.incoming@[k].instance;
        let y = b.support_trace.incoming@[k].instance;
        assert(x.same_shape(&like));
        assert(y.same_shape(&like));
        assert forall|i: int| 0 <= i < x.instances@.len() implies (#[trigger] x.instances@[i])@.len()
            == y.instances@[i]@.len() by {
            assert(x.instances@[i]@.len() == like.instances@[i]@.len());
            assert(y.instances@[i]@.len() == like.instances@[i]@.len());
        }
    }
}

} // verus!
