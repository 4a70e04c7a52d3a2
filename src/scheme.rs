//! The objects that the folding schemes hand over: instances, accumulators,
//! proofs and circuit shapes, as plain values.
use crate::field::{Fe, SupportScalar, modulus};
use vstd::prelude::*;

verus! {

/// A point of the native curve; its affine coordinates lie in the support
/// scalar field.
#[derive(Clone, Copy, Debug, PartialEq, Eq, Structural)]
pub enum MainPoint {
    Identity,
    Affine { x: SupportScalar, y: SupportScalar },
}

/// A point of the support curve; its affine coordinates lie in the native
/// field.
#[derive(Clone, Copy, Debug, PartialEq, Eq, Structural)]
pub enum SupportPoint {
    Identity,
    Affine { x: Fe, y: Fe },
}

/// A plonk instance of the native circuit.
#[derive(Clone, Debug)]
pub struct PlonkInstance {
    pub w_commitments: Vec<MainPoint>,
    pub instances: Vec<Vec<Fe>>,
    pub challenges: Vec<Fe>,
}

/// The running accumulator of the native track.
#[derive(Clone, Debug)]
pub struct AccumulatorInstance {
    pub ins: PlonkInstance,
    pub betas: Vec<Fe>,
    pub e: Fe,
}

/// The folding proof of the native track: two polynomials by their
/// coefficients.
#[derive(Clone, Debug)]
pub struct ProtoGalaxyProof {
    pub poly_f: Vec<Fe>,
    pub poly_k: Vec<Fe>,
}

/// A plonk instance of the support circuit; its public inputs and challenges
/// lie in the support scalar field.
#[derive(Clone, Debug)]
pub struct FoldablePlonkInstance {
    pub w_commitments: Vec<SupportPoint>,
    pub instances: Vec<Vec<SupportScalar>>,
    pub challenges: Vec<SupportScalar>,
}

/// The hash of step-circuit instances that a relaxed instance may carry; the
/// support track carries none.
#[derive(Clone, Copy, Debug, PartialEq, Eq, Structural)]
pub enum SCInstancesHashAcc {
    Empty,
    Hash(Fe),
}

/// The relaxed running accumulator of the support track.
#[derive(Clone, Debug)]
pub struct RelaxedPlonkInstance {
    pub w_commitments: Vec<SupportPoint>,
    pub consistency_markers: Vec<SupportScalar>,
    pub challenges: Vec<SupportScalar>,
    pub e_commitment: SupportPoint,
    pub u: SupportScalar,
    pub step_circuit_instances_hash_accumulator: SCInstancesHashAcc,
}

/// The public shape of the native circuit, with the sizes that the native
/// folding scheme derives from it.
#[derive(Clone, Debug)]
pub struct PlonkStructure {
    pub num_io: Vec<usize>,
    pub num_challenges: usize,
    pub betas_count: usize,
    pub poly_f_len: usize,
    pub poly_k_len: usize,
}

/// The public shape of the support circuit.
#[derive(Clone, Copy, Debug)]
pub struct SupportStructure {
    pub degree_for_folding: usize,
}

/// Why the canonical form of a step could not be built.
#[derive(Clone, Copy, Debug, PartialEq, Eq, Structural)]
pub enum InputError {
    /// A commitment is the group identity, which has no affine coordinates.
    PointAtInfinity,
    /// A support scalar is not below the native modulus.
    NotInField,
    /// The native circuit has more than three challenges.
    UnsupportedChallengeCount,
}

pub open spec fn is_affine_main(p: MainPoint) -> bool {
    p is Affine
}

pub open spec fn is_affine_support(p: SupportPoint) -> bool {
    p is Affine
}

pub open spec fn all_affine_main(ps: Seq<MainPoint>) -> bool {
    forall|i: int| 0 <= i < ps.len() ==> #[trigger] ps[i] is Affine
}

pub open spec fn all_affine_support(ps: Seq<SupportPoint>) -> bool {
    forall|i: int| 0 <= i < ps.len() ==> #[trigger] ps[i] is Affine
}

/// Every scalar is below the native modulus.
pub open spec fn all_in_field(xs: Seq<SupportScalar>) -> bool {
    forall|i: int| 0 <= i < xs.len() ==> (#[trigger] xs[i]).val() < modulus()
}

pub open spec fn all_rows_in_field(rows: Seq<Vec<SupportScalar>>) -> bool {
    forall|i: int| 0 <= i < rows.len() ==> all_in_field((#[trigger] rows[i])@)
}

/// The affine coordinates of a support point.
pub open spec fn coords(p: SupportPoint) -> (Fe, Fe) {
    match p {
        SupportPoint::Identity => (crate::field::fe_zero(), crate::field::fe_zero()),
        SupportPoint::Affine { x, y } => (x, y),
    }
}

impl FoldablePlonkInstance {
    pub open spec fn points_affine(&self) -> bool {
        all_affine_support(self.w_commitments@)
    }

    pub open spec fn scalars_in_field(&self) -> bool {
        all_rows_in_field(self.instances@) && all_in_field(self.challenges@)
    }
}

impl RelaxedPlonkInstance {
    pub open spec fn points_affine(&self) -> bool {
        all_affine_support(self.w_commitments@) && self.e_commitment is Affine
    }

    pub open spec fn scalars_in_field(&self) -> bool {
        all_in_field(self.consistency_markers@) && all_in_field(self.challenges@)
            && self.u.val() < modulus()
    }
}

} // verus!
