use sfc_core::field::{Fe, SupportScalar};
use sfc_core::input::{
    BigUintPoint, Input, InputBuilder, NativePlonkInstance, ProtoGalaxyAccumulatorInstance,
    SangriaAccumulatorInstance, SelfTrace, SupportIncoming, SupportPlonkInstance, SupportTrace,
};
use sfc_core::scheme::{
    AccumulatorInstance, FoldablePlonkInstance, InputError, MainPoint, PlonkInstance,
    PlonkStructure, ProtoGalaxyProof, RelaxedPlonkInstance, SCInstancesHashAcc, SupportPoint,
    SupportStructure,
};

fn fe(v: u64) -> Fe {
    Fe::from_u64(v)
}

fn fes(xs: &[u64]) -> Vec<Fe> {
    xs.iter().map(|x| fe(*x)).collect()
}

fn sc(v: u64) -> SupportScalar {
    SupportScalar { w0: v, w1: 0, w2: 0, w3: 0 }
}

fn too_big() -> SupportScalar {
    SupportScalar { w0: 0x992d30ed00000001, w1: 0x224698fc094cf91b, w2: 0, w3: 0x4000000000000000 }
}

fn spt(x: u64, y: u64) -> SupportPoint {
    SupportPoint::Affine { x: fe(x), y: fe(y) }
}

fn native_structure(num_challenges: usize) -> PlonkStructure {
    PlonkStructure {
        num_io: vec![2, 3],
        num_challenges,
        betas_count: 4,
        poly_f_len: 5,
        poly_k_len: 6,
    }
}

fn support_instance() -> FoldablePlonkInstance {
    FoldablePlonkInstance {
        w_commitments: vec![spt(1, 2)],
        instances: vec![vec![sc(3), sc(4)]],
        challenges: vec![sc(5)],
    }
}

fn stream_of<const A: usize>(input: &Input<A>) -> Vec<Fe> {
    let mut ro = Vec::new();
    input.absorb_into(&mut ro);
    ro
}

#[test]
fn limbs_split_each_word_in_halves() {
    let p = MainPoint::Affine {
        x: SupportScalar { w0: 0x0000_0002_0000_0001, w1: 3, w2: 0, w3: 1 << 32 },
        y: sc(9),
    };
    let b = BigUintPoint::new(&p).unwrap();
    assert_eq!(b.x, fes(&[1, 2, 3, 0, 0, 0, 0, 1, 0, 0]));
    assert_eq!(b.y, fes(&[9, 0, 0, 0, 0, 0, 0, 0, 0, 0]));
    assert_eq!(BigUintPoint::new(&MainPoint::Identity).unwrap_err(), InputError::PointAtInfinity);
}

#[test]
fn native_instance_absorb_order() {
    let ins = NativePlonkInstance::new(&PlonkInstance {
        w_commitments: vec![MainPoint::Affine { x: sc(7), y: sc(8) }],
        instances: vec![fes(&[1, 2]), fes(&[3])],
        challenges: fes(&[4, 5]),
    })
    .unwrap();
    let mut ro = Vec::new();
    ins.absorb_into(&mut ro);
    let mut expected = fes(&[7, 0, 0, 0, 0, 0, 0, 0, 0, 0, 8, 0, 0, 0, 0, 0, 0, 0, 0, 0]);
    expected.extend(fes(&[1, 2, 3, 4, 5]));
    assert_eq!(ro, expected);
    let mut again = Vec::new();
    ins.absorb_into(&mut again);
    assert_eq!(ro, again);
}

#[test]
fn support_accumulator_absorb_order() {
    let acc = SangriaAccumulatorInstance::new(&RelaxedPlonkInstance {
        w_commitments: vec![spt(1, 2), spt(3, 4)],
        consistency_markers: vec![sc(5), sc(6)],
        challenges: vec![sc(7)],
        e_commitment: spt(8, 9),
        u: sc(10),
        step_circuit_instances_hash_accumulator: SCInstancesHashAcc::Empty,
    })
    .unwrap();
    let mut ro = Vec::new();
    acc.absorb_into(&mut ro);
    assert_eq!(ro, fes(&[1, 2, 3, 4, 5, 6, 7, 10, 8, 9, 0]));
}

#[test]
fn native_accumulator_and_trace_absorb_order() {
    let acc = ProtoGalaxyAccumulatorInstance::new(&AccumulatorInstance {
        ins: PlonkInstance { w_commitments: vec![], instances: vec![fes(&[1])], challenges: fes(&[2]) },
        betas: fes(&[3, 4]),
        e: fe(5),
    })
    .unwrap();
    let mut ro = Vec::new();
    acc.absorb_into(&mut ro);
    assert_eq!(ro, fes(&[1, 2, 3, 4, 5]));
    let trace = SelfTrace {
        input_accumulator: acc,
        incoming: NativePlonkInstance { w_commitments: vec![], instances: vec![], challenges: fes(&[6]) },
        proof: ProtoGalaxyProof { poly_f: fes(&[7]), poly_k: fes(&[8, 9]) },
    };
    let mut ro = Vec::new();
    trace.absorb_into(&mut ro);
    assert_eq!(ro, fes(&[1, 2, 3, 4, 5, 6, 8, 9, 7]));
}

#[test]
fn support_trace_absorb_order() {
    let incoming = SupportIncoming::new(&support_instance(), &vec![spt(10, 11)]).unwrap();
    let mut ro = Vec::new();
    incoming.absorb_into(&mut ro);
    assert_eq!(ro, fes(&[1, 2, 3, 4, 5, 10, 11]));
    let trace = SupportTrace {
        input_accumulator: SangriaAccumulatorInstance {
            ins: SupportPlonkInstance::new(&support_instance()).unwrap(),
            e_commitment: (fe(20), fe(21)),
            u: fe(22),
        },
        incoming: vec![incoming],
    };
    let mut ro = Vec::new();
    trace.absorb_into(&mut ro);
    assert_eq!(ro, fes(&[1, 2, 3, 4, 5, 22, 20, 21, 0, 1, 2, 3, 4, 5, 10, 11]));
}

#[test]
fn initial_input_has_the_shape_of_the_structures() {
    let input: Input<2> = Input::new_initial(
        &native_structure(2),
        &SupportStructure { degree_for_folding: 3 },
        &support_instance(),
    )
    .unwrap();
    let acc = &input.self_trace.input_accumulator;
    assert_eq!(acc.ins.w_commitments.len(), 2);
    assert_eq!(acc.ins.instances.iter().map(|r| r.len()).collect::<Vec<_>>(), vec![2, 3]);
    assert_eq!(acc.ins.challenges, fes(&[0, 0]));
    assert_eq!(acc.betas.len(), 4);
    assert_eq!(input.self_trace.proof.poly_f.len(), 5);
    assert_eq!(input.self_trace.proof.poly_k.len(), 6);
    assert_eq!(input.self_trace.W_commitments_len(), 2);
    assert_eq!(input.support_trace.incoming.len(), 2);
    assert_eq!(input.support_trace.incoming[0].proof, vec![(fe(0), fe(0)); 2]);
    assert_eq!(input.support_trace.input_accumulator.ins.instances, vec![fes(&[3, 4])]);
    assert_eq!(input.step, 0);
    assert_eq!(input.z_0, [fe(0), fe(0)]);
}

#[test]
fn initial_input_with_few_challenges_has_one_commitment() {
    for n in [0, 1] {
        let input: Input<1> = Input::new_initial(
            &native_structure(n),
            &SupportStructure { degree_for_folding: 0 },
            &support_instance(),
        )
        .unwrap();
        assert_eq!(input.self_trace.W_commitments_len(), 1);
        assert_eq!(input.support_trace.incoming.len(), 1);
        assert!(input.support_trace.incoming[0].proof.is_empty());
    }
}

#[test]
fn initial_input_refuses_four_challenges() {
    let r: Result<Input<1>, InputError> = Input::new_initial(
        &native_structure(4),
        &SupportStructure { degree_for_folding: 2 },
        &support_instance(),
    );
    assert_eq!(r.unwrap_err(), InputError::UnsupportedChallengeCount);
}

#[test]
fn initial_input_refuses_an_identity_commitment() {
    let mut ins = support_instance();
    ins.w_commitments.push(SupportPoint::Identity);
    let r: Result<Input<1>, InputError> =
        Input::new_initial(&native_structure(1), &SupportStructure { degree_for_folding: 2 }, &ins);
    assert_eq!(r.unwrap_err(), InputError::PointAtInfinity);
}

fn builder_parts() -> (AccumulatorInstance, PlonkInstance, RelaxedPlonkInstance, Vec<(FoldablePlonkInstance, Vec<SupportPoint>)>) {
    let acc = AccumulatorInstance {
        ins: PlonkInstance {
            w_commitments: vec![MainPoint::Affine { x: sc(1), y: sc(2) }],
            instances: vec![fes(&[3, 4])],
            challenges: fes(&[5]),
        },
        betas: fes(&[6]),
        e: fe(7),
    };
    let incoming = PlonkInstance {
        w_commitments: vec![MainPoint::Affine { x: sc(8), y: sc(9) }],
        instances: vec![fes(&[10, 11])],
        challenges: fes(&[12]),
    };
    let support_acc = RelaxedPlonkInstance {
        w_commitments: vec![spt(13, 14)],
        consistency_markers: vec![sc(15)],
        challenges: vec![sc(16)],
        e_commitment: spt(17, 18),
        u: sc(19),
        step_circuit_instances_hash_accumulator: SCInstancesHashAcc::Empty,
    };
    let support_incoming = vec![(support_instance(), vec![spt(20, 21)])];
    (acc, incoming, support_acc, support_incoming)
}

#[test]
fn build_projects_every_object() {
    let (acc, incoming, support_acc, support_incoming) = builder_parts();
    let input = InputBuilder {
        pp_digest: (fe(30), fe(31)),
        step: 3,
        self_acc: &acc,
        self_incoming: &incoming,
        self_proof: ProtoGalaxyProof { poly_f: fes(&[1]), poly_k: fes(&[2]) },
        support_acc: &support_acc,
        support_incoming: &support_incoming,
        z_0: [fe(40)],
        z_i: [fe(41)],
    }
    .build()
    .unwrap();
    let mut expected = fes(&[1, 0, 0, 0, 0, 0, 0, 0, 0, 0, 2, 0, 0, 0, 0, 0, 0, 0, 0, 0]);
    expected.extend(fes(&[3, 4, 5, 6, 7]));
    expected.extend(fes(&[13, 14, 15, 16, 19, 17, 18, 0]));
    expected.extend(fes(&[30, 31, 3, 40, 41]));
    assert_eq!(stream_of(&input), expected);
    assert_eq!(input.support_trace.incoming.len(), 1);
    assert_eq!(input.support_trace.incoming[0].proof, vec![(fe(20), fe(21))]);
}

#[test]
fn build_reports_the_first_failure() {
    let (acc, incoming, mut support_acc, mut support_incoming) = builder_parts();
    support_incoming[0].1.push(SupportPoint::Identity);
    let build = |support_acc: &RelaxedPlonkInstance, support_incoming: &Vec<(FoldablePlonkInstance, Vec<SupportPoint>)>| {
        InputBuilder {
            pp_digest: (fe(0), fe(0)),
            step: 0,
            self_acc: &acc,
            self_incoming: &incoming,
            self_proof: ProtoGalaxyProof { poly_f: vec![], poly_k: vec![] },
            support_acc,
            support_incoming,
            z_0: [fe(0)],
            z_i: [fe(0)],
        }
        .build()
        .unwrap_err()
    };
    assert_eq!(build(&support_acc, &support_incoming), InputError::PointAtInfinity);
    support_acc.u = too_big();
    assert_eq!(build(&support_acc, &support_incoming), InputError::NotInField);
}

#[test]
fn without_witness_zeroes_values_and_keeps_lengths() {
    let (acc, incoming, support_acc, support_incoming) = builder_parts();
    let input = InputBuilder {
        pp_digest: (fe(30), fe(31)),
        step: 3,
        self_acc: &acc,
        self_incoming: &incoming,
        self_proof: ProtoGalaxyProof { poly_f: fes(&[1]), poly_k: fes(&[2, 3]) },
        support_acc: &support_acc,
        support_incoming: &support_incoming,
        z_0: [fe(40), fe(1)],
        z_i: [fe(41), fe(2)],
    }
    .build()
    .unwrap();
    let zero = input.get_without_witness();
    assert_eq!(zero.pp_digest, (fe(0), fe(0)));
    assert_eq!(zero.step, 0);
    assert_eq!(zero.z_i, [fe(0), fe(0)]);
    assert_eq!(zero.self_trace.proof.poly_k, fes(&[0, 0]));
    assert_eq!(zero.self_trace.input_accumulator.ins.instances, vec![fes(&[0, 0])]);
    assert_eq!(zero.self_trace.input_accumulator.ins.w_commitments[0].x, fes(&[0; 10]));
    assert_eq!(zero.support_trace.incoming[0].proof, vec![(fe(0), fe(0))]);
    let a = stream_of(&input);
    let b = stream_of(&zero);
    assert_eq!(a.len(), b.len());
    assert!(b.iter().all(|x| *x == fe(0)));
}

#[test]
fn support_values_round_trip() {
    let src = support_instance();
    let ins = SupportPlonkInstance::new(&src).unwrap();
    let back: Vec<SupportScalar> = ins.instances[0]
        .iter()
        .map(|f| SupportScalar { w0: f.w0, w1: f.w1, w2: f.w2, w3: f.w3 })
        .collect();
    assert_eq!(back, src.instances[0]);
    let mut bad = support_instance();
    bad.challenges.push(too_big());
    assert_eq!(SupportPlonkInstance::new(&bad).unwrap_err(), InputError::NotInField);
}
