use sfc_core::chip::next_state_val;
use sfc_core::field::{pow5, project, Fe, SupportScalar};
use sfc_core::poseidon::{PoseidonSpec, PoseidonSponge, SparseMatrix};

fn fe(v: u64) -> Fe {
    Fe::from_u64(v)
}

fn words(w0: u64, w1: u64, w2: u64, w3: u64) -> Fe {
    Fe { w0, w1, w2, w3 }
}

fn row(xs: &[u64]) -> Vec<Fe> {
    xs.iter().map(|x| fe(*x)).collect()
}

/// A small table of width 3, rate 2, four full rounds and three partial
/// rounds.
fn toy_spec() -> PoseidonSpec {
    PoseidonSpec {
        t: 3,
        rate: 2,
        r_f: 4,
        start: vec![row(&[1, 2, 3]), row(&[11, 12, 13]), row(&[21, 22, 23])],
        partial: row(&[7, 8, 9]),
        end: vec![row(&[100, 101, 102])],
        mds: vec![row(&[1, 2, 5]), row(&[4, 5, 8]), row(&[7, 8, 11])],
        pre_sparse_mds: vec![row(&[1, 2, 5]), row(&[5, 6, 9]), row(&[9, 10, 13])],
        sparse_matrices: vec![
            SparseMatrix { row: row(&[1, 2, 3]), col_hat: row(&[4, 5]) },
            SparseMatrix { row: row(&[2, 2, 3]), col_hat: row(&[5, 5]) },
            SparseMatrix { row: row(&[3, 2, 3]), col_hat: row(&[6, 5]) },
        ],
    }
}

fn hash(xs: &[u64]) -> Fe {
    let mut sponge = PoseidonSponge::new(toy_spec());
    sponge.update(&row(xs));
    sponge.squeeze()
}

#[test]
fn add_wraps_at_the_modulus() {
    let p_minus_one = words(0x992d30ed00000000, 0x224698fc094cf91b, 0, 0x4000000000000000);
    let out = next_state_val(&vec![fe(2)], &vec![fe(1)], &vec![fe(0)], p_minus_one, p_minus_one);
    assert_eq!(out, fe(1));
}

#[test]
fn pow5_reduces_modulo_the_modulus() {
    assert_eq!(
        pow5(words(0, 1, 0, 0)),
        words(0x992d30ed00000001, 0xbd91d548094cf917, 0x76e59c0fdacc1b91, 0x3fffffffffffffff)
    );
}

#[test]
fn pow5_of_three() {
    assert_eq!(pow5(fe(3)), fe(243));
}

#[test]
fn projection_keeps_values_below_the_modulus() {
    let s = SupportScalar { w0: 5, w1: 6, w2: 7, w3: 8 };
    assert_eq!(project(s), Some(words(5, 6, 7, 8)));
    let p = SupportScalar { w0: 0x992d30ed00000001, w1: 0x224698fc094cf91b, w2: 0, w3: 0x4000000000000000 };
    assert_eq!(project(p), None);
}

#[test]
fn permutation_exact_value() {
    let spec = toy_spec();
    let state = vec![words(0, 1, 0, 0), fe(0), fe(0)];
    let out = spec.permutation(&row(&[1, 2]), &state);
    assert_eq!(
        out,
        vec![
            words(0xff6815567cb7ca39, 0x9a3cb715998fa46e, 0x334aad1461d283c, 0xbc509d32f8b260c),
            words(0xe50fb23d3158dd0a, 0xe45ed1f67a4d33d8, 0x2f71b93d65b3a3d9, 0x6456c2a59c6e2ff),
            words(0xcab74f23e5f9efdb, 0x2e80ecd75b0ac342, 0x5baec7a9854a1f77, 0xc5ce8184029ff2),
        ]
    );
}

#[test]
fn sponge_of_five_elements() {
    assert_eq!(
        hash(&[0, 1, 2, 3, 4]),
        words(0x4568ae1cd0070bcf, 0x5cb63ed27963f195, 0x424a0642884448d9, 0x2f484910f2881749)
    );
}

#[test]
fn sponge_is_deterministic() {
    assert_eq!(hash(&[0, 1, 2, 3, 4]), hash(&[0, 1, 2, 3, 4]));
    let mut sponge = PoseidonSponge::new(toy_spec());
    sponge.update(&row(&[0, 1]));
    sponge.update(&row(&[2, 3, 4]));
    assert_eq!(sponge.squeeze(), hash(&[0, 1, 2, 3, 4]));
}

#[test]
fn sponge_separates_a_full_chunk_from_a_trailing_zero() {
    let exact = hash(&[5, 6]);
    let padded = hash(&[5, 6, 0]);
    assert_eq!(
        exact,
        words(0xb1c6d2e274ef9316, 0xbb7b53476f67adab, 0x8c8df54580b3f21b, 0x3bdd03b4fe3571b2)
    );
    assert_eq!(
        padded,
        words(0xeeffc0eda5bab930, 0xa9c7dd539f05b514, 0x807283f9714003b0, 0x350c62847785a2e0)
    );
    assert_ne!(exact, padded);
}

#[test]
fn sponge_of_nothing_is_the_initial_rate_slot() {
    assert_eq!(hash(&[]), fe(0));
}
