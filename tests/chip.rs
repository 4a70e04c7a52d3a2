use rand::rngs::StdRng;
use rand::{Rng, SeedableRng};
use sfc_core::chip::{next_state_val, PoseidonChip, RegionCtx};
use sfc_core::field::Fe;
use sfc_core::poseidon::{PoseidonSpec, PoseidonSponge, SparseMatrix};

fn fe(v: u64) -> Fe {
    Fe::from_u64(v)
}

fn row(xs: &[u64]) -> Vec<Fe> {
    xs.iter().map(|x| fe(*x)).collect()
}

fn random_fe(rng: &mut StdRng) -> Fe {
    Fe { w0: rng.gen(), w1: rng.gen(), w2: rng.gen(), w3: rng.gen::<u64>() >> 3 }
}

fn toy_spec() -> PoseidonSpec {
    PoseidonSpec {
        t: 3,
        rate: 2,
        r_f: 4,
        start: vec![row(&[1, 2, 3]), row(&[11, 12, 13]), row(&[21, 22, 23])],
        partial: row(&[7, 8, 9]),
        end: vec![row(&[100, 101, 102])],
        mds: vec![row(&[1, 2, 5]), row(&[4, 5, 8]), row(&[7, 8, 11])],
        pre_sparse_mds: vec![row(&[1, 2, 5]), row(&[5, 6, 9]), row(&[9, 10, 13])],
        sparse_matrices: vec![
            SparseMatrix { row: row(&[1, 2, 3]), col_hat: row(&[4, 5]) },
            SparseMatrix { row: row(&[2, 2, 3]), col_hat: row(&[5, 5]) },
            SparseMatrix { row: row(&[3, 2, 3]), col_hat: row(&[6, 5]) },
        ],
    }
}

fn random_spec(rng: &mut StdRng) -> PoseidonSpec {
    let mut v = |n: usize| (0..n).map(|_| random_fe(rng)).collect::<Vec<_>>();
    PoseidonSpec {
        t: 3,
        rate: 2,
        r_f: 4,
        start: vec![v(3), v(3), v(3)],
        partial: v(3),
        end: vec![v(3)],
        mds: vec![v(3), v(3), v(3)],
        pre_sparse_mds: vec![v(3), v(3), v(3)],
        sparse_matrices: vec![
            SparseMatrix { row: v(3), col_hat: v(2) },
            SparseMatrix { row: v(3), col_hat: v(2) },
            SparseMatrix { row: v(3), col_hat: v(2) },
        ],
    }
}

fn words(w0: u64, w1: u64, w2: u64, w3: u64) -> Fe {
    Fe { w0, w1, w2, w3 }
}

#[test]
fn next_state_val_solves_the_gate() {
    let state = row(&[2, 3]);
    let minus_one = words(0x992d30ed00000000, 0x224698fc094cf91b, 0, 0x4000000000000000);
    let minus_two = words(0x992d30ecffffffff, 0x224698fc094cf91b, 0, 0x4000000000000000);
    let out = next_state_val(&state, &row(&[1, 0]), &row(&[0, 1]), minus_one, fe(4));
    assert_eq!(out, fe(249));
    let half = next_state_val(&state, &row(&[1, 0]), &row(&[0, 1]), minus_two, fe(4));
    assert_eq!(half, words(0xcc9698768000007d, 0x11234c7e04a67c8d, 0, 0x2000000000000000));
}

#[test]
fn circuit_permutation_matches_native_on_random_states() {
    let mut rng = StdRng::seed_from_u64(7);
    for _ in 0..20 {
        let spec = random_spec(&mut rng);
        let state: Vec<Fe> = (0..3).map(|_| random_fe(&mut rng)).collect();
        let n = rng.gen_range(0..=2);
        let inputs: Vec<Fe> = (0..n).map(|_| random_fe(&mut rng)).collect();
        let native = spec.permutation(&inputs, &state);
        let chip = PoseidonChip::new(spec);
        let mut ctx = RegionCtx::new();
        let cells = chip.permutation(&mut ctx, &inputs, &state);
        assert_eq!(cells, native);
        assert!(ctx.check());
        assert_eq!(ctx.offset(), 3 * (1 + 4 + 3));
    }
}

#[test]
fn circuit_sponge_matches_native_and_rejects_a_flipped_input() {
    let inputs = row(&[0, 1, 2, 3, 4]);
    let mut sponge = PoseidonSponge::new(toy_spec());
    sponge.update(&inputs);
    let mut chip = PoseidonChip::new(toy_spec());
    chip.update(&inputs);
    let mut ctx = RegionCtx::new();
    let out = chip.squeeze(&mut ctx);
    assert_eq!(out, sponge.squeeze());
    assert_eq!(
        out,
        Fe { w0: 0x4568ae1cd0070bcf, w1: 0x5cb63ed27963f195, w2: 0x424a0642884448d9, w3: 0x2f484910f2881749 }
    );
    assert!(ctx.check());
    assert_eq!(chip.offset, ctx.offset());
    let mut tampered = ctx.clone();
    tampered.rows[1].input = fe(7);
    assert!(!tampered.check());
}

#[test]
fn squeeze_starts_again_from_the_saved_offset() {
    let mut chip = PoseidonChip::new(toy_spec());
    chip.update(&row(&[5, 6]));
    let mut ctx = RegionCtx::new();
    let first = chip.squeeze(&mut ctx);
    let rows = ctx.offset();
    assert_eq!(rows, 2 * 3 * 8);
    let again = chip.squeeze(&mut ctx);
    assert_eq!(first, again);
    assert_eq!(ctx.offset(), 2 * rows);
    ctx.reset(rows);
    assert_eq!(ctx.offset(), rows);
    assert!(ctx.check());
}

#[test]
fn reset_past_the_end_adds_blank_rows() {
    let mut ctx = RegionCtx::new();
    ctx.reset(4);
    assert_eq!(ctx.offset(), 4);
    assert!(ctx.rows.iter().all(|r| r.state.is_empty() && r.out == fe(0)));
    assert!(ctx.check());
    let mut chip = PoseidonChip::new(toy_spec());
    chip.offset = 6;
    chip.update(&row(&[1]));
    chip.squeeze(&mut ctx);
    assert_eq!(ctx.offset(), 6 + 3 * 8);
    assert!(ctx.rows[5].state.is_empty());
    assert!(ctx.check());
}

#[test]
fn permutation_rows_are_wired_to_their_inputs() {
    let spec = toy_spec();
    let chip = PoseidonChip::new(spec.clone());
    let mut ctx = RegionCtx::new();
    ctx.reset(2);
    let init = vec![fe(9), fe(8), fe(7)];
    let inputs = row(&[1, 2]);
    let out = chip.permutation(&mut ctx, &inputs, &init);
    assert_eq!(ctx.offset(), 2 + 3 * (1 + 4 + 3));
    for i in 0..3 {
        assert_eq!(ctx.rows[2 + i].state[i], init[i]);
    }
    let pre: Vec<Fe> = (0..3).map(|i| ctx.rows[2 + i].out).collect();
    assert_eq!(ctx.rows[2 + 3].state, pre);
    let last_round: Vec<Fe> = (0..3).map(|i| ctx.rows[2 + 3 * 7 + i].out).collect();
    assert_eq!(last_round, out);
    assert_eq!(ctx.rows[2 + 3 * 7].state.len(), 3);
}

#[test]
fn squeeze_runs_one_more_permutation_on_a_full_last_chunk() {
    for (n, perms) in [(1usize, 1usize), (2, 2), (3, 2), (4, 3), (5, 3)] {
        let mut chip = PoseidonChip::new(toy_spec());
        chip.update(&(0..n as u64).map(fe).collect());
        let mut ctx = RegionCtx::new();
        chip.squeeze(&mut ctx);
        assert_eq!(ctx.offset(), perms * 3 * 8);
    }
}
