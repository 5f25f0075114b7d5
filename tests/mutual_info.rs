use gene_mutual_info::discretize::{discretize_row, discretize_value, BINS};
use gene_mutual_info::engine::{compute_pair_frequencies, discretize_rows, pair_frequencies};
use gene_mutual_info::error::{validate_dimensions, MutualInfoError};
use gene_mutual_info::frequency::{frequency_table, joint_frequencies, FrequencyTable};
use gene_mutual_info::pairs::gene_pairs;
use gene_mutual_info::table::assemble_symmetric;

/// Plug-in mutual information, in nats, of a frequency table.
fn score(t: &FrequencyTable) -> f64 {
    let n = t.samples as f64;
    let mut mi = 0.0;
    for a in 0..BINS {
        for b in 0..BINS {
            let p_xy = t.joint_count(a, b) as f64 / n;
            let p_x = t.x_counts[a] as f64 / n;
            let p_y = t.y_counts[b] as f64 / n;
            if p_xy > 0.0 && p_x > 0.0 && p_y > 0.0 {
                mi += p_xy * (p_xy / (p_x * p_y)).ln();
            }
        }
    }
    mi
}

fn one_to_twenty() -> Vec<u64> {
    (1..=20).collect()
}

fn shuffled() -> Vec<u64> {
    (0..20u64).map(|k| (7 * k) % 20 + 1).collect()
}

fn scores_of(rows: &Vec<Vec<u64>>) -> Vec<Vec<Option<f64>>> {
    let n_cols = rows[0].len();
    let pairs = compute_pair_frequencies(rows, n_cols, rows.len()).unwrap();
    let scores: Vec<((usize, usize), f64)> = pairs.iter().map(|(p, t)| (*p, score(t))).collect();
    assemble_symmetric(rows.len(), &scores)
}

#[test]
fn quantile_bins_of_one_to_twenty() {
    let sorted = one_to_twenty();
    let expected = [0, 0, 0, 1, 1, 2, 2, 3, 3, 4, 4, 5, 5, 6, 6, 7, 7, 8, 8, 9];
    for (k, v) in sorted.iter().enumerate() {
        assert_eq!(discretize_value(*v, &sorted, BINS), expected[k]);
    }
    assert_eq!(discretize_value(0, &sorted, BINS), 0);
    assert_eq!(discretize_value(100, &sorted, BINS), 9);
}

#[test]
fn discretize_empty_reference_is_bin_zero() {
    assert_eq!(discretize_value(42, &[], BINS), 0);
}

#[test]
fn discretize_single_bin() {
    assert_eq!(discretize_value(42, &[1, 2, 3], 1), 0);
}

#[test]
fn discretize_ties_land_in_first_matching_bin() {
    let sorted = vec![5u64; 10];
    assert_eq!(discretize_value(5, &sorted, BINS), 0);
}

#[test]
fn discretize_row_sorts_its_own_cuts() {
    let row = vec![20u64, 1, 10, 4];
    // n = 4: the cuts read positions 0, 0, 1, 1, 2, 2, 2, 3, 3 of [1, 4, 10, 20]
    assert_eq!(discretize_row(&row, BINS), vec![7, 0, 4, 2]);
}

#[test]
fn gene_pairs_lists_upper_triangle() {
    assert_eq!(gene_pairs(3), vec![(0, 0), (0, 1), (0, 2), (1, 1), (1, 2), (2, 2)]);
    assert_eq!(gene_pairs(0), vec![]);
    assert_eq!(gene_pairs(5).len(), 15);
}

#[test]
fn empty_matrix_is_refused_whatever_the_labels() {
    assert_eq!(validate_dimensions(0, 5, 3), Err(MutualInfoError::EmptyInput));
    assert_eq!(validate_dimensions(0, 5, 0), Err(MutualInfoError::EmptyInput));
    assert_eq!(validate_dimensions(2, 0, 2), Err(MutualInfoError::EmptyInput));
    assert_eq!(validate_dimensions(2, 0, 7), Err(MutualInfoError::EmptyInput));
    let rows: Vec<Vec<u64>> = vec![vec![], vec![]];
    assert_eq!(compute_pair_frequencies(&rows, 0, 2), Err(MutualInfoError::EmptyInput));
    let none: Vec<Vec<u64>> = vec![];
    assert_eq!(compute_pair_frequencies(&none, 4, 1), Err(MutualInfoError::EmptyInput));
}

#[test]
fn label_count_mismatch_is_refused() {
    assert_eq!(
        validate_dimensions(3, 5, 2),
        Err(MutualInfoError::DimensionMismatch { matrix_rows: 3, gene_count: 2 })
    );
    let rows = vec![one_to_twenty(), one_to_twenty()];
    assert_eq!(
        compute_pair_frequencies(&rows, 20, 3),
        Err(MutualInfoError::DimensionMismatch { matrix_rows: 2, gene_count: 3 })
    );
    assert_eq!(validate_dimensions(3, 5, 3), Ok(()));
}

#[test]
fn identical_rows_score_as_self_information() {
    let rows = vec![one_to_twenty(), one_to_twenty()];
    let pairs = compute_pair_frequencies(&rows, 20, 2).unwrap();
    let keys: Vec<(usize, usize)> = pairs.iter().map(|(p, _)| *p).collect();
    assert_eq!(keys, vec![(0, 0), (0, 1), (1, 1)]);
    assert_eq!(pairs[0].1, pairs[1].1);
    let table = scores_of(&rows);
    let g1_g2 = table[0][1].unwrap();
    assert_eq!(g1_g2, table[1][0].unwrap());
    assert_eq!(g1_g2, table[0][0].unwrap());
    assert_eq!(g1_g2, table[1][1].unwrap());
    // bins hold 3, 2, 2, 2, 2, 2, 2, 2, 2 and 1 samples
    let entropy = -(3.0 / 20.0 * (3.0f64 / 20.0).ln()
        + 8.0 * (2.0 / 20.0 * (2.0f64 / 20.0).ln())
        + 1.0 / 20.0 * (1.0f64 / 20.0).ln());
    assert!((g1_g2 - entropy).abs() < 1e-12);
}

#[test]
fn permuted_row_scores_below_identical_row() {
    let rows = vec![one_to_twenty(), shuffled()];
    let table = scores_of(&rows);
    let perfect = scores_of(&vec![one_to_twenty(), one_to_twenty()])[0][1].unwrap();
    let mi = table[0][1].unwrap();
    assert!(mi >= -1e-9);
    assert!(mi < perfect);
    assert_eq!(mi, table[1][0].unwrap());
}

#[test]
fn table_is_symmetric_with_every_diagonal_entry() {
    let rows = vec![one_to_twenty(), shuffled(), (0..20u64).map(|k| k * k % 7).collect()];
    let table = scores_of(&rows);
    let pairs = compute_pair_frequencies(&rows, 20, 3).unwrap();
    for i in 0..3 {
        for j in 0..3 {
            assert_eq!(table[i][j], table[j][i]);
            assert!(table[i][j].unwrap() >= -1e-9);
        }
        let self_pair = pairs.iter().find(|(p, _)| *p == (i, i)).unwrap();
        assert_eq!(table[i][i], Some(score(&self_pair.1)));
        let alone = joint_frequencies(&rows[i], &rows[i]);
        assert_eq!(self_pair.1, alone);
    }
}

#[test]
fn repeated_runs_agree() {
    let rows = vec![shuffled(), one_to_twenty(), vec![3u64; 20]];
    let first = compute_pair_frequencies(&rows, 20, 3);
    let second = compute_pair_frequencies(&rows, 20, 3);
    assert_eq!(first, second);
    let binned = discretize_rows(&rows);
    let firsts = first.unwrap();
    for (k, ((i, j), t)) in firsts.iter().enumerate().rev() {
        assert_eq!(*t, pair_frequencies(&binned, *i, *j), "pair {}", k);
    }
}

#[test]
fn constant_row_has_zero_information() {
    let rows = vec![vec![7u64; 20], one_to_twenty()];
    let pairs = compute_pair_frequencies(&rows, 20, 2).unwrap();
    let (_, self_table) = &pairs[0];
    assert_eq!(self_table.x_counts[0], 20);
    assert_eq!(self_table.joint_count(0, 0), 20);
    let table = scores_of(&rows);
    assert_eq!(table[0][0], Some(0.0));
    assert_eq!(table[0][1], Some(0.0));
    assert_eq!(table[1][0], Some(0.0));
    assert!(table[1][1].unwrap() > 0.0);
}

#[test]
fn frequency_counts_of_small_rows() {
    let t = frequency_table(&vec![0, 0, 9, 3], &vec![1, 1, 2, 3]);
    assert_eq!(t.samples, 4);
    assert_eq!(t.joint_count(0, 1), 2);
    assert_eq!(t.joint_count(9, 2), 1);
    assert_eq!(t.joint_count(3, 3), 1);
    assert_eq!(t.joint_count(1, 0), 0);
    assert_eq!(t.joint.iter().sum::<usize>(), 4);
    assert_eq!(t.x_counts, vec![2, 0, 0, 1, 0, 0, 0, 0, 0, 1]);
    assert_eq!(t.y_counts, vec![0, 2, 1, 1, 0, 0, 0, 0, 0, 0]);
}

#[test]
fn empty_rows_give_zero_counts() {
    let t = joint_frequencies(&[], &[]);
    assert_eq!(t.samples, 0);
    assert!(t.joint.iter().all(|c| *c == 0));
    assert_eq!(t.joint.len(), 100);
}

#[test]
fn later_results_overwrite_earlier_ones() {
    let results = vec![((0usize, 1usize), 1i32), ((1, 0), 2), ((2, 2), 3)];
    let table = assemble_symmetric(3, &results);
    assert_eq!(table[0][1], Some(2));
    assert_eq!(table[1][0], Some(2));
    assert_eq!(table[2][2], Some(3));
    assert_eq!(table[0][0], None);
    assert_eq!(table[1][2], None);
}
