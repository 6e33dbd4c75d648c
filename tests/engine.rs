use lsys_pairwise::judgment::{EngineError, Judgment, Pair, Ratio, SampleId};
use lsys_pairwise::matrix::{build_matrix, find_missing};
use lsys_pairwise::pairs::{has_judged_all, pairs_needing_judgment};
use lsys_pairwise::present::{present, present_with};
use lsys_pairwise::priority::{fixed_point, normalize, priority_vector, priority_weights, SCALE};
use lsys_pairwise::ranking::{calculate_sample_weights, rank, SampleWeight};
use lsys_pairwise::submit::{check_judgment, insert_refused};

const A: SampleId = SampleId(0xa);
const B: SampleId = SampleId(0xb);
const C: SampleId = SampleId(0xc);
const D: SampleId = SampleId(0xd);

fn ratio(num: i32, den: i32) -> Ratio {
    Ratio { num, den }
}

fn judge(a: SampleId, b: SampleId, r: Ratio) -> Judgment {
    Judgment { a, b, ratio: r }
}

fn value(r: &Ratio) -> f64 {
    r.num as f64 / r.den as f64
}

fn scenario_judgments() -> Vec<Judgment> {
    vec![
        judge(A, B, ratio(2, 1)),
        judge(A, C, ratio(3, 1)),
        judge(B, C, ratio(3, 2)),
    ]
}

#[test]
fn three_samples_scenario() {
    let ids = vec![A, B, C];
    let m = build_matrix(&ids, &scenario_judgments()).unwrap();
    let expected = [[1.0, 2.0, 3.0], [0.5, 1.0, 1.5], [1.0 / 3.0, 2.0 / 3.0, 1.0]];
    for i in 0..3 {
        for j in 0..3 {
            assert!((value(&m.cells[i][j]) - expected[i][j]).abs() < 1e-9);
        }
    }
    let nm = normalize(&m);
    for c in 0..3 {
        let sum: u64 = (0..3).map(|r| nm[r][c]).sum();
        assert!(sum >= SCALE && sum < SCALE + 3);
    }
    let w = priority_vector(&nm);
    let expected_w = [0.545, 0.273, 0.182];
    for i in 0..3 {
        assert!((w[i] as f64 / SCALE as f64 - expected_w[i]).abs() < 1e-3);
    }
    let ranking = calculate_sample_weights(&ids, &scenario_judgments()).unwrap();
    let order: Vec<SampleId> = ranking.iter().map(|s| s.sample).collect();
    assert_eq!(order, vec![A, B, C]);
    assert_eq!(ranking[0].weight, w[0]);
}

#[test]
fn reversed_records_give_the_transpose() {
    let ids = vec![A, B, C];
    let js = vec![
        judge(B, A, ratio(2, 1)),
        judge(C, A, ratio(3, 1)),
        judge(C, B, ratio(3, 2)),
    ];
    let m = build_matrix(&ids, &js).unwrap();
    let expected = [[1.0, 0.5, 1.0 / 3.0], [2.0, 1.0, 2.0 / 3.0], [3.0, 1.5, 1.0]];
    for i in 0..3 {
        for j in 0..3 {
            assert!((value(&m.cells[i][j]) - expected[i][j]).abs() < 1e-9);
        }
    }
    let w = priority_weights(&m);
    let expected_w = [1.0 / 6.0, 1.0 / 3.0, 0.5];
    for i in 0..3 {
        assert!((w[i] as f64 / SCALE as f64 - expected_w[i]).abs() < 1e-5);
    }
    let ranking = calculate_sample_weights(&ids, &js).unwrap();
    let order: Vec<SampleId> = ranking.iter().map(|s| s.sample).collect();
    assert_eq!(order, vec![C, B, A]);
}

#[test]
fn ranking_with_a_missing_pair_fails() {
    let ids = vec![A, B, C];
    let js = vec![judge(A, B, ratio(2, 1)), judge(C, A, ratio(3, 1))];
    assert_eq!(
        calculate_sample_weights(&ids, &js),
        Err(EngineError::MissingJudgment { col: 1, row: 2 })
    );
    assert_eq!(find_missing(&ids, &js), Some((1, 2)));
    assert!(!has_judged_all(&ids, &js));
    let empty: Vec<Judgment> = Vec::new();
    assert_eq!(
        build_matrix(&ids, &empty).err(),
        Some(EngineError::MissingJudgment { col: 0, row: 1 })
    );
}

#[test]
fn stored_non_positive_ratio_is_reported() {
    let ids = vec![A, B];
    let js = vec![judge(A, B, ratio(0, 1))];
    assert_eq!(calculate_sample_weights(&ids, &js), Err(EngineError::InvalidRatio));
}

#[test]
fn reverse_direction_is_a_duplicate() {
    let ids = vec![A, B, C];
    let js = vec![judge(A, B, ratio(2, 1))];
    assert_eq!(check_judgment(&ids, &js, B, A, ratio(1, 2)), Err(EngineError::DuplicateJudgment));
    assert_eq!(check_judgment(&ids, &js, A, B, ratio(1, 2)), Err(EngineError::DuplicateJudgment));
    assert_eq!(check_judgment(&ids, &js, B, A, ratio(0, 1)), Err(EngineError::DuplicateJudgment));
    assert_eq!(check_judgment(&ids, &js, A, B, ratio(-1, 1)), Err(EngineError::DuplicateJudgment));
    assert_eq!(check_judgment(&ids, &js, B, C, ratio(1, 2)), Ok(judge(B, C, ratio(1, 2))));
}

#[test]
fn non_positive_ratio_is_rejected() {
    let ids = vec![A, B];
    let js: Vec<Judgment> = Vec::new();
    assert_eq!(check_judgment(&ids, &js, A, B, ratio(0, 1)), Err(EngineError::InvalidRatio));
    assert_eq!(check_judgment(&ids, &js, A, B, ratio(-3, 2)), Err(EngineError::InvalidRatio));
    assert_eq!(check_judgment(&ids, &js, A, B, ratio(3, 0)), Err(EngineError::InvalidRatio));
    assert_eq!(check_judgment(&ids, &js, A, B, ratio(3, 2)), Ok(judge(A, B, ratio(3, 2))));
}

#[test]
fn unknown_and_same_samples_are_rejected() {
    let ids = vec![A, B];
    let js: Vec<Judgment> = Vec::new();
    assert_eq!(check_judgment(&ids, &js, A, D, ratio(1, 1)), Err(EngineError::UnknownSample));
    assert_eq!(check_judgment(&ids, &js, D, A, ratio(0, 1)), Err(EngineError::UnknownSample));
    assert_eq!(check_judgment(&ids, &js, A, A, ratio(1, 1)), Err(EngineError::SameSample));
    assert_eq!(insert_refused(true), EngineError::DuplicateJudgment);
    assert_eq!(insert_refused(false), EngineError::StorageFailure);
}

#[test]
fn all_pairs_pending_without_judgments() {
    let ids = vec![A, B, C, D];
    let js: Vec<Judgment> = Vec::new();
    let pairs = pairs_needing_judgment(&ids, &js);
    assert_eq!(pairs.len(), 6);
    assert_eq!(
        pairs,
        vec![
            Pair { a: A, b: B },
            Pair { a: A, b: C },
            Pair { a: A, b: D },
            Pair { a: B, b: C },
            Pair { a: B, b: D },
            Pair { a: C, b: D },
        ]
    );
    assert!(pairs_needing_judgment(&vec![A], &js).is_empty());
    assert!(pairs_needing_judgment(&Vec::new(), &js).is_empty());
}

#[test]
fn judged_pairs_leave_the_pending_set() {
    let ids = vec![A, B, C, D];
    let js = vec![judge(C, A, ratio(2, 1)), judge(B, D, ratio(1, 3))];
    let pairs = pairs_needing_judgment(&ids, &js);
    assert_eq!(
        pairs,
        vec![
            Pair { a: A, b: B },
            Pair { a: A, b: D },
            Pair { a: B, b: C },
            Pair { a: C, b: D },
        ]
    );
}

#[test]
fn built_matrix_is_reciprocal() {
    let ids = vec![A, B, C, D];
    let js = vec![
        judge(A, B, ratio(2, 1)),
        judge(C, A, ratio(5, 3)),
        judge(A, D, ratio(1, 7)),
        judge(B, C, ratio(4, 9)),
        judge(D, B, ratio(8, 1)),
        judge(C, D, ratio(1, 1)),
    ];
    let m = build_matrix(&ids, &js).unwrap();
    for i in 0..4 {
        assert_eq!(m.cells[i][i], ratio(1, 1));
        for j in 0..4 {
            let x = m.cells[i][j];
            let y = m.cells[j][i];
            assert_eq!(x.num as i64 * y.num as i64, x.den as i64 * y.den as i64);
        }
    }
    assert_eq!(m.cells[0][1], ratio(2, 1));
    assert_eq!(m.cells[1][0], ratio(1, 2));
    assert_eq!(m.cells[2][0], ratio(5, 3));
    assert_eq!(m.cells[0][2], ratio(3, 5));
}

#[test]
fn normalized_columns_sum_to_one() {
    let ids = vec![A, B, C, D];
    let js = vec![
        judge(A, B, ratio(9, 1)),
        judge(A, C, ratio(1, 9)),
        judge(A, D, ratio(7, 3)),
        judge(B, C, ratio(2, 5)),
        judge(B, D, ratio(1, 1)),
        judge(C, D, ratio(3, 1)),
    ];
    let nm = normalize(&build_matrix(&ids, &js).unwrap());
    for c in 0..4 {
        let sum: u64 = (0..4).map(|r| nm[r][c]).sum();
        assert!(sum >= SCALE && sum < SCALE + 4);
        assert!(((sum as f64 / SCALE as f64) - 1.0).abs() < 1e-5);
    }
}

#[test]
fn indifference_gives_uniform_weights() {
    let ids = vec![A, B, C];
    let js = vec![
        judge(A, B, ratio(1, 1)),
        judge(C, A, ratio(4, 4)),
        judge(B, C, ratio(1, 1)),
    ];
    let ranking = calculate_sample_weights(&ids, &js).unwrap();
    assert_eq!(
        ranking,
        vec![
            SampleWeight { sample: A, weight: 333_333_334 },
            SampleWeight { sample: B, weight: 333_333_334 },
            SampleWeight { sample: C, weight: 333_333_334 },
        ]
    );
}

#[test]
fn single_sample_has_full_weight() {
    let js: Vec<Judgment> = Vec::new();
    assert_eq!(
        calculate_sample_weights(&vec![A], &js),
        Ok(vec![SampleWeight { sample: A, weight: SCALE }])
    );
    assert_eq!(calculate_sample_weights(&Vec::new(), &js), Ok(Vec::new()));
}

#[test]
fn fixed_point_rounds_up() {
    assert_eq!(fixed_point(&ratio(1, 3)), 333_333_334);
    assert_eq!(fixed_point(&ratio(2, 3)), 666_666_667);
    assert_eq!(fixed_point(&ratio(1, 2_000_000_000)), 1);
    assert_eq!(fixed_point(&ratio(3, 2)), 1_500_000_000);
    assert_eq!(fixed_point(&ratio(i32::MAX, 1)), 2_147_483_647_000_000_000);
}

#[test]
fn tiny_ratios_stay_positive_after_normalization() {
    let ids = vec![A, B];
    let js = vec![judge(A, B, ratio(1, 2_000_000_000))];
    let nm = normalize(&build_matrix(&ids, &js).unwrap());
    for r in 0..2 {
        for c in 0..2 {
            assert!(nm[r][c] >= 1 && nm[r][c] <= SCALE);
        }
    }
    assert_eq!(nm[0][0], 1);
    assert_eq!(nm[1][0], SCALE);
}

#[test]
fn rank_sorts_descending_and_keeps_ties_in_order() {
    let ids = vec![A, B, C, D];
    let w = vec![5, 9, 5, 1];
    assert_eq!(
        rank(&ids, &w),
        vec![
            SampleWeight { sample: B, weight: 9 },
            SampleWeight { sample: A, weight: 5 },
            SampleWeight { sample: C, weight: 5 },
            SampleWeight { sample: D, weight: 1 },
        ]
    );
}

#[test]
fn presentation_follows_the_draws() {
    let pairs = vec![Pair { a: A, b: B }, Pair { a: C, b: D }, Pair { a: A, b: D }];
    let swap = vec![true, false, true];
    let order = vec![2, 0, 1];
    let shown = present_with(&pairs, &swap, &order);
    assert_eq!(shown, vec![Pair { a: D, b: A }, Pair { a: B, b: A }, Pair { a: C, b: D }]);
    assert_eq!(present_with(&pairs, &swap, &order), shown);
    assert_eq!(
        present_with(&pairs, &vec![false, false, false], &vec![0, 1, 2]),
        pairs
    );
}

#[test]
fn presented_pairs_are_the_pending_pairs() {
    let ids = vec![A, B, C, D];
    let js: Vec<Judgment> = Vec::new();
    let pairs = pairs_needing_judgment(&ids, &js);
    let shown = present(&pairs);
    assert_eq!(shown.len(), pairs.len());
    let key = |p: &Pair| if p.a.0 < p.b.0 { (p.a.0, p.b.0) } else { (p.b.0, p.a.0) };
    let mut expected: Vec<(u128, u128)> = pairs.iter().map(key).collect();
    let mut got: Vec<(u128, u128)> = shown.iter().map(key).collect();
    expected.sort();
    got.sort();
    assert_eq!(got, expected);
}
