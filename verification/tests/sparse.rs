use vortex_core::dtype::DType;
use vortex_core::dtype::Nullability;
use vortex_core::dtype::PType;
use vortex_core::sparse::majority_value;
use vortex_core::sparse::mode_in;
use vortex_core::sparse::most_frequent_value;
use vortex_core::sparse::ArrayAndStats;
use vortex_core::sparse::CompressStep;
use vortex_core::sparse::EstimateVerdict;
use vortex_core::sparse::ExcludedChildScheme;
use vortex_core::sparse::IntArray;
use vortex_core::sparse::IntegerStats;
use vortex_core::sparse::ProducedEncoding;
use vortex_core::sparse::SparseScheme;
use vortex_core::stats::PValue;

#[test]
fn strict_majority_is_found_exactly() {
    let values = [7u32, 1, 7, 2, 7, 7, 3, 7, 7, 7];
    assert_eq!(mode_in(&values, false), Some((7, 7)));
}

#[test]
fn majority_at_the_end_survives_early_votes() {
    let values = [1i64, 2, 3, 9, 9, 9, 9];
    assert_eq!(mode_in(&values, false), Some((9, 4)));
}

#[test]
fn no_majority_is_none_unless_exact() {
    let values = [4u8, 4, 4, 1, 2, 3, 5, 6];
    assert_eq!(mode_in(&values, false), None);
    assert_eq!(mode_in(&values, true), Some((4, 3)));
}

#[test]
fn half_is_not_a_strict_majority() {
    let values = [5u16, 5, 1, 2];
    assert_eq!(mode_in(&values, false), None);
}

#[test]
fn empty_input_has_no_mode() {
    assert_eq!(mode_in::<u16>(&[], true), None);
}

#[test]
fn negative_values_count_by_themselves() {
    assert_eq!(mode_in(&[-1i8, 1, -1], false), Some((-1, 2)));
    assert_eq!(mode_in(&[i64::MIN, i64::MAX, i64::MIN], false), Some((i64::MIN, 2)));
    assert_eq!(mode_in(&[-5i32, 5, -5, 5, 7], true).unwrap().1, 2);
}

fn data(values: Vec<i32>, valid: Vec<bool>) -> ArrayAndStats {
    ArrayAndStats::try_new(IntArray::I32(values), Nullability::Nullable, valid).unwrap()
}

#[test]
fn lengths_must_agree() {
    assert!(ArrayAndStats::try_new(IntArray::U8(vec![1, 2]), Nullability::Nullable, vec![true])
        .is_none());
}

#[test]
fn majority_counts_valid_values_only() {
    let mut d = data(vec![1, 1, 2, 2, 2], vec![true, true, true, false, false]);
    assert_eq!(majority_value(&mut d), Some((PValue::I32(1), 2)));
    assert_eq!(majority_value(&mut d), Some((PValue::I32(1), 2)));
}

#[test]
fn most_frequent_value_falls_back_to_counting() {
    let mut d = data(vec![3, 3, 1, 2], vec![true; 4]);
    assert_eq!(majority_value(&mut d), None);
    assert_eq!(most_frequent_value(&mut d), (PValue::I32(3), 2));
    let mut none = data(vec![3, 3], vec![false; 2]);
    assert_eq!(most_frequent_value(&mut none), (PValue::U8(0), 0));
}

fn stats(value_count: u32, null_count: u32, average_run_length: u32) -> IntegerStats {
    IntegerStats { value_count, null_count, average_run_length }
}

#[test]
fn estimates() {
    let scheme = SparseScheme;
    let mut nulls = data(vec![0; 20], vec![false; 20]);
    assert_eq!(
        scheme.expected_compression_ratio(&mut nulls, stats(0, 20, 0)),
        EstimateVerdict::Skip
    );

    let mut valid = vec![false; 20];
    valid[4] = true;
    let mut mostly_null = data(vec![0; 20], valid);
    assert_eq!(
        scheme.expected_compression_ratio(&mut mostly_null, stats(1, 19, 1)),
        EstimateVerdict::Ratio { from: 20, to: 1 }
    );

    // Exactly nine tenths null is not enough.
    let mut valid = vec![false; 20];
    valid[4] = true;
    valid[9] = true;
    let mut border = data(vec![0; 20], valid);
    assert_eq!(
        scheme.expected_compression_ratio(&mut border, stats(2, 18, 2)),
        EstimateVerdict::Skip
    );

    let mut values = vec![7; 20];
    values[3] = 1;
    let mut dominated = data(values.clone(), vec![true; 20]);
    assert_eq!(
        scheme.expected_compression_ratio(&mut dominated, stats(20, 0, 6)),
        EstimateVerdict::Ratio { from: 20, to: 1 }
    );
    assert_eq!(
        scheme.expected_compression_ratio(&mut dominated, stats(20, 0, 1)),
        EstimateVerdict::Skip
    );

    // Nine tenths of the values is enough, less is not.
    values[4] = 2;
    let mut border = data(values.clone(), vec![true; 20]);
    assert_eq!(
        scheme.expected_compression_ratio(&mut border, stats(20, 0, 5)),
        EstimateVerdict::Ratio { from: 20, to: 2 }
    );
    values[5] = 3;
    let mut below = data(values, vec![true; 20]);
    assert_eq!(
        scheme.expected_compression_ratio(&mut below, stats(20, 0, 5)),
        EstimateVerdict::Skip
    );

    let mut constant = data(vec![7; 20], vec![true; 20]);
    assert_eq!(
        scheme.expected_compression_ratio(&mut constant, stats(20, 0, 20)),
        EstimateVerdict::Skip
    );
}

#[test]
fn short_runs_cannot_hide_a_dominant_value() {
    // Nine sevens in ten values, spread as far as they go, are three runs at most.
    for at in 0..10 {
        let mut values = vec![7; 10];
        values[at] = 1;
        let runs = 1 + values.windows(2).filter(|w| w[0] != w[1]).count();
        assert!(10 / runs >= 2);
        let mut d = data(values, vec![true; 10]);
        assert_eq!(
            SparseScheme.expected_compression_ratio(&mut d, stats(10, 0, (10 / runs) as u32)),
            EstimateVerdict::Ratio { from: 10, to: 1 }
        );
    }
}

#[test]
fn compress_steps() {
    let scheme = SparseScheme;
    let mut constant = data(vec![7; 3], vec![true; 3]);
    assert_eq!(
        scheme.compress(&mut constant),
        CompressStep::Constant {
            value: PValue::I32(7),
            nullability: Nullability::Nullable,
            len: 3
        }
    );
    let mut required = ArrayAndStats::try_new(
        IntArray::U16(vec![7, 7, 8]),
        Nullability::NonNullable,
        vec![true; 3],
    )
    .unwrap();
    assert_eq!(
        scheme.compress(&mut required),
        CompressStep::Encode { fill: PValue::U16(7), nullability: Nullability::NonNullable }
    );
    let mut with_null = data(vec![7; 3], vec![true, false, true]);
    assert_eq!(
        scheme.compress(&mut with_null),
        CompressStep::Encode { fill: PValue::I32(7), nullability: Nullability::Nullable }
    );
    assert_eq!(
        scheme.after_encode(true),
        CompressStep::CompressChild { child: 0, narrow: false }
    );
    assert_eq!(scheme.after_encode(false), CompressStep::PassThrough);
    assert_eq!(
        scheme.after_child(0),
        CompressStep::CompressChild { child: 1, narrow: true }
    );
    assert_eq!(scheme.after_child(1), CompressStep::Assemble);
}

#[test]
fn scheme_description() {
    let scheme = SparseScheme;
    assert_eq!(scheme.scheme_name(), "vortex.int.sparse");
    assert_eq!(scheme.num_children(), 2);
    assert!(!scheme.stats_options().count_distinct_values);
    assert!(scheme.matches(&DType::Primitive(PType::I16, Nullability::Nullable)));
    assert!(!scheme.matches(&DType::Primitive(PType::F32, Nullability::Nullable)));
    assert!(!scheme.matches(&DType::Utf8(Nullability::Nullable)));
    assert_eq!(
        scheme.produced_encodings(),
        vec![ProducedEncoding::Sparse, ProducedEncoding::Constant]
    );
    let excluded: Vec<_> = scheme
        .descendant_exclusions()
        .iter()
        .map(|e| (e.excluded, e.child))
        .collect();
    assert_eq!(
        excluded,
        vec![
            (ExcludedChildScheme::IntDict, 1),
            (ExcludedChildScheme::RunEnd, 1),
            (ExcludedChildScheme::IntRle, 1),
            (ExcludedChildScheme::Sparse, 1),
        ]
    );
}
