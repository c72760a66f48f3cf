use parquet_sample::filter::RowFilter;
use parquet_sample::pipeline::{
    metadata_headers, plan_sample, population_size, projection_positions, sample_plan, FileSummary,
    ProjectionError,
};
use parquet_sample::sampler::{first_of, sample_indexes};
use std::collections::HashMap;
use std::collections::HashSet;

fn names(list: &[&str]) -> Vec<String> {
    list.iter().map(|s| s.to_string()).collect()
}

fn summary(fields: &[&str], rows: i64) -> FileSummary {
    FileSummary { field_names: names(fields), recorded_rows: rows }
}

#[test]
fn sample_has_min_of_request_and_population() {
    for n in 0..12usize {
        for k in 0..15usize {
            let s = sample_indexes(k, n);
            assert_eq!(s.len(), k.min(n));
            assert!(s.iter().all(|&i| i < n));
        }
    }
}

#[test]
fn sample_of_zero_is_empty() {
    assert!(sample_indexes(0, 10).is_empty());
}

#[test]
fn sample_of_empty_population_is_empty() {
    assert!(sample_indexes(5, 0).is_empty());
}

#[test]
fn sample_larger_than_population_takes_every_row() {
    let s = sample_indexes(100, 2);
    let expected: HashSet<usize> = [0, 1].into_iter().collect();
    assert_eq!(s, expected);
    let s = sample_indexes(7, 7);
    assert_eq!(s, (0..7).collect::<HashSet<usize>>());
}

#[test]
fn sample_subsets_are_close_to_uniform() {
    // Two out of four: six subsets, each expected 1000 times out of 6000.
    let mut counts: HashMap<Vec<usize>, usize> = HashMap::new();
    for _ in 0..6000 {
        let mut s: Vec<usize> = sample_indexes(2, 4).into_iter().collect();
        s.sort();
        *counts.entry(s).or_insert(0) += 1;
    }
    assert_eq!(counts.len(), 6);
    for (_, c) in counts {
        assert!(c > 800 && c < 1200, "count {}", c);
    }
}

#[test]
fn sample_of_one_is_not_always_the_first_row() {
    let mut seen: HashSet<usize> = HashSet::new();
    for _ in 0..200 {
        seen.extend(sample_indexes(1, 10));
    }
    assert!(seen.len() > 1);
}

#[test]
fn filter_keeps_sampled_ordinals_in_scan_order() {
    let keep: HashSet<usize> = [3, 1].into_iter().collect();
    let mut filter = RowFilter::new(keep);
    let rows = ["a", "b", "c", "d", "e"];
    let mut kept = Vec::new();
    for row in rows.iter() {
        if filter.next_kept() {
            kept.push(*row);
        }
    }
    assert_eq!(kept, vec!["b", "d"]);
}

#[test]
fn filter_with_empty_sample_keeps_nothing() {
    let mut filter = RowFilter::new(HashSet::new());
    for _ in 0..4 {
        assert!(!filter.next_kept());
    }
}

#[test]
fn pipeline_keeps_min_of_request_and_rows_in_ascending_order() {
    for n in 0..9usize {
        for k in 0..11usize {
            let mut plan = plan_sample(&summary(&["x"], n as i64), &None, k);
            let mut kept = Vec::new();
            for ordinal in 0..n {
                if plan.filter.next_kept() {
                    kept.push(ordinal);
                }
            }
            assert_eq!(kept.len(), k.min(n));
            assert!(kept.windows(2).all(|w| w[0] < w[1]));
        }
    }
}

#[test]
fn population_counts_negative_as_empty() {
    assert_eq!(population_size(-5), 0);
    assert_eq!(population_size(0), 0);
    assert_eq!(population_size(7), 7);
    assert_eq!(population_size(1_000_000_007), 1_000_000_007);
}

#[test]
fn headers_follow_requested_columns() {
    let cols = Some(names(&["field_boolean", "field_int32"]));
    let h = metadata_headers(&summary(&["field_int32", "field_int64", "field_boolean"], 2), &cols);
    assert_eq!(h, names(&["field_boolean", "field_int32"]));
}

#[test]
fn headers_default_to_schema_fields() {
    let h = metadata_headers(&summary(&["field_int32", "field_int64"], 2), &None);
    assert_eq!(h, names(&["field_int32", "field_int64"]));
}

#[test]
fn headers_keep_an_empty_column_request() {
    let h = metadata_headers(&summary(&["field_int32"], 2), &Some(Vec::new()));
    assert!(h.is_empty());
}

#[test]
fn plan_samples_every_row_when_request_exceeds_rows() {
    let mut plan = plan_sample(&summary(&["a", "b"], 3), &None, 100);
    assert_eq!(plan.headers, names(&["a", "b"]));
    assert_eq!(plan.population, 3);
    assert!(plan.filter.next_kept());
    assert!(plan.filter.next_kept());
    assert!(plan.filter.next_kept());
    assert!(!plan.filter.next_kept());
}

#[test]
fn missing_metadata_plans_nothing() {
    assert!(sample_plan(None, &None, 100).is_none());
}

#[test]
fn projection_positions_follow_request_order() {
    let schema = names(&["field_int32", "field_int64", "field_boolean"]);
    let cols = names(&["field_boolean", "field_int32"]);
    assert_eq!(projection_positions(&schema, &cols), Ok(vec![2, 0]));
}

#[test]
fn projection_names_the_first_unknown_column() {
    let schema = names(&["a", "b"]);
    let cols = names(&["b", "x", "y"]);
    assert_eq!(
        projection_positions(&schema, &cols),
        Err(ProjectionError::UnknownColumn("x".to_string()))
    );
}

#[test]
fn projection_of_no_columns_is_empty() {
    let schema = names(&["a"]);
    assert_eq!(projection_positions(&schema, &Vec::new()), Ok(Vec::new()));
}

#[test]
fn plan_takes_headers_and_row_count_from_the_summary() {
    let cols = Some(names(&["b"]));
    let plan = sample_plan(Some(&summary(&["a", "b"], 5)), &cols, 2).unwrap();
    assert_eq!(plan.headers, names(&["b"]));
    assert_eq!(plan.population, 5);
    let plan = sample_plan(Some(&summary(&["a", "b"], -3)), &None, 2).unwrap();
    assert_eq!(plan.headers, names(&["a", "b"]));
    assert_eq!(plan.population, 0);
}

#[test]
fn first_of_takes_a_prefix_of_the_order() {
    let order = vec![4, 2, 9, 0];
    let expected: HashSet<usize> = [4, 2].into_iter().collect();
    assert_eq!(first_of(&order, 2), expected);
    assert!(first_of(&order, 0).is_empty());
    assert_eq!(first_of(&order, 4).len(), 4);
}
