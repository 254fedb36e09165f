use tsp_genetic::log::Log;
use tsp_genetic::path::Path;

fn scored(score: i64) -> Path {
    let mut p = Path::new_with_verts(vec![0, 1, 2, 0]);
    p.score = score;
    p
}

#[test]
fn a_new_log_renders_nothing() {
    let log = Log::new();
    assert!(log.logs.is_empty());
    assert_eq!(log.render(), Vec::<u8>::new());
}

#[test]
fn records_stay_in_recorded_order() {
    let mut log = Log::new();
    log.put(vec![1, 2, 3, 4, 5]);
    log.put(vec![7]);
    assert_eq!(log.logs, vec![vec![1, 2, 3, 4, 5], vec![7]]);
}

#[test]
fn scores_are_recorded_in_population_order() {
    let mut log = Log::new();
    log.put_scores(&vec![scored(12), scored(20), scored(-1), scored(28)]);
    log.put_scores(&vec![]);
    assert_eq!(log.logs, vec![vec![12, 20, -1, 28], vec![]]);
}

#[test]
fn one_line_for_each_record() {
    let mut log = Log::new();
    log.put(vec![12, 20, 28, 12]);
    log.put(vec![12, 12, 20, 20]);
    assert_eq!(log.render(), b"12 20 28 12\n12 12 20 20\n".to_vec());
}

#[test]
fn an_empty_record_is_an_empty_line() {
    let mut log = Log::new();
    log.put(vec![]);
    log.put(vec![5]);
    log.put(vec![]);
    assert_eq!(log.render(), b"\n5\n\n".to_vec());
}

#[test]
fn numbers_are_written_in_decimal() {
    let mut log = Log::new();
    log.put(vec![0, 9, 10, 99, 100, 1000000007, -1, -10, -305]);
    assert_eq!(log.render(), b"0 9 10 99 100 1000000007 -1 -10 -305\n".to_vec());
}

#[test]
fn the_extreme_numbers_are_written_in_full() {
    let mut log = Log::new();
    log.put(vec![i64::MAX, i64::MIN]);
    assert_eq!(log.render(), b"9223372036854775807 -9223372036854775808\n".to_vec());
}

#[test]
fn rendering_agrees_with_the_standard_formatting() {
    let values = vec![3, -77, 4096, 123456789012345, -9000000000000000000, 0];
    let mut log = Log::new();
    log.put(values.clone());
    let mut expected = String::new();
    for (k, v) in values.iter().enumerate() {
        if k > 0 {
            expected.push(' ');
        }
        expected.push_str(&format!("{}", v));
    }
    expected.push('\n');
    assert_eq!(log.render(), expected.into_bytes());
}
