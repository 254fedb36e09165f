use tsp_genetic::city_map::CityMap;
use tsp_genetic::error::GaError;
use tsp_genetic::path::{Path, UNSCORED};

fn four_cities() -> CityMap {
    CityMap { count: 4, edges: vec![0, 1, 9, 9, 1, 0, 1, 9, 9, 1, 0, 1, 9, 9, 1, 0] }
}

fn six_cities() -> CityMap {
    CityMap {
        count: 6,
        edges: vec![
            0, 25, 40, 100, 40, 32, 25, 0, 30, 165, 190, 90, 40, 30, 0, 45, 85, 215, 100, 165, 45,
            0, 15, 120, 40, 190, 85, 15, 0, 75, 32, 90, 215, 15, 75, 0,
        ],
    }
}

#[test]
fn distance_reads_row_by_row() {
    let map = six_cities();
    assert_eq!(map.distance(0, 1), Ok(25));
    assert_eq!(map.distance(1, 0), Ok(25));
    assert_eq!(map.distance(2, 5), Ok(215));
    assert_eq!(map.distance(5, 3), Ok(15));
    assert_eq!(map.distance(3, 5), Ok(120));
    assert_eq!(map.distance(4, 4), Ok(0));
    assert_eq!(map.distance(5, 5), Ok(0));
}

#[test]
fn distance_of_an_asymmetric_table() {
    let map = CityMap { count: 3, edges: vec![0, 1, 2, 3, 0, 5, 6, 7, 0] };
    assert!(map.is_valid());
    assert_eq!(map.distance(1, 2), Ok(5));
    assert_eq!(map.distance(2, 1), Ok(7));
    assert_eq!(map.distance(0, 2), Ok(2));
    assert_eq!(map.distance(2, 0), Ok(6));
}

#[test]
fn distance_rejects_what_is_no_city() {
    let map = four_cities();
    assert_eq!(map.distance(4, 0), Err(GaError::OutOfRange));
    assert_eq!(map.distance(0, 4), Err(GaError::OutOfRange));
    assert_eq!(map.distance(-1, 0), Err(GaError::OutOfRange));
    assert_eq!(map.distance(0, -1), Err(GaError::OutOfRange));
    assert_eq!(map.distance(i64::MAX, i64::MIN), Err(GaError::OutOfRange));
    assert_eq!(map.distance(3, 3), Ok(0));
}

#[test]
fn usable_tables_are_accepted() {
    assert!(four_cities().is_valid());
    assert!(six_cities().is_valid());
    assert!(CityMap { count: 3, edges: vec![0; 9] }.is_valid());
}

#[test]
fn too_few_cities_are_refused() {
    assert!(!CityMap { count: 2, edges: vec![0, 1, 1, 0] }.is_valid());
    assert!(!CityMap { count: 0, edges: vec![] }.is_valid());
    assert!(!CityMap { count: -3, edges: vec![0; 9] }.is_valid());
}

#[test]
fn a_table_that_is_no_square_is_refused() {
    assert!(!CityMap { count: 3, edges: vec![0; 8] }.is_valid());
    assert!(!CityMap { count: 3, edges: vec![0; 10] }.is_valid());
    assert!(!CityMap { count: 4, edges: vec![0; 9] }.is_valid());
}

#[test]
fn a_negative_distance_is_refused() {
    assert!(!CityMap { count: 3, edges: vec![0, 1, 1, 1, 0, -1, 1, 1, 0] }.is_valid());
}

#[test]
fn the_limit_on_a_distance_is_exact() {
    let limit = i64::MAX / 3;
    assert_eq!(limit, 3074457345618258602);
    assert!(CityMap { count: 3, edges: vec![0, limit, 1, 1, 0, 1, 1, 1, 0] }.is_valid());
    assert!(!CityMap { count: 3, edges: vec![0, limit + 1, 1, 1, 0, 1, 1, 1, 0] }.is_valid());
}

#[test]
fn a_new_path_is_empty_and_unscored() {
    let p = Path::new();
    assert!(p.verts.is_empty());
    assert_eq!(p.score, -1);
    assert_eq!(UNSCORED, -1);
}

#[test]
fn a_path_keeps_the_vertices_it_was_given() {
    let p = Path::new_with_verts(vec![2, 0, 1, 2]);
    assert_eq!(p.verts, vec![2, 0, 1, 2]);
    assert_eq!(p.score, -1);
}

#[test]
fn setting_vertices_leaves_the_score() {
    let mut p = Path::new_with_verts(vec![0, 1, 2, 0]);
    p.score = 17;
    p.set_vertices(vec![1, 2, 0, 1]);
    assert_eq!(p.verts, vec![1, 2, 0, 1]);
    assert_eq!(p.score, 17);
}
