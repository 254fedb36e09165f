use tsp_genetic::breed::{crossover, mutate};
use tsp_genetic::population::move_city;

fn is_closed_tour(verts: &Vec<i64>, count: usize) -> bool {
    if verts.len() != count + 1 || verts[0] != verts[count] {
        return false;
    }
    let mut seen = vec![false; count];
    for k in 0..count {
        let v = verts[k];
        if v < 0 || v as usize >= count || seen[v as usize] {
            return false;
        }
        seen[v as usize] = true;
    }
    true
}

#[test]
fn crossover_keeps_the_window_and_the_order_of_the_rest() {
    let a = vec![0, 1, 2, 3, 4, 0];
    let b = vec![3, 4, 0, 1, 2, 3];
    assert_eq!(crossover(&a, &b, 2, 3), vec![0, 4, 2, 3, 1, 0]);
}

#[test]
fn crossover_with_the_first_window() {
    let a = vec![0, 1, 2, 3, 4, 0];
    let b = vec![0, 4, 3, 2, 1, 0];
    assert_eq!(crossover(&a, &b, 1, 1), vec![0, 1, 4, 3, 2, 0]);
}

#[test]
fn crossover_with_the_last_window_that_is_drawn() {
    let a = vec![0, 1, 2, 3, 4, 0];
    let b = vec![0, 4, 3, 2, 1, 0];
    // n = 6, so the last window that is drawn is 3..=3
    assert_eq!(crossover(&a, &b, 3, 3), vec![0, 4, 2, 3, 1, 0]);
}

#[test]
fn crossover_with_the_widest_window_is_the_first_parent() {
    let a = vec![2, 0, 3, 1, 4, 2];
    let b = vec![0, 4, 3, 2, 1, 0];
    assert_eq!(crossover(&a, &b, 1, 4), a);
}

#[test]
fn crossover_of_a_tour_with_itself_is_that_tour() {
    let a = vec![3, 1, 0, 2, 3];
    assert_eq!(crossover(&a, &a, 1, 1), a);
    assert_eq!(crossover(&a, &a, 2, 2), a);
    assert_eq!(crossover(&a, &a, 1, 2), a);
}

#[test]
fn crossover_of_parents_that_start_elsewhere() {
    // The start city of `b` is left over and closes `b` too: it is used once.
    let a = vec![0, 1, 2, 3, 0];
    let b = vec![1, 2, 3, 0, 1];
    assert_eq!(crossover(&a, &b, 2, 2), vec![0, 1, 2, 3, 0]);
    assert_eq!(crossover(&a, &b, 1, 1), vec![0, 1, 2, 3, 0]);
    let c = vec![3, 2, 1, 0, 3];
    assert_eq!(crossover(&a, &c, 2, 2), vec![0, 3, 2, 1, 0]);
    assert_eq!(crossover(&c, &a, 1, 1), vec![3, 2, 0, 1, 3]);
}

#[test]
fn crossover_of_the_shortest_tours() {
    let a = vec![0, 1, 2, 0];
    let b = vec![2, 1, 0, 2];
    assert_eq!(crossover(&a, &b, 1, 1), vec![0, 1, 2, 0]);
    assert_eq!(crossover(&a, &b, 2, 2), vec![0, 1, 2, 0]);
    assert_eq!(crossover(&b, &a, 1, 1), vec![2, 1, 0, 2]);
}

#[test]
fn crossover_yields_a_closed_tour_for_every_window() {
    let parents = vec![
        vec![0, 1, 2, 3, 4, 5, 6, 0],
        vec![6, 5, 4, 3, 2, 1, 0, 6],
        vec![3, 0, 6, 2, 5, 1, 4, 3],
        vec![1, 3, 5, 0, 2, 4, 6, 1],
    ];
    let n = 8;
    for a in &parents {
        for b in &parents {
            for xstart in 1..=n - 2 {
                for xend in xstart..=n - 2 {
                    let child = crossover(a, b, xstart, xend);
                    assert!(is_closed_tour(&child, n - 1));
                    assert_eq!(child[0], a[0]);
                    for i in xstart..=xend {
                        assert_eq!(child[i], a[i]);
                    }
                }
            }
        }
    }
}

#[test]
fn mutation_exchanges_two_positions() {
    assert_eq!(mutate(vec![0, 1, 2, 3, 0], 1, 3), vec![0, 3, 2, 1, 0]);
    assert_eq!(mutate(vec![0, 1, 2, 3, 0], 3, 1), vec![0, 3, 2, 1, 0]);
    assert_eq!(mutate(vec![4, 1, 2, 3, 0, 4], 2, 4), vec![4, 1, 0, 3, 2, 4]);
}

#[test]
fn mutation_of_one_position_changes_nothing() {
    assert_eq!(mutate(vec![0, 1, 2, 3, 0], 2, 2), vec![0, 1, 2, 3, 0]);
    assert_eq!(mutate(vec![0, 1, 2, 3, 0], 1, 1), vec![0, 1, 2, 3, 0]);
}

#[test]
fn mutation_yields_a_closed_tour_for_every_pair() {
    let tour = vec![3, 0, 6, 2, 5, 1, 4, 3];
    for sa in 1..7 {
        for sb in 1..7 {
            let mutated = mutate(tour.clone(), sa, sb);
            assert!(is_closed_tour(&mutated, 7));
            assert_eq!(mutated[sa], tour[sb]);
            assert_eq!(mutated[sb], tour[sa]);
        }
    }
}

#[test]
fn a_city_moves_from_the_pool_to_the_tour() {
    let mut pool = vec![0, 1, 2, 3];
    let mut tour = vec![];
    move_city(&mut pool, 2, &mut tour);
    assert_eq!(pool, vec![0, 1, 3]);
    assert_eq!(tour, vec![2]);
    move_city(&mut pool, 0, &mut tour);
    assert_eq!(pool, vec![1, 3]);
    assert_eq!(tour, vec![2, 0]);
    move_city(&mut pool, 1, &mut tour);
    move_city(&mut pool, 0, &mut tour);
    assert!(pool.is_empty());
    assert_eq!(tour, vec![2, 0, 3, 1]);
}
