use fuzzy_logic::util::{diff, intersect, Flatten};

#[test]
fn intersection() {
    let xs = [1, 2, 3, 4, 5];
    let ys = [2, 1, 9, 3, 7];
    let zs = intersect(&xs, &ys);

    assert_eq!(vec![1, 2, 3], zs);
}

#[test]
fn difference() {
    let xs = [1, 2, 3, 4, 5];
    let ys = [2, 1, 9, 3, 7];
    let zs = diff(&xs, &ys);

    assert_eq!(vec![4, 5], zs);
}

#[test]
fn intersection_keeps_duplicates_of_the_left_input() {
    let xs = [1, 1, 2, 2, 3];
    let ys = [2, 3];
    assert_eq!(vec![2, 2, 3], intersect(&xs, &ys));
    assert_eq!(vec![1, 1], diff(&xs, &ys));
}

#[test]
fn empty_inputs_give_empty_or_whole_results() {
    let xs: [i32; 0] = [];
    let ys = [1, 2];
    assert_eq!(Vec::<i32>::new(), intersect(&xs, &ys));
    assert_eq!(Vec::<i32>::new(), diff(&xs, &ys));
    assert_eq!(Vec::<i32>::new(), intersect(&ys, &xs));
    assert_eq!(vec![1, 2], diff(&ys, &xs));
}

#[test]
fn flatten_collapses_one_level() {
    assert_eq!(Some(3), Flatten::flatten(Some(Some(3))));
    assert_eq!(None::<i32>, Flatten::flatten(Some(None::<i32>)));
    assert_eq!(None::<i32>, Flatten::flatten(None::<Option<i32>>));
}
