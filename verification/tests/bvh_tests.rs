use silver::bvh::split_on_axis;
use silver::bvh::BoxKey;
use silver::bvh::Bvh;

fn key(id: usize, x: u64, y: u64, z: u64) -> BoxKey {
    BoxKey { id, min_x: x, min_y: y, min_z: z }
}

fn leaf_count(t: &Bvh) -> usize {
    match t {
        Bvh::Leaf(_) => 1,
        Bvh::Pair { left, right, .. } => leaf_count(left) + leaf_count(right),
    }
}

fn depth(t: &Bvh) -> usize {
    match t {
        Bvh::Leaf(_) => 0,
        Bvh::Pair { left, right, .. } => 1 + depth(left).max(depth(right)),
    }
}

#[test]
fn single_object_builds_a_leaf() {
    let t = Bvh::build(vec![key(9, 1, 2, 3)], 0);
    match t {
        Bvh::Leaf(k) => assert_eq!(k.id, 9),
        Bvh::Pair { .. } => panic!("one object must build a leaf"),
    }
}

#[test]
fn build_keeps_every_object_once() {
    let items = vec![
        key(0, 50, 1, 1),
        key(1, 10, 2, 2),
        key(2, 40, 3, 3),
        key(3, 20, 4, 4),
        key(4, 30, 5, 5),
    ];
    let t = Bvh::build(items, 0);
    assert_eq!(leaf_count(&t), 5);
    let mut ids = t.leaf_ids();
    ids.sort();
    assert_eq!(ids, vec![0, 1, 2, 3, 4]);
}

#[test]
fn root_split_separates_the_axis_keys() {
    // Distinct x keys: the root (axis x) must put ids of the two
    // smallest x values on the left and the three larger on the right.
    let items = vec![
        key(0, 50, 1, 1),
        key(1, 10, 2, 2),
        key(2, 40, 3, 3),
        key(3, 20, 4, 4),
        key(4, 30, 5, 5),
    ];
    let t = Bvh::build(items, 0);
    match &t {
        Bvh::Pair { left, right, .. } => {
            let mut l = left.leaf_ids();
            let mut r = right.leaf_ids();
            l.sort();
            r.sort();
            assert_eq!(l, vec![1, 3]);
            assert_eq!(r, vec![0, 2, 4]);
        }
        Bvh::Leaf(_) => panic!("five objects cannot build a leaf"),
    }
}

#[test]
fn build_is_balanced_to_the_logarithm() {
    let items: Vec<BoxKey> = (0..8).map(|i| key(i as usize, i * 7 % 13, i, i)).collect();
    let t = Bvh::build(items, 0);
    assert_eq!(leaf_count(&t), 8);
    assert_eq!(depth(&t), 3);

    let items: Vec<BoxKey> = (0..9).map(|i| key(i as usize, i * 7 % 13, i, i)).collect();
    let t = Bvh::build(items, 0);
    assert_eq!(leaf_count(&t), 9);
    assert_eq!(depth(&t), 4);
}

#[test]
fn split_sorts_by_the_chosen_axis() {
    let items = vec![key(0, 9, 0, 5), key(1, 3, 2, 6), key(2, 7, 1, 4)];
    let (l, r) = split_on_axis(items, 1);
    // Sorted y keys are 0, 1, 2; the median split leaves one on the left.
    assert_eq!(l.len(), 1);
    assert_eq!(r.len(), 2);
    assert_eq!(l[0].id, 0);
    assert_eq!(r[0].id, 2);
    assert_eq!(r[1].id, 1);
}

#[test]
fn split_handles_equal_keys() {
    let items = vec![key(0, 5, 0, 0), key(1, 5, 0, 0), key(2, 5, 0, 0), key(3, 5, 0, 0)];
    let (l, r) = split_on_axis(items, 0);
    assert_eq!(l.len(), 2);
    assert_eq!(r.len(), 2);
    let mut ids: Vec<usize> = l.iter().chain(r.iter()).map(|k| k.id).collect();
    ids.sort();
    assert_eq!(ids, vec![0, 1, 2, 3]);
}
