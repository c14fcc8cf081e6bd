use raytracer::bvh::{box_compare, box_x_compare, box_y_compare, box_z_compare, bvh_node, sort_by_axis, BvhItem, BvhTree};
use raytracer::hittable_list::HittableList;
use raytracer::perlin::{Perlin, POINT_COUNT};
use raytracer::random::{int_from_draw, random_int_range};
use raytracer::sections::{section_bounds, section_line_num, RENDER_THREADS, THREAD_NUMBER};
use raytracer::tool_func::copy_vec;

fn is_perm_of_range(p: &Vec<i32>, n: usize) -> bool {
    let mut seen = vec![false; n];
    if p.len() != n {
        return false;
    }
    for &v in p {
        if v < 0 || v as usize >= n || seen[v as usize] {
            return false;
        }
        seen[v as usize] = true;
    }
    true
}

#[test]
fn copy_vec_copies_every_entry() {
    let a = vec![3, 1, 4, 1, 5];
    assert_eq!(copy_vec(&a), vec![3, 1, 4, 1, 5]);
    let e: Vec<u8> = Vec::new();
    assert_eq!(copy_vec(&e), Vec::<u8>::new());
}

#[test]
fn random_int_range_stays_in_range() {
    for _ in 0..200 {
        let r = random_int_range(0, 2);
        assert!((0..=2).contains(&r));
        let r = random_int_range(-3, 4);
        assert!((-2..=4).contains(&r));
    }
    assert_eq!(random_int_range(7, 7), 7);
}

#[test]
fn random_int_range_with_reversed_bounds() {
    for _ in 0..200 {
        let r = random_int_range(5, 2);
        assert!((3..=4).contains(&r));
        let r = random_int_range(-1, -6);
        assert!((-4..=-1).contains(&r));
    }
    assert_eq!(random_int_range(4, 3), 4);
}

#[test]
fn random_int_range_below_zero_is_shifted_up() {
    let mut saw_zero = false;
    for _ in 0..400 {
        let r = random_int_range(-5, -1);
        assert!((-4..=0).contains(&r));
        if r == 0 {
            saw_zero = true;
        }
    }
    assert!(saw_zero);
}

#[test]
fn random_int_range_varies() {
    let first = random_int_range(0, 1_000_000);
    let mut differs = false;
    for _ in 0..50 {
        if random_int_range(0, 1_000_000) != first {
            differs = true;
        }
    }
    assert!(differs);
}

#[test]
fn permute_with_follows_the_targets() {
    let mut p = vec![0, 1, 2, 3];
    Perlin::permute_with(&mut p, 4, &vec![0, 0, 0, 0]);
    assert_eq!(p, vec![1, 2, 3, 0]);

    let mut q = vec![0, 1, 2, 3];
    Perlin::permute_with(&mut q, 4, &vec![3, 2, 1, 0]);
    assert_eq!(q, vec![0, 1, 2, 3]);

    let mut r = vec![10, 20, 30, 40, 50];
    Perlin::permute_with(&mut r, 3, &vec![1, 1, 0]);
    assert_eq!(r, vec![10, 30, 20, 40, 50]);
}

#[test]
fn permute_rearranges_only_the_prefix() {
    let mut p: Vec<i32> = (0..20).collect();
    Perlin::permute(&mut p, 10);
    let mut head = p[..10].to_vec();
    head.sort();
    assert_eq!(head, (0..10).collect::<Vec<i32>>());
    assert_eq!(p[10..].to_vec(), (10..20).collect::<Vec<i32>>());
}

#[test]
fn generated_perm_is_a_permutation() {
    for n in [0u32, 1, 2, 7, 256] {
        let p = Perlin::perlin_generate_perm(n);
        assert!(is_perm_of_range(&p, n as usize));
    }
}

#[test]
fn perlin_tables_are_permutations() {
    let t = Perlin::perlin();
    assert_eq!(t.point_count, POINT_COUNT);
    assert!(is_perm_of_range(&t.perm_x, 256));
    assert!(is_perm_of_range(&t.perm_y, 256));
    assert!(is_perm_of_range(&t.perm_z, 256));
    let c = t.copy();
    assert_eq!(c.point_count, t.point_count);
    assert_eq!(c.perm_x, t.perm_x);
    assert_eq!(c.perm_y, t.perm_y);
    assert_eq!(c.perm_z, t.perm_z);
}

fn identity_tables() -> Perlin {
    let id: Vec<i32> = (0..256).collect();
    Perlin { point_count: 256, perm_x: id.clone(), perm_y: id.clone(), perm_z: id }
}

#[test]
fn hash_reads_low_bits() {
    let t = identity_tables();
    assert_eq!(t.hash(1, 2, 4), 7);
    assert_eq!(t.hash(-1, 0, 0), 255);
    assert_eq!(t.hash(256, 0, 0), 0);
    assert_eq!(t.hash(3, 3, 0), 0);
    let mut s = identity_tables();
    s.perm_x.swap(0, 5);
    assert_eq!(s.hash(0, 0, 0), 5);
}

#[test]
fn hashes_stay_in_table() {
    let t = Perlin::perlin();
    for i in [-1000, -1, 0, 1, 255, 256, 123456] {
        assert!(t.hash(i, -i, i / 2) < 256);
    }
}

#[test]
fn corner_hashes_cover_the_cell() {
    let t = identity_tables();
    assert_eq!(t.corner_hashes(0, 0, 0), vec![0, 1, 1, 0, 1, 0, 0, 1]);
    assert_eq!(t.corner_hashes(255, 0, 0), vec![255, 254, 254, 255, 0, 1, 1, 0]);
    let r = Perlin::perlin();
    let c = r.corner_hashes(-7, 12, 300);
    assert_eq!(c.len(), 8);
    assert_eq!(c[5], r.hash(-6, 12, 301));
}

#[test]
fn section_heights() {
    assert_eq!(THREAD_NUMBER, 7);
    assert_eq!(section_line_num(400), 14);
    assert_eq!(section_line_num(27), 0);
    assert_eq!(section_line_num(1200), 42);
}

#[test]
fn section_bounds_for_400_rows() {
    let s = section_line_num(400);
    let expected = [
        (0, 42),
        (42, 84),
        (84, 140),
        (140, 182),
        (182, 224),
        (224, 252),
        (252, 294),
        (294, 336),
        (336, 400),
    ];
    for t in 0..RENDER_THREADS {
        assert_eq!(section_bounds(t, s, 400), expected[t]);
    }
}

#[test]
fn sections_tile_the_image() {
    for h in [0usize, 1, 27, 28, 100, 225, 400, 540, 1200] {
        let s = section_line_num(h);
        let mut next = 0;
        for t in 0..RENDER_THREADS {
            let (b, e) = section_bounds(t, s, h);
            assert_eq!(b, next);
            assert!(b <= e);
            next = e;
        }
        assert_eq!(next, h);
    }
}

#[test]
fn hittable_list_add_and_clear() {
    let mut world: HittableList<&str> = HittableList::hittablelist();
    assert!(world.objects().is_empty());
    world.add("sphere");
    world.add("rect");
    assert_eq!(world.objects(), &vec!["sphere", "rect"]);
    world.clear();
    assert!(world.objects().is_empty());
    world.add("box");
    assert_eq!(world.objects(), &vec!["box"]);
}

fn item(id: usize, x: u64, y: u64, z: u64) -> BvhItem {
    BvhItem { id, key: [x, y, z] }
}

#[test]
fn box_compare_reads_b_twice() {
    let a = item(0, 1, 1, 1);
    let b = item(1, 9, 9, 9);
    assert!(!box_compare(&a, &b, 0));
    assert!(!box_compare(&b, &a, 2));
    assert!(!box_x_compare(&a, &b));
    assert!(!box_y_compare(&a, &b));
    assert!(!box_z_compare(&a, &b));
}

#[test]
fn sort_by_axis_orders_keys() {
    let mut items = vec![item(0, 5, 1, 9), item(1, 2, 8, 0), item(2, 7, 3, 4), item(3, 2, 0, 0)];
    sort_by_axis(&mut items, 0);
    let xs: Vec<u64> = items.iter().map(|it| it.key[0]).collect();
    assert_eq!(xs, vec![2, 2, 5, 7]);
    let mut ids: Vec<usize> = items.iter().map(|it| it.id).collect();
    assert_eq!(ids[2], 0);
    assert_eq!(ids[3], 2);
    ids.sort();
    assert_eq!(ids, vec![0, 1, 2, 3]);
    sort_by_axis(&mut items, 1);
    let ys: Vec<u64> = items.iter().map(|it| it.key[1]).collect();
    assert_eq!(ys, vec![0, 1, 3, 8]);
}

fn leaf_ids(t: &BvhTree, out: &mut Vec<usize>) {
    match t {
        BvhTree::Leaf { left_id, right_id } => {
            out.push(*left_id);
            out.push(*right_id);
        }
        BvhTree::Node { left, right } => {
            leaf_ids(left, out);
            leaf_ids(right, out);
        }
    }
}

fn fits(t: &BvhTree, n: u32) -> bool {
    match t {
        BvhTree::Leaf { .. } => n == 1 || n == 2,
        BvhTree::Node { left, right } => n > 2 && fits(left, n / 2) && fits(right, n - n / 2),
    }
}

#[test]
fn bvh_node_single_and_pair() {
    let mut items = vec![item(4, 1, 1, 1), item(9, 0, 0, 0)];
    let t = bvh_node(&mut items, 0, 1);
    assert!(matches!(t, BvhTree::Leaf { left_id: 4, right_id: 4 }));
    let t = bvh_node(&mut items, 0, 2);
    assert!(matches!(t, BvhTree::Leaf { left_id: 9, right_id: 4 }));
    assert_eq!(items[0].id, 4);
    assert_eq!(items[1].id, 9);
}

#[test]
fn bvh_node_splits_larger_ranges() {
    let mut items: Vec<BvhItem> =
        (0..7).map(|i| item(i, (7 - i) as u64, (i * 3 % 7) as u64, (i * 5 % 7) as u64)).collect();
    let t = bvh_node(&mut items, 0, 7);
    assert!(matches!(t, BvhTree::Node { .. }));
    assert!(fits(&t, 7));
    let mut ids = Vec::new();
    leaf_ids(&t, &mut ids);
    assert!(ids.iter().all(|id| *id < 7));
    let mut now: Vec<usize> = items.iter().map(|it| it.id).collect();
    now.sort();
    assert_eq!(now, (0..7).collect::<Vec<usize>>());
}

#[test]
fn hash_of_tables_outside_the_range() {
    let mut t = identity_tables();
    t.perm_x[0] = 300;
    assert_eq!(t.hash(0, 0, 0), 300);
    assert_eq!(t.hash(256, 1, 0), 301);
}

#[test]
fn int_from_draw_truncates_toward_zero() {
    assert_eq!(int_from_draw(0, 2, 0), 0);
    assert_eq!(int_from_draw(0, 2, 2), 2);
    assert_eq!(int_from_draw(-5, -1, -5), -4);
    assert_eq!(int_from_draw(-5, -1, -1), 0);
    assert_eq!(int_from_draw(-3, 4, -1), 0);
    assert_eq!(int_from_draw(-3, 4, 0), 0);
    assert_eq!(int_from_draw(-3, 4, 4), 4);
    assert_eq!(int_from_draw(5, 2, 4), 3);
    assert_eq!(int_from_draw(5, 2, 5), 4);
    assert_eq!(int_from_draw(-1, -6, -4), -4);
    assert_eq!(int_from_draw(-1, -6, -1), -1);
    assert_eq!(int_from_draw(1, -6, 1), 0);
    assert_eq!(int_from_draw(4, 3, 99), 4);
}
