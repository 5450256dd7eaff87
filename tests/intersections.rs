use ray_tracer::intersection::{is_nan, is_nonnegative, less_than, order_key, Intersection, Intersections};

fn at(t: f64, object: usize) -> Intersection {
    Intersection::new(t.to_bits(), object)
}

fn t_of(i: &Intersection) -> f64 {
    f64::from_bits(i.t())
}

#[test]
fn an_intersection_encapsulates_t_and_object() {
    let s: usize = 0;
    let i = at(3.5, s);
    assert_eq!(t_of(&i), 3.5);
    assert_eq!(i.object(), s);
}

#[test]
fn aggregating_intersections() {
    let s: usize = 0;
    let i1 = at(1.0, s);
    let i2 = at(2.0, s);
    let xs = Intersections::from(vec![i1, i2]);
    assert_eq!(xs.len(), 2);
    assert_eq!(t_of(xs.get(0)), 1.0);
    assert_eq!(t_of(xs.get(1)), 2.0);
}

#[test]
fn the_hit_when_all_intersections_have_positive_t() {
    let s: usize = 0;
    let i1 = at(1.0, s);
    let i2 = at(2.0, s);
    let xs = Intersections::from(vec![i1, i2]);
    let i = xs.hit().unwrap();
    assert_eq!(*i, i1);
}

#[test]
fn the_hit_when_some_intersections_have_negative_t() {
    let s: usize = 0;
    let i1 = at(-1.0, s);
    let i2 = at(1.0, s);
    let xs = Intersections::from(vec![i2, i1]);
    let i = xs.hit().unwrap();
    assert_eq!(*i, i2);
}

#[test]
fn the_hit_when_all_intersections_have_negative_t() {
    let s: usize = 0;
    let i1 = at(-2.0, s);
    let i2 = at(-1.0, s);
    let xs = Intersections::from(vec![i2, i1]);
    let i = xs.hit();
    assert_eq!(i, None);
}

#[test]
fn the_hit_is_always_the_lowest_nonnegative_intersection() {
    let s: usize = 0;
    let i1 = at(5.0, s);
    let i2 = at(7.0, s);
    let i3 = at(-3.0, s);
    let i4 = at(2.0, s);
    let mut xs = Intersections::from(vec![i1, i2, i3, i4]);
    xs = xs.sort();
    let i = xs.hit().unwrap();
    assert_eq!(*i, i4);
}

#[test]
fn hit_of_a_ray_from_inside_a_sphere_skips_the_negative_root() {
    let xs = Intersections::from(vec![at(-1.0, 0), at(1.0, 0)]).sort();
    assert_eq!(t_of(xs.get(0)), -1.0);
    assert_eq!(t_of(xs.get(1)), 1.0);
    assert_eq!(t_of(xs.hit().unwrap()), 1.0);
}

#[test]
fn a_hit_at_zero_counts_even_with_negative_sign() {
    let xs = Intersections::from(vec![at(-1.0, 0), at(-0.0, 1), at(3.0, 2)]);
    assert_eq!(xs.hit().unwrap().object(), 1);
}

#[test]
fn a_nan_parameter_is_never_the_hit() {
    let xs = Intersections::from(vec![at(f64::NAN, 0), at(4.0, 1)]);
    assert_eq!(xs.hit().unwrap().object(), 1);
    let only = Intersections::from(vec![at(f64::NAN, 0)]);
    assert!(only.hit().is_none());
}

#[test]
fn an_empty_list_has_no_hit() {
    let xs = Intersections::new();
    assert!(xs.is_empty());
    assert_eq!(xs.len(), 0);
    assert!(xs.hit().is_none());
    assert!(!xs.hit_before(10.0f64.to_bits()));
}

#[test]
fn sorting_orders_by_t_and_keeps_every_entry() {
    let ts = [6.0, -0.5, 4.0, 4.0, -7.25, 0.0, 1e300, -1e-300, f64::INFINITY, f64::NEG_INFINITY];
    let v: Vec<Intersection> = ts.iter().enumerate().map(|(k, t)| at(*t, k)).collect();
    let xs = Intersections::from(v).sort();
    assert_eq!(xs.len(), ts.len());
    let got: Vec<f64> = (0..xs.len()).map(|k| t_of(xs.get(k))).collect();
    let mut expected = ts.to_vec();
    expected.sort_by(|a, b| a.partial_cmp(b).unwrap());
    assert_eq!(got, expected);
    let mut objects: Vec<usize> = (0..xs.len()).map(|k| xs.get(k).object()).collect();
    objects.sort();
    assert_eq!(objects, (0..ts.len()).collect::<Vec<usize>>());
}

#[test]
fn sorting_an_empty_or_single_list() {
    assert_eq!(Intersections::new().sort().len(), 0);
    let one = Intersections::from(vec![at(2.5, 3)]).sort();
    assert_eq!(*one.get(0), at(2.5, 3));
}

#[test]
fn appending_keeps_both_lists_in_order() {
    let mut xs = Intersections::from(vec![at(4.0, 0), at(6.0, 0)]);
    xs.append(Intersections::from(vec![at(4.5, 1), at(5.5, 1)]));
    assert_eq!(xs.len(), 4);
    let got: Vec<f64> = (0..4).map(|k| t_of(xs.get(k))).collect();
    assert_eq!(got, vec![4.0, 6.0, 4.5, 5.5]);
    let sorted = xs.sort();
    let got: Vec<f64> = (0..4).map(|k| t_of(sorted.get(k))).collect();
    assert_eq!(got, vec![4.0, 4.5, 5.5, 6.0]);
}

#[test]
fn equality_compares_values_and_shapes() {
    assert_eq!(at(0.0, 1), at(-0.0, 1));
    assert_ne!(at(1.0, 1), at(1.0, 2));
    assert_ne!(at(1.0, 1), at(2.0, 1));
    assert_ne!(at(f64::NAN, 1), at(f64::NAN, 1));
}

#[test]
fn an_occluder_before_the_light_casts_a_shadow() {
    let xs = Intersections::from(vec![at(-2.0, 0), at(3.0, 0), at(5.0, 0)]);
    assert!(xs.hit_before(10.0f64.to_bits()));
    assert!(!xs.hit_before(3.0f64.to_bits()));
    assert!(!xs.hit_before(2.0f64.to_bits()));
    assert!(!xs.hit_before(f64::NAN.to_bits()));
}

#[test]
fn an_occluder_behind_the_point_casts_none() {
    let xs = Intersections::from(vec![at(-6.0, 0), at(-4.0, 0)]);
    assert!(!xs.hit_before(10.0f64.to_bits()));
}

#[test]
fn order_key_follows_numeric_order() {
    let values = [
        f64::NEG_INFINITY,
        -1e300,
        -2.5,
        -1.0,
        -f64::MIN_POSITIVE,
        -5e-324,
        -0.0,
        0.0,
        5e-324,
        f64::MIN_POSITIVE,
        0.1,
        1.0,
        2.5,
        1e300,
        f64::MAX,
        f64::INFINITY,
    ];
    for a in values.iter() {
        for b in values.iter() {
            assert_eq!(order_key(a.to_bits()) < order_key(b.to_bits()), a < b);
            assert_eq!(order_key(a.to_bits()) == order_key(b.to_bits()), a == b);
            assert_eq!(less_than(a.to_bits(), b.to_bits()), a < b);
        }
        assert_eq!(is_nonnegative(a.to_bits()), *a >= 0.0);
        assert!(!is_nan(a.to_bits()));
    }
    assert_eq!(order_key(0.0f64.to_bits()), 0);
    assert_eq!(order_key((-0.0f64).to_bits()), 0);
    assert_eq!(order_key(1.0f64.to_bits()), 0x3ff0_0000_0000_0000);
    assert_eq!(order_key((-1.0f64).to_bits()), -0x3ff0_0000_0000_0000);
}

#[test]
fn nan_compares_false_both_ways() {
    let nan = f64::NAN.to_bits();
    let neg_nan = (-f64::NAN).to_bits();
    assert!(is_nan(nan));
    assert!(is_nan(neg_nan));
    assert!(!is_nonnegative(nan));
    assert!(!less_than(nan, 1.0f64.to_bits()));
    assert!(!less_than(1.0f64.to_bits(), nan));
    assert!(!less_than(neg_nan, 1.0f64.to_bits()));
}
