use ray_tracer::trace::{classify_pixel, nearest_index, pixel_order, Shading};

fn key(d: f64) -> u64 {
    d.to_bits()
}

#[test]
fn nearest_is_smallest_distance() {
    let keys = vec![key(2.0), key(1.5), key(f64::INFINITY), key(3.25)];
    assert_eq!(nearest_index(&keys, key(f64::INFINITY)), Some(1));
}

#[test]
fn nearest_ties_keep_first() {
    let keys = vec![key(4.0), key(1.4), key(1.4), key(9.0)];
    assert_eq!(nearest_index(&keys, key(f64::INFINITY)), Some(1));
}

#[test]
fn all_misses_give_no_hit() {
    let inf = key(f64::INFINITY);
    assert_eq!(nearest_index(&vec![inf, inf, inf], inf), None);
}

#[test]
fn empty_scene_gives_no_hit() {
    assert_eq!(nearest_index(&vec![], key(f64::INFINITY)), None);
}

#[test]
fn sphere_straight_ahead_distance_key() {
    // Origin (0,0,-1), sphere at (0,0,2) with radius 0.6: the hit is 3 - 0.6 away.
    let keys = vec![key(3.0 - 0.6)];
    assert_eq!(nearest_index(&keys, key(f64::INFINITY)), Some(0));
}

#[test]
fn integer_keys_order() {
    assert_eq!(nearest_index(&vec![5, 3, 7, 3], 10), Some(1));
    assert_eq!(nearest_index(&vec![10, 11], 10), None);
    assert_eq!(nearest_index(&vec![10, 9], 10), Some(1));
}

#[test]
fn pixel_order_is_row_major() {
    let order = pixel_order(3, 2);
    assert_eq!(order, vec![(0, 0), (0, 1), (0, 2), (1, 0), (1, 1), (1, 2)]);
}

#[test]
fn pixel_order_full_size() {
    let order = pixel_order(900, 600);
    assert_eq!(order.len(), 540000);
    assert_eq!(order[300 * 900 + 450], (300, 450));
    assert_eq!(order[539999], (599, 899));
}

#[test]
fn pixel_order_empty() {
    assert!(pixel_order(0, 5).is_empty());
    assert!(pixel_order(5, 0).is_empty());
}

#[test]
fn no_primary_hit_is_background() {
    assert_eq!(classify_pixel(None, None), Shading::Background);
    assert_eq!(classify_pixel(None, Some(2)), Shading::Background);
}

#[test]
fn blocked_light_is_shadow() {
    assert_eq!(classify_pixel(Some(1), Some(0)), Shading::Shadow(1));
}

#[test]
fn visible_light_is_lit() {
    assert_eq!(classify_pixel(Some(3), None), Shading::Lit(3));
}
