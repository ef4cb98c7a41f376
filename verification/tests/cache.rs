use image::DynamicImage;
use pdft::render::cache::ImageCache;

fn img() -> DynamicImage {
    DynamicImage::new_rgba8(2, 2)
}

#[test]
fn stored_image_is_found_again() {
    let mut c = ImageCache::new(4);
    assert!(c.get(0, 1, 100, 200).is_none());
    c.put(0, 1, 100, 200, img());
    assert!(c.get(0, 1, 100, 200).is_some());
}

#[test]
fn resolution_is_part_of_the_key() {
    let mut c = ImageCache::new(4);
    c.put(0, 1, 100, 200, img());
    assert!(c.get(0, 1, 100, 201).is_none());
    assert!(c.get(1, 1, 100, 200).is_none());
}

#[test]
fn full_cache_drops_least_recently_used() {
    let mut c = ImageCache::new(2);
    c.put(0, 0, 1, 1, img());
    c.put(0, 1, 1, 1, img());
    assert!(c.get(0, 0, 1, 1).is_some());
    c.put(0, 2, 1, 1, img());
    assert!(c.get(0, 1, 1, 1).is_none());
    assert!(c.get(0, 0, 1, 1).is_some());
    assert!(c.get(0, 2, 1, 1).is_some());
}

#[test]
fn clear_empties_the_cache() {
    let mut c = ImageCache::new(2);
    c.put(0, 0, 1, 1, img());
    c.clear();
    assert!(c.get(0, 0, 1, 1).is_none());
    c.put(0, 0, 1, 1, img());
    assert!(c.get(0, 0, 1, 1).is_some());
}
