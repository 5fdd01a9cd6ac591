use vortex_engine::cache::FrameCache;
use vortex_engine::frame::RenderedFrame;

fn small_frame(timestamp_ms: i64) -> RenderedFrame {
    RenderedFrame {
        width: 960,
        height: 540,
        data: vec![0u8; 100],
        is_yuv: false,
        timestamp_ms,
    }
}

#[test]
fn test_frame_cache_lru() {
    let mut cache = FrameCache::new(3, 100 * 1024 * 1024);

    for i in 0..3i64 {
        cache.put("test.mp4".to_string(), i * 33, small_frame(i * 33));
    }
    assert_eq!(cache.entries.len(), 3);

    cache.put("test.mp4".to_string(), 99, small_frame(99));
    assert_eq!(cache.entries.len(), 3);
    assert!(cache.get(&"test.mp4".to_string(), 0).is_none());
    assert!(cache.get(&"test.mp4".to_string(), 33).is_some());
    assert!(cache.get(&"test.mp4".to_string(), 66).is_some());
    assert!(cache.get(&"test.mp4".to_string(), 99).is_some());
}

#[test]
fn test_frame_cache_hit_miss() {
    let mut cache = FrameCache::new(10, 100 * 1024 * 1024);

    cache.put("test.mp4".to_string(), 0, small_frame(0));

    assert!(cache.get(&"test.mp4".to_string(), 0).is_some());
    assert_eq!(cache.hit_count, 1);
    assert_eq!(cache.miss_count, 0);

    assert!(cache.get(&"test.mp4".to_string(), 100).is_none());
    assert_eq!(cache.hit_count, 1);
    assert_eq!(cache.miss_count, 1);
}

#[test]
fn test_put_get_same_bytes() {
    let mut cache = FrameCache::new(4, 1 << 20);
    let mut frame = small_frame(10);
    frame.data = vec![1, 2, 3, 4];
    cache.put("a.mp4".to_string(), 10, frame);

    let got = cache.get(&"a.mp4".to_string(), 10).expect("stored frame");
    assert_eq!(got.data, vec![1, 2, 3, 4]);

    cache.clear();
    assert!(cache.get(&"a.mp4".to_string(), 10).is_none());
    assert_eq!(cache.stats(), (0, 0));
}

#[test]
fn test_byte_budget_eviction() {
    // Three 40-byte frames under a 100-byte budget: the first key leaves.
    let mut cache = FrameCache::new(10, 100);
    for i in 0..2i64 {
        let mut f = small_frame(i);
        f.data = vec![0u8; 40];
        cache.put("b.mp4".to_string(), i, f);
    }
    assert_eq!(cache.stats(), (2, 80));

    let mut f = small_frame(2);
    f.data = vec![0u8; 40];
    cache.put("b.mp4".to_string(), 2, f);
    assert_eq!(cache.stats(), (2, 80));
    assert!(cache.get(&"b.mp4".to_string(), 0).is_none());
    assert!(cache.get(&"b.mp4".to_string(), 1).is_some());
    assert!(cache.get(&"b.mp4".to_string(), 2).is_some());
}

#[test]
fn test_replace_same_key() {
    let mut cache = FrameCache::new(3, 1 << 20);
    let mut f1 = small_frame(0);
    f1.data = vec![9; 8];
    cache.put("c.mp4".to_string(), 0, f1);
    let mut f2 = small_frame(0);
    f2.data = vec![7; 6];
    cache.put("c.mp4".to_string(), 0, f2);

    assert_eq!(cache.stats(), (1, 6));
    assert_eq!(cache.get(&"c.mp4".to_string(), 0).unwrap().data, vec![7; 6]);
}

#[test]
fn test_lru_promotion_on_get() {
    let mut cache = FrameCache::new(2, 1 << 20);
    cache.put("d.mp4".to_string(), 0, small_frame(0));
    cache.put("d.mp4".to_string(), 1, small_frame(1));
    // Touch key 0 so that key 1 becomes least recently used.
    assert!(cache.get(&"d.mp4".to_string(), 0).is_some());
    cache.put("d.mp4".to_string(), 2, small_frame(2));

    assert!(cache.get(&"d.mp4".to_string(), 0).is_some());
    assert!(cache.get(&"d.mp4".to_string(), 1).is_none());
    assert!(cache.get(&"d.mp4".to_string(), 2).is_some());
}
