use qwasm2::zone::{MemTag, Zone};

#[test]
fn alloc_and_read() {
    let mut zone = Zone::new(0);
    let buf = zone.alloc_bytes(MemTag::Temp, 4);
    buf[0] = 0xDE;
    buf[1] = 0xAD;
    buf[2] = 0xBE;
    buf[3] = 0xEF;
    assert_eq!(buf, &[0xDE, 0xAD, 0xBE, 0xEF]);
}

#[test]
fn alloc_is_zeroed() {
    let mut zone = Zone::new(0);
    let buf = zone.alloc_bytes(MemTag::Level, 8);
    assert_eq!(buf, &[0u8; 8]);
}

#[test]
fn free_tag_releases_memory() {
    let mut zone = Zone::new(0);
    zone.alloc_bytes(MemTag::Temp, 64);
    assert_eq!(zone.total_allocated(), 64);
    zone.free_tag(MemTag::Temp);
    assert_eq!(zone.total_allocated(), 0);
    assert_eq!(zone.tag_allocated(MemTag::Temp), 0);
}

#[test]
fn free_tag_doesnt_affect_others() {
    let mut zone = Zone::new(0);
    zone.alloc_bytes(MemTag::Temp, 32);
    zone.alloc_bytes(MemTag::Level, 48);
    zone.free_tag(MemTag::Temp);
    assert_eq!(zone.tag_allocated(MemTag::Temp), 0);
    assert_eq!(zone.tag_allocated(MemTag::Level), 48);
    assert_eq!(zone.total_allocated(), 48);
}

#[test]
fn total_tracking() {
    let mut zone = Zone::new(0);
    zone.alloc_bytes(MemTag::Game, 100);
    zone.alloc_bytes(MemTag::Game, 200);
    zone.alloc_bytes(MemTag::Persistent, 50);
    assert_eq!(zone.tag_allocated(MemTag::Game), 300);
    assert_eq!(zone.tag_allocated(MemTag::Persistent), 50);
    assert_eq!(zone.total_allocated(), 350);
}

#[test]
fn max_bytes_allows_exact_limit() {
    let mut zone = Zone::new(128);
    zone.alloc_bytes(MemTag::Temp, 64);
    zone.alloc_bytes(MemTag::Temp, 64);
    assert_eq!(zone.total_allocated(), 128);
}

#[test]
fn free_empty_tag_is_noop() {
    let mut zone = Zone::new(0);
    zone.free_tag(MemTag::Level);
    assert_eq!(zone.total_allocated(), 0);
}

#[test]
fn multiple_allocs_same_tag() {
    let mut zone = Zone::new(0);
    for _ in 0..10 {
        zone.alloc_bytes(MemTag::Level, 16);
    }
    assert_eq!(zone.tag_allocated(MemTag::Level), 160);
    assert_eq!(zone.total_allocated(), 160);
}

#[test]
fn realloc_after_free() {
    let mut zone = Zone::new(0);
    zone.alloc_bytes(MemTag::Temp, 32);
    zone.free_tag(MemTag::Temp);
    zone.alloc_bytes(MemTag::Temp, 16);
    assert_eq!(zone.tag_allocated(MemTag::Temp), 16);
    assert_eq!(zone.total_allocated(), 16);
}
