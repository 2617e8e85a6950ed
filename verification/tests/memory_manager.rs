use rusty_mikanos::error::Code;
use rusty_mikanos::memory_manager::{BitmapMemoryManager, FrameID, MemoryStat};

#[test]
fn allocate_first_fit_and_free() {
    let mut m = BitmapMemoryManager::new();
    m.set_memory_range(FrameID::new(1), FrameID::new(100));
    let a = m.allocate(3).unwrap();
    assert_eq!(a.id(), 1);
    let b = m.allocate(2).unwrap();
    assert_eq!(b.id(), 4);
    m.free(a, 3).unwrap();
    // the freed run is the first that fits again
    let c = m.allocate(2).unwrap();
    assert_eq!(c.id(), 1);
    // a run of 2 no longer fits in the hole of 1 frame left at 3
    let d = m.allocate(2).unwrap();
    assert_eq!(d.id(), 6);
}

#[test]
fn allocate_skips_marked_frames() {
    let mut m = BitmapMemoryManager::new();
    m.set_memory_range(FrameID::new(0), FrameID::new(64));
    m.mark_allocated(FrameID::new(0), 10);
    m.mark_allocated(FrameID::new(12), 1);
    assert_eq!(m.allocate(2).unwrap().id(), 10);
    assert_eq!(m.allocate(5).unwrap().id(), 13);
}

#[test]
fn allocate_reports_no_enough_memory() {
    let mut m = BitmapMemoryManager::new();
    m.set_memory_range(FrameID::new(0), FrameID::new(8));
    m.mark_allocated(FrameID::new(4), 1);
    assert_eq!(m.allocate(4).unwrap().id(), 0);
    let e = m.allocate(4).unwrap_err();
    assert_eq!(e.code, Code::NoEnoughMemory);
    // zero frames are granted at the start of the range
    assert_eq!(m.allocate(0).unwrap().id(), 0);
}

#[test]
fn stat_counts_allocated_frames() {
    let mut m = BitmapMemoryManager::new();
    m.set_memory_range(FrameID::new(0), FrameID::new(256));
    m.mark_allocated(FrameID::new(3), 70);
    let s = m.stat();
    assert_eq!(s.allocated_frames, 70);
    assert_eq!(s.total_frames, 256);
    m.free(FrameID::new(3), 70).unwrap();
    assert_eq!(m.stat().allocated_frames, 0);
}

#[test]
fn memory_stat_in_mib() {
    let s = MemoryStat::new(512, 1024);
    assert_eq!(s.calc_allocated_size_in_mb(), 2);
    assert_eq!(s.calc_total_size_in_mb(), 4);
}

#[test]
fn free_page_map_gives_the_table_frame_back() {
    let mut m = BitmapMemoryManager::new();
    m.set_memory_range(FrameID::new(1), FrameID::new(10));
    let a = m.allocate(2).unwrap();
    assert_eq!(a.id(), 1);
    // The table at 0x2000 lives in frame 2.
    rusty_mikanos::paging::free_page_map(&mut m, 0x2000).unwrap();
    assert_eq!(m.allocate(1).unwrap().id(), 2);
    assert_eq!(m.allocate(1).unwrap().id(), 3);
}
