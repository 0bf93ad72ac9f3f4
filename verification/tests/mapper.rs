use atom_kernel::mapper::{map_segment, MapAction};
use atom_kernel::memory::FrameAllocator;
use atom_kernel::paging::{walk_index, walk_step, WalkStep};
use std::collections::HashMap;

/// Physical memory holding page tables, one 512-entry table per frame.
struct Tables(HashMap<u64, Vec<u64>>);

impl Tables {
    fn read(&self, t: u64, i: usize) -> u64 {
        self.0.get(&t).map(|v| v[i]).unwrap_or(0)
    }
    fn write(&mut self, t: u64, i: usize, v: u64) {
        self.0.entry(t).or_insert_with(|| vec![0; 512])[i] = v;
    }
    fn zero(&mut self, f: u64) {
        self.0.insert(f, vec![0; 512]);
    }
    fn walk(&self, root: u64, v: u64) -> (u64, u8) {
        let mut table = root;
        for level in 0..4u8 {
            let raw = self.read(table, walk_index(level, v));
            match walk_step(level, raw) {
                WalkStep::Descend(t) => table = t,
                WalkStep::Done(r, c) => return (r, c),
            }
        }
        unreachable!()
    }
}

/// Runs a mapping to the end; returns the actions taken.
fn run(tables: &mut Tables, fa: &mut FrameAllocator, root: u64, v: u64, p: u64, size: usize) -> Vec<MapAction> {
    let mut m = map_segment(root, v, p, size);
    let mut entry = 0u64;
    let mut log = Vec::new();
    loop {
        let a = m.next(fa, entry);
        log.push(a);
        match a {
            MapAction::Read { table, index } => entry = tables.read(table, index),
            MapAction::Zero { frame } => tables.zero(frame),
            MapAction::Write { table, index, value } => tables.write(table, index, value),
            MapAction::OutOfFrames | MapAction::Done => return log,
        }
    }
}

#[test]
fn map_segment_maps_every_page_in_order() {
    let mut tables = Tables(HashMap::new());
    tables.zero(0x1000);
    let mut fa = FrameAllocator::new();
    fa.init(0x100000, 16);
    let log = run(&mut tables, &mut fa, 0x1000, 0x8010_0123, 0x20_0456, 0x2000);
    assert_eq!(*log.last().unwrap(), MapAction::Done);
    // Three tables were made for the first page, none after.
    assert_eq!(log.iter().filter(|a| matches!(a, MapAction::Zero { .. })).count(), 3);
    // The range widens to whole pages: three pages from 0x80100000.
    for k in 0..3u64 {
        assert_eq!(tables.walk(0x1000, 0x8010_0000 + k * 0x1000), (0x20_0007 + k * 0x1000, 0));
    }
    assert_eq!(tables.walk(0x1000, 0x8010_3000), (0, 0));
    let leaves: Vec<u64> = log
        .iter()
        .filter_map(|a| match a {
            MapAction::Write { value, .. } if value & 0xFFF == 7 && *value >= 0x200000 => Some(*value),
            _ => None,
        })
        .collect();
    assert_eq!(leaves, vec![0x20_0007, 0x20_1007, 0x20_2007]);
}

#[test]
fn map_segment_reuses_present_tables() {
    let mut tables = Tables(HashMap::new());
    tables.zero(0x1000);
    let mut fa = FrameAllocator::new();
    fa.init(0x100000, 16);
    run(&mut tables, &mut fa, 0x1000, 0x40_0000, 0x9000, 0x1000);
    let log = run(&mut tables, &mut fa, 0x1000, 0x40_1000, 0xA000, 0x1000);
    assert!(!log.iter().any(|a| matches!(a, MapAction::Zero { .. })));
    assert_eq!(tables.walk(0x1000, 0x40_0000), (0x9007, 0));
    assert_eq!(tables.walk(0x1000, 0x40_1000), (0xA007, 0));
}

#[test]
fn map_segment_empty_range_is_done() {
    let mut tables = Tables(HashMap::new());
    let mut fa = FrameAllocator::new();
    let log = run(&mut tables, &mut fa, 0x1000, 0x5000, 0x9000, 0);
    assert_eq!(log, vec![MapAction::Done]);
}

#[test]
fn map_segment_out_of_frames() {
    let mut tables = Tables(HashMap::new());
    tables.zero(0x1000);
    let mut fa = FrameAllocator::new();
    fa.init(0x100000, 2);
    let log = run(&mut tables, &mut fa, 0x1000, 0x40_0000, 0x9000, 0x1000);
    assert_eq!(*log.last().unwrap(), MapAction::OutOfFrames);
    assert_eq!(log.iter().filter(|a| matches!(a, MapAction::Zero { .. })).count(), 2);
}
