use mpegts_pacer::pcr::{write_pcr, PCR_WRAP_TICKS, TS_PACKET_SIZE};
use mpegts_pacer::stream_grid::StreamGrid;
use mpegts_pacer::Packet;

const MUX_RATE: u64 = 12_000_000;
const TICKS: u64 = 3_384;

fn packet(marker: u8, slot: Option<u64>) -> Packet {
    let mut p = [0x00_u8; TS_PACKET_SIZE];
    p[0] = 0x47;
    p[2] = 0x55;
    p[20] = marker;
    match slot {
        Some(slot) => {
            p[3] = 0x30;
            p[4] = 7;
            p[5] = 0x10;
            write_pcr(&mut p[6..12], slot * TICKS % PCR_WRAP_TICKS);
        }
        None => p[3] = 0x10,
    }
    Packet::from_slice(&p).unwrap()
}

/// What is placed, as `(slot, marker)`.
fn drain(grid: &mut StreamGrid) -> Vec<(u64, u8)> {
    let mut out = Vec::new();
    while let Some(slot) = grid.first_slot() {
        let (packet, late) = grid.take(slot);
        assert_eq!(late, 0);
        out.push((slot, packet.unwrap().as_bytes()[20]));
    }
    out
}

#[test]
fn a_run_is_spread_evenly_between_its_pcrs() {
    let mut grid = StreamGrid::new(MUX_RATE, 100);
    assert_eq!(grid.push(packet(9, None), 0), 1, "no grid before the first PCR");
    assert_eq!(grid.push(packet(1, Some(40)), 0), 0);
    for marker in 2..=4 {
        grid.push(packet(marker, None), 0);
    }
    assert!(!grid.has_content(), "an open run is not placed yet");
    assert_eq!(grid.held(), 4);
    grid.push(packet(5, Some(80)), 0);
    assert_eq!(drain(&mut grid), vec![(40, 1), (50, 2), (60, 3), (70, 4)]);
    assert_eq!(grid.overruns(), 0);
    assert_eq!(grid.displacement_high_water(), 0);
}

#[test]
fn an_overfull_run_spills_and_is_measured() {
    let mut grid = StreamGrid::new(MUX_RATE, 100);
    grid.push(packet(1, Some(10)), 0);
    for marker in 2..=5 {
        grid.push(packet(marker, None), 0);
    }
    // Five packets where there are two slots.
    grid.push(packet(6, Some(12)), 0);
    assert_eq!(grid.overruns(), 1);
    assert_eq!(grid.displacement_high_water(), 3);
    // The next run starts from the first free slot.
    grid.push(packet(7, Some(20)), 0);
    assert_eq!(
        drain(&mut grid),
        vec![(10, 1), (11, 2), (12, 3), (13, 4), (14, 5), (15, 6)]
    );
}

#[test]
fn late_packets_are_dropped_and_never_replaced() {
    let mut grid = StreamGrid::new(MUX_RATE, 100);
    grid.push(packet(1, Some(10)), 0);
    grid.push(packet(2, Some(20)), 0);
    grid.push(packet(3, Some(30)), 0);
    let (none, late) = grid.take(15);
    assert!(none.is_none());
    assert_eq!(late, 1);
    let (due, late) = grid.take(20);
    assert_eq!(due.unwrap().as_bytes()[20], 2);
    assert_eq!(late, 0);
}

#[test]
fn the_oldest_go_when_there_is_no_room() {
    let mut grid = StreamGrid::new(MUX_RATE, 2);
    grid.push(packet(1, Some(10)), 0);
    grid.push(packet(2, None), 0);
    grid.push(packet(3, None), 0);
    assert_eq!(grid.push(packet(4, Some(40)), 0), 1);
    assert_eq!(drain(&mut grid), vec![(20, 2), (30, 3)]);
    grid.grow_to(10);
    grid.grow_to(1);
    assert_eq!(grid.push(packet(5, Some(50)), 0), 0);
}

#[test]
fn a_flush_places_the_tail_at_the_spacing_before_it() {
    let mut grid = StreamGrid::new(MUX_RATE, 100);
    grid.push(packet(1, Some(10)), 0);
    grid.push(packet(2, None), 0);
    grid.push(packet(3, Some(30)), 0);
    grid.push(packet(4, None), 0);
    grid.push(packet(5, None), 0);
    assert_eq!(grid.flush(), 0);
    // Ten slots to a packet before, so ten to a packet after.
    assert_eq!(drain(&mut grid), vec![(10, 1), (20, 2), (30, 3), (40, 4), (50, 5)]);
    assert_eq!(grid.flush(), 0, "and there is nothing left");
}

#[test]
fn a_wrapped_pcr_continues_the_grid() {
    let mut grid = StreamGrid::new(MUX_RATE, 100);
    let wrap = PCR_WRAP_TICKS / TICKS;
    grid.push(packet(1, Some(wrap - 10)), 0);
    grid.push(packet(2, Some(wrap + 10)), 0);
    grid.push(packet(3, Some(wrap + 30)), 0);
    let slots: Vec<u64> = drain(&mut grid).into_iter().map(|(slot, _)| slot).collect();
    assert_eq!(slots[0], wrap - 10);
    assert!(slots[1].abs_diff(wrap + 10) <= 1, "slot {}", slots[1]);
}

#[test]
fn a_splice_resumes_where_the_run_ends() {
    let mut grid = StreamGrid::new(MUX_RATE, 100);
    grid.push(packet(1, Some(1_000)), 0);
    grid.push(packet(2, None), 0);
    // A jump backwards that no silence explains.
    grid.push(packet(3, Some(10)), 1);
    grid.push(packet(4, Some(20)), 2);
    assert_eq!(drain(&mut grid), vec![(1_000, 1), (1_001, 2), (1_002, 3)]);
}

#[test]
fn an_outage_comes_back_on_the_grid() {
    let mut grid = StreamGrid::new(MUX_RATE, 100);
    grid.push(packet(1, Some(100)), 0);
    grid.push(packet(2, Some(110)), 0);
    grid.push(packet(3, None), 0);
    // 80 000 slots are ten seconds, and so long it was silent.
    grid.push(packet(4, Some(80_110)), 10_000_000_000);
    grid.push(packet(5, Some(80_120)), 10_000_000_000);
    // What was held goes where it was going; what returns goes where its PCR says.
    assert_eq!(drain(&mut grid), vec![(100, 1), (110, 2), (120, 3), (80_110, 4)]);
}
