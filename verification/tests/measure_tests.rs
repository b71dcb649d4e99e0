use tcap_bench::dos::{FloodPlan, FloodStep, RateTracker};
use tcap_bench::grpc::{grpc_report, per_call_micros, PingRequest, PP};
use tcap_bench::latency::{cap_counts, extra_caps, latency_report, mean_nanos};
use tcap_bench::starchain::{benchmark_depths, star_chain_report, star_chain_table, CHAIN_SERIES, STAR_SERIES};
use tcap_bench::table::SeriesTable;
use tcap_bench::throughput::{
    benchmark_fetches, server_buffer, transfer_rate, transmission_errors, SERVER_BUFFER_LEN,
};

#[test]
fn server_buffer_counts_up_by_three_and_wraps() {
    let b = server_buffer();
    assert_eq!(b.len(), SERVER_BUFFER_LEN);
    assert_eq!(SERVER_BUFFER_LEN, (1 << 20) + (1 << 8));
    assert_eq!(&b[..4], &[0, 3, 6, 9]);
    assert_eq!(b[85], 255);
    assert_eq!(b[86], 2);
    assert_eq!(b[256], 0);
    assert_eq!(b[SERVER_BUFFER_LEN - 1], ((3 * (SERVER_BUFFER_LEN - 1)) % 256) as u8);
}

#[test]
fn transmission_errors_count_nonzero_bytes() {
    assert_eq!(transmission_errors(&vec![0u8; 1024]), 0);
    assert_eq!(transmission_errors(&vec![0, 1, 0, 255, 7]), 3);
    assert_eq!(transmission_errors(&server_buffer()), SERVER_BUFFER_LEN - SERVER_BUFFER_LEN.div_ceil(256));
}

#[test]
fn transfer_rate_in_bytes_per_microsecond() {
    assert_eq!(transfer_rate(10, 5), 2048);
    assert_eq!(transfer_rate(1, 1000), 1);
    assert_eq!(transfer_rate(0, 7), 0);
}

#[test]
fn fetch_and_depth_schedules() {
    assert_eq!(benchmark_fetches(false, 42), vec![42]);
    assert_eq!(benchmark_fetches(true, 42), vec![10, 100, 1000, 2000, 3000, 4000, 5000, 6000, 7000]);
    assert_eq!(benchmark_depths(false, 8), vec![8]);
    assert_eq!(
        benchmark_depths(true, 8),
        vec![10, 100, 1000, 2000, 3000, 4000, 5000, 6000, 7000, 8000, 9000, 10000]
    );
}

#[test]
fn rate_tracker_indexes_its_samples() {
    let mut t = RateTracker::new();
    t.record(5, 9);
    t.record(9, 9);
    t.record(10, 30);
    assert_eq!(t.samples(), &vec![(0, 4), (1, 0), (2, 20)]);
}

#[test]
fn pong_echoes_the_payload() {
    let pp = PP::default();
    assert_eq!(pp.pong(PingRequest { buf: 10 }).buf, 10);
    assert_eq!(pp.pong(PingRequest { buf: -3 }).buf, -3);
}

#[test]
fn per_call_time() {
    assert_eq!(per_call_micros(1000, 10), 100);
    assert_eq!(per_call_micros(999, 10), 99);
}

#[test]
fn grpc_report_rows() {
    let mut t: SeriesTable<u128> = SeriesTable::new();
    t.insert(1, Vec::new());
    t.insert(0, Vec::new());
    t.push(1, 70);
    t.push(0, 50);
    t.push(0, 60);
    assert_eq!(grpc_report(&t, 7), vec![(0, 7, 50), (0, 7, 60), (1, 7, 70)]);
}

#[test]
fn latency_schedule_and_extra_caps() {
    assert_eq!(cap_counts(), vec![1, 10, 100, 1000, 10000, 20000, 100000, 1000000]);
    assert_eq!(extra_caps(1), 0);
    assert_eq!(extra_caps(0), 0);
    assert_eq!(extra_caps(-4), 0);
    assert_eq!(extra_caps(10), 9);
}

#[test]
fn latency_means() {
    assert_eq!(mean_nanos(&vec![10, 20, 31]), 20);
    assert_eq!(mean_nanos(&vec![(1u128 << 64) + 5]), 5);
    let mut t: SeriesTable<u128> = SeriesTable::new();
    t.insert(10, vec![2_000, 4_999]);
    t.insert(1, vec![1_500]);
    assert_eq!(latency_report(&t), vec![(1, 1), (10, 3)]);
}

#[test]
fn star_chain_report_rows() {
    let mut t = star_chain_table();
    assert_eq!(t.sorted_keys(), vec![STAR_SERIES, CHAIN_SERIES]);
    t.push(CHAIN_SERIES, (10, 900));
    t.push(STAR_SERIES, (10, 500));
    t.push(STAR_SERIES, (100, 700));
    assert_eq!(
        star_chain_report(&t),
        vec![(0, 0, 10, 500), (0, 1, 100, 700), (1, 0, 10, 900)]
    );
}

#[test]
fn flooding_sends_are_paced_by_the_delay() {
    let mut p = FloodPlan::new(3, 5);
    let mut steps = Vec::new();
    loop {
        let s = p.next_step();
        steps.push(s);
        if s == FloodStep::Done {
            break;
        }
    }
    assert_eq!(
        steps,
        vec![
            FloodStep::Send,
            FloodStep::Pause(5),
            FloodStep::Send,
            FloodStep::Pause(5),
            FloodStep::Send,
            FloodStep::Last,
            FloodStep::Done
        ]
    );
    assert_eq!(p.next_step(), FloodStep::Done);
}

#[test]
fn flooding_edge_cases() {
    let mut p = FloodPlan::new(0, 7);
    assert_eq!(p.next_step(), FloodStep::Last);
    assert_eq!(p.next_step(), FloodStep::Done);
    let mut p = FloodPlan::new(1, 0);
    assert_eq!(p.next_step(), FloodStep::Send);
    assert_eq!(p.next_step(), FloodStep::Last);
    assert_eq!(p.next_step(), FloodStep::Done);
}
