use tcap_bench::facever::FrontendStep::{
    Done, FetchGpuBuffer, FetchStorageBuffer, InvokeFs, InvokeGpu, InvokeStorage, Notify,
};
use tcap_bench::facever::{
    client_latency_micros, gpu_delay_nanos, storage_delay_nanos, FrontendRun,
    CPU_CLOCK_SPEED,
};

#[test]
fn clock_speed_is_half_of_210() {
    assert_eq!(CPU_CLOCK_SPEED, 105);
}

#[test]
fn service_delays() {
    assert_eq!(gpu_delay_nanos(0), 0);
    assert_eq!(gpu_delay_nanos(1), 1365);
    assert_eq!(gpu_delay_nanos(10), 13650);
    assert_eq!(storage_delay_nanos(1), 315);
    assert_eq!(storage_delay_nanos(2), 630);
}

#[test]
fn client_latency_takes_off_the_start_delay() {
    assert_eq!(client_latency_micros(20), 0);
    assert_eq!(client_latency_micros(120), 100);
}

#[test]
fn frontend_steps_in_order() {
    let mut f = FrontendRun::new(2);
    let mut steps = Vec::new();
    loop {
        let s = f.next_step();
        steps.push(s);
        if s == Done {
            break;
        }
    }
    assert_eq!(
        steps,
        vec![
            InvokeFs,
            InvokeStorage,
            FetchStorageBuffer,
            FetchStorageBuffer,
            InvokeGpu,
            FetchGpuBuffer,
            FetchGpuBuffer,
            Notify,
            Done
        ]
    );
    assert_eq!(f.next_step(), Done);
}

#[test]
fn frontend_with_no_transfer() {
    let mut f = FrontendRun::new(0);
    assert_eq!(f.next_step(), InvokeFs);
    assert_eq!(f.next_step(), InvokeStorage);
    assert_eq!(f.next_step(), InvokeGpu);
    assert_eq!(f.next_step(), Notify);
    assert_eq!(f.next_step(), Done);
}
