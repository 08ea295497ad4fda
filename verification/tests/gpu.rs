use sentil::error::Error;
use sentil::gpu::is_available;
use sentil::gpu::{adapter_request, device_request, probe_gpu, usable};
use sentil::gpu::temporal::validate_dims;

#[test]
fn gpu_capability_check_never_panics() {
    // With no GPU this is false; with one, true. Either way it must not panic,
    // so the CPU fallback path stays reachable on any machine.
    let _ = is_available();
}

#[test]
fn mod_capability_check_never_panics() {
    let _ = is_available();
}

fn refusal(trace_len: usize, num_vars: usize) -> Option<String> {
    match validate_dims(trace_len, num_vars) {
        Ok(()) => None,
        Err(Error::Transpilation { message }) => Some(message),
        Err(other) => panic!("unexpected error {other:?}"),
    }
}

#[test]
fn dimension_limits_are_refused_with_their_messages() {
    assert_eq!(
        refusal(1, 1).unwrap(),
        "a temporal window needs at least two samples, got 1"
    );
    assert_eq!(
        refusal(513, 1).unwrap(),
        "trace length 513 exceeds the GPU temporal limit of 512; this runs on the CPU"
    );
    assert_eq!(
        refusal(512, 17).unwrap(),
        "a 17-variable formula over 512 samples exceeds the GPU temporal cell limit; this runs on the CPU"
    );
    assert_eq!(refusal(512, 16), None);
    assert_eq!(refusal(2, 0), None);
    assert_eq!(refusal(0, 0).unwrap(), "a temporal window needs at least two samples, got 0");
    assert!(refusal(300, usize::MAX).is_some());
}

#[test]
fn a_probe_is_usable_only_for_an_opened_hardware_device() {
    assert!(usable(true, false, true));
    assert!(!usable(true, true, true));
    assert!(!usable(false, false, false));
    assert!(!usable(true, false, false));
}

#[test]
fn the_probe_asks_for_a_hardware_device_and_opens_only_that() {
    let request = adapter_request();
    assert!(request.high_performance);
    assert!(!request.force_fallback);
    assert!(!request.compatible_surface);
    assert!(device_request().default_limits);
    let probe = probe_gpu();
    assert_eq!(probe.adapter_request, request);
    assert_eq!(probe.device_request.is_some(), probe.found && !probe.cpu);
    if probe.device_request.is_none() {
        assert!(!probe.opens);
    }
    assert_eq!(probe.available(), probe.found && !probe.cpu && probe.opens);
}
