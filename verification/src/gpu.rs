//! GPU acceleration over WebGPU: finding a usable device, and lowering
//! formulas to WGSL for it.
//!
//! Whether a device is present depends on the machine, so nothing is promised
//! of the probes themselves; a missing or unusable device reads as "not
//! available" so that callers stay on the CPU path.
pub mod temporal;
pub mod transpiler;

use pollster::FutureExt;
use vstd::prelude::*;

verus! {

#[verifier::external_type_specification]
#[verifier::external_body]
pub struct ExInstance(wgpu::Instance);

#[verifier::external_type_specification]
#[verifier::external_body]
pub struct ExAdapter(wgpu::Adapter);

/// Calls `wgpu::Instance::new` with the default descriptor (the same instance
/// `Instance::default` builds). Nothing is claimed of the instance.
#[verifier::external_body]
fn new_instance() -> (r: wgpu::Instance) {
    wgpu::Instance::new(&wgpu::InstanceDescriptor::default())
}

/// What an adapter request hands to wgpu.
#[derive(Debug, Clone, Copy, PartialEq, Eq, Structural)]
pub struct AdapterRequest {
    /// Ask for the high-performance device rather than the low-power one.
    pub high_performance: bool,
    /// Force wgpu's fallback (software) adapter.
    pub force_fallback: bool,
    /// Ask for an adapter compatible with a surface; the probes have none.
    pub compatible_surface: bool,
}

/// What a device request hands to wgpu: no label, no required features, and
/// wgpu's default limits or its downlevel defaults.
#[derive(Debug, Clone, Copy, PartialEq, Eq, Structural)]
pub struct DeviceRequest {
    /// Ask for `Limits::default()` rather than `Limits::downlevel_defaults()`.
    pub default_limits: bool,
}

/// Calls `wgpu::Instance::request_adapter` with no compatible surface, the
/// power preference `HighPerformance` when `request.high_performance` holds
/// and `LowPower` otherwise, and `force_fallback_adapter` set to
/// `request.force_fallback`; waits for it with pollster's `block_on`. A
/// request that fails reads as `None`. What the machine offers is not stated.
#[verifier::external_body]
fn request_adapter(instance: &wgpu::Instance, request: AdapterRequest) -> (r: Option<wgpu::Adapter>)
    requires
        !request.compatible_surface,
{
    let power_preference = if request.high_performance {
        wgpu::PowerPreference::HighPerformance
    } else {
        wgpu::PowerPreference::LowPower
    };
    instance.request_adapter(
        &wgpu::RequestAdapterOptions {
            power_preference,
            compatible_surface: None,
            force_fallback_adapter: request.force_fallback,
        },
    ).block_on().ok()
}

/// Calls `wgpu::Adapter::get_info` and reports whether the device type is
/// `DeviceType::Cpu`, a software rasterizer. Which device the machine has is
/// not stated.
#[verifier::external_body]
fn is_cpu_adapter(adapter: &wgpu::Adapter) -> (r: bool) {
    adapter.get_info().device_type == wgpu::DeviceType::Cpu
}

/// Calls `wgpu::Adapter::request_device` with no label, no required
/// features, and the limits `Limits::default()` when `request.default_limits`
/// holds or `Limits::downlevel_defaults()` otherwise (the rest of the
/// descriptor at its default), waits for it with pollster's `block_on`, and
/// reports whether a device and queue came back. Whether the device opens is
/// not stated.
#[verifier::external_body]
fn opens_device(adapter: &wgpu::Adapter, request: DeviceRequest) -> (r: bool) {
    let required_limits = if request.default_limits {
        wgpu::Limits::default()
    } else {
        wgpu::Limits::downlevel_defaults()
    };
    adapter.request_device(
        &wgpu::DeviceDescriptor {
            required_features: wgpu::Features::empty(),
            required_limits,
            ..wgpu::DeviceDescriptor::default()
        },
    ).block_on().is_ok()
}

/// The adapter request of the probes: the high-performance device, no forced
/// fallback, no surface.
pub open spec fn spec_adapter_request() -> AdapterRequest {
    AdapterRequest { high_performance: true, force_fallback: false, compatible_surface: false }
}

/// The device request of the probes: wgpu's default limits.
pub open spec fn spec_device_request() -> DeviceRequest {
    DeviceRequest { default_limits: true }
}

/// The adapter request the probes make.
pub fn adapter_request() -> (r: AdapterRequest)
    ensures
        r == spec_adapter_request(),
{
    AdapterRequest { high_performance: true, force_fallback: false, compatible_surface: false }
}

/// The device request the probes make.
pub fn device_request() -> (r: DeviceRequest)
    ensures
        r == spec_device_request(),
{
    DeviceRequest { default_limits: true }
}

/// What a probe for a GPU asked wgpu for and what came back.
#[derive(Debug, Clone, Copy, PartialEq, Eq, Structural)]
pub struct GpuProbe {
    /// The adapter request handed to wgpu.
    pub adapter_request: AdapterRequest,
    /// Whether an adapter came back.
    pub found: bool,
    /// Whether that adapter is a CPU rasterizer.
    pub cpu: bool,
    /// The device request handed to wgpu, if one was made.
    pub device_request: Option<DeviceRequest>,
    /// Whether the device opened.
    pub opens: bool,
}

/// How the probe's steps follow one another: the fixed adapter request; no
/// CPU verdict without an adapter; a device requested, with the fixed
/// request, exactly for a hardware adapter; no device opened without a
/// request.
pub open spec fn probe_consistent(p: GpuProbe) -> bool {
    &&& p.adapter_request == spec_adapter_request()
    &&& !p.found ==> !p.cpu
    &&& (p.device_request is Some) == (p.found && !p.cpu)
    &&& p.device_request matches Some(d) ==> d == spec_device_request()
    &&& p.device_request is None ==> !p.opens
}

/// Keeps an adapter only when it is a hardware device, not a CPU one.
pub fn hardware_only(adapter: wgpu::Adapter, cpu: bool) -> (r: Option<wgpu::Adapter>)
    ensures
        r is Some <==> !cpu,
        r matches Some(a) ==> a == adapter,
{
    if cpu {
        None
    } else {
        Some(adapter)
    }
}

/// Whether a probe found a usable device: an adapter was found, it is not a
/// CPU rasterizer, and it opened a device.
pub fn usable(found: bool, cpu: bool, opens: bool) -> (r: bool)
    ensures
        r == (found && !cpu && opens),
{
    found && !cpu && opens
}

impl GpuProbe {
    /// Whether the probe found a usable device, by [`usable`].
    pub fn available(&self) -> (r: bool)
        ensures
            r == (self.found && !self.cpu && self.opens),
    {
        usable(self.found, self.cpu, self.opens)
    }
}

/// Requests an adapter with [`adapter_request`] and keeps it only when it is
/// hardware, recording what was asked and seen; no device is requested yet.
/// The adapter returned is there exactly when one was found and it is not a
/// CPU rasterizer.
pub fn find_hardware_adapter() -> (r: (Option<wgpu::Adapter>, GpuProbe))
    ensures
        r.1.adapter_request == spec_adapter_request(),
        !r.1.found ==> !r.1.cpu,
        r.1.device_request is None,
        !r.1.opens,
        (r.0 is Some) == (r.1.found && !r.1.cpu),
{
    let request = adapter_request();
    let instance = new_instance();
    match request_adapter(&instance, request) {
        Some(adapter) => {
            let cpu = is_cpu_adapter(&adapter);
            let kept = hardware_only(adapter, cpu);
            (
                kept,
                GpuProbe {
                    adapter_request: request,
                    found: true,
                    cpu,
                    device_request: None,
                    opens: false,
                },
            )
        },
        None => (
            None,
            GpuProbe {
                adapter_request: request,
                found: false,
                cpu: false,
                device_request: None,
                opens: false,
            },
        ),
    }
}

/// Probes for a usable GPU: the adapter request of [`find_hardware_adapter`],
/// then, for a hardware adapter only, a device request with
/// [`device_request`]. What the machine answers is not stated; how the steps
/// follow one another is [`probe_consistent`].
pub fn probe_gpu() -> (r: GpuProbe)
    ensures
        probe_consistent(r),
{
    let (adapter, probe) = find_hardware_adapter();
    match adapter {
        Some(a) => {
            let request = device_request();
            let opens = opens_device(&a, request);
            GpuProbe { device_request: Some(request), opens, ..probe }
        },
        None => probe,
    }
}

/// A high-performance hardware adapter, or `None` when the machine has none
/// (a CPU rasterizer does not count): the adapter of
/// [`find_hardware_adapter`]. Which adapter the machine offers is not stated.
pub fn request_device_adapter() -> Option<wgpu::Adapter> {
    find_hardware_adapter().0
}

/// Whether a usable GPU device is available: [`GpuProbe::available`] of
/// [`probe_gpu`]. The probe never fails loudly: any failure reads as `false`.
/// What the machine answers is not stated.
pub fn is_available() -> bool {
    probe_gpu().available()
}

} // verus!
