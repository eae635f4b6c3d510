//! The reference tables the decoders consult: known signals, route
//! profiles, fault codes and transport profiles.
use vstd::prelude::*;
use crate::strings::span_is;
use crate::error::Severity;

verus! {

/// A known telemetry signal.
#[derive(Debug, Clone, Copy)]
pub struct SignalSpec {
    pub unit: &'static str,
    pub precision: u8,
}

/// A named route profile and the risk it adds to a leg.
#[derive(Debug, Clone, Copy)]
pub struct RouteProfile {
    pub risk_bias: u8,
}

/// A known fault code.
#[derive(Debug, Clone, Copy)]
pub struct FaultSpec {
    pub code: u16,
    pub severity: Severity,
}

/// A transport with a known session profile.
#[derive(Debug, Clone, Copy)]
pub struct ProtocolProfile {
    pub reliable: bool,
}

/// How many signals the catalog knows.
pub const SIGNAL_SPEC_COUNT: u32 = 8;

/// The precision of a known signal, `None` for an unknown name.
pub open spec fn signal_precision(name: Seq<char>) -> Option<u8> {
    if name == "engine.rpm"@ {
        Some(0)
    } else if name == "engine.temp"@ {
        Some(1)
    } else if name == "fuel.level"@ {
        Some(1)
    } else if name == "vehicle.speed"@ {
        Some(1)
    } else if name == "battery.voltage"@ {
        Some(2)
    } else if name == "brake.pressure"@ {
        Some(1)
    } else if name == "tire.pressure"@ {
        Some(1)
    } else if name == "cargo.temp"@ {
        Some(1)
    } else {
        None
    }
}

/// The signal named by `s[lo..hi]`.
pub fn signal_by_name(s: &[char], lo: usize, hi: usize) -> (r: Option<SignalSpec>)
    requires
        lo <= hi <= s@.len(),
    ensures
        match r {
            Some(spec) => signal_precision(s@.subrange(lo as int, hi as int)) == Some(spec.precision),
            None => signal_precision(s@.subrange(lo as int, hi as int)) is None,
        },
{
    if span_is(s, lo, hi, "engine.rpm") {
        Some(SignalSpec { unit: "rpm", precision: 0 })
    } else if span_is(s, lo, hi, "engine.temp") {
        Some(SignalSpec { unit: "C", precision: 1 })
    } else if span_is(s, lo, hi, "fuel.level") {
        Some(SignalSpec { unit: "%", precision: 1 })
    } else if span_is(s, lo, hi, "vehicle.speed") {
        Some(SignalSpec { unit: "km/h", precision: 1 })
    } else if span_is(s, lo, hi, "battery.voltage") {
        Some(SignalSpec { unit: "V", precision: 2 })
    } else if span_is(s, lo, hi, "brake.pressure") {
        Some(SignalSpec { unit: "bar", precision: 1 })
    } else if span_is(s, lo, hi, "tire.pressure") {
        Some(SignalSpec { unit: "bar", precision: 1 })
    } else if span_is(s, lo, hi, "cargo.temp") {
        Some(SignalSpec { unit: "C", precision: 1 })
    } else {
        None
    }
}

/// The risk bias of a route profile, `None` for an unknown name.
pub open spec fn profile_bias(name: Seq<char>) -> Option<u8> {
    if name == "urban"@ {
        Some(5)
    } else if name == "highway"@ {
        Some(2)
    } else if name == "rural"@ {
        Some(8)
    } else if name == "mountain"@ {
        Some(20)
    } else if name == "hazmat"@ {
        Some(40)
    } else {
        None
    }
}

/// The route profile named by `s[lo..hi]`.
pub fn route_profile_by_name(s: &[char], lo: usize, hi: usize) -> (r: Option<RouteProfile>)
    requires
        lo <= hi <= s@.len(),
    ensures
        match r {
            Some(p) => profile_bias(s@.subrange(lo as int, hi as int)) == Some(p.risk_bias),
            None => profile_bias(s@.subrange(lo as int, hi as int)) is None,
        },
{
    if span_is(s, lo, hi, "urban") {
        Some(RouteProfile { risk_bias: 5 })
    } else if span_is(s, lo, hi, "highway") {
        Some(RouteProfile { risk_bias: 2 })
    } else if span_is(s, lo, hi, "rural") {
        Some(RouteProfile { risk_bias: 8 })
    } else if span_is(s, lo, hi, "mountain") {
        Some(RouteProfile { risk_bias: 20 })
    } else if span_is(s, lo, hi, "hazmat") {
        Some(RouteProfile { risk_bias: 40 })
    } else {
        None
    }
}

/// Whether the catalog knows a fault code.
pub open spec fn known_fault(code: u16) -> bool {
    code == 100 || code == 101 || code == 102 || code == 200 || code == 201 || code == 300 || code
        == 301 || code == 400
}

pub fn fault_by_code(code: u16) -> (r: Option<FaultSpec>)
    ensures
        r is Some <==> known_fault(code),
{
    if code == 100 || code == 101 || code == 102 {
        Some(FaultSpec { code, severity: Severity::Low })
    } else if code == 200 || code == 201 {
        Some(FaultSpec { code, severity: Severity::Medium })
    } else if code == 300 || code == 301 {
        Some(FaultSpec { code, severity: Severity::High })
    } else if code == 400 {
        Some(FaultSpec { code, severity: Severity::Critical })
    } else {
        None
    }
}

/// Whether a transport name has a session profile.
pub open spec fn known_protocol(name: Seq<char>) -> bool {
    name == "tcp"@ || name == "udp"@ || name == "can"@ || name == "mqtt"@
}

pub fn profile_for_protocol(s: &[char], lo: usize, hi: usize) -> (r: Option<ProtocolProfile>)
    requires
        lo <= hi <= s@.len(),
    ensures
        r is Some <==> known_protocol(s@.subrange(lo as int, hi as int)),
{
    if span_is(s, lo, hi, "tcp") || span_is(s, lo, hi, "mqtt") {
        Some(ProtocolProfile { reliable: true })
    } else if span_is(s, lo, hi, "udp") || span_is(s, lo, hi, "can") {
        Some(ProtocolProfile { reliable: false })
    } else {
        None
    }
}

} // verus!
