//! Cluster-level FlexRay parameters as FIBEX and ARXML files state them.

use vstd::prelude::*;
use crate::fr_text;
use crate::xml;
use crate::xml::XmlNode;

verus! {

/// The length of a communication cycle, in the unit that the file gives it in.
#[derive(Debug)]
pub enum FrCycleTime {
    /// The file gives none: 5 ms.
    Unstated,
    Millis(String),
    Micros(String),
    Macroticks(u32),
}

/// The duration of a macrotick, in the unit that the file gives it in.
#[derive(Debug)]
pub enum FrMacrotick {
    /// The file gives none: 5 µs.
    Unstated,
    Micros(String),
    /// Milliseconds where the number is below 0.1, else microseconds.
    Guessed(String),
}

/// Cluster-level protocol parameters. Real numbers are kept as the file writes
/// them. The last block collects the driver-oriented values that only some files
/// carry; an absent one is zero.
#[derive(Debug)]
pub struct FrClusterParams {
    pub name: String,
    /// fx:SPEED, normalised to kbit/s (5000 or 10000).
    pub speed_kbps: u32,
    /// gdCycle.
    pub cycle_time: FrCycleTime,
    pub macrotick: FrMacrotick,
    pub coldstart_attempts: u32,
    pub action_point_offset: u32,
    pub minislot_action_point_offset: u32,
    pub dynamic_slot_idle_phase: u32,
    pub minor_version: u32,
    pub network_idle_time: u32,
    pub number_of_minislots: u32,
    pub number_of_static_slots: u32,
    pub minislot_duration: u32,
    pub static_slot_duration: u32,
    pub symbol_window: u32,
    pub symbol_window_idle_phase: u32,
    pub offset_correction_start: u32,
    pub g_macro_per_cycle: Option<u32>,
    /// SAMPLE-CLOCK-PERIOD in µs.
    pub sample_clock_period_us: String,
    pub p_allow_halt_due_to_clock: bool,
    pub payload_length_static: u32,
    pub g_micro_per_cycle: u32,
    pub p_samples_per_microtick: u32,
    pub gd_cas_rx_low_max: u32,
    pub g_sync_node_max: u32,
    pub g_listen_noise: u32,
    pub g_network_management_vector_length: u32,
    pub g_max_without_clock_correction_fatal: u32,
    pub g_max_without_clock_correction_passive: u32,
    pub gd_tss_transmitter: u32,
    pub p_cluster_drift_damping: u32,
    pub p_decoding_correction: u32,
    pub p_delay_compensation_a: u32,
    pub p_delay_compensation_b: u32,
    pub p_extern_offset_correction: u32,
    pub p_extern_rate_correction: u32,
    pub p_latest_tx: u32,
    pub p_macro_initial_offset_a: u32,
    pub p_macro_initial_offset_b: u32,
    pub p_micro_initial_offset_a: u32,
    pub p_micro_initial_offset_b: u32,
    pub p_offset_correction_out: u32,
    pub p_rate_correction_out: u32,
    pub p_allow_passive_to_active: u32,
    pub p_key_slot_used_for_startup: u32,
    pub p_key_slot_used_for_sync: u32,
    pub p_single_slot_enabled: u32,
    pub p_wakeup_channel: u32,
    pub p_wakeup_pattern: u32,
    pub pd_accepted_startup_range: u32,
    pub pd_listen_timeout: u32,
    pub pd_max_drift: u32,
    pub p_micro_per_macro_nom: u32,
    pub pd_microtick: u32,
    pub g_channels: u32,
    pub p_channels: u32,
}

/// The values of the driver-oriented block.
pub open spec fn extras_stated(p: FrClusterParams, doc: Seq<XmlNode>, i: int) -> bool {
    &&& p.sample_clock_period_us@ == match fr_text::real_under(
        doc,
        i,
        seq!["SAMPLE-CLOCK-PERIOD", "P-SAMPLE-CLOCK-PERIOD"],
    ) {
        Some(t) => t,
        None => "0"@,
    }
    &&& p.p_allow_halt_due_to_clock == (xml::number_under(
        doc,
        i,
        seq!["ALLOW-HALT-DUE-TO-CLOCK", "P-ALLOW-HALT-DUE-TO-CLOCK"],
    ) == Some(1nat))
    &&& p.payload_length_static == xml::number_or(doc, i, seq!["PAYLOAD-LENGTH-STATIC", "G-PAYLOAD-LENGTH-STATIC", "FLEXRAY-G-PAYLOAD-LENGTH-STATIC"], 0)
    &&& p.g_micro_per_cycle == xml::number_or(doc, i, seq!["MICRO-PER-CYCLE", "G-MICRO-PER-CYCLE"], 0)
    &&& p.p_samples_per_microtick == xml::number_or(doc, i, seq!["SAMPLES-PER-MICROTICK", "P-SAMPLES-PER-MICROTICK"], 0)
    &&& p.gd_cas_rx_low_max == xml::number_or(doc, i, seq!["CAS-RX-LOW-MAX", "GD-CAS-RX-LOW-MAX"], 0)
    &&& p.g_sync_node_max == xml::number_or(doc, i, seq!["SYNC-NODE-MAX", "G-SYNC-NODE-MAX"], 0)
    &&& p.g_listen_noise == xml::number_or(doc, i, seq!["LISTEN-NOISE", "G-LISTEN-NOISE"], 0)
    &&& p.g_network_management_vector_length == xml::number_or(doc, i, seq!["NETWORK-MANAGEMENT-VECTOR-LENGTH", "G-NETWORK-MANAGEMENT-VECTOR-LENGTH"], 0)
    &&& p.g_max_without_clock_correction_fatal == xml::number_or(doc, i, seq!["MAX-WITHOUT-CLOCK-CORRECTION-FATAL", "G-MAX-WITHOUT-CLOCK-CORRECTION-FATAL"], 0)
    &&& p.g_max_without_clock_correction_passive == xml::number_or(doc, i, seq!["MAX-WITHOUT-CLOCK-CORRECTION-PASSIVE", "G-MAX-WITHOUT-CLOCK-CORRECTION-PASSIVE"], 0)
    &&& p.gd_tss_transmitter == xml::number_or(doc, i, seq!["T-S-S-TRANSMITTER", "GD-TSS-TRANSMITTER"], 0)
    &&& p.p_cluster_drift_damping == xml::number_or(doc, i, seq!["CLUSTER-DRIFT-DAMPING", "P-CLUSTER-DRIFT-DAMPING"], 0)
    &&& p.p_decoding_correction == xml::number_or(doc, i, seq!["DECODING-CORRECTION", "P-DECODING-CORRECTION"], 0)
    &&& p.p_delay_compensation_a == xml::number_or(doc, i, seq!["DELAY-COMPENSATION-A", "P-DELAY-COMPENSATION-A"], 0)
    &&& p.p_delay_compensation_b == xml::number_or(doc, i, seq!["DELAY-COMPENSATION-B", "P-DELAY-COMPENSATION-B"], 0)
    &&& p.p_extern_offset_correction == xml::number_or(doc, i, seq!["EXTERN-OFFSET-CORRECTION", "P-EXTERN-OFFSET-CORRECTION"], 0)
    &&& p.p_extern_rate_correction == xml::number_or(doc, i, seq!["EXTERN-RATE-CORRECTION", "P-EXTERN-RATE-CORRECTION"], 0)
    &&& p.p_latest_tx == xml::number_or(doc, i, seq!["LATEST-TX", "P-LATEST-TX"], 0)
    &&& p.p_macro_initial_offset_a == xml::number_or(doc, i, seq!["MACRO-INITIAL-OFFSET-A", "P-MACRO-INITIAL-OFFSET-A"], 0)
    &&& p.p_macro_initial_offset_b == xml::number_or(doc, i, seq!["MACRO-INITIAL-OFFSET-B", "P-MACRO-INITIAL-OFFSET-B"], 0)
    &&& p.p_micro_initial_offset_a == xml::number_or(doc, i, seq!["MICRO-INITIAL-OFFSET-A", "P-MICRO-INITIAL-OFFSET-A"], 0)
    &&& p.p_micro_initial_offset_b == xml::number_or(doc, i, seq!["MICRO-INITIAL-OFFSET-B", "P-MICRO-INITIAL-OFFSET-B"], 0)
    &&& p.p_offset_correction_out == xml::number_or(doc, i, seq!["OFFSET-CORRECTION-OUT", "P-OFFSET-CORRECTION-OUT"], 0)
    &&& p.p_rate_correction_out == xml::number_or(doc, i, seq!["RATE-CORRECTION-OUT", "P-RATE-CORRECTION-OUT"], 0)
    &&& p.p_allow_passive_to_active == xml::number_or(doc, i, seq!["ALLOW-PASSIVE-TO-ACTIVE", "P-ALLOW-PASSIVE-TO-ACTIVE"], 0)
    &&& p.p_key_slot_used_for_startup == xml::number_or(doc, i, seq!["KEY-SLOT-USED-FOR-STARTUP", "P-KEY-SLOT-USED-FOR-STARTUP"], 0)
    &&& p.p_key_slot_used_for_sync == xml::number_or(doc, i, seq!["KEY-SLOT-USED-FOR-SYNC", "P-KEY-SLOT-USED-FOR-SYNC"], 0)
    &&& p.p_single_slot_enabled == xml::number_or(doc, i, seq!["SINGLE-SLOT-ENABLED", "P-SINGLE-SLOT-ENABLED"], 0)
    &&& p.p_wakeup_channel == xml::number_or(doc, i, seq!["WAKEUP-CHANNEL", "P-WAKEUP-CHANNEL"], 0)
    &&& p.p_wakeup_pattern == xml::number_or(doc, i, seq!["WAKEUP-PATTERN", "P-WAKEUP-PATTERN"], 0)
    &&& p.pd_accepted_startup_range == xml::number_or(doc, i, seq!["ACCEPTED-STARTUP-RANGE", "PD-ACCEPTED-STARTUP-RANGE"], 0)
    &&& p.pd_listen_timeout == xml::number_or(doc, i, seq!["LISTEN-TIMEOUT", "PD-LISTEN-TIMEOUT"], 0)
    &&& p.pd_max_drift == xml::number_or(doc, i, seq!["MAX-DRIFT", "PD-MAX-DRIFT"], 0)
    &&& p.p_micro_per_macro_nom == 0
    &&& p.pd_microtick == 0
    &&& p.g_channels == 0
    &&& p.p_channels == 0
}

/// The driver-oriented block is all zero.
pub open spec fn extras_unstated(p: FrClusterParams) -> bool {
    &&& p.sample_clock_period_us@ == "0"@
    &&& !p.p_allow_halt_due_to_clock
    &&& p.payload_length_static == 0
    &&& p.g_micro_per_cycle == 0
    &&& p.p_samples_per_microtick == 0
    &&& p.gd_cas_rx_low_max == 0
    &&& p.g_sync_node_max == 0
    &&& p.g_listen_noise == 0
    &&& p.g_network_management_vector_length == 0
    &&& p.g_max_without_clock_correction_fatal == 0
    &&& p.g_max_without_clock_correction_passive == 0
    &&& p.gd_tss_transmitter == 0
    &&& p.p_cluster_drift_damping == 0
    &&& p.p_decoding_correction == 0
    &&& p.p_delay_compensation_a == 0
    &&& p.p_delay_compensation_b == 0
    &&& p.p_extern_offset_correction == 0
    &&& p.p_extern_rate_correction == 0
    &&& p.p_latest_tx == 0
    &&& p.p_macro_initial_offset_a == 0
    &&& p.p_macro_initial_offset_b == 0
    &&& p.p_micro_initial_offset_a == 0
    &&& p.p_micro_initial_offset_b == 0
    &&& p.p_offset_correction_out == 0
    &&& p.p_rate_correction_out == 0
    &&& p.p_allow_passive_to_active == 0
    &&& p.p_key_slot_used_for_startup == 0
    &&& p.p_key_slot_used_for_sync == 0
    &&& p.p_single_slot_enabled == 0
    &&& p.p_wakeup_channel == 0
    &&& p.p_wakeup_pattern == 0
    &&& p.pd_accepted_startup_range == 0
    &&& p.pd_listen_timeout == 0
    &&& p.pd_max_drift == 0
    &&& p.p_micro_per_macro_nom == 0
    &&& p.pd_microtick == 0
    &&& p.g_channels == 0
    &&& p.p_channels == 0
}

/// The parameters of a database that states none.
pub open spec fn is_default(p: FrClusterParams) -> bool {
    &&& p.name@ == ""@
    &&& p.speed_kbps == 10000
    &&& p.cycle_time is Unstated
    &&& p.macrotick is Unstated
    &&& p.g_macro_per_cycle is None
    &&& p.coldstart_attempts == 8
    &&& p.action_point_offset == 3
    &&& p.minislot_action_point_offset == 2
    &&& p.dynamic_slot_idle_phase == 1
    &&& p.minor_version == 3
    &&& p.network_idle_time == 75
    &&& p.number_of_minislots == 292
    &&& p.number_of_static_slots == 10
    &&& p.minislot_duration == 9
    &&& p.static_slot_duration == 67
    &&& p.symbol_window == 1
    &&& p.symbol_window_idle_phase == 1
    &&& p.offset_correction_start == 233
    &&& extras_unstated(p)
}

/// Bit rates are written in bit/s or in kbit/s.
pub open spec fn kbps(v: int) -> int {
    if v >= 100_000 {
        v / 1000
    } else {
        v
    }
}

/// The cycle time of a FIBEX cluster: in ms, or under CYCLE in µs.
pub open spec fn fibex_cycle_time(c: FrCycleTime, doc: Seq<XmlNode>, i: int) -> bool {
    let ms = fr_text::real_under(doc, i, seq!["CYCLE-TIME-ms", "CYCLE-TIME-MS", "CYCLE-TIME"]);
    let us = fr_text::real_under(doc, i, seq!["CYCLE"]);
    if ms is Some {
        c matches FrCycleTime::Millis(t) && t@ == ms->0
    } else if us is Some {
        c matches FrCycleTime::Micros(t) && t@ == us->0
    } else {
        c is Unstated
    }
}

/// The macrotick of a FIBEX cluster.
pub open spec fn fibex_macrotick(m: FrMacrotick, doc: Seq<XmlNode>, i: int) -> bool {
    match fr_text::real_under(
        doc,
        i,
        seq!["MACROTICK", "MACROTICK-DURATION", "GD-MACROTICK-DURATION"],
    ) {
        Some(v) => m matches FrMacrotick::Guessed(t) && t@ == v,
        None => m is Unstated,
    }
}

/// The parameters that the FIBEX cluster element `i` states.
pub open spec fn is_fibex_params(p: FrClusterParams, doc: Seq<XmlNode>, i: int) -> bool {
    &&& p.name@ == xml::name_of(doc, i)
    &&& p.speed_kbps == (match xml::number_under(doc, i, seq!["SPEED"]) {
        Some(v) => kbps(v as int),
        None => 10000,
    })
    &&& fibex_cycle_time(p.cycle_time, doc, i)
    &&& fibex_macrotick(p.macrotick, doc, i)
    &&& xml::is_number(
        p.g_macro_per_cycle,
        xml::number_under(doc, i, seq!["MACRO-PER-CYCLE", "G-MACRO-PER-CYCLE"]),
    )
    &&& p.coldstart_attempts == xml::number_or(doc, i, seq!["COLD-START-ATTEMPTS", "COLDSTART-ATTEMPTS", "GD-COLDSTART-ATTEMPTS", "G-COLDSTART-ATTEMPTS"], 8)
    &&& p.action_point_offset == xml::number_or(doc, i, seq!["ACTION-POINT-OFFSET", "GD-ACTION-POINT-OFFSET"], 3)
    &&& p.minislot_action_point_offset == xml::number_or(doc, i, seq!["MINISLOT-ACTION-POINT-OFFSET", "GD-MINISLOT-ACTION-POINT-OFFSET"], 2)
    &&& p.dynamic_slot_idle_phase == xml::number_or(doc, i, seq!["DYNAMIC-SLOT-IDLE-PHASE", "GD-DYNAMIC-SLOT-IDLE-PHASE"], 1)
    &&& p.minor_version == xml::number_or(doc, i, seq!["MINOR-VERSION", "GD-MINOR-VERSION"], 3)
    &&& p.network_idle_time == xml::number_or(doc, i, seq!["NETWORK-IDLE-TIME", "N-I-T", "NIT", "GD-NIT"], 75)
    &&& p.number_of_minislots == xml::number_or(doc, i, seq!["NUMBER-OF-MINISLOTS", "G-NUMBER-OF-MINISLOTS"], 292)
    &&& p.number_of_static_slots == xml::number_or(doc, i, seq!["NUMBER-OF-STATIC-SLOTS", "G-NUMBER-OF-STATIC-SLOTS"], 10)
    &&& p.minislot_duration == xml::number_or(doc, i, seq!["MINISLOT-DURATION", "GD-MINISLOT", "MINISLOT"], 9)
    &&& p.static_slot_duration == xml::number_or(doc, i, seq!["STATIC-SLOT-DURATION", "GD-STATIC-SLOT", "STATIC-SLOT"], 67)
    &&& p.symbol_window == xml::number_or(doc, i, seq!["SYMBOL-WINDOW", "GD-SYMBOL-WINDOW"], 1)
    &&& p.symbol_window_idle_phase == xml::number_or(doc, i, seq!["SYMBOL-WINDOW-IDLE-PHASE", "GD-SYMBOL-WINDOW-IDLE-PHASE"], 1)
    &&& p.offset_correction_start == xml::number_or(doc, i, seq!["OFFSET-CORRECTION-START", "G-OFFSET-CORRECTION-START"], 233)
    &&& extras_stated(p, doc, i)
}

/// The cycle time of an ARXML cluster: in macroticks, or in ms.
pub open spec fn arxml_cycle_time(c: FrCycleTime, doc: Seq<XmlNode>, i: int) -> bool {
    let ticks = xml::number_under(doc, i, seq!["FLEXRAY-CYCLE", "GD-CYCLE"]);
    let ms = fr_text::real_under(doc, i, seq!["FLEXRAY-CYCLE-TIME-MS"]);
    if ticks is Some {
        c matches FrCycleTime::Macroticks(n) && n == ticks->0
    } else if ms is Some {
        c matches FrCycleTime::Millis(t) && t@ == ms->0
    } else {
        c is Unstated
    }
}

/// The macrotick of an ARXML cluster.
pub open spec fn arxml_macrotick(m: FrMacrotick, doc: Seq<XmlNode>, i: int) -> bool {
    match fr_text::real_under(
        doc,
        i,
        seq!["FLEXRAY-GD-MACROTICK-DURATION", "GD-MACROTICK-DURATION"],
    ) {
        Some(v) => m matches FrMacrotick::Micros(t) && t@ == v,
        None => m is Unstated,
    }
}

/// The parameters that the ARXML cluster element `i` states. The cycle in
/// macroticks goes before the tag of its own.
pub open spec fn is_arxml_params(p: FrClusterParams, doc: Seq<XmlNode>, i: int) -> bool {
    let ticks = xml::number_under(doc, i, seq!["FLEXRAY-CYCLE", "GD-CYCLE"]);
    &&& p.name@ == xml::name_of(doc, i)
    &&& p.speed_kbps == 10000
    &&& arxml_cycle_time(p.cycle_time, doc, i)
    &&& arxml_macrotick(p.macrotick, doc, i)
    &&& xml::is_number(
        p.g_macro_per_cycle,
        if ticks is Some {
            ticks
        } else {
            xml::number_under(doc, i, seq!["MACRO-PER-CYCLE", "G-MACRO-PER-CYCLE"])
        },
    )
    &&& p.coldstart_attempts == xml::number_or(doc, i, seq!["FLEXRAY-COLDSTART-ATTEMPTS", "GD-COLDSTART-ATTEMPTS"], 8)
    &&& p.action_point_offset == xml::number_or(doc, i, seq!["FLEXRAY-GD-ACTION-POINT-OFFSET"], 3)
    &&& p.minislot_action_point_offset == xml::number_or(doc, i, seq!["FLEXRAY-GD-MINISLOT-ACTION-POINT-OFFSET"], 2)
    &&& p.dynamic_slot_idle_phase == xml::number_or(doc, i, seq!["FLEXRAY-GD-DYNAMIC-SLOT-IDLE-PHASE"], 1)
    &&& p.minor_version == xml::number_or(doc, i, seq!["FLEXRAY-GD-MINOR-VERSION"], 3)
    &&& p.network_idle_time == xml::number_or(doc, i, seq!["FLEXRAY-GD-NIT", "FLEXRAY-NETWORK-IDLE-TIME"], 75)
    &&& p.number_of_minislots == xml::number_or(doc, i, seq!["FLEXRAY-G-NUMBER-OF-MINISLOTS", "G-NUMBER-OF-MINISLOTS"], 292)
    &&& p.number_of_static_slots == xml::number_or(doc, i, seq!["FLEXRAY-G-NUMBER-OF-STATIC-SLOTS", "G-NUMBER-OF-STATIC-SLOTS"], 10)
    &&& p.minislot_duration == xml::number_or(doc, i, seq!["FLEXRAY-GD-MINISLOT"], 9)
    &&& p.static_slot_duration == xml::number_or(doc, i, seq!["FLEXRAY-GD-STATIC-SLOT"], 67)
    &&& p.symbol_window == xml::number_or(doc, i, seq!["FLEXRAY-GD-SYMBOL-WINDOW"], 1)
    &&& p.symbol_window_idle_phase == xml::number_or(doc, i, seq!["FLEXRAY-GD-SYMBOL-WINDOW-IDLE-PHASE"], 1)
    &&& p.offset_correction_start == xml::number_or(doc, i, seq!["FLEXRAY-OFFSET-CORRECTION-START", "G-OFFSET-CORRECTION-START"], 233)
    &&& extras_stated(p, doc, i)
}

fn real_or_zero(t: Option<String>) -> (r: String)
    ensures
        r@ == (match t {
            Some(s) => s@,
            None => "0"@,
        }),
{
    match t {
        Some(s) => s,
        None => "0".to_owned(),
    }
}

/// The extra driver-oriented cluster fields, shared by both dialects. An absent
/// tag means zero.
fn fill_extra_params(p: FrClusterParams, doc: &Vec<XmlNode>, i: usize) -> (r: FrClusterParams)
    requires
        i < doc@.len(),
    ensures
        extras_stated(r, doc@, i as int),
        xml::is_number(
            r.g_macro_per_cycle,
            if p.g_macro_per_cycle is Some {
                Some(p.g_macro_per_cycle->0 as nat)
            } else {
                xml::number_under(doc@, i as int, seq!["MACRO-PER-CYCLE", "G-MACRO-PER-CYCLE"])
            },
        ),
        r.name == p.name,
        r.speed_kbps == p.speed_kbps,
        r.cycle_time == p.cycle_time,
        r.macrotick == p.macrotick,
        r.coldstart_attempts == p.coldstart_attempts,
        r.action_point_offset == p.action_point_offset,
        r.minislot_action_point_offset == p.minislot_action_point_offset,
        r.dynamic_slot_idle_phase == p.dynamic_slot_idle_phase,
        r.minor_version == p.minor_version,
        r.network_idle_time == p.network_idle_time,
        r.number_of_minislots == p.number_of_minislots,
        r.number_of_static_slots == p.number_of_static_slots,
        r.minislot_duration == p.minislot_duration,
        r.static_slot_duration == p.static_slot_duration,
        r.symbol_window == p.symbol_window,
        r.symbol_window_idle_phase == p.symbol_window_idle_phase,
        r.offset_correction_start == p.offset_correction_start,
{
    let allow_halt: Option<u32> = xml::u32_of(
        doc,
        i,
        &xml::tags2("ALLOW-HALT-DUE-TO-CLOCK", "P-ALLOW-HALT-DUE-TO-CLOCK"),
    );
    let macros: Option<u32> = match p.g_macro_per_cycle {
        Some(v) => Some(v),
        None => xml::u32_of(doc, i, &xml::tags2("MACRO-PER-CYCLE", "G-MACRO-PER-CYCLE")),
    };
    FrClusterParams {
        name: p.name,
        speed_kbps: p.speed_kbps,
        cycle_time: p.cycle_time,
        macrotick: p.macrotick,
        coldstart_attempts: p.coldstart_attempts,
        action_point_offset: p.action_point_offset,
        minislot_action_point_offset: p.minislot_action_point_offset,
        dynamic_slot_idle_phase: p.dynamic_slot_idle_phase,
        minor_version: p.minor_version,
        network_idle_time: p.network_idle_time,
        number_of_minislots: p.number_of_minislots,
        number_of_static_slots: p.number_of_static_slots,
        minislot_duration: p.minislot_duration,
        static_slot_duration: p.static_slot_duration,
        symbol_window: p.symbol_window,
        symbol_window_idle_phase: p.symbol_window_idle_phase,
        offset_correction_start: p.offset_correction_start,
        g_macro_per_cycle: macros,
        sample_clock_period_us: real_or_zero(
            fr_text::real_of(doc, i, &xml::tags2("SAMPLE-CLOCK-PERIOD", "P-SAMPLE-CLOCK-PERIOD")),
        ),
        p_allow_halt_due_to_clock: match allow_halt {
            Some(v) => v == 1,
            None => false,
        },
        payload_length_static: xml::u32_or(doc, i, &xml::tags3("PAYLOAD-LENGTH-STATIC", "G-PAYLOAD-LENGTH-STATIC", "FLEXRAY-G-PAYLOAD-LENGTH-STATIC"), 0),
        g_micro_per_cycle: xml::u32_or(doc, i, &xml::tags2("MICRO-PER-CYCLE", "G-MICRO-PER-CYCLE"), 0),
        p_samples_per_microtick: xml::u32_or(doc, i, &xml::tags2("SAMPLES-PER-MICROTICK", "P-SAMPLES-PER-MICROTICK"), 0),
        gd_cas_rx_low_max: xml::u32_or(doc, i, &xml::tags2("CAS-RX-LOW-MAX", "GD-CAS-RX-LOW-MAX"), 0),
        g_sync_node_max: xml::u32_or(doc, i, &xml::tags2("SYNC-NODE-MAX", "G-SYNC-NODE-MAX"), 0),
        g_listen_noise: xml::u32_or(doc, i, &xml::tags2("LISTEN-NOISE", "G-LISTEN-NOISE"), 0),
        g_network_management_vector_length: xml::u32_or(doc, i, &xml::tags2("NETWORK-MANAGEMENT-VECTOR-LENGTH", "G-NETWORK-MANAGEMENT-VECTOR-LENGTH"), 0),
        g_max_without_clock_correction_fatal: xml::u32_or(doc, i, &xml::tags2("MAX-WITHOUT-CLOCK-CORRECTION-FATAL", "G-MAX-WITHOUT-CLOCK-CORRECTION-FATAL"), 0),
        g_max_without_clock_correction_passive: xml::u32_or(doc, i, &xml::tags2("MAX-WITHOUT-CLOCK-CORRECTION-PASSIVE", "G-MAX-WITHOUT-CLOCK-CORRECTION-PASSIVE"), 0),
        gd_tss_transmitter: xml::u32_or(doc, i, &xml::tags2("T-S-S-TRANSMITTER", "GD-TSS-TRANSMITTER"), 0),
        p_cluster_drift_damping: xml::u32_or(doc, i, &xml::tags2("CLUSTER-DRIFT-DAMPING", "P-CLUSTER-DRIFT-DAMPING"), 0),
        p_decoding_correction: xml::u32_or(doc, i, &xml::tags2("DECODING-CORRECTION", "P-DECODING-CORRECTION"), 0),
        p_delay_compensation_a: xml::u32_or(doc, i, &xml::tags2("DELAY-COMPENSATION-A", "P-DELAY-COMPENSATION-A"), 0),
        p_delay_compensation_b: xml::u32_or(doc, i, &xml::tags2("DELAY-COMPENSATION-B", "P-DELAY-COMPENSATION-B"), 0),
        p_extern_offset_correction: xml::u32_or(doc, i, &xml::tags2("EXTERN-OFFSET-CORRECTION", "P-EXTERN-OFFSET-CORRECTION"), 0),
        p_extern_rate_correction: xml::u32_or(doc, i, &xml::tags2("EXTERN-RATE-CORRECTION", "P-EXTERN-RATE-CORRECTION"), 0),
        p_latest_tx: xml::u32_or(doc, i, &xml::tags2("LATEST-TX", "P-LATEST-TX"), 0),
        p_macro_initial_offset_a: xml::u32_or(doc, i, &xml::tags2("MACRO-INITIAL-OFFSET-A", "P-MACRO-INITIAL-OFFSET-A"), 0),
        p_macro_initial_offset_b: xml::u32_or(doc, i, &xml::tags2("MACRO-INITIAL-OFFSET-B", "P-MACRO-INITIAL-OFFSET-B"), 0),
        p_micro_initial_offset_a: xml::u32_or(doc, i, &xml::tags2("MICRO-INITIAL-OFFSET-A", "P-MICRO-INITIAL-OFFSET-A"), 0),
        p_micro_initial_offset_b: xml::u32_or(doc, i, &xml::tags2("MICRO-INITIAL-OFFSET-B", "P-MICRO-INITIAL-OFFSET-B"), 0),
        p_offset_correction_out: xml::u32_or(doc, i, &xml::tags2("OFFSET-CORRECTION-OUT", "P-OFFSET-CORRECTION-OUT"), 0),
        p_rate_correction_out: xml::u32_or(doc, i, &xml::tags2("RATE-CORRECTION-OUT", "P-RATE-CORRECTION-OUT"), 0),
        p_allow_passive_to_active: xml::u32_or(doc, i, &xml::tags2("ALLOW-PASSIVE-TO-ACTIVE", "P-ALLOW-PASSIVE-TO-ACTIVE"), 0),
        p_key_slot_used_for_startup: xml::u32_or(doc, i, &xml::tags2("KEY-SLOT-USED-FOR-STARTUP", "P-KEY-SLOT-USED-FOR-STARTUP"), 0),
        p_key_slot_used_for_sync: xml::u32_or(doc, i, &xml::tags2("KEY-SLOT-USED-FOR-SYNC", "P-KEY-SLOT-USED-FOR-SYNC"), 0),
        p_single_slot_enabled: xml::u32_or(doc, i, &xml::tags2("SINGLE-SLOT-ENABLED", "P-SINGLE-SLOT-ENABLED"), 0),
        p_wakeup_channel: xml::u32_or(doc, i, &xml::tags2("WAKEUP-CHANNEL", "P-WAKEUP-CHANNEL"), 0),
        p_wakeup_pattern: xml::u32_or(doc, i, &xml::tags2("WAKEUP-PATTERN", "P-WAKEUP-PATTERN"), 0),
        pd_accepted_startup_range: xml::u32_or(doc, i, &xml::tags2("ACCEPTED-STARTUP-RANGE", "PD-ACCEPTED-STARTUP-RANGE"), 0),
        pd_listen_timeout: xml::u32_or(doc, i, &xml::tags2("LISTEN-TIMEOUT", "PD-LISTEN-TIMEOUT"), 0),
        pd_max_drift: xml::u32_or(doc, i, &xml::tags2("MAX-DRIFT", "PD-MAX-DRIFT"), 0),
        p_micro_per_macro_nom: 0,
        pd_microtick: 0,
        g_channels: 0,
        p_channels: 0,
    }
}

/// The parameters of a database that states none.
pub fn default_cluster_params() -> (p: FrClusterParams)
    ensures
        is_default(p),
{
    FrClusterParams {
        name: "".to_owned(),
        speed_kbps: 10000,
        cycle_time: FrCycleTime::Unstated,
        macrotick: FrMacrotick::Unstated,
        coldstart_attempts: 8,
        action_point_offset: 3,
        minislot_action_point_offset: 2,
        dynamic_slot_idle_phase: 1,
        minor_version: 3,
        network_idle_time: 75,
        number_of_minislots: 292,
        number_of_static_slots: 10,
        minislot_duration: 9,
        static_slot_duration: 67,
        symbol_window: 1,
        symbol_window_idle_phase: 1,
        offset_correction_start: 233,
        g_macro_per_cycle: None,
        sample_clock_period_us: "0".to_owned(),
        p_allow_halt_due_to_clock: false,
        payload_length_static: 0,
        g_micro_per_cycle: 0,
        p_samples_per_microtick: 0,
        gd_cas_rx_low_max: 0,
        g_sync_node_max: 0,
        g_listen_noise: 0,
        g_network_management_vector_length: 0,
        g_max_without_clock_correction_fatal: 0,
        g_max_without_clock_correction_passive: 0,
        gd_tss_transmitter: 0,
        p_cluster_drift_damping: 0,
        p_decoding_correction: 0,
        p_delay_compensation_a: 0,
        p_delay_compensation_b: 0,
        p_extern_offset_correction: 0,
        p_extern_rate_correction: 0,
        p_latest_tx: 0,
        p_macro_initial_offset_a: 0,
        p_macro_initial_offset_b: 0,
        p_micro_initial_offset_a: 0,
        p_micro_initial_offset_b: 0,
        p_offset_correction_out: 0,
        p_rate_correction_out: 0,
        p_allow_passive_to_active: 0,
        p_key_slot_used_for_startup: 0,
        p_key_slot_used_for_sync: 0,
        p_single_slot_enabled: 0,
        p_wakeup_channel: 0,
        p_wakeup_pattern: 0,
        pd_accepted_startup_range: 0,
        pd_listen_timeout: 0,
        pd_max_drift: 0,
        p_micro_per_macro_nom: 0,
        pd_microtick: 0,
        g_channels: 0,
        p_channels: 0,
    }
}

/// Reads the parameters of a FIBEX cluster.
pub fn fibex_params(doc: &Vec<XmlNode>, i: usize) -> (p: FrClusterParams)
    requires
        i < doc@.len(),
    ensures
        is_fibex_params(p, doc@, i as int),
{
    let ms: Option<String> = fr_text::real_of(
        doc,
        i,
        &xml::tags3("CYCLE-TIME-ms", "CYCLE-TIME-MS", "CYCLE-TIME"),
    );
    let cycle_time: FrCycleTime = match ms {
        Some(t) => FrCycleTime::Millis(t),
        None => match fr_text::real_of(doc, i, &xml::tags1("CYCLE")) {
            Some(t) => FrCycleTime::Micros(t),
            None => FrCycleTime::Unstated,
        },
    };
    let tick: Option<String> = fr_text::real_of(
        doc,
        i,
        &xml::tags3("MACROTICK", "MACROTICK-DURATION", "GD-MACROTICK-DURATION"),
    );
    let speed: u32 = match xml::u32_of(doc, i, &xml::tags1("SPEED")) {
        Some(v) => if v >= 100_000 { v / 1000 } else { v },
        None => 10000,
    };
    let base: FrClusterParams = default_cluster_params();
    let core: FrClusterParams = FrClusterParams {
        name: xml::short_name(doc, i),
        speed_kbps: speed,
        cycle_time,
        macrotick: match tick {
            Some(t) => FrMacrotick::Guessed(t),
            None => FrMacrotick::Unstated,
        },
        coldstart_attempts: xml::u32_or(doc, i, &xml::tags4("COLD-START-ATTEMPTS", "COLDSTART-ATTEMPTS", "GD-COLDSTART-ATTEMPTS", "G-COLDSTART-ATTEMPTS"), 8),
        action_point_offset: xml::u32_or(doc, i, &xml::tags2("ACTION-POINT-OFFSET", "GD-ACTION-POINT-OFFSET"), 3),
        minislot_action_point_offset: xml::u32_or(doc, i, &xml::tags2("MINISLOT-ACTION-POINT-OFFSET", "GD-MINISLOT-ACTION-POINT-OFFSET"), 2),
        dynamic_slot_idle_phase: xml::u32_or(doc, i, &xml::tags2("DYNAMIC-SLOT-IDLE-PHASE", "GD-DYNAMIC-SLOT-IDLE-PHASE"), 1),
        minor_version: xml::u32_or(doc, i, &xml::tags2("MINOR-VERSION", "GD-MINOR-VERSION"), 3),
        network_idle_time: xml::u32_or(doc, i, &xml::tags4("NETWORK-IDLE-TIME", "N-I-T", "NIT", "GD-NIT"), 75),
        number_of_minislots: xml::u32_or(doc, i, &xml::tags2("NUMBER-OF-MINISLOTS", "G-NUMBER-OF-MINISLOTS"), 292),
        number_of_static_slots: xml::u32_or(doc, i, &xml::tags2("NUMBER-OF-STATIC-SLOTS", "G-NUMBER-OF-STATIC-SLOTS"), 10),
        minislot_duration: xml::u32_or(doc, i, &xml::tags3("MINISLOT-DURATION", "GD-MINISLOT", "MINISLOT"), 9),
        static_slot_duration: xml::u32_or(doc, i, &xml::tags3("STATIC-SLOT-DURATION", "GD-STATIC-SLOT", "STATIC-SLOT"), 67),
        symbol_window: xml::u32_or(doc, i, &xml::tags2("SYMBOL-WINDOW", "GD-SYMBOL-WINDOW"), 1),
        symbol_window_idle_phase: xml::u32_or(doc, i, &xml::tags2("SYMBOL-WINDOW-IDLE-PHASE", "GD-SYMBOL-WINDOW-IDLE-PHASE"), 1),
        offset_correction_start: xml::u32_or(doc, i, &xml::tags2("OFFSET-CORRECTION-START", "G-OFFSET-CORRECTION-START"), 233),
        ..base
    };
    fill_extra_params(core, doc, i)
}

/// Reads the parameters of an ARXML cluster.
pub fn arxml_params(doc: &Vec<XmlNode>, i: usize) -> (p: FrClusterParams)
    requires
        i < doc@.len(),
    ensures
        is_arxml_params(p, doc@, i as int),
{
    let ticks: Option<u32> = xml::u32_of(doc, i, &xml::tags2("FLEXRAY-CYCLE", "GD-CYCLE"));
    let cycle_time: FrCycleTime = match ticks {
        Some(n) => FrCycleTime::Macroticks(n),
        None => match fr_text::real_of(doc, i, &xml::tags1("FLEXRAY-CYCLE-TIME-MS")) {
            Some(t) => FrCycleTime::Millis(t),
            None => FrCycleTime::Unstated,
        },
    };
    let tick: Option<String> = fr_text::real_of(
        doc,
        i,
        &xml::tags2("FLEXRAY-GD-MACROTICK-DURATION", "GD-MACROTICK-DURATION"),
    );
    let base: FrClusterParams = default_cluster_params();
    let core: FrClusterParams = FrClusterParams {
        name: xml::short_name(doc, i),
        cycle_time,
        macrotick: match tick {
            Some(t) => FrMacrotick::Micros(t),
            None => FrMacrotick::Unstated,
        },
        g_macro_per_cycle: ticks,
        coldstart_attempts: xml::u32_or(doc, i, &xml::tags2("FLEXRAY-COLDSTART-ATTEMPTS", "GD-COLDSTART-ATTEMPTS"), 8),
        action_point_offset: xml::u32_or(doc, i, &xml::tags1("FLEXRAY-GD-ACTION-POINT-OFFSET"), 3),
        minislot_action_point_offset: xml::u32_or(doc, i, &xml::tags1("FLEXRAY-GD-MINISLOT-ACTION-POINT-OFFSET"), 2),
        dynamic_slot_idle_phase: xml::u32_or(doc, i, &xml::tags1("FLEXRAY-GD-DYNAMIC-SLOT-IDLE-PHASE"), 1),
        minor_version: xml::u32_or(doc, i, &xml::tags1("FLEXRAY-GD-MINOR-VERSION"), 3),
        network_idle_time: xml::u32_or(doc, i, &xml::tags2("FLEXRAY-GD-NIT", "FLEXRAY-NETWORK-IDLE-TIME"), 75),
        number_of_minislots: xml::u32_or(doc, i, &xml::tags2("FLEXRAY-G-NUMBER-OF-MINISLOTS", "G-NUMBER-OF-MINISLOTS"), 292),
        number_of_static_slots: xml::u32_or(doc, i, &xml::tags2("FLEXRAY-G-NUMBER-OF-STATIC-SLOTS", "G-NUMBER-OF-STATIC-SLOTS"), 10),
        minislot_duration: xml::u32_or(doc, i, &xml::tags1("FLEXRAY-GD-MINISLOT"), 9),
        static_slot_duration: xml::u32_or(doc, i, &xml::tags1("FLEXRAY-GD-STATIC-SLOT"), 67),
        symbol_window: xml::u32_or(doc, i, &xml::tags1("FLEXRAY-GD-SYMBOL-WINDOW"), 1),
        symbol_window_idle_phase: xml::u32_or(doc, i, &xml::tags1("FLEXRAY-GD-SYMBOL-WINDOW-IDLE-PHASE"), 1),
        offset_correction_start: xml::u32_or(doc, i, &xml::tags2("FLEXRAY-OFFSET-CORRECTION-START", "G-OFFSET-CORRECTION-START"), 233),
        ..base
    };
    fill_extra_params(core, doc, i)
}

} // verus!
