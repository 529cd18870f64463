use asound_conf_wizard::audio::{Direction, SampleFormat};
use asound_conf_wizard::backend::{Backend, PcmInfo};
use asound_conf_wizard::capability::{linear_scan, probe_axis, CapabilitySet};
use asound_conf_wizard::pcm::{AlsaPcm, Identity, ValidConfiguration};
use asound_conf_wizard::policy::{
    is_ascending, is_formats_ascending, Axis, ProbePolicy, MAX_ENTRIES,
};
use asound_conf_wizard::search::{search, Combination};
use asound_conf_wizard::session::{BoundsQuery, Trial};
use std::cell::RefCell;

fn info() -> Option<PcmInfo> {
    Some(PcmInfo {
        description: String::from("Mock Analog"),
        device_number: 3,
        sub_device_number: 1,
        software_mixable: true,
        has_builtin_mixer: false,
    })
}

/// A small policy: ceiling 4, rates 1..=100 by default, channels 1..=20.
fn small_policy() -> ProbePolicy {
    ProbePolicy::new(
        vec![SampleFormat::S16, SampleFormat::S24, SampleFormat::S32],
        4,
        (1, 100),
        (10, 50),
        vec![20, 30, 40],
        (1, 20),
        (1, 8),
        vec![1, 2, 6],
    )
    .unwrap()
}

fn among(value: Option<u32>, accepted: &[u32]) -> bool {
    match value {
        None => true,
        Some(v) => accepted.contains(&v),
    }
}

fn format_among(value: Option<SampleFormat>, accepted: &[SampleFormat]) -> bool {
    match value {
        None => true,
        Some(f) => accepted.contains(&f),
    }
}

#[test]
fn the_standard_policy_holds_the_documented_constants() {
    let p = ProbePolicy::standard();
    assert_eq!(
        *p.formats(),
        vec![
            SampleFormat::U8,
            SampleFormat::S16,
            SampleFormat::S24Packed,
            SampleFormat::S24,
            SampleFormat::S32
        ]
    );
    assert_eq!(p.ceiling(), 100);
    assert_eq!(MAX_ENTRIES, 100);
    assert_eq!(
        *p.fallback(Axis::Rate),
        vec![
            8000, 11025, 16000, 22050, 32000, 44100, 48000, 64000, 88200, 96000, 176400, 192000,
            352800, 384000, 705600, 768000
        ]
    );
    assert_eq!(*p.fallback(Axis::Channels), vec![1, 2, 3, 4, 5, 6, 7, 8, 9, 10, 11, 12]);
}

#[test]
fn the_range_to_scan_is_the_reply_cut_to_the_limits() {
    let p = ProbePolicy::standard();
    assert_eq!(p.range(Axis::Rate, None), (8000, 768000));
    assert_eq!(p.range(Axis::Rate, Some((44100, 48000))), (44100, 48000));
    assert_eq!(p.range(Axis::Rate, Some((1, 4000000))), (3000, 768000));
    assert_eq!(p.range(Axis::Rate, Some((900000, 1000000))), (900000, 768000));
    assert_eq!(p.range(Axis::Channels, None), (1, 255));
    assert_eq!(p.range(Axis::Channels, Some((0, 10000))), (1, 255));
    assert_eq!(p.range(Axis::Channels, Some((2, 8))), (2, 8));
}

#[test]
fn a_policy_must_be_well_formed() {
    let make = |formats: Vec<SampleFormat>, ceiling: usize, rates: Vec<u32>, channels: Vec<u32>| {
        ProbePolicy::new(formats, ceiling, (1, 100), (1, 100), rates, (1, 8), (1, 8), channels)
            .is_some()
    };
    assert!(make(vec![SampleFormat::S16], 2, vec![10, 20], vec![1, 2]));
    assert!(make(vec![], 1, vec![], vec![]));
    // Formats out of canonical order, or twice.
    assert!(!make(vec![SampleFormat::S32, SampleFormat::S16], 2, vec![10], vec![1]));
    assert!(!make(vec![SampleFormat::S16, SampleFormat::S16], 2, vec![10], vec![1]));
    // Candidates not strictly increasing.
    assert!(!make(vec![SampleFormat::S16], 2, vec![20, 10], vec![1]));
    assert!(!make(vec![SampleFormat::S16], 2, vec![10], vec![2, 2]));
    // More candidates than the ceiling allows.
    assert!(!make(vec![SampleFormat::S16], 2, vec![10, 20, 30], vec![1]));
    assert!(!make(vec![SampleFormat::S16], 2, vec![10], vec![1, 2, 3]));
    // A ceiling of nothing.
    assert!(!make(vec![SampleFormat::S16], 0, vec![], vec![]));
}

#[test]
fn ascending_means_strictly_increasing() {
    assert!(is_ascending(&vec![]));
    assert!(is_ascending(&vec![5]));
    assert!(is_ascending(&vec![1, 2, 9]));
    assert!(!is_ascending(&vec![1, 1]));
    assert!(!is_ascending(&vec![1, 3, 2]));
    assert!(is_formats_ascending(&vec![SampleFormat::U8, SampleFormat::S24Packed]));
    assert!(!is_formats_ascending(&vec![SampleFormat::S24, SampleFormat::S24Packed]));
}

#[test]
fn a_scan_keeps_the_accepted_values_in_order() {
    let backend = Backend {
        describe: |_: &str, _: Direction| info(),
        bounds: |_: &str, _: Direction, _: BoundsQuery| None,
        trial: |_: &str, _: Direction, t: Trial| among(t.rate, &[12, 17, 30]),
    };
    let scan = linear_scan(&backend, "hw:0", Direction::Playback, Axis::Rate, 10, 20, 4);
    assert_eq!(scan.values, vec![12, 17]);
    assert!(!scan.overflow);
}

#[test]
fn a_scan_is_given_up_when_the_ceiling_is_reached() {
    let asked: RefCell<Vec<u32>> = RefCell::new(Vec::new());
    let backend = Backend {
        describe: |_: &str, _: Direction| info(),
        bounds: |_: &str, _: Direction, _: BoundsQuery| None,
        trial: |_: &str, _: Direction, t: Trial| {
            asked.borrow_mut().push(t.channels.unwrap());
            true
        },
    };
    let scan = linear_scan(&backend, "hw:0", Direction::Capture, Axis::Channels, 1, 20, 4);
    assert_eq!(scan.values, vec![1, 2, 3, 4]);
    assert!(scan.overflow);
    assert_eq!(*asked.borrow(), vec![1, 2, 3, 4]);
}

#[test]
fn a_scan_of_an_empty_range_finds_nothing() {
    let backend = Backend {
        describe: |_: &str, _: Direction| info(),
        bounds: |_: &str, _: Direction, _: BoundsQuery| None,
        trial: |_: &str, _: Direction, _: Trial| true,
    };
    let scan = linear_scan(&backend, "hw:0", Direction::Playback, Axis::Rate, 20, 10, 4);
    assert!(scan.values.is_empty());
    assert!(!scan.overflow);
}

#[test]
fn a_scan_reaches_the_highest_number() {
    let backend = Backend {
        describe: |_: &str, _: Direction| info(),
        bounds: |_: &str, _: Direction, _: BoundsQuery| None,
        trial: |_: &str, _: Direction, t: Trial| t.rate == Some(u32::MAX),
    };
    let scan = linear_scan(
        &backend,
        "hw:0",
        Direction::Playback,
        Axis::Rate,
        u32::MAX - 2,
        u32::MAX,
        4,
    );
    assert_eq!(scan.values, vec![u32::MAX]);
    assert!(!scan.overflow);
}

#[test]
fn a_scan_puts_each_value_to_the_backend_by_itself() {
    let seen: RefCell<Vec<Trial>> = RefCell::new(Vec::new());
    let backend = Backend {
        describe: |_: &str, _: Direction| info(),
        bounds: |_: &str, _: Direction, _: BoundsQuery| None,
        trial: |_: &str, _: Direction, t: Trial| {
            seen.borrow_mut().push(t);
            false
        },
    };
    linear_scan(&backend, "hw:0", Direction::Playback, Axis::Rate, 7, 8, 4);
    linear_scan(&backend, "hw:0", Direction::Playback, Axis::Channels, 2, 2, 4);
    let blank = Trial { format: None, rate: None, channels: None, timing: None, commit: false };
    assert_eq!(
        *seen.borrow(),
        vec![
            Trial { rate: Some(7), ..blank },
            Trial { rate: Some(8), ..blank },
            Trial { channels: Some(2), ..blank },
        ]
    );
}

#[test]
fn probing_a_parameter_of_real_hardware_keeps_the_scan() {
    let backend = Backend {
        describe: |_: &str, _: Direction| info(),
        bounds: |_: &str, _: Direction, q: BoundsQuery| match q {
            BoundsQuery::Rate => Some((0, 60)),
            _ => None,
        },
        trial: |_: &str, _: Direction, t: Trial| among(t.rate, &[5, 44, 48, 61, 99]),
    };
    let report = probe_axis(&small_policy(), &backend, "hw:0", Direction::Playback, Axis::Rate);
    assert_eq!(report.values, vec![5, 44, 48]);
    assert!(report.real_hardware);
}

#[test]
fn probing_without_reported_bounds_scans_the_default_range() {
    let backend = Backend {
        describe: |_: &str, _: Direction| info(),
        bounds: |_: &str, _: Direction, _: BoundsQuery| None,
        trial: |_: &str, _: Direction, t: Trial| among(t.rate, &[5, 10, 50, 51]),
    };
    let report = probe_axis(&small_policy(), &backend, "hw:0", Direction::Playback, Axis::Rate);
    assert_eq!(report.values, vec![10, 50]);
    assert!(report.real_hardware);
}

#[test]
fn reaching_the_ceiling_falls_back_to_the_curated_candidates() {
    let backend = Backend {
        describe: |_: &str, _: Direction| info(),
        bounds: |_: &str, _: Direction, _: BoundsQuery| Some((1, 100)),
        trial: |_: &str, _: Direction, t: Trial| among(t.rate, &[11, 12, 13, 14, 20, 40, 41]),
    };
    let report = probe_axis(&small_policy(), &backend, "hw:0", Direction::Playback, Axis::Rate);
    assert_eq!(report.values, vec![20, 40]);
    assert!(!report.real_hardware);
}

#[test]
fn one_value_short_of_the_ceiling_is_still_real_hardware() {
    let backend = Backend {
        describe: |_: &str, _: Direction| info(),
        bounds: |_: &str, _: Direction, _: BoundsQuery| Some((1, 100)),
        trial: |_: &str, _: Direction, t: Trial| among(t.channels, &[1, 2, 4]),
    };
    let report = probe_axis(&small_policy(), &backend, "hw:0", Direction::Playback, Axis::Channels);
    assert_eq!(report.values, vec![1, 2, 4]);
    assert!(report.real_hardware);
}

#[test]
fn a_converting_endpoint_never_shows_more_than_the_ceiling() {
    let backend = Backend {
        describe: |_: &str, _: Direction| info(),
        bounds: |_: &str, _: Direction, _: BoundsQuery| None,
        trial: |_: &str, _: Direction, _: Trial| true,
    };
    let policy = small_policy();
    for axis in [Axis::Rate, Axis::Channels] {
        let report = probe_axis(&policy, &backend, "hw:0", Direction::Playback, axis);
        assert!(!report.real_hardware);
        assert!(report.values.len() <= policy.ceiling());
        assert_eq!(report.values, *policy.fallback(axis));
    }
}

#[test]
fn capabilities_of_an_endpoint() {
    let backend = Backend {
        describe: |_: &str, _: Direction| info(),
        bounds: |_: &str, _: Direction, _: BoundsQuery| None,
        trial: |_: &str, _: Direction, t: Trial| {
            format_among(t.format, &[SampleFormat::S16, SampleFormat::S32, SampleFormat::U8])
                && among(t.rate, &[44, 48])
                && among(t.channels, &[2])
        },
    };
    let (caps, real) = CapabilitySet::probe(&small_policy(), &backend, "hw:0", Direction::Playback);
    assert_eq!(*caps.formats(), vec![SampleFormat::S16, SampleFormat::S32]);
    assert_eq!(*caps.rates(), vec![44, 48]);
    assert_eq!(*caps.channels(), vec![2]);
    assert!(real);
}

#[test]
fn without_a_format_nothing_else_is_probed() {
    let asked: RefCell<u32> = RefCell::new(0);
    let backend = Backend {
        describe: |_: &str, _: Direction| info(),
        bounds: |_: &str, _: Direction, _: BoundsQuery| {
            *asked.borrow_mut() += 1;
            None
        },
        trial: |_: &str, _: Direction, t: Trial| t.format.is_none(),
    };
    let (caps, real) = CapabilitySet::probe(&small_policy(), &backend, "hw:0", Direction::Playback);
    assert!(caps.formats().is_empty());
    assert!(caps.rates().is_empty());
    assert!(caps.channels().is_empty());
    assert!(real);
    assert_eq!(*asked.borrow(), 0);
}

#[test]
fn filtering_keeps_what_some_combination_uses() {
    let backend = Backend {
        describe: |_: &str, _: Direction| info(),
        bounds: |_: &str, _: Direction, _: BoundsQuery| None,
        trial: |_: &str, _: Direction, t: Trial| among(t.rate, &[44, 48]) && among(t.channels, &[1, 2]),
    };
    let (caps, _) = CapabilitySet::probe(&small_policy(), &backend, "hw:0", Direction::Playback);
    assert_eq!(
        *caps.formats(),
        vec![SampleFormat::S16, SampleFormat::S24, SampleFormat::S32]
    );
    let found = vec![
        Combination { format: SampleFormat::S16, rate: 48, channels: 2 },
        Combination { format: SampleFormat::S32, rate: 48, channels: 2 },
    ];
    let kept = caps.filtered(&found);
    assert_eq!(*kept.formats(), vec![SampleFormat::S16, SampleFormat::S32]);
    assert_eq!(*kept.rates(), vec![48]);
    assert_eq!(*kept.channels(), vec![2]);
    let none = caps.filtered(&Vec::new());
    assert!(none.formats().is_empty() && none.rates().is_empty() && none.channels().is_empty());
}

/// The backend that accepts exactly S16, 44100 and 48000 Hz, and two
/// channels.
fn stereo_trial(t: Trial) -> bool {
    format_among(t.format, &[SampleFormat::S16])
        && among(t.rate, &[44100, 48000])
        && among(t.channels, &[2])
}

#[test]
fn the_search_yields_exactly_the_accepted_triples() {
    let backend = Backend {
        describe: |_: &str, _: Direction| info(),
        bounds: |_: &str, _: Direction, q: BoundsQuery| match q {
            BoundsQuery::Rate => Some((44000, 48100)),
            BoundsQuery::Channels => Some((1, 8)),
            _ => None,
        },
        trial: |_: &str, _: Direction, t: Trial| stereo_trial(t),
    };
    let policy = ProbePolicy::standard();
    let (caps, real) = CapabilitySet::probe(&policy, &backend, "hw:0", Direction::Playback);
    assert!(real);
    assert_eq!(*caps.formats(), vec![SampleFormat::S16]);
    assert_eq!(*caps.rates(), vec![44100, 48000]);
    assert_eq!(*caps.channels(), vec![2]);
    let found = search(&backend, "hw:0", Direction::Playback, &caps);
    assert_eq!(
        found,
        vec![
            Combination { format: SampleFormat::S16, rate: 44100, channels: 2 },
            Combination { format: SampleFormat::S16, rate: 48000, channels: 2 },
        ]
    );
}

#[test]
fn the_search_tries_values_together() {
    // Every value is accepted by itself, but 48 Hz only with S32 and six
    // channels only at 44 Hz.
    let together = |t: Trial| {
        let rate_ok = match (t.format, t.rate) {
            (Some(SampleFormat::S16), Some(48)) => false,
            _ => true,
        };
        let channels_ok = match (t.rate, t.channels) {
            (Some(48), Some(6)) => false,
            _ => true,
        };
        format_among(t.format, &[SampleFormat::S16, SampleFormat::S32])
            && among(t.rate, &[44, 48])
            && among(t.channels, &[2, 6])
            && rate_ok
            && channels_ok
    };
    let backend = Backend {
        describe: |_: &str, _: Direction| info(),
        bounds: |_: &str, _: Direction, _: BoundsQuery| None,
        trial: |_: &str, _: Direction, t: Trial| together(t),
    };
    let (caps, _) = CapabilitySet::probe(&small_policy(), &backend, "hw:0", Direction::Playback);
    let found = search(&backend, "hw:0", Direction::Playback, &caps);
    assert_eq!(
        found,
        vec![
            Combination { format: SampleFormat::S16, rate: 44, channels: 2 },
            Combination { format: SampleFormat::S16, rate: 44, channels: 6 },
            Combination { format: SampleFormat::S32, rate: 44, channels: 2 },
            Combination { format: SampleFormat::S32, rate: 44, channels: 6 },
            Combination { format: SampleFormat::S32, rate: 48, channels: 2 },
        ]
    );
}

#[test]
fn the_search_prunes_what_failed_alone() {
    let seen: RefCell<Vec<Trial>> = RefCell::new(Vec::new());
    let recording: RefCell<bool> = RefCell::new(false);
    let backend = Backend {
        describe: |_: &str, _: Direction| info(),
        bounds: |_: &str, _: Direction, _: BoundsQuery| None,
        trial: |_: &str, _: Direction, t: Trial| {
            if *recording.borrow() {
                seen.borrow_mut().push(t);
                // While searching, S24 fails alone and 48 Hz fails with S16.
                t.format != Some(SampleFormat::S24) && t.rate != Some(48)
            } else {
                format_among(t.format, &[SampleFormat::S16, SampleFormat::S24])
                    && among(t.rate, &[44, 48])
                    && among(t.channels, &[2])
            }
        },
    };
    let (caps, _) = CapabilitySet::probe(&small_policy(), &backend, "hw:0", Direction::Playback);
    *recording.borrow_mut() = true;
    let found = search(&backend, "hw:0", Direction::Playback, &caps);
    assert_eq!(found, vec![Combination { format: SampleFormat::S16, rate: 44, channels: 2 }]);
    let blank = Trial { format: None, rate: None, channels: None, timing: None, commit: false };
    let s16 = Trial { format: Some(SampleFormat::S16), ..blank };
    assert_eq!(
        *seen.borrow(),
        vec![
            s16,
            Trial { rate: Some(44), ..s16 },
            Trial { rate: Some(48), ..s16 },
            Trial { rate: Some(44), channels: Some(2), commit: true, ..s16 },
            Trial { format: Some(SampleFormat::S24), ..blank },
        ]
    );
}

fn identity() -> Identity {
    Identity {
        name: String::from("hw:CARD=Mock,DEV=3"),
        description: String::from("Mock Analog"),
        direction: Direction::Playback,
        card_name: String::from("Mock"),
        device_number: 3,
        sub_device_number: 1,
        software_mixable: true,
        has_builtin_mixer: false,
        is_real_hardware: true,
    }
}

#[test]
fn buffer_window_of_one_to_five_milliseconds() {
    let backend = Backend {
        describe: |_: &str, _: Direction| info(),
        bounds: |_: &str, _: Direction, q: BoundsQuery| match q {
            BoundsQuery::BufferTime { .. } => Some((1000, 5000)),
            _ => None,
        },
        trial: |_: &str, _: Direction, _: Trial| true,
    };
    let config = ValidConfiguration::new(identity(), SampleFormat::S16, 48000, 2, &backend);
    assert_eq!(config.window.min_us(), 1000);
    assert_eq!(config.window.max_us(), 5000);
    assert_eq!(config.buffer_time_ms, 2);
    assert_eq!(config.get_buffer_times_ms(&backend), vec![1, 2, 3, 4, 5]);
}

#[test]
fn buffer_times_are_tried_with_their_period_times() {
    let seen: RefCell<Vec<Trial>> = RefCell::new(Vec::new());
    let backend = Backend {
        describe: |_: &str, _: Direction| info(),
        bounds: |_: &str, _: Direction, _: BoundsQuery| Some((2000, 4000)),
        trial: |name: &str, d: Direction, t: Trial| {
            assert_eq!(name, "hw:CARD=Mock,DEV=3");
            assert_eq!(d, Direction::Playback);
            seen.borrow_mut().push(t);
            t.timing.map(|x| x.buffer_time_us) != Some(3000)
        },
    };
    let config = ValidConfiguration::new(identity(), SampleFormat::S24, 96000, 4, &backend);
    assert_eq!(config.get_buffer_times_ms(&backend), vec![2, 4]);
    let timings: Vec<(u32, u32)> = seen
        .borrow()
        .iter()
        .map(|t| {
            assert_eq!(t.format, Some(SampleFormat::S24));
            assert_eq!(t.rate, Some(96000));
            assert_eq!(t.channels, Some(4));
            assert!(t.commit);
            let timing = t.timing.unwrap();
            (timing.buffer_time_us, timing.period_time_us)
        })
        .collect();
    assert_eq!(timings, vec![(2000, 400), (3000, 600), (4000, 800)]);
}

#[test]
fn an_empty_list_of_buffer_times_is_no_error() {
    let backend = Backend {
        describe: |_: &str, _: Direction| info(),
        bounds: |_: &str, _: Direction, _: BoundsQuery| Some((10000, 20000)),
        trial: |_: &str, _: Direction, _: Trial| false,
    };
    let config = ValidConfiguration::new(identity(), SampleFormat::S16, 48000, 2, &backend);
    assert!(config.get_buffer_times_ms(&backend).is_empty());
    assert_eq!(config.buffer_time_ms, 10);
}

#[test]
fn the_configuration_asks_for_the_window_of_its_combination() {
    let asked: RefCell<Vec<BoundsQuery>> = RefCell::new(Vec::new());
    let backend = Backend {
        describe: |_: &str, _: Direction| info(),
        bounds: |_: &str, _: Direction, q: BoundsQuery| {
            asked.borrow_mut().push(q);
            None
        },
        trial: |_: &str, _: Direction, _: Trial| true,
    };
    let config = ValidConfiguration::new(identity(), SampleFormat::S32, 44100, 6, &backend);
    assert_eq!(
        *asked.borrow(),
        vec![BoundsQuery::BufferTime { format: SampleFormat::S32, rate: 44100, channels: 6 }]
    );
    assert_eq!(config.window.min_us(), 1000);
    assert_eq!(config.window.max_us(), 1000000);
    assert_eq!(config.buffer_time_ms, 500);
    assert_eq!(config.format, SampleFormat::S32);
    assert_eq!(config.rate, 44100);
    assert_eq!(config.channels, 6);
    assert_eq!(config.identity.card_name, "Mock");
}

fn probe_stereo() -> Option<AlsaPcm> {
    let backend = Backend {
        describe: |_: &str, _: Direction| info(),
        bounds: |_: &str, _: Direction, q: BoundsQuery| match q {
            BoundsQuery::Rate => Some((44000, 48100)),
            BoundsQuery::Channels => Some((1, 8)),
            BoundsQuery::BufferTime { .. } => Some((1000, 5000)),
        },
        trial: |_: &str, _: Direction, t: Trial| stereo_trial(t),
    };
    AlsaPcm::new("hw:CARD=Mock,DEV=3", "Mock", Direction::Capture, &ProbePolicy::standard(), &backend)
}

#[test]
fn probing_an_endpoint() {
    let pcm = probe_stereo().unwrap();
    let id = pcm.identity();
    assert_eq!(id.name, "hw:CARD=Mock,DEV=3");
    assert_eq!(id.card_name, "Mock");
    assert_eq!(id.description, "Mock Analog");
    assert_eq!(id.direction, Direction::Capture);
    assert_eq!(id.device_number, 3);
    assert_eq!(id.sub_device_number, 1);
    assert!(id.software_mixable);
    assert!(!id.has_builtin_mixer);
    assert!(id.is_real_hardware);
    assert_eq!(*pcm.formats(), vec![SampleFormat::S16]);
    assert_eq!(*pcm.rates(), vec![44100, 48000]);
    assert_eq!(*pcm.channels(), vec![2]);
    let triples: Vec<(SampleFormat, u32, u32)> = pcm
        .valid_configurations()
        .iter()
        .map(|c| (c.format, c.rate, c.channels))
        .collect();
    assert_eq!(
        triples,
        vec![(SampleFormat::S16, 44100, 2), (SampleFormat::S16, 48000, 2)]
    );
    for config in pcm.valid_configurations() {
        assert_eq!(config.identity.name, "hw:CARD=Mock,DEV=3");
        assert_eq!(config.identity.card_name, "Mock");
        assert_eq!(config.identity.direction, Direction::Capture);
        assert_eq!(config.identity.device_number, 3);
        assert_eq!(config.identity.sub_device_number, 1);
        assert!(config.identity.is_real_hardware);
        assert_eq!(config.buffer_time_ms, 2);
    }
}

#[test]
fn probing_twice_gives_the_same_endpoint() {
    let first = probe_stereo().unwrap();
    let second = probe_stereo().unwrap();
    assert_eq!(first.formats(), second.formats());
    assert_eq!(first.rates(), second.rates());
    assert_eq!(first.channels(), second.channels());
    let triples = |pcm: &AlsaPcm| -> Vec<(SampleFormat, u32, u32, u32)> {
        pcm.valid_configurations()
            .iter()
            .map(|c| (c.format, c.rate, c.channels, c.buffer_time_ms))
            .collect()
    };
    assert_eq!(triples(&first), triples(&second));
}

#[test]
fn a_copy_of_an_endpoint_is_the_same_endpoint() {
    let pcm = probe_stereo().unwrap();
    let copy = pcm.duplicate();
    assert_eq!(copy.identity().name, pcm.identity().name);
    assert_eq!(copy.formats(), pcm.formats());
    assert_eq!(copy.rates(), pcm.rates());
    assert_eq!(copy.channels(), pcm.channels());
    assert_eq!(copy.valid_configurations().len(), 2);
    assert_eq!(copy.valid_configurations()[1].rate, 48000);
}

#[test]
fn an_endpoint_that_cannot_be_described_is_dropped() {
    let backend = Backend {
        describe: |_: &str, _: Direction| None,
        bounds: |_: &str, _: Direction, _: BoundsQuery| None,
        trial: |_: &str, _: Direction, _: Trial| -> bool { panic!("no trial is due") },
    };
    assert!(AlsaPcm::new("hw:0", "0", Direction::Playback, &small_policy(), &backend).is_none());
}

#[test]
fn an_endpoint_without_a_verified_configuration_is_dropped() {
    // Every value passes alone, no two pass together.
    let backend = Backend {
        describe: |_: &str, _: Direction| info(),
        bounds: |_: &str, _: Direction, _: BoundsQuery| None,
        trial: |_: &str, _: Direction, t: Trial| {
            among(t.rate, &[44]) && among(t.channels, &[2]) && !(t.format.is_some() && t.rate.is_some())
        },
    };
    assert!(AlsaPcm::new("hw:0", "0", Direction::Playback, &small_policy(), &backend).is_none());
}

#[test]
fn no_dead_entries_are_left_in_the_lists() {
    // 48 Hz and six channels pass alone but in no combination.
    let backend = Backend {
        describe: |_: &str, _: Direction| info(),
        bounds: |_: &str, _: Direction, _: BoundsQuery| None,
        trial: |_: &str, _: Direction, t: Trial| {
            let lone = t.format.is_none();
            format_among(t.format, &[SampleFormat::S16, SampleFormat::S24])
                && among(t.rate, if lone { &[44, 48] } else { &[44] })
                && among(t.channels, if lone { &[2, 6] } else { &[2] })
                && !(t.format == Some(SampleFormat::S24) && t.channels.is_some())
        },
    };
    let pcm = AlsaPcm::new("hw:0", "0", Direction::Playback, &small_policy(), &backend).unwrap();
    assert_eq!(*pcm.formats(), vec![SampleFormat::S16]);
    assert_eq!(*pcm.rates(), vec![44]);
    assert_eq!(*pcm.channels(), vec![2]);
    assert_eq!(pcm.valid_configurations().len(), 1);
    for config in pcm.valid_configurations() {
        assert!(pcm.formats().contains(&config.format));
        assert!(pcm.rates().contains(&config.rate));
        assert!(pcm.channels().contains(&config.channels));
    }
}

#[test]
fn a_converting_endpoint_is_not_real_hardware() {
    let backend = Backend {
        describe: |_: &str, _: Direction| info(),
        bounds: |_: &str, _: Direction, _: BoundsQuery| None,
        trial: |_: &str, _: Direction, _: Trial| true,
    };
    let policy = small_policy();
    let pcm = AlsaPcm::new("plughw:0", "0", Direction::Playback, &policy, &backend).unwrap();
    assert!(!pcm.identity().is_real_hardware);
    assert_eq!(*pcm.rates(), vec![20, 30, 40]);
    assert_eq!(*pcm.channels(), vec![1, 2, 6]);
    assert!(pcm.rates().len() <= policy.ceiling());
    assert_eq!(pcm.valid_configurations().len(), 3 * 3 * 3);
    assert!(pcm.valid_configurations().iter().all(|c| !c.identity.is_real_hardware));
}
