use asound_conf_wizard::audio::{Direction, SampleFormat};
use asound_conf_wizard::backend::{Backend, PcmInfo};
use asound_conf_wizard::pcm::AlsaPcm;
use asound_conf_wizard::policy::ProbePolicy;
use asound_conf_wizard::session::{
    query_bounds, run_trial, BoundsQuery, Parameter, Reply, Step, Trial,
};
use std::cell::{Cell, RefCell};

/// A device that takes S16 and S32, 44 and 48 Hz, one and two channels,
/// but S32 only in stereo, and buffer times from 2 to 4 ms.
struct Device {
    /// How many sessions were opened.
    opened: Cell<u32>,
}

/// One session on the device. It is spoilt by the first refusal.
struct Session {
    spoilt: Cell<bool>,
    committed: Cell<bool>,
    format: Cell<Option<SampleFormat>>,
    asked: RefCell<Vec<Step>>,
}

impl Session {
    fn new() -> Session {
        Session {
            spoilt: Cell::new(false),
            committed: Cell::new(false),
            format: Cell::new(None),
            asked: RefCell::new(Vec::new()),
        }
    }

    fn refuse(&self) -> Reply {
        self.spoilt.set(true);
        Reply::Failed
    }

    fn apply(&self, step: Step) -> Reply {
        assert!(!self.spoilt.get(), "a spoilt session was used again: {step:?}");
        assert!(!self.committed.get(), "a committed session was used again: {step:?}");
        self.asked.borrow_mut().push(step);
        match step {
            Step::DisableResampling => Reply::Flag(false),
            Step::SetFormat(f) => {
                if f == SampleFormat::S16 || f == SampleFormat::S32 {
                    self.format.set(Some(f));
                    Reply::Format(f)
                } else {
                    self.refuse()
                }
            }
            // The device settles on the nearest rate it has.
            Step::SetRate(r) => Reply::Number(if r <= 46 { 44 } else { 48 }),
            Step::SetChannels(c) => {
                let limit = if self.format.get() == Some(SampleFormat::S32) { 2 } else { 1 };
                if c == 2 || (c == 1 && limit == 1) {
                    Reply::Number(c)
                } else {
                    self.refuse()
                }
            }
            Step::SetBufferTime(t) => Reply::Number(t.clamp(2000, 4000)),
            Step::SetPeriodTime(t) => Reply::Number(t),
            Step::Commit => {
                self.committed.set(true);
                Reply::Done
            }
            Step::Minimum(Parameter::Rate) => Reply::Number(40),
            Step::Maximum(Parameter::Rate) => Reply::Number(50),
            Step::Minimum(Parameter::Channels) => Reply::Number(1),
            Step::Maximum(Parameter::Channels) => Reply::Number(4),
            Step::Minimum(Parameter::BufferTime) => Reply::Number(2100),
            Step::Maximum(Parameter::BufferTime) => Reply::Number(3900),
        }
    }
}

impl Device {
    fn open(&self) -> Session {
        self.opened.set(self.opened.get() + 1);
        Session::new()
    }
}

fn policy() -> ProbePolicy {
    ProbePolicy::new(
        vec![SampleFormat::S16, SampleFormat::S24, SampleFormat::S32],
        8,
        (1, 100),
        (1, 100),
        vec![44, 48],
        (1, 8),
        (1, 8),
        vec![1, 2],
    )
    .unwrap()
}

#[test]
fn an_endpoint_probed_through_sessions() {
    let device = Device { opened: Cell::new(0) };
    let trials: Cell<u32> = Cell::new(0);
    let queries: Cell<u32> = Cell::new(0);
    let backend = Backend {
        describe: |_: &str, _: Direction| {
            Some(PcmInfo {
                description: String::from("Device"),
                device_number: 0,
                sub_device_number: 0,
                software_mixable: true,
                has_builtin_mixer: false,
            })
        },
        bounds: |_: &str, _: Direction, query: BoundsQuery| {
            queries.set(queries.get() + 1);
            let session = device.open();
            let apply = |step: Step| session.apply(step);
            query_bounds(query, Some(&apply))
        },
        trial: |_: &str, _: Direction, trial: Trial| {
            trials.set(trials.get() + 1);
            let session = device.open();
            let apply = |step: Step| session.apply(step);
            run_trial(trial, Some(&apply))
        },
    };
    let pcm = AlsaPcm::new("hw:0", "0", Direction::Playback, &policy(), &backend).unwrap();
    assert!(pcm.identity().is_real_hardware);
    assert_eq!(*pcm.formats(), vec![SampleFormat::S16, SampleFormat::S32]);
    assert_eq!(*pcm.rates(), vec![44, 48]);
    assert_eq!(*pcm.channels(), vec![1, 2]);
    let triples: Vec<(SampleFormat, u32, u32)> =
        pcm.valid_configurations().iter().map(|c| (c.format, c.rate, c.channels)).collect();
    assert_eq!(
        triples,
        vec![
            (SampleFormat::S16, 44, 1),
            (SampleFormat::S16, 44, 2),
            (SampleFormat::S16, 48, 1),
            (SampleFormat::S16, 48, 2),
            (SampleFormat::S32, 44, 2),
            (SampleFormat::S32, 48, 2),
        ]
    );
    // Every question had a session of its own.
    assert_eq!(device.opened.get(), trials.get() + queries.get());
    // Formats: 3. Rates: 40..=50. Channels: 1..=4. Search: the 2 formats
    // that were accepted, 2 rates for each, 2 channel counts for each pair.
    assert_eq!(trials.get(), 3 + 11 + 4 + 2 + 4 + 8);
    // The two ranges and one window for each configuration.
    assert_eq!(queries.get(), 2 + 6);
    for config in pcm.valid_configurations() {
        // The window is 2100 down to 2000 and 3900 up to 4000 microseconds.
        assert_eq!(config.window.min_us(), 2000);
        assert_eq!(config.window.max_us(), 4000);
        assert_eq!(config.buffer_time_ms, 2);
        assert_eq!(config.get_buffer_times_ms(&backend), vec![2, 3, 4]);
    }
}

#[test]
fn a_session_is_left_alone_once_it_refused() {
    let session = Session::new();
    let apply = |step: Step| session.apply(step);
    let trial = Trial {
        format: Some(SampleFormat::S24),
        rate: Some(48),
        channels: Some(2),
        timing: None,
        commit: true,
    };
    assert!(!run_trial(trial, Some(&apply)));
    assert!(session.spoilt.get());
    assert_eq!(
        *session.asked.borrow(),
        vec![Step::DisableResampling, Step::SetFormat(SampleFormat::S24)]
    );
}

#[test]
fn a_rate_that_reads_back_differently_is_rejected() {
    let run = |rate: u32| {
        let session = Session::new();
        let apply = |step: Step| session.apply(step);
        let trial = Trial {
            format: Some(SampleFormat::S16),
            rate: Some(rate),
            channels: None,
            timing: None,
            commit: false,
        };
        let accepted = run_trial(trial, Some(&apply));
        let asked = session.asked.borrow().len();
        (accepted, asked)
    };
    assert_eq!(run(44), (true, 3));
    assert_eq!(run(45), (false, 3));
    assert_eq!(run(48), (true, 3));
}
