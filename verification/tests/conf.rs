use asound_conf_wizard::audio::{Direction, SampleFormat};
use asound_conf_wizard::buffer::period_time_us;
use asound_conf_wizard::conf::{build_asound_conf, decimal, format_name, join_blocks};
use asound_conf_wizard::converter::converter_name;
use asound_conf_wizard::pcm::{Identity, ValidConfiguration};

fn config(card: &str, direction: Direction) -> ValidConfiguration {
    let mut config = ValidConfiguration::with_window(
        Identity {
            name: format!("hw:CARD={card},DEV=3"),
            description: String::from("Analog"),
            direction,
            card_name: String::from(card),
            device_number: 3,
            sub_device_number: 1,
            software_mixable: true,
            has_builtin_mixer: false,
            is_real_hardware: true,
        },
        SampleFormat::S24Packed,
        48000,
        2,
        Some((1000, 50000)),
    );
    assert_eq!(config.buffer_time_ms, 25);
    config.buffer_time_ms = 20;
    config
}

const PLAYBACK: &str = "\
pcm.playback {
    type dmix
    ipc_key {
        @func refer
        name defaults.pcm.ipc_key
    }
    ipc_gid {
        @func refer
        name defaults.pcm.ipc_gid
    }
    ipc_perm {
        @func refer
        name defaults.pcm.ipc_perm
    }
    tstamp_type {
        @func refer
        name defaults.pcm.tstamp_type
    }
    slave {
        pcm {
            type hw
            card PCH
            device 3
            subdevice 1
        }
        channels 2
        rate 48000
        format S24_3LE
        period_size 0
        buffer_size 0
        periods 0
        buffer_time 20000
        period_time 4000
    }
}";

const CAPTURE: &str = "\
pcm.capture {
    type dsnoop
    ipc_key {
        @func refer
        name defaults.pcm.ipc_key
    }
    ipc_gid {
        @func refer
        name defaults.pcm.ipc_gid
    }
    ipc_perm {
        @func refer
        name defaults.pcm.ipc_perm
    }
    tstamp_type {
        @func refer
        name defaults.pcm.tstamp_type
    }
    slave {
        pcm {
            type hw
            card USB
            device 3
            subdevice 1
        }
        channels 2
        rate 48000
        format S24_3LE
        period_size 0
        buffer_size 0
        periods 0
        buffer_time 20000
        period_time 4000
    }
}";

fn asym(input: &str, output: &str) -> String {
    format!(
        "pcm.!default {{\n    type asym\n    capture.pcm {{\n        type plug\n        slave.pcm {input}\n    }}\n    playback.pcm {{\n        type plug\n        slave.pcm {output}\n    }}\n}}"
    )
}

fn control(card: &str) -> String {
    format!("ctl.!default {{\n    type hw\n    card {card}\n}}")
}

#[test]
fn numbers_are_written_in_decimal() {
    assert_eq!(decimal(0), "0");
    assert_eq!(decimal(7), "7");
    assert_eq!(decimal(10), "10");
    assert_eq!(decimal(48000), "48000");
    assert_eq!(decimal(1234567890), "1234567890");
    assert_eq!(decimal(u64::MAX), "18446744073709551615");
}

#[test]
fn formats_are_named_by_byte_order() {
    assert_eq!(format_name(SampleFormat::U8, false), "U8");
    assert_eq!(format_name(SampleFormat::U8, true), "U8");
    assert_eq!(format_name(SampleFormat::S16, false), "S16_LE");
    assert_eq!(format_name(SampleFormat::S16, true), "S16_BE");
    assert_eq!(format_name(SampleFormat::S24Packed, false), "S24_3LE");
    assert_eq!(format_name(SampleFormat::S24Packed, true), "S24_3BE");
    assert_eq!(format_name(SampleFormat::S24, false), "S24_LE");
    assert_eq!(format_name(SampleFormat::S24, true), "S24_BE");
    assert_eq!(format_name(SampleFormat::S32, false), "S32_LE");
    assert_eq!(format_name(SampleFormat::S32, true), "S32_BE");
}

#[test]
fn blocks_are_joined_by_line_ends() {
    let texts = |blocks: &[&str]| -> Vec<String> { blocks.iter().map(|b| String::from(*b)).collect() };
    assert_eq!(join_blocks(&texts(&[])), "");
    assert_eq!(join_blocks(&texts(&["a"])), "a");
    assert_eq!(join_blocks(&texts(&["a", "b\n", "c"])), "a\nb\n\nc");
    assert_eq!(join_blocks(&texts(&["", ""])), "\n");
}

#[test]
fn the_period_time_is_a_fifth_of_the_buffer_time() {
    assert_eq!(period_time_us(20000), 4000);
    assert_eq!(period_time_us(1000), 200);
    assert_eq!(period_time_us(1004), 200);
    assert_eq!(period_time_us(0), 0);
}

#[test]
fn a_file_for_playback_and_capture_with_a_converter() {
    let text = build_asound_conf(
        Some(config("PCH", Direction::Playback)),
        Some(config("USB", Direction::Capture)),
        Some("speexrate_medium"),
        false,
    );
    let expected = format!(
        "defaults.pcm.rate_converter speexrate_medium\n\n{PLAYBACK}\n\n{CAPTURE}\n\n{}\n\n{}",
        asym("\"capture\"", "\"playback\""),
        control("PCH")
    );
    assert_eq!(text, expected);
}

#[test]
fn a_file_for_playback_alone() {
    let text = build_asound_conf(Some(config("PCH", Direction::Playback)), None, None, false);
    let expected =
        format!("{PLAYBACK}\n\n{}\n\n{}", asym("\"null\"", "\"playback\""), control("PCH"));
    assert_eq!(text, expected);
}

#[test]
fn a_file_for_capture_alone_controls_the_capture_card() {
    let text = build_asound_conf(None, Some(config("USB", Direction::Capture)), None, false);
    let expected =
        format!("{CAPTURE}\n\n{}\n\n{}", asym("\"capture\"", "\"null\""), control("USB"));
    assert_eq!(text, expected);
}

#[test]
fn a_file_without_devices() {
    assert_eq!(build_asound_conf(None, None, None, false), asym("\"null\"", "\"null\""));
    assert_eq!(
        build_asound_conf(None, None, Some("samplerate"), true),
        format!("defaults.pcm.rate_converter samplerate\n\n{}", asym("\"null\"", "\"null\""))
    );
}

#[test]
fn the_byte_order_shows_in_the_format() {
    let text = build_asound_conf(Some(config("PCH", Direction::Playback)), None, None, true);
    assert!(text.contains("\n        format S24_3BE\n"));
    assert!(!text.contains("S24_3LE"));
}

#[test]
fn a_long_buffer_time_does_not_wrap() {
    let mut long = config("PCH", Direction::Playback);
    long.buffer_time_ms = u32::MAX;
    let text = build_asound_conf(Some(long), None, None, false);
    assert!(text.contains("\n        buffer_time 4294967295000\n        period_time 858993459000\n"));
}

#[test]
fn converter_names_are_read_off_plugin_paths() {
    assert_eq!(
        converter_name("/usr/lib/x86_64-linux-gnu/alsa-lib/libasound_module_rate_samplerate.so"),
        "samplerate"
    );
    assert_eq!(
        converter_name("/usr/lib/arm-linux-gnueabihf/alsa-lib/libasound_module_rate_speexrate_best.so"),
        "speexrate_best"
    );
    assert_eq!(
        converter_name("/usr/lib/x/alsa-lib/libasound_module_rate_lavrate.so.2.0.0"),
        "lavrate"
    );
}

#[test]
fn converter_names_of_odd_paths() {
    // No prefix: the path from its start. No suffix: to the end.
    assert_eq!(converter_name("samplerate.so"), "samplerate");
    assert_eq!(converter_name("/lib/libasound_module_rate_speex"), "speex");
    assert_eq!(converter_name("plain"), "plain");
    assert_eq!(converter_name(""), "");
    // Only a suffix behind the prefix counts.
    assert_eq!(converter_name("/x.so/libasound_module_rate_a.so"), "a");
    // The first prefix counts.
    assert_eq!(
        converter_name("/libasound_module_rate_a/libasound_module_rate_b.so"),
        "a/libasound_module_rate_b"
    );
    assert_eq!(converter_name("/libasound_module_rate_.so"), "");
    assert_eq!(converter_name("/libasound_module_rate_ spaced .so"), "spaced");
}
