//! The text of the configuration file that makes the chosen
//! configurations the system's default devices.
//!
//! The file holds up to five blocks, a blank line between any two: the
//! choice of rate converter, the shared playback device, the shared capture
//! device, the default device that joins the two, and the default control
//! device. Only the block of the default device is always there.

use vstd::prelude::*;
use crate::audio::{Direction, SampleFormat};
use crate::buffer::{PERIODS_PER_BUFFER, US_PER_MS};
use crate::pcm::{ConfigView, ValidConfiguration};

verus! {

/// The text of a decimal digit: the one character that writes it.
pub open spec fn digit_text(digit: int) -> Seq<char> {
    seq![(0x30 + digit) as char]
}

/// A number written in decimal digits, without leading zeros.
pub open spec fn decimal_text(number: nat) -> Seq<char>
    decreases number,
{
    if number < 10 {
        digit_text(number as int)
    } else {
        decimal_text(number / 10) + digit_text((number % 10) as int)
    }
}

/// The text of a decimal digit, as a text of the program.
fn digit_name(digit: u64) -> (text: &'static str)
    requires
        digit <= 9,
    ensures
        text@ == digit_text(digit as int),
{
    proof {
        reveal_strlit("0");
        reveal_strlit("1");
        reveal_strlit("2");
        reveal_strlit("3");
        reveal_strlit("4");
        reveal_strlit("5");
        reveal_strlit("6");
        reveal_strlit("7");
        reveal_strlit("8");
        reveal_strlit("9");
    }
    let text = if digit == 0 {
        "0"
    } else if digit == 1 {
        "1"
    } else if digit == 2 {
        "2"
    } else if digit == 3 {
        "3"
    } else if digit == 4 {
        "4"
    } else if digit == 5 {
        "5"
    } else if digit == 6 {
        "6"
    } else if digit == 7 {
        "7"
    } else if digit == 8 {
        "8"
    } else {
        "9"
    };
    assert(text@ =~= digit_text(digit as int));
    text
}

/// Writes a number in decimal digits.
pub fn decimal(number: u64) -> (text: String)
    ensures
        text@ == decimal_text(number as nat),
    decreases number,
{
    if number < 10 {
        String::from_str(digit_name(number))
    } else {
        let mut text = decimal(number / 10);
        text.append(digit_name(number % 10));
        text
    }
}

/// The name by which the configuration file calls a sample format on a
/// host of the given byte order.
pub open spec fn format_text(format: SampleFormat, big_endian: bool) -> Seq<char> {
    match format {
        SampleFormat::U8 => "U8"@,
        SampleFormat::S16 => if big_endian {
            "S16_BE"@
        } else {
            "S16_LE"@
        },
        SampleFormat::S24Packed => if big_endian {
            "S24_3BE"@
        } else {
            "S24_3LE"@
        },
        SampleFormat::S24 => if big_endian {
            "S24_BE"@
        } else {
            "S24_LE"@
        },
        SampleFormat::S32 => if big_endian {
            "S32_BE"@
        } else {
            "S32_LE"@
        },
    }
}

/// The name of a sample format in the configuration file.
pub fn format_name(format: SampleFormat, big_endian: bool) -> (text: &'static str)
    ensures
        text@ == format_text(format, big_endian),
{
    match format {
        SampleFormat::U8 => "U8",
        SampleFormat::S16 => if big_endian {
            "S16_BE"
        } else {
            "S16_LE"
        },
        SampleFormat::S24Packed => if big_endian {
            "S24_3BE"
        } else {
            "S24_3LE"
        },
        SampleFormat::S24 => if big_endian {
            "S24_BE"
        } else {
            "S24_LE"
        },
        SampleFormat::S32 => if big_endian {
            "S32_BE"
        } else {
            "S32_LE"
        },
    }
}

/// Start of the block of a shared device, up to the device's name.
pub const PCM_HEAD: &'static str = "pcm.";

/// From the device's name to the plugin type.
pub const PCM_TYPE: &'static str = " {\n    type ";

/// From the plugin type to the card.
pub const PCM_CARD: &'static str = "\
    \n    ipc_key {\
    \n        @func refer\
    \n        name defaults.pcm.ipc_key\
    \n    }\
    \n    ipc_gid {\
    \n        @func refer\
    \n        name defaults.pcm.ipc_gid\
    \n    }\
    \n    ipc_perm {\
    \n        @func refer\
    \n        name defaults.pcm.ipc_perm\
    \n    }\
    \n    tstamp_type {\
    \n        @func refer\
    \n        name defaults.pcm.tstamp_type\
    \n    }\
    \n    slave {\
    \n        pcm {\
    \n            type hw\
    \n            card ";

/// From the card to the device number.
pub const PCM_DEVICE: &'static str = "\n            device ";

/// From the device number to the sub-device number.
pub const PCM_SUBDEVICE: &'static str = "\n            subdevice ";

/// From the sub-device number to the channel count.
pub const PCM_CHANNELS: &'static str = "\n        }\n        channels ";

/// From the channel count to the rate.
pub const PCM_RATE: &'static str = "\n        rate ";

/// From the rate to the format.
pub const PCM_FORMAT: &'static str = "\n        format ";

/// From the format to the buffer time.
pub const PCM_BUFFER_TIME: &'static str = "\
    \n        period_size 0\
    \n        buffer_size 0\
    \n        periods 0\
    \n        buffer_time ";

/// From the buffer time to the period time.
pub const PCM_PERIOD_TIME: &'static str = "\n        period_time ";

/// End of the block of a shared device.
pub const PCM_TAIL: &'static str = "\n    }\n}\n";

/// Start of the block of the default device, up to the capture device.
pub const ASYM_HEAD: &'static str = "\
    pcm.!default {\
    \n    type asym\
    \n    capture.pcm {\
    \n        type plug\
    \n        slave.pcm ";

/// From the capture device to the playback device.
pub const ASYM_PLAYBACK: &'static str = "\
    \n    }\
    \n    playback.pcm {\
    \n        type plug\
    \n        slave.pcm ";

/// End of the block of the default device.
pub const ASYM_TAIL: &'static str = "\n    }\n}";

/// Start of the block of the default control device, up to the card.
pub const CONTROL_HEAD: &'static str = "\nctl.!default {\n    type hw\n    card ";

/// End of the block of the default control device.
pub const CONTROL_TAIL: &'static str = "\n}";

/// Start of the line that chooses the rate converter.
pub const CONVERTER_HEAD: &'static str = "defaults.pcm.rate_converter ";

/// End of a line.
pub const LINE_END: &'static str = "\n";

/// What the default device is told where a direction has no device.
pub const NO_DEVICE: &'static str = "\"null\"";

/// The name of the shared device of a direction.
pub open spec fn device_text(direction: Direction) -> Seq<char> {
    match direction {
        Direction::Playback => "playback"@,
        Direction::Capture => "capture"@,
    }
}

/// The name of the shared device of a direction, in quotes.
pub open spec fn quoted_device_text(direction: Direction) -> Seq<char> {
    match direction {
        Direction::Playback => "\"playback\""@,
        Direction::Capture => "\"capture\""@,
    }
}

/// The plugin that shares a device of a direction.
pub open spec fn plugin_text(direction: Direction) -> Seq<char> {
    match direction {
        Direction::Playback => "dmix"@,
        Direction::Capture => "dsnoop"@,
    }
}

/// The buffer time of a configuration in microseconds.
pub open spec fn buffer_time_of(config: ConfigView) -> nat {
    (config.buffer_time_ms * US_PER_MS) as nat
}

/// The block that shares the device of a configuration in one direction.
/// The period time is the buffer time divided by the periods in a buffer.
pub open spec fn pcm_block(
    config: ConfigView,
    direction: Direction,
    big_endian: bool,
) -> Seq<char> {
    PCM_HEAD@ + device_text(direction) + PCM_TYPE@ + plugin_text(direction) + PCM_CARD@
        + config.identity.card_name + PCM_DEVICE@ + decimal_text(
        config.identity.device_number as nat,
    ) + PCM_SUBDEVICE@ + decimal_text(config.identity.sub_device_number as nat) + PCM_CHANNELS@
        + decimal_text(config.channels as nat) + PCM_RATE@ + decimal_text(config.rate as nat)
        + PCM_FORMAT@ + format_text(config.format, big_endian) + PCM_BUFFER_TIME@ + decimal_text(
        buffer_time_of(config),
    ) + PCM_PERIOD_TIME@ + decimal_text(buffer_time_of(config) / (PERIODS_PER_BUFFER as nat))
        + PCM_TAIL@
}

/// The block of the default device: capture from the shared capture
/// device and playback to the shared playback device, as far as there are
/// any.
pub open spec fn asym_block(playback: bool, capture: bool) -> Seq<char> {
    ASYM_HEAD@ + (if capture {
        quoted_device_text(Direction::Capture)
    } else {
        NO_DEVICE@
    }) + ASYM_PLAYBACK@ + (if playback {
        quoted_device_text(Direction::Playback)
    } else {
        NO_DEVICE@
    }) + ASYM_TAIL@
}

/// The block of the default control device.
pub open spec fn control_block(card: Seq<char>) -> Seq<char> {
    CONTROL_HEAD@ + card + CONTROL_TAIL@
}

/// The line that chooses the rate converter.
pub open spec fn converter_block(converter: Seq<char>) -> Seq<char> {
    CONVERTER_HEAD@ + converter + LINE_END@
}

/// A block that may be missing, as a list of none or one.
pub open spec fn maybe(block: Option<Seq<char>>) -> Seq<Seq<char>> {
    match block {
        Some(b) => seq![b],
        None => Seq::empty(),
    }
}

/// The blocks of the file, in order. The control device is that of the
/// playback configuration's card, or of the capture configuration's where
/// there is no playback configuration.
pub open spec fn conf_blocks(
    playback: Option<ConfigView>,
    capture: Option<ConfigView>,
    converter: Option<Seq<char>>,
    big_endian: bool,
) -> Seq<Seq<char>> {
    maybe(
        match converter {
            Some(c) => Some(converter_block(c)),
            None => None,
        },
    ) + maybe(
        match playback {
            Some(p) => Some(pcm_block(p, Direction::Playback, big_endian)),
            None => None,
        },
    ) + maybe(
        match capture {
            Some(c) => Some(pcm_block(c, Direction::Capture, big_endian)),
            None => None,
        },
    ) + seq![asym_block(playback is Some, capture is Some)] + maybe(
        match (playback, capture) {
            (Some(p), _) => Some(control_block(p.identity.card_name)),
            (None, Some(c)) => Some(control_block(c.identity.card_name)),
            (None, None) => None,
        },
    )
}

/// Blocks joined into one text, a line end between any two.
pub open spec fn joined(blocks: Seq<Seq<char>>) -> Seq<char>
    decreases blocks.len(),
{
    if blocks.len() == 0 {
        Seq::empty()
    } else if blocks.len() == 1 {
        blocks[0]
    } else {
        joined(blocks.drop_last()) + LINE_END@ + blocks.last()
    }
}

/// The text of the configuration file.
pub open spec fn conf_text(
    playback: Option<ConfigView>,
    capture: Option<ConfigView>,
    converter: Option<Seq<char>>,
    big_endian: bool,
) -> Seq<char> {
    joined(conf_blocks(playback, capture, converter, big_endian))
}

/// The view of a configuration that may be missing.
pub open spec fn config_view(config: Option<ValidConfiguration>) -> Option<ConfigView> {
    match config {
        Some(c) => Some(c@),
        None => None,
    }
}

/// The characters of a text that may be missing.
pub open spec fn name_view(name: Option<&str>) -> Option<Seq<char>> {
    match name {
        Some(n) => Some(n@),
        None => None,
    }
}

/// The views of a list of texts.
pub open spec fn text_views(texts: Seq<String>) -> Seq<Seq<char>> {
    Seq::new(texts.len(), |i: int| texts[i]@)
}

/// Writes the block that shares the device of a configuration.
fn build_pcm_block(config: &ValidConfiguration, direction: Direction, big_endian: bool) -> (block:
    String)
    ensures
        block@ == pcm_block(config@, direction, big_endian),
{
    let buffer_time: u64 = config.buffer_time_ms as u64 * US_PER_MS as u64;
    let period_time: u64 = buffer_time / PERIODS_PER_BUFFER as u64;
    let mut block = String::from_str(PCM_HEAD);
    block.append(
        match direction {
            Direction::Playback => "playback",
            Direction::Capture => "capture",
        },
    );
    block.append(PCM_TYPE);
    block.append(
        match direction {
            Direction::Playback => "dmix",
            Direction::Capture => "dsnoop",
        },
    );
    block.append(PCM_CARD);
    block.append(config.identity.card_name.as_str());
    block.append(PCM_DEVICE);
    block.append(decimal(config.identity.device_number as u64).as_str());
    block.append(PCM_SUBDEVICE);
    block.append(decimal(config.identity.sub_device_number as u64).as_str());
    block.append(PCM_CHANNELS);
    block.append(decimal(config.channels as u64).as_str());
    block.append(PCM_RATE);
    block.append(decimal(config.rate as u64).as_str());
    block.append(PCM_FORMAT);
    block.append(format_name(config.format, big_endian));
    block.append(PCM_BUFFER_TIME);
    block.append(decimal(buffer_time).as_str());
    block.append(PCM_PERIOD_TIME);
    block.append(decimal(period_time).as_str());
    block.append(PCM_TAIL);
    block
}

/// Joins blocks into one text, a line end between any two.
pub fn join_blocks(blocks: &Vec<String>) -> (text: String)
    ensures
        text@ == joined(text_views(blocks@)),
{
    let mut text = String::new();
    let ghost all = text_views(blocks@);
    let mut i: usize = 0;
    assert(all.take(0) =~= Seq::<Seq<char>>::empty());
    while i < blocks.len()
        invariant
            all == text_views(blocks@),
            i <= blocks.len(),
            text@ == joined(all.take(i as int)),
        decreases blocks.len() - i,
    {
        proof {
            assert(all.take(i + 1).drop_last() =~= all.take(i as int));
            assert(all.take(i + 1).last() == blocks@[i as int]@);
            if i == 0 {
                assert(text@ + blocks@[0]@ =~= blocks@[0]@);
            }
        }
        if i > 0 {
            text.append(LINE_END);
        }
        text.append(blocks[i].as_str());
        i = i + 1;
    }
    assert(all.take(blocks@.len() as int) =~= all);
    text
}

/// Writes the text of the configuration file for the chosen playback and
/// capture configurations and the chosen rate converter, any of which may
/// be missing, on a host of the given byte order.
pub fn build_asound_conf(
    playback_config: Option<ValidConfiguration>,
    capture_config: Option<ValidConfiguration>,
    rate_converter: Option<&str>,
    big_endian: bool,
) -> (text: String)
    ensures
        text@ == conf_text(
            config_view(playback_config),
            config_view(capture_config),
            name_view(rate_converter),
            big_endian,
        ),
{
    let ghost wanted = conf_blocks(
        config_view(playback_config),
        config_view(capture_config),
        name_view(rate_converter),
        big_endian,
    );
    let mut blocks: Vec<String> = Vec::new();
    if let Some(converter) = rate_converter {
        let mut line = String::from_str(CONVERTER_HEAD);
        line.append(converter);
        line.append(LINE_END);
        blocks.push(line);
    }
    if let Some(config) = &playback_config {
        blocks.push(build_pcm_block(config, Direction::Playback, big_endian));
    }
    if let Some(config) = &capture_config {
        blocks.push(build_pcm_block(config, Direction::Capture, big_endian));
    }
    let mut asym = String::from_str(ASYM_HEAD);
    asym.append(
        if capture_config.is_some() {
            "\"capture\""
        } else {
            NO_DEVICE
        },
    );
    asym.append(ASYM_PLAYBACK);
    asym.append(
        if playback_config.is_some() {
            "\"playback\""
        } else {
            NO_DEVICE
        },
    );
    asym.append(ASYM_TAIL);
    blocks.push(asym);
    let card: Option<&String> = match (&playback_config, &capture_config) {
        (Some(p), _) => Some(&p.identity.card_name),
        (None, Some(c)) => Some(&c.identity.card_name),
        (None, None) => None,
    };
    if let Some(card) = card {
        let mut control = String::from_str(CONTROL_HEAD);
        control.append(card.as_str());
        control.append(CONTROL_TAIL);
        blocks.push(control);
    }
    assert(text_views(blocks@) =~= wanted);
    join_blocks(&blocks)
}

} // verus!
