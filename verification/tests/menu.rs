use asound_conf_wizard::audio::{Direction, SampleFormat};
use asound_conf_wizard::buffer::BufferWindow;
use asound_conf_wizard::menu::{
    apart, buffer_menu, distinct_sorted, formats_on_offer, narrow, nearest, parse_number,
    pick_a_number, pick_from_choices, values_on_offer, BufferMenu, Choice,
};
use asound_conf_wizard::pcm::{Identity, ValidConfiguration};
use asound_conf_wizard::policy::Axis;

fn config(format: SampleFormat, rate: u32, channels: u32) -> ValidConfiguration {
    ValidConfiguration::with_window(
        Identity {
            name: String::from("hw:0"),
            description: String::new(),
            direction: Direction::Playback,
            card_name: String::from("0"),
            device_number: 0,
            sub_device_number: 0,
            software_mixable: true,
            has_builtin_mixer: false,
            is_real_hardware: true,
        },
        format,
        rate,
        channels,
        None,
    )
}

fn configs() -> Vec<ValidConfiguration> {
    vec![
        config(SampleFormat::S32, 96000, 2),
        config(SampleFormat::S16, 48000, 2),
        config(SampleFormat::S16, 44100, 2),
        config(SampleFormat::S32, 48000, 6),
        config(SampleFormat::S16, 48000, 1),
    ]
}

fn triples(configs: &[ValidConfiguration]) -> Vec<(SampleFormat, u32, u32)> {
    configs.iter().map(|c| (c.format, c.rate, c.channels)).collect()
}

#[test]
fn distinct_sorted_drops_repeats_and_orders() {
    assert_eq!(distinct_sorted(vec![48000, 44100, 48000, 8000, 44100]), vec![8000, 44100, 48000]);
    assert_eq!(distinct_sorted(vec![3, 3, 3]), vec![3]);
    assert_eq!(distinct_sorted(vec![2, 1]), vec![1, 2]);
    assert_eq!(distinct_sorted(vec![]), Vec::<u32>::new());
    assert_eq!(distinct_sorted(vec![0, u32::MAX, 0]), vec![0, u32::MAX]);
}

#[test]
fn the_values_on_offer_are_those_of_the_configurations() {
    let all = configs();
    assert_eq!(values_on_offer(&all, Axis::Rate), vec![44100, 48000, 96000]);
    assert_eq!(values_on_offer(&all, Axis::Channels), vec![1, 2, 6]);
    assert_eq!(formats_on_offer(&all), vec![SampleFormat::S16, SampleFormat::S32]);
    assert!(values_on_offer(&Vec::new(), Axis::Rate).is_empty());
    assert!(formats_on_offer(&Vec::new()).is_empty());
}

#[test]
fn formats_on_offer_come_in_canonical_order() {
    let all = vec![
        config(SampleFormat::S32, 1, 1),
        config(SampleFormat::S24, 1, 1),
        config(SampleFormat::U8, 1, 1),
        config(SampleFormat::S24Packed, 1, 1),
        config(SampleFormat::S16, 1, 1),
        config(SampleFormat::S24, 1, 1),
    ];
    assert_eq!(
        formats_on_offer(&all),
        vec![
            SampleFormat::U8,
            SampleFormat::S16,
            SampleFormat::S24Packed,
            SampleFormat::S24,
            SampleFormat::S32
        ]
    );
}

#[test]
fn narrowing_keeps_the_configurations_with_the_chosen_value() {
    let left = narrow(configs(), Choice::Format(SampleFormat::S16));
    assert_eq!(
        triples(&left),
        vec![
            (SampleFormat::S16, 48000, 2),
            (SampleFormat::S16, 44100, 2),
            (SampleFormat::S16, 48000, 1)
        ]
    );
    assert_eq!(values_on_offer(&left, Axis::Rate), vec![44100, 48000]);
    let left = narrow(left, Choice::Rate(48000));
    assert_eq!(triples(&left), vec![(SampleFormat::S16, 48000, 2), (SampleFormat::S16, 48000, 1)]);
    assert_eq!(values_on_offer(&left, Axis::Channels), vec![1, 2]);
    let left = narrow(left, Choice::Channels(1));
    assert_eq!(triples(&left), vec![(SampleFormat::S16, 48000, 1)]);
    assert!(narrow(left, Choice::Rate(1)).is_empty());
    assert!(narrow(Vec::new(), Choice::Channels(2)).is_empty());
}

#[test]
fn the_nearest_choice_is_taken() {
    let choices = vec![10, 20, 40];
    assert_eq!(nearest(&choices, 10), Some(10));
    assert_eq!(nearest(&choices, 14), Some(10));
    assert_eq!(nearest(&choices, 16), Some(20));
    assert_eq!(nearest(&choices, 29), Some(20));
    assert_eq!(nearest(&choices, 31), Some(40));
    assert_eq!(nearest(&choices, 40), Some(40));
}

#[test]
fn of_two_equally_near_choices_the_earlier_is_taken() {
    assert_eq!(nearest(&vec![10, 20, 40], 15), Some(10));
    assert_eq!(nearest(&vec![10, 20, 40], 30), Some(20));
}

#[test]
fn a_number_outside_the_choices_is_not_snapped() {
    let choices = vec![10, 20, 40];
    assert_eq!(nearest(&choices, 9), None);
    assert_eq!(nearest(&choices, 41), None);
    assert_eq!(nearest(&choices, 0), None);
    assert_eq!(nearest(&Vec::new(), 5), None);
    assert_eq!(nearest(&vec![7], 7), Some(7));
    assert_eq!(nearest(&vec![7], 8), None);
}

#[test]
fn distance_of_two_numbers() {
    assert_eq!(apart(3, 10), 7);
    assert_eq!(apart(10, 3), 7);
    assert_eq!(apart(5, 5), 0);
    assert_eq!(apart(0, u32::MAX), u32::MAX);
}

#[test]
fn numbers_are_read_from_digits() {
    assert_eq!(parse_number("0"), Some(0));
    assert_eq!(parse_number("7"), Some(7));
    assert_eq!(parse_number("007"), Some(7));
    assert_eq!(parse_number("+12"), Some(12));
    assert_eq!(parse_number("48000"), Some(48000));
    assert_eq!(parse_number("18446744073709551615"), Some(u64::MAX));
    assert_eq!(parse_number("18446744073709551616"), None);
    assert_eq!(parse_number("99999999999999999999999"), None);
    assert_eq!(parse_number(""), None);
    assert_eq!(parse_number("+"), None);
    assert_eq!(parse_number("-1"), None);
    assert_eq!(parse_number("++1"), None);
    assert_eq!(parse_number(" 1"), None);
    assert_eq!(parse_number("1 "), None);
    assert_eq!(parse_number("1a"), None);
    assert_eq!(parse_number("a1"), None);
    assert_eq!(parse_number("1.5"), None);
    assert_eq!(parse_number("٣"), None);
}

#[test]
fn reading_agrees_with_the_standard_parser() {
    for text in ["0", "1", "+5", "0010", "65536", "4294967296", "x", "", "+", "-0", "12 ", "1_000"] {
        assert_eq!(parse_number(text), text.parse::<u64>().ok(), "{text:?}");
    }
}

#[test]
fn an_answer_points_at_a_place_counted_from_one() {
    assert_eq!(pick_a_number("1", 3), Some(0));
    assert_eq!(pick_a_number("3", 3), Some(2));
    assert_eq!(pick_a_number("0", 3), None);
    assert_eq!(pick_a_number("4", 3), None);
    assert_eq!(pick_a_number("", 3), None);
    assert_eq!(pick_a_number("two", 3), None);
    assert_eq!(pick_a_number("1", 0), None);
    assert_eq!(pick_a_number("+2", 2), Some(1));
    assert_eq!(pick_a_number("18446744073709551616", 3), None);
}

#[test]
fn an_answer_is_snapped_to_a_choice() {
    let choices = vec![10, 20, 40];
    assert_eq!(pick_from_choices("17", &choices), Some(20));
    assert_eq!(pick_from_choices("40", &choices), Some(40));
    assert_eq!(pick_from_choices("41", &choices), None);
    assert_eq!(pick_from_choices("nine", &choices), None);
    assert_eq!(pick_from_choices("4294967296", &choices), None);
    assert_eq!(pick_from_choices("4294967306", &choices), None);
}

#[test]
fn how_the_buffer_time_is_settled() {
    assert_eq!(buffer_menu(&vec![]), BufferMenu::Recommended);
    assert_eq!(buffer_menu(&vec![25]), BufferMenu::Only(25));
    assert_eq!(buffer_menu(&vec![25, 26]), BufferMenu::Ask);
}

#[test]
fn windows_are_made_of_what_the_endpoint_reports() {
    let window = |reply| {
        let w = BufferWindow::from_reply(reply);
        (w.min_us(), w.max_us(), w.recommended_ms())
    };
    assert_eq!(window(None), (1000, 1000000, 500));
    assert_eq!(window(Some((1000, 5000))), (1000, 5000, 2));
    // The lower bound is rounded down, the upper bound up.
    assert_eq!(window(Some((1999, 5001))), (1000, 6000, 3));
    assert_eq!(window(Some((2000, 5999))), (2000, 6000, 3));
    // Both are brought into the absolute bounds.
    assert_eq!(window(Some((0, 0))), (1000, 1000, 1));
    assert_eq!(window(Some((999, 2000000))), (1000, 1000000, 500));
    assert_eq!(window(Some((5000000, u32::MAX))), (1000000, 1000000, 1000));
    assert_eq!(window(Some((u32::MAX, u32::MAX))), (1000000, 1000000, 1000));
    // Half the upper bound, but no less than the lower bound.
    assert_eq!(window(Some((40000, 50000))), (40000, 50000, 40));
    assert_eq!(window(Some((10000, 50000))), (10000, 50000, 25));
    assert_eq!(window(Some((1000, 3000))), (1000, 3000, 1));
    // A window whose bounds cross is empty.
    assert_eq!(window(Some((9000, 3000))), (9000, 3000, 9));
}
