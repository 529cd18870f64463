use asound_conf_wizard::card::card_key;

#[test]
fn card_key_of_a_named_card() {
    assert_eq!(card_key("hw:CARD=PCH,DEV=0"), "PCH");
}

#[test]
fn card_key_without_a_sign_is_the_first_field() {
    assert_eq!(card_key("hw:0,0"), "hw:0");
}

#[test]
fn card_key_without_a_comma_runs_to_the_end() {
    assert_eq!(card_key("hdmi:CARD=NVidia"), "NVidia");
}

#[test]
fn card_key_is_trimmed() {
    assert_eq!(card_key("hw:CARD= USB Audio \t,DEV=1"), "USB Audio");
    assert_eq!(card_key("  plain  "), "plain");
}

#[test]
fn card_key_ignores_a_sign_behind_the_first_comma() {
    assert_eq!(card_key("hw:0,DEV=1"), "hw:0");
}

#[test]
fn card_key_keeps_a_second_sign() {
    assert_eq!(card_key("a=b=c,d"), "b=c");
}

#[test]
fn card_key_of_nothing_is_empty() {
    assert_eq!(card_key(""), "");
    assert_eq!(card_key(",DEV=0"), "");
    assert_eq!(card_key("CARD=   ,DEV=0"), "");
}
