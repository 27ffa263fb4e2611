use botcore::codec::ConfigLoadError;
use botcore::codec::parse_config;
use botcore::codec::render_config;
use botcore::codec::save_then_load;
use botcore::config::Config;

fn sample_config() -> Config {
    Config {
        text_detect_cooldown: 45,
        starboard_channel: 1065374222222222222,
        starboard_threshold: 3,
        bot_roles: vec![11, 22, 33],
        moderated_patterns: vec![b"badword".to_vec(), b"spam link".to_vec()],
    }
}

fn num_line(n: u64) -> String {
    format!("{:020}\n", n)
}

fn sample_document() -> Vec<u8> {
    let mut doc = String::new();
    doc.push_str(&num_line(45));
    doc.push_str(&num_line(1065374222222222222));
    doc.push_str(&num_line(3));
    doc.push_str(&num_line(3));
    doc.push_str(&num_line(11));
    doc.push_str(&num_line(22));
    doc.push_str(&num_line(33));
    doc.push_str(&num_line(2));
    doc.push_str(&num_line(7));
    doc.push_str("badword\n");
    doc.push_str(&num_line(9));
    doc.push_str("spam link\n");
    doc.into_bytes()
}

#[test]
fn saved_form_is_the_fixed_layout() {
    assert_eq!(render_config(&sample_config()), sample_document());
}

#[test]
fn save_then_load_is_identity() {
    let c = sample_config();
    assert_eq!(save_then_load(&c), Ok(c));
}

#[test]
fn load_save_load_yields_an_equal_configuration() {
    let first = parse_config(&sample_document()).expect("well-formed document must load");
    let saved = render_config(&first);
    let second = parse_config(&saved).expect("saved document must load");
    assert_eq!(first, second);
}

#[test]
fn empty_configuration_round_trips() {
    let c = Config {
        text_detect_cooldown: 0,
        starboard_channel: 0,
        starboard_threshold: 0,
        bot_roles: vec![],
        moderated_patterns: vec![],
    };
    assert_eq!(save_then_load(&c), Ok(c));
}

#[test]
fn extreme_values_round_trip() {
    let c = Config {
        text_detect_cooldown: u64::MAX,
        starboard_channel: u64::MAX,
        starboard_threshold: 1,
        bot_roles: vec![0, u64::MAX],
        moderated_patterns: vec![vec![], vec![0u8, 10u8, 255u8]],
    };
    // A pattern may hold any byte, the newline included: its length, not a
    // terminator, delimits it.
    assert_eq!(save_then_load(&c), Ok(c));
}

#[test]
fn empty_document_is_malformed() {
    assert_eq!(parse_config(&Vec::new()), Err(ConfigLoadError::Malformed));
}

#[test]
fn bad_digit_is_malformed() {
    let mut doc = sample_document();
    doc[0] = b'x';
    assert_eq!(parse_config(&doc), Err(ConfigLoadError::Malformed));
}

#[test]
fn missing_newline_is_malformed() {
    let mut doc = sample_document();
    doc[20] = b' ';
    assert_eq!(parse_config(&doc), Err(ConfigLoadError::Malformed));
}

#[test]
fn truncated_document_is_malformed() {
    let mut doc = sample_document();
    doc.pop();
    assert_eq!(parse_config(&doc), Err(ConfigLoadError::Malformed));
}

#[test]
fn trailing_bytes_are_malformed() {
    let mut doc = sample_document();
    doc.push(b'\n');
    assert_eq!(parse_config(&doc), Err(ConfigLoadError::Malformed));
}

#[test]
fn number_beyond_u64_is_malformed() {
    let mut doc = sample_document();
    // The first field becomes 99999999999999999999, which exceeds u64::MAX.
    for i in 0..20 {
        doc[i] = b'9';
    }
    assert_eq!(parse_config(&doc), Err(ConfigLoadError::Malformed));
}

#[test]
fn wrong_role_count_is_malformed() {
    let mut doc = sample_document();
    // The role count field claims 4 roles; only 3 follow.
    doc[3 * 21 + 19] = b'4';
    assert_eq!(parse_config(&doc), Err(ConfigLoadError::Malformed));
}

#[test]
fn wrong_pattern_length_is_malformed() {
    let mut doc = sample_document();
    // The first pattern's length field claims 8 bytes; "badword" has 7.
    doc[8 * 21 + 19] = b'8';
    assert_eq!(parse_config(&doc), Err(ConfigLoadError::Malformed));
}
