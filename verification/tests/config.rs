use rustris::config::{load_config_bytes, parse_array, parse_tuple, save_config_bytes, Config, ConfigError};
use rustris::game::Shape;

fn sample_config() -> Config {
    Config {
        colors: vec![
            ((255, 0, 0), Shape::I),
            ((0, 255, 0), Shape::J),
            ((0, 0, 255), Shape::L),
            ((255, 255, 0), Shape::O),
            ((255, 0, 255), Shape::S),
            ((0, 255, 255), Shape::T),
            ((128, 128, 128), Shape::Z),
        ],
        keys: vec![1, 2, 3, 4, 5],
        speed: b"1".to_vec(),
        size: (10, 20),
    }
}

#[test]
fn test_parse_array() {
    assert_eq!(parse_array("[1, 2, 3, 4, 5]").unwrap(), vec![1, 2, 3, 4, 5]);
}

#[test]
fn test_parse_array_rejects_malformed() {
    assert_eq!(parse_array("1, 2, 3"), Err(ConfigError::Parse));
    assert_eq!(parse_array("[1, 2,3]"), Err(ConfigError::Parse));
    assert_eq!(parse_array("[]"), Err(ConfigError::Parse));
    assert_eq!(parse_array("[1, oops]"), Err(ConfigError::Parse));
}

#[test]
fn test_parse_tuple() {
    assert_eq!(parse_tuple("(10, 20)").unwrap(), (10, 20));
    assert_eq!(parse_tuple("(-5, 7)").unwrap(), (-5, 7));
}

#[test]
fn test_parse_tuple_rejects_malformed() {
    assert_eq!(parse_tuple("10, 20"), Err(ConfigError::Parse));
    assert_eq!(parse_tuple("(10)"), Err(ConfigError::Parse));
    assert_eq!(parse_tuple("(10, 20) "), Err(ConfigError::Parse));
    assert_eq!(parse_tuple("(10, 9999999999)"), Err(ConfigError::Parse));
}

#[test]
fn test_save_config_bytes_exact_text() {
    let text = String::from_utf8(save_config_bytes(&sample_config())).unwrap();
    let expected = "### color configuration ###\n\
                    I: (255, 0, 0)\n\
                    J: (0, 255, 0)\n\
                    L: (0, 0, 255)\n\
                    O: (255, 255, 0)\n\
                    S: (255, 0, 255)\n\
                    T: (0, 255, 255)\n\
                    Z: (128, 128, 128)\n\
                    \n\
                    ### key binding configuration ###\n\
                    [1, 2, 3, 4, 5]\n\
                    \n\
                    ### speed configuration ###\n\
                    1\n\
                    \n\
                    ### field size configuration (height, width) ###\n\
                    (10, 20)\n";
    assert_eq!(text, expected);
}

#[test]
fn test_config_round_trip() {
    let config = sample_config();
    let bytes = save_config_bytes(&config);
    let loaded = load_config_bytes(&bytes).unwrap();
    assert_eq!(loaded, config);
}

#[test]
fn test_config_round_trip_awkward_values() {
    let config = Config {
        colors: vec![
            ((0, 0, 0), Shape::Z),
            ((1, 10, 100), Shape::Z),
            ((200, 250, 255), Shape::I),
            ((9, 90, 99), Shape::O),
            ((255, 255, 255), Shape::S),
            ((0, 128, 7), Shape::T),
            ((42, 42, 42), Shape::J),
        ],
        keys: vec![0, 255, 10, 32, 91],
        speed: b"0.125".to_vec(),
        size: (-2147483648, 2147483647),
    };
    let bytes = save_config_bytes(&config);
    let loaded = load_config_bytes(&bytes).unwrap();
    assert_eq!(loaded, config);
}

#[test]
fn test_load_config_rejects_garbage() {
    assert_eq!(load_config_bytes(b"garbage"), Err(ConfigError::Parse));
    assert_eq!(load_config_bytes(b""), Err(ConfigError::Parse));
}

#[test]
fn test_load_config_rejects_wrong_section_order() {
    let config = sample_config();
    let bytes = save_config_bytes(&config);
    // swap the first two bytes: the color header no longer matches
    let mut broken = bytes.clone();
    broken[0] = b'x';
    assert_eq!(load_config_bytes(&broken), Err(ConfigError::Parse));
    // truncating the file loses the size section
    let truncated = &bytes[..bytes.len() - 1];
    assert_eq!(load_config_bytes(truncated), Err(ConfigError::Parse));
}

#[test]
fn test_load_config_rejects_bad_number() {
    let config = sample_config();
    let text = String::from_utf8(save_config_bytes(&config)).unwrap();
    let broken = text.replace("(255, 0, 0)", "(999, 0, 0)");
    assert_eq!(load_config_bytes(broken.as_bytes()), Err(ConfigError::Parse));
}
