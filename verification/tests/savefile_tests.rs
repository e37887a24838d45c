use quickcapture::savefile::{
    check_filename, generate_filename, save_pathname, ImgFormats, SavePath,
};

#[test]
fn validator_rejects_separator_characters() {
    assert!(!check_filename("a/b"));
    assert!(!check_filename("a:b"));
    assert!(!check_filename("a*b"));
    assert!(!check_filename("a\\b"));
    assert!(!check_filename("a?b"));
    assert!(!check_filename("a\"b"));
    assert!(!check_filename("a<b"));
    assert!(!check_filename("a>b"));
    assert!(!check_filename("a|b"));
}

#[test]
fn validator_accepts_ordinary_names() {
    assert!(check_filename("Screenshot_2024-01-01"));
    assert!(check_filename(""));
    assert!(check_filename("capture (2).final"));
}

#[test]
fn generated_filename_is_always_valid() {
    let name = generate_filename();
    assert!(!name.is_empty());
    assert!(check_filename(&name));
    // The pattern year-month-day, then T, then underscore-separated time.
    assert_eq!(name.len(), 19);
    assert_eq!(&name[4..5], "-");
    assert_eq!(&name[10..11], "T");
    assert_eq!(&name[13..14], "_");
}

#[test]
fn save_path_defaults_to_a_timestamp_name() {
    let sp = SavePath::new(String::from("/tmp/shots"), ImgFormats::PNG);
    assert_eq!(sp.path, "/tmp/shots");
    assert_eq!(sp.format, ImgFormats::PNG);
    assert!(!sp.user_mod_name);
    assert!(check_filename(&sp.name));
}

#[test]
fn pathname_joins_directory_name_and_extension() {
    let mut sp = SavePath::new(String::from("/tmp/shots"), ImgFormats::PNG);
    sp.name = String::from("capture");
    assert_eq!(save_pathname(&sp), "/tmp/shots/capture.png");
    sp.format = ImgFormats::JPEG;
    assert_eq!(save_pathname(&sp), "/tmp/shots/capture.jpeg");
    sp.format = ImgFormats::GIF;
    assert_eq!(save_pathname(&sp), "/tmp/shots/capture.gif");
}
