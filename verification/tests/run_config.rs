use ip_geo::run::char_to_byte;
use ip_geo::run::get_run_type;
use ip_geo::CountryPair;
use ip_geo::RunType;

#[test]
fn run_type_selection() {
    assert_eq!(get_run_type(Some(true), true, true), RunType::Server);
    assert_eq!(get_run_type(Some(false), true, false), RunType::Ipv4);
    assert_eq!(get_run_type(None, true, true), RunType::Ipv4);
    assert_eq!(get_run_type(None, false, true), RunType::Ipv6);
    assert_eq!(get_run_type(Some(false), false, false), RunType::NoneSelected);
    assert_eq!(get_run_type(None, false, false), RunType::NoneSelected);
}

#[test]
fn char_to_byte_ascii() {
    assert_eq!(char_to_byte('#'), b'#');
    assert_eq!(char_to_byte(';'), b';');
    assert_eq!(char_to_byte('a'), 97);
}

#[test]
fn char_to_byte_multibyte_takes_first_byte() {
    // Each expected value is the first byte of the character's UTF-8
    // encoding.
    assert_eq!(char_to_byte('\u{e9}'), 0xC3); // two bytes
    assert_eq!(char_to_byte('\u{20ac}'), 0xE2); // three bytes
    assert_eq!(char_to_byte('\u{1f980}'), 0xF0); // four bytes
}

#[test]
fn country_pair_holds_code_and_name() {
    let pair = CountryPair::new(String::from("BE"), String::from("Belgium"));
    assert_eq!(pair.code, String::from("BE"));
    assert_eq!(pair.name, String::from("Belgium"));
}
