use tic_tac_toe::host::Address;
use tic_tac_toe::host::ParseU256Error;

#[test]
fn address_text_is_fixed() {
    let a = Address {};
    assert_eq!(a.text(), "Address".to_string());
}

#[test]
fn parse_error_message_carries_the_reason() {
    let e = ParseU256Error { msg: "InvalidCharacter".to_string() };
    assert_eq!(e.message(), "Parse U256 Error: InvalidCharacter".to_string());
}
