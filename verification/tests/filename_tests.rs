use rohan::filename::test_name_to_filename;

#[test]
fn test_name_to_filename_basic() {
    assert_eq!(test_name_to_filename("Get_Message_Basic"), "test_get_message_basic.js");
}

#[test]
fn test_name_to_filename_with_spaces() {
    assert_eq!(
        test_name_to_filename("Get Message With Spaces"),
        "test_get_message_with_spaces.js"
    );
}

#[test]
fn test_name_to_filename_mixed_case() {
    assert_eq!(test_name_to_filename("GetUserById"), "test_getuserbyid.js");
}

#[test]
fn test_name_to_filename_special_chars() {
    assert_eq!(test_name_to_filename("Test: API/Endpoint (v2)"), "test_test_api_endpoint_v2.js");
}

#[test]
fn test_name_to_filename_multiple_underscores() {
    assert_eq!(
        test_name_to_filename("Test___Multiple___Underscores"),
        "test_test_multiple_underscores.js"
    );
}

#[test]
fn test_name_to_filename_leading_special_chars() {
    assert_eq!(test_name_to_filename("---Test Name---"), "test_test_name.js");
}

#[test]
fn test_name_to_filename_numbers() {
    assert_eq!(test_name_to_filename("Test_123_Numbers"), "test_test_123_numbers.js");
}

#[test]
fn test_name_to_filename_ack_timeout() {
    assert_eq!(
        test_name_to_filename("Get_Message_With_AckTimeout"),
        "test_get_message_with_acktimeout.js"
    );
}

#[test]
fn test_name_to_filename_empty() {
    assert_eq!(test_name_to_filename(""), "test_.js");
}
