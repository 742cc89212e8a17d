use auto_desk::server::{make_payload, split_cmd};

/// tests the function "make_payload"
#[test]
fn server_test_make_payload() {
    let pl_1 = make_payload(5, Some("12345".to_string()));
    let pl_2 = make_payload(0, Some("123".to_string()));
    let pl_3 = make_payload(5, None);
    let pl_4 = make_payload(0, None);
    let pl_5 = make_payload(0, Some(String::new()));
    let pl_6 = make_payload(0, Some("".to_string()));
    assert_eq!(pl_1, vec![5, 7, 49, 50, 51, 52, 53]);
    assert_eq!(pl_2, vec![0, 0, 49, 50, 51]);
    assert_eq!(pl_3, vec![5, 7]);
    assert_eq!(pl_4, vec![0, 0]);
    assert_eq!(pl_5, vec![0, 0]);
    assert_eq!(pl_6, vec![0, 0]);
}

/// tests the function "make_payload"
#[test]
fn main_test_make_payload() {
    let pl_1 = make_payload(5, Some("12345".to_string()));
    let pl_2 = make_payload(0, Some("123".to_string()));
    let pl_3 = make_payload(5, None);
    let pl_4 = make_payload(0, None);
    let pl_5 = make_payload(0, Some(String::new()));
    let pl_6 = make_payload(0, Some("".to_string()));
    assert_eq!(pl_1, vec![5, 7, 49, 50, 51, 52, 53]);
    assert_eq!(pl_2, vec![0, 0, 49, 50, 51]);
    assert_eq!(pl_3, vec![5, 7]);
    assert_eq!(pl_4, vec![0, 0]);
    assert_eq!(pl_5, vec![0, 0]);
    assert_eq!(pl_6, vec![0, 0]);
}

#[test]
fn split_cmd_splits_at_first_space() {
    let (cmd, args) = split_cmd("add-hook backlight xbacklight -set 50");
    assert_eq!(cmd, "add-hook");
    assert_eq!(args, "backlight xbacklight -set 50");

    let (cmd, args) = split_cmd("SERVER-EXIT");
    assert_eq!(cmd, "SERVER-EXIT");
    assert_eq!(args, "");
}
