use route_doctor::ip::{is_hostname, is_valid_ip};

#[test]
fn test_is_valid_ip() {
    assert!(is_valid_ip("192.168.1.1"));
    assert!(is_valid_ip("8.8.8.8"));
    assert!(is_valid_ip("::1"));
    assert!(!is_valid_ip("not-an-ip"));
    assert!(!is_valid_ip(""));
}

#[test]
fn test_is_hostname() {
    assert!(is_hostname("google.com"));
    assert!(is_hostname("localhost"));
    assert!(!is_hostname("192.168.1.1"));
}

#[test]
fn ip_literals_follow_std_notation() {
    let samples: [(&str, bool); 30] = [
        ("0.0.0.0", true), ("255.255.255.255", true), ("256.1.1.1", false), ("01.2.3.4", false),
        ("1.2.3", false), ("1.2.3.4.", false), ("1..2.3", false), ("::", true), ("1::", true),
        ("::ffff:1.2.3.4", true), ("1:2:3:4:5:6:7:8", true), ("1:2:3:4:5:6:7:8:9", false),
        ("1:2:3:4:5:6:1.2.3.4", true), ("1:2:3:4:5:6:7::", true), ("1:2:3:4:5:6:7:8::", false),
        (":::", false), ("1:::2", false), ("12345::1", false), ("fe80::1", true), ("FE80::ABCD:1", true),
        ("1.2.3.4::", false), ("::1.2.3.4:5", false), ("g::1", false), (":1::2", false), ("1::2::3", false),
        ("2001:db8::1.2.3.4", true), (" 1.2.3.4", false), ("1:2:3:4:5:6:7:1.2.3.4", false),
        ("::1:2:3:4:5:6:7", true), ("::1:2:3:4:5:6:1.2.3.4", false),
    ];
    for (s, expected) in samples.iter() {
        assert_eq!(is_valid_ip(s), *expected, "mismatch on {:?}", s);
    }
}

#[test]
fn hostname_with_symbols_is_rejected() {
    assert!(!is_hostname("under_score"));
    assert!(is_hostname("my-host"));
    assert!(!is_hostname("::1"));
}

#[test]
fn empty_and_spaced_text_is_no_hostname() {
    assert!(!is_hostname(""));
    assert!(!is_hostname("a b"));
    assert!(is_hostname("1.2.3"));
}
