use lib::command_pardon_ip::{is_inet_address, pardon_ip, PardonIpError, PardonIpOutput};

#[test]
fn pardon_ip_validates_ip_before_ban_list_lookup_like_java() {
    let bans = vec!["203.0.113.7".to_string()];

    assert_eq!(pardon_ip("not-an-ip", &bans), Err(PardonIpError::Invalid));
    assert_eq!(
        pardon_ip("203.0.113.8", &bans),
        Err(PardonIpError::NotBanned)
    );
    assert_eq!(
        pardon_ip("203.0.113.7", &bans),
        Ok(PardonIpOutput {
            success_count: 1,
            feedback_key: "commands.pardonip.success",
            removed_ip: "203.0.113.7".to_string(),
            broadcast_to_admins: true,
        })
    );
}

#[test]
fn pardon_ip_accepts_ipv4_and_ipv6_literals_like_inet_addresses() {
    let bans = vec!["2001:db8::1".to_string(), "192.0.2.44".to_string()];

    assert!(pardon_ip("192.0.2.44", &bans).is_ok());
    assert!(pardon_ip("2001:db8::1", &bans).is_ok());
    assert_eq!(pardon_ip("192.0.2.999", &bans), Err(PardonIpError::Invalid));
}

#[test]
fn ip_literals_follow_the_standard_address_grammar() {
    for valid in [
        "0.0.0.0",
        "255.255.255.255",
        "::",
        "::1",
        "1::",
        "1:2:3:4:5:6:7:8",
        "1:2:3:4:5:6:7::",
        "::2:3:4:5:6:7:8",
        "::ffff:192.0.2.1",
        "1:2:3:4:5:6:1.2.3.4",
        "FFFF:abcd::0",
    ] {
        assert!(is_inet_address(valid), "{valid} should be an address");
    }
    for invalid in [
        "",
        "1.2.3",
        "1.2.3.4.5",
        "01.2.3.4",
        "256.1.1.1",
        "1.2.3.4 ",
        ":::",
        "1::2::3",
        "12345::",
        "1:2:3:4:5:6:7:8:9",
        "1.2.3.4::",
        "g::1",
        "1:2:3:4:5:6:7:1.2.3.4",
    ] {
        assert!(!is_inet_address(invalid), "{invalid} should not be an address");
    }
}
