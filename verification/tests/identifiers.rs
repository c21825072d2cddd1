use homeserver::util::domain::{Domain, InvalidDomainError};
use homeserver::util::mxid::{Id, MatrixId, MxidError, RoomId};

fn check_parse(domain: &str) {
    assert_eq!(
        Domain::from_str(domain),
        Ok(Domain::new(domain.to_owned()).unwrap())
    );
}

#[test]
fn lan_domain_is_valid() {
    check_parse("something.lan")
}

#[test]
fn google_dot_com_is_valid() {
    check_parse("google.com");
    check_parse("www.google.com");
}

#[test]
fn domain_with_port_is_valid() {
    check_parse("thingy.com:5442");
}

#[test]
fn matrix_id_parsing_preserves_port_in_domain() {
    let id = MatrixId::from_str("@name:test:8000").unwrap();
    assert_eq!(id.localpart(), "name");
    assert_eq!(id.domain().as_str(), "test:8000");
}

#[test]
fn id_requires_first_character_to_match_prefix() {
    let rs = Id::<b'a'>::from_str("aname:test");
    assert!(rs.is_ok());
    let rs = Id::<b'a'>::from_str("bname:test");
    assert!(rs.is_err());
}

#[test]
fn id_prints_prefix_as_first_char_with_display() {
    let id = Id::<b'a'>::new("hello", Domain::new("test".to_owned()).unwrap()).unwrap();
    assert!(id.to_string().starts_with('a'));
}

#[test]
fn id_can_be_compared_to_a_string() {
    let id = MatrixId::new("a", Domain::from_str("b").unwrap()).unwrap();
    assert!(id.eq_str("@a:b"));
    assert!(!id.eq_str("@ab"), "id's do not match invalid strings");
}

#[test]
fn room_id_can_be_parsed_from_prefix_exclamation() {
    let id = RoomId::from_str("!a:b");
    assert!(id.is_ok());
}

#[test]
fn random_room_id_is_valid() {
    let id = RoomId::new_with_random_local(Domain::from_str("b").unwrap()).unwrap();
    assert!(RoomId::from_str(&id.to_string()).is_ok());
}

#[test]
fn domain_grammar_accepts_hosts_and_ports() {
    for ok in ["hello", "b", "1.2.3.4", "1.2.3.4:8448", "[::1]", "[1234:5678::abcd]:5678", "a-b.c:1", "EXAMPLE.org:65535"] {
        assert!(Domain::is_valid(ok), "{}", ok);
    }
}

#[test]
fn domain_grammar_rejects_malformed_names() {
    for bad in ["", ":", "a:", ":80", "a:b", "a:123456", "a b", "a_b", "[::1", "[]", "[g::1]", "a:1:2", "exa/mple.org", "caf\u{e9}.org"] {
        assert!(!Domain::is_valid(bad), "{}", bad);
        assert_eq!(Domain::from_str(bad), Err(InvalidDomainError {}));
        assert!(Domain::new(bad.to_owned()).is_none());
    }
}

#[test]
fn domain_length_limits() {
    let longest = "a".repeat(255);
    assert!(Domain::is_valid(&longest));
    assert!(!Domain::is_valid(&"a".repeat(256)));
    assert!(Domain::is_valid(&format!("{}:12345", longest)));
    let inner = "1".repeat(45);
    assert!(Domain::is_valid(&format!("[{}]", inner)));
    assert!(!Domain::is_valid(&format!("[{}]", "1".repeat(46))));
    assert!(!Domain::is_valid("[1]"));
}

#[test]
fn domain_text_is_kept() {
    let d = Domain::new("thingy.com:5442".to_owned()).unwrap();
    assert_eq!(d.as_str(), "thingy.com:5442");
    assert_eq!(d.to_string(), "thingy.com:5442");
    assert_eq!(d.clone(), d);
    assert_eq!(InvalidDomainError {}.to_string(), "invalid domain string");
}

#[test]
fn parsing_reports_each_error() {
    assert_eq!(MatrixId::from_str("name:test").unwrap_err(), MxidError::NoLeadingChar('@'));
    assert_eq!(MatrixId::from_str("").unwrap_err(), MxidError::NoLeadingChar('@'));
    assert_eq!(RoomId::from_str("@a:b").unwrap_err(), MxidError::NoLeadingChar('!'));
    assert_eq!(MatrixId::from_str("@nametest").unwrap_err(), MxidError::WrongNumberOfColons);
    assert_eq!(MatrixId::from_str("@a:b:c:d").unwrap_err(), MxidError::InvalidDomain);
    assert_eq!(MatrixId::from_str("@a:").unwrap_err(), MxidError::InvalidDomain);
    assert_eq!(MatrixId::from_str("@Name:test").unwrap_err(), MxidError::InvalidChar);
    assert_eq!(MatrixId::from_str("@na me:test").unwrap_err(), MxidError::InvalidChar);
    assert!(RoomId::from_str("!Na me:test").is_ok());
    let long = format!("@{}:test", "a".repeat(250));
    assert_eq!(long.len(), 256);
    assert_eq!(MatrixId::from_str(&long).unwrap_err(), MxidError::TooLong);
    let fits = format!("@{}:test", "a".repeat(249));
    assert_eq!(fits.len(), 255);
    assert!(MatrixId::from_str(&fits).is_ok());
}

#[test]
fn invalid_characters_are_reported_before_length() {
    let long = format!("@{}:test", "A".repeat(300));
    assert_eq!(MatrixId::from_str(&long).unwrap_err(), MxidError::InvalidChar);
}

#[test]
fn length_is_counted_in_bytes() {
    let domain = Domain::from_str("test").unwrap();
    // 125 two-byte characters, 4 bytes of domain, prefix and colon: 256 bytes.
    let local = "\u{e9}".repeat(125);
    assert_eq!(RoomId::new(&local, domain.clone()).unwrap_err(), MxidError::TooLong);
    let local = "\u{e9}".repeat(124);
    let id = RoomId::new(&local, domain).unwrap();
    assert_eq!(id.str_len(), 254);
    assert_eq!(id.to_string().len(), 254);
}

#[test]
fn new_checks_the_parts() {
    let domain = Domain::from_str("example.org").unwrap();
    assert_eq!(MatrixId::new("Alice", domain.clone()).unwrap_err(), MxidError::InvalidChar);
    assert_eq!(MatrixId::validate_parts("al:ice", &domain).unwrap_err(), MxidError::InvalidChar);
    assert!(MatrixId::validate_parts("a-z_0.9=/", &domain).is_ok());
    assert!(RoomId::validate_parts("Anything goes", &domain).is_ok());
    let id = MatrixId::new("alice", domain).unwrap();
    assert_eq!(id.localpart(), "alice");
    assert_eq!(id.domain().as_str(), "example.org");
    assert_eq!(id.str_len(), 18);
    assert_eq!(id.to_string(), "@alice:example.org");
    assert!(MatrixId::is_matrix_id());
    assert!(!RoomId::is_matrix_id());
}

#[test]
fn validate_all_splits_at_the_first_colon() {
    let (domain, local) = MatrixId::validate_all("@name:test:8000").unwrap();
    assert_eq!(local, "name");
    assert_eq!(domain.as_str(), "test:8000");
}

#[test]
fn text_round_trips_through_parsing() {
    for text in ["@alice:example.org", "@a:b", "@a-b_c.d=e/f:host.name:8448", "@:b"] {
        let id = MatrixId::from_str(text).unwrap();
        assert_eq!(id.to_string(), text);
        assert_eq!(MatrixId::from_str(&id.to_string()).unwrap(), id);
    }
    let id = RoomId::from_str("!R\u{f6}om 1:[::1]:80").unwrap();
    assert_eq!(id.localpart(), "R\u{f6}om 1");
    assert_eq!(id.domain().as_str(), "[::1]:80");
    assert_eq!(RoomId::from_str(&id.to_string()).unwrap(), id);
}

#[test]
fn a_colon_in_the_localpart_does_not_round_trip() {
    let id = RoomId::new("a:b", Domain::from_str("c").unwrap()).unwrap();
    assert_eq!(id.to_string(), "!a:b:c");
    assert!(!id.eq_str("!a:b:c"));
    assert!(RoomId::from_str("!a:b:c").is_err());
}

#[test]
fn seeded_room_localparts_are_sixteen_hex_digits() {
    let domain = Domain::from_str("b").unwrap();
    let id = RoomId::new_with_local_from(0, domain.clone()).unwrap();
    assert_eq!(id.to_string(), "!0000000000000000:b");
    let id = RoomId::new_with_local_from(-1, domain.clone()).unwrap();
    assert_eq!(id.localpart(), "FFFFFFFFFFFFFFFF");
    let id = RoomId::new_with_local_from(0x1234_5678_9abc_def0, domain.clone()).unwrap();
    assert_eq!(id.localpart(), "123456789ABCDEF0");
    let id = RoomId::new_with_local_from(i64::MIN, domain.clone()).unwrap();
    assert_eq!(id.localpart(), "8000000000000000");
    let id = RoomId::new_with_local_from(255, domain).unwrap();
    assert_eq!(id.localpart(), format!("{:016X}", 255i64));
}

#[test]
fn random_localparts_respect_the_length_limit() {
    let long = Domain::from_str(&"a".repeat(238)).unwrap();
    assert_eq!(RoomId::new_with_random_local(long).unwrap_err(), MxidError::TooLong);
    let fits = Domain::from_str(&"a".repeat(237)).unwrap();
    let id = RoomId::new_with_random_local(fits).unwrap();
    assert_eq!(id.localpart().len(), 16);
    assert!(id.localpart().chars().all(|c| c.is_ascii_digit() || ('A'..='F').contains(&c)));
    let id = MatrixId::new_with_random_local(Domain::from_str("b").unwrap()).unwrap();
    assert_eq!(id.to_string(), "@todo-impl-me:b");
    let long = Domain::from_str(&"a".repeat(242)).unwrap();
    assert_eq!(MatrixId::new_with_random_local(long).unwrap_err(), MxidError::TooLong);
}

#[test]
fn error_messages() {
    assert_eq!(MxidError::NoLeadingChar('@').to_string(), "An ID must begin @");
    assert_eq!(
        MxidError::WrongNumberOfColons.to_string(),
        "A Matrix ID must contain exactly one colon."
    );
    assert_eq!(
        MxidError::InvalidDomain.to_string(),
        "A Matrix ID must contain a valid domain name."
    );
    assert_eq!(
        MxidError::InvalidChar.to_string(),
        "A Matrix ID can only have lowercase letters, numbers, and `-_.=/`."
    );
    assert_eq!(
        MxidError::TooLong.to_string(),
        "A Matrix ID can only be 255 characters long, including the '@', localpart, ':' and domain."
    );
}
