use direct_authenticator::address::{
    AccessPolicy, Address, AddressParseError, AddressParseErrorKind, Mailbox, Mailboxes,
    RelayMessage, TransportType,
};

#[test]
fn parse_addr_simple() {
    let addr = Address::from_string("local_friend");
    assert_eq!(
        addr,
        Address {
            tt: TransportType(0),
            inner: "local_friend".as_bytes().to_vec()
        }
    );
}

#[test]
fn parse_addr_with_type() {
    let addr = Address::from_string("1#remote_friend");
    assert_eq!(
        addr,
        Address {
            tt: TransportType::new(1),
            inner: "remote_friend".as_bytes().to_vec()
        }
    );
}

#[test]
fn parse_addr_invalid() {
    let r = Address::parse("#,my_friend");
    match r {
        Err(e) => assert_eq!(*e.kind(), AddressParseErrorKind::InvalidType),
        Ok(_) => panic!("an empty transport type must be refused"),
    }
}

#[test]
fn parse_addr_invalid_multiple_separators() {
    let r = Address::parse("1#invalid#");
    match r {
        Err(e) => assert_eq!(*e.kind(), AddressParseErrorKind::MultipleSep),
        Ok(_) => panic!("a second separator must be refused"),
    }
}

#[test]
fn parse_addr_overflow_and_plus() {
    assert!(Address::parse("256#x").is_err());
    let a = Address::parse("+7#x").expect("a leading plus sign parses");
    assert_eq!(a.transport_type(), TransportType::new(7));
    assert_eq!(a.address(), "x");
}

#[test]
fn address_accessors() {
    let a = Address::new(TransportType::new(1), "carol");
    assert_eq!(a.transport_type(), TransportType::new(1));
    assert!(!a.is_local());
    assert_eq!(a.address(), "carol");
    assert_eq!(a.without_type(), "carol");
    let local = Address::from_string("alice");
    assert!(local.is_local());
}

#[test]
fn address_invalid_utf8_fallbacks() {
    let a = Address {
        tt: TransportType(0),
        inner: vec![0xff, 0xfe],
    };
    assert_eq!(a.address(), "Invalid UTF-8");
    assert_eq!(a.without_type(), "<unprintable>");
}

#[test]
fn random_addresses_are_hex() {
    let a = Address::random_local();
    assert!(a.is_local());
    assert_eq!(a.inner.len(), 32);
    for b in a.inner.iter() {
        assert!(b.is_ascii_hexdigit());
        assert!(!b.is_ascii_uppercase());
    }
    let b = Address::random(TransportType::new(3));
    assert_eq!(b.transport_type(), TransportType::new(3));
    assert_eq!(b.inner.len(), 32);
    let c = Address::random_tagged("some-tag");
    assert!(c.is_local());
}

#[test]
fn transport_type_locality() {
    assert!(TransportType::new(0).is_local());
    assert!(!TransportType::new(1).is_local());
}

#[test]
fn mailboxes_lookup_and_authorization() {
    let main = Mailbox::new(
        Address::from_string("main"),
        AccessPolicy::AllowAll,
        AccessPolicy::DenyAll,
    );
    let extra = Mailbox::deny_all(Address::from_string("extra"));
    assert_eq!(extra.address(), &Address::from_string("extra"));
    assert_eq!(*extra.incoming_access_control(), AccessPolicy::DenyAll);
    assert_eq!(*extra.outgoing_access_control(), AccessPolicy::DenyAll);

    let boxes = Mailboxes::new(main, vec![extra]);
    assert_eq!(boxes.main_address(), Address::from_string("main"));
    assert!(boxes.contains(&Address::from_string("main")));
    assert!(boxes.contains(&Address::from_string("extra")));
    assert!(!boxes.contains(&Address::from_string("other")));
    assert!(boxes.find_mailbox(&Address::from_string("extra")).is_some());
    assert!(boxes.find_mailbox(&Address::from_string("other")).is_none());
    assert_eq!(boxes.aliases(), vec![Address::from_string("extra")]);
    assert_eq!(
        boxes.addresses(),
        vec![Address::from_string("main"), Address::from_string("extra")]
    );
    assert_eq!(boxes.main_mailbox().address(), &Address::from_string("main"));
    assert_eq!(boxes.additional_mailboxes().len(), 1);

    let to_main = RelayMessage {
        source: Address::from_string("extra"),
        destination: Address::from_string("main"),
    };
    // the main mailbox lets messages in but not out
    assert!(boxes.is_incoming_authorized(&to_main));
    let from_main = RelayMessage {
        source: Address::from_string("main"),
        destination: Address::from_string("extra"),
    };
    assert!(!boxes.is_outgoing_authorized(&from_main));
    // an address with no mailbox is refused
    let unknown = RelayMessage {
        source: Address::from_string("other"),
        destination: Address::from_string("other"),
    };
    assert!(!boxes.is_incoming_authorized(&unknown));
}

#[test]
fn address_parse_error_ctor() {
    let e = AddressParseError::new(AddressParseErrorKind::MultipleSep);
    assert_eq!(*e.kind(), AddressParseErrorKind::MultipleSep);
}
