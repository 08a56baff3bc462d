use percas::addr::{resolve_advertise_addr, AddrError, Endpoint, Host};

#[test]
fn a_configured_address_is_taken() {
    let listen = Endpoint { host: Host::V4(0), port: 7654 };
    let configured = Endpoint { host: Host::V4(0x0a000002), port: 80 };
    assert_eq!(resolve_advertise_addr(listen, Some(configured), None), Ok(configured));
    assert_eq!(
        resolve_advertise_addr(listen, Some(configured), Some(Host::V4(1))),
        Ok(configured)
    );
}

#[test]
fn a_wildcard_listener_advertises_the_local_address() {
    let listen = Endpoint { host: Host::V4(0), port: 7654 };
    assert_eq!(
        resolve_advertise_addr(listen, None, Some(Host::V4(0xc0a80005))),
        Ok(Endpoint { host: Host::V4(0xc0a80005), port: 7654 })
    );
    assert_eq!(resolve_advertise_addr(listen, None, None), Err(AddrError::NoLocalAddress));
    let listen6 = Endpoint { host: Host::V6(0), port: 1 };
    assert_eq!(
        resolve_advertise_addr(listen6, None, Some(Host::V6(1))),
        Ok(Endpoint { host: Host::V6(1), port: 1 })
    );
}

#[test]
fn a_bound_listener_advertises_itself() {
    let listen = Endpoint { host: Host::V4(0x7f000001), port: 7654 };
    assert_eq!(resolve_advertise_addr(listen, None, None), Ok(listen));
    assert_eq!(resolve_advertise_addr(listen, None, Some(Host::V4(9))), Ok(listen));
    assert!(Host::V4(0).is_unspecified());
    assert!(Host::V6(0).is_unspecified());
    assert!(!Host::V6(1).is_unspecified());
}
