use rip::binding::{PortBinding, Protocol};

#[test]
fn binding_holds_what_it_was_made_of() {
    let binding = PortBinding::new(4242, 8080, Protocol::Udp, "node".to_string()).unwrap();
    assert_eq!(binding.pid(), 4242);
    assert_eq!(binding.port(), 8080);
    assert_eq!(binding.protocol(), Protocol::Udp);
    assert_eq!(binding.name(), "node");
    assert_eq!(binding.clone(), binding);
}

#[test]
fn binding_may_have_the_least_and_the_largest_port() {
    assert_eq!(PortBinding::new(0, 1, Protocol::Tcp, String::new()).unwrap().port(), 1);
    assert_eq!(
        PortBinding::new(u32::MAX, 65535, Protocol::Unknown, String::new()).unwrap().port(),
        65535
    );
}

#[test]
fn no_binding_has_the_port_zero() {
    assert_eq!(PortBinding::new(1, 0, Protocol::Tcp, "node".to_string()), None);
}
