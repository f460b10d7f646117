use aud::options::{parse_ports, remote, Exit, Remote};

#[test]
fn exit_codes_are_zero_one_and_two() {
    assert_eq!(Exit::Normal.code(), 0);
    assert_eq!(Exit::Failure.code(), 1);
    assert_eq!(Exit::BadArguments.code(), 2);
}

#[test]
fn a_list_of_ports_is_read() {
    assert_eq!(parse_ports("8080,8081"), Some(vec![8080, 8081]));
    assert_eq!(parse_ports("1"), Some(vec![1]));
    assert_eq!(parse_ports("0,65535,007"), Some(vec![0, 65535, 7]));
}

#[test]
fn a_port_has_digits_and_fits_in_sixteen_bits() {
    assert_eq!(parse_ports(""), None);
    assert_eq!(parse_ports(","), None);
    assert_eq!(parse_ports("8080,"), None);
    assert_eq!(parse_ports(",8080"), None);
    assert_eq!(parse_ports("8080,,8081"), None);
    assert_eq!(parse_ports("8080, 8081"), None);
    assert_eq!(parse_ports("80a"), None);
    assert_eq!(parse_ports("-1"), None);
    assert_eq!(parse_ports("65536"), None);
    assert_eq!(parse_ports("99999999999999999999999999"), None);
    assert_eq!(parse_ports("1,65536,2"), None);
    assert_eq!(parse_ports("８０"), None);
}

#[test]
fn without_address_and_ports_the_source_is_local() {
    assert_eq!(remote(None, None), Ok(None));
}

#[test]
fn an_address_alone_gets_the_usual_ports() {
    assert_eq!(
        remote(Some("studio".to_string()), None),
        Ok(Some(Remote { address: "studio".to_string(), ports: vec![8080, 8081] }))
    );
}

#[test]
fn ports_alone_mean_this_machine() {
    assert_eq!(
        remote(None, Some("9000")),
        Ok(Some(Remote { address: "localhost".to_string(), ports: vec![9000] }))
    );
}

#[test]
fn address_and_ports_are_taken_as_given() {
    assert_eq!(
        remote(Some("10.0.0.2".to_string()), Some("1,2,3")),
        Ok(Some(Remote { address: "10.0.0.2".to_string(), ports: vec![1, 2, 3] }))
    );
}

#[test]
fn ports_that_cannot_be_read_are_bad_arguments() {
    assert_eq!(remote(Some("studio".to_string()), Some("eighty")), Err(Exit::BadArguments));
    assert_eq!(remote(None, Some("")), Err(Exit::BadArguments));
}
