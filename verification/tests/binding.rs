use rupl::args::Arg;
use rupl::parameters::{Ipv4, Parameter, ParameterError, Parameters};

#[test]
fn positional_binding_by_declaration_order() {
    let params = vec![
        Parameter::new("name".to_string()),
        Parameter::new("punctuation".to_string()),
    ];
    let bound = Parameters::new("World !", &params).unwrap();

    let name: String = bound.get("name").unwrap();
    let punctuation: String = bound.get("punctuation").unwrap();
    assert_eq!(name, "World");
    assert_eq!(punctuation, "!");
}

#[test]
fn positional_binding_count_mismatch_fails() {
    let params = vec![
        Parameter::new("name".to_string()),
        Parameter::new("punctuation".to_string()),
    ];
    assert!(matches!(
        Parameters::new("World", &params),
        Err(ParameterError::InvalidParameterCount)
    ));
    assert!(matches!(
        Parameters::new("a b c", &params),
        Err(ParameterError::InvalidParameterCount)
    ));
}

#[test]
fn flag_binding_captures_value() {
    let args = vec![Arg::new("name".to_string(), false)];
    let bound = Parameters::from_flags("--name Foo", &args).unwrap();
    let name: String = bound.get("name").unwrap();
    assert_eq!(name, "Foo");
}

#[test]
fn flag_binding_equals_form() {
    let args = vec![Arg::new("name".to_string(), false)];
    let bound = Parameters::from_flags("--name=Foo", &args).unwrap();
    let name: String = bound.get("name").unwrap();
    assert_eq!(name, "Foo");
}

#[test]
fn flag_binding_standalone_presence() {
    let args = vec![
        Arg::new("verbose".to_string(), true),
        Arg::new("name".to_string(), false),
    ];
    let bound = Parameters::from_flags("--verbose --name Foo", &args).unwrap();
    let verbose: String = bound.get("verbose").unwrap();
    assert_eq!(verbose, "");
    let name: String = bound.get("name").unwrap();
    assert_eq!(name, "Foo");
}

#[test]
fn flag_binding_rejects_unknown_name() {
    let args = vec![Arg::new("name".to_string(), false)];
    assert!(matches!(
        Parameters::from_flags("--other Foo", &args),
        Err(ParameterError::NoSuchParameter)
    ));
}

#[test]
fn flag_binding_rejects_missing_required() {
    let args = vec![Arg::new("name".to_string(), false)];
    assert!(matches!(
        Parameters::from_flags("", &args),
        Err(ParameterError::InvalidParameterCount)
    ));
}

#[test]
fn flag_binding_rejects_doubled_and_stray() {
    let args = vec![Arg::new("name".to_string(), false)];
    assert!(matches!(
        Parameters::from_flags("--name a --name b", &args),
        Err(ParameterError::InvalidParameterCount)
    ));
    assert!(matches!(
        Parameters::from_flags("stray --name a", &args),
        Err(ParameterError::InvalidParameterCount)
    ));
    assert!(matches!(
        Parameters::from_flags("--name", &args),
        Err(ParameterError::InvalidParameterCount)
    ));
}

#[test]
fn flag_binding_rejects_empty_inline_value() {
    let args = vec![
        Arg::new("name".to_string(), false),
        Arg::new("verbose".to_string(), true),
    ];
    // a value parameter must get a nonempty value
    assert!(matches!(
        Parameters::from_flags("--name=", &args),
        Err(ParameterError::InvalidParameterCount)
    ));
    // a standalone parameter takes no value at all
    assert!(matches!(
        Parameters::from_flags("--verbose= --name a", &args),
        Err(ParameterError::InvalidParameterCount)
    ));
}

#[test]
fn get_converts_on_access() {
    let args = vec![Arg::new("name".to_string(), false)];

    let bound = Parameters::from_flags("--name Foo", &args).unwrap();
    assert!(matches!(
        bound.get::<u32>("name"),
        Err(ParameterError::ParseError)
    ));

    let bound = Parameters::from_flags("--name 42", &args).unwrap();
    let n: u32 = bound.get("name").unwrap();
    assert_eq!(n, 42);
    let as_text: String = bound.get("name").unwrap();
    assert_eq!(as_text, "42");
}

#[test]
fn get_unknown_name_fails() {
    let params = vec![Parameter::new("name".to_string())];
    let bound = Parameters::new("x", &params).unwrap();
    assert!(matches!(
        bound.get::<String>("other"),
        Err(ParameterError::NoSuchParameter)
    ));
}

#[test]
fn integer_conversions_respect_bounds() {
    let params = vec![Parameter::new("n".to_string())];

    let bound = Parameters::new("255", &params).unwrap();
    assert_eq!(bound.get::<u8>("n").unwrap(), 255u8);
    assert_eq!(bound.get::<u16>("n").unwrap(), 255u16);

    let bound = Parameters::new("256", &params).unwrap();
    assert!(matches!(bound.get::<u8>("n"), Err(ParameterError::ParseError)));
    assert_eq!(bound.get::<u16>("n").unwrap(), 256u16);

    let bound = Parameters::new("4294967296", &params).unwrap();
    assert!(matches!(bound.get::<u32>("n"), Err(ParameterError::ParseError)));
    assert_eq!(bound.get::<u64>("n").unwrap(), 4294967296u64);

    let bound = Parameters::new("18446744073709551615", &params).unwrap();
    assert_eq!(bound.get::<u64>("n").unwrap(), u64::MAX);

    let bound = Parameters::new("18446744073709551616", &params).unwrap();
    assert!(matches!(bound.get::<u64>("n"), Err(ParameterError::ParseError)));

    let bound = Parameters::new("007", &params).unwrap();
    assert_eq!(bound.get::<u8>("n").unwrap(), 7u8);
}

#[test]
fn ipv4_literal_conversion() {
    let args = vec![Arg::new("ip".to_string(), false)];
    let bound = Parameters::from_flags("--ip 10.10.10.10", &args).unwrap();
    let ip: Ipv4 = bound.get("ip").unwrap();
    assert_eq!(ip, Ipv4::new(10, 10, 10, 10));

    let params = vec![Parameter::new("ip".to_string())];
    let bound = Parameters::new("255.0.255.1", &params).unwrap();
    let ip: Ipv4 = bound.get("ip").unwrap();
    assert_eq!(ip, Ipv4::new(255, 0, 255, 1));
}

#[test]
fn ipv4_rejects_malformed_literals() {
    let params = vec![Parameter::new("ip".to_string())];
    for bad in [
        "256.0.0.1",
        "1.2.3",
        "1.2.3.4.5",
        "1..2.3",
        "a.b.c.d",
        ".1.2.3",
        "1.2.3.",
    ] {
        let bound = Parameters::new(bad, &params).unwrap();
        assert!(
            matches!(bound.get::<Ipv4>("ip"), Err(ParameterError::ParseError)),
            "{}",
            bad
        );
    }
}
