use bgzf_engine::info::{Field, Info, Key, ParseError, Value};

#[test]
fn test_fmt() {
    let info = Info::default();
    assert_eq!(info.to_string(), ".");

    let info = Info(vec![Field::new(Key::SamplesWithDataCount, Value::Integer(2))]);
    assert_eq!(info.to_string(), "NS=2");

    let info = Info(vec![
        Field::new(Key::SamplesWithDataCount, Value::Integer(2)),
        Field::new(
            Key::AlleleFrequencies,
            Value::FloatArray(vec![format!("{}", 0.333f32), format!("{}", 0.667f32)]),
        ),
    ]);
    assert_eq!(info.to_string(), "NS=2;AF=0.333,0.667");
}

#[test]
fn test_from_str() -> Result<(), ParseError> {
    let actual: Info = ".".parse()?;
    assert!(actual.is_empty());

    let actual: Info = "NS=2".parse()?;
    assert_eq!(actual.len(), 1);

    let actual: Info = "NS=2;AF=0.333,0.667".parse()?;
    assert_eq!(actual.len(), 2);

    assert!("".parse::<Info>().is_err());

    Ok(())
}

#[test]
fn test_from_str_errors() {
    assert_eq!("".parse::<Info>(), Err(ParseError::Empty));
    assert_eq!("NS=".parse::<Info>(), Err(ParseError::InvalidField));
    assert_eq!("NS=x".parse::<Info>(), Err(ParseError::InvalidField));
    assert_eq!(";".parse::<Info>(), Err(ParseError::InvalidField));
    assert_eq!("AF=".parse::<Info>(), Err(ParseError::InvalidField));
}

#[test]
fn test_display_then_parse_identity() {
    // Displaying a column of canonical fields and parsing the text back
    // yields the same column.
    let info = Info(vec![
        Field::new(Key::SamplesWithDataCount, Value::Integer(2)),
        Field::new(Key::TotalDepth, Value::Integer(-14)),
        Field::new(
            Key::AlleleFrequencies,
            Value::FloatArray(vec!["0.5".to_string(), "0.25".to_string()]),
        ),
        Field::new(Key::Other("AA".to_string()), Value::Text("T".to_string())),
        Field::new(Key::Other("DB".to_string()), Value::Flag),
    ]);
    let reparsed: Info = info.to_string().parse().unwrap();
    assert_eq!(reparsed, info);
}

#[test]
fn test_round_trip_display() {
    let text = "NS=2;DP=14;AF=0.5;AA=T;DB";
    let info: Info = text.parse().unwrap();
    assert_eq!(info.to_string(), text);
    assert_eq!(info.len(), 5);
}

#[test]
fn test_negative_and_overflowing_integers() {
    let info: Info = "NS=-7".parse().unwrap();
    assert_eq!(info.to_string(), "NS=-7");
    assert!("NS=99999999999".parse::<Info>().is_err());
    assert_eq!("NS=2147483647".parse::<Info>().unwrap().to_string(), "NS=2147483647");
    assert_eq!("NS=-2147483648".parse::<Info>().unwrap().to_string(), "NS=-2147483648");
}
