use exar::codec::check_numeral;
use exar::config::{ConfigEntry, Configuration};
use exar::numbers::parse_run_numbers_to_vec;
use exar::stats::aggregate_strings;
use exar::table::{format_variable_value, variable_to_table_display, GenericTable};
use exar::variable::{DataType, GenericValue, Variable};
use exar::Error;

#[test]
fn parse_run_numbers() {
    // Nothing
    assert!(parse_run_numbers_to_vec("").is_err());

    // Parse single numbers
    {
        let res = parse_run_numbers_to_vec("1");
        assert!(res.is_ok());
        assert_eq!(vec![1], res.unwrap());
    }
    {
        let res = parse_run_numbers_to_vec("123");
        assert!(res.is_ok());
        assert_eq!(vec![123], res.unwrap());
    }

    // Parse list of numbers
    {
        let res = parse_run_numbers_to_vec("1,3");
        assert!(res.is_ok());
        assert_eq!(vec![1, 3], res.unwrap());
    }
    {
        let res = parse_run_numbers_to_vec("5,3,173");
        assert!(res.is_ok());
        assert_eq!(vec![5, 3, 173], res.unwrap());
    }
    assert!(parse_run_numbers_to_vec("1,").is_err());
    assert!(parse_run_numbers_to_vec(",").is_err());

    // Parse range of numbers
    {
        let res = parse_run_numbers_to_vec("1-3");
        assert!(res.is_ok());
        assert_eq!(vec![1, 2, 3], res.unwrap());
    }
    {
        let res = parse_run_numbers_to_vec("1-1");
        assert!(res.is_ok());
        assert_eq!(vec![1], res.unwrap());
    }
    {
        let res = parse_run_numbers_to_vec("9-11");
        assert!(res.is_ok());
        assert_eq!(vec![9, 10, 11], res.unwrap());
    }
    assert!(parse_run_numbers_to_vec("1-").is_err());
    assert!(parse_run_numbers_to_vec("-").is_err());
}

#[test]
fn value_round_trips() {
    // for every data type, parsing the serialized value yields it back
    let number = DataType::Number;
    let v = GenericValue::Numeric("3.14".to_string());
    assert_eq!(Ok(v.clone()), number.parse_str_as_generic_value(&v.to_text()));

    let unit = DataType::Unit("ms".to_string());
    let v = GenericValue::Numeric("-10".to_string());
    assert_eq!(Ok(v.clone()), unit.parse_str_as_generic_value(&v.to_text()));

    let boolean = DataType::Bool;
    let v = GenericValue::Bool(true);
    assert_eq!(Ok(v.clone()), boolean.parse_str_as_generic_value(&v.to_text()));

    let text = DataType::Text;
    let v = GenericValue::String("a,b\nc".to_string());
    assert_eq!(Ok(v.clone()), text.parse_str_as_generic_value(&v.to_text()));

    let label = DataType::Label;
    let v = GenericValue::String("a label".to_string());
    assert_eq!(Ok(v.clone()), label.parse_str_as_generic_value(&v.to_text()));
}

#[test]
fn numerals_are_validated() {
    assert!(check_numeral("42"));
    assert!(check_numeral("-10"));
    assert!(check_numeral("+3.25"));
    assert!(check_numeral("6.02e23"));
    assert!(check_numeral("1E-9"));
    assert!(check_numeral("inf"));
    assert!(check_numeral("-inf"));
    assert!(check_numeral("NaN"));
    assert!(check_numeral("nan"));
    assert!(check_numeral("infinity"));
    assert!(check_numeral("-Infinity"));
    assert!(check_numeral("INF"));
    assert!(check_numeral(".5"));
    assert!(check_numeral("3."));
    assert!(!check_numeral(""));
    assert!(!check_numeral("abc"));
    assert!(!check_numeral("1.2.3"));
    assert!(!check_numeral("1e"));
    assert!(!check_numeral("."));
    assert!(!check_numeral("e5"));
    assert_eq!(
        Err(Error::InvalidValue),
        DataType::Number.parse_str_as_generic_value("abc")
    );
    assert_eq!(
        Err(Error::InvalidValue),
        DataType::Bool.parse_str_as_generic_value("yes")
    );
}

#[test]
fn float_spellings_parse_as_numbers() {
    // the texts that a float parser takes are the valid numeric encodings
    let v = DataType::Number.parse_str_as_generic_value(".5");
    assert_eq!(Ok(GenericValue::Numeric(".5".to_string())), v);
    let v = DataType::Number.parse_str_as_generic_value("3.");
    assert_eq!(Ok(GenericValue::Numeric("3.".to_string())), v);
    let v = DataType::Number.parse_str_as_generic_value("Infinity");
    assert_eq!(Ok(GenericValue::Numeric("Infinity".to_string())), v);
}

#[test]
fn data_type_names_parse() {
    assert_eq!(Ok(DataType::Number), DataType::from_str("Number"));
    assert_eq!(Ok(DataType::Label), DataType::from_str("Label"));
    assert_eq!(Ok(DataType::Text), DataType::from_str("Text"));
    assert_eq!(Ok(DataType::Bool), DataType::from_str("Bool"));
    assert_eq!(
        Err(Error::UnknownDataTypeName),
        DataType::from_str("Unit(ms)")
    );
}

#[test]
fn csv_rendering_quotes_fields() {
    let table = GenericTable::new(
        vec!["name".to_string(), "value".to_string()],
        vec![
            vec!["plain".to_string(), "1".to_string()],
            vec!["with,comma".to_string(), "a\nb".to_string()],
        ],
    );
    let text = table.write_csv();
    assert_eq!("name,value\nplain,1\n\"with,comma\",\"a\nb\"", text);
}

#[test]
fn table_append_joins_columns() {
    let mut left = GenericTable::new(
        vec!["a".to_string()],
        vec![vec!["1".to_string()], vec!["2".to_string()]],
    );
    let right = GenericTable::new(
        vec!["b".to_string()],
        vec![vec!["x".to_string()], vec!["y".to_string()]],
    );
    left.append(right);
    assert_eq!(vec!["a".to_string(), "b".to_string()], left.header);
    assert_eq!(vec!["1".to_string(), "x".to_string()], left.rows[0]);
    assert_eq!(vec!["2".to_string(), "y".to_string()], left.rows[1]);
}

#[test]
fn variable_display_shows_units() {
    let with_unit = Variable::new(
        "speed".to_string(),
        "how fast".to_string(),
        DataType::Unit("m/s".to_string()),
    );
    assert_eq!("speed (m/s)", variable_to_table_display(&with_unit));
    let plain = Variable::new("label".to_string(), "a label".to_string(), DataType::Label);
    assert_eq!("label", variable_to_table_display(&plain));
}

#[test]
fn formatting_strips_line_breaks() {
    assert_eq!("ab", format_variable_value("a\nb"));
    assert_eq!("ab", format_variable_value("a\r\nb"));
    assert_eq!("plain", format_variable_value("plain"));
}

#[test]
fn string_histogram_counts_values() {
    let values = vec![
        "a".to_string(),
        "b".to_string(),
        "a".to_string(),
        "a".to_string(),
    ];
    let aggregated = aggregate_strings(&values);
    assert_eq!(2, aggregated.histogram.len());
    assert_eq!(("a".to_string(), 3), aggregated.histogram[0]);
    assert_eq!(("b".to_string(), 1), aggregated.histogram[1]);
}

#[test]
fn configuration_entries_are_keyed_by_name() {
    let mut config = Configuration::default();
    let entry = ConfigEntry::new(
        "user".to_string(),
        "p".to_string(),
        "localhost".to_string(),
        "5432".to_string(),
        "archive".to_string(),
        false,
    );
    config.add_entry("main".to_string(), entry.clone());
    let mut replacement = entry.clone();
    replacement.set_is_default(false);
    config.add_entry("main".to_string(), replacement);
    assert_eq!(1, config.entries().len());

    assert!(config.get_default_config().is_none());
    assert_eq!(
        Err(Error::UnknownEntry),
        config.set_as_default(&"other".to_string())
    );
    assert_eq!(Ok(()), config.set_as_default(&"main".to_string()));
    let default = config.get_default_config().expect("no default entry");
    assert_eq!("main", default.0);
    assert_eq!(
        Err(Error::DefaultAlreadySet),
        config.set_as_default(&"main".to_string())
    );

    assert!(config.remove_entry(&"main".to_string()));
    assert!(!config.remove_entry(&"main".to_string()));
    assert_eq!(0, config.entries().len());
}
