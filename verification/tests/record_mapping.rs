use budget::datetime::TZ;
use budget::expense::Amount;
use budget::record_mapping::{
    record_to_string, AmountField, DateField, ImportResult, TextField,
};

fn record(fields: Vec<&str>) -> Vec<String> {
    fields.into_iter().map(String::from).collect()
}

#[test]
fn test_text_field() {
    let record = record(vec!["ab", "cd", "ef"]);
    let result = TextField::FromColumn { col: 1 }.from_record(&record);
    assert!(result.is_ok());
    assert_eq!(&result.unwrap(), "cd");
}

#[test]
fn test_text_field_empty_string() {
    let record = record(vec!["", "", ""]);
    let result = TextField::FromColumn { col: 1 }.from_record(&record);
    assert!(result.is_ok());
    assert_eq!(&result.unwrap(), "");
}

#[test]
fn test_text_field_column_out_of_range_message() {
    let record = record(vec!["ab", "cd", "ef"]);
    let result = TextField::FromColumn { col: 5 }.from_record(&record);
    match result {
        Err(ImportResult::Error { message }) => {
            assert_eq!(message, "Requested 0-indexed column 5 but row only had 3 fields");
        }
        _ => panic!("expected a column error"),
    }
}

#[test]
fn test_amount_field() {
    let record = record(vec!["ab", "0.69"]);
    let result = AmountField::FromColumn {
        col: 1,
        invert: false,
        skip_pattern: None,
    }
    .from_record(&record);
    assert!(result.is_ok());
    assert_eq!(result.unwrap(), Amount { cents: 69 });
}

#[test]
fn test_amount_field_thousand_separators() {
    let record = record(vec!["ab", "12,345.67"]);
    let result = AmountField::FromColumn {
        col: 1,
        invert: false,
        skip_pattern: None,
    }
    .from_record(&record);
    assert!(result.is_ok());
    assert_eq!(result.unwrap(), Amount { cents: 1234567 });
}

#[test]
fn test_amount_field_narrow_destripping_shape() {
    // every comma goes once the shape digits,digits.two-digits occurs
    let record = record(vec!["1,234,567.89"]);
    let result = AmountField::FromColumn {
        col: 0,
        invert: false,
        skip_pattern: None,
    }
    .from_record(&record);
    assert_eq!(result.unwrap(), Amount { cents: 123456789 });

    // a single fraction digit falls outside the shape: the comma stays
    // and the text fails to parse
    let record = vec!["12,345.6".to_string()];
    let result = AmountField::FromColumn {
        col: 0,
        invert: false,
        skip_pattern: None,
    }
    .from_record(&record);
    assert!(result.is_err());
}

#[test]
fn test_amount_field_whole_number() {
    let record = record(vec!["13"]);
    let result = AmountField::FromColumn {
        col: 0,
        invert: false,
        skip_pattern: None,
    }
    .from_record(&record);
    assert_eq!(result.unwrap(), Amount { cents: 1300 });
}

#[test]
fn test_amount_field_negative() {
    let record = record(vec!["-4.20"]);
    let result = AmountField::FromColumn {
        col: 0,
        invert: false,
        skip_pattern: None,
    }
    .from_record(&record);
    assert_eq!(result.unwrap(), Amount { cents: -420 });
}

#[test]
fn test_amount_field_invert() {
    let record = record(vec!["ab", "0.69"]);
    let result = AmountField::FromColumn {
        col: 1,
        invert: true,
        skip_pattern: None,
    }
    .from_record(&record);
    assert!(result.is_ok());
    assert_eq!(result.unwrap(), Amount { cents: -69 });
}

#[test]
fn test_amount_field_skip_pattern() {
    let record = record(vec!["ab", "N/A"]);
    let result_err = AmountField::FromColumn {
        col: 1,
        invert: false,
        skip_pattern: None,
    }
    .from_record(&record);
    match result_err {
        Err(ImportResult::Error { message: _ }) => {}
        _ => panic!("Expected Err(ImportResult::Error {{ ... }})"),
    }

    let result_skip = AmountField::FromColumn {
        col: 1,
        invert: false,
        skip_pattern: Some(String::from("N/A")),
    }
    .from_record(&record);
    match result_skip {
        Err(ImportResult::Skip) => {}
        _ => panic!("Expected Err(ImportResult::Skip)"),
    }
}

#[test]
fn test_amount_field_credit_debit_columns() {
    let record = record(vec!["", "3.00"]);
    let result = AmountField::FromCreditDebitColumns {
        first: 0,
        invert_first: false,
        second: 1,
        invert_second: true,
    }
    .from_record(&record);
    assert_eq!(result.unwrap(), Amount { cents: -300 });

    let record = vec!["2.00".to_string(), "3.00".to_string()];
    let result = AmountField::FromCreditDebitColumns {
        first: 0,
        invert_first: false,
        second: 1,
        invert_second: true,
    }
    .from_record(&record);
    assert_eq!(result.unwrap(), Amount { cents: 200 });
}

#[test]
fn test_amount_field_parse_failure_message() {
    let record = record(vec!["N/A"]);
    let result = AmountField::FromColumn {
        col: 0,
        invert: false,
        skip_pattern: None,
    }
    .from_record(&record);
    match result {
        Err(ImportResult::Error { message }) => {
            assert_eq!(message, "Could not parse 'N/A' into an amount");
        }
        _ => panic!("expected an amount parse error"),
    }
}

#[test]
fn test_time_field_parse_failure_message() {
    let record = record(vec!["not a time"]);
    let result = budget::record_mapping::TimeField::FromColumn { col: 0, tz: TZ::Local }
        .from_record(&record);
    match result {
        Err(ImportResult::Error { message }) => {
            assert_eq!(message, "Could not parse 'not a time' into a time");
        }
        _ => panic!("expected a time parse error"),
    }
}

#[test]
fn test_date_field_parse_failure_message() {
    let record = record(vec!["garbage"]);
    let result = DateField::FromColumn { col: 0, tz: TZ::Local }.from_record(&record);
    match result {
        Err(ImportResult::Error { message }) => {
            assert_eq!(message, "Could not parse 'garbage' into a date");
        }
        _ => panic!("expected a date parse error"),
    }
}

#[test]
fn record_to_string_result_can_be_reconstructed_to_original_record() {
    let input_record = record(vec!["", "2025-02-04T23:41:32.506Z", "Lamp 64\"", "79.99"]);
    let output_string = record_to_string(&input_record);
    let output_fields: Vec<String> = output_string.split('\u{241F}').map(String::from).collect();
    assert_eq!(input_record, output_fields);
}
