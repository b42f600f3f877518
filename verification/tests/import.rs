use budget::datetime::TZ;
use budget::expense::{
    is_duplicate, Amount, Expense, ExpenseCategory, ExpenseFields, LatestExpenses,
};
use budget::import::{
    deduplicate_expenses, prepare_expenses, read_expenses, remove_duplicates, sort_expenses,
};
use budget::record_mapping::{AmountField, DateField, RecordMapping, TextField, TimeField};

fn get_expense_fields(cents: i64) -> ExpenseFields {
    ExpenseFields {
        account_id: 8,
        transaction_date: "2025-01-25".to_string(),
        transaction_time: None,
        description: "Some expense".to_string(),
        amount: Amount { cents },
        raw_csv: None,
    }
}

fn get_expense(cents: i64) -> Expense {
    Expense {
        id: 2,
        fields: get_expense_fields(cents),
        category: ExpenseCategory { budget_item_id: None },
    }
}

#[test]
fn test_is_duplicate_ignores_fields() {
    let mut expense_a = get_expense(1399);
    expense_a.id = 0;
    expense_a.fields.account_id = 0;
    expense_a.fields.raw_csv = Some("anything".to_string());
    expense_a.category.budget_item_id = None;

    let mut expense_b = get_expense(1399);
    expense_b.category.budget_item_id = Some(5);

    assert!(is_duplicate(&expense_a.fields, &expense_b.fields));
}

#[test]
fn test_is_duplicate_observes_transaction_date_diff() {
    let mut expense_a = get_expense(1399);
    expense_a.fields.transaction_date = "2024-12-16".to_string();

    let expense_b = get_expense(1399);

    assert_ne!(
        &expense_a.fields.transaction_date,
        &expense_b.fields.transaction_date
    );
    assert_eq!(is_duplicate(&expense_a.fields, &expense_b.fields), false);
}

#[test]
fn test_is_duplicate_observes_transaction_time_diff() {
    let mut expense_a = get_expense(1399);
    expense_a.fields.transaction_time = Some("22:30:00".to_string());

    let expense_b = get_expense(1399);

    assert_ne!(
        &expense_a.fields.transaction_time,
        &expense_b.fields.transaction_time
    );
    assert_eq!(is_duplicate(&expense_a.fields, &expense_b.fields), false);
}

#[test]
fn test_is_duplicate_observes_description_diff() {
    let mut expense_a = get_expense(1399);
    expense_a.fields.description = "Different description".to_string();

    let expense_b = get_expense(1399);

    assert_ne!(&expense_a.fields.description, &expense_b.fields.description);
    assert_eq!(is_duplicate(&expense_a.fields, &expense_b.fields), false);
}

#[test]
fn test_is_duplicate_observes_amount_diff() {
    let mut expense_a = get_expense(1399);
    expense_a.fields.amount.cents += 1000;

    let expense_b = get_expense(1399);

    assert_ne!(&expense_a.fields.amount, &expense_b.fields.amount);
    assert_eq!(is_duplicate(&expense_a.fields, &expense_b.fields), false);
}

#[test]
fn import_test_remove_duplicates_only_dupes() {
    let new = vec![get_expense_fields(1300), get_expense_fields(500)];

    let old = vec![get_expense(500), get_expense(1300)];

    assert_eq!(remove_duplicates(new, old).len(), 0);
}

#[test]
fn import_test_remove_duplicates_removes_first_matching_dupe_only() {
    let new = vec![
        get_expense_fields(1300),
        get_expense_fields(1300),
        get_expense_fields(500),
    ];

    let old = vec![get_expense(500), get_expense(1300)];

    let result = remove_duplicates(new, old);
    assert_eq!(result.len(), 1);
    assert_eq!(result[0].amount, Amount { cents: 1300 });
}

#[test]
fn statement_import_test_remove_duplicates_only_dupes() {
    let new = vec![get_expense_fields(1300), get_expense_fields(500)];

    let old = vec![get_expense(500), get_expense(1300)];

    assert_eq!(remove_duplicates(new, old).len(), 0);
}

#[test]
fn statement_import_test_remove_duplicates_removes_first_matching_dupe_only() {
    let new = vec![
        get_expense_fields(1300),
        get_expense_fields(1300),
        get_expense_fields(500),
    ];

    let old = vec![get_expense(500), get_expense(1300)];

    let result = remove_duplicates(new, old);
    assert_eq!(result.len(), 1);
    assert_eq!(result[0].amount, Amount { cents: 1300 });
}

fn dated_expense(date: &str, cents: i64) -> ExpenseFields {
    let mut fields = get_expense_fields(cents);
    fields.transaction_date = date.to_string();
    fields
}

#[test]
fn test_deduplicate_expenses_partitions_by_boundary_date() {
    let new = vec![
        dated_expense("2025-01-20", 100),  // strictly before: dropped
        dated_expense("2025-01-25", 1300), // on the boundary, already stored: removed
        dated_expense("2025-01-25", 700),  // on the boundary, not stored: kept
        dated_expense("2025-01-31", 1300), // strictly after: kept as is
    ];
    let latest = LatestExpenses {
        date: "2025-01-25".to_string(),
        transactions: vec![get_expense(1300)],
    };

    let result = deduplicate_expenses(new, latest);
    assert_eq!(result.len(), 2);
    assert_eq!(result[0].transaction_date, "2025-01-31");
    assert_eq!(result[0].amount, Amount { cents: 1300 });
    assert_eq!(result[1].transaction_date, "2025-01-25");
    assert_eq!(result[1].amount, Amount { cents: 700 });
}

#[test]
fn test_deduplicate_expenses_idempotent_on_boundary() {
    // stored {5.00, 13.00} on the boundary date, fresh {13.00, 5.00}:
    // nothing survives
    let new = vec![get_expense_fields(1300), get_expense_fields(500)];
    let latest = LatestExpenses {
        date: "2025-01-25".to_string(),
        transactions: vec![get_expense(500), get_expense(1300)],
    };
    assert_eq!(deduplicate_expenses(new, latest).len(), 0);
}

fn test_mapping() -> RecordMapping {
    RecordMapping {
        transaction_date: DateField::FromColumn { col: 0, tz: TZ::Local },
        transaction_time: TimeField::Empty,
        description: TextField::FromColumn { col: 1 },
        amount: AmountField::FromColumn {
            col: 2,
            invert: false,
            skip_pattern: Some(String::from("N/A")),
        },
    }
}

#[test]
fn test_read_expenses_maps_rows_in_order() {
    let data = "2025-02-04,Coffee,3.50\n2025-02-03,Tea,2.25\n";
    let result = read_expenses(7, data, &test_mapping()).unwrap();
    assert_eq!(result.len(), 2);
    assert_eq!(result[0].account_id, 7);
    assert_eq!(result[0].transaction_date, "2025-02-04");
    assert_eq!(result[0].transaction_time, None);
    assert_eq!(result[0].description, "Coffee");
    assert_eq!(result[0].amount, Amount { cents: 350 });
    assert_eq!(
        result[0].raw_csv.as_deref(),
        Some("2025-02-04\u{241F}Coffee\u{241F}3.50")
    );
    assert_eq!(result[1].transaction_date, "2025-02-03");
    assert_eq!(result[1].amount, Amount { cents: 225 });
}

#[test]
fn test_read_expenses_handles_quoted_fields() {
    let data = "2025-02-04,\"Lamp, tall\",79.99\n";
    let result = read_expenses(1, data, &test_mapping()).unwrap();
    assert_eq!(result.len(), 1);
    assert_eq!(result[0].description, "Lamp, tall");
    assert_eq!(result[0].amount, Amount { cents: 7999 });
}

#[test]
fn test_read_expenses_skips_marked_rows_silently() {
    let data = "2025-02-04,Coffee,3.50\n2025-02-04,Pending,N/A\n2025-02-03,Tea,2.25\n";
    let result = read_expenses(1, data, &test_mapping()).unwrap();
    assert_eq!(result.len(), 2);
    assert_eq!(result[0].description, "Coffee");
    assert_eq!(result[1].description, "Tea");
}

#[test]
fn test_read_expenses_aborts_whole_import_on_bad_row() {
    // row 7 (0-based) carries an unparseable amount: the whole import
    // fails, and the seven good rows before it are not returned
    let mut data = String::new();
    for i in 0..7 {
        data.push_str(&format!("2025-02-0{},Item,1.0{}\n", i + 1, i));
    }
    data.push_str("2025-02-09,Broken,not-an-amount\n");
    let result = read_expenses(1, &data, &test_mapping());
    match result {
        Err(e) => {
            assert_eq!(e.message, "Could not parse 'not-an-amount' into an amount in row 7");
        }
        Ok(_) => panic!("expected the import to abort"),
    }
}

#[test]
fn test_read_expenses_empty_input_gives_no_records() {
    let result = read_expenses(1, "", &test_mapping()).unwrap();
    assert_eq!(result.len(), 0);
}

#[test]
fn test_read_expenses_column_error_message_names_both_counts() {
    let mapping = RecordMapping {
        transaction_date: DateField::FromColumn { col: 9, tz: TZ::Local },
        transaction_time: TimeField::Empty,
        description: TextField::FromColumn { col: 1 },
        amount: AmountField::FromColumn { col: 2, invert: false, skip_pattern: None },
    };
    let result = read_expenses(1, "2025-02-04,Coffee,3.50\n", &mapping);
    match result {
        Err(e) => {
            assert_eq!(
                e.message,
                "Requested 0-indexed column 9 but row only had 3 fields in row 0"
            );
        }
        Ok(_) => panic!("expected the import to abort"),
    }
}

#[test]
fn test_read_expenses_aborts_on_bad_date() {
    let data = "2025-02-04,Coffee,3.50\nnot a date,Tea,2.25\n";
    let result = read_expenses(1, data, &test_mapping());
    match result {
        Err(e) => assert!(e.message.contains("in row 1"), "message: {}", e.message),
        Ok(_) => panic!("expected the import to abort"),
    }
}

#[test]
fn test_prepare_expenses_dedups_then_orders() {
    let new = vec![
        dated_expense("2025-01-31", 400),
        dated_expense("2025-01-25", 1300), // already stored: removed
        dated_expense("2025-01-28", 200),
    ];
    let latest = LatestExpenses {
        date: "2025-01-25".to_string(),
        transactions: vec![get_expense(1300)],
    };

    let result = prepare_expenses(new, Some(latest));
    assert_eq!(result.len(), 2);
    assert_eq!(result[0].transaction_date, "2025-01-28");
    assert_eq!(result[1].transaction_date, "2025-01-31");
}

#[test]
fn test_prepare_expenses_without_history_keeps_everything() {
    let new = vec![
        dated_expense("2025-01-31", 400),
        dated_expense("2025-01-25", 1300),
    ];
    let result = prepare_expenses(new, None);
    assert_eq!(result.len(), 2);
    assert_eq!(result[0].transaction_date, "2025-01-25");
    assert_eq!(result[1].transaction_date, "2025-01-31");
}

#[test]
fn test_sort_expenses_orders_by_date_then_time() {
    let mut a = dated_expense("2025-02-04", 100);
    a.transaction_time = Some("12:00:00".to_string());
    let mut b = dated_expense("2025-02-04", 200);
    b.transaction_time = None;
    let c = dated_expense("2025-02-03", 300);
    let mut d = dated_expense("2025-02-04", 400);
    d.transaction_time = Some("09:30:00".to_string());

    let sorted = sort_expenses(vec![a, b, c, d]);
    assert_eq!(sorted.len(), 4);
    assert_eq!(sorted[0].amount, Amount { cents: 300 }); // earlier date first
    assert_eq!(sorted[1].amount, Amount { cents: 200 }); // no time before any time
    assert_eq!(sorted[2].amount, Amount { cents: 400 }); // 09:30 before 12:00
    assert_eq!(sorted[3].amount, Amount { cents: 100 });
}
