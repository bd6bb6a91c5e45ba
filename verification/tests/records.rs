use toy_engine::record::field_of;
use toy_engine::text::{parse_u16, parse_u32, parse_unsigned, text_is};
use toy_engine::{Amount, Transaction, TransactionType};

fn row(fields: &[&str]) -> Vec<String> {
    fields.iter().map(|field| field.to_string()).collect()
}

fn headers() -> Vec<String> {
    row(&["type", "client", "tx", "amount"])
}

#[test]
fn numbers_are_read_from_digits() {
    assert_eq!(parse_u32("0"), Some(0));
    assert_eq!(parse_u32("42"), Some(42));
    assert_eq!(parse_u32("+42"), Some(42));
    assert_eq!(parse_u32("007"), Some(7));
    assert_eq!(parse_u32("4294967295"), Some(u32::MAX));
    assert_eq!(parse_u16("65535"), Some(u16::MAX));
    assert_eq!(parse_unsigned("100", 100), Some(100));
}

#[test]
fn numbers_out_of_range_are_rejected() {
    assert_eq!(parse_u32("4294967296"), None);
    assert_eq!(parse_u32("99999999999999999999999999"), None);
    assert_eq!(parse_u16("65536"), None);
    assert_eq!(parse_unsigned("101", 100), None);
}

#[test]
fn text_that_is_no_number_is_rejected() {
    for text in ["", "+", "-", "-1", "++1", "1+", " 1", "1 ", "1_000", "1.0", "0x10", "one", "١٢"] {
        assert_eq!(parse_u32(text), None, "{:?}", text);
        assert_eq!(parse_u16(text), None, "{:?}", text);
    }
}

#[test]
fn numbers_agree_with_the_standard_library() {
    for text in ["0", "+0", "12", "+12", "65535", "65536", "4294967295", "4294967296", "", "+", "-0", "1a"] {
        assert_eq!(parse_u32(text), text.parse::<u32>().ok(), "{:?}", text);
        assert_eq!(parse_u16(text), text.parse::<u16>().ok(), "{:?}", text);
    }
}

#[test]
fn texts_are_compared_exactly() {
    assert!(text_is("deposit", "deposit"));
    assert!(!text_is("Deposit", "deposit"));
    assert!(!text_is("deposit ", "deposit"));
    assert!(text_is("", ""));
}

#[test]
fn fields_are_found_by_the_first_column_of_the_name() {
    let names = row(&["a", "b", "a"]);
    let record = row(&["1", "2", "3"]);
    assert_eq!(field_of(&names, &record, "a"), Some(&"1".to_string()));
    assert_eq!(field_of(&names, &record, "b"), Some(&"2".to_string()));
    assert_eq!(field_of(&names, &record, "c"), None);
    let short = row(&["1"]);
    assert_eq!(field_of(&names, &short, "a"), Some(&"1".to_string()));
    assert_eq!(field_of(&names, &short, "b"), None);
}

#[test]
fn kinds_are_read_from_the_type_column() {
    let h = headers();
    assert!(matches!(
        TransactionType::from_record(&h, &row(&["deposit", "1", "1", "1.5"])),
        Ok(TransactionType::Deposit(amount)) if amount == Amount::new(15, 1)
    ));
    assert!(matches!(
        TransactionType::from_record(&h, &row(&["withdraw", "1", "1", "2"])),
        Ok(TransactionType::Withdraw(amount)) if amount == Amount::new(2, 0)
    ));
    assert!(matches!(
        TransactionType::from_record(&h, &row(&["dispute", "1", "1", ""])),
        Ok(TransactionType::Dispute)
    ));
    assert!(matches!(
        TransactionType::from_record(&h, &row(&["resolve", "1", "1", ""])),
        Ok(TransactionType::Resolve)
    ));
    assert!(matches!(
        TransactionType::from_record(&h, &row(&["chargeback", "1", "1", ""])),
        Ok(TransactionType::Chargeback)
    ));
}

#[test]
fn each_fault_of_a_record_has_its_message() {
    let h = headers();
    assert_eq!(
        TransactionType::from_record(&h, &row(&["deposit", "1", "1", ""])).unwrap_err(),
        "Failed to parse deposit transaction amount."
    );
    assert_eq!(
        TransactionType::from_record(&h, &row(&["withdraw", "1", "1", "much"])).unwrap_err(),
        "Failed to parse withdraw transaction amount."
    );
    assert_eq!(
        TransactionType::from_record(&h, &row(&["deposit", "1", "1"])).unwrap_err(),
        "Failed to parse deposit transaction amount."
    );
    assert_eq!(
        TransactionType::from_record(&h, &row(&["withdrawal", "1", "1", "1.0"])).unwrap_err(),
        "Unknown transaction type."
    );
    assert_eq!(
        TransactionType::from_record(&row(&["client", "tx"]), &row(&["1", "1"])).unwrap_err(),
        "Failed to parse transaction from provided data."
    );
    assert_eq!(
        TransactionType::from_record(&h, &row(&[])).unwrap_err(),
        "Failed to parse transaction from provided data."
    );
}

#[test]
fn amounts_are_read_from_the_amount_column() {
    let h = headers();
    let amount = TransactionType::amount_from_record(&h, &row(&["deposit", "1", "1", "12.345"]));
    assert_eq!(amount.unwrap().mantissa(), 12345);
    assert_eq!(amount.unwrap().scale(), 3);
    assert!(TransactionType::amount_from_record(&h, &row(&["deposit", "1", "1", "x"])).is_none());
    assert!(TransactionType::amount_from_record(&h, &row(&["deposit", "1", "1"])).is_none());
    assert!(TransactionType::amount_from_record(&row(&["type"]), &row(&["deposit"])).is_none());
}

#[test]
fn transactions_are_read_whatever_the_order_of_columns() {
    let names = row(&["amount", "tx", "type", "client"]);
    let transaction = Transaction::from_record(&names, &row(&["2.5", "7", "deposit", "3"])).unwrap();
    assert_eq!(transaction.tx, 7);
    assert_eq!(transaction.client, 3);
    assert!(matches!(
        transaction.transaction_type,
        TransactionType::Deposit(amount) if amount == Amount::new(25, 1)
    ));

    let transaction = Transaction::from_record(&headers(), &row(&["dispute", "65535", "4294967295", ""]))
        .unwrap();
    assert_eq!(transaction.tx, u32::MAX);
    assert_eq!(transaction.client, u16::MAX);
    assert!(matches!(transaction.transaction_type, TransactionType::Dispute));
}

#[test]
fn records_that_cannot_be_read_give_no_transaction() {
    let h = headers();
    assert!(Transaction::from_record(&h, &row(&["deposit", "1", "x", "1.0"])).is_none());
    assert!(Transaction::from_record(&h, &row(&["deposit", "65536", "1", "1.0"])).is_none());
    assert!(Transaction::from_record(&h, &row(&["deposit", "1", "4294967296", "1.0"])).is_none());
    assert!(Transaction::from_record(&h, &row(&["deposit", "-1", "1", "1.0"])).is_none());
    assert!(Transaction::from_record(&h, &row(&["deposit", "1", "1", ""])).is_none());
    assert!(Transaction::from_record(&h, &row(&["transfer", "1", "1", "1.0"])).is_none());
    assert!(Transaction::from_record(&h, &row(&["dispute", "1"])).is_none());
    assert!(Transaction::from_record(&row(&["type", "tx"]), &row(&["dispute", "1"])).is_none());
    assert!(Transaction::from_record(&row(&["type", "client"]), &row(&["dispute", "1"])).is_none());
}
