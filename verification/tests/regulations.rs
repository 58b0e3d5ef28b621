use investments::decimal::Decimal;
use investments::regulations::{russia, us};
use investments::time::Date;
use investments::xls::{is_empty_row, ColumnsMapping};
use investments::error::Error;

#[test]
fn countries() {
    let russia = russia();
    assert_eq!(russia.currency, "RUB");
    assert!(russia.tax_rate.same_value(&Decimal::new(13, 2)));
    assert_eq!(russia.get_tax_payment_date(Date::from_ymd(2020, 7, 1)), Date::from_ymd(2021, 3, 15));

    let us = us();
    assert_eq!(us.currency, "USD");
    assert!(us.tax_rate.same_value(&Decimal::new(10, 2)));
}

#[test]
fn columns_mapping() {
    let mapping = ColumnsMapping { mapping: vec![0, 2, 3] };
    assert_eq!(mapping.map(&[false, true, false, false]).unwrap(), vec![0, 2, 3]);
    assert_eq!(mapping.map(&[false, true, false, false, true]).unwrap(), vec![0, 2, 3]);
    assert!(matches!(mapping.map(&[false, false, false, false]), Err(Error::CellsBetweenColumns(1, 2))));
    assert!(matches!(mapping.map(&[false, true, false, false, false]), Err(Error::CellsAfterColumns(4))));
    assert!(matches!(mapping.map(&[false, true, false]), Err(Error::MissingColumn(2, 3))));
    assert!(is_empty_row(&[true, true]));
    assert!(!is_empty_row(&[true, false]));
}
