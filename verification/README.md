# investments

Tools for an investor's taxes and quotes, with the logic verified by Verus.

- `src/` is the verified library:
  - `time`: dates, months, periods and the parsing of dates, times and durations;
  - `decimal`, `currency`, `util`: decimal numbers (computed by `rust_decimal`), money and the
    validation and rounding of amounts;
  - `taxes`: tax rates (flat and progressive), the tax calculator, taxes on trading profits by
    tax year, the long-term ownership deduction, tax payment days, tax remapping and exemptions;
  - `statement`: broker statements and the Interactive Brokers activity statement reader;
  - `tax_statement`: the tax statement file format (Windows-1251 values framed by their size),
    its reader and writer, foreign incomes and the declaration's file helpers;
  - `quotes`: Moscow Exchange and central bank answers, deposit rate statistics, T-Bank
    instruments, last prices and candles, and the providers' settings;
  - `trades`, `regulations`, `localities`, `xls`, `year_map`: prices of trades, countries'
    taxes and spreadsheet column mapping.
- `tests/` runs the library on concrete values.
- `app/` reads statements and tax statement files, parses configuration values, turns T-Bank
  answers into quotes and prints reports around the library.
