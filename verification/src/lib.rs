pub mod currency;
pub mod decimal;
pub mod error;
pub mod localities;
pub mod quotes;
pub mod regulations;
pub mod statement;
pub mod tax_statement;
pub mod taxes;
pub mod text;
pub mod time;
pub mod trades;
pub mod util;
pub mod xls;
pub mod year_map;
