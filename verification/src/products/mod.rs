//! The operations on the exchange's products and currencies.

pub mod get_currencies;

pub use self::get_currencies::GetCurrencies;
