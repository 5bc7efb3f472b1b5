//! The verified core of a calculator served over the Model Context Protocol:
//! calendar and date arithmetic, programmer (integer) tools, unit lookup,
//! expression rewriting, continued fractions and matrix shape checks.
pub mod calendar;
pub mod chrono_api;
pub mod datetime;
pub mod expression;
pub mod precision;
pub mod programmer;
pub mod shapes;
pub mod text;
pub mod units;
