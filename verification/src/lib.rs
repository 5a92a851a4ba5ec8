//! A password generator that works from a specification: a length and, for
//! some classes of characters, how many characters of the class the password
//! holds.
//!
//! A specification is built step by step or read from a text such as
//! `16//3+|:upper://1-2|:lower://3-|:number://1|:symbol:`, which asks for
//! sixteen characters, three or more of them upper-case letters, one or two
//! lower-case letters, at most three digits and exactly one symbol.
//!
//! ```text
//! let spec = PasswordSpec::new()
//!     .length(16)
//!     .upper_at_least(1)
//!     .lower(Interval::new(1, 10).unwrap())
//!     .with(Charset::Number.exactly(3))
//!     .custom(vec!['&', '^'], Interval::exactly(1));
//! match spec.generate() {
//!     Some(password) => println!("{}", password),
//!     None => println!("Couldn't meet constraints of spec"),
//! }
//! ```
//!
//! Generation is random, and its contract says what holds of every outcome:
//! a password comes out exactly where the specification is feasible, it has
//! the length asked for, and it is a draw from the constraints (`draw`). What
//! is written reads back (`roundtrip`).
pub mod charset;
pub mod choice;
pub mod cli;
pub mod draw;
pub mod interval;
pub mod password;
mod random;
pub mod roundtrip;
pub mod text;
