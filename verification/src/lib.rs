//! Decoder for the compact binary level-document format of a 2-D platformer's
//! level editor, and a typed projection of the decoded tree into rooms,
//! filler rectangles and a document style.
//!
//! The pipeline is: raw bytes -> byte cursor -> string table -> generic
//! element tree -> typed `GameMap`. Decoding is a pure function of the input
//! buffer; every step is specified against a mathematical model of the wire
//! format and proved to match it.

pub mod cursor;
pub mod decode;
pub mod element;
pub mod error;
pub mod gamemap;
pub mod model;
pub mod session;

pub use cursor::Cursor;
pub use element::Attr;
pub use element::Element;
pub use element::Value;
pub use error::MapError;
pub use gamemap::Filler;
pub use gamemap::GameMap;
pub use gamemap::Level;
pub use gamemap::Style;
pub use session::data_assert_key_value;
pub use session::SessionData;
