//! Byte sources with different acquisition strategies, and a single-pass
//! tokenizer that consumes any of them.
//!
//! A [`ByteSource`] yields the bytes of a finite input one at a time. Three
//! sources are here: [`ByteReader`] asks its resource for one byte at each
//! pull, [`BufferedReader`] asks for a buffer's worth whenever its buffer is
//! used up, and [`MMapReader`] walks over a region of memory that holds the
//! whole input. A [`Lexer`] scans the bytes of any source into identifiers
//! and numbers.
//!
//! Every contract speaks of the bytes that a source or a lexer has yet to
//! deliver. The module [`grammar`] says which tokens a sequence of bytes
//! holds, and [`theorems`] proves what follows: the tokens depend on the
//! bytes alone, not on the source that delivers them.

pub mod grammar;
pub mod token;
pub mod resource;
pub mod source;
pub mod direct;
pub mod buffered;
pub mod mapped;
pub mod lexer;
pub mod theorems;

pub use buffered::{make_box, BufferedReader};
pub use direct::ByteReader;
pub use lexer::Lexer;
pub use mapped::MMapReader;
pub use resource::{Failing, Memory, ReadError, Readable};
pub use source::ByteSource;
pub use token::{NumberOverflow, Token};
