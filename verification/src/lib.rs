//! Balanced ternary integers of a fixed number of trits: the trit and its
//! algebra, conversion to and from native integers, order, addition,
//! multiplication and division, and reading and writing a range of trits as
//! a field of its own.
pub mod arith;
pub mod balanced_int;
pub mod digits;
pub mod division;
pub mod laws;
pub mod native;
pub mod opcode;
pub mod ops;
pub mod order;
pub mod trit;
pub mod tryte;
pub mod word;

pub use balanced_int::{ArithmeticTernaryInteger, BIntError, BalancedInt, TernaryIntegerRepr};
pub use native::NativeInt;
pub use opcode::{ArchError, Immediate, InvalidOpCode, OpCode, Register};
pub use trit::{InvalidTritValueError, Trit};
pub use tryte::{Tryte, TryteConversionError};
pub use word::Word;
