//! The standard library: the native functions every program can call, with
//! their MiniC signatures, kept in a registry that the type checker, the
//! interpreter and the code generator share.
//!
//! The registry holds, in this order: `print(Any) -> void`,
//! `readInt() -> int`, `readFloat() -> float`, `readString() -> str`,
//! `pow(float, float) -> float`, `sqrt(float) -> float`,
//! `substr(str, int, int) -> str`, `toUpper(str) -> str`,
//! `toLower(str) -> str`, `strToInt(str) -> int`, `strToFloat(str) -> float`.
pub mod io;
pub mod registry;
pub mod string;
