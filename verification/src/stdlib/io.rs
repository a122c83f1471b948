//! The computing part of the input functions `readInt` and `readString`:
//! each takes the line that was read from standard input (with its line
//! terminator; empty at end of input) and gives the value.
use vstd::prelude::*;
use crate::interpreter::value::{RuntimeError, Value};
use crate::text::{chars_of, parse_i64, parse_i64_spec, string_of, trim_chars, trimmed};

verus! {

/// `readInt()` on the line `line`: the integer it holds, surrounding white
/// space ignored. Errors at end of input (an empty line) and when the text
/// is not an integer.
pub fn read_int_fn(line: &String) -> (r: Result<Value, RuntimeError>)
    ensures
        r is Ok <==> (line@.len() > 0 && parse_i64_spec(trimmed(line@)) is Some),
        line@.len() == 0 ==> (r matches Err(e) && e.message@ == "readString: unexpected EOF"@),
        r matches Ok(v) ==> v is Int && parse_i64_spec(trimmed(line@)) == Some(v->Int_0 as int),
{
    let cs = chars_of(line.as_str());
    if cs.len() == 0 {
        return Err(RuntimeError::new("readString: unexpected EOF"));
    }
    let t = trim_chars(&cs);
    match parse_i64(&t) {
        Some(n) => Ok(Value::Int(n)),
        None => Err(RuntimeError::new("readInt: invalid integer input")),
    }
}

/// `readString()` on the line `line`: the line without surrounding white
/// space. Errors at end of input (an empty line).
pub fn read_string_fn(line: &String) -> (r: Result<Value, RuntimeError>)
    ensures
        r is Ok <==> line@.len() > 0,
        line@.len() == 0 ==> (r matches Err(e) && e.message@ == "readString: unexpected EOF"@),
        r matches Ok(v) ==> v is Str && v->Str_0@ == trimmed(line@),
{
    let cs = chars_of(line.as_str());
    if cs.len() == 0 {
        return Err(RuntimeError::new("readString: unexpected EOF"));
    }
    let t = trim_chars(&cs);
    Ok(Value::Str(string_of(&t)))
}

} // verus!
