//! String functions of the standard library: `substr`, `toUpper`,
//! `toLower`, `strToInt`. Each takes its arguments as a vector of runtime
//! values and checks their number and kinds.
use vstd::prelude::*;
use crate::interpreter::value::{RuntimeError, Value};
use crate::stdlib::registry::NativeFn;
use crate::text::{
    append_chars, append_str, chars_of, decimal, decimal_chars, decimal_chars_i64, decimal_int, parse_i64, parse_i64_spec,
    string_of, trim_chars, trimmed,
};

verus! {

/// The upper-case mapping of a string, as `str::to_uppercase` computes it.
pub uninterp spec fn uppercase(s: Seq<char>) -> Seq<char>;

/// The lower-case mapping of a string, as `str::to_lowercase` computes it.
pub uninterp spec fn lowercase(s: Seq<char>) -> Seq<char>;

/// Calls `str::to_uppercase`. Claimed: the result is a fixed function of the
/// string's characters, named `uppercase`.
#[verifier::external_body]
fn string_to_uppercase(s: &String) -> (r: String)
    ensures
        r@ == uppercase(s@),
{
    s.to_uppercase()
}

/// Calls `str::to_lowercase`. Claimed: the result is a fixed function of the
/// string's characters, named `lowercase`.
#[verifier::external_body]
fn string_to_lowercase(s: &String) -> (r: String)
    ensures
        r@ == lowercase(s@),
{
    s.to_lowercase()
}

/// `prefix` followed by the decimal digits of `n`.
fn message_with(prefix: &str, n: u64) -> (r: RuntimeError)
    ensures
        r.message@ == prefix@ + decimal(n as nat),
{
    let mut v: Vec<char> = Vec::new();
    append_str(&mut v, prefix);
    append_chars(&mut v, &decimal_chars(n));
    RuntimeError { message: string_of(&v) }
}

/// What `substr(s, start, length)` gives: the `length` characters of `s`
/// from `start`, or an error naming the wrong argument count or the bound
/// that does not hold (an argument of the wrong kind gives an error too).
pub open spec fn substr_result(args: Seq<Value>, r: Result<Value, RuntimeError>) -> bool {
    if args.len() != 3 {
        r matches Err(e) && e.message@ == "substr expects 3 arguments, got "@ + decimal(args.len())
    } else if !(args[0] is Str && args[1] is Int && args[2] is Int) {
        r is Err
    } else {
        let s = args[0]->Str_0@;
        let start = args[1]->Int_0 as int;
        let length = args[2]->Int_0 as int;
        if start < 0 {
            r matches Err(e) && e.message@ == "substr: start index out of bounds: "@ + decimal_int(start)
        } else if length < 0 {
            r matches Err(e) && e.message@ == "substr: length out of bounds: "@ + decimal_int(length)
        } else if start > s.len() {
            r matches Err(e) && e.message@ == "substr: start index out of bounds: "@ + decimal(start as nat) + " (len: "@
                + decimal(s.len()) + ")"@
        } else if start + length > s.len() {
            r matches Err(e) && e.message@ == "substr: range out of bounds: ["@ + decimal(start as nat) + ".."@
                + decimal((start + length) as nat) + ") for len "@ + decimal(s.len())
        } else {
            r matches Ok(v) && v is Str && v->Str_0@ == s.subrange(start, start + length)
        }
    }
}

/// `substr(s, start, length)`: the `length` characters of `s` from `start`.
pub fn substr(args: Vec<Value>) -> (r: Result<Value, RuntimeError>)
    ensures
        substr_result(args@, r),
{
    if args.len() != 3 {
        return Err(message_with("substr expects 3 arguments, got ", args.len() as u64));
    }
    let s = match &args[0] {
        Value::Str(s) => s,
        _ => { return Err(RuntimeError::new("substr: expected string argument")); },
    };
    let start = match &args[1] {
        Value::Int(n) => *n,
        _ => { return Err(RuntimeError::new("substr: expected int start index")); },
    };
    let length = match &args[2] {
        Value::Int(n) => *n,
        _ => { return Err(RuntimeError::new("substr: expected int length")); },
    };
    if start < 0 {
        let mut v: Vec<char> = Vec::new();
        append_str(&mut v, "substr: start index out of bounds: ");
        append_chars(&mut v, &decimal_chars_i64(start));
        return Err(RuntimeError { message: string_of(&v) });
    }
    if length < 0 {
        let mut v: Vec<char> = Vec::new();
        append_str(&mut v, "substr: length out of bounds: ");
        append_chars(&mut v, &decimal_chars_i64(length));
        return Err(RuntimeError { message: string_of(&v) });
    }
    let chars = chars_of(s.as_str());
    if start as u64 > chars.len() as u64 {
        let mut v: Vec<char> = Vec::new();
        append_str(&mut v, "substr: start index out of bounds: ");
        append_chars(&mut v, &decimal_chars(start as u64));
        append_str(&mut v, " (len: ");
        append_chars(&mut v, &decimal_chars(chars.len() as u64));
        append_str(&mut v, ")");
        return Err(RuntimeError { message: string_of(&v) });
    }
    let st = start as usize;
    if length as u64 > (chars.len() - st) as u64 {
        let mut v: Vec<char> = Vec::new();
        append_str(&mut v, "substr: range out of bounds: [");
        append_chars(&mut v, &decimal_chars(start as u64));
        append_str(&mut v, "..");
        append_chars(&mut v, &decimal_chars(start as u64 + length as u64));
        append_str(&mut v, ") for len ");
        append_chars(&mut v, &decimal_chars(chars.len() as u64));
        return Err(RuntimeError { message: string_of(&v) });
    }
    let end = st + length as usize;
    let mut out: Vec<char> = Vec::new();
    let mut i: usize = st;
    while i < end
        invariant
            st <= i <= end <= chars.len(),
            out@ == chars@.subrange(st as int, i as int),
        decreases end - i,
    {
        out.push(chars[i]);
        assert(out@ =~= chars@.subrange(st as int, i + 1));
        i = i + 1;
    }
    Ok(Value::Str(string_of(&out)))
}

/// What `toUpper(s)` gives: the upper-case version of `s`.
pub open spec fn to_upper_result(args: Seq<Value>, r: Result<Value, RuntimeError>) -> bool {
    if args.len() != 1 {
        r matches Err(e) && e.message@ == "toUpper expects 1 argument, got "@ + decimal(args.len())
    } else if !(args[0] is Str) {
        r is Err
    } else {
        r matches Ok(v) && v is Str && v->Str_0@ == uppercase(args[0]->Str_0@)
    }
}

/// `toUpper(s)`: the upper-case version of the string `s`.
pub fn to_upper(args: Vec<Value>) -> (r: Result<Value, RuntimeError>)
    ensures
        to_upper_result(args@, r),
{
    if args.len() != 1 {
        return Err(message_with("toUpper expects 1 argument, got ", args.len() as u64));
    }
    match &args[0] {
        Value::Str(s) => Ok(Value::Str(string_to_uppercase(s))),
        _ => Err(RuntimeError::new("toUpper: expected string argument")),
    }
}

/// What `toLower(s)` gives: the lower-case version of `s`.
pub open spec fn to_lower_result(args: Seq<Value>, r: Result<Value, RuntimeError>) -> bool {
    if args.len() != 1 {
        r matches Err(e) && e.message@ == "toLower expects 1 argument, got "@ + decimal(args.len())
    } else if !(args[0] is Str) {
        r is Err
    } else {
        r matches Ok(v) && v is Str && v->Str_0@ == lowercase(args[0]->Str_0@)
    }
}

/// `toLower(s)`: the lower-case version of the string `s`.
pub fn to_lower(args: Vec<Value>) -> (r: Result<Value, RuntimeError>)
    ensures
        to_lower_result(args@, r),
{
    if args.len() != 1 {
        return Err(message_with("toLower expects 1 argument, got ", args.len() as u64));
    }
    match &args[0] {
        Value::Str(s) => Ok(Value::Str(string_to_lowercase(s))),
        _ => Err(RuntimeError::new("toLower: expected string argument")),
    }
}

/// What `strToInt(s)` gives: the integer written in `s`, surrounding white
/// space ignored; an error where `s` does not spell one.
pub open spec fn str_to_int_result(args: Seq<Value>, r: Result<Value, RuntimeError>) -> bool {
    if args.len() != 1 {
        r matches Err(e) && e.message@ == "strToInt expects 1 argument, got "@ + decimal(args.len())
    } else if !(args[0] is Str) {
        r is Err
    } else {
        match parse_i64_spec(trimmed(args[0]->Str_0@)) {
            Some(n) => r == Ok::<Value, RuntimeError>(Value::Int(n as i64)),
            None => r matches Err(e) && e.message@ == "strToInt: cannot convert '"@ + args[0]->Str_0@ + "' to int"@,
        }
    }
}

/// `strToInt(s)`: the integer written in `s`, surrounding white space
/// ignored (Rust's `i64` syntax: optional sign, decimal digits).
pub fn str_to_int(args: Vec<Value>) -> (r: Result<Value, RuntimeError>)
    ensures
        str_to_int_result(args@, r),
{
    if args.len() != 1 {
        return Err(message_with("strToInt expects 1 argument, got ", args.len() as u64));
    }
    match &args[0] {
        Value::Str(s) => {
            let cs = chars_of(s.as_str());
            let t = trim_chars(&cs);
            match parse_i64(&t) {
                Some(n) => Ok(Value::Int(n)),
                None => {
                    let mut v: Vec<char> = Vec::new();
                    append_str(&mut v, "strToInt: cannot convert '");
                    append_chars(&mut v, &cs);
                    append_str(&mut v, "' to int");
                    Err(RuntimeError { message: string_of(&v) })
                },
            }
        },
        _ => Err(RuntimeError::new("strToInt: expected string argument")),
    }
}

/// The native functions that compute on plain values, which the library
/// runs itself: `substr`, `toUpper`, `toLower`, `strToInt`.
pub open spec fn is_pure_native(f: NativeFn) -> bool {
    f is Substr || f is ToUpper || f is ToLower || f is StrToInt
}

/// What a call of the computing native `f` on `args` gives.
pub open spec fn pure_native_result(f: NativeFn, args: Seq<Value>, r: Result<Value, RuntimeError>) -> bool {
    match f {
        NativeFn::Substr => substr_result(args, r),
        NativeFn::ToUpper => to_upper_result(args, r),
        NativeFn::ToLower => to_lower_result(args, r),
        NativeFn::StrToInt => str_to_int_result(args, r),
        _ => false,
    }
}

/// Whether `f` is one of the natives the library runs itself.
pub fn pure_native(f: NativeFn) -> (r: bool)
    ensures
        r == is_pure_native(f),
{
    match f {
        NativeFn::Substr | NativeFn::ToUpper | NativeFn::ToLower | NativeFn::StrToInt => true,
        _ => false,
    }
}

/// Calls the computing native `f`.
pub fn call_pure_native(f: NativeFn, args: Vec<Value>) -> (r: Result<Value, RuntimeError>)
    requires
        is_pure_native(f),
    ensures
        pure_native_result(f, args@, r),
{
    match f {
        NativeFn::Substr => substr(args),
        NativeFn::ToUpper => to_upper(args),
        NativeFn::ToLower => to_lower(args),
        _ => str_to_int(args),
    }
}

} // verus!
