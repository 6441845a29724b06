//! The global object's intrinsic functions the core models: `eval`,
//! `isFinite`, `isNaN` and `parseInt`.

use vstd::prelude::*;

use crate::agent::Agent;
use crate::eval::ScriptDecls;
use crate::value::{
    f64_bits_is_finite, f64_bits_is_nan, JsError, TryResult, Value, CANONICAL_NAN_BITS,
    MAX_SAFE_INTEGER,
};

verus! {

/// The ECMAScript WhiteSpace and LineTerminator code points TrimString
/// removes.
pub open spec fn is_js_whitespace(c: char) -> bool {
    ||| c == ' '
    ||| c == '\u{0009}'
    ||| c == '\u{000A}'
    ||| c == '\u{000B}'
    ||| c == '\u{000C}'
    ||| c == '\u{000D}'
    ||| c == '\u{00A0}'
    ||| c == '\u{1680}'
    ||| ('\u{2000}' <= c && c <= '\u{200A}')
    ||| c == '\u{2028}'
    ||| c == '\u{2029}'
    ||| c == '\u{202F}'
    ||| c == '\u{205F}'
    ||| c == '\u{3000}'
    ||| c == '\u{FEFF}'
}

pub fn js_whitespace(c: char) -> (r: bool)
    ensures
        r == is_js_whitespace(c),
{
    c == ' ' || c == '\u{0009}' || c == '\u{000A}' || c == '\u{000B}' || c == '\u{000C}'
        || c == '\u{000D}' || c == '\u{00A0}' || c == '\u{1680}' || ('\u{2000}' <= c && c
        <= '\u{200A}') || c == '\u{2028}' || c == '\u{2029}' || c == '\u{202F}' || c == '\u{205F}'
        || c == '\u{3000}' || c == '\u{FEFF}'
}

/// ToInt32: the value wrapped into `[-2^31, 2^31)` modulo 2^32, which is
/// how an out-of-range radix argument is read.
pub open spec fn to_int32_spec(n: int) -> int {
    let m = n % 0x1_0000_0000;
    let m2 = if m < 0 {
        m + 0x1_0000_0000
    } else {
        m
    };
    if m2 >= 0x8000_0000 {
        m2 - 0x1_0000_0000
    } else {
        m2
    }
}

pub fn to_int32(n: i64) -> (r: i64)
    ensures
        r == to_int32_spec(n as int),
        -0x8000_0000 <= r < 0x8000_0000,
{
    let m = n % 0x1_0000_0000;
    let m2 = if m < 0 {
        m + 0x1_0000_0000
    } else {
        m
    };
    if m2 >= 0x8000_0000 {
        m2 - 0x1_0000_0000
    } else {
        m2
    }
}

/// The value of a radix digit: `0`-`9`, then letters of either case up to
/// the radix.
pub open spec fn digit_val_spec(c: char, radix: int) -> Option<int> {
    let d = if '0' <= c && c <= '9' {
        (c as int) - ('0' as int)
    } else if 'a' <= c && c <= 'z' {
        (c as int) - ('a' as int) + 10
    } else if 'A' <= c && c <= 'Z' {
        (c as int) - ('A' as int) + 10
    } else {
        99
    };
    if d < radix {
        Some(d)
    } else {
        None
    }
}

pub fn digit_val(c: char, radix: u32) -> (r: Option<u32>)
    requires
        2 <= radix <= 36,
    ensures
        match r {
            Some(d) => digit_val_spec(c, radix as int) == Some(d as int) && d < radix,
            None => digit_val_spec(c, radix as int) is None,
        },
{
    let d: u32 = if '0' <= c && c <= '9' {
        (c as u32) - ('0' as u32)
    } else if 'a' <= c && c <= 'z' {
        (c as u32) - ('a' as u32) + 10
    } else if 'A' <= c && c <= 'Z' {
        (c as u32) - ('A' as u32) + 10
    } else {
        99
    };
    if d < radix {
        Some(d)
    } else {
        None
    }
}

/// The mathematical value of the digits in `[from, upto)`, most significant
/// first.
pub open spec fn digits_value(s: Seq<char>, radix: int, from: int, upto: int) -> int
    decreases upto - from,
{
    if upto <= from {
        0
    } else {
        digits_value(s, radix, from, upto - 1) * radix + (match digit_val_spec(
            s[upto - 1],
            radix,
        ) {
            Some(d) => d,
            None => 0,
        })
    }
}

/// Digit strings only grow: the value of a longer prefix is at least the
/// value of a shorter one.
pub proof fn lemma_digits_value_monotone(s: Seq<char>, radix: int, from: int, a: int, b: int)
    requires
        2 <= radix,
        from <= a <= b,
        digits_value(s, radix, from, a) >= 0,
        forall|j: int| from <= j < b ==> (#[trigger] digit_val_spec(s[j], radix)) is Some,
    ensures
        digits_value(s, radix, from, b) >= digits_value(s, radix, from, a),
        digits_value(s, radix, from, b) >= 0,
    decreases b - a,
{
    if b > a {
        lemma_digits_value_monotone(s, radix, from, a, b - 1);
        assert(digit_val_spec(s[b - 1], radix) is Some);
        let d = digits_value(s, radix, from, b - 1);
        assert(digits_value(s, radix, from, b) >= d) by (nonlinear_arith)
            requires
                d >= 0,
                radix >= 2,
                digits_value(s, radix, from, b) == d * radix + (match digit_val_spec(
                    s[b - 1],
                    radix,
                ) {
                    Some(dd) => dd,
                    None => 0,
                }),
                (match digit_val_spec(s[b - 1], radix) {
                    Some(dd) => dd,
                    None => 0,
                }) >= 0,
        {}
    }
}

/// Index of the first non-whitespace character at or after `from`.
fn skip_whitespace(chars: &Vec<char>, from: usize) -> (i: usize)
    requires
        from <= chars@.len(),
    ensures
        from <= i <= chars@.len(),
        forall|j: int| from <= j < i ==> is_js_whitespace(#[trigger] chars@[j]),
        i < chars@.len() ==> !is_js_whitespace(chars@[i as int]),
{
    let n = chars.len();
    let mut i = from;
    while i < n
        invariant
            from <= i <= n,
            n == chars@.len(),
            forall|j: int| from <= j < i ==> is_js_whitespace(#[trigger] chars@[j]),
        decreases n - i,
    {
        if !js_whitespace(chars[i]) {
            return i;
        }
        i += 1;
    }
    i
}

/// Index of the first non-digit character at or after `from`.
fn scan_digits(chars: &Vec<char>, from: usize, radix: u32) -> (e: usize)
    requires
        from <= chars@.len(),
        2 <= radix <= 36,
    ensures
        from <= e <= chars@.len(),
        forall|j: int| from <= j < e ==> (#[trigger] digit_val_spec(chars@[j], radix as int)) is Some,
        e < chars@.len() ==> (digit_val_spec(chars@[e as int], radix as int) is None),
{
    let n = chars.len();
    let mut i = from;
    while i < n
        invariant
            from <= i <= n,
            n == chars@.len(),
            2 <= radix <= 36,
            forall|j: int|
                from <= j < i ==> (#[trigger] digit_val_spec(chars@[j], radix as int)) is Some,
        decreases n - i,
    {
        if digit_val(chars[i], radix).is_none() {
            return i;
        }
        i += 1;
    }
    i
}

/// Accumulates the digits in `[from, upto)`. `None` when the value leaves
/// the safe integer range, in which case the caller must approximate.
fn accumulate_digits(chars: &Vec<char>, from: usize, upto: usize, radix: u32) -> (r: Option<i64>)
    requires
        from <= upto <= chars@.len(),
        2 <= radix <= 36,
        forall|j: int|
            from <= j < upto ==> (#[trigger] digit_val_spec(chars@[j], radix as int)) is Some,
    ensures
        match r {
            Some(v) => v as int == digits_value(chars@, radix as int, from as int, upto as int)
                && 0 <= v <= MAX_SAFE_INTEGER,
            None => digits_value(chars@, radix as int, from as int, upto as int)
                > MAX_SAFE_INTEGER,
        },
{
    let mut acc: i64 = 0;
    let mut i = from;
    while i < upto
        invariant
            from <= i <= upto,
            upto <= chars@.len(),
            2 <= radix <= 36,
            forall|j: int|
                from <= j < upto ==> (#[trigger] digit_val_spec(chars@[j], radix as int)) is Some,
            acc as int == digits_value(chars@, radix as int, from as int, i as int),
            0 <= acc <= MAX_SAFE_INTEGER,
        decreases upto - i,
    {
        let d = match digit_val(chars[i], radix) {
            Some(d) => d,
            None => 0,
        };
        if acc > (MAX_SAFE_INTEGER - d as i64) / (radix as i64) {
            proof {
                let s = chars@;
                let rx = radix as int;
                assert(digits_value(s, rx, from as int, i as int + 1) == acc * rx + d) by {}
                assert(acc * rx + d > MAX_SAFE_INTEGER) by (nonlinear_arith)
                    requires
                        acc > (MAX_SAFE_INTEGER - d) / rx,
                        2 <= rx <= 36,
                        0 <= d < rx,
                        0 <= acc,
                {}
                lemma_digits_value_monotone(s, rx, from as int, i as int + 1, upto as int);
            }
            return None;
        }
        proof {
            let rx = radix as int;
            assert(acc * rx + d <= MAX_SAFE_INTEGER) by (nonlinear_arith)
                requires
                    acc <= (MAX_SAFE_INTEGER - d) / rx,
                    2 <= rx <= 36,
                    0 <= d < rx,
                    0 <= acc,
            {}
        }
        acc = acc * (radix as i64) + (d as i64);
        i += 1;
    }
    Some(acc)
}

/// One possible interpretation of the `parseInt` arguments the core can
/// finish by itself.
pub enum ParseIntStep {
    /// The result is NaN.
    NotANumber,
    /// The exact integer result.
    Exact(i64),
    /// The digits exceed the safe integer range: the host must
    /// approximate, so no finished value comes back.
    Overflow,
}

/// The full description of a finished `parseInt` on a string: whitespace is
/// trimmed, an optional sign and an optional `0x` prefix are stripped, and
/// the digit prefix's exact value is returned with the sign applied; an
/// empty digit prefix means NaN.
pub open spec fn parse_int_characterised(
    s: Seq<char>,
    radix_arg: int,
    ws_end: int,
    sign_end: int,
    dig_start: int,
    dig_end: int,
    radix: int,
    outcome: ParseIntStep,
) -> bool {
    &&& 0 <= ws_end <= s.len()
    &&& (forall|j: int| 0 <= j < ws_end ==> is_js_whitespace(#[trigger] s[j]))
    &&& (ws_end < s.len() ==> !is_js_whitespace(s[ws_end]))
    &&& (if ws_end < s.len() && (s[ws_end] == '-' || s[ws_end] == '+') {
        sign_end == ws_end + 1
    } else {
        sign_end == ws_end
    })
    &&& {
        let base = if radix_arg == 0 {
            10int
        } else {
            radix_arg
        };
        let strip = radix_arg == 0 || radix_arg == 16;
        if !(2 <= base <= 36) {
            outcome is NotANumber
        } else {
            &&& (if strip && sign_end + 1 < s.len() && s[sign_end] == '0' && (s[sign_end + 1]
                == 'x' || s[sign_end + 1] == 'X') {
                dig_start == sign_end + 2 && radix == 16
            } else {
                dig_start == sign_end && radix == base
            })
            &&& (forall|j: int|
                dig_start <= j < dig_end ==> (#[trigger] digit_val_spec(s[j], radix)) is Some)
            &&& dig_start <= dig_end <= s.len()
            &&& (dig_end < s.len() ==> (digit_val_spec(s[dig_end], radix) is None))
            &&& (if dig_end == dig_start {
                outcome is NotANumber
            } else {
                let mag = digits_value(s, radix, dig_start, dig_end);
                match outcome {
                    ParseIntStep::Exact(v) => mag <= MAX_SAFE_INTEGER && v as int == (if 0 <= ws_end
                        < s.len() && s[ws_end] == '-' {
                        -mag
                    } else {
                        mag
                    }),
                    ParseIntStep::Overflow => mag > MAX_SAFE_INTEGER,
                    ParseIntStep::NotANumber => false,
                }
            })
        }
    }
}

/// The namespace of the modelled global intrinsic functions.
#[derive(Debug)]
pub struct GlobalObject;

impl GlobalObject {
    /// The %eval% intrinsic: an indirect, non-strict eval of an already
    /// parsed script.
    pub fn eval(agent: &mut Agent, script: Option<&ScriptDecls>) -> (r: Result<Value, JsError>)
        requires
            old(agent).realm.global_env matches Some(g) && old(agent).env_live(g as int),
            old(agent).envs@.len() < u32::MAX - 1,
            script matches Some(s) ==> old(agent).heap.functions@.len() + s.var_scoped@.len()
                < u32::MAX - 1,
            old(agent).execution_context_stack@.len() < usize::MAX,
        ensures
            final(agent).execution_context_stack@ == old(agent).execution_context_stack@,
            script is None ==> (r matches Err(e) && e.kind
                == crate::value::ExceptionType::SyntaxError) && final(agent).envs == old(
                agent,
            ).envs,
            script matches Some(s) && s.is_empty ==> r == Ok::<Value, JsError>(Value::Undefined)
                && final(agent).envs == old(agent).envs,
            script matches Some(s) ==> crate::eval::perform_eval_script_post(
                *old(agent),
                *final(agent),
                *s,
                false,
                false,
                r,
            ),
    {
        crate::eval::perform_eval(agent, script, false, false)
    }

    /// The %isFinite% intrinsic on values the core can number by itself; a
    /// string or object argument needs the host's numeric conversion.
    pub fn is_finite(value: &Value) -> (r: TryResult<Result<Value, JsError>>)
        ensures
            value matches Value::Number(b) ==> r == TryResult::Continue(
                Ok::<Value, JsError>(Value::Boolean(f64_bits_is_finite(b as u64))),
            ),
            value is Integer ==> r == TryResult::Continue(
                Ok::<Value, JsError>(Value::Boolean(true)),
            ),
            value is Undefined ==> r == TryResult::Continue(
                Ok::<Value, JsError>(Value::Boolean(false)),
            ),
            (value is Null || value is Boolean) ==> r == TryResult::Continue(
                Ok::<Value, JsError>(Value::Boolean(true)),
            ),
            (value is String || value is Object || value is Array || value is Function) ==> (
            r is Break),
            value is Symbol ==> (r matches TryResult::Continue(c) && c matches Err(e) && e.kind
                == crate::value::ExceptionType::TypeError),
    {
        match value {
            Value::Number(b) => TryResult::Continue(
                Ok(Value::Boolean(crate::value::bits_is_finite(*b))),
            ),
            Value::Integer(_) => TryResult::Continue(Ok(Value::Boolean(true))),
            Value::Undefined => TryResult::Continue(Ok(Value::Boolean(false))),
            Value::Null => TryResult::Continue(Ok(Value::Boolean(true))),
            Value::Boolean(_) => TryResult::Continue(Ok(Value::Boolean(true))),
            Value::Symbol(_) => TryResult::Continue(
                Err(
                    JsError::new(
                        crate::value::ExceptionType::TypeError,
                        "Cannot convert a Symbol to a number",
                    ),
                ),
            ),
            _ => TryResult::Break,
        }
    }

    /// The %isNaN% intrinsic, under the same conversion proviso.
    pub fn is_nan(value: &Value) -> (r: TryResult<Result<Value, JsError>>)
        ensures
            value matches Value::Number(b) ==> r == TryResult::Continue(
                Ok::<Value, JsError>(Value::Boolean(f64_bits_is_nan(b as u64))),
            ),
            value is Integer ==> r == TryResult::Continue(
                Ok::<Value, JsError>(Value::Boolean(false)),
            ),
            value is Undefined ==> r == TryResult::Continue(
                Ok::<Value, JsError>(Value::Boolean(true)),
            ),
            (value is Null || value is Boolean) ==> r == TryResult::Continue(
                Ok::<Value, JsError>(Value::Boolean(false)),
            ),
            (value is String || value is Object || value is Array || value is Function) ==> (
            r is Break),
            value is Symbol ==> (r matches TryResult::Continue(c) && c matches Err(e) && e.kind
                == crate::value::ExceptionType::TypeError),
    {
        match value {
            Value::Number(b) => TryResult::Continue(
                Ok(Value::Boolean(crate::value::bits_is_nan(*b))),
            ),
            Value::Integer(_) => TryResult::Continue(Ok(Value::Boolean(false))),
            Value::Undefined => TryResult::Continue(Ok(Value::Boolean(true))),
            Value::Null => TryResult::Continue(Ok(Value::Boolean(false))),
            Value::Boolean(_) => TryResult::Continue(Ok(Value::Boolean(false))),
            Value::Symbol(_) => TryResult::Continue(
                Err(
                    JsError::new(
                        crate::value::ExceptionType::TypeError,
                        "Cannot convert a Symbol to a number",
                    ),
                ),
            ),
            _ => TryResult::Break,
        }
    }

    /// The %parseInt% intrinsic. Undefined, null, boolean and empty-string
    /// inputs give NaN at once; an integer input with radix 10 passes
    /// through; a string input is parsed exactly as long as the digits fit
    /// the safe integer range, and breaks to the host's approximating path
    /// beyond it. Other argument kinds need the host's conversions.
    #[verifier::rlimit(80)]
    pub fn parse_int(string: &Value, radix: &Value) -> (r: TryResult<Value>)
        ensures
            (string is Undefined || string is Null || string is Boolean) ==> r
                == TryResult::Continue(Value::Number(CANONICAL_NAN_BITS)),
            string matches Value::Integer(n) ==> (radix == Value::Integer(10i64) ==> r
                == TryResult::Continue(Value::Integer(n as i64))),
            parse_int_string_post(*string, *radix, r),
            (string is Number || string is Object || string is Array || string is Function
                || string is Symbol) ==> (r is Break),
    {
        match string {
            Value::Undefined => {
                return TryResult::Continue(Value::nan());
            },
            Value::Null => {
                return TryResult::Continue(Value::nan());
            },
            Value::Boolean(_) => {
                return TryResult::Continue(Value::nan());
            },
            Value::Integer(n) => {
                if matches!(radix, Value::Integer(10i64)) {
                    return TryResult::Continue(Value::Integer(*n));
                }
                return TryResult::Break;
            },
            Value::String(s) => {
                let radix_arg: i64 = match radix {
                    Value::Integer(rr) => to_int32(*rr),
                    Value::Undefined => 0,
                    _ => {
                        return TryResult::Break;
                    },
                };
                let chars = crate::strconv::str_chars(s.as_str());
                let ws_end = skip_whitespace(&chars, 0);
                let negative = ws_end < chars.len() && chars[ws_end] == '-';
                let sign_end = if ws_end < chars.len() && (chars[ws_end] == '-' || chars[ws_end]
                    == '+') {
                    ws_end + 1
                } else {
                    ws_end
                };
                let base: i64 = if radix_arg == 0 {
                    10
                } else {
                    radix_arg
                };
                let strip = radix_arg == 0 || radix_arg == 16;
                if !(2 <= base && base <= 36) {
                    proof {
                        assert(parse_int_characterised(
                            s@,
                            radix_arg as int,
                            ws_end as int,
                            sign_end as int,
                            sign_end as int,
                            sign_end as int,
                            10,
                            ParseIntStep::NotANumber,
                        ));
                    }
                    return TryResult::Continue(Value::nan());
                }
                let (dig_start, rx): (usize, u32) = if strip && sign_end < chars.len()
                    && sign_end + 1 < chars.len() && chars[sign_end] == '0' && (chars[sign_end + 1]
                    == 'x' || chars[sign_end + 1] == 'X') {
                    (sign_end + 2, 16)
                } else {
                    (sign_end, base as u32)
                };
                let dig_end = scan_digits(&chars, dig_start, rx);
                if dig_end == dig_start {
                    proof {
                        assert(parse_int_characterised(
                            s@,
                            radix_arg as int,
                            ws_end as int,
                            sign_end as int,
                            dig_start as int,
                            dig_end as int,
                            rx as int,
                            ParseIntStep::NotANumber,
                        ));
                    }
                    return TryResult::Continue(Value::nan());
                }
                match accumulate_digits(&chars, dig_start, dig_end, rx) {
                    Some(mag) => {
                        let v: i64 = if negative {
                            -mag
                        } else {
                            mag
                        };
                        proof {
                            assert(parse_int_characterised(
                                s@,
                                radix_arg as int,
                                ws_end as int,
                                sign_end as int,
                                dig_start as int,
                                dig_end as int,
                                rx as int,
                                ParseIntStep::Exact(v),
                            ));
                        }
                        TryResult::Continue(Value::Integer(v))
                    },
                    None => {
                        proof {
                            assert(parse_int_characterised(
                                s@,
                                radix_arg as int,
                                ws_end as int,
                                sign_end as int,
                                dig_start as int,
                                dig_end as int,
                                rx as int,
                                ParseIntStep::Overflow,
                            ));
                        }
                        TryResult::Break
                    },
                }
            },
            _ => TryResult::Break,
        }
    }
}

/// The string case of `parseInt`: either the host must step in (a
/// non-integer radix, or digits beyond the safe range), or the result is
/// characterised exactly by the trim/sign/prefix/digits decomposition.
pub open spec fn parse_int_string_post(string: Value, radix: Value, r: TryResult<Value>) -> bool {
    string matches Value::String(s) ==> (match radix {
        Value::Integer(ra) => parse_int_string_result(s@, to_int32_spec(ra as int), r),
        Value::Undefined => parse_int_string_result(s@, 0, r),
        _ => r is Break,
    })
}

pub open spec fn parse_int_string_result(
    s: Seq<char>,
    radix_arg: int,
    r: TryResult<Value>,
) -> bool {
    match r {
        TryResult::Continue(v) => exists|ws_end: int, sign_end: int, dig_start: int, dig_end: int,
            radix: int, outcome: ParseIntStep|
            (#[trigger] parse_int_characterised(
                s,
                radix_arg,
                ws_end,
                sign_end,
                dig_start,
                dig_end,
                radix,
                outcome,
            )) && step_matches(v, outcome),
        TryResult::Break => exists|ws_end: int, sign_end: int, dig_start: int, dig_end: int,
            radix: int|
            #[trigger] parse_int_characterised(
                s,
                radix_arg,
                ws_end,
                sign_end,
                dig_start,
                dig_end,
                radix,
                ParseIntStep::Overflow,
            ),
    }
}

/// Whether a finished value carries the characterised outcome.
pub open spec fn step_matches(v: Value, outcome: ParseIntStep) -> bool {
    match outcome {
        ParseIntStep::NotANumber => v == Value::Number(CANONICAL_NAN_BITS),
        ParseIntStep::Exact(n) => v == Value::Integer(n),
        ParseIntStep::Overflow => false,
    }
}

} // verus!
