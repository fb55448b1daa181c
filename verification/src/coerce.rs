//! Value-type coercion: every context variable may ask for its value as
//! json, a string, an integer, a float or a bool. String inputs are
//! whitespace-trimmed first; any mismatch is a `CoercionError`.
use vstd::prelude::*;

use crate::decimal::{clamp_i64, num_shape, str_rounded};
use crate::error::{Report, Zerr};
use crate::strutil::{
    chars_eq_str, chars_vec, excerpt_chars, excerpt_spec, lower_chars, lower_spec, push_all,
    string_from_chars, trim_chars, trim_spec,
};
use crate::values::{json_parse, json_parse_of, json_stringify, json_text_of, JVal, Jv};

verus! {

/// Kinds a context value can be coerced to.
#[derive(Clone, Copy, Debug, PartialEq, Eq, Structural)]
pub enum Coerce {
    Json,
    Str,
    Int,
    Float,
    Bool,
}

/// String inputs are trimmed before any coercion; other inputs pass as
/// they are.
pub open spec fn trim_jv(v: Jv) -> Jv {
    match v {
        Jv::Str(s) => Jv::Str(trim_spec(s)),
        _ => v,
    }
}

/// What a string means as a bool: `1`, `true`, `y` and `0`, `false`, `n`,
/// in any letter case.
pub open spec fn bool_of_str(s: Seq<char>) -> Option<Jv> {
    let l = lower_spec(s);
    if l == "1"@ || l == "true"@ || l == "y"@ {
        Some(Jv::Bool(true))
    } else if l == "0"@ || l == "false"@ || l == "n"@ {
        Some(Jv::Bool(false))
    } else {
        None
    }
}

/// What a numeric text means as an integer: its exact decimal value
/// rounded half-away-from-zero, clamped to the `i64` range.
pub open spec fn int_of_text(s: Seq<char>) -> Option<Jv> {
    match str_rounded(s) {
        Some(n) => Some(Jv::Int(clamp_i64(n))),
        None => None,
    }
}

/// The value `coerce` returns for a given input and kind; `None` stands
/// for a `CoercionError`.
pub open spec fn coerce_spec(v: Jv, c: Option<Coerce>) -> Option<Jv> {
    let w = trim_jv(v);
    match c {
        None => Some(w),
        Some(Coerce::Json) => match w {
            Jv::Str(s) => json_parse_of(s),
            _ => None,
        },
        Some(Coerce::Str) => match w {
            Jv::Str(_) => Some(w),
            _ => Some(Jv::Str(json_text_of(w))),
        },
        Some(Coerce::Int) => match w {
            Jv::Int(i) => Some(Jv::Int(i)),
            Jv::Num(s) => int_of_text(s),
            Jv::Str(s) => int_of_text(s),
            _ => None,
        },
        Some(Coerce::Float) => match w {
            Jv::Int(i) => Some(Jv::Int(i)),
            Jv::Num(s) => Some(Jv::Num(s)),
            Jv::Str(s) => if num_shape(s) is Some {
                Some(Jv::Num(s))
            } else {
                None
            },
            _ => None,
        },
        Some(Coerce::Bool) => match w {
            Jv::Bool(b) => Some(Jv::Bool(b)),
            Jv::Int(i) => if i == 0 {
                Some(Jv::Bool(false))
            } else if i == 1 {
                Some(Jv::Bool(true))
            } else {
                None
            },
            Jv::Str(s) => bool_of_str(s),
            _ => None,
        },
    }
}

/// Coercion round-trip for integers: the decimal text of any `i64`,
/// coerced with the `Int` kind, gives back exactly that integer.
pub proof fn lemma_coerce_int_roundtrip(i: i64)
    ensures
        coerce_spec(Jv::Str(crate::strutil::int_chars(i as int)), Some(Coerce::Int)) == Some(
            Jv::Int(i as int),
        ),
{
    let s = crate::strutil::int_chars(i as int);
    crate::decimal::lemma_int_text_roundtrip(i);
    if i >= 0 {
        crate::strutil::lemma_dec_chars_val(i as int);
        assert(crate::strutil::is_digit_char(s[0]));
        assert(crate::strutil::is_digit_char(s[s.len() - 1]));
        assert(!crate::strutil::is_space_char(s[0]));
        assert(!crate::strutil::is_space_char(s[s.len() - 1]));
    } else {
        crate::strutil::lemma_dec_chars_val(-(i as int));
        let mag = crate::strutil::dec_chars(-(i as int));
        assert(s[0] == '-');
        assert(s[s.len() - 1] == mag[mag.len() - 1]);
        assert(crate::strutil::is_digit_char(s[s.len() - 1]));
        assert(!crate::strutil::is_space_char(s[0]));
        assert(!crate::strutil::is_space_char(s[s.len() - 1]));
    }
    crate::strutil::lemma_trim_noop(s);
    assert(clamp_i64(i as int) == i as int);
}

/// Coercion round-trip for bools: the text of a bool, coerced with the
/// `Bool` kind, gives back exactly that bool.
pub proof fn lemma_coerce_bool_roundtrip(b: bool)
    ensures
        coerce_spec(Jv::Str(if b { "true"@ } else { "false"@ }), Some(Coerce::Bool)) == Some(
            Jv::Bool(b),
        ),
{
    reveal_strlit("true");
    reveal_strlit("false");
    reveal_strlit("1");
    reveal_strlit("y");
    reveal_strlit("0");
    reveal_strlit("n");
    if b {
        let s = "true"@;
        crate::strutil::lemma_trim_noop(s);
        assert(lower_spec(s) =~= s);
    } else {
        let s = "false"@;
        crate::strutil::lemma_trim_noop(s);
        assert(lower_spec(s) =~= s);
        assert(lower_spec(s) != "1"@ && lower_spec(s) != "true"@ && lower_spec(s) != "y"@);
    }
}

/// Coercion round-trip for strings: the `Str` kind trims a string and
/// otherwise leaves it alone, so re-coercing its result changes nothing.
pub proof fn lemma_coerce_str_roundtrip(s: Seq<char>)
    ensures
        coerce_spec(Jv::Str(s), Some(Coerce::Str)) == Some(Jv::Str(trim_spec(s))),
        coerce_spec(Jv::Str(trim_spec(s)), Some(Coerce::Str)) == Some(Jv::Str(trim_spec(s))),
{
    crate::strutil::lemma_trim_props(s);
}

/// Coercion is idempotent for the numeric and boolean kinds: a value the
/// kind accepts is returned unchanged when coerced again.
pub proof fn lemma_coerce_idempotent(v: Jv, k: Coerce)
    requires
        k == Coerce::Int || k == Coerce::Float || k == Coerce::Bool,
        coerce_spec(v, Some(k)) is Some,
    ensures
        match coerce_spec(v, Some(k)) {
            Some(w) => coerce_spec(w, Some(k)) == Some(w),
            None => false,
        },
{
}

/// Trim a value's text if it is a string; leave anything else alone.
fn trim_value(value: &JVal) -> (r: JVal)
    ensures
        r@ == trim_jv(value@),
{
    match value {
        JVal::Null => JVal::Null,
        JVal::Bool(b) => JVal::Bool(*b),
        JVal::Int(i) => JVal::Int(*i),
        JVal::Num(s) => JVal::Num(s.clone()),
        JVal::Str(s) => {
            let cv = chars_vec(s.as_str());
            let t = trim_chars(&cv);
            JVal::Str(string_from_chars(&t))
        },
        JVal::Arr(_) => value.duplicate(),
        JVal::Obj(_) => value.duplicate(),
    }
}

/// The name of a coercion kind, as the config spells it.
pub open spec fn kind_label(k: Coerce) -> Seq<char> {
    match k {
        Coerce::Json => "json"@,
        Coerce::Str => "str"@,
        Coerce::Int => "int"@,
        Coerce::Float => "float"@,
        Coerce::Bool => "bool"@,
    }
}

fn kind_label_exec(k: &Coerce) -> (r: &'static str)
    ensures
        r@ == kind_label(*k),
{
    match k {
        Coerce::Json => "json",
        Coerce::Str => "str",
        Coerce::Int => "int",
        Coerce::Float => "float",
        Coerce::Bool => "bool",
    }
}

/// The note a failed coercion carries: the requested kind, and the
/// offending value cut to three hundred characters for display.
pub open spec fn coercion_note_spec(k: Coerce, w: Jv) -> Seq<char> {
    "Failed to coerce to type '"@ + kind_label(k) + "'. Input: "@ + excerpt_spec(
        json_text_of(w),
        300,
    )
}

/// The error for a failed coercion.
fn coercion_failure(shown: &JVal, k: &Coerce) -> (r: Report)
    ensures
        r.kind == Zerr::CoercionError,
        r.notes@.len() == 1,
        r.notes@[0]@ == coercion_note_spec(*k, shown@),
{
    let text = json_stringify(shown);
    let cv = chars_vec(text.as_str());
    let cut = excerpt_chars(&cv, 300);
    let mut note: Vec<char> = Vec::new();
    let head = chars_vec("Failed to coerce to type '");
    push_all(&mut note, &head);
    let label = chars_vec(kind_label_exec(k));
    push_all(&mut note, &label);
    let mid = chars_vec("'. Input: ");
    push_all(&mut note, &mid);
    push_all(&mut note, &cut);
    proof {
        assert(note@ =~= coercion_note_spec(*k, shown@));
    }
    Report::new(Zerr::CoercionError).note(string_from_chars(&note))
}

/// Coerce a value to the requested kind; absence of a kind is a plain
/// pass-through (after trimming string inputs).
pub fn coerce(value: &JVal, c_type: &Option<Coerce>) -> (r: Result<JVal, Report>)
    ensures
        match coerce_spec(value@, *c_type) {
            Some(w) => r matches Ok(out) && out@ == w,
            None => r matches Err(e) && e.kind == Zerr::CoercionError,
        },
        coerce_spec(value@, *c_type) is None ==> match *c_type {
            Some(k) => r matches Err(e) && e.notes@.len() == 1 && e.notes@[0]@
                == coercion_note_spec(k, trim_jv(value@)),
            None => true,
        },
        *c_type == Some(Coerce::Str) ==> match r {
            Ok(out) => out@ matches Jv::Str(t) && trim_spec(t) == t,
            Err(_) => true,
        },
{
    proof {
        match value@ {
            Jv::Str(s0) => {
                crate::strutil::lemma_trim_props(s0);
            },
            _ => {},
        }
    }
    let trimmed = trim_value(value);
    match c_type {
        None => Ok(trimmed),
        Some(k) => match k {
            Coerce::Json => match &trimmed {
                JVal::Str(s) => match json_parse(s.as_str()) {
                    Some(v) => Ok(v),
                    None => Err(coercion_failure(&trimmed, k)),
                },
                _ => Err(coercion_failure(&trimmed, k)),
            },
            Coerce::Str => match &trimmed {
                JVal::Str(_) => Ok(trimmed),
                _ => {
                    let text = json_stringify(&trimmed);
                    proof {
                        crate::strutil::lemma_trim_noop(text@);
                    }
                    Ok(JVal::Str(text))
                },
            },
            Coerce::Int => match &trimmed {
                JVal::Int(i) => Ok(JVal::Int(*i)),
                JVal::Num(s) => {
                    let cv = chars_vec(s.as_str());
                    match crate::decimal::parse_rounded_clamped(&cv) {
                        Some(x) => Ok(JVal::Int(x)),
                        None => Err(coercion_failure(&trimmed, k)),
                    }
                },
                JVal::Str(s) => {
                    let cv = chars_vec(s.as_str());
                    match crate::decimal::parse_rounded_clamped(&cv) {
                        Some(x) => Ok(JVal::Int(x)),
                        None => Err(coercion_failure(&trimmed, k)),
                    }
                },
                _ => Err(coercion_failure(&trimmed, k)),
            },
            Coerce::Float => match &trimmed {
                JVal::Int(i) => Ok(JVal::Int(*i)),
                JVal::Num(s) => Ok(JVal::Num(s.clone())),
                JVal::Str(s) => {
                    let cv = chars_vec(s.as_str());
                    match crate::decimal::parse_rounded_clamped(&cv) {
                        Some(_) => Ok(JVal::Num(s.clone())),
                        None => Err(coercion_failure(&trimmed, k)),
                    }
                },
                _ => Err(coercion_failure(&trimmed, k)),
            },
            Coerce::Bool => match &trimmed {
                JVal::Bool(b) => Ok(JVal::Bool(*b)),
                JVal::Int(i) => {
                    if *i == 0 {
                        Ok(JVal::Bool(false))
                    } else if *i == 1 {
                        Ok(JVal::Bool(true))
                    } else {
                        Err(coercion_failure(&trimmed, k))
                    }
                },
                JVal::Str(s) => {
                    let cv = chars_vec(s.as_str());
                    let l = lower_chars(&cv);
                    if chars_eq_str(&l, "1") || chars_eq_str(&l, "true") || chars_eq_str(
                        &l,
                        "y",
                    ) {
                        Ok(JVal::Bool(true))
                    } else if chars_eq_str(&l, "0") || chars_eq_str(&l, "false") || chars_eq_str(
                        &l,
                        "n",
                    ) {
                        Ok(JVal::Bool(false))
                    } else {
                        Err(coercion_failure(&trimmed, k))
                    }
                },
                _ => Err(coercion_failure(&trimmed, k)),
            },
        },
    }
}

} // verus!
