//! Reading a dotted path out of a TOML document: the text parses to a
//! value, and the path walks objects by key and arrays by index.
use vstd::prelude::*;

use crate::decimal::{lemma_ext_val_is_digits_val, lemma_ext_val_lower, pow10};
use crate::strutil::{all_digits, chars_vec, digits_val, is_digit_char};
use crate::values::{obj_lookup, JVal, Jv};
use crate::walker::strs_view;

verus! {

/// Errors of the TOML helpers.
#[derive(Clone, Copy, Debug, PartialEq, Eq, Structural)]
pub enum TomlErr {
    /// The contents cannot be parsed as TOML.
    TomlInvalid,
    /// A user-provided path does not match the document's structure.
    TomlReadPathError,
    /// Something happened that should not have.
    InternalError,
}

/// What `toml::from_str` answers on a given string, read as a JSON-like
/// value: a function of the characters alone.
pub uninterp spec fn toml_parse_of(s: Seq<char>) -> Option<Jv>;

/// Relies on toml::from_str (deserialized into serde_json::Value): which
/// strings parse, and to what value, depend on the characters alone;
/// `toml_parse_of` names that answer.
#[verifier::external_body]
pub(crate) fn toml_parse(s: &str) -> (r: Option<JVal>)
    ensures
        r matches Some(v) ==> toml_parse_of(s@) == Some(v@),
        r is None ==> toml_parse_of(s@) is None,
{
    match toml::from_str::<serde_json::Value>(s) {
        Ok(v) => Some(crate::values::value_from_serde(&v)),
        Err(_) => None,
    }
}

/// A non-empty digit string read as an array index.
pub open spec fn is_index_text(s: Seq<char>) -> bool {
    s.len() > 0 && all_digits(s)
}

/// Walk a value along a path: objects by key, arrays by position, and
/// anything else refuses further steps.
pub open spec fn path_lookup(v: Jv, path: Seq<Seq<char>>, i: int) -> Option<Jv>
    decreases path.len() - i,
    when 0 <= i <= path.len()
{
    if i >= path.len() {
        Some(v)
    } else {
        match v {
            Jv::Obj(fields) => match obj_lookup(fields, path[i]) {
                Some(x) => path_lookup(x, path, i + 1),
                None => None,
            },
            Jv::Arr(items) => {
                if is_index_text(path[i]) && digits_val(path[i]) < items.len() {
                    path_lookup(items[digits_val(path[i])], path, i + 1)
                } else {
                    None
                }
            },
            _ => None,
        }
    }
}

/// Parse an array index; any number at or past the array's length
/// answers `None`, as does non-numeric text.
fn parse_index(v: &Vec<char>, len: usize) -> (r: Option<usize>)
    ensures
        match r {
            Some(x) => is_index_text(v@) && digits_val(v@) == x && x < len,
            None => !(is_index_text(v@) && digits_val(v@) < len),
        },
{
    let n = v.len();
    if n == 0 {
        return None;
    }
    let mut i: usize = 0;
    while i < n
        invariant
            i <= n,
            n == v@.len(),
            forall|j: int| 0 <= j < i ==> is_digit_char(#[trigger] v@[j]),
        decreases n - i,
    {
        if !crate::decimal::is_digit(v[i]) {
            return None;
        }
        i = i + 1;
    }
    assert(all_digits(v@));
    // Strip leading zeros; more than nineteen significant digits cannot
    // index any array.
    let mut f: usize = 0;
    while f < n && v[f] == '0'
        invariant
            f <= n,
            n == v@.len(),
            forall|j: int| 0 <= j < f ==> v@[j] == '0',
        decreases n - f,
    {
        f = f + 1;
    }
    proof {
        lemma_ext_val_is_digits_val(v@, n as int);
        assert(v@.subrange(0, n as int) =~= v@);
    }
    if f == n {
        // All zeros: the index is zero.
        proof {
            crate::decimal::lemma_ext_val_zero_prefix(v@, n as int);
        }
        if len > 0 {
            return Some(0);
        } else {
            return None;
        }
    }
    if n - f > 20 {
        proof {
            lemma_ext_val_lower(v@, f as int, n as int);
            crate::decimal::lemma_pow10_mono(20, n - f - 1);
            assert(pow10(20) == 100000000000000000000) by {
                reveal_with_fuel(pow10, 22);
            }
            assert(digits_val(v@) >= 100000000000000000000);
        }
        return None;
    }
    let mut mag: u128 = 0;
    proof {
        crate::decimal::lemma_ext_val_zero_prefix(v@, f as int);
        assert(pow10(20) == 100000000000000000000) by {
            reveal_with_fuel(pow10, 22);
        }
    }
    let mut j: usize = f;
    while j < n
        invariant
            f <= j <= n,
            n - f <= 20,
            n == v@.len(),
            all_digits(v@),
            pow10(20) == 100000000000000000000,
            forall|k: int| 0 <= k < f ==> v@[k] == '0',
            mag == crate::decimal::ext_val(v@, j as int),
            mag <= pow10(j - f) - 1,
        decreases n - j,
    {
        let c = v[j];
        assert(is_digit_char(c));
        let dig: u128 = ((c as u32) - ('0' as u32)) as u128;
        proof {
            crate::decimal::lemma_pow10_mono(j - f, 19);
            crate::decimal::lemma_pow10_mono(19, 20);
            let prev = mag as int;
            let p = pow10(j - f);
            assert(prev * 10 <= (p - 1) * 10) by (nonlinear_arith)
                requires
                    prev <= p - 1,
            ;
            assert(pow10(j - f + 1) == 10 * pow10(j - f));
        }
        mag = mag * 10 + dig;
        j = j + 1;
    }
    assert(mag == digits_val(v@));
    if mag < len as u128 {
        Some(mag as usize)
    } else {
        None
    }
}

/// Read the part of a parsed TOML document a dotted path names. Empty
/// path segments are ignored. A string that is not TOML is a
/// `TomlInvalid`; a path that does not match the structure is a
/// `TomlReadPathError`.
pub fn toml_read_str(src: &str, path: &Vec<String>) -> (r: Result<JVal, TomlErr>)
    ensures
        ({
            let cleaned = strs_view(path@).filter(|s: Seq<char>| s.len() != 0);
            match toml_parse_of(src@) {
                None => r matches Err(e) && e == TomlErr::TomlInvalid,
                Some(v) => match path_lookup(v, cleaned, 0) {
                    Some(x) => r matches Ok(out) && out@ == x,
                    None => r matches Err(e) && e == TomlErr::TomlReadPathError,
                },
            }
        }),
{
    let parsed = match toml_parse(src) {
        Some(v) => v,
        None => {
            return Err(TomlErr::TomlInvalid);
        },
    };
    let ghost cleaned = strs_view(path@).filter(|s: Seq<char>| s.len() != 0);
    let mut steps: Vec<String> = Vec::new();
    let mut i: usize = 0;
    proof {
        assert(strs_view(path@).subrange(0, 0) =~= Seq::<Seq<char>>::empty());
        assert(strs_view(steps@) =~= Seq::<Seq<char>>::empty().filter(
            |s: Seq<char>| s.len() != 0,
        ));
    }
    while i < path.len()
        invariant
            i <= path@.len(),
            strs_view(steps@) == strs_view(path@).subrange(0, i as int).filter(
                |s: Seq<char>| s.len() != 0,
            ),
        decreases path@.len() - i,
    {
        let ghost pre = strs_view(path@).subrange(0, i as int);
        if path[i].as_str().unicode_len() != 0 {
            steps.push(path[i].clone());
        }
        i = i + 1;
        proof {
            let cur = strs_view(path@).subrange(0, i as int);
            assert(cur.drop_last() =~= pre);
            assert(cur.last() == path@[i - 1]@);
            reveal(Seq::filter);
            if path@[i - 1]@.len() != 0 {
                assert(strs_view(steps@) =~= pre.filter(|s: Seq<char>| s.len() != 0).push(
                    path@[i - 1]@,
                ));
            } else {
                assert(strs_view(steps@) =~= pre.filter(|s: Seq<char>| s.len() != 0));
            }
        }
    }
    proof {
        assert(strs_view(path@).subrange(0, path@.len() as int) =~= strs_view(path@));
    }
    let mut active = parsed;
    let ghost v0 = active@;
    proof {
        assert(toml_parse_of(src@) == Some(v0));
    }
    let mut k: usize = 0;
    let n = steps.len();
    while k < n
        invariant
            k <= n,
            n == steps@.len(),
            cleaned == strs_view(steps@),
            cleaned == strs_view(path@).filter(|s: Seq<char>| s.len() != 0),
            cleaned.len() == n,
            path_lookup(active@, cleaned, k as int) == path_lookup(v0, cleaned, 0),
            toml_parse_of(src@) == Some(v0),
        decreases n - k,
    {
        let step = &steps[k];
        let next: JVal = match &active {
            JVal::Obj(_) => {
                match active.obj_get(step.as_str()) {
                    Some(x) => x.duplicate(),
                    None => {
                        return Err(TomlErr::TomlReadPathError);
                    },
                }
            },
            JVal::Arr(items) => {
                proof {
                    crate::values::lemma_jv_of_seq(items@);
                    assert(active@ == Jv::Arr(crate::values::jv_of_seq(items@)));
                }
                let sv = chars_vec(step.as_str());
                match parse_index(&sv, items.len()) {
                    Some(ix) => items[ix].duplicate(),
                    None => {
                        return Err(TomlErr::TomlReadPathError);
                    },
                }
            },
            _ => {
                return Err(TomlErr::TomlReadPathError);
            },
        };
        active = next;
        k = k + 1;
    }
    Ok(active)
}

} // verus!
