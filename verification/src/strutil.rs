//! Character and string helpers shared by the whole crate: whitespace
//! trimming, ASCII case folding and decimal digit handling, all stated
//! over `Seq<char>` views.
use vstd::prelude::*;

verus! {

/// The characters `str::trim` removes: Unicode whitespace.
pub open spec fn is_space_char(c: char) -> bool {
    ||| c == ' '
    ||| c == '\t'
    ||| c == '\n'
    ||| c == '\r'
    ||| c == '\u{000B}'
    ||| c == '\u{000C}'
    ||| c == '\u{0085}'
    ||| c == '\u{00A0}'
    ||| c == '\u{1680}'
    ||| ('\u{2000}' <= c && c <= '\u{200A}')
    ||| c == '\u{2028}'
    ||| c == '\u{2029}'
    ||| c == '\u{202F}'
    ||| c == '\u{205F}'
    ||| c == '\u{3000}'
}

pub fn is_space(c: char) -> (r: bool)
    ensures
        r == is_space_char(c),
{
    c == ' ' || c == '\t' || c == '\n' || c == '\r' || c == '\u{000B}' || c == '\u{000C}'
        || c == '\u{0085}' || c == '\u{00A0}' || c == '\u{1680}' || ('\u{2000}' <= c && c
        <= '\u{200A}') || c == '\u{2028}' || c == '\u{2029}' || c == '\u{202F}' || c == '\u{205F}'
        || c == '\u{3000}'
}

/// Index of the first non-space character at or after `i`.
pub open spec fn first_non_space(s: Seq<char>, i: int) -> int
    decreases s.len() - i,
    when 0 <= i <= s.len()
{
    if i >= s.len() {
        i
    } else if is_space_char(s[i]) {
        first_non_space(s, i + 1)
    } else {
        i
    }
}

/// End (exclusive) of the last non-space character strictly before `i`.
pub open spec fn last_non_space_end(s: Seq<char>, i: int) -> int
    decreases i,
    when 0 <= i <= s.len()
{
    if i <= 0 {
        0
    } else if is_space_char(s[i - 1]) {
        last_non_space_end(s, i - 1)
    } else {
        i
    }
}

/// What `str::trim` leaves: the input without leading and trailing whitespace.
pub open spec fn trim_spec(s: Seq<char>) -> Seq<char> {
    let a = first_non_space(s, 0);
    let b = last_non_space_end(s, s.len() as int);
    if a <= b {
        s.subrange(a, b)
    } else {
        Seq::<char>::empty()
    }
}

/// Remove leading and trailing whitespace.
pub fn trim_chars(v: &Vec<char>) -> (r: Vec<char>)
    ensures
        r@ == trim_spec(v@),
{
    let n = v.len();
    let mut a: usize = 0;
    loop
        invariant
            a <= n,
            n == v@.len(),
            first_non_space(v@, 0) == first_non_space(v@, a as int),
        ensures
            a <= n,
            first_non_space(v@, 0) == first_non_space(v@, a as int),
            a == n || !is_space_char(v@[a as int]),
        decreases n - a,
    {
        if a >= n {
            break ;
        }
        if !is_space(v[a]) {
            break ;
        }
        a = a + 1;
    }
    assert(first_non_space(v@, 0) == a);
    let mut b: usize = n;
    loop
        invariant
            b <= n,
            n == v@.len(),
            last_non_space_end(v@, n as int) == last_non_space_end(v@, b as int),
        ensures
            b <= n,
            last_non_space_end(v@, n as int) == last_non_space_end(v@, b as int),
            b == 0 || !is_space_char(v@[b - 1]),
        decreases b,
    {
        if b == 0 {
            break ;
        }
        if !is_space(v[b - 1]) {
            break ;
        }
        b = b - 1;
    }
    assert(last_non_space_end(v@, n as int) == b);
    let mut out: Vec<char> = Vec::new();
    if a < b {
        assert(out@ =~= v@.subrange(a as int, a as int));
        let mut j: usize = a;
        while j < b
            invariant
                a <= j <= b <= n,
                n == v@.len(),
                out@ == v@.subrange(a as int, j as int),
            decreases b - j,
        {
            out.push(v[j]);
            j = j + 1;
            assert(out@ =~= v@.subrange(a as int, j as int));
        }
    }
    assert(a >= b ==> out@ =~= trim_spec(v@));
    assert(a < b ==> out@ =~= trim_spec(v@));
    out
}

/// ASCII lower-casing of a single character.
pub open spec fn lower_char(c: char) -> char {
    if 'A' <= c && c <= 'Z' {
        (((c as u32) + 32) as char)
    } else {
        c
    }
}

/// ASCII lower-casing of a whole string.
pub open spec fn lower_spec(s: Seq<char>) -> Seq<char> {
    s.map_values(|c: char| lower_char(c))
}

pub fn to_lower_char(c: char) -> (r: char)
    ensures
        r == lower_char(c),
{
    match c {
        'A' => 'a',
        'B' => 'b',
        'C' => 'c',
        'D' => 'd',
        'E' => 'e',
        'F' => 'f',
        'G' => 'g',
        'H' => 'h',
        'I' => 'i',
        'J' => 'j',
        'K' => 'k',
        'L' => 'l',
        'M' => 'm',
        'N' => 'n',
        'O' => 'o',
        'P' => 'p',
        'Q' => 'q',
        'R' => 'r',
        'S' => 's',
        'T' => 't',
        'U' => 'u',
        'V' => 'v',
        'W' => 'w',
        'X' => 'x',
        'Y' => 'y',
        'Z' => 'z',
        _ => c,
    }
}

pub fn lower_chars(v: &Vec<char>) -> (r: Vec<char>)
    ensures
        r@ == lower_spec(v@),
{
    let mut out: Vec<char> = Vec::new();
    let mut i: usize = 0;
    while i < v.len()
        invariant
            i <= v@.len(),
            out@ == v@.subrange(0, i as int).map_values(|c: char| lower_char(c)),
        decreases v@.len() - i,
    {
        out.push(to_lower_char(v[i]));
        i = i + 1;
        assert(out@ =~= v@.subrange(0, i as int).map_values(|c: char| lower_char(c)));
    }
    assert(v@.subrange(0, v@.len() as int) =~= v@);
    out
}

/// `'0'` through `'9'`.
pub open spec fn is_digit_char(c: char) -> bool {
    '0' <= c && c <= '9'
}

pub open spec fn digit_of(c: char) -> int {
    (c as u32) - ('0' as u32)
}

pub open spec fn all_digits(s: Seq<char>) -> bool {
    forall|i: int| 0 <= i < s.len() ==> is_digit_char(#[trigger] s[i])
}

/// Base-ten value of a digit string, most significant digit first.
pub open spec fn digits_val(s: Seq<char>) -> int
    decreases s.len(),
{
    if s.len() == 0 {
        0
    } else {
        digits_val(s.drop_last()) * 10 + digit_of(s.last())
    }
}

pub open spec fn digit_char(d: int) -> char {
    if d == 0 {
        '0'
    } else if d == 1 {
        '1'
    } else if d == 2 {
        '2'
    } else if d == 3 {
        '3'
    } else if d == 4 {
        '4'
    } else if d == 5 {
        '5'
    } else if d == 6 {
        '6'
    } else if d == 7 {
        '7'
    } else if d == 8 {
        '8'
    } else {
        '9'
    }
}

/// Decimal digit string of a non-negative number, no leading zeros.
pub open spec fn dec_chars(n: int) -> Seq<char>
    decreases n,
    when n >= 0
{
    if n < 10 {
        seq![digit_char(n)]
    } else {
        dec_chars(n / 10).push(digit_char(n % 10))
    }
}

/// Decimal rendering of a signed number, `-` prefixed when negative.
pub open spec fn int_chars(n: int) -> Seq<char> {
    if n < 0 {
        seq!['-'] + dec_chars(-n)
    } else {
        dec_chars(n)
    }
}

fn digit_char_exec(d: u128) -> (r: char)
    requires
        d < 10,
    ensures
        r == digit_char(d as int),
{
    if d == 0 {
        '0'
    } else if d == 1 {
        '1'
    } else if d == 2 {
        '2'
    } else if d == 3 {
        '3'
    } else if d == 4 {
        '4'
    } else if d == 5 {
        '5'
    } else if d == 6 {
        '6'
    } else if d == 7 {
        '7'
    } else if d == 8 {
        '8'
    } else {
        '9'
    }
}

fn push_dec_chars(out: &mut Vec<char>, n: u128)
    ensures
        final(out)@ == old(out)@ + dec_chars(n as int),
    decreases n,
{
    if n < 10 {
        out.push(digit_char_exec(n));
        assert(final(out)@ =~= old(out)@ + dec_chars(n as int));
    } else {
        push_dec_chars(out, n / 10);
        out.push(digit_char_exec(n % 10));
        assert(final(out)@ =~= old(out)@ + dec_chars(n as int));
    }
}

/// Decimal digit characters of `n`.
pub fn u128_to_chars(n: u128) -> (r: Vec<char>)
    ensures
        r@ == dec_chars(n as int),
{
    let mut out: Vec<char> = Vec::new();
    push_dec_chars(&mut out, n);
    assert(out@ =~= dec_chars(n as int));
    out
}

/// Decimal text of `n`, `-` prefixed when negative.
pub fn i64_to_string(n: i64) -> (r: String)
    ensures
        r@ == int_chars(n as int),
{
    let v = i64_to_chars(n);
    string_from_chars(&v)
}

/// Decimal digit characters of `n`, `-` prefixed when negative.
fn i64_to_chars(n: i64) -> (r: Vec<char>)
    ensures
        r@ == int_chars(n as int),
{
    if n < 0 {
        let mag: u128 = (-(n as i128)) as u128;
        let mut out: Vec<char> = Vec::new();
        out.push('-');
        push_dec_chars(&mut out, mag);
        assert(out@ =~= int_chars(n as int));
        out
    } else {
        let r = u128_to_chars(n as u128);
        r
    }
}

/// The digits of a number read back as that number.
pub proof fn lemma_dec_chars_val(n: int)
    requires
        n >= 0,
    ensures
        all_digits(dec_chars(n)),
        digits_val(dec_chars(n)) == n,
        dec_chars(n).len() >= 1,
        n >= 1 ==> dec_chars(n)[0] != '0',
        n < 10 ==> dec_chars(n) == seq![digit_char(n)],
    decreases n,
{
    if n < 10 {
        let s = seq![digit_char(n)];
        assert(dec_chars(n) == s);
        assert(s.len() == 1);
        assert(s.drop_last() =~= Seq::<char>::empty());
        assert(digits_val(Seq::<char>::empty()) == 0);
        assert(s.last() == digit_char(n));
        assert(digits_val(s) == digits_val(s.drop_last()) * 10 + digit_of(s.last()));
        assert(digit_of(digit_char(n)) == n);
    } else {
        lemma_dec_chars_val(n / 10);
        let s = dec_chars(n / 10).push(digit_char(n % 10));
        assert(s.drop_last() =~= dec_chars(n / 10));
        assert(s.last() == digit_char(n % 10));
        assert(digit_of(digit_char(n % 10)) == n % 10);
        assert(digits_val(s) == (n / 10) * 10 + n % 10);
        assert((n / 10) * 10 + n % 10 == n) by (nonlinear_arith);
        assert forall|i: int| 0 <= i < s.len() implies is_digit_char(#[trigger] s[i]) by {
            if i < s.len() - 1 {
                assert(s[i] == dec_chars(n / 10)[i]);
            }
        }
    }
}

/// Append the characters `v[a..b]` to `out`.
pub fn push_range(out: &mut Vec<char>, v: &Vec<char>, a: usize, b: usize)
    requires
        a <= b <= v@.len(),
    ensures
        final(out)@ == old(out)@ + v@.subrange(a as int, b as int),
{
    let mut j: usize = a;
    assert(out@ =~= old(out)@ + v@.subrange(a as int, a as int));
    while j < b
        invariant
            a <= j <= b <= v@.len(),
            out@ == old(out)@ + v@.subrange(a as int, j as int),
        decreases b - j,
    {
        out.push(v[j]);
        j = j + 1;
        assert(out@ =~= old(out)@ + v@.subrange(a as int, j as int));
    }
}

/// Append every character of `v` to `out`.
pub fn push_all(out: &mut Vec<char>, v: &Vec<char>)
    ensures
        final(out)@ == old(out)@ + v@,
{
    let n = v.len();
    push_range(out, v, 0, n);
    assert(v@.subrange(0, n as int) =~= v@);
}

/// A string whose first and last characters are not whitespace trims to
/// itself.
pub proof fn lemma_trim_noop(s: Seq<char>)
    requires
        s.len() > 0,
        !is_space_char(s[0]),
        !is_space_char(s[s.len() - 1]),
    ensures
        trim_spec(s) == s,
{
    assert(first_non_space(s, 0) == 0);
    assert(last_non_space_end(s, s.len() as int) == s.len());
    assert(s.subrange(0, s.len() as int) =~= s);
}

proof fn lemma_first_non_space_props(s: Seq<char>, i: int)
    requires
        0 <= i <= s.len(),
    ensures
        i <= first_non_space(s, i) <= s.len(),
        first_non_space(s, i) < s.len() ==> !is_space_char(s[first_non_space(s, i)]),
    decreases s.len() - i,
{
    if i < s.len() && is_space_char(s[i]) {
        lemma_first_non_space_props(s, i + 1);
    }
}

proof fn lemma_last_non_space_props(s: Seq<char>, i: int)
    requires
        0 <= i <= s.len(),
    ensures
        0 <= last_non_space_end(s, i) <= i,
        last_non_space_end(s, i) > 0 ==> !is_space_char(s[last_non_space_end(s, i) - 1]),
    decreases i,
{
    if i > 0 && is_space_char(s[i - 1]) {
        lemma_last_non_space_props(s, i - 1);
    }
}

/// A trimmed string is empty or starts and ends with non-whitespace; so
/// trimming is idempotent.
pub proof fn lemma_trim_props(s: Seq<char>)
    ensures
        trim_spec(s).len() > 0 ==> !is_space_char(trim_spec(s)[0]) && !is_space_char(
            trim_spec(s)[trim_spec(s).len() - 1],
        ),
        trim_spec(trim_spec(s)) == trim_spec(s),
{
    lemma_first_non_space_props(s, 0);
    lemma_last_non_space_props(s, s.len() as int);
    let a = first_non_space(s, 0);
    let b = last_non_space_end(s, s.len() as int);
    let t = trim_spec(s);
    if a <= b && a < s.len() && b > 0 && a < b {
        assert(t[0] == s[a]);
        assert(t[t.len() - 1] == s[b - 1]);
    }
    if t.len() > 0 {
        lemma_trim_noop(t);
    } else {
        assert(trim_spec(t) =~= t);
    }
}

/// Equality of a character vector with a string, stated over the views.
pub fn chars_eq_str(v: &Vec<char>, s: &str) -> (r: bool)
    ensures
        r == (v@ == s@),
{
    let sv = chars_vec(s);
    if v.len() != sv.len() {
        assert(v@.len() != s@.len());
        return false;
    }
    let mut i: usize = 0;
    while i < v.len()
        invariant
            i <= v@.len(),
            sv@ == s@,
            v@.len() == sv@.len(),
            forall|j: int| 0 <= j < i ==> v@[j] == sv@[j],
        decreases v@.len() - i,
    {
        if v[i] != sv[i] {
            return false;
        }
        i = i + 1;
    }
    proof {
        assert(v@ =~= s@);
    }
    true
}

/// Whether `prefix` stands at the front of `s`.
pub fn chars_prefix(prefix: &Vec<char>, s: &Vec<char>) -> (r: bool)
    ensures
        r == (s@.len() >= prefix@.len() && s@.subrange(0, prefix@.len() as int) == prefix@),
{
    if s.len() < prefix.len() {
        return false;
    }
    let mut i: usize = 0;
    while i < prefix.len()
        invariant
            i <= prefix@.len() <= s@.len(),
            forall|j: int| 0 <= j < i ==> s@[j] == prefix@[j],
        decreases prefix@.len() - i,
    {
        if s[i] != prefix[i] {
            proof {
                let sub = s@.subrange(0, prefix@.len() as int);
                assert(sub[i as int] == s@[i as int]);
            }
            return false;
        }
        i = i + 1;
    }
    proof {
        assert(s@.subrange(0, prefix@.len() as int) =~= prefix@);
    }
    true
}

/// The front of a string, with a three-dot tail when it was cut.
pub open spec fn excerpt_spec(s: Seq<char>, cap: int) -> Seq<char> {
    if s.len() <= cap {
        s
    } else {
        s.subrange(0, cap) + seq!['.', '.', '.']
    }
}

/// Cut a string to at most `cap` characters, marking the cut.
pub fn excerpt_chars(v: &Vec<char>, cap: usize) -> (r: Vec<char>)
    ensures
        r@ == excerpt_spec(v@, cap as int),
{
    if v.len() <= cap {
        let mut out: Vec<char> = Vec::new();
        let mut i: usize = 0;
        while i < v.len()
            invariant
                i <= v@.len(),
                out@ == v@.subrange(0, i as int),
            decreases v@.len() - i,
        {
            out.push(v[i]);
            i = i + 1;
            assert(out@ =~= v@.subrange(0, i as int));
        }
        assert(out@ =~= v@);
        out
    } else {
        let mut out: Vec<char> = Vec::new();
        let mut i: usize = 0;
        while i < cap
            invariant
                cap < v@.len(),
                i <= cap,
                out@ == v@.subrange(0, i as int),
            decreases cap - i,
        {
            out.push(v[i]);
            i = i + 1;
            assert(out@ =~= v@.subrange(0, i as int));
        }
        out.push('.');
        out.push('.');
        out.push('.');
        assert(out@ =~= v@.subrange(0, cap as int) + seq!['.', '.', '.']);
        out
    }
}

/// Strict lexicographic order on strings, by character value.
pub open spec fn lex_lt(a: Seq<char>, b: Seq<char>) -> bool
    decreases a.len(),
{
    if b.len() == 0 {
        false
    } else if a.len() == 0 {
        true
    } else if a[0] != b[0] {
        a[0] < b[0]
    } else {
        lex_lt(a.drop_first(), b.drop_first())
    }
}

pub proof fn lemma_lex_irrefl(a: Seq<char>)
    ensures
        !lex_lt(a, a),
    decreases a.len(),
{
    if a.len() > 0 {
        lemma_lex_irrefl(a.drop_first());
    }
}

pub proof fn lemma_lex_lt_ne(a: Seq<char>, b: Seq<char>)
    requires
        lex_lt(a, b),
    ensures
        a != b,
{
    if a == b {
        lemma_lex_irrefl(a);
    }
}

pub proof fn lemma_lex_total(a: Seq<char>, b: Seq<char>)
    requires
        !lex_lt(a, b),
        a != b,
    ensures
        lex_lt(b, a),
    decreases a.len(),
{
    if b.len() == 0 {
        if a.len() == 0 {
            assert(a =~= b);
        }
        assert(lex_lt(b, a));
    } else if a.len() == 0 {
        assert(lex_lt(a, b));
    } else if a[0] != b[0] {
        assert(lex_lt(b, a));
    } else {
        if a.drop_first() == b.drop_first() {
            assert(a.drop_first().len() == b.drop_first().len());
            assert(a.len() == b.len());
            assert forall|i: int| 0 <= i < a.len() implies a[i] == b[i] by {
                if i > 0 {
                    assert(a.drop_first()[i - 1] == a[i]);
                    assert(b.drop_first()[i - 1] == b[i]);
                }
            }
            assert(a =~= b);
        }
        lemma_lex_total(a.drop_first(), b.drop_first());
        assert(lex_lt(b, a));
    }
}

pub proof fn lemma_lex_trans(a: Seq<char>, b: Seq<char>, c: Seq<char>)
    requires
        lex_lt(a, b),
        lex_lt(b, c),
    ensures
        lex_lt(a, c),
    decreases a.len(),
{
    if a.len() > 0 && b.len() > 0 && c.len() > 0 && a[0] == b[0] && b[0] == c[0] {
        lemma_lex_trans(a.drop_first(), b.drop_first(), c.drop_first());
    }
}

/// Compare two strings in the lexicographic order.
pub fn lex_lt_exec(a: &Vec<char>, b: &Vec<char>) -> (r: bool)
    ensures
        r == lex_lt(a@, b@),
{
    let mut i: usize = 0;
    let na = a.len();
    let nb = b.len();
    assert(a@.skip(0) =~= a@);
    assert(b@.skip(0) =~= b@);
    loop
        invariant
            i <= na,
            i <= nb,
            na == a@.len(),
            nb == b@.len(),
            lex_lt(a@, b@) == lex_lt(a@.skip(i as int), b@.skip(i as int)),
            forall|j: int| 0 <= j < i ==> a@[j] == b@[j],
        decreases na - i,
    {
        if i >= nb {
            proof {
                assert(b@.skip(i as int) =~= Seq::<char>::empty());
            }
            return false;
        }
        if i >= na {
            proof {
                assert(a@.skip(i as int) =~= Seq::<char>::empty());
                assert(b@.skip(i as int).len() > 0);
            }
            return true;
        }
        if a[i] != b[i] {
            proof {
                assert(a@.skip(i as int)[0] == a@[i as int]);
                assert(b@.skip(i as int)[0] == b@[i as int]);
            }
            return a[i] < b[i];
        }
        proof {
            assert(a@.skip(i as int)[0] == a@[i as int]);
            assert(b@.skip(i as int)[0] == b@[i as int]);
            assert(a@.skip(i as int).drop_first() =~= a@.skip(i + 1));
            assert(b@.skip(i as int).drop_first() =~= b@.skip(i + 1));
        }
        i = i + 1;
    }
}

/// The views of a list of names.
pub open spec fn views_of(ls: Seq<String>) -> Seq<Seq<char>> {
    ls.map_values(|s: String| s@)
}

/// The names joined with a comma and a space between.
pub open spec fn join_comma(vs: Seq<Seq<char>>, i: int) -> Seq<char>
    decreases vs.len() - i,
    when 0 <= i <= vs.len()
{
    if i >= vs.len() {
        Seq::empty()
    } else if i == vs.len() - 1 {
        vs[i]
    } else {
        vs[i] + ", "@ + join_comma(vs, i + 1)
    }
}

/// Join a list of names for display; mirrors `join_comma`.
pub fn join_keys(ls: &Vec<String>) -> (r: String)
    ensures
        r@ == join_comma(views_of(ls@), 0),
{
    let ghost vs = views_of(ls@);
    let mut out: Vec<char> = Vec::new();
    let n = ls.len();
    let mut i: usize = 0;
    while i < n
        invariant
            i <= n,
            n == ls@.len(),
            vs == views_of(ls@),
            vs.len() == n,
            join_comma(vs, 0) == out@ + join_comma(vs, i as int),
        decreases n - i,
    {
        let kv = chars_vec(ls[i].as_str());
        push_all(&mut out, &kv);
        if i + 1 < n {
            out.push(',');
            out.push(' ');
        }
        i = i + 1;
        proof {
            assert(", "@ =~= seq![',', ' ']) by {
                reveal_strlit(", ");
            }
            assert(join_comma(vs, 0) =~= out@ + join_comma(vs, i as int));
        }
    }
    proof {
        assert(out@ + Seq::<char>::empty() =~= out@);
    }
    string_from_chars(&out)
}

/// Names ordered without regard to letter case.
pub open spec fn ci_before(a: Seq<char>, b: Seq<char>) -> bool {
    lex_lt(lower_spec(a), lower_spec(b))
}

/// Insert a name into a case-insensitively sorted list, before the first
/// entry not below it.
pub open spec fn ci_insert(s: Seq<String>, x: String) -> Seq<String>
    decreases s.len(),
{
    if s.len() == 0 {
        seq![x]
    } else if ci_before(s[0]@, x@) {
        seq![s[0]] + ci_insert(s.drop_first(), x)
    } else {
        seq![x] + s
    }
}

/// The list sorted case-insensitively, by repeated insertion.
pub open spec fn ci_sorted(s: Seq<String>) -> Seq<String>
    decreases s.len(),
{
    if s.len() == 0 {
        Seq::empty()
    } else {
        ci_insert(ci_sorted(s.drop_last()), s.last())
    }
}

/// An insertion at the scanned position is the spec insertion.
proof fn lemma_ci_insert_at(s: Seq<String>, x: String, p: int)
    requires
        0 <= p <= s.len(),
        forall|j: int| 0 <= j < p ==> ci_before(#[trigger] s[j]@, x@),
        p < s.len() ==> !ci_before(s[p]@, x@),
    ensures
        ci_insert(s, x) == s.subrange(0, p) + seq![x] + s.subrange(p, s.len() as int),
    decreases p,
{
    if p == 0 {
        assert(s.subrange(0, 0) =~= Seq::<String>::empty());
        assert(s.subrange(0, s.len() as int) =~= s);
        if s.len() == 0 {
            assert(ci_insert(s, x) =~= s.subrange(0, 0) + seq![x] + s.subrange(0, 0));
        } else {
            assert(ci_insert(s, x) =~= s.subrange(0, 0) + seq![x] + s.subrange(
                0,
                s.len() as int,
            ));
        }
    } else {
        let rest = s.drop_first();
        assert(ci_before(s[0]@, x@));
        assert forall|j: int| 0 <= j < p - 1 implies ci_before(#[trigger] rest[j]@, x@) by {
            assert(rest[j] == s[j + 1]);
        }
        if p - 1 < rest.len() {
            assert(rest[p - 1] == s[p]);
        }
        lemma_ci_insert_at(rest, x, p - 1);
        assert(seq![s[0]] + (rest.subrange(0, p - 1) + seq![x] + rest.subrange(
            p - 1,
            rest.len() as int,
        )) =~= s.subrange(0, p) + seq![x] + s.subrange(p, s.len() as int));
    }
}

/// Sort names case-insensitively for display; mirrors `ci_sorted`.
pub fn sort_ci(ls: &Vec<String>) -> (r: Vec<String>)
    ensures
        r@ == ci_sorted(ls@),
{
    let mut out: Vec<String> = Vec::new();
    let mut i: usize = 0;
    while i < ls.len()
        invariant
            i <= ls@.len(),
            out@ == ci_sorted(ls@.subrange(0, i as int)),
        decreases ls@.len() - i,
    {
        let ghost pre = ls@.subrange(0, i as int);
        let x = ls[i].clone();
        let lx = lower_chars(&chars_vec(x.as_str()));
        let n = out.len();
        let mut p: usize = 0;
        loop
            invariant
                p <= n,
                n == out@.len(),
                lx@ == lower_spec(x@),
                forall|j: int| 0 <= j < p ==> ci_before(#[trigger] out@[j]@, x@),
            ensures
                p <= n,
                forall|j: int| 0 <= j < p ==> ci_before(#[trigger] out@[j]@, x@),
                p < n ==> !ci_before(out@[p as int]@, x@),
            decreases n - p,
        {
            if p >= n {
                break ;
            }
            let lo = lower_chars(&chars_vec(out[p].as_str()));
            if !lex_lt_exec(&lo, &lx) {
                break ;
            }
            p = p + 1;
        }
        let ghost out_pre = out@;
        out.insert(p, x);
        i = i + 1;
        proof {
            lemma_ci_insert_at(out_pre, ls@[i - 1], p as int);
            assert(out@ =~= out_pre.subrange(0, p as int) + seq![ls@[i - 1]] + out_pre.subrange(
                p as int,
                out_pre.len() as int,
            ));
            let cur = ls@.subrange(0, i as int);
            assert(cur.drop_last() =~= pre);
            assert(cur.last() == ls@[i - 1]);
        }
    }
    proof {
        assert(ls@.subrange(0, ls@.len() as int) =~= ls@);
    }
    out
}

/// Relies on str::chars to list a string's characters in order.
#[verifier::external_body]
pub(crate) fn chars_vec(s: &str) -> (r: Vec<char>)
    ensures
        r@ == s@,
{
    s.chars().collect()
}

/// Relies on String: FromIterator<char> builds the string of exactly
/// the given characters.
#[verifier::external_body]
pub(crate) fn string_from_chars(v: &Vec<char>) -> (r: String)
    ensures
        r@ == v@,
{
    v.iter().collect()
}

} // verus!
