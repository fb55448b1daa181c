//! Config bootstrap: the default config file, and the auto-managed
//! schema-reference comment line that is rewritten in place when the
//! tool's version changes.
use vstd::prelude::*;

use crate::error::{Report, Zerr};
use crate::strutil::{chars_vec, push_all, string_from_chars, trim_chars, trim_spec};
use crate::walker::is_under;

verus! {

/// Where init writes the config file.
pub fn default_config_path() -> (r: &'static str)
    ensures
        r@ == "./zetch.config.toml"@,
{
    "./zetch.config.toml"
}

/// The comment prefix that carries the schema reference.
pub fn schema_directive_prefix() -> (r: &'static str)
    ensures
        r@ == "#:schema "@,
{
    "#:schema "
}

/// The schema directive for a tool version.
pub open spec fn schema_directive_of(version: Seq<char>) -> Seq<char> {
    "https://github.com/zakstucke/zetch/blob/v"@ + version
        + "/py_rust/src/config/schema.json"@
}

/// The directive placed at the top of the config file to enable linting
/// and descriptions.
pub fn get_schema_directive(version: &str) -> (r: String)
    ensures
        r@ == schema_directive_of(version@),
{
    let mut out: Vec<char> = Vec::new();
    let a = chars_vec("https://github.com/zakstucke/zetch/blob/v");
    push_all(&mut out, &a);
    let b = chars_vec(version);
    push_all(&mut out, &b);
    let c = chars_vec("/py_rust/src/config/schema.json");
    push_all(&mut out, &c);
    proof {
        assert(out@ =~= schema_directive_of(version@));
    }
    string_from_chars(&out)
}

/// First `\n` at or after `i`, else the end of the string.
pub open spec fn nl_end(s: Seq<char>, i: int) -> int
    decreases s.len() - i,
    when 0 <= i <= s.len()
{
    if i >= s.len() {
        i
    } else if s[i] == '\n' {
        i
    } else {
        nl_end(s, i + 1)
    }
}

/// The lines of a string, split on `\n`; a trailing newline adds no
/// final empty line.
pub open spec fn split_lines(s: Seq<char>) -> Seq<Seq<char>>
    decreases s.len(),
{
    if s.len() == 0 {
        Seq::empty()
    } else {
        let j = nl_end(s, 0);
        if 0 <= j && j < s.len() {
            seq![s.subrange(0, j)] + split_lines(s.skip(j + 1))
        } else {
            seq![s]
        }
    }
}

/// The lines joined back with `\n`.
pub open spec fn join_from(ls: Seq<Seq<char>>, i: int) -> Seq<char>
    decreases ls.len() - i,
    when 0 <= i <= ls.len()
{
    if i >= ls.len() {
        Seq::empty()
    } else if i == ls.len() - 1 {
        ls[i]
    } else {
        ls[i] + seq!['\n'] + join_from(ls, i + 1)
    }
}

/// The first line with any non-whitespace content, at or after `i`.
pub open spec fn first_content_line(ls: Seq<Seq<char>>, i: int) -> Option<int>
    decreases ls.len() - i,
    when 0 <= i <= ls.len()
{
    if i >= ls.len() {
        None
    } else if trim_spec(ls[i]).len() > 0 {
        Some(i)
    } else {
        first_content_line(ls, i + 1)
    }
}

/// What the config auto-update does: when the first content line is a
/// schema directive that differs from the current one, that line is
/// replaced and the rewritten file returned; otherwise nothing.
pub open spec fn schema_update_spec(s: Seq<char>, directive: Seq<char>) -> Option<Seq<char>> {
    let ls = split_lines(s);
    match first_content_line(ls, 0) {
        Some(i) => {
            let t = trim_spec(ls[i]);
            if is_under("#:schema "@, t) {
                if t.skip("#:schema "@.len() as int) != directive {
                    Some(join_from(ls.update(i, "#:schema "@ + directive), 0))
                } else {
                    None
                }
            } else {
                None
            }
        },
        None => None,
    }
}

/// Scan to the next newline; mirrors `nl_end`.
fn scan_nl(v: &Vec<char>, i: usize) -> (r: usize)
    requires
        i <= v@.len(),
    ensures
        i <= r <= v@.len(),
        r == nl_end(v@, i as int),
{
    let n = v.len();
    let mut j: usize = i;
    loop
        invariant
            i <= j <= n,
            n == v@.len(),
            nl_end(v@, i as int) == nl_end(v@, j as int),
        ensures
            i <= j <= n,
            nl_end(v@, i as int) == nl_end(v@, j as int),
            j == n || v@[j as int] == '\n',
        decreases n - j,
    {
        if j >= n {
            break ;
        }
        if v[j] == '\n' {
            break ;
        }
        j = j + 1;
    }
    assert(nl_end(v@, j as int) == j);
    j
}

/// Split into lines; mirrors `split_lines`.
fn split_lines_exec(v: &Vec<char>) -> (r: Vec<Vec<char>>)
    ensures
        r@.map_values(|l: Vec<char>| l@) == split_lines(v@),
{
    let mut out: Vec<Vec<char>> = Vec::new();
    let mut pos: usize = 0;
    let n = v.len();
    proof {
        assert(v@.skip(0) =~= v@);
        assert(out@.map_values(|l: Vec<char>| l@) =~= Seq::<Seq<char>>::empty());
    }
    while pos < n
        invariant
            pos <= n,
            n == v@.len(),
            split_lines(v@) == out@.map_values(|l: Vec<char>| l@) + split_lines(
                v@.skip(pos as int),
            ),
        decreases n - pos,
    {
        let ghost pre = out@.map_values(|l: Vec<char>| l@);
        let ghost pos0 = pos as int;
        let j = scan_nl(v, pos);
        let mut line: Vec<char> = Vec::new();
        crate::strutil::push_range(&mut line, v, pos, j);
        proof {
            let rest = v@.skip(pos as int);
            assert(rest.len() > 0);
            assert(nl_end(rest, 0) == j - pos) by {
                lemma_nl_end_shift(v@, pos as int, pos as int);
            }
            assert(line@ =~= rest.subrange(0, j - pos));
        }
        out.push(line);
        proof {
            assert(out@.map_values(|l: Vec<char>| l@) =~= pre.push(out@.last()@));
        }
        if j == n {
            proof {
                let rest = v@.skip(pos0);
                assert(nl_end(rest, 0) == rest.len());
                assert(split_lines(rest) =~= seq![rest]);
            }
            pos = n;
            proof {
                assert(v@.skip(pos as int) =~= Seq::<char>::empty());
                assert(split_lines(v@.skip(pos as int)) =~= Seq::<Seq<char>>::empty());
            }
        } else {
            pos = j + 1;
            proof {
                let rest = v@.skip(pos0);
                assert(0 <= nl_end(rest, 0) < rest.len());
                assert(rest.skip((j - pos0) + 1) =~= v@.skip(pos as int));
            }
        }
        proof {
            assert(split_lines(v@) =~= out@.map_values(|l: Vec<char>| l@) + split_lines(
                v@.skip(pos as int),
            ));
        }
    }
    proof {
        assert(v@.skip(n as int) =~= Seq::<char>::empty());
    }
    out
}

/// `nl_end` over a suffix lines up with `nl_end` over the whole.
proof fn lemma_nl_end_shift(s: Seq<char>, base: int, i: int)
    requires
        0 <= base <= i <= s.len(),
    ensures
        nl_end(s.skip(base), i - base) == nl_end(s, i) - base,
    decreases s.len() - i,
{
    if i < s.len() && s[i] != '\n' {
        lemma_nl_end_shift(s, base, i + 1);
    }
}

/// Join lines with `\n`; mirrors `join_from`.
fn join_lines_exec(ls: &Vec<Vec<char>>) -> (r: Vec<char>)
    ensures
        r@ == join_from(ls@.map_values(|l: Vec<char>| l@), 0),
{
    let ghost gls = ls@.map_values(|l: Vec<char>| l@);
    let mut out: Vec<char> = Vec::new();
    let n = ls.len();
    let mut i: usize = 0;
    while i < n
        invariant
            i <= n,
            n == ls@.len(),
            gls == ls@.map_values(|l: Vec<char>| l@),
            gls.len() == n,
            join_from(gls, 0) == out@ + join_from(gls, i as int),
        decreases n - i,
    {
        push_all(&mut out, &ls[i]);
        if i + 1 < n {
            out.push('\n');
        }
        i = i + 1;
        proof {
            assert(join_from(gls, 0) =~= out@ + join_from(gls, i as int));
        }
    }
    proof {
        assert(join_from(gls, 0) =~= out@ + join_from(gls, n as int));
        assert(out@ + Seq::<char>::empty() =~= out@);
    }
    out
}

/// Rewrite the auto-managed schema directive line when the tool version
/// has changed; the rest of the file is untouched. Returns the updated
/// contents, or nothing when no change is needed.
pub fn update_schema_directive_if_needed(contents: &str, version: &str) -> (r: Option<String>)
    ensures
        match schema_update_spec(contents@, schema_directive_of(version@)) {
            Some(t) => r matches Some(x) && x@ == t,
            None => r is None,
        },
{
    let cv = chars_vec(contents);
    let lines = split_lines_exec(&cv);
    let ghost gls = lines@.map_values(|l: Vec<char>| l@);
    let directive = get_schema_directive(version);
    let dv = chars_vec(directive.as_str());
    let prefix = chars_vec(schema_directive_prefix());
    let mut i: usize = 0;
    while i < lines.len()
        invariant
            i <= lines@.len(),
            gls == lines@.map_values(|l: Vec<char>| l@),
            gls == split_lines(contents@),
            dv@ == schema_directive_of(version@),
            directive@ == schema_directive_of(version@),
            prefix@ == "#:schema "@,
            first_content_line(gls, 0) == first_content_line(gls, i as int),
        decreases lines@.len() - i,
    {
        let t = trim_chars(&lines[i]);
        if t.len() > 0 {
            // The first content line decides everything.
            proof {
                assert(first_content_line(gls, 0) == Some(i as int));
            }
            if crate::strutil::chars_prefix(&prefix, &t) {
                let mut old_d: Vec<char> = Vec::new();
                let e = t.len();
                crate::strutil::push_range(&mut old_d, &t, prefix.len(), e);
                proof {
                    assert(old_d@ =~= trim_spec(gls[i as int]).skip("#:schema "@.len() as int));
                }
                if !crate::strutil::chars_eq_str(&old_d, directive.as_str()) {
                    let mut newline: Vec<char> = Vec::new();
                    push_all(&mut newline, &prefix);
                    push_all(&mut newline, &dv);
                    proof {
                        assert(newline@ =~= "#:schema "@ + schema_directive_of(version@));
                    }
                    let mut updated = lines;
                    updated[i] = newline;
                    proof {
                        assert(updated@.map_values(|l: Vec<char>| l@) =~= gls.update(
                            i as int,
                            "#:schema "@ + schema_directive_of(version@),
                        ));
                    }
                    let joined = join_lines_exec(&updated);
                    return Some(string_from_chars(&joined));
                } else {
                    return None;
                }
            } else {
                return None;
            }
        }
        i = i + 1;
    }
    None
}

/// Resolve the config path: the given path when it exists; for a render,
/// a relative path is also tried under the render root. The caller
/// supplies the two existence answers.
pub fn build_final_config_path(
    base_path: &str,
    base_exists: bool,
    render_root: Option<&str>,
    joined_exists: bool,
) -> (r: Result<String, Report>)
    ensures
        base_exists ==> (r matches Ok(p) && p@ == base_path@),
        ({
            let relative = !(base_path@.len() > 0 && base_path@[0] == '/');
            &&& (!base_exists && relative && joined_exists) ==> (match render_root {
                Some(root) => r matches Ok(p) && p@ == root@ + "/"@ + base_path@,
                None => r matches Err(e) && e.kind == Zerr::ConfigInvalid,
            })
            &&& (!base_exists && (render_root is None || !relative || !joined_exists)) ==> (
            r matches Err(e) && e.kind == Zerr::ConfigInvalid)
        }),
{
    if base_exists {
        let bv = chars_vec(base_path);
        return Ok(string_from_chars(&bv));
    }
    let bv = chars_vec(base_path);
    let relative = !(bv.len() > 0 && bv[0] == '/');
    match render_root {
        Some(root) => {
            if relative && joined_exists {
                let mut out: Vec<char> = Vec::new();
                let rv = chars_vec(root);
                push_all(&mut out, &rv);
                out.push('/');
                push_all(&mut out, &bv);
                proof {
                    reveal_strlit("/");
                    assert("/"@ =~= seq!['/']);
                    assert(out@ =~= root@ + "/"@ + base_path@);
                }
                return Ok(string_from_chars(&out));
            }
        },
        None => {},
    }
    let mut note = String::new();
    note.append("Config file not found.");
    Err(Report::new(Zerr::ConfigInvalid).note(note))
}

} // verus!
