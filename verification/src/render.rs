//! Render-orchestration decisions: the two-phase first run, and the
//! line-numbered excerpt shown when a template fails to render.
use vstd::prelude::*;

use crate::strutil::{chars_vec, dec_chars, push_all, string_from_chars};

verus! {

/// The render pass being performed: on a fresh lockfile with declared
/// initial values, a provisional pass renders from the initials, and a
/// final pass then re-resolves for real to fill the lockfile.
#[derive(Clone, Copy, Debug, PartialEq, Eq, Structural)]
pub enum RenderPhase {
    Provisional,
    Final,
}

/// The window of source lines shown around a failing line: three before
/// and three after, clipped to the file; line numbers are one-based.
pub open spec fn excerpt_window_spec(err_line: int, total: int) -> (int, int) {
    ((if err_line > 3 {
        err_line - 3
    } else {
        1
    }), (if err_line + 3 <= total {
        err_line + 3
    } else {
        total
    }))
}

pub fn excerpt_window(err_line: usize, total: usize) -> (r: (usize, usize))
    requires
        1 <= err_line <= total,
    ensures
        (r.0 as int, r.1 as int) == excerpt_window_spec(err_line as int, total as int),
        1 <= r.0 <= err_line <= r.1 <= total,
{
    let start = if err_line > 3 {
        err_line - 3
    } else {
        1
    };
    let end = if total - err_line >= 3 {
        err_line + 3
    } else {
        total
    };
    (start, end)
}

/// A run of spaces.
pub open spec fn spaces(n: int) -> Seq<char>
    decreases n,
{
    if n <= 0 {
        Seq::empty()
    } else {
        spaces(n - 1).push(' ')
    }
}

fn spaces_exec(n: usize) -> (r: Vec<char>)
    ensures
        r@ == spaces(n as int),
{
    let mut out: Vec<char> = Vec::new();
    let mut i: usize = 0;
    while i < n
        invariant
            i <= n,
            out@ == spaces(i as int),
        decreases n - i,
    {
        out.push(' ');
        i = i + 1;
    }
    out
}

/// One excerpt line: the number right-aligned to the widest number in
/// the window, the source line, and a marker on the failing line.
pub open spec fn excerpt_line_spec(no: int, width: int, line: Seq<char>, marked: bool) -> Seq<
    char,
> {
    spaces(width - dec_chars(no).len()) + dec_chars(no) + "| "@ + line + (if marked {
        " <-- ERR\n"@
    } else {
        "\n"@
    })
}

/// The excerpt text for the window `[no, end]`.
pub open spec fn excerpt_lines_spec(
    lines: Seq<Seq<char>>,
    no: int,
    end: int,
    err_line: int,
    width: int,
) -> Seq<char>
    decreases end + 1 - no,
{
    if no > end {
        Seq::empty()
    } else {
        excerpt_line_spec(no, width, lines[no - 1], no == err_line) + excerpt_lines_spec(
            lines,
            no + 1,
            end,
            err_line,
            width,
        )
    }
}

/// The windowed, line-numbered excerpt of a failing template: up to
/// three lines before and after the failing line, which is marked.
pub fn template_error_excerpt(lines: &Vec<String>, err_line: usize) -> (r: String)
    requires
        1 <= err_line <= lines@.len(),
        lines@.len() < usize::MAX,
    ensures
        ({
            let (start, end) = excerpt_window_spec(err_line as int, lines@.len() as int);
            r@ == excerpt_lines_spec(
                crate::walker::strs_view(lines@),
                start,
                end,
                err_line as int,
                dec_chars(end).len() as int,
            )
        }),
{
    let total = lines.len();
    let (start, end) = excerpt_window(err_line, total);
    let end_digits = crate::strutil::u128_to_chars(end as u128);
    let width = end_digits.len();
    let ghost gls = crate::walker::strs_view(lines@);
    let mut out: Vec<char> = Vec::new();
    let mut no: usize = start;
    while no <= end
        invariant
            start <= no <= end + 1,
            end <= lines@.len() < usize::MAX,
            start >= 1,
            gls == crate::walker::strs_view(lines@),
            gls.len() == lines@.len(),
            width == dec_chars(end as int).len(),
            excerpt_lines_spec(gls, start as int, end as int, err_line as int, width as int)
                == out@ + excerpt_lines_spec(
                gls,
                no as int,
                end as int,
                err_line as int,
                width as int,
            ),
        decreases end + 1 - no,
    {
        let no_digits = crate::strutil::u128_to_chars(no as u128);
        proof {
            crate::strutil::lemma_dec_chars_val(no as int);
            crate::strutil::lemma_dec_chars_val(end as int);
            lemma_dec_chars_len_mono(no as int, end as int);
        }
        let pad = spaces_exec(width - no_digits.len());
        let mut piece: Vec<char> = Vec::new();
        push_all(&mut piece, &pad);
        push_all(&mut piece, &no_digits);
        let sep = chars_vec("| ");
        push_all(&mut piece, &sep);
        let lv = chars_vec(lines[no - 1].as_str());
        push_all(&mut piece, &lv);
        if no == err_line {
            let mark = chars_vec(" <-- ERR\n");
            push_all(&mut piece, &mark);
        } else {
            let nl = chars_vec("\n");
            push_all(&mut piece, &nl);
        }
        proof {
            assert(piece@ =~= excerpt_line_spec(
                no as int,
                width as int,
                gls[no - 1],
                no == err_line,
            ));
        }
        push_all(&mut out, &piece);
        no = no + 1;
        proof {
            assert(excerpt_lines_spec(gls, start as int, end as int, err_line as int, width as int)
                =~= out@ + excerpt_lines_spec(
                gls,
                no as int,
                end as int,
                err_line as int,
                width as int,
            ));
        }
    }
    proof {
        assert(out@ + Seq::<char>::empty() =~= out@);
    }
    string_from_chars(&out)
}

/// A smaller number's decimal text is never wider.
proof fn lemma_dec_chars_len_mono(a: int, b: int)
    requires
        0 <= a <= b,
    ensures
        dec_chars(a).len() <= dec_chars(b).len(),
    decreases b,
{
    if b >= 10 {
        if a >= 10 {
            lemma_dec_chars_len_mono(a / 10, b / 10);
        } else {
            lemma_dec_chars_len_mono(0, b / 10);
        }
    }
}

} // verus!
