//! The structured file kinds the file subcommands can edit.
use vstd::prelude::*;

use crate::strutil::{chars_vec, push_all, string_from_chars};

verus! {

/// Supported filetypes to process.
#[derive(Clone, Copy, Debug, PartialEq, Eq, Structural)]
pub enum FileType {
    Json,
    Yaml,
    Toml,
}

/// The displayable list of the filetype options a file command accepts.
pub fn valid_ft_opts_str() -> (r: String)
    ensures
        r@ == "'--json', "@ + "'--yaml', "@ + "'--yml', "@ + "or '--toml'"@,
{
    let mut out: Vec<char> = Vec::new();
    let a = chars_vec("'--json', ");
    push_all(&mut out, &a);
    let b = chars_vec("'--yaml', ");
    push_all(&mut out, &b);
    let c = chars_vec("'--yml', ");
    push_all(&mut out, &c);
    let d = chars_vec("or '--toml'");
    push_all(&mut out, &d);
    proof {
        assert(out@ =~= "'--json', "@ + "'--yaml', "@ + "'--yml', "@ + "or '--toml'"@);
    }
    string_from_chars(&out)
}

} // verus!
