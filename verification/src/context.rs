//! Context variable resolvers. A static variable is a literal; an
//! environment variable reads the process environment with an optional
//! default; a command-derived variable takes the last command's trimmed
//! stdout. Each applies its optional coercion.
use vstd::prelude::*;

use crate::cmd::{last_stdout_spec, CmdOut};
use crate::coerce::{coerce, coerce_spec, Coerce};
use crate::error::{Report, Zerr};
use crate::strutil::{chars_vec, string_from_chars, trim_chars, trim_spec};
use crate::values::{JVal, Jv};

verus! {

/// A literal value with an optional coercion.
pub struct CtxStaticVar {
    pub value: JVal,
    pub coerce: Option<Coerce>,
}

/// What reading a static variable yields: its coerced literal, or a
/// coercion failure.
pub open spec fn static_read_spec(value: Jv, c: Option<Coerce>) -> Result<Jv, Zerr> {
    match coerce_spec(value, c) {
        Some(w) => Ok(w),
        None => Err(Zerr::CoercionError),
    }
}

impl CtxStaticVar {
    /// Resolve the literal; fails only on a coercion mismatch.
    pub fn read(&self) -> (r: Result<JVal, Report>)
        ensures
            match static_read_spec(self.value@, self.coerce) {
                Ok(w) => r matches Ok(v) && v@ == w,
                Err(k) => r matches Err(e) && e.kind == k,
            },
    {
        coerce(&self.value, &self.coerce)
    }
}

/// An environment variable: an optional explicit name (else the context
/// key), an optional default, an optional coercion.
pub struct CtxEnvVar {
    pub env_name: Option<String>,
    pub default: Option<CtxStaticVar>,
    pub coerce: Option<Coerce>,
}

/// The name looked up in the environment: the explicit name when given,
/// else the context key.
pub open spec fn env_lookup_name(env_name: Option<String>, key: Seq<char>) -> Seq<char> {
    match env_name {
        Some(n) => n@,
        None => key,
    }
}

/// What reading an environment variable yields, given the looked-up
/// value: present, it coerces; absent with an unbanned default, the
/// default resolves; absent otherwise, a `ContextLoadError`.
pub open spec fn env_read_spec(
    default: Option<CtxStaticVar>,
    c: Option<Coerce>,
    default_banned: bool,
    env_value: Option<Seq<char>>,
) -> Result<Jv, Zerr> {
    match env_value {
        Some(s) => match coerce_spec(Jv::Str(s), c) {
            Some(w) => Ok(w),
            None => Err(Zerr::CoercionError),
        },
        None => {
            if default is Some && default_banned {
                Err(Zerr::ContextLoadError)
            } else {
                match default {
                    Some(d) => static_read_spec(d.value@, d.coerce),
                    None => Err(Zerr::ContextLoadError),
                }
            }
        },
    }
}

/// The note a missing environment variable's failure carries: the name
/// that was looked up, and whether a ban or a missing default decided.
pub open spec fn env_missing_note_spec(name: Seq<char>, banned: bool) -> Seq<char> {
    if banned {
        "Could not find the environment variable '"@ + name
            + "', and its default has been banned with the ban-defaults option."@
    } else {
        "Could not find the environment variable '"@ + name + "', and no default is provided."@
    }
}

impl CtxEnvVar {
    /// Resolve from the looked-up environment value. The lookup itself
    /// is the caller's: this function owns the default/ban/coercion
    /// policy alone, and its failures name the variable that was looked
    /// up (the explicit name when one is configured, else the context
    /// key).
    pub fn read(&self, key_name: &str, default_banned: bool, env_value: Option<&String>) -> (r:
        Result<JVal, Report>)
        ensures
            match env_read_spec(
                self.default,
                self.coerce,
                default_banned,
                match env_value {
                    Some(s) => Some(s@),
                    None => None,
                },
            ) {
                Ok(w) => r matches Ok(v) && v@ == w,
                Err(k) => r matches Err(e) && e.kind == k,
            },
            (env_value is None && self.default is Some && default_banned) ==> (r matches Err(e)
                && e.notes@.len() == 1 && e.notes@[0]@ == env_missing_note_spec(
                env_lookup_name(self.env_name, key_name@),
                true,
            )),
            (env_value is None && self.default is None) ==> (r matches Err(e) && e.notes@.len()
                == 1 && e.notes@[0]@ == env_missing_note_spec(
                env_lookup_name(self.env_name, key_name@),
                false,
            )),
    {
        match env_value {
            Some(s) => {
                let v = JVal::Str(s.clone());
                coerce(&v, &self.coerce)
            },
            None => {
                let looked: &str = match &self.env_name {
                    Some(nm) => nm.as_str(),
                    None => key_name,
                };
                let has_default = match &self.default {
                    Some(_) => true,
                    None => false,
                };
                if has_default && default_banned {
                    Err(Report::new(Zerr::ContextLoadError).note(missing_env_note(looked, true)))
                } else {
                    match &self.default {
                        Some(d) => d.read(),
                        None => {
                            Err(
                                Report::new(Zerr::ContextLoadError).note(
                                    missing_env_note(looked, false),
                                ),
                            )
                        },
                    }
                }
            },
        }
    }
}

fn missing_env_note(name: &str, banned: bool) -> (r: String)
    ensures
        r@ == env_missing_note_spec(name@, banned),
{
    let mut out: Vec<char> = Vec::new();
    let head = chars_vec("Could not find the environment variable '");
    crate::strutil::push_all(&mut out, &head);
    let nv = chars_vec(name);
    crate::strutil::push_all(&mut out, &nv);
    if banned {
        let tail = chars_vec("', and its default has been banned with the ban-defaults option.");
        crate::strutil::push_all(&mut out, &tail);
        proof {
            assert(out@ =~= env_missing_note_spec(name@, true));
        }
    } else {
        let tail = chars_vec("', and no default is provided.");
        crate::strutil::push_all(&mut out, &tail);
        proof {
            assert(out@ =~= env_missing_note_spec(name@, false));
        }
    }
    string_from_chars(&out)
}

/// Ban-defaults: for a variable with a declared default and the default
/// banned, resolution ends in a `ContextLoadError` exactly when the
/// environment variable is absent; present, it never does (a mismatching
/// value is a `CoercionError`, not a load error).
pub proof fn lemma_ban_defaults(
    default: Option<CtxStaticVar>,
    c: Option<Coerce>,
    env_value: Option<Seq<char>>,
)
    requires
        default is Some,
    ensures
        (env_read_spec(default, c, true, env_value) matches Err(k) && k
            == Zerr::ContextLoadError) <==> env_value is None,
{
}

/// A command-derived variable: commands run in order, the last trimmed
/// stdout is the value; `light` replaces it in light mode, `initial` on a
/// first-ever run.
pub struct CtxCliVar {
    pub commands: Vec<String>,
    pub coerce: Option<Coerce>,
    pub light: Option<CtxStaticVar>,
    pub initial: Option<JVal>,
}

/// What a finished command chain yields: empty trimmed output is an
/// error, never an implicit empty value; anything else coerces.
pub open spec fn cli_read_spec(c: Option<Coerce>, stdouts: Seq<String>) -> Result<Jv, Zerr> {
    let t = trim_spec(last_stdout_spec(stdouts));
    if t.len() == 0 {
        Err(Zerr::UserCommandError)
    } else {
        match coerce_spec(Jv::Str(t), c) {
            Some(w) => Ok(w),
            None => Err(Zerr::CoercionError),
        }
    }
}

impl CtxCliVar {
    /// Turn the captured output of this variable's commands into its
    /// value.
    pub fn read_output(&self, out: &CmdOut) -> (r: Result<JVal, Report>)
        ensures
            match cli_read_spec(self.coerce, out.stdouts@) {
                Ok(w) => r matches Ok(v) && v@ == w,
                Err(k) => r matches Err(e) && e.kind == k,
            },
    {
        let last = out.last_stdout();
        let lv = chars_vec(last);
        let t = trim_chars(&lv);
        if t.len() == 0 {
            let mut e = Report::new(Zerr::UserCommandError);
            let mut note = String::new();
            note.append("Implicit None. Final cli command returned nothing.");
            e = e.note(note);
            let blocks = out.iter_formatted_commands_and_outputs();
            let mut i: usize = 0;
            while i < blocks.len()
                invariant
                    e.kind == Zerr::UserCommandError,
                decreases blocks@.len() - i,
            {
                e = e.note(blocks[i].clone());
                i = i + 1;
            }
            Err(e)
        } else {
            let trimmed = JVal::Str(string_from_chars(&t));
            proof {
                crate::strutil::lemma_trim_props(lv@);
            }
            coerce(&trimmed, &self.coerce)
        }
    }
}

/// The declared context: three kinds of variables, each in declaration
/// order.
pub struct Context {
    pub stat: Vec<(String, CtxStaticVar)>,
    pub env: Vec<(String, CtxEnvVar)>,
    pub cli: Vec<(String, CtxCliVar)>,
}

impl Context {
    /// An empty context.
    pub fn default() -> (r: Context)
        ensures
            r.stat@.len() == 0,
            r.env@.len() == 0,
            r.cli@.len() == 0,
    {
        Context { stat: Vec::new(), env: Vec::new(), cli: Vec::new() }
    }
}

} // verus!
