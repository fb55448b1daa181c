//! The loaded configuration: the declared context, the matcher tokens,
//! the excludes and ignore files, the render-engine settings and the
//! task lists, plus the validation the loader applies.
use vstd::prelude::*;

use crate::assoc::assoc_map;
use crate::context::{static_read_spec, Context, CtxEnvVar, CtxStaticVar};
use crate::error::{Report, Zerr};
use crate::strutil::chars_vec;
use crate::tasks::Tasks;
use crate::values::{JVal, Jv};

verus! {

/// Render-engine settings: the delimiter pairs and the user extension
/// points.
pub struct Engine {
    pub block_start: String,
    pub block_end: String,
    pub variable_start: String,
    pub variable_end: String,
    pub comment_start: String,
    pub comment_end: String,
    pub custom_extensions: Vec<String>,
}

pub fn default_block_start() -> (r: String)
    ensures
        r@ == "{%"@,
{
    "{%".to_owned()
}

pub fn default_block_end() -> (r: String)
    ensures
        r@ == "%}"@,
{
    "%}".to_owned()
}

pub fn default_variable_start() -> (r: String)
    ensures
        r@ == "{{"@,
{
    "{{".to_owned()
}

pub fn default_variable_end() -> (r: String)
    ensures
        r@ == "}}"@,
{
    "}}".to_owned()
}

pub fn default_comment_start() -> (r: String)
    ensures
        r@ == "{#"@,
{
    "{#".to_owned()
}

pub fn default_comment_end() -> (r: String)
    ensures
        r@ == "#}"@,
{
    "#}".to_owned()
}

pub fn default_custom_extensions() -> (r: Vec<String>)
    ensures
        r@.len() == 0,
{
    Vec::new()
}

impl Engine {
    /// The stock delimiters and no custom extensions.
    pub fn default() -> (r: Engine)
        ensures
            r.block_start@ == "{%"@,
            r.block_end@ == "%}"@,
            r.variable_start@ == "{{"@,
            r.variable_end@ == "}}"@,
            r.comment_start@ == "{#"@,
            r.comment_end@ == "#}"@,
            r.custom_extensions@.len() == 0,
    {
        Engine {
            block_start: default_block_start(),
            block_end: default_block_end(),
            variable_start: default_variable_start(),
            variable_end: default_variable_end(),
            comment_start: default_comment_start(),
            comment_end: default_comment_end(),
            custom_extensions: default_custom_extensions(),
        }
    }
}

/// The default matcher token list: just `zetch`.
pub fn default_matchers() -> (r: Vec<String>)
    ensures
        r@.len() == 1,
        r@[0]@ == "zetch"@,
{
    let mut v: Vec<String> = Vec::new();
    v.push("zetch".to_owned());
    v
}

/// The loaded configuration of one run.
pub struct Config {
    pub context: Context,
    pub exclude: Vec<String>,
    pub engine: Engine,
    pub ignore_files: Vec<String>,
    pub matchers: Vec<String>,
    pub tasks: Tasks,
}

/// Every declared context key: statics, then environment variables, then
/// command-derived variables, each in declaration order.
pub open spec fn decl_keys(c: Context) -> Seq<String> {
    crate::assoc::key_col(c.stat@) + crate::assoc::key_col(c.env@) + crate::assoc::key_col(
        c.cli@,
    )
}

impl Config {
    /// Every declared context key, in declaration order.
    pub fn ctx_keys(&self) -> (r: Vec<String>)
        ensures
            r@ == decl_keys(self.context),
    {
        let mut out: Vec<String> = Vec::new();
        let mut a = crate::assoc::assoc_keys(&self.context.stat);
        let mut b = crate::assoc::assoc_keys(&self.context.env);
        let mut c = crate::assoc::assoc_keys(&self.context.cli);
        out.append(&mut a);
        out.append(&mut b);
        out.append(&mut c);
        out
    }
}

/// A matcher token may hold lowercase letters, digits, dashes and
/// underscores.
pub open spec fn matcher_char_ok(c: char) -> bool {
    ('a' <= c && c <= 'z') || ('0' <= c && c <= '9') || c == '_' || c == '-'
}

/// A valid matcher token: non-empty and of the allowed characters.
pub open spec fn matcher_ok(s: Seq<char>) -> bool {
    s.len() > 0 && forall|i: int| 0 <= i < s.len() ==> matcher_char_ok(#[trigger] s[i])
}

/// Validate the matcher list: it succeeds exactly when at least one
/// token is declared and every token is well-formed.
pub fn validate_matchers(matchers: &Vec<String>) -> (r: Result<(), Report>)
    ensures
        r is Ok <==> (matchers@.len() > 0 && forall|i: int|
            0 <= i < matchers@.len() ==> matcher_ok(#[trigger] matchers@[i]@)),
        r matches Err(e) ==> e.kind == Zerr::ConfigInvalid,
{
    if matchers.len() == 0 {
        let mut note = String::new();
        note.append("At least one template matcher is needed.");
        return Err(Report::new(Zerr::ConfigInvalid).note(note));
    }
    let mut i: usize = 0;
    while i < matchers.len()
        invariant
            i <= matchers@.len(),
            forall|j: int| 0 <= j < i ==> matcher_ok(#[trigger] matchers@[j]@),
        decreases matchers@.len() - i,
    {
        let mv = chars_vec(matchers[i].as_str());
        if mv.len() == 0 {
            let mut note = String::new();
            note.append("A matcher cannot be the empty string.");
            return Err(Report::new(Zerr::ConfigInvalid).note(note));
        }
        let mut j: usize = 0;
        while j < mv.len()
            invariant
                j <= mv@.len(),
                mv@ == matchers@[i as int]@,
                i < matchers@.len(),
                forall|k: int| 0 <= k < j ==> matcher_char_ok(#[trigger] mv@[k]),
            decreases mv@.len() - j,
        {
            let c = mv[j];
            let ok = ('a' <= c && c <= 'z') || ('0' <= c && c <= '9') || c == '_' || c == '-';
            if !ok {
                let mut note = String::new();
                note.append(
                    "Matchers may hold lowercase letters, digits, dashes and underscores only.",
                );
                return Err(Report::new(Zerr::ConfigInvalid).note(note));
            }
            j = j + 1;
        }
        i = i + 1;
    }
    Ok(())
}

/// A path made relative to the config file's directory when it is not
/// absolute; an absolute path stays as it is.
pub open spec fn resolved_path_spec(config_dir: Seq<char>, p: Seq<char>) -> Seq<char> {
    if p.len() > 0 && p[0] == '/' {
        p
    } else {
        config_dir + "/"@ + p
    }
}

/// Resolve a configured path against the config file's directory.
pub fn resolve_rel_path(config_dir: &str, p: &str) -> (r: String)
    ensures
        r@ == resolved_path_spec(config_dir@, p@),
{
    let pv = chars_vec(p);
    if pv.len() > 0 && pv[0] == '/' {
        crate::strutil::string_from_chars(&pv)
    } else {
        let mut out: Vec<char> = Vec::new();
        let dv = chars_vec(config_dir);
        crate::strutil::push_all(&mut out, &dv);
        out.push('/');
        crate::strutil::push_all(&mut out, &pv);
        proof {
            reveal_strlit("/");
            assert("/"@ =~= seq!['/']);
            assert(out@ =~= config_dir@ + "/"@ + p@);
        }
        crate::strutil::string_from_chars(&out)
    }
}

/// The table the `env_default` template function serves: every declared
/// environment variable with a default, bound to its resolved default.
pub open spec fn defaults_table_spec(env: Seq<(String, CtxEnvVar)>) -> Result<
    Seq<(Seq<char>, Jv)>,
    Zerr,
>
    decreases env.len(),
{
    if env.len() == 0 {
        Ok(Seq::empty())
    } else {
        match defaults_table_spec(env.drop_last()) {
            Ok(pre) => match env.last().1.default {
                Some(d) => match static_read_spec(d.value@, d.coerce) {
                    Ok(w) => Ok(pre.push((env.last().0@, w))),
                    Err(k) => Err(k),
                },
                None => Ok(pre),
            },
            Err(k) => Err(k),
        }
    }
}

/// Resolve every declared environment default, eagerly, for the
/// `env_default` template function.
pub fn env_defaults_table(env: &Vec<(String, CtxEnvVar)>) -> (r: Result<
    Vec<(String, JVal)>,
    Report,
>)
    ensures
        match defaults_table_spec(env@) {
            Ok(t) => r matches Ok(v) && v@.len() == t.len() && (forall|i: int|
                0 <= i < t.len() ==> (#[trigger] v@[i].0@, v@[i].1@) == t[i]),
            Err(k) => r matches Err(e) && e.kind == k,
        },
{
    let mut out: Vec<(String, JVal)> = Vec::new();
    let mut i: usize = 0;
    while i < env.len()
        invariant
            i <= env@.len(),
            defaults_table_spec(env@.subrange(0, i as int)) matches Ok(t) && out@.len() == t.len()
                && (forall|j: int| 0 <= j < t.len() ==> (#[trigger] out@[j].0@, out@[j].1@) == t[j]),
        decreases env@.len() - i,
    {
        let ghost pre = env@.subrange(0, i as int);
        match &env[i].1.default {
            Some(d) => match d.read() {
                Ok(w) => {
                    out.push((env[i].0.clone(), w));
                },
                Err(e) => {
                    proof {
                        lemma_defaults_table_err(env@, i as int);
                    }
                    return Err(e);
                },
            },
            None => {},
        }
        i = i + 1;
        proof {
            let cur = env@.subrange(0, i as int);
            assert(cur.drop_last() =~= pre);
            assert(cur.last() == env@[i - 1]);
        }
    }
    proof {
        assert(env@.subrange(0, env@.len() as int) =~= env@);
    }
    Ok(out)
}

/// A failing default poisons the whole table when every earlier default
/// resolves.
proof fn lemma_defaults_table_err(env: Seq<(String, CtxEnvVar)>, i: int)
    requires
        0 <= i < env.len(),
        defaults_table_spec(env.subrange(0, i)) is Ok,
        env[i].1.default matches Some(d) && static_read_spec(d.value@, d.coerce) matches Err(k),
    ensures
        defaults_table_spec(env) matches Err(k2) && (env[i].1.default matches Some(d)
            && static_read_spec(d.value@, d.coerce) == Err::<Jv, Zerr>(k2)),
    decreases env.len(),
{
    if i == env.len() - 1 {
        assert(env.subrange(0, i) =~= env.drop_last());
    } else {
        assert(env.drop_last().subrange(0, i) =~= env.subrange(0, i));
        assert(env.drop_last()[i] == env[i]);
        lemma_defaults_table_err(env.drop_last(), i);
    }
}

/// The note a failed `env_default` call carries: the env vars that have
/// defaults, sorted without regard to letter case.
pub open spec fn env_default_note_spec(keys: Seq<String>) -> Seq<char> {
    "No context.env variable of that name has a default. Env vars with defaults: '"@
        + crate::strutil::join_comma(
        crate::strutil::views_of(crate::strutil::ci_sorted(keys)),
        0,
    ) + "'."@
}

/// Serve one `env_default` call from the resolved table: the declared
/// default for the name, or a failure listing the env vars that have
/// one, sorted case-insensitively.
pub fn env_default_lookup(table: &Vec<(String, JVal)>, name: &str) -> (r: Result<JVal, Report>)
    ensures
        match r {
            Ok(v) => assoc_map(table@).contains_key(name@) && v@ == assoc_map(table@)[name@]@,
            Err(e) => !assoc_map(table@).contains_key(name@) && e.kind == Zerr::ReadVarMissing
                && e.notes@.len() == 1 && e.notes@[0]@ == env_default_note_spec(
                crate::assoc::key_col(table@),
            ),
        },
{
    match crate::assoc::assoc_get(table, name) {
        Some(v) => Ok(v.duplicate()),
        None => {
            let keys = crate::assoc::assoc_keys(table);
            let sorted = crate::strutil::sort_ci(&keys);
            let joined = crate::strutil::join_keys(&sorted);
            let mut note: Vec<char> = Vec::new();
            let head = chars_vec(
                "No context.env variable of that name has a default. Env vars with defaults: '",
            );
            crate::strutil::push_all(&mut note, &head);
            let jv = chars_vec(joined.as_str());
            crate::strutil::push_all(&mut note, &jv);
            let tail = chars_vec("'.");
            crate::strutil::push_all(&mut note, &tail);
            proof {
                assert(note@ =~= env_default_note_spec(crate::assoc::key_col(table@)));
            }
            Err(Report::new(Zerr::ReadVarMissing).note(crate::strutil::string_from_chars(&note)))
        },
    }
}

/// The coercion kind each config name stands for; any other name is
/// nothing.
pub open spec fn kind_of_name(s: Seq<char>) -> Option<crate::coerce::Coerce> {
    if s == "json"@ {
        Some(crate::coerce::Coerce::Json)
    } else if s == "str"@ {
        Some(crate::coerce::Coerce::Str)
    } else if s == "int"@ {
        Some(crate::coerce::Coerce::Int)
    } else if s == "float"@ {
        Some(crate::coerce::Coerce::Float)
    } else if s == "bool"@ {
        Some(crate::coerce::Coerce::Bool)
    } else {
        None
    }
}

/// A table holding a `value` field and at most an additional `coerce`
/// field is the fully specified static-variable shape.
pub open spec fn static_full_shape(fields: Seq<(Seq<char>, Jv)>) -> bool {
    crate::values::obj_lookup(fields, "value"@) is Some && (fields.len() == 1 || (fields.len()
        == 2 && crate::values::obj_lookup(fields, "coerce"@) is Some))
}

/// What a static-variable declaration means: in the fully specified
/// shape, the `value` field with the named coercion (a `coerce` entry
/// that is neither null nor one of the five kind names is a config
/// error); in any other shape, the value itself with no coercion.
pub open spec fn static_var_spec(v: Jv) -> Result<(Jv, Option<crate::coerce::Coerce>), Zerr> {
    match v {
        Jv::Obj(fields) => {
            if static_full_shape(fields) {
                let value = (match crate::values::obj_lookup(fields, "value"@) {
                    Some(x) => x,
                    None => Jv::Null,
                });
                match crate::values::obj_lookup(fields, "coerce"@) {
                    None => Ok((value, None)),
                    Some(Jv::Null) => Ok((value, None)),
                    Some(Jv::Str(s)) => match kind_of_name(s) {
                        Some(k) => Ok((value, Some(k))),
                        None => Err(Zerr::ConfigInvalid),
                    },
                    Some(_) => Err(Zerr::ConfigInvalid),
                }
            } else {
                Ok((v, None))
            }
        },
        _ => Ok((v, None)),
    }
}

/// Read a static variable's declaration from its parsed form: a table
/// holding `value` (and maybe `coerce`) is the fully specified shape;
/// anything else is the value itself, with no coercion.
pub fn static_var_from_value(v: &JVal) -> (r: Result<CtxStaticVar, Report>)
    ensures
        match static_var_spec(v@) {
            Ok((value, kind)) => r matches Ok(sv) && sv.value@ == value && sv.coerce == kind,
            Err(k) => r matches Err(e) && e.kind == k,
        },
{
    proof {
        match v {
            JVal::Obj(fields) => {
                crate::values::lemma_jv_of_fields(fields@);
            },
            _ => {},
        }
    }
    let full_shape: bool = match v {
        JVal::Obj(fields) => {
            let has_value = match v.obj_get("value") {
                Some(_) => true,
                None => false,
            };
            let extra: bool = if fields.len() == 1 {
                false
            } else if fields.len() == 2 {
                match v.obj_get("coerce") {
                    Some(_) => false,
                    None => true,
                }
            } else {
                true
            };
            has_value && !extra
        },
        _ => false,
    };
    if full_shape {
        let value = match v.obj_get("value") {
            Some(inner) => inner.duplicate(),
            None => {
                return Err(Report::new(Zerr::ConfigInvalid));
            },
        };
        let coerce_kind: Option<crate::coerce::Coerce> = match v.obj_get("coerce") {
            Some(c) => match c {
                JVal::Null => None,
                JVal::Str(s) => match coerce_kind_of(s.as_str()) {
                    Some(k) => Some(k),
                    None => {
                        let mut note = String::new();
                        note.append(
                            "Expected one of 'json', 'str', 'int', 'float' or 'bool'.",
                        );
                        return Err(Report::new(Zerr::ConfigInvalid).note(note));
                    },
                },
                _ => {
                    let mut note = String::new();
                    note.append("The coerce field takes a string.");
                    return Err(Report::new(Zerr::ConfigInvalid).note(note));
                },
            },
            None => None,
        };
        Ok(CtxStaticVar { value, coerce: coerce_kind })
    } else {
        Ok(CtxStaticVar { value: v.duplicate(), coerce: None })
    }
}

/// The coercion kind a config string names; any other string names none.
pub fn coerce_kind_of(s: &str) -> (r: Option<crate::coerce::Coerce>)
    ensures
        r == kind_of_name(s@),
{
    proof {
        reveal_strlit("json");
        reveal_strlit("str");
        reveal_strlit("int");
        reveal_strlit("float");
        reveal_strlit("bool");
        assert("json"@.len() == 4);
        assert("str"@.len() == 3);
        assert("int"@.len() == 3);
        assert("float"@.len() == 5);
        assert("bool"@.len() == 4);
        assert("str"@[0] == 's' && "int"@[0] == 'i');
        assert("json"@[0] == 'j' && "bool"@[0] == 'b');
    }
    if crate::values::str_eq(s, "json") {
        Some(crate::coerce::Coerce::Json)
    } else if crate::values::str_eq(s, "str") {
        Some(crate::coerce::Coerce::Str)
    } else if crate::values::str_eq(s, "int") {
        Some(crate::coerce::Coerce::Int)
    } else if crate::values::str_eq(s, "float") {
        Some(crate::coerce::Coerce::Float)
    } else if crate::values::str_eq(s, "bool") {
        Some(crate::coerce::Coerce::Bool)
    } else {
        None
    }
}

} // verus!
