//! Per-invocation run state: the loaded config, the growable map of
//! resolved context values, and the mode flags. Resolution is idempotent
//! per name; statics and environment variables resolve sequentially in
//! declaration order, command-derived variables are planned here and
//! their outputs handed back by the caller.
use vstd::prelude::*;

use crate::assoc::{assoc_get, assoc_map};
use crate::cmd::CmdOut;
use crate::config::Config;
use crate::context::{
    cli_read_spec, env_lookup_name, env_read_spec, static_read_spec, CtxCliVar, CtxEnvVar,
    CtxStaticVar,
};
use crate::error::{Report, Zerr};
use crate::values::{JVal, Jv};
use crate::walker::strs_view;

verus! {

/// A snapshot of the process environment, taken once by the caller.
pub struct EnvMap {
    pub vars: Vec<(String, String)>,
}

impl EnvMap {
    pub open spec fn model(&self) -> Map<Seq<char>, String> {
        assoc_map(self.vars@)
    }

    pub fn new(vars: Vec<(String, String)>) -> (r: EnvMap)
        ensures
            r.vars == vars,
    {
        EnvMap { vars }
    }

    /// The value of one environment variable, if set.
    pub fn get(&self, name: &str) -> (r: Option<&String>)
        ensures
            match r {
                Some(v) => self.model().contains_key(name@) && *v == self.model()[name@],
                None => !self.model().contains_key(name@),
            },
    {
        assoc_get(&self.vars, name)
    }
}

/// The views of resolved context bindings.
pub open spec fn jv_assoc(s: Seq<(String, JVal)>) -> Map<Seq<char>, Jv>
    decreases s.len(),
{
    if s.len() == 0 {
        Map::empty()
    } else {
        jv_assoc(s.drop_last()).insert(s.last().0@, s.last().1@)
    }
}

/// The view map and the binding map agree: same names, viewed values.
pub proof fn lemma_jv_assoc_rel(s: Seq<(String, JVal)>, k: Seq<char>)
    ensures
        jv_assoc(s).contains_key(k) <==> assoc_map(s).contains_key(k),
        jv_assoc(s).contains_key(k) ==> jv_assoc(s)[k] == assoc_map(s)[k]@,
    decreases s.len(),
{
    if s.len() > 0 {
        lemma_jv_assoc_rel(s.drop_last(), k);
    }
}

/// The subcommand kinds this tool serves.
#[derive(Clone, Copy, Debug, PartialEq, Eq, Structural)]
pub enum CommandKind {
    Render,
    Var,
    Read,
    Put,
    Del,
    Init,
    ReplaceMatcher,
    Version,
}

/// Rendering and variable reads resolve context, so they expect tasks.
pub open spec fn expects_tasks_spec(kind: CommandKind) -> bool {
    kind == CommandKind::Render || kind == CommandKind::Var
}

impl CommandKind {
    pub fn expects_tasks(&self) -> (r: bool)
        ensures
            r == expects_tasks_spec(*self),
    {
        match self {
            CommandKind::Render => true,
            CommandKind::Var => true,
            _ => false,
        }
    }
}

/// What the environment kind of a variable resolves to, given the
/// snapshot: the policy of `env_read_spec` at the name the variable
/// reads.
pub open spec fn env_step(
    ev: CtxEnvVar,
    key: Seq<char>,
    banned: bool,
    envm: Map<Seq<char>, String>,
) -> Result<Jv, Zerr> {
    let name = env_lookup_name(ev.env_name, key);
    env_read_spec(
        ev.default,
        ev.coerce,
        banned,
        if envm.contains_key(name) {
            Some(envm[name]@)
        } else {
            None
        },
    )
}

/// Whether a ban list bans a key's default: an empty (but present) list
/// bans every default.
pub open spec fn banned_spec(ban: Option<Seq<String>>, key: Seq<char>) -> bool {
    match ban {
        Some(l) => l.len() == 0 || exists|i: int| 0 <= i < l.len() && #[trigger] l[i]@ == key,
        None => false,
    }
}

/// The note every per-variable failure carries last: the variable's
/// name.
pub open spec fn var_note_spec(v: Seq<char>) -> Seq<char> {
    "Context variable: '"@ + v + "'"@
}

fn var_note(v: &str) -> (r: String)
    ensures
        r@ == var_note_spec(v@),
{
    let mut out: Vec<char> = Vec::new();
    let head = crate::strutil::chars_vec("Context variable: '");
    crate::strutil::push_all(&mut out, &head);
    let vv = crate::strutil::chars_vec(v);
    crate::strutil::push_all(&mut out, &vv);
    let tail = crate::strutil::chars_vec("'");
    crate::strutil::push_all(&mut out, &tail);
    proof {
        assert(out@ =~= var_note_spec(v@));
    }
    crate::strutil::string_from_chars(&out)
}

/// The note an undeclared variable's failure carries: every declared
/// context key, in declaration order.
pub open spec fn missing_var_note_spec(c: crate::context::Context) -> Seq<char> {
    "Context variable not found in the finalised config. All context keys: '"@
        + crate::strutil::join_comma(
        crate::strutil::views_of(crate::config::decl_keys(c)),
        0,
    ) + "'."@
}

/// The note an invalid ban list carries: the unrecognized name, and the
/// declared env vars sorted without regard to letter case.
pub open spec fn ban_note_spec(bad: Seq<char>, env_keys: Seq<String>) -> Seq<char> {
    "Unrecognized context.env variable '"@ + bad
        + "' handed to ban-defaults. Declared env vars: '"@ + crate::strutil::join_comma(
        crate::strutil::views_of(crate::strutil::ci_sorted(env_keys)),
        0,
    ) + "'."@
}

/// What `plan_var` answers: the resolved value, or the commands the
/// caller must run to produce it.
pub enum VarPlan {
    Ready(JVal),
    RunCommands(Vec<String>),
}

/// The per-invocation run state.
pub struct State {
    pub conf: Config,
    pub final_config_path: String,
    pub ctx: Vec<(String, JVal)>,
    pub light: bool,
    pub superlight: bool,
    pub from_parent: bool,
}

impl State {
    /// The resolved context: name to value.
    pub open spec fn ctx_model(&self) -> Map<Seq<char>, Jv> {
        jv_assoc(self.ctx@)
    }

    /// Fresh state for a run: nothing resolved yet.
    pub fn new_fresh(conf: Config, final_config_path: String, light: bool, superlight: bool) -> (r:
        State)
        ensures
            r.conf == conf,
            r.final_config_path == final_config_path,
            r.ctx@.len() == 0,
            r.light == light,
            r.superlight == superlight,
            !r.from_parent,
    {
        State { conf, final_config_path, ctx: Vec::new(), light, superlight, from_parent: false }
    }

    /// State rebuilt from a parent process's serialized hand-off: the
    /// resolved context is reused, so nothing re-runs.
    pub fn from_parent(conf: Config, ctx: Vec<(String, JVal)>, final_config_path: String) -> (r:
        State)
        ensures
            r.conf == conf,
            r.final_config_path == final_config_path,
            r.ctx == ctx,
            !r.light,
            !r.superlight,
            r.from_parent,
    {
        State { conf, final_config_path, ctx, light: false, superlight: false, from_parent: true }
    }

    /// Pre tasks run for task-expecting commands, on a fresh state, and
    /// never in light mode.
    pub fn should_run_pre_tasks(&self, kind: &CommandKind) -> (r: bool)
        ensures
            r == (expects_tasks_spec(*kind) && !self.light && !self.from_parent),
    {
        kind.expects_tasks() && !self.light && !self.from_parent
    }

    /// Record a resolved value; a later binding for the same name wins.
    pub fn store_var(&mut self, name: &str, value: JVal)
        ensures
            final(self).ctx_model() == old(self).ctx_model().insert(name@, value@),
            final(self).conf == old(self).conf,
            final(self).final_config_path == old(self).final_config_path,
            final(self).light == old(self).light,
            final(self).superlight == old(self).superlight,
            final(self).from_parent == old(self).from_parent,
    {
        self.ctx.push((name.to_owned(), value));
        proof {
            assert(self.ctx@.drop_last() =~= old(self).ctx@);
        }
    }

    /// Plan the resolution of one variable: cached values are reused;
    /// statics and environment variables resolve at once; a
    /// command-derived variable resolves in light mode from its light
    /// value (else an empty string) and otherwise hands its commands
    /// back; an undeclared name is a `ReadVarMissing`.
    pub fn plan_var(&self, var: &str, default_banned: bool, env: &EnvMap) -> (r: Result<
        VarPlan,
        Report,
    >)
        ensures
            ({
                let cm = self.ctx_model();
                let sm = assoc_map(self.conf.context.stat@);
                let em = assoc_map(self.conf.context.env@);
                let km = assoc_map(self.conf.context.cli@);
                &&& cm.contains_key(var@) ==> (r matches Ok(p) && p matches VarPlan::Ready(v)
                    && v@ == cm[var@])
                &&& (!cm.contains_key(var@) && sm.contains_key(var@)) ==> (match static_read_spec(
                    sm[var@].value@,
                    sm[var@].coerce,
                ) {
                    Ok(w) => r matches Ok(p) && p matches VarPlan::Ready(v) && v@ == w,
                    Err(k) => r matches Err(e) && e.kind == k,
                })
                &&& (!cm.contains_key(var@) && !sm.contains_key(var@) && em.contains_key(var@))
                    ==> (match env_step(em[var@], var@, default_banned, env.model()) {
                    Ok(w) => r matches Ok(p) && p matches VarPlan::Ready(v) && v@ == w,
                    Err(k) => r matches Err(e) && e.kind == k,
                })
                &&& (!cm.contains_key(var@) && !sm.contains_key(var@) && !em.contains_key(var@)
                    && km.contains_key(var@)) ==> (if self.light {
                    match km[var@].light {
                        Some(d) => match static_read_spec(d.value@, d.coerce) {
                            Ok(w) => r matches Ok(p) && p matches VarPlan::Ready(v) && v@ == w,
                            Err(k) => r matches Err(e) && e.kind == k,
                        },
                        None => r matches Ok(p) && p matches VarPlan::Ready(v) && v@ == Jv::Str(
                            Seq::empty(),
                        ),
                    }
                } else {
                    r matches Ok(p) && p matches VarPlan::RunCommands(cmds) && strs_view(cmds@)
                        == strs_view(km[var@].commands@)
                })
                &&& (!cm.contains_key(var@) && !sm.contains_key(var@) && !em.contains_key(var@)
                    && !km.contains_key(var@)) ==> (r matches Err(e) && e.kind
                    == Zerr::ReadVarMissing && e.notes@.len() == 2 && e.notes@[0]@
                    == missing_var_note_spec(self.conf.context))
            }),
            r matches Err(e) ==> e.notes@.len() >= 1 && e.notes@.last()@ == var_note_spec(var@),
    {
        proof {
            lemma_jv_assoc_rel(self.ctx@, var@);
        }
        match assoc_get(&self.ctx, var) {
            Some(v) => {
                return Ok(VarPlan::Ready(v.duplicate()));
            },
            None => {},
        }
        match assoc_get(&self.conf.context.stat, var) {
            Some(sv) => {
                return match sv.read() {
                    Ok(v) => Ok(VarPlan::Ready(v)),
                    Err(e) => Err(e.note(var_note(var))),
                };
            },
            None => {},
        }
        match assoc_get(&self.conf.context.env, var) {
            Some(ev) => {
                let looked = match &ev.env_name {
                    Some(n) => env.get(n.as_str()),
                    None => env.get(var),
                };
                return match ev.read(var, default_banned, looked) {
                    Ok(v) => Ok(VarPlan::Ready(v)),
                    Err(e) => Err(e.note(var_note(var))),
                };
            },
            None => {},
        }
        match assoc_get(&self.conf.context.cli, var) {
            Some(cv) => {
                if self.light {
                    match &cv.light {
                        Some(d) => match d.read() {
                            Ok(v) => Ok(VarPlan::Ready(v)),
                            Err(e) => Err(e.note(var_note(var))),
                        },
                        None => Ok(VarPlan::Ready(JVal::Str(String::new()))),
                    }
                } else {
                    let mut cmds: Vec<String> = Vec::new();
                    let mut i: usize = 0;
                    while i < cv.commands.len()
                        invariant
                            i <= cv.commands@.len(),
                            cmds@.len() == i,
                            forall|j: int|
                                0 <= j < i ==> #[trigger] cmds@[j]@ == cv.commands@[j]@,
                        decreases cv.commands@.len() - i,
                    {
                        cmds.push(cv.commands[i].clone());
                        i = i + 1;
                    }
                    proof {
                        assert(strs_view(cmds@) =~= strs_view(cv.commands@));
                    }
                    Ok(VarPlan::RunCommands(cmds))
                }
            },
            None => {
                let keys = self.conf.ctx_keys();
                let joined = crate::strutil::join_keys(&keys);
                let mut note: Vec<char> = Vec::new();
                let head = crate::strutil::chars_vec(
                    "Context variable not found in the finalised config. All context keys: '",
                );
                crate::strutil::push_all(&mut note, &head);
                let jv = crate::strutil::chars_vec(joined.as_str());
                crate::strutil::push_all(&mut note, &jv);
                let tail = crate::strutil::chars_vec("'.");
                crate::strutil::push_all(&mut note, &tail);
                proof {
                    assert(note@ =~= missing_var_note_spec(self.conf.context));
                }
                Err(
                    Report::new(Zerr::ReadVarMissing).note(
                        crate::strutil::string_from_chars(&note),
                    ).note(var_note(var)),
                )
            },
        }
    }

    /// Check a ban list: it succeeds exactly when every banned name is a
    /// declared environment variable.
    pub fn validate_ban_list(&self, banned: &Vec<String>) -> (r: Result<(), Report>)
        ensures
            r is Ok <==> (forall|i: int|
                0 <= i < banned@.len() ==> assoc_map(self.conf.context.env@).contains_key(
                    #[trigger] banned@[i]@,
                )),
            r matches Err(e) ==> e.kind == Zerr::ContextLoadError && e.notes@.len() == 1 && (
            exists|i: int|
                0 <= i < banned@.len() && !assoc_map(self.conf.context.env@).contains_key(
                    #[trigger] banned@[i]@,
                ) && e.notes@[0]@ == ban_note_spec(
                    banned@[i]@,
                    crate::assoc::key_col(self.conf.context.env@),
                )),
    {
        let mut i: usize = 0;
        while i < banned.len()
            invariant
                i <= banned@.len(),
                forall|j: int|
                    0 <= j < i ==> assoc_map(self.conf.context.env@).contains_key(
                        #[trigger] banned@[j]@,
                    ),
            decreases banned@.len() - i,
        {
            if !crate::assoc::assoc_contains(&self.conf.context.env, banned[i].as_str()) {
                let keys = crate::assoc::assoc_keys(&self.conf.context.env);
                let sorted = crate::strutil::sort_ci(&keys);
                let joined = crate::strutil::join_keys(&sorted);
                let mut note: Vec<char> = Vec::new();
                let head = crate::strutil::chars_vec("Unrecognized context.env variable '");
                crate::strutil::push_all(&mut note, &head);
                let bv = crate::strutil::chars_vec(banned[i].as_str());
                crate::strutil::push_all(&mut note, &bv);
                let mid = crate::strutil::chars_vec(
                    "' handed to ban-defaults. Declared env vars: '",
                );
                crate::strutil::push_all(&mut note, &mid);
                let jv = crate::strutil::chars_vec(joined.as_str());
                crate::strutil::push_all(&mut note, &jv);
                let tail = crate::strutil::chars_vec("'.");
                crate::strutil::push_all(&mut note, &tail);
                proof {
                    assert(note@ =~= ban_note_spec(
                        banned@[i as int]@,
                        crate::assoc::key_col(self.conf.context.env@),
                    ));
                }
                return Err(
                    Report::new(Zerr::ContextLoadError).note(
                        crate::strutil::string_from_chars(&note),
                    ),
                );
            }
            i = i + 1;
        }
        Ok(())
    }

    /// Whether this run bans a variable's default.
    #[verifier::loop_isolation(false)]
    pub fn is_default_banned(ban: &Option<Vec<String>>, key: &str) -> (r: bool)
        ensures
            r == banned_spec(
                match ban {
                    Some(l) => Some(l@),
                    None => None,
                },
                key@,
            ),
    {
        match ban {
            Some(l) => {
                if l.len() == 0 {
                    return true;
                }
                let mut i: usize = 0;
                while i < l.len()
                    invariant
                        i <= l@.len(),
                        forall|j: int| 0 <= j < i ==> #[trigger] l@[j]@ != key@,
                    decreases l@.len() - i,
                {
                    if crate::values::str_eq(l[i].as_str(), key) {
                        return true;
                    }
                    i = i + 1;
                }
                false
            },
            None => false,
        }
    }
}

/// Resolving the statics: in declaration order, skipping names already
/// resolved, each coercing or failing the whole pass.
pub open spec fn resolve_stat_fold(
    cm: Map<Seq<char>, Jv>,
    stat: Seq<(String, CtxStaticVar)>,
    sm: Map<Seq<char>, CtxStaticVar>,
    i: int,
) -> Result<Map<Seq<char>, Jv>, Zerr>
    decreases stat.len() - i,
    when 0 <= i <= stat.len()
{
    if i >= stat.len() {
        Ok(cm)
    } else {
        let k = stat[i].0@;
        if cm.contains_key(k) {
            resolve_stat_fold(cm, stat, sm, i + 1)
        } else {
            match static_read_spec(sm[k].value@, sm[k].coerce) {
                Ok(w) => resolve_stat_fold(cm.insert(k, w), stat, sm, i + 1),
                Err(e) => Err(e),
            }
        }
    }
}

/// Resolving the environment variables, after the statics, each against
/// the snapshot and the ban list.
pub open spec fn resolve_env_fold(
    cm: Map<Seq<char>, Jv>,
    envd: Seq<(String, CtxEnvVar)>,
    em: Map<Seq<char>, CtxEnvVar>,
    ban: Option<Seq<String>>,
    envm: Map<Seq<char>, String>,
    i: int,
) -> Result<Map<Seq<char>, Jv>, Zerr>
    decreases envd.len() - i,
    when 0 <= i <= envd.len()
{
    if i >= envd.len() {
        Ok(cm)
    } else {
        let k = envd[i].0@;
        if cm.contains_key(k) {
            resolve_env_fold(cm, envd, em, ban, envm, i + 1)
        } else {
            match env_step(em[k], k, banned_spec(ban, k), envm) {
                Ok(w) => resolve_env_fold(cm.insert(k, w), envd, em, ban, envm, i + 1),
                Err(e) => Err(e),
            }
        }
    }
}

/// A ban list is valid when every banned name is a declared environment
/// variable.
pub open spec fn ban_list_valid(ban: Option<Seq<String>>, em: Map<Seq<char>, CtxEnvVar>) -> bool {
    match ban {
        Some(l) => forall|i: int| 0 <= i < l.len() ==> em.contains_key(#[trigger] l[i]@),
        None => true,
    }
}

/// The views of a pending command list.
pub open spec fn pending_view(p: Seq<(String, Vec<String>)>) -> Seq<(Seq<char>, Seq<Seq<char>>)> {
    p.map_values(|e: (String, Vec<String>)| (e.0@, strs_view(e.1@)))
}

/// Resolving the command-derived variables locally: cached names are
/// skipped; on a first run a declared initial value is used instead of
/// running anything; light mode uses the light value, else an empty
/// string; everything else is handed back as pending commands. The flag
/// reports whether any initial value was used.
pub open spec fn cli_fold(
    cm: Map<Seq<char>, Jv>,
    clid: Seq<(String, CtxCliVar)>,
    km: Map<Seq<char>, CtxCliVar>,
    light: bool,
    use_initials: bool,
    i: int,
) -> Result<(Map<Seq<char>, Jv>, Seq<(Seq<char>, Seq<Seq<char>>)>, bool), Zerr>
    decreases clid.len() - i,
    when 0 <= i <= clid.len()
{
    if i >= clid.len() {
        Ok((cm, Seq::empty(), false))
    } else {
        let k = clid[i].0@;
        if cm.contains_key(k) {
            cli_fold(cm, clid, km, light, use_initials, i + 1)
        } else if use_initials && km[k].initial is Some {
            match km[k].initial {
                Some(iv) => match cli_fold(cm.insert(k, iv@), clid, km, light, use_initials, i
                    + 1) {
                    Ok((m, p, _)) => Ok((m, p, true)),
                    Err(e) => Err(e),
                },
                None => Err(Zerr::InternalError),
            }
        } else if light {
            match km[k].light {
                Some(d) => match static_read_spec(d.value@, d.coerce) {
                    Ok(w) => cli_fold(cm.insert(k, w), clid, km, light, use_initials, i + 1),
                    Err(e) => Err(e),
                },
                None => cli_fold(
                    cm.insert(k, Jv::Str(Seq::empty())),
                    clid,
                    km,
                    light,
                    use_initials,
                    i + 1,
                ),
            }
        } else {
            match cli_fold(cm, clid, km, light, use_initials, i + 1) {
                Ok((m, p, u)) => Ok((m, seq![(k, strs_view(km[k].commands@))] + p, u)),
                Err(e) => Err(e),
            }
        }
    }
}

/// Ban-all at the resolution level: with an empty (but present) ban
/// list every default is banned, so a `ContextLoadError` from the
/// environment pass implies some declared variable's looked-up name is
/// absent from the snapshot; and with every looked-up name present, the
/// pass never raises one (a mismatching value is a `CoercionError`).
pub proof fn lemma_ban_all_resolution(
    cm: Map<Seq<char>, Jv>,
    envd: Seq<(String, CtxEnvVar)>,
    em: Map<Seq<char>, CtxEnvVar>,
    ban: Option<Seq<String>>,
    envm: Map<Seq<char>, String>,
    i: int,
)
    requires
        0 <= i <= envd.len(),
        match ban {
            Some(l) => l.len() == 0,
            None => false,
        },
    ensures
        (match resolve_env_fold(cm, envd, em, ban, envm, i) {
            Err(k) => k == Zerr::ContextLoadError,
            Ok(_) => false,
        }) ==> exists|t: int|
            i <= t < envd.len() && !envm.contains_key(
                #[trigger] env_lookup_name(em[envd[t].0@].env_name, envd[t].0@),
            ),
        (forall|t: int|
            i <= t < envd.len() ==> envm.contains_key(
                #[trigger] env_lookup_name(em[envd[t].0@].env_name, envd[t].0@),
            )) ==> !(match resolve_env_fold(cm, envd, em, ban, envm, i) {
            Err(k) => k == Zerr::ContextLoadError,
            Ok(_) => false,
        }),
    decreases envd.len() - i,
{
    if i < envd.len() {
        let k = envd[i].0@;
        if cm.contains_key(k) {
            lemma_ban_all_resolution(cm, envd, em, ban, envm, i + 1);
        } else {
            assert(banned_spec(ban, k));
            let name = env_lookup_name(em[k].env_name, k);
            if envm.contains_key(name) {
                match env_step(em[k], k, banned_spec(ban, k), envm) {
                    Ok(w) => {
                        lemma_ban_all_resolution(cm.insert(k, w), envd, em, ban, envm, i + 1);
                    },
                    Err(kk) => {
                        assert(kk == Zerr::CoercionError);
                    },
                }
            } else {
                assert(env_step(em[k], k, banned_spec(ban, k), envm) == Err::<Jv, Zerr>(
                    Zerr::ContextLoadError,
                ));
            }
        }
    }
}

impl State {
    /// Resolve the statics, then the environment variables, both in
    /// declaration order. A ban list naming an undeclared variable fails
    /// fast with a `ContextLoadError` before anything resolves.
    #[verifier::loop_isolation(false)]
    pub fn resolve_sequential(&mut self, ban_defaults: &Option<Vec<String>>, env: &EnvMap) -> (r:
        Result<(), Report>)
        ensures
            final(self).conf == old(self).conf,
            final(self).final_config_path == old(self).final_config_path,
            final(self).light == old(self).light,
            final(self).superlight == old(self).superlight,
            final(self).from_parent == old(self).from_parent,
            r is Ok ==> (forall|i: int|
                0 <= i < old(self).conf.context.stat@.len()
                    ==> final(self).ctx_model().contains_key(
                    #[trigger] old(self).conf.context.stat@[i].0@,
                )) && (forall|i: int|
                0 <= i < old(self).conf.context.env@.len()
                    ==> final(self).ctx_model().contains_key(
                    #[trigger] old(self).conf.context.env@[i].0@,
                )),
            ({
                let ban = (match ban_defaults {
                    Some(l) => Some(l@),
                    None => None,
                });
                let stat = old(self).conf.context.stat@;
                let envd = old(self).conf.context.env@;
                let sm = assoc_map(stat);
                let em = assoc_map(envd);
                if !ban_list_valid(ban, em) {
                    r matches Err(e) && e.kind == Zerr::ContextLoadError && final(self).ctx
                        == old(self).ctx
                } else {
                    match resolve_stat_fold(old(self).ctx_model(), stat, sm, 0) {
                        Ok(m1) => match resolve_env_fold(m1, envd, em, ban, env.model(), 0) {
                            Ok(m2) => r is Ok && final(self).ctx_model() == m2,
                            Err(k) => r matches Err(e) && e.kind == k,
                        },
                        Err(k) => r matches Err(e) && e.kind == k,
                    }
                }
            }),
    {
        match ban_defaults {
            Some(b) => {
                match self.validate_ban_list(b) {
                    Ok(_) => {
                        proof {
                            assert(ban_list_valid(
                                Some(b@),
                                assoc_map(self.conf.context.env@),
                            ));
                        }
                    },
                    Err(e) => {
                        return Err(e);
                    },
                }
            },
            None => {},
        }
        let ghost stat = self.conf.context.stat@;
        let ghost sm = assoc_map(stat);
        let ghost cm0 = self.ctx_model();
        let n = self.conf.context.stat.len();
        let mut i: usize = 0;
        while i < n
            invariant
                i <= n,
                self.conf == old(self).conf,
                self.final_config_path == old(self).final_config_path,
                self.light == old(self).light,
                self.superlight == old(self).superlight,
                self.from_parent == old(self).from_parent,
                resolve_stat_fold(cm0, stat, sm, 0) == resolve_stat_fold(
                    self.ctx_model(),
                    stat,
                    sm,
                    i as int,
                ),
                forall|t: int| 0 <= t < i ==> self.ctx_model().contains_key(
                    #[trigger] stat[t].0@,
                ),
            decreases n - i,
        {
            let key = self.conf.context.stat[i].0.clone();
            proof {
                crate::assoc::lemma_assoc_map_dom(self.conf.context.stat@, key@);
                lemma_jv_assoc_rel(self.ctx@, key@);
            }
            if !crate::assoc::assoc_contains(&self.ctx, key.as_str()) {
                match self.plan_var(key.as_str(), false, env) {
                    Ok(plan) => match plan {
                        VarPlan::Ready(v) => {
                            self.store_var(key.as_str(), v);
                        },
                        VarPlan::RunCommands(_) => {
                            return Err(Report::new(Zerr::InternalError));
                        },
                    },
                    Err(e) => {
                        return Err(e);
                    },
                }
            }
            i = i + 1;
        }
        let ghost envd = self.conf.context.env@;
        let ghost em = assoc_map(envd);
        let ghost ban = (match ban_defaults {
            Some(l) => Some(l@),
            None => None,
        });
        let ghost m1 = self.ctx_model();
        let ne = self.conf.context.env.len();
        let mut j: usize = 0;
        while j < ne
            invariant
                j <= ne,
                self.conf == old(self).conf,
                self.final_config_path == old(self).final_config_path,
                self.light == old(self).light,
                self.superlight == old(self).superlight,
                self.from_parent == old(self).from_parent,
                resolve_env_fold(m1, envd, em, ban, env.model(), 0) == resolve_env_fold(
                    self.ctx_model(),
                    envd,
                    em,
                    ban,
                    env.model(),
                    j as int,
                ),
                forall|t: int| 0 <= t < stat.len() ==> self.ctx_model().contains_key(
                    #[trigger] stat[t].0@,
                ),
                forall|t: int| 0 <= t < j ==> self.ctx_model().contains_key(
                    #[trigger] envd[t].0@,
                ),
            decreases ne - j,
        {
            let key = self.conf.context.env[j].0.clone();
            proof {
                crate::assoc::lemma_assoc_map_dom(self.conf.context.env@, key@);
                crate::assoc::lemma_assoc_map_dom(self.conf.context.stat@, key@);
                lemma_jv_assoc_rel(self.ctx@, key@);
            }
            if !crate::assoc::assoc_contains(&self.ctx, key.as_str()) {
                let banned = Self::is_default_banned(ban_defaults, key.as_str());
                match self.plan_var(key.as_str(), banned, env) {
                    Ok(plan) => match plan {
                        VarPlan::Ready(v) => {
                            self.store_var(key.as_str(), v);
                        },
                        VarPlan::RunCommands(_) => {
                            return Err(Report::new(Zerr::InternalError));
                        },
                    },
                    Err(e) => {
                        return Err(e);
                    },
                }
            }
            j = j + 1;
        }
        Ok(())
    }

    /// Walk the command-derived variables: resolve what resolves locally
    /// (cached names, initial values on a first run, light values), and
    /// hand back the pending name/commands pairs, with whether any
    /// initial value was used.
    #[verifier::loop_isolation(false)]
    #[verifier::rlimit(100)]
    pub fn resolve_cli_local(&mut self, use_initials: bool) -> (r: Result<
        (Vec<(String, Vec<String>)>, bool),
        Report,
    >)
        ensures
            final(self).conf == old(self).conf,
            final(self).final_config_path == old(self).final_config_path,
            final(self).light == old(self).light,
            final(self).superlight == old(self).superlight,
            final(self).from_parent == old(self).from_parent,
            ({
                let clid = old(self).conf.context.cli@;
                let km = assoc_map(clid);
                match cli_fold(old(self).ctx_model(), clid, km, old(self).light, use_initials, 0) {
                    Ok((m, p, u)) => r matches Ok(pu) && final(self).ctx_model() == m
                        && pending_view(pu.0@) == p && pu.1 == u,
                    Err(k) => r matches Err(e) && e.kind == k,
                }
            }),
    {
        let ghost clid = self.conf.context.cli@;
        let ghost km = assoc_map(clid);
        let ghost cm0 = self.ctx_model();
        let light = self.light;
        let mut pending: Vec<(String, Vec<String>)> = Vec::new();
        let mut used = false;
        let n = self.conf.context.cli.len();
        let mut i: usize = 0;
        proof {
            assert(pending_view(pending@) =~= Seq::<(Seq<char>, Seq<Seq<char>>)>::empty());
        }
        while i < n
            invariant
                i <= n,
                self.conf == old(self).conf,
                self.final_config_path == old(self).final_config_path,
                self.light == old(self).light,
                self.superlight == old(self).superlight,
                self.from_parent == old(self).from_parent,
                cli_fold(cm0, clid, km, light, use_initials, 0) == (match cli_fold(
                    self.ctx_model(),
                    clid,
                    km,
                    light,
                    use_initials,
                    i as int,
                ) {
                    Ok((m2, p2, u2)) => Ok::<_, Zerr>(
                        (m2, pending_view(pending@) + p2, used || u2),
                    ),
                    Err(e) => Err(e),
                }),
            decreases n - i,
        {
            let ghost pend_pre = pending@;
            let ghost cm_in = self.ctx_model();
            let ghost used_pre = used;
            let key = self.conf.context.cli[i].0.clone();
            let ghost gk = key@;
            proof {
                crate::assoc::lemma_assoc_map_dom(self.conf.context.cli@, key@);
                lemma_jv_assoc_rel(self.ctx@, key@);
            }
            if !crate::assoc::assoc_contains(&self.ctx, key.as_str()) {
                let decl_initial: Option<JVal>;
                let decl_light: Option<CtxStaticVar>;
                let decl_cmds: Vec<String>;
                {
                    let var = match assoc_get(&self.conf.context.cli, key.as_str()) {
                        Some(v) => v,
                        None => {
                            return Err(Report::new(Zerr::InternalError));
                        },
                    };
                    decl_initial = match &var.initial {
                        Some(iv) => Some(iv.duplicate()),
                        None => None,
                    };
                    decl_light = match &var.light {
                        Some(d) => Some(
                            CtxStaticVar { value: d.value.duplicate(), coerce: d.coerce },
                        ),
                        None => None,
                    };
                    let mut cmds: Vec<String> = Vec::new();
                    let mut ci: usize = 0;
                    while ci < var.commands.len()
                        invariant
                            ci <= var.commands@.len(),
                            cmds@.len() == ci,
                            forall|cj: int|
                                0 <= cj < ci ==> #[trigger] cmds@[cj]@ == var.commands@[cj]@,
                        decreases var.commands@.len() - ci,
                    {
                        cmds.push(var.commands[ci].clone());
                        ci = ci + 1;
                    }
                    proof {
                        assert(strs_view(cmds@) =~= strs_view(var.commands@));
                    }
                    decl_cmds = cmds;
                }
                let mut initial_taken = false;
                if use_initials {
                    match decl_initial {
                        Some(value) => {
                            self.store_var(key.as_str(), value);
                            used = true;
                            initial_taken = true;
                        },
                        None => {},
                    }
                }
                if !initial_taken {
                    if light {
                        match &decl_light {
                            Some(d) => match d.read() {
                                Ok(w) => {
                                    self.store_var(key.as_str(), w);
                                },
                                Err(e) => {
                                    return Err(e.note(var_note(key.as_str())));
                                },
                            },
                            None => {
                                self.store_var(key.as_str(), JVal::Str(String::new()));
                            },
                        }
                    } else {
                        pending.push((key, decl_cmds));
                    }
                }
            }
            i = i + 1;
            proof {
                if pending@.len() > pend_pre.len() {
                    assert(pending@.drop_last() =~= pend_pre);
                    assert(pending_view(pending@) =~= pending_view(pend_pre).push(
                        (pending@.last().0@, strs_view(pending@.last().1@)),
                    ));
                } else {
                    assert(pending_view(pending@) =~= pending_view(pend_pre));
                }
                match cli_fold(cm_in, clid, km, light, use_initials, i as int) {
                    Ok((m, p, u)) => {
                        assert(pending_view(pend_pre) + (seq![(gk, strs_view(km[gk].commands@))]
                            + p) =~= pending_view(pend_pre).push(
                            (gk, strs_view(km[gk].commands@)),
                        ) + p);
                    },
                    Err(_) => {},
                }
                match cli_fold(self.ctx_model(), clid, km, light, use_initials, i as int) {
                    Ok((m, p, u)) => {
                        assert(pending_view(pend_pre) + (seq![(gk, strs_view(km[gk].commands@))]
                            + p) =~= pending_view(pend_pre).push(
                            (gk, strs_view(km[gk].commands@)),
                        ) + p);
                    },
                    Err(_) => {},
                }
            }
        }
        Ok((pending, used))
    }

    /// Absorb one finished command chain: its trimmed last stdout is the
    /// variable's value, empty output is an error.
    pub fn finish_cli_var(&mut self, name: &str, out: &CmdOut) -> (r: Result<(), Report>)
        requires
            assoc_map(old(self).conf.context.cli@).contains_key(name@),
        ensures
            final(self).conf == old(self).conf,
            final(self).final_config_path == old(self).final_config_path,
            final(self).light == old(self).light,
            final(self).superlight == old(self).superlight,
            final(self).from_parent == old(self).from_parent,
            ({
                let km = assoc_map(old(self).conf.context.cli@);
                match cli_read_spec(km[name@].coerce, out.stdouts@) {
                    Ok(w) => r is Ok && final(self).ctx_model() == old(self).ctx_model().insert(
                        name@,
                        w,
                    ),
                    Err(k) => r matches Err(e) && e.kind == k,
                }
            }),
            r matches Err(e) ==> e.notes@.len() >= 1 && e.notes@.last()@ == var_note_spec(name@),
    {
        let var = match assoc_get(&self.conf.context.cli, name) {
            Some(v) => v,
            None => {
                return Err(Report::new(Zerr::InternalError).note(var_note(name)));
            },
        };
        match var.read_output(out) {
            Ok(v) => {
                self.store_var(name, v);
                Ok(())
            },
            Err(e) => Err(e.note(var_note(name))),
        }
    }
}

} // verus!
