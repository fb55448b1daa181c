//! Pre/post task orchestration. A task is an ordered list of shell
//! commands. This module decides what runs, where, and with which
//! environment; executing the processes is the caller's. A process-wide
//! guard variable forbids tasks from re-invoking task-bearing commands.
use vstd::prelude::*;

use crate::error::{Report, Zerr};
use crate::walker::{rslash_from, strs_view};

verus! {

/// The guard variable set while a task runs.
pub fn in_task_env_var() -> (r: &'static str)
    ensures
        r@ == "ZETCH_IN_TASK"@,
{
    "ZETCH_IN_TASK"
}

/// The variable carrying the serialized parent state's path for post
/// tasks.
pub fn cached_state_env_var() -> (r: &'static str)
    ensures
        r@ == "ZETCH_TMP_STORED_CONFIG_PATH"@,
{
    "ZETCH_TMP_STORED_CONFIG_PATH"
}

/// The directory part of a path: the text before its last `/`, the root
/// slash kept; `None` for a bare `/` or an empty path.
pub open spec fn parent_dir_spec(p: Seq<char>) -> Option<Seq<char>> {
    if p.len() == 0 || p == "/"@ {
        None
    } else {
        match rslash_from(p, p.len() - 1) {
            Some(i) => if i == 0 {
                Some("/"@)
            } else {
                Some(p.subrange(0, i))
            },
            None => Some(Seq::empty()),
        }
    }
}

/// The directory a task's commands run in.
pub fn parent_dir(p: &str) -> (r: Option<String>)
    ensures
        match parent_dir_spec(p@) {
            Some(d) => r matches Some(x) && x@ == d,
            None => r is None,
        },
{
    let pv = crate::strutil::chars_vec(p);
    if pv.len() == 0 {
        return None;
    }
    let (dir, _name) = crate::walker::split_path(&pv);
    proof {
        reveal_strlit("/");
        crate::walker::lemma_rslash_bounds(pv@, pv@.len() - 1);
    }
    if pv.len() == 1 && pv[0] == '/' {
        proof {
            assert(pv@ =~= "/"@);
        }
        return None;
    }
    proof {
        assert(pv@ != "/"@) by {
            if pv@ == "/"@ {
                assert(pv@.len() == 1 && pv@[0] == '/');
            }
        }
    }
    if dir.len() == 0 {
        proof {
            match rslash_from(pv@, pv@.len() - 1) {
                Some(i) => {
                    assert(dir@ == pv@.subrange(0, i + 1));
                    assert(dir@.len() == i + 1);
                },
                None => {},
            }
            assert(rslash_from(pv@, pv@.len() - 1) is None);
        }
        return Some(String::new());
    }
    // `dir` ends with the slash; drop it unless it is the root slash.
    if dir.len() == 1 {
        proof {
            let i = (match rslash_from(pv@, pv@.len() - 1) {
                Some(i) => i,
                None => 0,
            });
            assert(dir@ == pv@.subrange(0, i + 1));
            assert(i == 0);
            assert(dir@[0] == pv@[0] && pv@[0] == '/');
            assert(dir@ =~= "/"@);
        }
        return Some(crate::strutil::string_from_chars(&dir));
    }
    let mut out: Vec<char> = Vec::new();
    let e = dir.len() - 1;
    crate::strutil::push_range(&mut out, &dir, 0, e);
    proof {
        let i = (match rslash_from(pv@, pv@.len() - 1) {
            Some(i) => i,
            None => 0,
        });
        assert(dir@ == pv@.subrange(0, i + 1));
        assert(out@ =~= pv@.subrange(0, i));
    }
    Some(crate::strutil::string_from_chars(&out))
}

/// One task execution handed to the caller: the commands, the working
/// directory, and the environment variables to set.
pub struct TaskRun {
    pub commands: Vec<String>,
    pub workdir: String,
    pub env: Vec<(String, String)>,
}

/// An ordered list of shell commands.
pub struct Task {
    pub commands: Vec<String>,
}

/// The views of an environment-variable list.
pub open spec fn pairs_view(s: Seq<(String, String)>) -> Seq<(Seq<char>, Seq<char>)> {
    s.map_values(|p: (String, String)| (p.0@, p.1@))
}

/// The environment a task is launched with: the recursion guard, and for
/// post tasks the cached state path.
pub open spec fn task_env_spec(cached: Option<Seq<char>>) -> Seq<(Seq<char>, Seq<char>)> {
    seq![("ZETCH_IN_TASK"@, "1"@)] + (match cached {
        Some(p) => seq![("ZETCH_TMP_STORED_CONFIG_PATH"@, p)],
        None => Seq::<(Seq<char>, Seq<char>)>::empty(),
    })
}

impl Task {
    /// Plan one task run; with the guard already set this fails at once
    /// with a `TaskRecursionError` and plans no command.
    pub fn run(&self, config_filepath: &str, cached_state_loc: Option<&String>, guard_active: bool)
        -> (r: Result<TaskRun, Report>)
        ensures
            guard_active ==> (r matches Err(e) && e.kind == Zerr::TaskRecursionError),
            !guard_active ==> match parent_dir_spec(config_filepath@) {
                Some(d) => r matches Ok(t) && strs_view(t.commands@) == strs_view(self.commands@)
                    && t.workdir@ == d && pairs_view(t.env@) == task_env_spec(
                    match cached_state_loc {
                        Some(c) => Some(c@),
                        None => None,
                    },
                ),
                None => r matches Err(e) && e.kind == Zerr::InternalError,
            },
    {
        if guard_active {
            let mut note = String::new();
            note.append(
                "Tasks are being run recursively. Do not invoke a task-bearing command from inside a task.",
            );
            return Err(Report::new(Zerr::TaskRecursionError).note(note));
        }
        let workdir = match parent_dir(config_filepath) {
            Some(d) => d,
            None => {
                let mut note = String::new();
                note.append("Failed to get the parent directory of the config file.");
                return Err(Report::new(Zerr::InternalError).note(note));
            },
        };
        let mut env: Vec<(String, String)> = Vec::new();
        env.push((in_task_env_var().to_owned(), "1".to_owned()));
        match cached_state_loc {
            Some(c) => {
                env.push((cached_state_env_var().to_owned(), c.clone()));
            },
            None => {},
        }
        let mut commands: Vec<String> = Vec::new();
        let mut i: usize = 0;
        while i < self.commands.len()
            invariant
                i <= self.commands@.len(),
                commands@.len() == i,
                forall|j: int| 0 <= j < i ==> #[trigger] commands@[j]@ == self.commands@[j]@,
            decreases self.commands@.len() - i,
        {
            commands.push(self.commands[i].clone());
            i = i + 1;
        }
        proof {
            assert(strs_view(commands@) =~= strs_view(self.commands@));
            assert(pairs_view(env@) =~= task_env_spec(
                match cached_state_loc {
                    Some(c) => Some(c@),
                    None => None,
                },
            ));
        }
        Ok(TaskRun { commands, workdir, env })
    }
}

/// The declared pre and post task lists.
pub struct Tasks {
    pub pre: Vec<Task>,
    pub post: Vec<Task>,
}

impl Tasks {
    /// An empty task set.
    pub fn default() -> (r: Tasks)
        ensures
            r.pre@.len() == 0,
            r.post@.len() == 0,
    {
        Tasks { pre: Vec::new(), post: Vec::new() }
    }

    /// Plan the pre tasks, which get no special environment beyond the
    /// recursion guard. With the guard set and any task declared, this
    /// fails before planning anything; with the guard clear, one run per
    /// task is owed, in declared order, in the config file's directory.
    pub fn run_pre(&self, config_filepath: &str, guard_active: bool) -> (r: Result<
        Vec<TaskRun>,
        Report,
    >)
        ensures
            guard_active && self.pre@.len() > 0 ==> (r matches Err(e) && e.kind
                == Zerr::TaskRecursionError),
            self.pre@.len() == 0 ==> (r matches Ok(runs) && runs@.len() == 0),
            !guard_active ==> match parent_dir_spec(config_filepath@) {
                Some(d) => r matches Ok(runs) && plans_match(runs@, self.pre@, d, None),
                None => self.pre@.len() > 0 ==> (r matches Err(e) && e.kind
                    == Zerr::InternalError),
            },
            r matches Ok(runs) ==> runs@.len() == self.pre@.len() && (forall|i: int|
                0 <= i < runs@.len() ==> strs_view(#[trigger] runs@[i].commands@) == strs_view(
                    self.pre@[i].commands@,
                )),
    {
        self.plan_all(&self.pre, config_filepath, None, guard_active)
    }

    /// Plan the post tasks: each also carries the serialized parent
    /// state's path, so its subprocesses reuse the finalized state. The
    /// same guard and success obligations hold as for the pre tasks.
    pub fn run_post(&self, config_filepath: &str, cached_state_loc: &String, guard_active: bool)
        -> (r: Result<Vec<TaskRun>, Report>)
        ensures
            guard_active && self.post@.len() > 0 ==> (r matches Err(e) && e.kind
                == Zerr::TaskRecursionError),
            self.post@.len() == 0 ==> (r matches Ok(runs) && runs@.len() == 0),
            !guard_active ==> match parent_dir_spec(config_filepath@) {
                Some(d) => r matches Ok(runs) && plans_match(
                    runs@,
                    self.post@,
                    d,
                    Some(cached_state_loc@),
                ),
                None => self.post@.len() > 0 ==> (r matches Err(e) && e.kind
                    == Zerr::InternalError),
            },
            r matches Ok(runs) ==> runs@.len() == self.post@.len() && (forall|i: int|
                0 <= i < runs@.len() ==> strs_view(#[trigger] runs@[i].commands@) == strs_view(
                    self.post@[i].commands@,
                )),
    {
        self.plan_all(&self.post, config_filepath, Some(cached_state_loc), guard_active)
    }

    fn plan_all(
        &self,
        tasks: &Vec<Task>,
        config_filepath: &str,
        cached_state_loc: Option<&String>,
        guard_active: bool,
    ) -> (r: Result<Vec<TaskRun>, Report>)
        ensures
            guard_active && tasks@.len() > 0 ==> (r matches Err(e) && e.kind
                == Zerr::TaskRecursionError),
            tasks@.len() == 0 ==> (r matches Ok(runs) && runs@.len() == 0),
            !guard_active ==> match parent_dir_spec(config_filepath@) {
                Some(d) => r matches Ok(runs) && plans_match(
                    runs@,
                    tasks@,
                    d,
                    match cached_state_loc {
                        Some(c) => Some(c@),
                        None => None,
                    },
                ),
                None => tasks@.len() > 0 ==> (r matches Err(e) && e.kind == Zerr::InternalError),
            },
            r matches Ok(runs) ==> runs@.len() == tasks@.len() && (forall|i: int|
                0 <= i < runs@.len() ==> strs_view(#[trigger] runs@[i].commands@) == strs_view(
                    tasks@[i].commands@,
                )),
    {
        let ghost cached = (match cached_state_loc {
            Some(c) => Some(c@),
            None => None,
        });
        let mut runs: Vec<TaskRun> = Vec::new();
        let mut i: usize = 0;
        while i < tasks.len()
            invariant
                i <= tasks@.len(),
                runs@.len() == i,
                i > 0 ==> !guard_active,
                cached == (match cached_state_loc {
                    Some(c) => Some(c@),
                    None => None,
                }),
                forall|j: int|
                    0 <= j < i ==> strs_view(#[trigger] runs@[j].commands@) == strs_view(
                        tasks@[j].commands@,
                    ),
                i > 0 ==> (parent_dir_spec(config_filepath@) matches Some(d) && (forall|j: int|
                    0 <= j < i ==> #[trigger] runs@[j].workdir@ == d && pairs_view(
                        runs@[j].env@,
                    ) == task_env_spec(cached))),
            decreases tasks@.len() - i,
        {
            match tasks[i].run(config_filepath, cached_state_loc, guard_active) {
                Ok(t) => {
                    runs.push(t);
                    proof {
                        assert(!guard_active);
                        match parent_dir_spec(config_filepath@) {
                            Some(d) => {
                                assert(runs@[i as int].workdir@ == d);
                                assert(pairs_view(runs@[i as int].env@) == task_env_spec(cached));
                            },
                            None => {
                                assert(false);
                            },
                        }
                    }
                },
                Err(e) => {
                    return Err(e);
                },
            }
            i = i + 1;
        }
        Ok(runs)
    }
}

/// Every planned run carries its task's commands, the given working
/// directory, and the given environment.
pub open spec fn plans_match(
    runs: Seq<TaskRun>,
    tasks: Seq<Task>,
    workdir: Seq<char>,
    cached: Option<Seq<char>>,
) -> bool {
    runs.len() == tasks.len() && forall|i: int|
        0 <= i < runs.len() ==> strs_view(#[trigger] runs[i].commands@) == strs_view(
            tasks[i].commands@,
        ) && runs[i].workdir@ == workdir && pairs_view(runs[i].env@) == task_env_spec(cached)
}

} // verus!
