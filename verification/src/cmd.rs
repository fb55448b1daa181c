//! Captured output of a user command chain: the commands, and one stdout
//! and stderr per command that ran. The processes themselves run outside;
//! this type owns what is decided from their output.
use vstd::prelude::*;

use crate::strutil::{chars_vec, push_all, string_from_chars};

verus! {

/// The trimmed-nothing, raw text of the last command's stdout; empty when
/// nothing ran.
pub open spec fn last_stdout_spec(stdouts: Seq<String>) -> Seq<char> {
    if stdouts.len() == 0 {
        Seq::empty()
    } else {
        stdouts.last()@
    }
}

/// One formatted block per command: the command, its stdout and its
/// stderr.
pub open spec fn fmt_block(c: Seq<char>, o: Seq<char>, e: Seq<char>) -> Seq<char> {
    "Command: '"@ + c + "'\nStdout:\n"@ + o + "\nStderr:\n"@ + e
}

/// Captured output of a run command chain.
pub struct CmdOut {
    pub commands: Vec<String>,
    pub stdouts: Vec<String>,
    pub stderrs: Vec<String>,
}

impl CmdOut {
    pub fn new(commands: Vec<String>, stdouts: Vec<String>, stderrs: Vec<String>) -> (r: CmdOut)
        ensures
            r.commands == commands,
            r.stdouts == stdouts,
            r.stderrs == stderrs,
    {
        CmdOut { commands, stdouts, stderrs }
    }

    /// The last command's stdout, or nothing when no command ran.
    pub fn last_stdout(&self) -> (r: &str)
        ensures
            r@ == last_stdout_spec(self.stdouts@),
    {
        let n = self.stdouts.len();
        if n == 0 {
            proof {
                reveal_strlit("");
                assert(""@ =~= Seq::<char>::empty());
            }
            ""
        } else {
            self.stdouts[n - 1].as_str()
        }
    }

    /// One displayable block per command that has both its outputs
    /// captured, in order.
    pub fn iter_formatted_commands_and_outputs(&self) -> (r: Vec<String>)
        ensures
            r@.len() == min3(self.commands@.len(), self.stdouts@.len(), self.stderrs@.len()),
            forall|i: int|
                0 <= i < r@.len() ==> #[trigger] r@[i]@ == fmt_block(
                    self.commands@[i]@,
                    self.stdouts@[i]@,
                    self.stderrs@[i]@,
                ),
    {
        let mut n = self.commands.len();
        if self.stdouts.len() < n {
            n = self.stdouts.len();
        }
        if self.stderrs.len() < n {
            n = self.stderrs.len();
        }
        let mut out: Vec<String> = Vec::new();
        let mut i: usize = 0;
        while i < n
            invariant
                i <= n,
                n == min3(self.commands@.len(), self.stdouts@.len(), self.stderrs@.len()),
                out@.len() == i,
                forall|j: int|
                    0 <= j < i ==> #[trigger] out@[j]@ == fmt_block(
                        self.commands@[j]@,
                        self.stdouts@[j]@,
                        self.stderrs@[j]@,
                    ),
            decreases n - i,
        {
            let mut block: Vec<char> = Vec::new();
            let head = chars_vec("Command: '");
            push_all(&mut block, &head);
            let cv = chars_vec(self.commands[i].as_str());
            push_all(&mut block, &cv);
            let mid = chars_vec("'\nStdout:\n");
            push_all(&mut block, &mid);
            let ov = chars_vec(self.stdouts[i].as_str());
            push_all(&mut block, &ov);
            let tail = chars_vec("\nStderr:\n");
            push_all(&mut block, &tail);
            let ev = chars_vec(self.stderrs[i].as_str());
            push_all(&mut block, &ev);
            proof {
                assert(block@ =~= fmt_block(
                    self.commands@[i as int]@,
                    self.stdouts@[i as int]@,
                    self.stderrs@[i as int]@,
                ));
            }
            let s = string_from_chars(&block);
            out.push(s);
            i = i + 1;
        }
        out
    }
}

/// The least of three lengths.
pub open spec fn min3(a: nat, b: nat, c: nat) -> nat {
    if a <= b && a <= c {
        a
    } else if b <= c {
        b
    } else {
        c
    }
}

} // verus!
