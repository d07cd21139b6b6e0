//! Command and working-directory validation against a security policy.
use crate::models::{PipelineStep, SecurityPolicy};
use crate::text::{
    append_str, chars_of, contains_str, first_word, first_word_of, has_prefix, starts_with, string_of,
    views,
};
use vstd::prelude::*;

verus! {

/// The word `sudo`.
pub open spec fn sudo_word() -> Seq<char> {
    seq!['s', 'u', 'd', 'o']
}

/// A working directory as the policy compares it: absolute paths stay as
/// they are, relative ones get a `./` in front.
pub open spec fn normalized_dir(dir: Seq<char>) -> Seq<char> {
    if dir.len() > 0 && dir[0] == '/' {
        dir
    } else {
        seq!['.', '/'] + dir
    }
}

/// Whether `dir` may be used as a working directory: no allowed list, or
/// one of its entries is a prefix of the normalised directory.
pub open spec fn dir_allowed(dir: Seq<char>, allowed: Seq<Seq<char>>) -> bool {
    allowed.len() == 0 || exists|i: int|
        0 <= i < allowed.len() && has_prefix(normalized_dir(dir), #[trigger] allowed[i])
}

/// Why a step was refused.
#[derive(Debug, Clone, PartialEq, Eq)]
pub enum PolicyError {
    /// The command starts with `sudo` and the policy does not allow it.
    SudoNotAllowed(String),
    /// The first word of the command is a forbidden command.
    ForbiddenCommand(String),
    /// The working directory is outside the allowed directories.
    DirectoryNotAllowed(String),
}

/// Human-readable description of a refusal.
pub open spec fn policy_error_text(e: PolicyError) -> Seq<char> {
    match e {
        PolicyError::SudoNotAllowed(w) => "Sudo is not allowed: "@ + w@,
        PolicyError::ForbiddenCommand(w) => "Forbidden command: "@ + w@,
        PolicyError::DirectoryNotAllowed(d) => "Directory not in allowed list: "@ + d@,
    }
}

impl PolicyError {
    /// Human-readable description of the refusal.
    pub fn message(&self) -> (m: String)
        ensures
            m@ == policy_error_text(*self),
    {
        let mut m = String::new();
        match self {
            PolicyError::SudoNotAllowed(w) => {
                append_str(&mut m, "Sudo is not allowed: ");
                append_str(&mut m, w.as_str());
            },
            PolicyError::ForbiddenCommand(w) => {
                append_str(&mut m, "Forbidden command: ");
                append_str(&mut m, w.as_str());
            },
            PolicyError::DirectoryNotAllowed(d) => {
                append_str(&mut m, "Directory not in allowed list: ");
                append_str(&mut m, d.as_str());
            },
        }
        m
    }
}

/// Checks steps against a global security policy.
pub struct PolicyValidator {
    pub forbidden_commands: Vec<String>,
    allowed_dirs: Vec<String>,
    allow_sudo: bool,
}

/// A copy of a vector of strings.
pub fn clone_strings(v: &Vec<String>) -> (r: Vec<String>)
    ensures
        r@ == v@,
{
    let mut r: Vec<String> = Vec::new();
    let mut i: usize = 0;
    while i < v.len()
        invariant
            i <= v.len(),
            r@ == v@.take(i as int),
        decreases v.len() - i,
    {
        r.push(v[i].clone());
        i += 1;
        assert(r@ =~= v@.take(i as int));
    }
    assert(v@.take(v.len() as int) =~= v@);
    r
}

/// The distinct strings of `v`, each once, in order of first appearance.
pub fn distinct_strings(v: &Vec<String>) -> (r: Vec<String>)
    ensures
        views(r@).no_duplicates(),
        forall|x: Seq<char>| views(r@).contains(x) <==> views(v@).contains(x),
{
    let mut r: Vec<String> = Vec::new();
    let mut i: usize = 0;
    while i < v.len()
        invariant
            i <= v.len(),
            views(r@).no_duplicates(),
            forall|x: Seq<char>| views(r@).contains(x) <==> views(v@.take(i as int)).contains(x),
        decreases v.len() - i,
    {
        let ghost before = views(r@);
        let seen = contains_str(&r, v[i].as_str());
        proof {
            assert(views(v@.take(i + 1)) =~= views(v@.take(i as int)).push(v@[i as int]@));
            if seen {
                let w = choose|w: int| 0 <= w < r@.len() && #[trigger] r@[w]@ == v@[i as int]@;
                assert(before[w] == v@[i as int]@);
            } else {
                assert forall|w: int| 0 <= w < before.len() implies before[w] != v@[i as int]@ by {
                    assert(before[w] == r@[w]@);
                }
            }
        }
        if !seen {
            r.push(v[i].clone());
            proof {
                assert(views(r@) =~= before.push(v@[i as int]@));
            }
        }
        proof {
            broadcast use vstd::seq_lib::lemma_seq_contains_after_push;
            let prefix = views(v@.take(i as int));
            if seen {
                assert(before.contains(v@[i as int]@));
            }
            assert forall|x: Seq<char>| views(r@).contains(x) <==> prefix.push(v@[i as int]@).contains(x) by {
                assert(before.contains(x) <==> prefix.contains(x));
            }
        }
        i += 1;
    }
    assert(v@.take(v.len() as int) =~= v@);
    r
}

/// Whether two character vectors are equal.
pub fn chars_eq(a: &Vec<char>, b: &Vec<char>) -> (r: bool)
    ensures
        r == (a@ == b@),
{
    if a.len() != b.len() {
        return false;
    }
    let mut i: usize = 0;
    while i < a.len()
        invariant
            a.len() == b.len(),
            i <= a.len(),
            forall|k: int| 0 <= k < i ==> a@[k] == b@[k],
        decreases a.len() - i,
    {
        if a[i] != b[i] {
            return false;
        }
        i += 1;
    }
    assert(a@ =~= b@);
    true
}

/// Whether some string of `v` has exactly the characters `w`.
pub fn contains_chars(v: &Vec<String>, w: &Vec<char>) -> (r: bool)
    ensures
        r == views(v@).contains(w@),
{
    let mut i: usize = 0;
    while i < v.len()
        invariant
            i <= v.len(),
            forall|k: int| 0 <= k < i ==> #[trigger] v@[k]@ != w@,
        decreases v.len() - i,
    {
        let cs = chars_of(v[i].as_str());
        if chars_eq(&cs, w) {
            assert(views(v@)[i as int] == w@);
            return true;
        }
        i += 1;
    }
    assert forall|k: int| 0 <= k < views(v@).len() implies views(v@)[k] != w@ by {
        assert(views(v@)[k] == v@[k]@);
    }
    false
}

impl PolicyValidator {
    /// What the validator holds: the forbidden commands (a set: each once),
    /// allowed directories and whether `sudo` is allowed.
    pub closed spec fn forbidden(&self) -> Seq<Seq<char>> {
        views(self.forbidden_commands@)
    }

    pub closed spec fn allowed(&self) -> Seq<Seq<char>> {
        views(self.allowed_dirs@)
    }

    pub closed spec fn sudo_allowed(&self) -> bool {
        self.allow_sudo
    }

    /// Whether `validate` refuses a command: its first word is `sudo` while
    /// `sudo` is not allowed, or a forbidden command.
    pub open spec fn command_refused(&self, cmd: Seq<char>) -> bool {
        match first_word(cmd) {
            Some(w) => (w == sudo_word() && !self.sudo_allowed()) || self.forbidden().contains(w),
            None => false,
        }
    }

    /// Builds a validator from the global policy.
    pub fn new(global_policy: &SecurityPolicy) -> (v: Self)
        ensures
            v.forbidden().no_duplicates(),
            forall|x: Seq<char>|
                v.forbidden().contains(x) <==> views(global_policy.forbidden_cmds@).contains(x),
            v.allowed() == views(global_policy.allowed_dirs@),
            v.sudo_allowed() == global_policy.allow_sudo,
    {
        PolicyValidator {
            forbidden_commands: distinct_strings(&global_policy.forbidden_cmds),
            allowed_dirs: clone_strings(&global_policy.allowed_dirs),
            allow_sudo: global_policy.allow_sudo,
        }
    }

    /// Checks the command and the working directory of a step, in that order.
    pub fn validate(&self, step: &PipelineStep) -> (r: Result<(), PolicyError>)
        ensures
            r is Ok <==> !self.command_refused(step.cmd@) && match step.working_dir {
                Some(d) => dir_allowed(d@, self.allowed()),
                None => true,
            },
            match r {
                Err(PolicyError::SudoNotAllowed(w)) => first_word(step.cmd@) == Some(w@) && w@
                    == sudo_word() && !self.sudo_allowed(),
                Err(PolicyError::ForbiddenCommand(w)) => first_word(step.cmd@) == Some(w@) && !(
                w@ == sudo_word() && !self.sudo_allowed()) && self.forbidden().contains(w@),
                Err(PolicyError::DirectoryNotAllowed(d)) => !self.command_refused(step.cmd@)
                    && step.working_dir is Some && step.working_dir->0@ == d@ && !dir_allowed(
                    d@,
                    self.allowed(),
                ),
                Ok(()) => true,
            },
            !self.command_refused(step.cmd@) ==> forall|i: int|
                0 <= i < self.allowed().len() && step.working_dir is Some && ({
                    let d = step.working_dir->0@;
                    let n = if d.len() > 0 && d[0] == '/' {
                        d
                    } else {
                        seq!['.', '/'] + d
                    };
                    let a = #[trigger] self.allowed()[i];
                    a.len() <= n.len() && n.subrange(0, a.len() as int) == a
                }) ==> r is Ok,
    {
        self.validate_command(step.cmd.as_str())?;
        self.validate_working_dir(&step.working_dir)?;
        Ok(())
    }

    /// Checks a command line: only its first whitespace-separated word is
    /// examined, so `echo x && rm -rf /` passes a policy forbidding `rm`.
    pub fn validate_command(&self, cmd: &str) -> (r: Result<(), PolicyError>)
        ensures
            r is Ok <==> !self.command_refused(cmd@),
            match r {
                Err(PolicyError::SudoNotAllowed(w)) => first_word(cmd@) == Some(w@) && w@
                    == sudo_word() && !self.sudo_allowed(),
                Err(PolicyError::ForbiddenCommand(w)) => first_word(cmd@) == Some(w@) && !(w@
                    == sudo_word() && !self.sudo_allowed()) && self.forbidden().contains(w@),
                Err(PolicyError::DirectoryNotAllowed(_)) => false,
                Ok(()) => true,
            },
    {
        let chars = chars_of(cmd);
        match first_word_of(&chars) {
            Some(word) => {
                let sudo: Vec<char> = vec!['s', 'u', 'd', 'o'];
                assert(sudo@ =~= sudo_word());
                if chars_eq(&word, &sudo) && !self.allow_sudo {
                    let w = string_of(&word, 0, word.len());
                    assert(word@.subrange(0, word@.len() as int) =~= word@);
                    return Err(PolicyError::SudoNotAllowed(w));
                }
                if contains_chars(&self.forbidden_commands, &word) {
                    let w = string_of(&word, 0, word.len());
                    assert(word@.subrange(0, word@.len() as int) =~= word@);
                    return Err(PolicyError::ForbiddenCommand(w));
                }
                Ok(())
            },
            None => Ok(()),
        }
    }

    /// Checks a working directory: allowed when there is no allowed list or
    /// when an allowed entry is a plain string prefix of the normalised
    /// directory (so `/tmpx` passes for `/tmp`).
    pub fn validate_working_dir(&self, dir: &Option<String>) -> (r: Result<(), PolicyError>)
        ensures
            r is Ok <==> match dir {
                Some(d) => dir_allowed(d@, self.allowed()),
                None => true,
            },
            match r {
                Err(PolicyError::DirectoryNotAllowed(d)) => dir is Some && dir->0@ == d@
                    && !dir_allowed(d@, self.allowed()),
                Err(_) => false,
                Ok(()) => true,
            },
            dir is None ==> r is Ok,
            self.allowed().len() == 0 ==> r is Ok,
            forall|i: int|
                0 <= i < self.allowed().len() && dir is Some && ({
                    let d = dir->0@;
                    let n = if d.len() > 0 && d[0] == '/' {
                        d
                    } else {
                        seq!['.', '/'] + d
                    };
                    let a = #[trigger] self.allowed()[i];
                    a.len() <= n.len() && n.subrange(0, a.len() as int) == a
                }) ==> r is Ok,
            dir is Some && self.allowed().len() > 0 && (forall|i: int|
                0 <= i < self.allowed().len() ==> !({
                    let d = dir->0@;
                    let n = if d.len() > 0 && d[0] == '/' {
                        d
                    } else {
                        seq!['.', '/'] + d
                    };
                    let a = #[trigger] self.allowed()[i];
                    a.len() <= n.len() && n.subrange(0, a.len() as int) == a
                })) ==> r is Err,
    {
        match dir {
            Some(dir_path) => {
                if self.allowed_dirs.len() > 0 {
                    let chars = chars_of(dir_path.as_str());
                    let normalized: Vec<char> = if chars.len() > 0 && chars[0] == '/' {
                        chars
                    } else {
                        let mut n: Vec<char> = vec!['.', '/'];
                        let mut i: usize = 0;
                        while i < chars.len()
                            invariant
                                i <= chars.len(),
                                n@ == seq!['.', '/'] + chars@.take(i as int),
                            decreases chars.len() - i,
                        {
                            n.push(chars[i]);
                            i += 1;
                            assert(n@ =~= seq!['.', '/'] + chars@.take(i as int));
                        }
                        assert(chars@.take(chars.len() as int) =~= chars@);
                        n
                    };
                    assert(normalized@ == normalized_dir(dir_path@));
                    let mut i: usize = 0;
                    while i < self.allowed_dirs.len()
                        invariant
                            i <= self.allowed_dirs.len(),
                            *dir == Some(*dir_path),
                            normalized@ == normalized_dir(dir_path@),
                            forall|k: int|
                                0 <= k < i ==> !has_prefix(
                                    normalized@,
                                    #[trigger] self.allowed()[k],
                                ),
                        decreases self.allowed_dirs.len() - i,
                    {
                        let a = chars_of(self.allowed_dirs[i].as_str());
                        assert(self.allowed()[i as int] == self.allowed_dirs@[i as int]@);
                        if starts_with(&normalized, &a) {
                            assert(has_prefix(
                                normalized_dir(dir_path@),
                                self.allowed()[i as int],
                            ));
                            return Ok(());
                        }
                        i += 1;
                    }
                    return Err(PolicyError::DirectoryNotAllowed(dir_path.clone()));
                }
                Ok(())
            },
            None => Ok(()),
        }
    }
}

impl Default for PolicyValidator {
    fn default() -> (v: Self)
        ensures
            v.forbidden().len() == 0,
            v.allowed().len() == 0,
            !v.sudo_allowed(),
    {
        let v = PolicyValidator::new(&SecurityPolicy::default());
        proof {
            if v.forbidden().len() > 0 {
                assert(v.forbidden().contains(v.forbidden()[0]));
            }
        }
        v
    }
}

/// Whether `policy` refuses the command `cmd`: its first word is `sudo`
/// while `sudo` is not allowed, or one of the forbidden commands.
pub open spec fn policy_refuses_command(policy: SecurityPolicy, cmd: Seq<char>) -> bool {
    match first_word(cmd) {
        Some(w) => (w == sudo_word() && !policy.allow_sudo) || views(policy.forbidden_cmds@).contains(w),
        None => false,
    }
}

/// Whether a step passes its own security policy: its command is not
/// refused and its working directory, if any, is allowed.
pub open spec fn policy_permits(step: PipelineStep) -> bool {
    &&& !policy_refuses_command(step.security_policy, step.cmd@)
    &&& match step.working_dir {
        Some(d) => dir_allowed(d@, views(step.security_policy.allowed_dirs@)),
        None => true,
    }
}

/// `e` is the error that checking `step` against its own policy reports:
/// the command is checked first (`sudo`, then the forbidden list), then the
/// working directory.
pub open spec fn policy_refusal(step: PipelineStep, e: PolicyError) -> bool {
    let policy = step.security_policy;
    match e {
        PolicyError::SudoNotAllowed(w) => first_word(step.cmd@) == Some(w@) && w@ == sudo_word()
            && !policy.allow_sudo,
        PolicyError::ForbiddenCommand(w) => first_word(step.cmd@) == Some(w@) && !(w@ == sudo_word()
            && !policy.allow_sudo) && views(policy.forbidden_cmds@).contains(w@),
        PolicyError::DirectoryNotAllowed(d) => !policy_refuses_command(policy, step.cmd@)
            && step.working_dir is Some && step.working_dir->0@ == d@ && !dir_allowed(
            d@,
            views(policy.allowed_dirs@),
        ),
    }
}

/// Checks a step against its own security policy.
pub fn validate_step(step: &PipelineStep) -> (r: Result<(), PolicyError>)
    ensures
        r is Ok <==> policy_permits(*step),
        r is Err ==> policy_refusal(*step, r->Err_0),
{
    let v = PolicyValidator::new(&step.security_policy);
    v.validate(step)
}

/// A validator built from a policy refuses exactly the commands and
/// directories the policy does: its checks read the policy's forbidden
/// commands, allowed directories and `sudo` setting.
pub proof fn lemma_validator_follows_policy(p: SecurityPolicy, v: PolicyValidator, cmd: Seq<char>, dir: Seq<char>)
    requires
        forall|x: Seq<char>| v.forbidden().contains(x) <==> views(p.forbidden_cmds@).contains(x),
        v.allowed() == views(p.allowed_dirs@),
        v.sudo_allowed() == p.allow_sudo,
    ensures
        v.command_refused(cmd) == policy_refuses_command(p, cmd),
        dir_allowed(dir, v.allowed()) == dir_allowed(dir, views(p.allowed_dirs@)),
{
}

} // verus!
