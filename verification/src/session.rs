//! Decisions of the interactive session: when the user wants to leave, how
//! failed requests are retried, which workspace instruction file is used,
//! and the text of the system prompt.
use vstd::prelude::*;
use vstd::arithmetic::power2::{pow2, lemma_pow2_unfold, lemma_pow2_strictly_increases, lemma2_to64};
use crate::text::{trim, trim_spec};

verus! {

/// The inputs that end the session, once white space is trimmed.
pub open spec fn is_exit_spec(input: Seq<char>) -> bool {
    let t = trim_spec(input);
    t == "exit"@ || t == ":q"@ || t == ":x"@
}

/// Whether the user's input ends the session: `exit`, `:q` or `:x`, with
/// any white space around it.
pub fn is_exit_command(input: &str) -> (b: bool)
    ensures
        b == is_exit_spec(input@),
{
    let t = trim(input);
    let a = String::from_str("exit");
    let b = String::from_str(":q");
    let c = String::from_str(":x");
    t == a || t == b || t == c
}

/// The number of attempts a request gets.
pub open spec fn max_retries_spec() -> u32 {
    5
}

/// The number of attempts a request gets.
pub fn max_retries() -> (n: u32)
    ensures
        n == max_retries_spec(),
{
    5
}

/// What to do after a failed attempt.
#[derive(Debug, Clone, Copy, PartialEq, Eq)]
pub enum RetryStep {
    /// Wait this many seconds, then try again.
    RetryAfter(u64),
    /// Stop trying.
    GiveUp,
}

/// After `attempts` failed attempts out of `max`: give up once all are
/// used, else wait 2 to the power of `attempts` seconds.
pub open spec fn retry_spec(attempts: u32, max: u32) -> RetryStep {
    if attempts >= max {
        RetryStep::GiveUp
    } else {
        RetryStep::RetryAfter(pow2(attempts as nat) as u64)
    }
}

/// What to do once `attempts` attempts (counting the one that just failed)
/// have failed, out of `max` allowed (see `retry_spec`). A delay must fit
/// in a `u64`, so at most 64 attempts may be allowed.
pub fn after_failure(attempts: u32, max: u32) -> (r: RetryStep)
    requires
        max <= 64,
    ensures
        r == retry_spec(attempts, max),
{
    if attempts >= max {
        return RetryStep::GiveUp;
    }
    let mut d: u64 = 1;
    let mut j: u32 = 0;
    proof {
        lemma2_to64();
    }
    while j < attempts
        invariant
            j <= attempts < 64,
            d as nat == pow2(j as nat),
        decreases attempts - j,
    {
        proof {
            lemma_pow2_unfold((j + 1) as nat);
            lemma_pow2_strictly_increases((j + 1) as nat, 64);
            lemma2_to64();
        }
        d = d * 2;
        j += 1;
    }
    RetryStep::RetryAfter(d)
}

/// Every retry waits twice as long as the one before it.
pub proof fn lemma_retry_delays_double(attempts: u32, max: u32)
    requires
        0 < attempts,
        attempts < max,
        max <= 64,
    ensures
        retry_spec(attempts, max) matches RetryStep::RetryAfter(d) && retry_spec(
            (attempts - 1) as u32,
            max,
        ) matches RetryStep::RetryAfter(p) && d == 2 * p,
{
    lemma_pow2_unfold(attempts as nat);
    lemma_pow2_strictly_increases(attempts as nat, 64);
    lemma2_to64();
}


/// The workspace files that may hold extra instructions, in the order they
/// are considered.
pub fn instruction_files() -> (r: Vec<&'static str>)
    ensures
        r@.len() == 1,
        r@[0]@ == "AGENTS.md"@,
{
    let mut v: Vec<&'static str> = Vec::new();
    v.push("AGENTS.md");
    v
}

/// `i` is the file to use among candidates with modification times
/// `times` (`None` for one whose time could not be read): its time is
/// known, no other known time is later, and no earlier one is as late.
pub open spec fn is_newest(times: Seq<Option<i128>>, i: int) -> bool {
    &&& 0 <= i < times.len()
    &&& times[i] is Some
    &&& forall|j: int| 0 <= j < times.len() && times[j] is Some ==> times[j]->0 <= times[i]->0
    &&& forall|j: int| 0 <= j < i && times[j] is Some ==> times[j]->0 < times[i]->0
}

/// The candidate with the latest known modification time, the first one
/// among equals; `None` when no time is known.
pub fn newest_file(times: &Vec<Option<i128>>) -> (r: Option<usize>)
    ensures
        match r {
            Some(i) => is_newest(times@, i as int),
            None => forall|j: int| 0 <= j < times@.len() ==> times@[j] is None,
        },
{
    let mut best: Option<usize> = None;
    let mut i: usize = 0;
    while i < times.len()
        invariant
            i <= times@.len(),
            match best {
                Some(b) => b < i && is_newest(times@.take(i as int), b as int),
                None => forall|j: int| 0 <= j < i ==> times@[j] is None,
            },
        decreases times@.len() - i,
    {
        let ghost pre = times@.take(i as int);
        proof {
            assert(times@.take(i + 1).drop_last() =~= pre);
        }
        match times[i] {
            Some(t) => {
                match best {
                    None => {
                        best = Some(i);
                    },
                    Some(b) => {
                        let bt = match times[b] {
                            Some(x) => x,
                            None => 0,
                        };
                        if t > bt {
                            best = Some(i);
                        }
                    },
                }
            },
            None => {},
        }
        proof {
            let now = times@.take(i + 1);
            match best {
                Some(b) => {
                    assert forall|j: int| 0 <= j < now.len() && now[j] is Some implies now[j]->0
                        <= now[b as int]->0 by {
                        if j < i {
                            assert(now[j] == pre[j]);
                        }
                    }
                    assert forall|j: int| 0 <= j < b && now[j] is Some implies now[j]->0
                        < now[b as int]->0 by {
                        if j < i {
                            assert(now[j] == pre[j]);
                        }
                    }
                },
                None => {},
            }
        }
        i += 1;
    }
    proof {
        assert(times@.take(i as int) =~= times@);
    }
    best
}

/// The text added to the system prompt for a workspace instruction file.
pub open spec fn extra_instructions_spec(name: Seq<char>, content: Seq<char>) -> Seq<char> {
    "\n\nAdditional workspace instructions (from "@ + name + "):\n\n"@ + content
}

/// The text added to the system prompt for the instruction file `name`
/// holding `content`.
pub fn extra_instructions(name: &str, content: &str) -> (r: String)
    ensures
        r@ == extra_instructions_spec(name@, content@),
{
    let mut s = String::from_str("\n\nAdditional workspace instructions (from ");
    s.append(name);
    s.append("):\n\n");
    s.append(content);
    s
}

/// The base system prompt.
pub open spec fn base_prompt_spec() -> Seq<char> {
    "You are a careful, fast coding agent.\n- Never modify files unless the user explicitly asks for changes.\n- To inspect files, always use read_file first and prefer offset/length to avoid large reads.\n- Use list_dir_contents to explore directories before reading. Keep answers concise."@
}

/// The system prompt: the base prompt, followed by the workspace's extra
/// instructions when there are any.
pub fn system_prompt(extra: Option<String>) -> (r: String)
    ensures
        r@ == match extra {
            Some(e) => base_prompt_spec() + e@,
            None => base_prompt_spec(),
        },
{
    let mut s = String::from_str(
        "You are a careful, fast coding agent.\n- Never modify files unless the user explicitly asks for changes.\n- To inspect files, always use read_file first and prefer offset/length to avoid large reads.\n- Use list_dir_contents to explore directories before reading. Keep answers concise.",
    );
    if let Some(e) = extra {
        s.append(e.as_str());
    }
    s
}

/// The directories searched for Lua tools: the plugin directories, then
/// `lua_tools` under the working directory.
pub fn lua_tool_dirs(plugin_dirs: Vec<String>) -> (r: Vec<String>)
    ensures
        r@.len() == plugin_dirs@.len() + 1,
        forall|i: int| 0 <= i < plugin_dirs@.len() ==> r@[i] == plugin_dirs@[i],
        r@[plugin_dirs@.len() as int]@ == "lua_tools"@,
{
    let mut r = plugin_dirs;
    r.push(String::from_str("lua_tools"));
    r
}

} // verus!
