//! Local workspace layout and the agent configuration.

use vstd::prelude::*;
use crate::string_map::StringMap;
use crate::text::{
    chars_of, decimal, decimal_exec, lemma_decimal_digits, lemma_decimal_injective, push_chars,
    push_str, replace_all, replace_all_exec, string_of,
};

verus! {

/// `base` with `rel` appended as a path component, as `Path::join` does on
/// Unix: an absolute `rel` replaces `base`, and a separator is added unless
/// `base` is empty or already ends with one.
pub open spec fn path_join(base: Seq<char>, rel: Seq<char>) -> Seq<char> {
    if rel.len() > 0 && rel[0] == '/' {
        rel
    } else if base.len() == 0 || base.last() == '/' {
        base + rel
    } else {
        base + seq!['/'] + rel
    }
}

/// Joins a path component onto a base path (see [`path_join`]).
pub fn join_path(base: &[char], rel: &[char]) -> (res: Vec<char>)
    ensures
        res@ == path_join(base@, rel@),
{
    let mut out: Vec<char> = Vec::new();
    if rel.len() > 0 && rel[0] == '/' {
        push_chars(&mut out, rel);
    } else if base.len() == 0 || base[base.len() - 1] == '/' {
        push_chars(&mut out, base);
        push_chars(&mut out, rel);
    } else {
        push_chars(&mut out, base);
        out.push('/');
        push_chars(&mut out, rel);
    }
    out
}

/// The name of an issue's directory: `<repo>-<issue number>`.
pub open spec fn issue_dir_name(repo_name: Seq<char>, issue_id: u64) -> Seq<char> {
    repo_name + seq!['-'] + decimal(issue_id as nat)
}

/// The directory under which every issue gets a workspace.
pub struct Workspace {
    pub base_dir: String,
}

impl Workspace {
    /// The workspace directory of an issue: `<base>/<repo>-<issue number>`.
    pub fn get_issue_dir(&self, repo_name: &str, issue_id: u64) -> (res: String)
        ensures
            res@ == path_join(self.base_dir@, issue_dir_name(repo_name@, issue_id)),
    {
        let mut name = chars_of(repo_name);
        name.push('-');
        let digits = decimal_exec(issue_id);
        push_chars(&mut name, digits.as_slice());
        let base = chars_of(self.base_dir.as_str());
        let dir = join_path(base.as_slice(), name.as_slice());
        string_of(dir.as_slice())
    }

    /// The directory of an issue's audit logs:
    /// `<base>/audit/<repo>/<issue number>`.
    pub fn audit_dir_path(&self, repo_name: &str, issue_id: u64) -> (res: String)
        ensures
            res@ == path_join(
                path_join(path_join(self.base_dir@, "audit"@), repo_name@),
                decimal(issue_id as nat),
            ),
    {
        let base = chars_of(self.base_dir.as_str());
        let audit = chars_of("audit");
        let repo = chars_of(repo_name);
        let digits = decimal_exec(issue_id);
        let a = join_path(base.as_slice(), audit.as_slice());
        let b = join_path(a.as_slice(), repo.as_slice());
        let c = join_path(b.as_slice(), digits.as_slice());
        string_of(c.as_slice())
    }

    /// Where the agent configuration lives: `<base>/config.yaml`.
    pub fn config_path(&self) -> (res: String)
        ensures
            res@ == path_join(self.base_dir@, "config.yaml"@),
    {
        let base = chars_of(self.base_dir.as_str());
        let file = chars_of("config.yaml");
        let p = join_path(base.as_slice(), file.as_slice());
        string_of(p.as_slice())
    }
}

/// `base` as the parent of a path component: `base` followed by a
/// separator unless it is empty or already ends with one.
pub open spec fn dir_prefix(base: Seq<char>) -> Seq<char> {
    if base.len() == 0 || base.last() == '/' {
        base
    } else {
        base + seq!['/']
    }
}

/// A single path component: non-empty, without a separator, and neither
/// `.` nor `..`.
pub open spec fn is_component(name: Seq<char>) -> bool {
    name.len() > 0 && !name.contains('/') && name != seq!['.'] && name != seq!['.', '.']
}

/// Issue directories are distinct children of the base directory: for a
/// repository name that is a single path component, the issue directory is
/// `base` joined with one component, and two different (repository, issue)
/// pairs never share a directory.
pub proof fn law_issue_dirs_are_distinct_children(
    base: Seq<char>,
    repo1: Seq<char>,
    id1: u64,
    repo2: Seq<char>,
    id2: u64,
)
    requires
        is_component(repo1),
        is_component(repo2),
    ensures
        path_join(base, issue_dir_name(repo1, id1)) == dir_prefix(base) + issue_dir_name(
            repo1,
            id1,
        ),
        is_component(issue_dir_name(repo1, id1)),
        (repo1, id1) != (repo2, id2) ==> path_join(base, issue_dir_name(repo1, id1)) != path_join(
            base,
            issue_dir_name(repo2, id2),
        ),
{
    let a = issue_dir_name(repo1, id1);
    let b = issue_dir_name(repo2, id2);
    let d1 = decimal(id1 as nat);
    let d2 = decimal(id2 as nat);
    lemma_decimal_digits(id1 as nat);
    lemma_decimal_digits(id2 as nat);
    assert(a[0] == repo1[0]);
    assert(repo1[0] != '/') by {
        if repo1[0] == '/' {
            assert(repo1.contains('/'));
        }
    }
    assert(b[0] == repo2[0]);
    assert(repo2[0] != '/') by {
        if repo2[0] == '/' {
            assert(repo2.contains('/'));
        }
    }
    assert(!a.contains('/')) by {
        if a.contains('/') {
            let i = choose|i: int| 0 <= i < a.len() && a[i] == '/';
            if i < repo1.len() {
                assert(repo1[i] == '/');
                assert(repo1.contains('/'));
            } else if i > repo1.len() {
                assert(a[i] == d1[i - repo1.len() - 1]);
            }
        }
    }
    assert(a != seq!['.']) by {
        if a == seq!['.'] {
            assert(a.len() >= 3);
        }
    }
    assert(a != seq!['.', '.']) by {
        if a == seq!['.', '.'] {
            assert(a.len() >= 3);
        }
    }
    if (repo1, id1) != (repo2, id2) && path_join(base, a) == path_join(base, b) {
        let pre = dir_prefix(base);
        assert(path_join(base, a) == pre + a);
        assert(path_join(base, b) == pre + b);
        assert(a =~= (pre + a).skip(pre.len() as int));
        assert(b =~= (pre + b).skip(pre.len() as int));
        assert(a == b);
        let l1 = repo1.len() as int;
        let l2 = repo2.len() as int;
        assert(a[l1] == '-');
        assert(b[l2] == '-');
        if l1 < l2 {
            assert(a[l2] == d1[l2 - l1 - 1]);
            assert(false);
        } else if l2 < l1 {
            assert(b[l1] == d2[l1 - l2 - 1]);
            assert(false);
        }
        assert(repo1 =~= a.take(l1));
        assert(repo2 =~= b.take(l2));
        assert(d1 =~= a.skip(l1 + 1));
        assert(d2 =~= b.skip(l2 + 1));
        lemma_decimal_injective(id1 as nat, id2 as nat);
        assert(false);
    }
}

/// Which agent runs in which state, and how it is invoked.
pub struct AgentConfig {
    /// The command line; `{agent}` stands for the chosen agent and
    /// `{prompt}` for the prompt.
    pub command_template: String,
    /// Agents by role; `default` is used where no state names its own.
    pub agents: StringMap,
    /// Agents by state label.
    pub state_agents: StringMap,
}

/// The agent that runs in `state`: the state's own agent, else the
/// `default` agent, else `gemini`.
pub open spec fn agent_for_state(
    state_agents: Map<Seq<char>, Seq<char>>,
    agents: Map<Seq<char>, Seq<char>>,
    state: Seq<char>,
) -> Seq<char> {
    if state_agents.contains_key(state) {
        state_agents[state]
    } else if agents.contains_key("default"@) {
        agents["default"@]
    } else {
        "gemini"@
    }
}

impl AgentConfig {
    /// The command for `state`: the template with every `{agent}` replaced
    /// by the agent for that state (see [`agent_for_state`]).
    pub fn get_command_for_state(&self, state: &str) -> (res: String)
        ensures
            res@ == replace_all(
                self.command_template@,
                "{agent}"@,
                agent_for_state(self.state_agents@, self.agents@, state@),
            ),
    {
        let agent: Vec<char> = match self.state_agents.get(state) {
            Some(a) => chars_of(a.as_str()),
            None => match self.agents.get("default") {
                Some(a) => chars_of(a.as_str()),
                None => chars_of("gemini"),
            },
        };
        let template = chars_of(self.command_template.as_str());
        let placeholder = chars_of("{agent}");
        proof {
            reveal_strlit("{agent}");
        }
        let cmd = replace_all_exec(template.as_slice(), placeholder.as_slice(), agent.as_slice());
        string_of(cmd.as_slice())
    }

    /// The configuration written when none exists yet: `agy` as the default
    /// agent, given the prompt as an argument, and no per-state agents.
    pub fn default_config() -> (res: Self)
        ensures
            res.command_template@ == "agy --dangerously-skip-permissions --print {prompt}"@,
            res.agents@ == Map::<Seq<char>, Seq<char>>::empty().insert("default"@, "agy"@),
            res.state_agents@ == Map::<Seq<char>, Seq<char>>::empty(),
    {
        let mut agents = StringMap::new();
        agents.insert("default".to_owned(), "agy".to_owned());
        AgentConfig {
            command_template: "agy --dangerously-skip-permissions --print {prompt}".to_owned(),
            agents,
            state_agents: StringMap::new(),
        }
    }
}

} // verus!
