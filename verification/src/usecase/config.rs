//! What the repository declares: its checks and its agent.
//!
//! `.githerb.toml` at the repository root. Reading the file is the caller's
//! business; what it declares, once read, is held here: every check by name,
//! sorted ascending, one command each, and the command that answers a
//! handover when there is one.

use vstd::prelude::*;

use crate::text::{copy_str, same_text, text_less, text_lt, trim, trimmed};

verus! {

/// The file name, relative to the repository root.
pub const FILE: &'static str = ".githerb.toml";

/// Why the configuration could not be read.
#[derive(Debug, Clone, PartialEq, Eq)]
pub enum ConfigError {
    /// The file is not the TOML this build expects.
    Bad(String),
}

/// Why the configuration could not be read, as characters.
pub enum ConfigErrorView {
    Bad(Seq<char>),
}

impl View for ConfigError {
    type V = ConfigErrorView;

    open spec fn view(&self) -> ConfigErrorView {
        match self {
            ConfigError::Bad(s) => ConfigErrorView::Bad(s@),
        }
    }
}

/// What a configuration refusal says.
pub open spec fn config_error_text(e: ConfigErrorView) -> Seq<char> {
    match e {
        ConfigErrorView::Bad(what) => ".githerb.toml: bad configuration: "@ + what,
    }
}

impl ConfigError {
    /// The refusal as a person reads it.
    pub fn to_string(&self) -> (s: String)
        ensures
            s@ == config_error_text(self@),
    {
        match self {
            ConfigError::Bad(what) => {
                let mut s = copy_str(".githerb.toml: bad configuration: ");
                s.append(what.as_str());
                s
            },
        }
    }
}

/// The declared checks and agent.
#[derive(Debug, Clone, PartialEq, Eq)]
pub struct Config {
    checks: Vec<(String, String)>,
    agent: Option<String>,
}

/// What a configuration declares: every check as a name and a command, and
/// the agent's command, if any.
pub struct ConfigView {
    pub checks: Seq<(Seq<char>, Seq<char>)>,
    pub agent: Option<Seq<char>>,
}

impl View for Config {
    type V = ConfigView;

    closed spec fn view(&self) -> ConfigView {
        ConfigView {
            checks: pair_views(self.checks@),
            agent: match self.agent {
                Some(a) => Some(a@),
                None => None,
            },
        }
    }
}

/// Name and command pairs as characters.
pub open spec fn pair_views(v: Seq<(String, String)>) -> Seq<(Seq<char>, Seq<char>)> {
    v.map_values(|p: (String, String)| (p.0@, p.1@))
}

/// Where a check named `name` goes among entries sorted by name: the first
/// entry whose name does not sort before it.
pub open spec fn entry_position(entries: Seq<(Seq<char>, Seq<char>)>, name: Seq<char>) -> int
    decreases entries.len(),
{
    if entries.len() == 0 || !text_lt(entries[0].0, name) {
        0
    } else {
        1 + entry_position(entries.drop_first(), name)
    }
}

/// The entries with that check declared: its command replaced if the name is
/// there, otherwise the pair put where its name sorts.
pub open spec fn put_entry(
    entries: Seq<(Seq<char>, Seq<char>)>,
    name: Seq<char>,
    command: Seq<char>,
) -> Seq<(Seq<char>, Seq<char>)> {
    let i = entry_position(entries, name);
    if i < entries.len() && entries[i].0 == name {
        entries.update(i, (name, command))
    } else {
        entries.insert(i, (name, command))
    }
}

/// The checks a table declares, read in order: a name declared again keeps
/// its last command.
pub open spec fn declared(table: Seq<(Seq<char>, Seq<char>)>) -> Seq<(Seq<char>, Seq<char>)>
    decreases table.len(),
{
    if table.len() == 0 {
        Seq::empty()
    } else {
        put_entry(declared(table.drop_last()), table.last().0, table.last().1)
    }
}

/// Whether the names strictly ascend.
pub open spec fn names_ascend(entries: Seq<(Seq<char>, Seq<char>)>) -> bool {
    forall|i: int, j: int|
        0 <= i < j < entries.len() ==> text_lt(#[trigger] entries[i].0, #[trigger] entries[j].0)
}

/// The agent a command declares: none when it is blank, else the command
/// trimmed.
pub open spec fn agent_of(command: Seq<char>) -> Option<Seq<char>> {
    if trimmed(command).len() == 0 {
        None
    } else {
        Some(trimmed(command))
    }
}

proof fn lemma_entry_position(entries: Seq<(Seq<char>, Seq<char>)>, name: Seq<char>)
    requires
        names_ascend(entries),
    ensures
        0 <= entry_position(entries, name) <= entries.len(),
        forall|k: int|
            0 <= k < entry_position(entries, name) ==> text_lt(#[trigger] entries[k].0, name),
        entry_position(entries, name) < entries.len() ==> !text_lt(
            entries[entry_position(entries, name)].0,
            name,
        ),
    decreases entries.len(),
{
    if entries.len() > 0 && text_lt(entries[0].0, name) {
        let rest = entries.drop_first();
        assert(names_ascend(rest)) by {
            assert forall|i: int, j: int| 0 <= i < j < rest.len() implies text_lt(
                #[trigger] rest[i].0,
                #[trigger] rest[j].0,
            ) by {
                assert(rest[i] == entries[i + 1]);
                assert(rest[j] == entries[j + 1]);
            }
        }
        lemma_entry_position(rest, name);
        assert forall|k: int| 0 <= k < entry_position(entries, name) implies text_lt(
            #[trigger] entries[k].0,
            name,
        ) by {
            if k > 0 {
                assert(entries[k] == rest[k - 1]);
            }
        }
    }
}

proof fn lemma_put_entry_ascends(
    entries: Seq<(Seq<char>, Seq<char>)>,
    name: Seq<char>,
    command: Seq<char>,
)
    requires
        names_ascend(entries),
    ensures
        names_ascend(put_entry(entries, name, command)),
{
    lemma_entry_position(entries, name);
    let i = entry_position(entries, name);
    let r = put_entry(entries, name, command);
    if i < entries.len() && entries[i].0 == name {
        assert forall|a: int, b: int| 0 <= a < b < r.len() implies text_lt(
            #[trigger] r[a].0,
            #[trigger] r[b].0,
        ) by {
            assert(r[a].0 == entries[a].0);
            assert(r[b].0 == entries[b].0);
        }
    } else {
        if i < entries.len() {
            lemma_text_lt_total_pair(entries[i].0, name);
        }
        assert forall|a: int, b: int| 0 <= a < b < r.len() implies text_lt(
            #[trigger] r[a].0,
            #[trigger] r[b].0,
        ) by {
            if b < i {
                assert(r[a] == entries[a] && r[b] == entries[b]);
            } else if b == i {
                assert(r[a] == entries[a]);
            } else if a == i {
                assert(r[b] == entries[b - 1]);
                if b - 1 > i {
                    crate::text::lemma_text_lt_transitive(name, entries[i].0, entries[b - 1].0);
                }
            } else if a < i {
                assert(r[a] == entries[a] && r[b] == entries[b - 1]);
            } else {
                assert(r[a] == entries[a - 1] && r[b] == entries[b - 1]);
            }
        }
    }
}

proof fn lemma_text_lt_total_pair(a: Seq<char>, name: Seq<char>)
    requires
        !text_lt(a, name),
        a != name,
    ensures
        text_lt(name, a),
{
    crate::text::lemma_text_lt_total(a, name);
}

/// However a table declares its checks, their names come out strictly
/// ascending, each once.
pub proof fn law_declared_names_ascend(table: Seq<(Seq<char>, Seq<char>)>)
    ensures
        names_ascend(declared(table)),
    decreases table.len(),
{
    if table.len() > 0 {
        law_declared_names_ascend(table.drop_last());
        lemma_put_entry_ascends(declared(table.drop_last()), table.last().0, table.last().1);
    }
}

/// The command a name was last declared with, if it was declared at all.
pub open spec fn last_command(table: Seq<(Seq<char>, Seq<char>)>, name: Seq<char>) -> Option<
    Seq<char>,
>
    decreases table.len(),
{
    if table.len() == 0 {
        None
    } else if table.last().0 == name {
        Some(table.last().1)
    } else {
        last_command(table.drop_last(), name)
    }
}

/// A declared check runs the command its name was declared with last, and
/// only a declared name has a command.
pub proof fn law_a_check_runs_its_last_command(
    table: Seq<(Seq<char>, Seq<char>)>,
    name: Seq<char>,
)
    ensures
        last_command(table, name) is None <==> forall|i: int|
            0 <= i < declared(table).len() ==> (#[trigger] declared(table)[i]).0 != name,
        last_command(table, name) matches Some(c) ==> exists|i: int|
            0 <= i < declared(table).len() && #[trigger] declared(table)[i] == (name, c),
    decreases table.len(),
{
    if table.len() > 0 {
        let prev = table.drop_last();
        law_a_check_runs_its_last_command(prev, name);
        law_declared_names_ascend(prev);
        let d = declared(prev);
        let (k, v) = table.last();
        lemma_entry_position(d, k);
        let i = entry_position(d, k);
        let r = declared(table);
        assert(r == put_entry(d, k, v));
        if i < d.len() && d[i].0 == k {
            assert(r[i] == (k, v));
            if k != name {
                match last_command(prev, name) {
                    Some(c) => {
                        let j = choose|j: int| 0 <= j < d.len() && #[trigger] d[j] == (name, c);
                        assert(r[j] == d[j]);
                    },
                    None => {},
                }
                assert forall|j: int| 0 <= j < r.len() && (#[trigger] r[j]).0 == name implies (
                j != i && r[j] == d[j]) by {}
            }
        } else {
            assert(r[i] == (k, v));
            if k != name {
                match last_command(prev, name) {
                    Some(c) => {
                        let j = choose|j: int| 0 <= j < d.len() && #[trigger] d[j] == (name, c);
                        if j < i {
                            assert(r[j] == d[j]);
                        } else {
                            assert(r[j + 1] == d[j]);
                        }
                    },
                    None => {},
                }
                assert forall|j: int| 0 <= j < r.len() && (#[trigger] r[j]).0 == name implies (
                j < i && r[j] == d[j]) || (j > i && r[j] == d[j - 1]) by {}
            }
        }
    }
}

impl Config {
    /// A configuration from the checks a table declares, in the order it
    /// declares them, and the agent's command, which is no agent when blank.
    pub fn new(table: Vec<(String, String)>, agent_command: &str) -> (c: Config)
        ensures
            c@.checks == declared(pair_views(table@)),
            c@.agent == agent_of(agent_command@),
    {
        let ghost input = pair_views(table@);
        let mut checks: Vec<(String, String)> = Vec::new();
        let mut n: usize = 0;
        while n < table.len()
            invariant
                n <= table@.len(),
                input == pair_views(table@),
                pair_views(checks@) == declared(input.take(n as int)),
            decreases table.len() - n,
        {
            let ghost before = pair_views(checks@);
            proof {
                law_declared_names_ascend(input.take(n as int));
                lemma_entry_position(before, input[n as int].0);
            }
            let name = &table[n].0;
            let command = &table[n].1;
            let mut i: usize = 0;
            while i < checks.len() && text_less(checks[i].0.as_str(), name.as_str())
                invariant
                    i <= checks@.len(),
                    before == pair_views(checks@),
                    names_ascend(before),
                    name@ == input[n as int].0,
                    forall|k: int| 0 <= k < i ==> text_lt(#[trigger] before[k].0, name@),
                decreases checks.len() - i,
            {
                i = i + 1;
            }
            proof {
                // The first name not before this one is where it goes.
                let p = entry_position(before, name@);
                if (i as int) < p {
                    assert(text_lt(before[i as int].0, name@));
                } else if p < i {
                    assert(text_lt(before[p].0, name@));
                }
            }
            if i < checks.len() && same_text(checks[i].0.as_str(), name.as_str()) {
                checks.set(i, (copy_str(name.as_str()), copy_str(command.as_str())));
            } else {
                checks.insert(i, (copy_str(name.as_str()), copy_str(command.as_str())));
            }
            assert(input.take(n + 1).drop_last() =~= input.take(n as int));
            assert(pair_views(checks@) =~= put_entry(before, input[n as int].0, input[n as int].1));
            n = n + 1;
        }
        assert(input.take(table@.len() as int) =~= input);
        let agent = trim(agent_command);
        let agent = if agent.as_str().is_empty() {
            None
        } else {
            Some(agent)
        };
        Config { checks, agent }
    }

    /// Nothing declared: no checks and no agent.
    pub fn empty() -> (c: Config)
        ensures
            c@.checks == Seq::<(Seq<char>, Seq<char>)>::empty(),
            c@.agent is None,
    {
        let c = Config { checks: Vec::new(), agent: None };
        assert(c@.checks =~= Seq::<(Seq<char>, Seq<char>)>::empty());
        c
    }

    /// The checks a proposal has to pass, by name, sorted ascending.
    pub fn checks(&self) -> (s: &[(String, String)])
        ensures
            pair_views(s@) == self@.checks,
    {
        self.checks.as_slice()
    }

    /// The command of the check with that name.
    pub fn check(&self, name: &str) -> (r: Option<&str>)
        ensures
            match r {
                Some(c) => exists|i: int|
                    0 <= i < self@.checks.len() && #[trigger] self@.checks[i] == (name@, c@),
                None => forall|i: int|
                    0 <= i < self@.checks.len() ==> (#[trigger] self@.checks[i]).0 != name@,
            },
    {
        let mut i: usize = 0;
        while i < self.checks.len()
            invariant
                i <= self.checks@.len(),
                self@.checks == pair_views(self.checks@),
                forall|k: int| 0 <= k < i ==> (#[trigger] self@.checks[k]).0 != name@,
            decreases self.checks.len() - i,
        {
            if same_text(self.checks[i].0.as_str(), name) {
                assert(self@.checks[i as int] == (name@, self.checks[i as int].1@));
                return Some(self.checks[i].1.as_str());
            }
            i = i + 1;
        }
        None
    }

    /// The names of the required checks, sorted ascending.
    pub fn required(&self) -> (v: Vec<&str>)
        ensures
            v@.len() == self@.checks.len(),
            forall|i: int| 0 <= i < v@.len() ==> (#[trigger] v@[i])@ == self@.checks[i].0,
    {
        let mut v: Vec<&str> = Vec::new();
        let mut i: usize = 0;
        while i < self.checks.len()
            invariant
                i <= self.checks@.len(),
                self@.checks == pair_views(self.checks@),
                v@.len() == i,
                forall|k: int| 0 <= k < i ==> (#[trigger] v@[k])@ == self@.checks[k].0,
            decreases self.checks.len() - i,
        {
            v.push(self.checks[i].0.as_str());
            i = i + 1;
        }
        v
    }

    /// The shell command that answers a handover, if the repository declares one.
    pub fn agent(&self) -> (r: Option<&str>)
        ensures
            match r {
                Some(a) => self@.agent == Some(a@),
                None => self@.agent is None,
            },
    {
        match &self.agent {
            Some(a) => Some(a.as_str()),
            None => None,
        }
    }
}

} // verus!
