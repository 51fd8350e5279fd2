//! Plugins, their candidates, and the registry that routes an input line to
//! the plugin it addresses.
//!
//! Each plugin declares a prefix. An input of the shape `"<prefix> <rest>"`
//! addresses exactly one plugin, which then sees only `<rest>`; any other
//! input is matched against every plugin's candidates with the full text.

use vstd::prelude::*;
use vstd::string::*;

verus! {

/// A process invocation held as plain data: the program and its arguments.
/// The platform layer turns it into a real command when dispatching.
pub struct Command {
    pub program: String,
    pub args: Vec<String>,
}

/// The effect a launched entry asks for.
pub enum Action {
    /// Do nothing; the launcher stays as it is.
    Nothing,
    /// Replace the input line verbatim.
    ChangeInput(String),
    /// Replace the query part of the input, keeping the active plugin's prefix.
    ChangeQuery(String),
    /// Replace the current process image with the given command.
    Exec(Command),
    /// Write the given line to standard output, then close.
    PrintAndClose(String),
    /// Split off a detached child process; the parent closes.
    Fork,
    /// Wait for the in-flight spawned work, then close.
    WaitAndClose,
}

/// Identity of an entry: the owning plugin's position in the registry and the
/// candidate's position within that plugin. Carries no text of its own.
#[derive(Clone, Copy, PartialEq, Eq, Structural, Debug)]
pub struct Label {
    pub plugin: usize,
    pub index: usize,
}

/// One candidate a plugin offers: a display name, an optional comment, an
/// optional icon identifier, and the action performed when it is launched.
pub struct Candidate {
    pub name: String,
    pub comment: Option<String>,
    pub icon: Option<String>,
    pub action: Action,
}

/// A provider of candidates, addressed by its prefix.
pub struct Plugin {
    pub prefix: String,
    pub candidates: Vec<Candidate>,
}

/// The ordered set of registered plugins.
pub struct Registry {
    pub plugins: Vec<Plugin>,
}

/// `input` addresses a plugin with this prefix: it starts with the prefix,
/// followed by one space, followed by the (possibly empty) query.
pub open spec fn routes(prefix: Seq<char>, input: Seq<char>) -> bool {
    &&& input.len() > prefix.len()
    &&& input.subrange(0, prefix.len() as int) == prefix
    &&& input[prefix.len() as int] == ' '
}

impl Registry {
    /// Prefixes are pairwise distinct, and every candidate name is short
    /// enough for the matcher (which refuses haystacks past `u32::MAX`
    /// characters).
    pub open spec fn wf(&self) -> bool {
        &&& forall|i: int, j: int|
            0 <= i < j < self.plugins@.len() ==> (#[trigger] self.plugins@[i].prefix@)
                != (#[trigger] self.plugins@[j].prefix@)
        &&& forall|i: int, j: int|
            0 <= i < self.plugins@.len() && 0 <= j < self.plugins@[i].candidates@.len()
                ==> (#[trigger] self.plugins@[i].candidates@[j].name@).len() <= u32::MAX
    }

    /// First plugin at or after position `i` whose prefix routes `input`.
    pub open spec fn first_route(&self, input: Seq<char>, i: int) -> Option<int>
        decreases self.plugins@.len() - i,
    {
        if i < 0 || i >= self.plugins@.len() {
            None
        } else if routes(self.plugins@[i].prefix@, input) {
            Some(i)
        } else {
            self.first_route(input, i + 1)
        }
    }

    /// The plugin `input` addresses: the first registered plugin whose prefix
    /// it carries, if any.
    pub open spec fn resolved(&self, input: Seq<char>) -> Option<int> {
        self.first_route(input, 0)
    }

    /// What the addressed plugin is asked: the input with prefix and
    /// separating space stripped in single-plugin mode, the full input
    /// otherwise.
    pub open spec fn effective(&self, input: Seq<char>) -> Seq<char> {
        match self.resolved(input) {
            Some(i) => input.subrange(
                self.plugins@[i].prefix@.len() as int + 1,
                input.len() as int,
            ),
            None => input,
        }
    }

    /// A successful resolution names a registered plugin whose prefix in fact
    /// routes the input.
    pub proof fn lemma_first_route_some(&self, input: Seq<char>, i: int, j: int)
        requires
            self.first_route(input, i) == Some(j),
        ensures
            i <= j < self.plugins@.len(),
            routes(self.plugins@[j].prefix@, input),
        decreases self.plugins@.len() - i,
    {
        if i < 0 || i >= self.plugins@.len() {
        } else if routes(self.plugins@[i].prefix@, input) {
        } else {
            self.lemma_first_route_some(input, i + 1, j);
        }
    }

    /// An empty input carries no prefix, so it addresses no plugin.
    pub proof fn lemma_resolved_empty(&self, input: Seq<char>, i: int)
        requires
            input.len() == 0,
        ensures
            self.first_route(input, i) is None,
        decreases self.plugins@.len() - i,
    {
        if 0 <= i < self.plugins@.len() {
            self.lemma_resolved_empty(input, i + 1);
        }
    }

    /// Which plugin, if any, the input addresses.
    pub fn resolve(&self, input: &str) -> (r: Option<usize>)
        ensures
            match r {
                Some(i) => self.resolved(input@) == Some(i as int),
                None => self.resolved(input@) is None,
            },
    {
        let n = self.plugins.len();
        let mut i: usize = 0;
        while i < n
            invariant
                i <= n,
                n == self.plugins@.len(),
                self.first_route(input@, 0) == self.first_route(input@, i as int),
            decreases n - i,
        {
            if str_routes(self.plugins[i].prefix.as_str(), input) {
                return Some(i);
            }
            i = i + 1;
        }
        None
    }

    /// The effective query handed to the addressed plugin (or to all of them).
    pub fn effective_query(&self, input: &str) -> (q: String)
        ensures
            q@ == self.effective(input@),
    {
        match self.resolve(input) {
            Some(i) => {
                proof {
                    self.lemma_first_route_some(input@, 0, i as int);
                }
                let pl = self.plugins[i].prefix.as_str().unicode_len();
                let il = input.unicode_len();
                input.substring_char(pl + 1, il).to_owned()
            },
            None => input.to_owned(),
        }
    }
}

/// Whether `input` is `prefix`, one space, then anything (possibly nothing).
pub fn str_routes(prefix: &str, input: &str) -> (b: bool)
    ensures
        b == routes(prefix@, input@),
{
    let pl = prefix.unicode_len();
    let il = input.unicode_len();
    if il <= pl {
        return false;
    }
    if input.get_char(pl) != ' ' {
        return false;
    }
    let mut i: usize = 0;
    while i < pl
        invariant
            i <= pl,
            pl == prefix@.len(),
            il == input@.len(),
            il > pl,
            forall|j: int| 0 <= j < i ==> input@[j] == prefix@[j],
        decreases pl - i,
    {
        if input.get_char(i) != prefix.get_char(i) {
            assert(input@.subrange(0, pl as int) != prefix@) by {
                assert(input@.subrange(0, pl as int)[i as int] != prefix@[i as int]);
            }
            return false;
        }
        i = i + 1;
    }
    assert(input@.subrange(0, pl as int) =~= prefix@);
    true
}

} // verus!
