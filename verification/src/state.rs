//! Mutable session state of the interpreter: environment, working directory,
//! last exit code, substitution-depth counter and option flags.
use vstd::prelude::*;
use vstd::string::StrSliceExecFns;
use vstd::string::StringExecFns;

use crate::smap::StrMap;

verus! {

/// Bound on the nesting of command substitutions.
pub const MAX_SUBSTITUTION_DEPTH: u32 = 64;

/// How much substitution headroom is left: the termination measure for the
/// executor's re-entrant recursion.
pub open spec fn spec_depth_measure(depth: u32) -> nat {
    if depth >= MAX_SUBSTITUTION_DEPTH {
        0
    } else {
        (MAX_SUBSTITUTION_DEPTH - depth) as nat
    }
}

/// Fields of the session state that a command execution never changes:
/// everything but the last exit code.
pub open spec fn spec_same_session(a: ShellState, b: ShellState) -> bool {
    &&& a.env == b.env
    &&& a.cwd == b.cwd
    &&& a.flags == b.flags
    &&& a.substitution_depth == b.substitution_depth
}

#[derive(Clone, Copy, PartialEq, Eq, Structural, Debug)]
pub enum ShellFlag {
    Pipefail,
}

/// The set of enabled option flags.
#[derive(Debug)]
pub struct FlagSet {
    pub items: Vec<ShellFlag>,
}

impl FlagSet {
    pub open spec fn has(&self, f: ShellFlag) -> bool {
        self.items@.contains(f)
    }

    pub fn new() -> (r: FlagSet)
        ensures
            forall|f: ShellFlag| !r.has(f),
    {
        FlagSet { items: Vec::new() }
    }

    pub fn insert(&mut self, f: ShellFlag)
        ensures
            final(self).has(f),
            forall|g: ShellFlag| #[trigger] final(self).has(g) <==> old(self).has(g) || g == f,
    {
        self.items.push(f);
        proof {
            let n = self.items@.len();
            assert(self.items@[n - 1] == f);
            assert forall|g: ShellFlag| #[trigger] self.items@.contains(g) <==> old(
                self,
            ).items@.contains(g) || g == f by {
                if old(self).items@.contains(g) {
                    let j = choose|j: int| 0 <= j < old(self).items@.len() && old(self).items@[j] == g;
                    assert(self.items@[j] == g);
                }
                if self.items@.contains(g) {
                    let j = choose|j: int| 0 <= j < n && self.items@[j] == g;
                    if j < n - 1 {
                        assert(old(self).items@[j] == g);
                    }
                }
            }
        }
    }

    pub fn contains(&self, f: ShellFlag) -> (r: bool)
        ensures
            r == self.has(f),
    {
        let mut i: usize = 0;
        while i < self.items.len()
            invariant
                0 <= i <= self.items@.len(),
                forall|j: int| 0 <= j < i ==> self.items@[j] != f,
            decreases self.items@.len() - i,
        {
            if self.items[i] == f {
                return true;
            }
            i += 1;
        }
        false
    }
}

/// Session state, exclusively owned and threaded through the call chain.
pub struct ShellState {
    pub env: StrMap,
    pub cwd: String,
    pub last_exit_code: i32,
    pub substitution_depth: u32,
    pub flags: FlagSet,
}

/// A path resolved against a working directory: absolute paths stand as they
/// are, relative paths are joined below `cwd` with a single slash.
pub open spec fn spec_resolve_path(cwd: Seq<char>, path: Seq<char>) -> Seq<char> {
    if path.len() > 0 && path[0] == '/' {
        path
    } else {
        cwd + seq!['/'] + path
    }
}

impl ShellState {
    /// A fresh session: empty environment, `/home/user` as the working
    /// directory, exit code 0, no substitution in progress, no flags.
    pub fn new_default() -> (r: ShellState)
        ensures
            r.env@ == Map::<Seq<char>, Seq<char>>::empty(),
            r.cwd@ == "/home/user"@,
            r.last_exit_code == 0,
            r.substitution_depth == 0,
            forall|f: ShellFlag| !r.flags.has(f),
    {
        ShellState {
            env: StrMap::new(),
            cwd: "/home/user".to_owned(),
            last_exit_code: 0,
            substitution_depth: 0,
            flags: FlagSet::new(),
        }
    }

    /// Resolves a possibly-relative path against the current directory.
    pub fn resolve_path(&self, path: &str) -> (r: String)
        ensures
            r@ == spec_resolve_path(self.cwd@, path@),
    {
        let n = path.unicode_len();
        if n > 0 && path.get_char(0) == '/' {
            path.to_owned()
        } else {
            let mut r = self.cwd.clone();
            r.push('/');
            r.append(path);
            proof {
                assert(r@ =~= spec_resolve_path(self.cwd@, path@));
            }
            r
        }
    }

    /// Snapshot of the environment as a flat ordered list of pairs.
    pub fn env_snapshot(&self) -> (r: Vec<(String, String)>)
        ensures
            r.deep_view() == self.env.entries.deep_view(),
    {
        self.env.snapshot()
    }
}

} // verus!
