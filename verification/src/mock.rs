//! An in-memory host: stored files in a map, canned spawn results, and a
//! record of every spawn request. It is the host used by the test suite and
//! by any embedding that wants a hermetic shell.
use vstd::prelude::*;
use vstd::string::StrSliceExecFns;
use vstd::string::StringExecFns;

use crate::host::{HostEvent, HostInterface, SpawnCall, SpawnResult, WriteMode};
use crate::smap::StrMap;
use crate::strutil::{bytes_to_string, str_eq};
use crate::strutil::spec_bytes_text;

verus! {

/// Whether a name list holds the program.
pub open spec fn spec_contains_name(names: Seq<String>, p: Seq<char>) -> bool
    decreases names.len(),
{
    if names.len() == 0 {
        false
    } else {
        names[0]@ == p || spec_contains_name(names.drop_first(), p)
    }
}

/// The first registered result for the program, if any.
pub open spec fn spec_first_result(results: Seq<(String, SpawnResult)>, p: Seq<char>) -> Option<(
    int,
    Seq<char>,
    Seq<char>,
)>
    decreases results.len(),
{
    if results.len() == 0 {
        None
    } else if results[0].0@ == p {
        Some((results[0].1.exit_code as int, results[0].1.stdout@, results[0].1.stderr@))
    } else {
        spec_first_result(results.drop_first(), p)
    }
}

/// What this host reports for a spawn: an echo program hands its stdin back;
/// otherwise the first registered result for the name; otherwise a known
/// tool succeeds silently; and an unknown program is command-not-found with
/// exit code 127.
pub open spec fn spec_mock_result(
    echo: Seq<String>,
    results: Seq<(String, SpawnResult)>,
    tools: Seq<String>,
    p: Seq<char>,
    stdin: Seq<char>,
) -> (int, Seq<char>, Seq<char>) {
    if spec_contains_name(echo, p) {
        (0int, stdin, Seq::<char>::empty())
    } else {
        match spec_first_result(results, p) {
            Some(t) => t,
            None => if spec_contains_name(tools, p) {
                (0int, Seq::<char>::empty(), Seq::<char>::empty())
            } else {
                (127int, Seq::<char>::empty(), p + ": command not found"@)
            },
        }
    }
}

pub struct MockHost {
    pub store: StrMap,
    pub results: Vec<(String, SpawnResult)>,
    pub echo_programs: Vec<String>,
    pub tools: Vec<String>,
    pub spawn_calls: Vec<SpawnCall>,
    pub events: Ghost<Seq<HostEvent>>,
}

impl MockHost {
    /// A host with no stored files and no known programs: every spawn reports
    /// exit code 127 and a "command not found" message.
    pub fn new() -> (r: MockHost)
        ensures
            r.log() == Seq::<HostEvent>::empty(),
            r.files() == Map::<Seq<char>, Seq<char>>::empty(),
            r.spawn_calls@.len() == 0,
    {
        MockHost {
            store: StrMap::new(),
            results: Vec::new(),
            echo_programs: Vec::new(),
            tools: Vec::new(),
            spawn_calls: Vec::new(),
            events: Ghost(Seq::empty()),
        }
    }

    /// Registers a program that succeeds with empty output.
    pub fn with_tool(self, name: &str) -> (r: MockHost)
        ensures
            r.log() == self.log(),
            r.files() == self.files(),
            r.tools@.len() == self.tools@.len() + 1,
            r.tools@.last()@ == name@,
    {
        let mut h = self;
        h.tools.push(name.to_owned());
        h
    }

    /// Registers a canned result for one program name.
    pub fn with_spawn_result(self, program: &str, result: SpawnResult) -> (r: MockHost)
        ensures
            r.log() == self.log(),
            r.files() == self.files(),
            r.results@.len() == self.results@.len() + 1,
            r.results@.last().0@ == program@,
    {
        let mut h = self;
        h.results.push((program.to_owned(), result));
        h
    }

    /// Registers a program that echoes its stdin back as its stdout.
    pub fn with_stdin_echo(self, program: &str) -> (r: MockHost)
        ensures
            r.log() == self.log(),
            r.files() == self.files(),
            r.echo_programs@.len() == self.echo_programs@.len() + 1,
            r.echo_programs@.last()@ == program@,
    {
        let mut h = self;
        h.echo_programs.push(program.to_owned());
        h
    }

    /// Stores a file, replacing any earlier content.
    pub fn with_file(self, path: &str, content: &[u8]) -> (r: MockHost)
        ensures
            r.log() == self.log(),
            r.files() == self.files().insert(path@, spec_bytes_text(content@)),
    {
        let mut h = self;
        let text = bytes_to_string(content);
        h.store.set(path, text);
        h
    }

    /// The stored content of a file, if any.
    pub fn get_file(&self, path: &str) -> (r: Option<String>)
        ensures
            match r {
                Some(c) => self.files().contains_key(path@) && c@ == self.files()[path@],
                None => !self.files().contains_key(path@),
            },
    {
        match self.store.get(path) {
            Some(c) => Some(c.clone()),
            None => None,
        }
    }

    /// Every spawn request made so far, in order.
    pub fn get_spawn_calls(&self) -> (r: &Vec<SpawnCall>)
        ensures
            r == &self.spawn_calls,
    {
        &self.spawn_calls
    }

    fn lookup_result(&self, program: &str, stdin: &str) -> (r: SpawnResult)
        ensures
            (r.exit_code as int, r.stdout@, r.stderr@) == spec_mock_result(
                self.echo_programs@,
                self.results@,
                self.tools@,
                program@,
                stdin@,
            ),
    {
        let mut i: usize = 0;
        proof {
            assert(self.echo_programs@.subrange(0, self.echo_programs@.len() as int)
                =~= self.echo_programs@);
        }
        while i < self.echo_programs.len()
            invariant
                0 <= i <= self.echo_programs@.len(),
                spec_contains_name(self.echo_programs@, program@) == spec_contains_name(
                    self.echo_programs@.subrange(i as int, self.echo_programs@.len() as int),
                    program@,
                ),
            decreases self.echo_programs@.len() - i,
        {
            proof {
                let rest = self.echo_programs@.subrange(
                    i as int,
                    self.echo_programs@.len() as int,
                );
                assert(rest.drop_first() =~= self.echo_programs@.subrange(
                    i + 1,
                    self.echo_programs@.len() as int,
                ));
                assert(rest[0] == self.echo_programs@[i as int]);
            }
            if str_eq(self.echo_programs[i].as_str(), program) {
                return SpawnResult {
                    exit_code: 0,
                    stdout: stdin.to_owned(),
                    stderr: String::new(),
                };
            }
            i += 1;
        }
        proof {
            assert(self.echo_programs@.subrange(
                self.echo_programs@.len() as int,
                self.echo_programs@.len() as int,
            ) =~= Seq::<String>::empty());
        }
        let mut i: usize = 0;
        proof {
            assert(self.results@.subrange(0, self.results@.len() as int) =~= self.results@);
        }
        while i < self.results.len()
            invariant
                0 <= i <= self.results@.len(),
                !spec_contains_name(self.echo_programs@, program@),
                spec_first_result(self.results@, program@) == spec_first_result(
                    self.results@.subrange(i as int, self.results@.len() as int),
                    program@,
                ),
            decreases self.results@.len() - i,
        {
            proof {
                let rest = self.results@.subrange(i as int, self.results@.len() as int);
                assert(rest.drop_first() =~= self.results@.subrange(
                    i + 1,
                    self.results@.len() as int,
                ));
                assert(rest[0] == self.results@[i as int]);
            }
            if str_eq(self.results[i].0.as_str(), program) {
                let found = &self.results[i].1;
                return SpawnResult {
                    exit_code: found.exit_code,
                    stdout: found.stdout.clone(),
                    stderr: found.stderr.clone(),
                };
            }
            i += 1;
        }
        proof {
            assert(self.results@.subrange(self.results@.len() as int, self.results@.len() as int)
                =~= Seq::<(String, SpawnResult)>::empty());
        }
        let mut i: usize = 0;
        proof {
            assert(self.tools@.subrange(0, self.tools@.len() as int) =~= self.tools@);
        }
        while i < self.tools.len()
            invariant
                0 <= i <= self.tools@.len(),
                !spec_contains_name(self.echo_programs@, program@),
                spec_first_result(self.results@, program@) is None,
                spec_contains_name(self.tools@, program@) == spec_contains_name(
                    self.tools@.subrange(i as int, self.tools@.len() as int),
                    program@,
                ),
            decreases self.tools@.len() - i,
        {
            proof {
                let rest = self.tools@.subrange(i as int, self.tools@.len() as int);
                assert(rest.drop_first() =~= self.tools@.subrange(
                    i + 1,
                    self.tools@.len() as int,
                ));
                assert(rest[0] == self.tools@[i as int]);
            }
            if str_eq(self.tools[i].as_str(), program) {
                return SpawnResult { exit_code: 0, stdout: String::new(), stderr: String::new() };
            }
            i += 1;
        }
        proof {
            assert(self.tools@.subrange(self.tools@.len() as int, self.tools@.len() as int)
                =~= Seq::<String>::empty());
        }
        SpawnResult {
            exit_code: 127,
            stdout: String::new(),
            stderr: program.to_owned().concat(": command not found"),
        }
    }
}

fn clone_strings(v: &Vec<String>) -> (r: Vec<String>)
    ensures
        r.deep_view() == v.deep_view(),
{
    let mut r: Vec<String> = Vec::new();
    let mut i: usize = 0;
    while i < v.len()
        invariant
            0 <= i <= v@.len(),
            r.deep_view() == v.deep_view().subrange(0, i as int),
        decreases v@.len() - i,
    {
        let ghost prev = r.deep_view();
        r.push(v[i].clone());
        i += 1;
        proof {
            assert(r.deep_view() =~= prev.push(v@[i - 1]@));
            assert(v.deep_view()[i - 1] == v@[i - 1]@);
            assert(r.deep_view() =~= v.deep_view().subrange(0, i as int));
        }
    }
    proof {
        assert(v.deep_view().subrange(0, v.deep_view().len() as int) =~= v.deep_view());
    }
    r
}

fn clone_pairs(v: &Vec<(String, String)>) -> (r: Vec<(String, String)>)
    ensures
        r.deep_view() == v.deep_view(),
{
    let mut r: Vec<(String, String)> = Vec::new();
    let mut i: usize = 0;
    while i < v.len()
        invariant
            0 <= i <= v@.len(),
            r@.len() == i,
            forall|j: int|
                0 <= j < i ==> (#[trigger] r@[j]).0@ == v@[j].0@ && r@[j].1@ == v@[j].1@,
        decreases v@.len() - i,
    {
        r.push((v[i].0.clone(), v[i].1.clone()));
        i += 1;
    }
    proof {
        assert forall|j: int| 0 <= j < r@.len() implies r.deep_view()[j] == v.deep_view()[j] by {
            assert(r.deep_view()[j] == (r@[j].0@, r@[j].1@));
            assert(v.deep_view()[j] == (v@[j].0@, v@[j].1@));
        }
        assert(r.deep_view() =~= v.deep_view());
    }
    r
}

impl HostInterface for MockHost {
    open spec fn log(&self) -> Seq<HostEvent> {
        self.events@
    }

    open spec fn files(&self) -> Map<Seq<char>, Seq<char>> {
        self.store@
    }

    fn spawn(
        &mut self,
        program: &str,
        args: &Vec<String>,
        env: &Vec<(String, String)>,
        cwd: &str,
        stdin: &str,
    ) -> (r: Result<SpawnResult, String>)
        ensures
            final(self).spawn_calls@.len() == old(self).spawn_calls@.len() + 1,
            ({
                let call = final(self).spawn_calls@.last();
                &&& call.program@ == program@
                &&& call.args.deep_view() == args.deep_view()
                &&& call.env.deep_view() == env.deep_view()
                &&& call.cwd@ == cwd@
                &&& call.stdin@ == stdin@
            }),
            forall|j: int|
                0 <= j < old(self).spawn_calls@.len() ==> final(self).spawn_calls@[j] == old(
                    self,
                ).spawn_calls@[j],
            r matches Ok(sr) && (sr.exit_code as int, sr.stdout@, sr.stderr@) == spec_mock_result(
                old(self).echo_programs@,
                old(self).results@,
                old(self).tools@,
                program@,
                stdin@,
            ),
    {
        let result = self.lookup_result(program, stdin);
        let call = SpawnCall {
            program: program.to_owned(),
            args: clone_strings(args),
            env: clone_pairs(env),
            cwd: cwd.to_owned(),
            stdin: stdin.to_owned(),
        };
        self.spawn_calls.push(call);
        proof {
            self.events@ = self.events@.push(
                HostEvent::Spawn {
                    program: program@,
                    args: args.deep_view(),
                    env: env.deep_view(),
                    cwd: cwd@,
                    stdin: stdin@,
                    outcome: Some((result.exit_code as int, result.stdout@, result.stderr@)),
                },
            );
        }
        Ok(result)
    }

    fn read_file(&mut self, path: &str) -> (r: Result<String, String>) {
        proof {
            self.events@ = self.events@.push(HostEvent::Read { path: path@ });
        }
        match self.store.get(path) {
            Some(content) => Ok(content.clone()),
            None => Err(path.to_owned().concat(": no such file")),
        }
    }

    fn write_file(&mut self, path: &str, content: &str, mode: WriteMode) -> (r: Result<
        (),
        String,
    >) {
        let current: Option<String> = match self.store.get(path) {
            Some(c) => Some(c.clone()),
            None => None,
        };
        let stored: String = match mode {
            WriteMode::Append => match current {
                Some(c) => c.concat(content),
                None => content.to_owned(),
            },
            WriteMode::Truncate => content.to_owned(),
        };
        self.store.set(path, stored);
        proof {
            self.events@ = self.events@.push(
                HostEvent::Write { path: path@, data: content@, mode },
            );
        }
        Ok(())
    }

    fn expand_glob(&mut self, pattern: &str) -> (r: Vec<String>) {
        proof {
            self.events@ = self.events@.push(HostEvent::Glob { pattern: pattern@ });
        }
        Vec::new()
    }
}

} // verus!
