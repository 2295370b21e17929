//! The capability boundary through which the shell causes program execution
//! and file I/O. Implementations keep a ghost log of every call, so that
//! contracts can speak about what the executor asked the host to do.
use vstd::prelude::*;

verus! {

#[derive(Clone, Copy, PartialEq, Eq, Structural, Debug)]
pub enum WriteMode {
    Truncate,
    Append,
}

/// What the host reports for one spawned program.
pub struct SpawnResult {
    pub exit_code: i32,
    pub stdout: String,
    pub stderr: String,
}

/// A record of one spawn request, as the host observed it.
pub struct SpawnCall {
    pub program: String,
    pub args: Vec<String>,
    pub env: Vec<(String, String)>,
    pub cwd: String,
    pub stdin: String,
}

/// One crossing of the host boundary, at specification level. A spawn event
/// also records what the host reported back — exit code, stdout and stderr —
/// or nothing when the spawn itself failed.
pub enum HostEvent {
    Spawn {
        program: Seq<char>,
        args: Seq<Seq<char>>,
        env: Seq<(Seq<char>, Seq<char>)>,
        cwd: Seq<char>,
        stdin: Seq<char>,
        outcome: Option<(int, Seq<char>, Seq<char>)>,
    },
    Read { path: Seq<char> },
    Write { path: Seq<char>, data: Seq<char>, mode: WriteMode },
    Glob { pattern: Seq<char> },
}

/// The spawn outcome an event records for a spawn result.
pub open spec fn spec_spawn_outcome(r: Result<SpawnResult, String>) -> Option<(
    int,
    Seq<char>,
    Seq<char>,
)> {
    match r {
        Ok(sr) => Some((sr.exit_code as int, sr.stdout@, sr.stderr@)),
        Err(e) => None,
    }
}

/// One log is the other with later events appended.
pub open spec fn spec_log_extends(pre: Seq<HostEvent>, post: Seq<HostEvent>) -> bool {
    pre.len() <= post.len() && forall|j: int| 0 <= j < pre.len() ==> post[j] == pre[j]
}


/// The stored files after one write: truncating replaces the content,
/// appending extends it (creating the file when absent).
pub open spec fn spec_write_file(
    files: Map<Seq<char>, Seq<char>>,
    path: Seq<char>,
    data: Seq<char>,
    mode: WriteMode,
) -> Map<Seq<char>, Seq<char>> {
    if mode == WriteMode::Append && files.contains_key(path) {
        files.insert(path, files[path] + data)
    } else {
        files.insert(path, data)
    }
}

/// Whether two host values agree on everything the contracts observe.
pub open spec fn spec_same_host<H: HostInterface>(a: H, b: H) -> bool {
    a.log() == b.log() && a.files() == b.files()
}

/// The host capability. Each method appends exactly one event to the log;
/// reading is exact against the stored files, and a successful write updates
/// them as `spec_write_file` says. What a spawned program prints or does to
/// the stored files is the host's own business: nothing is promised of it.
pub trait HostInterface: Sized {
    /// Every call made so far, in order.
    spec fn log(&self) -> Seq<HostEvent>;

    /// The stored files, path to content.
    spec fn files(&self) -> Map<Seq<char>, Seq<char>>;

    fn spawn(
        &mut self,
        program: &str,
        args: &Vec<String>,
        env: &Vec<(String, String)>,
        cwd: &str,
        stdin: &str,
    ) -> (r: Result<SpawnResult, String>)
        ensures
            final(self).log() == old(self).log().push(
                HostEvent::Spawn {
                    program: program@,
                    args: args.deep_view(),
                    env: env.deep_view(),
                    cwd: cwd@,
                    stdin: stdin@,
                    outcome: spec_spawn_outcome(r),
                },
            ),
    ;

    fn read_file(&mut self, path: &str) -> (r: Result<String, String>)
        ensures
            final(self).files() == old(self).files(),
            final(self).log() == old(self).log().push(HostEvent::Read { path: path@ }),
            r matches Ok(content) ==> old(self).files().contains_key(path@) && content@ == old(
                self,
            ).files()[path@],
    ;

    fn write_file(&mut self, path: &str, content: &str, mode: WriteMode) -> (r: Result<
        (),
        String,
    >)
        ensures
            final(self).log() == old(self).log().push(
                HostEvent::Write { path: path@, data: content@, mode },
            ),
            r matches Ok(u) ==> final(self).files() == spec_write_file(
                old(self).files(),
                path@,
                content@,
                mode,
            ),
            r matches Err(e) ==> final(self).files() == old(self).files(),
    ;

    fn expand_glob(&mut self, pattern: &str) -> (r: Vec<String>)
        ensures
            final(self).files() == old(self).files(),
            final(self).log() == old(self).log().push(HostEvent::Glob { pattern: pattern@ }),
    ;
}

} // verus!
