//! The build orchestrator's decisions: which compiler invocations to make,
//! with exactly which arguments, and how the outcomes of parallel dependency
//! compilations are aggregated and rolled back. Spawning the compiler,
//! walking directories and deleting artifact directories are the caller's
//! side effects; everything decided here is a function of plain values.

use vstd::prelude::*;
use vstd::string::StrSliceExecFns;
use vstd::string::StringExecFns;
use crate::paths::join_of;
use crate::text::{push_char, views_of};
use crate::yac_toml::{Location, YacLock, YacToml, YacLockLinearizeError};

verus! {

// ---------------------------------------------------------------------------
// Fixed flags
// ---------------------------------------------------------------------------

/// The warning flags every compiler invocation carries, in order.
pub open spec fn warning_flags_spec() -> Seq<Seq<char>> {
    seq![
        "-Wall"@,
        "-Wextra"@,
        "-Wdouble-promotion"@,
        "-Wformat-overflow=2"@,
        "-Wformat-nonliteral"@,
        "-Wformat-security"@,
    ]
}

/// The warning flags, as owned strings.
pub fn warning_flags() -> (result: Vec<String>)
    ensures
        views_of(result@) =~= warning_flags_spec(),
{
    let mut result: Vec<String> = Vec::new();
    result.push(String::from_str("-Wall"));
    result.push(String::from_str("-Wextra"));
    result.push(String::from_str("-Wdouble-promotion"));
    result.push(String::from_str("-Wformat-overflow=2"));
    result.push(String::from_str("-Wformat-nonliteral"));
    result.push(String::from_str("-Wformat-security"));
    result
}

/// The optimization flag of a profile: `-O3` for release, `-g` for debug.
pub open spec fn opt_flag_spec(release: bool) -> Seq<char> {
    if release {
        "-O3"@
    } else {
        "-g"@
    }
}

/// The optimization flag, as an owned string.
pub fn opt_flag(release: bool) -> (result: String)
    ensures
        result@ == opt_flag_spec(release),
{
    if release {
        String::from_str("-O3")
    } else {
        String::from_str("-g")
    }
}

/// The profile's output subdirectory name.
pub open spec fn profile_dir_spec(release: bool) -> Seq<char> {
    if release {
        "release"@
    } else {
        "debug"@
    }
}

/// The profile's output subdirectory name, as an owned string.
pub fn profile_dir(release: bool) -> (result: String)
    ensures
        result@ == profile_dir_spec(release),
{
    if release {
        String::from_str("release")
    } else {
        String::from_str("debug")
    }
}

// ---------------------------------------------------------------------------
// Artifact naming
// ---------------------------------------------------------------------------

/// A source path flattened into an artifact name: every separator and dot
/// becomes an underscore, so files with one base name in different
/// directories never collide.
pub open spec fn sanitized_of(path: Seq<char>) -> Seq<char> {
    path.map_values(
        |c: char|
            if c == '/' || c == '\\' || c == '.' {
                '_'
            } else {
                c
            },
    )
}

/// Flattens a source path as `sanitized_of` describes.
pub fn sanitize_artifact_name(path: &str) -> (result: String)
    ensures
        result@ == sanitized_of(path@),
{
    let n = path.unicode_len();
    let mut result = String::new();
    let mut i: usize = 0;
    while i < n
        invariant
            i <= n,
            n == path@.len(),
            result@ == sanitized_of(path@.subrange(0, i as int)),
        decreases n - i,
    {
        let c = path.get_char(i);
        let replaced = if c == '/' || c == '\\' || c == '.' {
            '_'
        } else {
            c
        };
        push_char(&mut result, replaced);
        i = i + 1;
        proof {
            assert(result@ =~= sanitized_of(path@.subrange(0, i as int)));
        }
    }
    proof {
        assert(path@.subrange(0, n as int) =~= path@);
    }
    result
}

/// Whether a path names a compilable source file: its final component has
/// the extension `c` — exactly `.c` at the end, not as the whole name.
pub open spec fn is_c_source(path: Seq<char>) -> bool {
    &&& path.len() >= 3
    &&& path[path.len() - 1] == 'c'
    &&& path[path.len() - 2] == '.'
    &&& path[path.len() - 3] != '/'
}

/// Decides whether `path` names a compilable source file.
pub fn has_c_extension(path: &str) -> (result: bool)
    ensures
        result == is_c_source(path@),
{
    let n = path.unicode_len();
    if n < 3 {
        return false;
    }
    path.get_char(n - 1) == 'c' && path.get_char(n - 2) == '.' && path.get_char(n - 3) != '/'
}

/// The object file a source file compiles to: its flattened name with `.o`
/// appended, inside the target's artifact directory.
pub open spec fn object_file_of(src_file: Seq<char>, artifacts_dir: Seq<char>) -> Seq<char> {
    join_of(artifacts_dir, sanitized_of(src_file) + ".o"@)
}

/// The object file path, as an owned string.
pub fn object_file(src_file: &str, artifacts_dir: &str) -> (result: String)
    ensures
        result@ == object_file_of(src_file@, artifacts_dir@),
{
    let mut name = sanitize_artifact_name(src_file);
    name.append(".o");
    crate::paths::join_paths(artifacts_dir, name.as_str())
}

// ---------------------------------------------------------------------------
// Compile tasks
// ---------------------------------------------------------------------------

/// One compile-only invocation: the artifact directory it fills, and the
/// full compiler argument list.
pub struct CompileTask {
    pub artifacts_dir: String,
    pub args: Vec<String>,
}

#[verifier::ext_equal]
pub struct CompileTaskView {
    pub artifacts_dir: Seq<char>,
    pub args: Seq<Seq<char>>,
}

impl View for CompileTask {
    type V = CompileTaskView;

    open spec fn view(&self) -> CompileTaskView {
        CompileTaskView { artifacts_dir: self.artifacts_dir@, args: views_of(self.args@) }
    }
}

/// The argument list of one compile-only invocation: the warning flags, then
/// `-c` and the source file, the profile's optimization flag, and `-o` with
/// the object file.
pub open spec fn compile_args_of(
    src_file: Seq<char>,
    artifacts_dir: Seq<char>,
    release: bool,
) -> Seq<Seq<char>> {
    warning_flags_spec() + seq![
        "-c"@,
        src_file,
        opt_flag_spec(release),
        "-o"@,
        object_file_of(src_file, artifacts_dir),
    ]
}

/// Builds the argument list `compile_args_of` describes.
pub fn compile_args(src_file: &String, artifacts_dir: &String, release: bool) -> (result: Vec<
    String,
>)
    ensures
        views_of(result@) =~= compile_args_of(src_file@, artifacts_dir@, release),
{
    let mut result = warning_flags();
    result.push(String::from_str("-c"));
    result.push(src_file.clone());
    result.push(opt_flag(release));
    result.push(String::from_str("-o"));
    result.push(object_file(src_file.as_str(), artifacts_dir.as_str()));
    result
}

/// The tasks planned for one pending target, given the files found under its
/// source tree in discovery order: one compile task per `.c` file, in order,
/// all filling the target's artifact directory.
pub open spec fn planned_tasks_of(
    files: Seq<Seq<char>>,
    artifacts_dir: Seq<char>,
    release: bool,
) -> Seq<CompileTaskView>
    decreases files.len(),
{
    if files.len() == 0 {
        Seq::empty()
    } else {
        let init = planned_tasks_of(files.drop_last(), artifacts_dir, release);
        if is_c_source(files.last()) {
            init.push(
                CompileTaskView {
                    artifacts_dir,
                    args: compile_args_of(files.last(), artifacts_dir, release),
                },
            )
        } else {
            init
        }
    }
}

/// Plans the compile tasks of one pending target as `planned_tasks_of`
/// describes: `files` is what a walk of its source tree found, and anything
/// that is not a `.c` file is skipped.
pub fn plan_target_tasks(files: &Vec<String>, artifacts_dir: &String, release: bool) -> (result:
    Vec<CompileTask>)
    ensures
        result@.map_values(|t: CompileTask| t@) =~= planned_tasks_of(
            views_of(files@),
            artifacts_dir@,
            release,
        ),
{
    let mut result: Vec<CompileTask> = Vec::new();
    let n = files.len();
    let mut i: usize = 0;
    while i < n
        invariant
            i <= n,
            n == files@.len(),
            result@.map_values(|t: CompileTask| t@) =~= planned_tasks_of(
                views_of(files@).subrange(0, i as int),
                artifacts_dir@,
                release,
            ),
        decreases n - i,
    {
        let ghost prefix = views_of(files@).subrange(0, i as int);
        if has_c_extension(files[i].as_str()) {
            let task = CompileTask {
                artifacts_dir: artifacts_dir.clone(),
                args: compile_args(&files[i], artifacts_dir, release),
            };
            result.push(task);
        }
        i = i + 1;
        proof {
            let longer = views_of(files@).subrange(0, i as int);
            assert(longer.drop_last() =~= prefix);
            assert(longer.last() == files@[i - 1]@);
            assert(result@.map_values(|t: CompileTask| t@) =~= planned_tasks_of(
                longer,
                artifacts_dir@,
                release,
            ));
        }
    }
    proof {
        assert(views_of(files@).subrange(0, n as int) =~= views_of(files@));
    }
    result
}

// ---------------------------------------------------------------------------
// Task outcomes
// ---------------------------------------------------------------------------

/// What one finished compile task reported: the artifact directory it was
/// filling, the compiler's exit code (`0` is success), and its captured
/// diagnostics.
pub struct TaskResult {
    pub artifacts_dir: String,
    pub exit_code: u32,
    pub stderr: Vec<u8>,
}

#[verifier::ext_equal]
pub struct TaskResultView {
    pub artifacts_dir: Seq<char>,
    pub exit_code: u32,
    pub stderr: Seq<u8>,
}

impl View for TaskResult {
    type V = TaskResultView;

    open spec fn view(&self) -> TaskResultView {
        TaskResultView {
            artifacts_dir: self.artifacts_dir@,
            exit_code: self.exit_code,
            stderr: self.stderr@,
        }
    }
}

pub open spec fn results_view(results: Seq<TaskResult>) -> Seq<TaskResultView> {
    results.map_values(|r: TaskResult| r@)
}

/// Every task's diagnostics, success and failure alike, concatenated in task
/// order.
pub open spec fn all_stderr(results: Seq<TaskResultView>) -> Seq<u8>
    decreases results.len(),
{
    if results.len() == 0 {
        Seq::empty()
    } else {
        all_stderr(results.drop_last()) + results.last().stderr
    }
}

/// The exit codes, in task order.
pub open spec fn codes_of(results: Seq<TaskResultView>) -> Seq<u32> {
    results.map_values(|r: TaskResultView| r.exit_code)
}

/// Whether some task filling `dir` failed.
pub open spec fn dir_failed(results: Seq<TaskResultView>, dir: Seq<char>) -> bool {
    exists|i: int|
        0 <= i < results.len() && results[i].artifacts_dir == dir && results[i].exit_code != 0
}

/// The aggregate of a dependency build: everything the tasks printed, and
/// every task's exit status.
pub struct DependacyBuildOutput {
    pub stderr: Vec<u8>,
    pub exit_codes: Vec<u32>,
}

#[verifier::ext_equal]
pub struct DependacyBuildOutputView {
    pub stderr: Seq<u8>,
    pub exit_codes: Seq<u32>,
}

impl View for DependacyBuildOutput {
    type V = DependacyBuildOutputView;

    open spec fn view(&self) -> DependacyBuildOutputView {
        DependacyBuildOutputView { stderr: self.stderr@, exit_codes: self.exit_codes@ }
    }
}

/// Aggregates the finished tasks: concatenates every task's diagnostics in
/// order, collects every exit code, and names each artifact directory that
/// must be rolled back — exactly those some task of which failed, each named
/// once. Directories of targets whose tasks all succeeded are never named,
/// so their artifacts persist.
pub fn aggregate_results(results: &Vec<TaskResult>) -> (result: (
    DependacyBuildOutput,
    Vec<String>,
))
    ensures
        result.0@.stderr == all_stderr(results_view(results@)),
        result.0@.exit_codes =~= codes_of(results_view(results@)),
        views_of(result.1@).no_duplicates(),
        forall|d: Seq<char>|
            #[trigger] views_of(result.1@).contains(d) <==> dir_failed(
                results_view(results@),
                d,
            ),
{
    let ghost rv = results_view(results@);
    let mut stderr: Vec<u8> = Vec::new();
    let mut exit_codes: Vec<u32> = Vec::new();
    let mut failed_dirs: Vec<String> = Vec::new();
    let n = results.len();
    let mut i: usize = 0;
    proof {
        assert(stderr@ =~= all_stderr(rv.subrange(0, 0)));
    }
    while i < n
        invariant
            i <= n,
            n == results@.len(),
            rv == results_view(results@),
            stderr@ == all_stderr(rv.subrange(0, i as int)),
            exit_codes@ =~= codes_of(rv.subrange(0, i as int)),
            views_of(failed_dirs@).no_duplicates(),
            forall|d: Seq<char>|
                #[trigger] views_of(failed_dirs@).contains(d) <==> dir_failed(
                    rv.subrange(0, i as int),
                    d,
                ),
        decreases n - i,
    {
        let ghost prefix = rv.subrange(0, i as int);
        let m = results[i].stderr.len();
        let mut j: usize = 0;
        while j < m
            invariant
                j <= m,
                i < n,
                n == results@.len(),
                rv == results_view(results@),
                m == results@[i as int].stderr@.len(),
                stderr@ == all_stderr(rv.subrange(0, i as int)) + results@[i as int].stderr@
                    .subrange(0, j as int),
            decreases m - j,
        {
            let byte = results[i].stderr[j];
            stderr.push(byte);
            j = j + 1;
            proof {
                assert(stderr@ =~= all_stderr(rv.subrange(0, i as int)) + results@[i as int]
                    .stderr@.subrange(0, j as int));
            }
        }
        exit_codes.push(results[i].exit_code);
        let failed = results[i].exit_code != 0;
        let ghost dirs_before = views_of(failed_dirs@);
        if failed && !crate::text::contains_string(&failed_dirs, &results[i].artifacts_dir) {
            failed_dirs.push(results[i].artifacts_dir.clone());
        }
        i = i + 1;
        proof {
            let longer = rv.subrange(0, i as int);
            assert(longer.drop_last() =~= prefix);
            assert(longer.last() == rv[i - 1]);
            assert(results@[i - 1].stderr@.subrange(0, m as int) =~= rv[i - 1].stderr);
            assert(stderr@ =~= all_stderr(longer));
            assert(exit_codes@ =~= codes_of(longer));
            let dir_here = rv[i - 1].artifacts_dir;
            assert forall|d: Seq<char>| #[trigger]
                views_of(failed_dirs@).contains(d) implies dir_failed(longer, d) by {
                let k = choose|k: int|
                    0 <= k < views_of(failed_dirs@).len() && views_of(failed_dirs@)[k] == d;
                if k < dirs_before.len() {
                    assert(dirs_before[k] == d);
                    assert(dirs_before.contains(d));
                    let w = choose|w: int|
                        0 <= w < prefix.len() && prefix[w].artifacts_dir == d
                            && prefix[w].exit_code != 0;
                    assert(longer[w].artifacts_dir == d && longer[w].exit_code != 0);
                } else {
                    assert(d == dir_here);
                    assert(longer[i - 1].artifacts_dir == d && longer[i - 1].exit_code != 0);
                }
            }
            assert forall|d: Seq<char>| dir_failed(longer, d) implies #[trigger] views_of(
                failed_dirs@,
            ).contains(d) by {
                let w = choose|w: int|
                    0 <= w < longer.len() && longer[w].artifacts_dir == d && longer[w].exit_code
                        != 0;
                if w < i - 1 {
                    assert(prefix[w].artifacts_dir == d && prefix[w].exit_code != 0);
                    assert(dir_failed(prefix, d));
                    assert(dirs_before.contains(d));
                    let k = choose|k: int|
                        0 <= k < dirs_before.len() && dirs_before[k] == d;
                    assert(views_of(failed_dirs@)[k] == d);
                } else {
                    assert(d == dir_here && rv[i - 1].exit_code != 0);
                    if dirs_before.contains(d) {
                        let k = choose|k: int|
                            0 <= k < dirs_before.len() && dirs_before[k] == d;
                        assert(views_of(failed_dirs@)[k] == d);
                    } else {
                        assert(views_of(failed_dirs@)[views_of(failed_dirs@).len() - 1] == d);
                    }
                }
            }
            assert(views_of(failed_dirs@).no_duplicates()) by {
                assert forall|a: int, b: int|
                    0 <= a < b < views_of(failed_dirs@).len() implies views_of(failed_dirs@)[a]
                    != views_of(failed_dirs@)[b] by {
                    if b == views_of(failed_dirs@).len() - 1 && b == dirs_before.len() {
                        assert(views_of(failed_dirs@)[b] == dir_here);
                        if views_of(failed_dirs@)[a] == dir_here {
                            assert(dirs_before[a] == dir_here);
                            assert(dirs_before.contains(dir_here));
                        }
                    } else {
                        assert(views_of(failed_dirs@)[a] == dirs_before[a]);
                        assert(views_of(failed_dirs@)[b] == dirs_before[b]);
                    }
                }
            }
        }
    }
    proof {
        assert(rv.subrange(0, n as int) =~= rv);
    }
    (DependacyBuildOutput { stderr, exit_codes }, failed_dirs)
}

/// The first non-success exit code at or after `i`.
pub open spec fn first_failure_from(codes: Seq<u32>, i: int) -> Option<u32>
    decreases codes.len() - i,
{
    if i < 0 || i >= codes.len() {
        None
    } else if codes[i] != 0 {
        Some(codes[i])
    } else {
        first_failure_from(codes, i + 1)
    }
}

/// The first non-success exit code among all tasks, if any.
pub open spec fn first_failure_of(codes: Seq<u32>) -> Option<u32> {
    first_failure_from(codes, 0)
}

/// Finds the first non-success exit code: `None` means every task succeeded.
pub fn first_failure(codes: &Vec<u32>) -> (result: Option<u32>)
    ensures
        result == first_failure_of(codes@),
{
    let n = codes.len();
    let mut i: usize = 0;
    while i < n
        invariant
            i <= n,
            n == codes@.len(),
            first_failure_of(codes@) == first_failure_from(codes@, i as int),
        decreases n - i,
    {
        if codes[i] != 0 {
            return Some(codes[i]);
        }
        i = i + 1;
    }
    None
}

/// LAW: aggregation loses no diagnostics: each task's captured output,
/// failed or not, appears contiguously (in task order) in the aggregate.
pub proof fn lemma_all_diagnostics_kept(results: Seq<TaskResultView>, i: int)
    requires
        0 <= i < results.len(),
    ensures
        exists|a: int|
            0 <= a && a + results[i].stderr.len() <= all_stderr(results).len() && #[trigger] all_stderr(
                results,
            ).subrange(a, a + results[i].stderr.len()) == results[i].stderr,
    decreases results.len(),
{
    let whole = all_stderr(results);
    if i == results.len() - 1 {
        let a = all_stderr(results.drop_last()).len() as int;
        assert(whole.subrange(a, a + results[i].stderr.len()) =~= results[i].stderr);
    } else {
        lemma_all_diagnostics_kept(results.drop_last(), i);
        let l = results[i].stderr.len() as int;
        let a = choose|a: int|
            0 <= a && a + l <= all_stderr(results.drop_last()).len() && #[trigger] all_stderr(
                results.drop_last(),
            ).subrange(a, a + l) == results.drop_last()[i].stderr;
        assert(whole.subrange(a, a + l) =~= all_stderr(results.drop_last()).subrange(a, a + l));
    }
}

// ---------------------------------------------------------------------------
// The final link
// ---------------------------------------------------------------------------

/// Where the extension of a path's final component begins, if it has one:
/// the index of the last dot, unless that dot starts the component.
pub open spec fn ext_dot_of(path: Seq<char>) -> Option<int>
    decreases path.len(),
{
    if path.len() == 0 {
        None
    } else if path.last() == '/' {
        None
    } else if path.last() == '.' {
        if path.len() >= 2 && path[path.len() - 2] != '/' {
            Some(path.len() - 1)
        } else {
            None
        }
    } else {
        ext_dot_of(path.drop_last())
    }
}

/// `path` with its extension replaced by — or, when it has none, extended
/// with — `.exe`.
pub open spec fn with_exe_of(path: Seq<char>) -> Seq<char> {
    match ext_dot_of(path) {
        Some(p) => path.subrange(0, p) + ".exe"@,
        None => path + ".exe"@,
    }
}

/// Finds where the final component's extension begins, as `ext_dot_of`
/// describes.
fn find_ext_dot(path: &str) -> (result: Option<usize>)
    ensures
        match result {
            Some(p) => p < path@.len() && ext_dot_of(path@) == Some(p as int),
            None => ext_dot_of(path@) is None,
        },
{
    let n = path.unicode_len();
    let mut k: usize = n;
    proof {
        assert(path@.subrange(0, n as int) =~= path@);
    }
    while k > 0
        invariant
            k <= n,
            n == path@.len(),
            ext_dot_of(path@) == ext_dot_of(path@.subrange(0, k as int)),
        decreases k,
    {
        let ghost shorter = path@.subrange(0, k as int);
        let c = path.get_char(k - 1);
        if c == '/' {
            proof {
                assert(shorter.last() == '/');
            }
            return None;
        }
        if c == '.' {
            if k >= 2 && path.get_char(k - 2) != '/' {
                proof {
                    assert(ext_dot_of(shorter) == Some((k - 1) as int));
                }
                return Some(k - 1);
            } else {
                proof {
                    assert(ext_dot_of(shorter) is None);
                }
                return None;
            }
        }
        k = k - 1;
        proof {
            assert(shorter.drop_last() =~= path@.subrange(0, k as int));
        }
    }
    proof {
        assert(path@.subrange(0, 0) =~= Seq::<char>::empty());
    }
    None
}

/// Rewrites `path` as `with_exe_of` describes.
pub fn with_exe(path: &str) -> (result: String)
    ensures
        result@ == with_exe_of(path@),
{
    match find_ext_dot(path) {
        Some(p) => {
            let stem = path.substring_char(0, p);
            crate::text::concat_str(stem, ".exe")
        },
        None => crate::text::concat_str(path, ".exe"),
    }
}

/// The argument list of the final link: the warning flags, the project's
/// own sources, the include flags, every dependency's objects, the profile's
/// optimization flag, and `-o` with the output binary given an `exe`
/// extension.
pub open spec fn link_args_of(
    include_flags: Seq<Seq<char>>,
    libs: Seq<Seq<char>>,
    release: bool,
    out_binary: Seq<char>,
) -> Seq<Seq<char>> {
    warning_flags_spec() + seq!["src/*.c"@] + include_flags + libs + seq![
        opt_flag_spec(release),
        "-o"@,
        with_exe_of(out_binary),
    ]
}

/// Builds the final link's argument list as `link_args_of` describes.
pub fn link_args(
    include_flags: &Vec<String>,
    libs: &Vec<String>,
    release: bool,
    out_binary: &String,
) -> (result: Vec<String>)
    ensures
        views_of(result@) =~= link_args_of(
            views_of(include_flags@),
            views_of(libs@),
            release,
            out_binary@,
        ),
{
    let mut result = warning_flags();
    result.push(String::from_str("src/*.c"));
    crate::text::append_strings(&mut result, include_flags);
    crate::text::append_strings(&mut result, libs);
    result.push(opt_flag(release));
    result.push(String::from_str("-o"));
    result.push(with_exe(out_binary.as_str()));
    proof {
        assert(views_of(result@) =~= link_args_of(
            views_of(include_flags@),
            views_of(libs@),
            release,
            out_binary@,
        ));
    }
    result
}

/// The object-file globs of every lock entry, in lock order: each target's
/// artifact directory, `*.o`.
pub fn lib_globs(lock: &YacLock, artifacts_dir: &String) -> (result: Vec<String>)
    ensures
        result@.len() == lock@.package.len(),
        forall|i: int|
            0 <= i < result@.len() ==> (#[trigger] result@[i])@ == join_of(
                join_of(artifacts_dir@, lock@.package[i].yac_toml.package.name),
                "*.o"@,
            ),
{
    let mut result: Vec<String> = Vec::new();
    let n = lock.package.len();
    let mut i: usize = 0;
    while i < n
        invariant
            i <= n,
            n == lock@.package.len(),
            result@.len() == i,
            forall|j: int|
                0 <= j < i ==> (#[trigger] result@[j])@ == join_of(
                    join_of(artifacts_dir@, lock@.package[j].yac_toml.package.name),
                    "*.o"@,
                ),
        decreases n - i,
    {
        let dir = crate::paths::join_paths(
            artifacts_dir.as_str(),
            lock.package[i].yac_toml.package.name.as_str(),
        );
        result.push(crate::paths::join_paths(dir.as_str(), "*.o"));
        i = i + 1;
    }
    result
}

// ---------------------------------------------------------------------------
// Include flags
// ---------------------------------------------------------------------------

/// The first dependency declared by a `link` location, if any.
pub open spec fn first_link_from(deps: Seq<(Seq<char>, crate::yac_toml::DependencyView)>, i: int)
    -> Option<Seq<char>>
    decreases deps.len() - i,
{
    if i < 0 || i >= deps.len() {
        None
    } else if deps[i].1.location is Link {
        Some(deps[i].0)
    } else {
        first_link_from(deps, i + 1)
    }
}

/// The `include` directory declared location of every dependency, in
/// declaration order; a `link` dependency fails loudly with the unsupported
/// error, never silently skipped.
pub fn dep_include_paths(yac_toml: &YacToml) -> (result: Result<
    Vec<String>,
    YacLockLinearizeError,
>)
    ensures
        match result {
            Ok(paths) => {
                &&& first_link_from(yac_toml@.dependencies, 0) is None
                &&& paths@.len() == yac_toml@.dependencies.len()
                &&& forall|i: int|
                    0 <= i < paths@.len() ==> (
                    #[trigger] yac_toml@.dependencies[i].1.location) is Path
                &&& forall|i: int|
                    0 <= i < paths@.len() ==> (#[trigger] paths@[i])@ == join_of(
                        yac_toml@.dependencies[i].1.location.carried(),
                        "include"@,
                    )
            },
            Err(e) => e@ matches crate::yac_toml::LinearizeErrorView::UnsupportedLocation {
                dependency,
            } && first_link_from(yac_toml@.dependencies, 0) == Some(dependency),
        },
{
    let mut result: Vec<String> = Vec::new();
    let n = yac_toml.dependencies.len();
    let mut i: usize = 0;
    while i < n
        invariant
            i <= n,
            n == yac_toml@.dependencies.len(),
            result@.len() == i,
            first_link_from(yac_toml@.dependencies, 0) == first_link_from(
                yac_toml@.dependencies,
                i as int,
            ),
            forall|j: int| 0 <= j < i ==> (#[trigger] yac_toml@.dependencies[j].1.location) is Path,
            forall|j: int|
                0 <= j < i ==> (#[trigger] result@[j])@ == join_of(
                    yac_toml@.dependencies[j].1.location.carried(),
                    "include"@,
                ),
        decreases n - i,
    {
        proof {
            assert(yac_toml@.dependencies[i as int] == (
                yac_toml.dependencies@[i as int].0@,
                yac_toml.dependencies@[i as int].1@,
            ));
        }
        match &yac_toml.dependencies[i].1.location {
            Location::Link { .. } => {
                return Err(
                    YacLockLinearizeError::UnsupportedLocation {
                        dependency: yac_toml.dependencies[i].0.clone(),
                    },
                );
            },
            Location::Path { path } => {
                result.push(crate::paths::join_paths(path.as_str(), "include"));
                proof {
                    assert(yac_toml@.dependencies[i as int].1.location
                        == crate::yac_toml::LocationView::Path { path: path@ });
                    assert((result@[i as int])@ == join_of(
                        yac_toml@.dependencies[i as int].1.location.carried(),
                        "include"@,
                    ));
                }
            },
        }
        i = i + 1;
    }
    proof {
        assert(first_link_from(yac_toml@.dependencies, n as int) is None);
    }
    Ok(result)
}

/// Each path resolved against the process working directory — or, when the
/// environment refuses, left as it was. Only the length is a function of
/// the input.
pub fn absolutize_all(paths: &Vec<String>) -> (result: Vec<String>)
    ensures
        result@.len() == paths@.len(),
{
    let mut result: Vec<String> = Vec::new();
    let n = paths.len();
    let mut i: usize = 0;
    while i < n
        invariant
            i <= n,
            n == paths@.len(),
            result@.len() == i,
        decreases n - i,
    {
        match crate::paths::absolutize_path(paths[i].as_str()) {
            Some(resolved) => result.push(resolved),
            None => result.push(paths[i].clone()),
        }
        i = i + 1;
    }
    result
}

/// `-I` prefixed to each path, in order.
pub fn make_include_flags(paths: &Vec<String>) -> (result: Vec<String>)
    ensures
        result@.len() == paths@.len(),
        forall|i: int|
            0 <= i < result@.len() ==> (#[trigger] result@[i])@ == "-I"@ + paths@[i]@,
{
    let mut result: Vec<String> = Vec::new();
    let n = paths.len();
    let mut i: usize = 0;
    while i < n
        invariant
            i <= n,
            n == paths@.len(),
            result@.len() == i,
            forall|j: int| 0 <= j < i ==> (#[trigger] result@[j])@ == "-I"@ + paths@[j]@,
        decreases n - i,
    {
        result.push(crate::text::concat_str("-I", paths[i].as_str()));
        i = i + 1;
    }
    result
}

/// One `-I` flag per declared dependency, its `include` directory resolved
/// against the working directory; a `link` dependency fails loudly.
pub fn include_flags_for(yac_toml: &YacToml) -> (result: Result<
    Vec<String>,
    YacLockLinearizeError,
>)
    ensures
        match result {
            Ok(flags) => {
                &&& first_link_from(yac_toml@.dependencies, 0) is None
                &&& flags@.len() == yac_toml@.dependencies.len()
                &&& forall|i: int|
                    0 <= i < flags@.len() ==> (#[trigger] flags@[i])@.len() >= 2 && (
                    flags@[i])@.subrange(0, 2) == "-I"@
            },
            Err(e) => e@ matches crate::yac_toml::LinearizeErrorView::UnsupportedLocation {
                dependency,
            } && first_link_from(yac_toml@.dependencies, 0) == Some(dependency),
        },
{
    let paths = dep_include_paths(yac_toml)?;
    let resolved = absolutize_all(&paths);
    let flags = make_include_flags(&resolved);
    proof {
        reveal_strlit("-I");
        assert forall|i: int|
            0 <= i < flags@.len() implies (#[trigger] flags@[i])@.len() >= 2 && (
        flags@[i])@.subrange(0, 2) == "-I"@ by {
            assert((flags@[i])@ == "-I"@ + resolved@[i]@);
            assert((flags@[i])@.subrange(0, 2) =~= "-I"@);
        }
    }
    Ok(flags)
}

// ---------------------------------------------------------------------------
// Flow decisions
// ---------------------------------------------------------------------------

/// The configuration the final link consumes.
#[derive(Clone, Debug, PartialEq, Eq)]
pub struct BuildCfg {
    pub target: String,
    pub executable_name: String,
    pub release: bool,
}

impl BuildCfg {
    /// The configuration drawn from a build-script descriptor.
    pub fn from_dynamic(build: &crate::dynamic::Build, release: bool) -> (result: Self)
        ensures
            result.target@ == "target"@,
            result.executable_name@ == build@.executable_name,
            result.release == release,
    {
        BuildCfg {
            target: String::from_str("target"),
            executable_name: build.executable_name.clone(),
            release,
        }
    }

    /// The configuration synthesized without a build script: the package
    /// name names the binary.
    pub fn without_script(yac_toml: &YacToml, release: bool) -> (result: Self)
        ensures
            result.target@ == "target"@,
            result.executable_name@ == yac_toml@.package.name,
            result.release == release,
    {
        BuildCfg {
            target: String::from_str("target"),
            executable_name: yac_toml.package.name.clone(),
            release,
        }
    }
}

/// Whether the lock must be recomputed: it is absent, or the manifest's
/// content hash differs from what produced it. Otherwise the stored lock is
/// trusted as it stands.
pub fn lock_is_stale(lock_present: bool, manifest_changed: bool) -> (result: bool)
    ensures
        result == (!lock_present || manifest_changed),
{
    !lock_present || manifest_changed
}

/// The progress line printed for a compilation: the package name, `v` and
/// its version, and, when one is shown, the project path in parentheses.
pub fn compiling_message(name: &String, version: &String, path: Option<&String>) -> (result:
    String)
    ensures
        result@ == name@ + " v"@ + version@ + (match path {
            Some(p) => " ("@ + p@ + ")"@,
            None => Seq::<char>::empty(),
        }),
{
    let mut result = name.clone();
    result.append(" v");
    result.append(version.as_str());
    match path {
        Some(p) => {
            result.append(" (");
            result.append(p.as_str());
            result.append(")");
        },
        None => {},
    }
    proof {
        assert(result@ =~= name@ + " v"@ + version@ + (match path {
            Some(p) => " ("@ + p@ + ")"@,
            None => Seq::<char>::empty(),
        }));
    }
    result
}

} // verus!
