//! The extension bridge's host side: what comes back over the C ABI from a
//! build script, marshalled into host-owned strings, and the post-processing
//! that turns it into the descriptor the orchestrator consumes. The unsafe
//! boundary itself (loading the shared library, reading foreign pointers)
//! lives outside the verified core and hands values in as `RawBuild`.

use vstd::prelude::*;
use vstd::string::StringExecFns;
use crate::text::views_of;

verus! {

/// The foreign descriptor record, one step past the ABI: each foreign string
/// is either absent (`None`, standing for a null pointer) or its copied
/// contents, and each foreign array is the vector of its counted elements.
pub struct RawBuild {
    pub executable_name: Option<String>,
    pub src_files: Vec<Option<String>>,
    pub link_directories: Vec<Option<String>>,
    pub enables_flags: Vec<Option<String>>,
}

/// The build descriptor: host-owned plain strings, independent of any
/// foreign library's lifetime.
#[derive(Clone, Debug, PartialEq, Eq)]
pub struct Build {
    pub executable_name: String,
    pub src_files: Vec<String>,
    pub link_directories: Vec<String>,
    pub enabled_flags: Vec<String>,
}

#[verifier::ext_equal]
pub struct RawBuildView {
    pub executable_name: Option<Seq<char>>,
    pub src_files: Seq<Option<Seq<char>>>,
    pub link_directories: Seq<Option<Seq<char>>>,
    pub enables_flags: Seq<Option<Seq<char>>>,
}

#[verifier::ext_equal]
pub struct BuildView {
    pub executable_name: Seq<char>,
    pub src_files: Seq<Seq<char>>,
    pub link_directories: Seq<Seq<char>>,
    pub enabled_flags: Seq<Seq<char>>,
}

/// The view of one foreign string.
pub open spec fn raw_str_view(s: Option<String>) -> Option<Seq<char>> {
    match s {
        Some(s) => Some(s@),
        None => None,
    }
}

impl View for RawBuild {
    type V = RawBuildView;

    open spec fn view(&self) -> RawBuildView {
        RawBuildView {
            executable_name: raw_str_view(self.executable_name),
            src_files: self.src_files@.map_values(|s: Option<String>| raw_str_view(s)),
            link_directories: self.link_directories@.map_values(
                |s: Option<String>| raw_str_view(s),
            ),
            enables_flags: self.enables_flags@.map_values(|s: Option<String>| raw_str_view(s)),
        }
    }
}

impl View for Build {
    type V = BuildView;

    open spec fn view(&self) -> BuildView {
        BuildView {
            executable_name: self.executable_name@,
            src_files: views_of(self.src_files@),
            link_directories: views_of(self.link_directories@),
            enabled_flags: views_of(self.enabled_flags@),
        }
    }
}

/// What marshalling one foreign string yields: a null pointer becomes the
/// empty string, anything else its contents.
pub open spec fn marshalled_str(s: Option<Seq<char>>) -> Seq<char> {
    match s {
        Some(s) => s,
        None => Seq::empty(),
    }
}

/// What marshalling a counted foreign string array yields, element for
/// element.
pub open spec fn marshalled_list(l: Seq<Option<Seq<char>>>) -> Seq<Seq<char>> {
    l.map_values(|s: Option<Seq<char>>| marshalled_str(s))
}

/// What marshalling the whole foreign record yields.
pub open spec fn marshalled_build(raw: RawBuildView) -> BuildView {
    BuildView {
        executable_name: marshalled_str(raw.executable_name),
        src_files: marshalled_list(raw.src_files),
        link_directories: marshalled_list(raw.link_directories),
        enabled_flags: marshalled_list(raw.enables_flags),
    }
}

/// Marshals one foreign string: a null pointer yields an empty string, never
/// a fault.
pub fn marshal_c_str(raw: Option<String>) -> (result: String)
    ensures
        result@ == marshalled_str(raw_str_view(raw)),
{
    match raw {
        Some(s) => s,
        None => String::new(),
    }
}

fn marshal_str_list(raw: &Vec<Option<String>>) -> (result: Vec<String>)
    ensures
        result@.len() == raw@.len(),
        forall|j: int|
            0 <= j < raw@.len() ==> (#[trigger] result@[j])@ == marshalled_str(
                raw_str_view(raw@[j]),
            ),
{
    let mut result: Vec<String> = Vec::new();
    let n = raw.len();
    let mut i: usize = 0;
    while i < n
        invariant
            i <= n,
            n == raw@.len(),
            result@.len() == i,
            forall|j: int|
                0 <= j < i ==> (#[trigger] result@[j])@ == marshalled_str(raw_str_view(raw@[j])),
        decreases n - i,
    {
        let element = match &raw[i] {
            Some(s) => Some(s.clone()),
            None => None,
        };
        result.push(marshal_c_str(element));
        i = i + 1;
    }
    result
}

impl Build {
    /// Marshals the whole foreign record into host-owned strings: exactly
    /// the counted elements are copied, and every null string pointer — the
    /// executable name or any array element — becomes an empty string.
    pub fn from_raw(raw: &RawBuild) -> (result: Self)
        ensures
            result@ == marshalled_build(raw@),
    {
        let executable_name = match &raw.executable_name {
            Some(s) => Some(s.clone()),
            None => None,
        };
        let result = Build {
            executable_name: marshal_c_str(executable_name),
            src_files: marshal_str_list(&raw.src_files),
            link_directories: marshal_str_list(&raw.link_directories),
            enabled_flags: marshal_str_list(&raw.enables_flags),
        };
        proof {
            assert(result@ =~= marshalled_build(raw@));
        }
        result
    }
}

/// LAW: marshalling never faults on null: a null pointer in any descriptor
/// string field — the executable name or any element of the three arrays —
/// yields precisely the empty string.
pub proof fn lemma_null_marshals_empty(raw: RawBuildView)
    ensures
        raw.executable_name is None ==> marshalled_build(raw).executable_name =~= Seq::<
            char,
        >::empty(),
        forall|i: int|
            0 <= i < raw.src_files.len() && raw.src_files[i] is None ==> marshalled_build(
                raw,
            ).src_files[i] =~= Seq::<char>::empty(),
        forall|i: int|
            0 <= i < raw.link_directories.len() && raw.link_directories[i] is None
                ==> marshalled_build(raw).link_directories[i] =~= Seq::<char>::empty(),
        forall|i: int|
            0 <= i < raw.enables_flags.len() && raw.enables_flags[i] is None ==> marshalled_build(
                raw,
            ).enabled_flags[i] =~= Seq::<char>::empty(),
{
}

// ---------------------------------------------------------------------------
// Descriptor post-processing
// ---------------------------------------------------------------------------

/// The conventional source-file pattern every build compiles, whether or not
/// a build script adds its own.
pub open spec fn default_src_pattern() -> Seq<char> {
    "src/*.c"@
}

/// What post-processing yields: an empty executable name is replaced by the
/// package name, and the conventional source pattern is appended unless the
/// script already listed it — customization is additive over the convention.
pub open spec fn finished_build(b: BuildView, package_name: Seq<char>) -> BuildView {
    BuildView {
        executable_name: if b.executable_name.len() == 0 {
            package_name
        } else {
            b.executable_name
        },
        src_files: if b.src_files.contains(default_src_pattern()) {
            b.src_files
        } else {
            b.src_files.push(default_src_pattern())
        },
        ..b
    }
}

impl Build {
    /// Applies the post-processing `finished_build` describes to a
    /// marshalled descriptor.
    pub fn finish(self, package_name: &String) -> (result: Self)
        ensures
            result@ == finished_build(self@, package_name@),
    {
        let ghost orig = self@;
        let Build { executable_name, mut src_files, link_directories, enabled_flags } = self;
        let executable_name = if executable_name.as_str().is_empty() {
            package_name.clone()
        } else {
            executable_name
        };
        let pattern = String::from_str("src/*.c");
        if !crate::text::contains_string(&src_files, &pattern) {
            src_files.push(pattern);
        }
        let result = Build { executable_name, src_files, link_directories, enabled_flags };
        proof {
            assert(result@.src_files =~= finished_build(orig, package_name@).src_files);
            assert(result@ =~= finished_build(orig, package_name@));
        }
        result
    }

    /// The descriptor synthesized when no build script exists: the package
    /// name as executable name, the conventional source pattern alone, and
    /// nothing else.
    pub fn synthesized_default(package_name: &String) -> (result: Self)
        ensures
            result@.executable_name == package_name@,
            result@.src_files =~= seq![default_src_pattern()],
            result@.link_directories =~= Seq::<Seq<char>>::empty(),
            result@.enabled_flags =~= Seq::<Seq<char>>::empty(),
    {
        let mut src_files: Vec<String> = Vec::new();
        src_files.push(String::from_str("src/*.c"));
        let result = Build {
            executable_name: package_name.clone(),
            src_files,
            link_directories: Vec::new(),
            enabled_flags: Vec::new(),
        };
        proof {
            assert(result@.src_files =~= seq![default_src_pattern()]);
            assert(result@.link_directories =~= Seq::<Seq<char>>::empty());
            assert(result@.enabled_flags =~= Seq::<Seq<char>>::empty());
        }
        result
    }
}

/// LAW: a build script that adds no source pattern — indeed, any script at
/// all — still yields a descriptor containing the conventional default
/// pattern.
pub proof fn lemma_default_pattern_always_present(b: BuildView, package_name: Seq<char>)
    ensures
        finished_build(b, package_name).src_files.contains(default_src_pattern()),
{
    if !b.src_files.contains(default_src_pattern()) {
        let appended = b.src_files.push(default_src_pattern());
        assert(appended[appended.len() - 1] == default_src_pattern());
    }
}

// ---------------------------------------------------------------------------
// Build-script state machine
// ---------------------------------------------------------------------------

/// What to do about the build script before a build.
#[derive(Clone, Copy, Debug, PartialEq, Eq, Structural)]
pub enum ScriptCompileAction {
    /// No script file: use the synthesized default descriptor.
    NoScript,
    /// The compiled library is up to date: load it without recompiling.
    Reuse,
    /// The script is new, changed, or previously failed: recompile it.
    Compile,
}

/// Decides what to do about the build script: absent, reusable, or to be
/// (re)compiled — where `script_stale` comes from `build_stale`, whose
/// sticky flag forces recompilation after a failure.
pub fn compile_script_decision(script_present: bool, script_stale: bool) -> (result:
    ScriptCompileAction)
    ensures
        result == (if !script_present {
            ScriptCompileAction::NoScript
        } else if script_stale {
            ScriptCompileAction::Compile
        } else {
            ScriptCompileAction::Reuse
        }),
{
    if !script_present {
        ScriptCompileAction::NoScript
    } else if script_stale {
        ScriptCompileAction::Compile
    } else {
        ScriptCompileAction::Reuse
    }
}

/// Why creating the bridge to a compiled build script failed. Both are
/// fatal: no descriptor is produced.
#[derive(Clone, Debug, PartialEq, Eq)]
pub enum BuilderCreationError {
    /// The shared library could not be loaded at all.
    LibraryInvalid { message: String },
    /// The library loaded but lacks one of the three fixed entry points.
    MissingEntryPoint { symbol: String },
}

pub enum BuilderCreationErrorView {
    LibraryInvalid { message: Seq<char> },
    MissingEntryPoint { symbol: Seq<char> },
}

impl View for BuilderCreationError {
    type V = BuilderCreationErrorView;

    open spec fn view(&self) -> BuilderCreationErrorView {
        match self {
            BuilderCreationError::LibraryInvalid { message } => {
                BuilderCreationErrorView::LibraryInvalid { message: message@ }
            },
            BuilderCreationError::MissingEntryPoint { symbol } => {
                BuilderCreationErrorView::MissingEntryPoint { symbol: symbol@ }
            },
        }
    }
}

} // verus!
