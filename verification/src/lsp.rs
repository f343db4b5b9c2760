//! The editor configuration regenerated beside a build: which include flags
//! the language server should add. Reading and writing the file is the
//! caller's I/O; what the file should contain is decided here.

use vstd::prelude::*;
use vstd::string::StringExecFns;
use crate::text::views_of;

verus! {

/// Where this tool's own bundled headers live, for projects with a build
/// script.
pub const YAC_INCLUDE_PATH: &'static str = "D:\\Svyatoslav\\Programs\\yac\\include";

/// A homogeneous list a configuration key appends.
#[derive(Clone, Debug, PartialEq, Eq)]
pub struct Add<T> {
    pub values: Vec<T>,
}

impl<T> Default for Add<T> {
    fn default() -> (result: Self)
        ensures
            result.values@ =~= Seq::<T>::empty(),
    {
        Add { values: Vec::new() }
    }
}

/// The compiler flags handed to the language server.
#[derive(Clone, Debug, PartialEq, Eq)]
pub struct CompileFlags {
    pub add: Add<String>,
}

impl Default for CompileFlags {
    fn default() -> (result: Self)
        ensures
            result.add.values@ =~= Seq::<String>::empty(),
    {
        CompileFlags { add: Add { values: Vec::new() } }
    }
}

/// The whole configuration: today, only added compile flags.
#[derive(Clone, Debug, PartialEq, Eq)]
pub struct Clangd {
    pub compile_flags: CompileFlags,
}

impl Default for Clangd {
    fn default() -> (result: Self)
        ensures
            result.flag_views() =~= Seq::<Seq<char>>::empty(),
    {
        Clangd { compile_flags: CompileFlags { add: Add { values: Vec::new() } } }
    }
}

impl Clangd {
    /// The added flags, as character sequences.
    pub open spec fn flag_views(&self) -> Seq<Seq<char>> {
        views_of(self.compile_flags.add.values@)
    }

    /// Appends `-I` with the given path to the added flags.
    pub fn add_include_path(&mut self, path: &str)
        ensures
            final(self).flag_views() =~= old(self).flag_views().push("-I"@ + path@),
    {
        let flag = crate::text::concat_str("-I", path);
        self.compile_flags.add.values.push(flag);
        proof {
            assert(final(self).flag_views() =~= old(self).flag_views().push("-I"@ + path@));
        }
    }

    /// Whether nothing would be written: a configuration with no flags is
    /// removed rather than stored.
    pub fn is_empty(&self) -> (result: bool)
        ensures
            result == (self.flag_views().len() == 0),
    {
        self.compile_flags.add.values.is_empty()
    }

    /// Rebuilds the added flags for the current project: the bundled include
    /// path when a build script exists, then one flag per dependency.
    pub fn refresh(&mut self, script_present: bool, include_flags: &Vec<String>)
        ensures
            final(self).flag_views() =~= (if script_present {
                seq!["-I"@ + YAC_INCLUDE_PATH@]
            } else {
                Seq::<Seq<char>>::empty()
            }) + views_of(include_flags@),
    {
        self.compile_flags.add.values.clear();
        if script_present {
            self.add_include_path(YAC_INCLUDE_PATH);
        }
        let ghost mid = self.compile_flags.add.values@;
        let ghost base: Seq<Seq<char>> = if script_present {
            seq!["-I"@ + YAC_INCLUDE_PATH@]
        } else {
            Seq::<Seq<char>>::empty()
        };
        proof {
            assert(views_of(mid) =~= base);
        }
        crate::text::append_strings(&mut self.compile_flags.add.values, include_flags);
        proof {
            let vals = self.compile_flags.add.values@;
            assert forall|k: int|
                0 <= k < vals.len() implies (#[trigger] vals[k])@ == (base + views_of(
                include_flags@,
            ))[k] by {
                if k < mid.len() {
                    assert(vals[k] == mid[k]);
                    assert(views_of(mid)[k] == base[k]);
                } else {
                    assert(vals[k] == include_flags@[k - mid.len()]);
                }
            }
            assert(views_of(vals) =~= base + views_of(include_flags@));
        }
    }
}

} // verus!
