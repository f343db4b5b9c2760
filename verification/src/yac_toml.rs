//! Manifest and lock model, and the dependency-graph resolver that flattens a
//! manifest tree into an ordered, deduplicated lock.

use vstd::prelude::*;
use vstd::string::StrSliceExecFns;
use vstd::string::StringExecFns;
use crate::paths::{join_of, join_paths, normalize_of, normalize_rel};
use crate::text::{replace_backslashes, slashes_of, views_of, contains_string};

verus! {

/// How deep the resolver will follow nested dependencies before giving up.
pub const RECURSION_LIMIT: usize = 256;

// ---------------------------------------------------------------------------
// Data model
// ---------------------------------------------------------------------------

/// What a package is built into; it affects the link step downstream, not the
/// resolution itself.
#[derive(Clone, Copy, Debug, PartialEq, Eq)]
pub enum PackageType {
    Executable,
    StaticLib,
    DynamicLib,
}

/// Declared identity of a package.
#[derive(Clone, Debug, PartialEq, Eq)]
pub struct Package {
    pub name: String,
    pub version: String,
    pub ty: PackageType,
}

/// How a dependency is resolved: against a native manifest, or by a foreign
/// build system (declared, not implemented).
#[derive(Clone, Copy, Debug, PartialEq, Eq)]
pub enum Type {
    Yac,
    Cmake,
}

/// Where a dependency lives: a path relative to the depending project, or a
/// named link (declared, unsupported: resolving one fails loudly).
#[derive(Clone, Debug, PartialEq, Eq)]
pub enum Location {
    Path { path: String },
    Link { link: String },
}

/// A declared dependency: an informational version string, a location, and a
/// resolution type.
#[derive(Clone, Debug, PartialEq, Eq)]
pub struct Dependency {
    pub version: String,
    pub location: Location,
    pub ty: Type,
}

/// A manifest: one package plus its declared dependencies, a mapping from
/// dependency name to descriptor held as a vector of pairs.
#[derive(Clone, Debug, PartialEq, Eq)]
pub struct YacToml {
    pub package: Package,
    pub dependencies: Vec<(String, Dependency)>,
}

/// One lock entry: a resolved manifest plus the descriptor that reached it.
#[derive(Clone, Debug, PartialEq, Eq)]
pub struct Target {
    pub yac_toml: YacToml,
    pub description: Dependency,
}

/// The flattened, ordered, deduplicated resolution of a manifest tree.
#[derive(Clone, Debug, PartialEq, Eq)]
pub struct YacLock {
    pub package: Vec<Target>,
}

// ---------------------------------------------------------------------------
// Mathematical views
// ---------------------------------------------------------------------------

pub struct PackageView {
    pub name: Seq<char>,
    pub version: Seq<char>,
    pub ty: PackageType,
}

pub enum LocationView {
    Path { path: Seq<char> },
    Link { link: Seq<char> },
}

pub struct DependencyView {
    pub version: Seq<char>,
    pub location: LocationView,
    pub ty: Type,
}

#[verifier::ext_equal]
pub struct YacTomlView {
    pub package: PackageView,
    pub dependencies: Seq<(Seq<char>, DependencyView)>,
}

#[verifier::ext_equal]
pub struct TargetView {
    pub yac_toml: YacTomlView,
    pub description: DependencyView,
}

#[verifier::ext_equal]
pub struct YacLockView {
    pub package: Seq<TargetView>,
}

impl View for Package {
    type V = PackageView;

    open spec fn view(&self) -> PackageView {
        PackageView { name: self.name@, version: self.version@, ty: self.ty }
    }
}

impl View for Location {
    type V = LocationView;

    open spec fn view(&self) -> LocationView {
        match self {
            Location::Path { path } => LocationView::Path { path: path@ },
            Location::Link { link } => LocationView::Link { link: link@ },
        }
    }
}

impl View for Dependency {
    type V = DependencyView;

    open spec fn view(&self) -> DependencyView {
        DependencyView { version: self.version@, location: self.location@, ty: self.ty }
    }
}

impl View for YacToml {
    type V = YacTomlView;

    open spec fn view(&self) -> YacTomlView {
        YacTomlView {
            package: self.package@,
            dependencies: self.dependencies@.map_values(
                |p: (String, Dependency)| (p.0@, p.1@),
            ),
        }
    }
}

impl View for Target {
    type V = TargetView;

    open spec fn view(&self) -> TargetView {
        TargetView { yac_toml: self.yac_toml@, description: self.description@ }
    }
}

impl View for YacLock {
    type V = YacLockView;

    open spec fn view(&self) -> YacLockView {
        YacLockView { package: self.package@.map_values(|t: Target| t@) }
    }
}

impl LocationView {
    /// The string a location carries: the relative path of a `Path`, the
    /// identifier of a `Link`.
    pub open spec fn carried(self) -> Seq<char> {
        match self {
            LocationView::Path { path } => path,
            LocationView::Link { link } => link,
        }
    }
}

impl YacTomlView {
    /// Well-formedness from the model: dependency names are unique.
    pub open spec fn wf(self) -> bool {
        forall|i: int, j: int|
            0 <= i < j < self.dependencies.len() ==> self.dependencies[i].0
                != self.dependencies[j].0
    }
}

// ---------------------------------------------------------------------------
// Constructors and view-preserving clones
// ---------------------------------------------------------------------------

impl YacToml {
    /// A fresh manifest for a package called `name`, of the given kind, at
    /// the conventional initial version and with no dependencies.
    pub fn new(name: &str, package_type: PackageType) -> (result: Self)
        ensures
            result@.package.name == name@,
            result@.package.version == "0.1.0"@,
            result@.package.ty == package_type,
            result@.dependencies.len() == 0,
    {
        let result = YacToml {
            package: Package {
                name: String::from_str(name),
                version: String::from_str("0.1.0"),
                ty: package_type,
            },
            dependencies: Vec::new(),
        };
        proof {
            assert(result@.dependencies =~= Seq::<(Seq<char>, DependencyView)>::empty());
        }
        result
    }

    /// A view-preserving copy.
    pub fn duplicate(&self) -> (result: Self)
        ensures
            result@ == self@,
    {
        let mut dependencies: Vec<(String, Dependency)> = Vec::new();
        let n = self.dependencies.len();
        let mut i: usize = 0;
        while i < n
            invariant
                i <= n,
                n == self.dependencies@.len(),
                dependencies@.len() == i,
                forall|j: int|
                    0 <= j < i ==> (#[trigger] dependencies@[j].0@, dependencies@[j].1@)
                        == self@.dependencies[j],
            decreases n - i,
        {
            let name = self.dependencies[i].0.clone();
            let dependency = self.dependencies[i].1.duplicate();
            dependencies.push((name, dependency));
            i = i + 1;
        }
        let result = YacToml {
            package: Package {
                name: self.package.name.clone(),
                version: self.package.version.clone(),
                ty: self.package.ty,
            },
            dependencies,
        };
        proof {
            assert(result@.dependencies =~= self@.dependencies);
            assert(result@ =~= self@);
        }
        result
    }
}

impl Dependency {
    /// A view-preserving copy.
    pub fn duplicate(&self) -> (result: Self)
        ensures
            result@ == self@,
    {
        Dependency {
            version: self.version.clone(),
            location: match &self.location {
                Location::Path { path } => Location::Path { path: path.clone() },
                Location::Link { link } => Location::Link { link: link.clone() },
            },
            ty: self.ty,
        }
    }
}

// ---------------------------------------------------------------------------
// Manifest store
// ---------------------------------------------------------------------------

/// The manifest tree as data: each entry maps the location a dependency is
/// joined to (as `join_of` builds it) to the manifest read there. The caller
/// reads the files; the resolver only looks locations up.
pub struct ManifestStore {
    pub entries: Vec<(String, YacToml)>,
}

pub type StoreView = Seq<(Seq<char>, YacTomlView)>;

impl View for ManifestStore {
    type V = StoreView;

    open spec fn view(&self) -> StoreView {
        self.entries@.map_values(|p: (String, YacToml)| (p.0@, p.1@))
    }
}

/// The manifest of the first entry at `key`, scanning from index `i`.
pub open spec fn store_lookup_from(store: StoreView, key: Seq<char>, i: int) -> Option<
    YacTomlView,
>
    decreases store.len() - i,
{
    if i < 0 || i >= store.len() {
        None
    } else if store[i].0 == key {
        Some(store[i].1)
    } else {
        store_lookup_from(store, key, i + 1)
    }
}

/// The manifest stored at `key`, if any.
pub open spec fn store_lookup(store: StoreView, key: Seq<char>) -> Option<YacTomlView> {
    store_lookup_from(store, key, 0)
}

impl ManifestStore {
    /// An empty store.
    pub fn new() -> (result: Self)
        ensures
            result@.len() == 0,
    {
        let result = ManifestStore { entries: Vec::new() };
        proof {
            assert(result@ =~= Seq::<(Seq<char>, YacTomlView)>::empty());
        }
        result
    }

    /// Appends `manifest` under `location`.
    pub fn add(&mut self, location: String, manifest: YacToml)
        ensures
            final(self)@ =~= old(self)@.push((location@, manifest@)),
    {
        self.entries.push((location, manifest));
        proof {
            assert(final(self)@ =~= old(self)@.push((location@, manifest@)));
        }
    }

    /// The manifest stored at `key`, if any.
    pub fn lookup(&self, key: &String) -> (result: Option<&YacToml>)
        ensures
            match result {
                Some(manifest) => store_lookup(self@, key@) == Some(manifest@),
                None => store_lookup(self@, key@) is None,
            },
    {
        let n = self.entries.len();
        let mut i: usize = 0;
        while i < n
            invariant
                i <= n,
                n == self.entries@.len(),
                store_lookup(self@, key@) == store_lookup_from(self@, key@, i as int),
            decreases n - i,
        {
            if self.entries[i].0 == *key {
                return Some(&self.entries[i].1);
            }
            i = i + 1;
        }
        None
    }
}

// ---------------------------------------------------------------------------
// Resolution errors
// ---------------------------------------------------------------------------

/// Why flattening a manifest tree failed. Every failure is fatal for the
/// whole resolution.
#[derive(Clone, Debug, PartialEq, Eq)]
pub enum YacLockLinearizeError {
    /// Nesting deeper than `RECURSION_LIMIT`.
    RecursionLimit,
    /// A dependency declared by a `link` location, which cannot be resolved.
    UnsupportedLocation { dependency: String },
    /// No manifest is stored at the location a dependency points to.
    MissingManifest { location: String },
}

pub enum LinearizeErrorView {
    RecursionLimit,
    UnsupportedLocation { dependency: Seq<char> },
    MissingManifest { location: Seq<char> },
}

impl View for YacLockLinearizeError {
    type V = LinearizeErrorView;

    open spec fn view(&self) -> LinearizeErrorView {
        match self {
            YacLockLinearizeError::RecursionLimit => LinearizeErrorView::RecursionLimit,
            YacLockLinearizeError::UnsupportedLocation { dependency } => {
                LinearizeErrorView::UnsupportedLocation { dependency: dependency@ }
            },
            YacLockLinearizeError::MissingManifest { location } => {
                LinearizeErrorView::MissingManifest { location: location@ }
            },
        }
    }
}

// ---------------------------------------------------------------------------
// The resolver, as a mathematical function
// ---------------------------------------------------------------------------

/// The two accumulators the traversal threads along: the lock entries emitted
/// so far, and every package name seen so far (seen once, never re-entered).
#[verifier::ext_equal]
pub struct ResolveState {
    pub targets: Seq<TargetView>,
    pub used: Seq<Seq<char>>,
}

/// The lock entry emitted for the manifest `m` found at normalized location
/// `pretty`: the manifest itself plus a descriptor recording how it was
/// reached.
pub open spec fn target_for(m: YacTomlView, pretty: Seq<char>) -> TargetView {
    TargetView {
        yac_toml: m,
        description: DependencyView {
            version: m.package.version,
            location: LocationView::Path { path: pretty },
            ty: Type::Yac,
        },
    }
}

/// Visit the manifest `m` at (unnormalized) location `loc`: skip it if its
/// package name was already seen, otherwise resolve its dependencies
/// post-order and then emit `m` itself — unless its normalized location is
/// empty, which marks the resolution root.
pub open spec fn resolve_manifest(
    store: StoreView,
    m: YacTomlView,
    loc: Seq<char>,
    st: ResolveState,
    fuel: nat,
) -> Result<ResolveState, LinearizeErrorView>
    decreases fuel, 0int, 0int,
{
    if fuel == 0 {
        Err(LinearizeErrorView::RecursionLimit)
    } else if st.used.contains(m.package.name) {
        Ok(st)
    } else {
        let entered = ResolveState { targets: st.targets, used: st.used.push(m.package.name) };
        match resolve_deps(store, m, loc, 0, entered, (fuel - 1) as nat) {
            Err(e) => Err(e),
            Ok(resolved) => {
                let pretty = normalize_of(slashes_of(loc));
                if pretty.len() == 0 {
                    Ok(resolved)
                } else {
                    Ok(
                        ResolveState {
                            targets: resolved.targets.push(target_for(m, pretty)),
                            used: resolved.used,
                        },
                    )
                }
            },
        }
    }
}

/// Resolve the dependencies of `m` from index `i` on, each against the store
/// at its location joined onto `loc`, descending with `child_fuel`.
pub open spec fn resolve_deps(
    store: StoreView,
    m: YacTomlView,
    loc: Seq<char>,
    i: int,
    st: ResolveState,
    child_fuel: nat,
) -> Result<ResolveState, LinearizeErrorView>
    decreases child_fuel, m.dependencies.len() - i, 1int,
{
    if i < 0 || i >= m.dependencies.len() {
        Ok(st)
    } else {
        let (dep_name, dep) = m.dependencies[i];
        match dep.location {
            LocationView::Link { link } => {
                Err(LinearizeErrorView::UnsupportedLocation { dependency: dep_name })
            },
            LocationView::Path { path } => {
                let child_loc = join_of(loc, path);
                match store_lookup(store, child_loc) {
                    None => Err(LinearizeErrorView::MissingManifest { location: child_loc }),
                    Some(child) => match resolve_manifest(store, child, child_loc, st, child_fuel) {
                        Err(e) => Err(e),
                        Ok(after_child) => resolve_deps(
                            store,
                            m,
                            loc,
                            i + 1,
                            after_child,
                            child_fuel,
                        ),
                    },
                }
            },
        }
    }
}

/// What resolving `m` at `loc` against `store` yields: the ordered lock
/// entries, or the first error met.
pub open spec fn spec_linearize(store: StoreView, m: YacTomlView, loc: Seq<char>) -> Result<
    Seq<TargetView>,
    LinearizeErrorView,
> {
    match resolve_manifest(
        store,
        m,
        loc,
        ResolveState { targets: Seq::empty(), used: Seq::empty() },
        RECURSION_LIMIT as nat,
    ) {
        Ok(st) => Ok(st.targets),
        Err(e) => Err(e),
    }
}

// ---------------------------------------------------------------------------
// The resolver, executable
// ---------------------------------------------------------------------------

/// The model of the two accumulator vectors.
pub open spec fn state_of(targets: Seq<Target>, used: Seq<String>) -> ResolveState {
    ResolveState {
        targets: targets.map_values(|t: Target| t@),
        used: used.map_values(|s: String| s@),
    }
}

fn linearize_rec(
    store: &ManifestStore,
    yac_toml: YacToml,
    location: String,
    targets: &mut Vec<Target>,
    used: &mut Vec<String>,
    fuel: usize,
) -> (result: Result<(), YacLockLinearizeError>)
    ensures
        match result {
            Ok(()) => resolve_manifest(
                store@,
                yac_toml@,
                location@,
                state_of(old(targets)@, old(used)@),
                fuel as nat,
            ) == Ok::<ResolveState, LinearizeErrorView>(
                state_of(final(targets)@, final(used)@),
            ),
            Err(e) => resolve_manifest(
                store@,
                yac_toml@,
                location@,
                state_of(old(targets)@, old(used)@),
                fuel as nat,
            ) == Err::<ResolveState, LinearizeErrorView>(e@),
        },
    decreases fuel, 0int, 0int,
{
    if fuel == 0 {
        return Err(YacLockLinearizeError::RecursionLimit);
    }
    if contains_string(used, &yac_toml.package.name) {
        return Ok(());
    }
    used.push(yac_toml.package.name.clone());
    proof {
        assert(state_of(targets@, used@) =~= ResolveState {
            targets: state_of(old(targets)@, old(used)@).targets,
            used: state_of(old(targets)@, old(used)@).used.push(yac_toml@.package.name),
        });
    }
    let with_slashes = replace_backslashes(location.as_str());
    let pretty_location = normalize_rel(with_slashes.as_str());
    match linearize_deps(store, &yac_toml, &location, 0, targets, used, fuel - 1) {
        Err(e) => Err(e),
        Ok(()) => {
            if !pretty_location.as_str().is_empty() {
                let description = Dependency {
                    version: yac_toml.package.version.clone(),
                    location: Location::Path { path: pretty_location },
                    ty: Type::Yac,
                };
                let ghost mid = state_of(targets@, used@);
                targets.push(Target { yac_toml, description });
                proof {
                    assert(state_of(targets@, used@) =~= ResolveState {
                        targets: mid.targets.push(
                            target_for(yac_toml@, normalize_of(slashes_of(location@))),
                        ),
                        used: mid.used,
                    });
                }
            }
            Ok(())
        },
    }
}

fn linearize_deps(
    store: &ManifestStore,
    yac_toml: &YacToml,
    location: &String,
    i: usize,
    targets: &mut Vec<Target>,
    used: &mut Vec<String>,
    child_fuel: usize,
) -> (result: Result<(), YacLockLinearizeError>)
    requires
        i <= yac_toml.dependencies@.len(),
    ensures
        match result {
            Ok(()) => resolve_deps(
                store@,
                yac_toml@,
                location@,
                i as int,
                state_of(old(targets)@, old(used)@),
                child_fuel as nat,
            ) == Ok::<ResolveState, LinearizeErrorView>(
                state_of(final(targets)@, final(used)@),
            ),
            Err(e) => resolve_deps(
                store@,
                yac_toml@,
                location@,
                i as int,
                state_of(old(targets)@, old(used)@),
                child_fuel as nat,
            ) == Err::<ResolveState, LinearizeErrorView>(e@),
        },
    decreases child_fuel, yac_toml.dependencies@.len() - i, 1int,
{
    if i >= yac_toml.dependencies.len() {
        return Ok(());
    }
    let dep_name = &yac_toml.dependencies[i].0;
    let dep = &yac_toml.dependencies[i].1;
    proof {
        assert(yac_toml@.dependencies[i as int] == (dep_name@, dep@));
    }
    match &dep.location {
        Location::Link { link } => {
            Err(YacLockLinearizeError::UnsupportedLocation { dependency: dep_name.clone() })
        },
        Location::Path { path } => {
            let child_loc = join_paths(location.as_str(), path.as_str());
            match store.lookup(&child_loc) {
                None => Err(YacLockLinearizeError::MissingManifest { location: child_loc }),
                Some(child) => {
                    let child = child.duplicate();
                    match linearize_rec(store, child, child_loc, targets, used, child_fuel) {
                        Err(e) => Err(e),
                        Ok(()) => linearize_deps(
                            store,
                            yac_toml,
                            location,
                            i + 1,
                            targets,
                            used,
                            child_fuel,
                        ),
                    }
                },
            }
        },
    }
}

// ---------------------------------------------------------------------------
// What holds of every resolution
// ---------------------------------------------------------------------------

/// The package names of the lock entries, in lock order.
pub open spec fn names_of(targets: Seq<TargetView>) -> Seq<Seq<char>> {
    targets.map_values(|t: TargetView| t.yac_toml.package.name)
}

/// What every emitted lock entry looks like: reached natively, through a
/// nonempty normalized path, carrying its own manifest's version.
pub open spec fn target_wf(t: TargetView) -> bool {
    &&& t.description.ty == Type::Yac
    &&& t.description.version == t.yac_toml.package.version
    &&& t.description.location matches LocationView::Path { path } && path.len() > 0
}

/// The traversal invariant: no name is seen twice, no two emitted entries
/// share a name, and every emitted entry's name has been seen.
pub open spec fn state_inv(st: ResolveState) -> bool {
    &&& st.used.no_duplicates()
    &&& names_of(st.targets).no_duplicates()
    &&& forall|k: int|
        0 <= k < st.targets.len() ==> st.used.contains(#[trigger] names_of(st.targets)[k])
}

/// How a successful traversal step relates its state before and after: both
/// accumulators only grow, new entries are well formed, and a name that was
/// already seen gains no entry.
pub open spec fn resolve_step_ok(st: ResolveState, st2: ResolveState) -> bool {
    &&& st.targets.len() <= st2.targets.len()
    &&& forall|k: int| 0 <= k < st.targets.len() ==> st2.targets[k] == st.targets[k]
    &&& st.used.len() <= st2.used.len()
    &&& forall|k: int| 0 <= k < st.used.len() ==> st2.used[k] == st.used[k]
    &&& forall|k: int|
        st.targets.len() <= k < st2.targets.len() ==> target_wf(#[trigger] st2.targets[k])
    &&& forall|n: Seq<char>|
        #[trigger] st.used.contains(n) ==> (names_of(st2.targets).contains(n) <==> names_of(
            st.targets,
        ).contains(n))
}

proof fn lemma_names_push(targets: Seq<TargetView>, t: TargetView)
    ensures
        names_of(targets.push(t)) =~= names_of(targets).push(t.yac_toml.package.name),
{
}

proof fn lemma_step_used_contains(st: ResolveState, st2: ResolveState, n: Seq<char>)
    requires
        resolve_step_ok(st, st2),
        st.used.contains(n),
    ensures
        st2.used.contains(n),
{
    let k = choose|k: int| 0 <= k < st.used.len() && st.used[k] == n;
    assert(st2.used[k] == n);
}

proof fn lemma_step_trans(a: ResolveState, b: ResolveState, c: ResolveState)
    requires
        resolve_step_ok(a, b),
        resolve_step_ok(b, c),
    ensures
        resolve_step_ok(a, c),
{
    assert forall|n: Seq<char>| #[trigger] a.used.contains(n) implies (names_of(
        c.targets,
    ).contains(n) <==> names_of(a.targets).contains(n)) by {
        lemma_step_used_contains(a, b, n);
    }
    assert forall|k: int|
        a.targets.len() <= k < c.targets.len() implies target_wf(#[trigger] c.targets[k]) by {
        if k < b.targets.len() {
            assert(c.targets[k] == b.targets[k]);
        }
    }
}

proof fn lemma_resolve_manifest_props(
    store: StoreView,
    m: YacTomlView,
    loc: Seq<char>,
    st: ResolveState,
    fuel: nat,
)
    requires
        state_inv(st),
    ensures
        match resolve_manifest(store, m, loc, st, fuel) {
            Ok(st2) => {
                &&& state_inv(st2)
                &&& resolve_step_ok(st, st2)
                &&& (!st.used.contains(m.package.name) && normalize_of(slashes_of(loc)).len() == 0
                    && !names_of(st.targets).contains(m.package.name) ==> !names_of(
                    st2.targets,
                ).contains(m.package.name))
            },
            Err(_) => true,
        },
    decreases fuel, 0int, 0int,
{
    if fuel == 0 {
    } else if st.used.contains(m.package.name) {
    } else {
        let name = m.package.name;
        let entered = ResolveState { targets: st.targets, used: st.used.push(name) };
        assert(state_inv(entered)) by {
            assert forall|k: int|
                0 <= k < entered.targets.len() implies entered.used.contains(
                #[trigger] names_of(entered.targets)[k],
            ) by {
                let n = names_of(st.targets)[k];
                let j = choose|j: int| 0 <= j < st.used.len() && st.used[j] == n;
                assert(entered.used[j] == n);
            }
        }
        assert(resolve_step_ok(st, entered));
        lemma_resolve_deps_props(store, m, loc, 0, entered, (fuel - 1) as nat);
        match resolve_deps(store, m, loc, 0, entered, (fuel - 1) as nat) {
            Err(_) => {},
            Ok(resolved) => {
                // The name just seen cannot have gained a lock entry inside
                // the dependency walk.
                assert(entered.used[st.used.len() as int] == name);
                assert(entered.used.contains(name));
                assert(!names_of(st.targets).contains(name) ==> !names_of(
                    resolved.targets,
                ).contains(name)) by {
                    assert(names_of(entered.targets) == names_of(st.targets));
                }
                assert(!names_of(st.targets).contains(name)) by {
                    if names_of(st.targets).contains(name) {
                        let k = choose|k: int|
                            0 <= k < names_of(st.targets).len() && names_of(st.targets)[k]
                                == name;
                        assert(st.used.contains(names_of(st.targets)[k]));
                    }
                }
                let pretty = normalize_of(slashes_of(loc));
                if pretty.len() == 0 {
                    lemma_step_trans(st, entered, resolved);
                } else {
                    let emitted = target_for(m, pretty);
                    let st2 = ResolveState {
                        targets: resolved.targets.push(emitted),
                        used: resolved.used,
                    };
                    lemma_names_push(resolved.targets, emitted);
                    assert(state_inv(st2)) by {
                        assert(names_of(st2.targets).no_duplicates()) by {
                            assert forall|i: int, j: int|
                                0 <= i < j < names_of(st2.targets).len() implies names_of(
                                st2.targets,
                            )[i] != names_of(st2.targets)[j] by {
                                if j == names_of(st2.targets).len() - 1 {
                                    if names_of(st2.targets)[i] == name {
                                        assert(names_of(resolved.targets).contains(name));
                                    }
                                }
                            }
                        }
                        assert forall|k: int|
                            0 <= k < st2.targets.len() implies st2.used.contains(
                            #[trigger] names_of(st2.targets)[k],
                        ) by {
                            if k < resolved.targets.len() {
                                assert(names_of(st2.targets)[k] == names_of(resolved.targets)[k]);
                            } else {
                                assert(names_of(st2.targets)[k] == name);
                                lemma_step_used_contains(entered, resolved, name);
                            }
                        }
                    }
    // The freshly seen name itself gains an entry here, so this step is
                    // related to `st` directly, not through `entered`.
                    assert(resolve_step_ok(st, st2)) by {
                        assert forall|k: int|
                            st.targets.len() <= k < st2.targets.len() implies target_wf(
                            #[trigger] st2.targets[k],
                        ) by {
                            if k < resolved.targets.len() {
                                assert(st2.targets[k] == resolved.targets[k]);
                            } else {
                                assert(st2.targets[k] == emitted);
                            }
                        }
                        assert forall|n: Seq<char>| #[trigger]
                            st.used.contains(n) implies (names_of(st2.targets).contains(n)
                            <==> names_of(st.targets).contains(n)) by {
                            assert(n != name);
                            lemma_step_used_contains(st, entered, n);
                            if names_of(st2.targets).contains(n) {
                                let k = choose|k: int|
                                    0 <= k < names_of(st2.targets).len() && names_of(
                                        st2.targets,
                                    )[k] == n;
                                assert(k < resolved.targets.len());
                                assert(names_of(resolved.targets).contains(n));
                            }
                            if names_of(st.targets).contains(n) {
                                let k = choose|k: int|
                                    0 <= k < names_of(st.targets).len() && names_of(
                                        st.targets,
                                    )[k] == n;
                                assert(names_of(resolved.targets)[k] == n);
                                assert(names_of(st2.targets)[k] == n);
                            }
                        }
                    }
                }
            },
        }
    }
}

proof fn lemma_resolve_deps_props(
    store: StoreView,
    m: YacTomlView,
    loc: Seq<char>,
    i: int,
    st: ResolveState,
    child_fuel: nat,
)
    requires
        state_inv(st),
    ensures
        match resolve_deps(store, m, loc, i, st, child_fuel) {
            Ok(st2) => state_inv(st2) && resolve_step_ok(st, st2),
            Err(_) => true,
        },
    decreases child_fuel, m.dependencies.len() - i, 1int,
{
    if i < 0 || i >= m.dependencies.len() {
    } else {
        let (dep_name, dep) = m.dependencies[i];
        match dep.location {
            LocationView::Link { .. } => {},
            LocationView::Path { path } => {
                let child_loc = join_of(loc, path);
                match store_lookup(store, child_loc) {
                    None => {},
                    Some(child) => {
                        lemma_resolve_manifest_props(store, child, child_loc, st, child_fuel);
                        match resolve_manifest(store, child, child_loc, st, child_fuel) {
                            Err(_) => {},
                            Ok(after_child) => {
                                lemma_resolve_deps_props(
                                    store,
                                    m,
                                    loc,
                                    i + 1,
                                    after_child,
                                    child_fuel,
                                );
                                match resolve_deps(store, m, loc, i + 1, after_child, child_fuel) {
                                    Err(_) => {},
                                    Ok(st2) => {
                                        lemma_step_trans(st, after_child, st2);
                                    },
                                }
                            },
                        }
                    },
                }
            },
        }
    }
}

/// LAW: however a resolution succeeds, no two lock entries share a package
/// name — a package is resolved at most once, wherever it recurs in the
/// graph — and every entry is reached natively through a nonempty normalized
/// path and records its own manifest's version.
pub proof fn lemma_lock_well_formed(store: StoreView, m: YacTomlView, loc: Seq<char>)
    ensures
        spec_linearize(store, m, loc) matches Ok(targets) ==> names_of(targets).no_duplicates()
            && (forall|k: int| 0 <= k < targets.len() ==> target_wf(#[trigger] targets[k])),
{
    let st0 = ResolveState { targets: Seq::empty(), used: Seq::empty() };
    lemma_resolve_manifest_props(store, m, loc, st0, RECURSION_LIMIT as nat);
}

/// LAW: the root project is never a member of its own lock: when the root's
/// normalized location is empty (as it is for a resolution started at `./`),
/// no lock entry bears the root package's name.
pub proof fn lemma_root_not_in_lock(store: StoreView, m: YacTomlView, loc: Seq<char>)
    requires
        normalize_of(slashes_of(loc)).len() == 0,
    ensures
        spec_linearize(store, m, loc) matches Ok(targets) ==> !names_of(targets).contains(
            m.package.name,
        ),
{
    let st0 = ResolveState { targets: Seq::empty(), used: Seq::empty() };
    lemma_resolve_manifest_props(store, m, loc, st0, RECURSION_LIMIT as nat);
    assert(!names_of(st0.targets).contains(m.package.name));
}

/// LAW: a manifest with no dependencies resolves, without descending
/// anywhere, to the empty lock.
pub proof fn lemma_no_dependencies_empty_lock(store: StoreView, m: YacTomlView, loc: Seq<char>)
    requires
        m.dependencies.len() == 0,
        normalize_of(slashes_of(loc)).len() == 0,
    ensures
        spec_linearize(store, m, loc) == Ok::<Seq<TargetView>, LinearizeErrorView>(
            Seq::<TargetView>::empty(),
        ),
{
    let st0 = ResolveState { targets: Seq::empty(), used: Seq::empty() };
    assert(!st0.used.contains(m.package.name));
    let entered = ResolveState { targets: st0.targets, used: st0.used.push(m.package.name) };
    assert(resolve_deps(store, m, loc, 0, entered, (RECURSION_LIMIT - 1) as nat) == Ok::<
        ResolveState,
        LinearizeErrorView,
    >(entered));
}

// ---------------------------------------------------------------------------
// Dependencies precede dependents
// ---------------------------------------------------------------------------
//
// The traversal above forgets where each manifest was visited; to state that
// a lock entry's dependencies stand before it, the same traversal is run
// once more below, remembering each entry's raw visit location, and shown to
// erase to the traversal above.

/// The traversal state, decorated with the raw (unnormalized) location each
/// emitted entry was visited at, index for index.
#[verifier::ext_equal]
pub struct ResolveTrace {
    pub targets: Seq<TargetView>,
    pub locs: Seq<Seq<char>>,
    pub used: Seq<Seq<char>>,
}

/// The decorated state with its decoration forgotten.
pub open spec fn untraced(t: ResolveTrace) -> ResolveState {
    ResolveState { targets: t.targets, used: t.used }
}

/// As `resolve_manifest`, remembering visit locations.
pub open spec fn resolve_manifest_traced(
    store: StoreView,
    m: YacTomlView,
    loc: Seq<char>,
    t: ResolveTrace,
    fuel: nat,
) -> Result<ResolveTrace, LinearizeErrorView>
    decreases fuel, 0int, 0int,
{
    if fuel == 0 {
        Err(LinearizeErrorView::RecursionLimit)
    } else if t.used.contains(m.package.name) {
        Ok(t)
    } else {
        let entered = ResolveTrace {
            targets: t.targets,
            locs: t.locs,
            used: t.used.push(m.package.name),
        };
        match resolve_deps_traced(store, m, loc, 0, entered, (fuel - 1) as nat) {
            Err(e) => Err(e),
            Ok(resolved) => {
                let pretty = normalize_of(slashes_of(loc));
                if pretty.len() == 0 {
                    Ok(resolved)
                } else {
                    Ok(
                        ResolveTrace {
                            targets: resolved.targets.push(target_for(m, pretty)),
                            locs: resolved.locs.push(loc),
                            used: resolved.used,
                        },
                    )
                }
            },
        }
    }
}

/// As `resolve_deps`, remembering visit locations.
pub open spec fn resolve_deps_traced(
    store: StoreView,
    m: YacTomlView,
    loc: Seq<char>,
    i: int,
    t: ResolveTrace,
    child_fuel: nat,
) -> Result<ResolveTrace, LinearizeErrorView>
    decreases child_fuel, m.dependencies.len() - i, 1int,
{
    if i < 0 || i >= m.dependencies.len() {
        Ok(t)
    } else {
        let (dep_name, dep) = m.dependencies[i];
        match dep.location {
            LocationView::Link { link } => {
                Err(LinearizeErrorView::UnsupportedLocation { dependency: dep_name })
            },
            LocationView::Path { path } => {
                let child_loc = join_of(loc, path);
                match store_lookup(store, child_loc) {
                    None => Err(LinearizeErrorView::MissingManifest { location: child_loc }),
                    Some(child) => match resolve_manifest_traced(
                        store,
                        child,
                        child_loc,
                        t,
                        child_fuel,
                    ) {
                        Err(e) => Err(e),
                        Ok(after_child) => resolve_deps_traced(
                            store,
                            m,
                            loc,
                            i + 1,
                            after_child,
                            child_fuel,
                        ),
                    },
                }
            },
        }
    }
}

/// Every dependency edge out of `m`, visited at `loc`, descends in rank:
/// what `rank` assigns the resolved child is strictly below what it assigns
/// `m`. A rank witness exists exactly for acyclic dependency graphs.
pub open spec fn ranked_from(
    store: StoreView,
    m: YacTomlView,
    loc: Seq<char>,
    rank: Map<Seq<char>, int>,
) -> bool {
    forall|i: int|
        0 <= i < m.dependencies.len() ==> ((#[trigger] m.dependencies[i]).1.location is Path
            ==> match store_lookup(
            store,
            join_of(loc, m.dependencies[i].1.location.carried()),
        ) {
            Some(child) => rank[child.package.name] < rank[m.package.name],
            None => true,
        })
}

/// Every manifest the store can hand out descends in rank at its own entry.
pub open spec fn ranked_store(store: StoreView, rank: Map<Seq<char>, int>) -> bool {
    forall|j: int|
        0 <= j < store.len() ==> ranked_from(store, (#[trigger] store[j]).1, store[j].0, rank)
}

/// A name the traversal saw, gave no lock entry, and is not now descending
/// into: it will never gain a lock entry.
pub open spec fn retired(t: ResolveTrace, stack: Seq<Seq<char>>, n: Seq<char>) -> bool {
    t.used.contains(n) && !names_of(t.targets).contains(n) && !stack.contains(n)
}

/// The order invariant: every resolved direct dependency of every emitted
/// entry either already stands earlier in the lock, or is retired and will
/// never stand in it.
pub open spec fn trace_ord(store: StoreView, t: ResolveTrace, stack: Seq<Seq<char>>) -> bool {
    forall|idx: int, i: int|
        0 <= idx < t.targets.len() && 0 <= i < t.targets[idx].yac_toml.dependencies.len() ==> ((
        #[trigger] t.targets[idx].yac_toml.dependencies[i]).1.location is Path ==> match
            store_lookup(
            store,
            join_of(t.locs[idx], t.targets[idx].yac_toml.dependencies[i].1.location.carried()),
        ) {
            Some(child) => names_of(t.targets.take(idx)).contains(child.package.name) || retired(
                t,
                stack,
                child.package.name,
            ),
            None => true,
        })
}

proof fn lemma_lookup_is_entry(store: StoreView, key: Seq<char>, i: int)
    ensures
        match store_lookup_from(store, key, i) {
            Some(v) => exists|j: int| 0 <= j < store.len() && #[trigger] store[j] == (key, v),
            None => true,
        },
    decreases store.len() - i,
{
    if i < 0 || i >= store.len() {
    } else if store[i].0 == key {
        assert(store[i] == (key, store[i].1));
    } else {
        lemma_lookup_is_entry(store, key, i + 1);
    }
}

proof fn lemma_push_contains<A>(s: Seq<A>, x: A, y: A)
    ensures
        s.push(x).contains(y) <==> (s.contains(y) || y == x),
{
    if s.push(x).contains(y) {
        let k = choose|k: int| 0 <= k < s.push(x).len() && s.push(x)[k] == y;
        if k < s.len() {
            assert(s[k] == y);
        }
    }
    if s.contains(y) {
        let k = choose|k: int| 0 <= k < s.len() && s[k] == y;
        assert(s.push(x)[k] == y);
    }
    if y == x {
        assert(s.push(x)[s.len() as int] == y);
    }
}

proof fn lemma_order_manifest(
    store: StoreView,
    m: YacTomlView,
    loc: Seq<char>,
    t: ResolveTrace,
    fuel: nat,
    stack: Seq<Seq<char>>,
    rank: Map<Seq<char>, int>,
)
    requires
        state_inv(untraced(t)),
        t.locs.len() == t.targets.len(),
        ranked_store(store, rank),
        ranked_from(store, m, loc, rank),
        forall|k: int| 0 <= k < stack.len() ==> rank[#[trigger] stack[k]] > rank[m.package.name],
        trace_ord(store, t, stack),
    ensures
        match resolve_manifest_traced(store, m, loc, t, fuel) {
            Ok(t2) => {
                &&& resolve_manifest(store, m, loc, untraced(t), fuel) == Ok::<
                    ResolveState,
                    LinearizeErrorView,
                >(untraced(t2))
                &&& t2.locs.len() == t2.targets.len()
                &&& forall|k: int| 0 <= k < t.locs.len() ==> t2.locs[k] == t.locs[k]
                &&& trace_ord(store, t2, stack)
                &&& t2.used.contains(m.package.name)
            },
            Err(e) => resolve_manifest(store, m, loc, untraced(t), fuel) == Err::<
                ResolveState,
                LinearizeErrorView,
            >(e),
        },
    decreases fuel, 0int, 0int,
{
    if fuel == 0 {
    } else if t.used.contains(m.package.name) {
    } else {
        let name = m.package.name;
        let entered = ResolveTrace { targets: t.targets, locs: t.locs, used: t.used.push(name) };
        let entered_u = untraced(entered);
        assert(entered_u =~= ResolveState { targets: t.targets, used: t.used.push(name) });
        let stack_in = stack.push(name);

        assert(state_inv(entered_u)) by {
            assert forall|k: int|
                0 <= k < entered_u.targets.len() implies entered_u.used.contains(
                #[trigger] names_of(entered_u.targets)[k],
            ) by {
                lemma_push_contains(t.used, name, names_of(t.targets)[k]);
            }
        }
        assert(trace_ord(store, entered, stack_in)) by {
            assert forall|idx: int, i: int|
                0 <= idx < entered.targets.len() && 0 <= i
                    < entered.targets[idx].yac_toml.dependencies.len() implies ((
            #[trigger] entered.targets[idx].yac_toml.dependencies[i]).1.location is Path
                ==> match store_lookup(
                store,
                join_of(
                    entered.locs[idx],
                    entered.targets[idx].yac_toml.dependencies[i].1.location.carried(),
                ),
            ) {
                Some(child) => names_of(entered.targets.take(idx)).contains(child.package.name)
                    || retired(entered, stack_in, child.package.name),
                None => true,
            }) by {
                assert(t.targets[idx].yac_toml.dependencies[i]
                    == entered.targets[idx].yac_toml.dependencies[i]);
                if entered.targets[idx].yac_toml.dependencies[i].1.location is Path {
                    let p = entered.targets[idx].yac_toml.dependencies[i].1.location.carried();
                    match store_lookup(store, join_of(entered.locs[idx], p)) {
                        Some(child) => {
                            let n = child.package.name;
                            if !names_of(t.targets.take(idx)).contains(n) {
                                assert(retired(t, stack, n));
                                lemma_push_contains(t.used, name, n);
                                lemma_push_contains(stack, name, n);
                            }
                        },
                        None => {},
                    }
                }
            }
        }

        lemma_order_deps(store, m, loc, 0, entered, (fuel - 1) as nat, stack_in, rank);
        match resolve_deps_traced(store, m, loc, 0, entered, (fuel - 1) as nat) {
            Err(_) => {},
            Ok(resolved) => {
                lemma_resolve_deps_props(store, m, loc, 0, entered_u, (fuel - 1) as nat);
                assert(entered_u.used[t.used.len() as int] == name);
                assert(entered_u.used.contains(name));
                lemma_step_used_contains(entered_u, untraced(resolved), name);
                // The freshly seen name gained no entry during the walk.
                assert(!names_of(resolved.targets).contains(name)) by {
                    if names_of(t.targets).contains(name) {
                        let k = choose|k: int|
                            0 <= k < names_of(t.targets).len() && names_of(t.targets)[k] == name;
                        assert(t.used.contains(names_of(t.targets)[k]));
                    }
                }
                let pretty = normalize_of(slashes_of(loc));
                if pretty.len() == 0 {
                    assert(trace_ord(store, resolved, stack)) by {
                        lemma_ord_pop(store, resolved, stack, name);
                    }
                } else {
                    let emitted = target_for(m, pretty);
                    let t2 = ResolveTrace {
                        targets: resolved.targets.push(emitted),
                        locs: resolved.locs.push(loc),
                        used: resolved.used,
                    };
                    assert(untraced(t2) =~= ResolveState {
                        targets: untraced(resolved).targets.push(emitted),
                        used: untraced(resolved).used,
                    });
                    lemma_names_push(resolved.targets, emitted);
                    assert(trace_ord(store, t2, stack)) by {
                        lemma_ord_emit(store, m, loc, resolved, stack, rank);
                    }
                    assert(t2.used.contains(name));
                }
            },
        }
    }
}

/// Dropping the top of the stack after a visit that emitted nothing keeps
/// the order invariant: nothing retired names the popped entry.
proof fn lemma_ord_pop(
    store: StoreView,
    t: ResolveTrace,
    stack: Seq<Seq<char>>,
    name: Seq<char>,
)
    requires
        trace_ord(store, t, stack.push(name)),
    ensures
        trace_ord(store, t, stack),
{
    assert forall|idx: int, i: int|
        0 <= idx < t.targets.len() && 0 <= i < t.targets[idx].yac_toml.dependencies.len() implies ((
    #[trigger] t.targets[idx].yac_toml.dependencies[i]).1.location is Path ==> match store_lookup(
        store,
        join_of(t.locs[idx], t.targets[idx].yac_toml.dependencies[i].1.location.carried()),
    ) {
        Some(child) => names_of(t.targets.take(idx)).contains(child.package.name) || retired(
            t,
            stack,
            child.package.name,
        ),
        None => true,
    }) by {
        if t.targets[idx].yac_toml.dependencies[i].1.location is Path {
            let p = t.targets[idx].yac_toml.dependencies[i].1.location.carried();
            match store_lookup(store, join_of(t.locs[idx], p)) {
                Some(child) => {
                    let n = child.package.name;
                    if !names_of(t.targets.take(idx)).contains(n) {
                        assert(retired(t, stack.push(name), n));
                        lemma_push_contains(stack, name, n);
                    }
                },
                None => {},
            }
        }
    }
}

/// Emitting the entry under construction keeps the order invariant: its own
/// resolved dependencies all stand earlier or are retired, and nothing
/// retired bore its name.
proof fn lemma_ord_emit(
    store: StoreView,
    m: YacTomlView,
    loc: Seq<char>,
    resolved: ResolveTrace,
    stack: Seq<Seq<char>>,
    rank: Map<Seq<char>, int>,
)
    requires
        ranked_from(store, m, loc, rank),
        forall|k: int| 0 <= k < stack.len() ==> rank[#[trigger] stack[k]] > rank[m.package.name],
        trace_ord(store, resolved, stack.push(m.package.name)),
        resolved.locs.len() == resolved.targets.len(),
        !names_of(resolved.targets).contains(m.package.name),
        normalize_of(slashes_of(loc)).len() > 0,
        forall|i: int|
            0 <= i < m.dependencies.len() ==> ((#[trigger] m.dependencies[i]).1.location is Path
                ==> match store_lookup(
                store,
                join_of(loc, m.dependencies[i].1.location.carried()),
            ) {
                Some(child) => resolved.used.contains(child.package.name),
                None => true,
            }),
    ensures
        trace_ord(
            store,
            ResolveTrace {
                targets: resolved.targets.push(target_for(m, normalize_of(slashes_of(loc)))),
                locs: resolved.locs.push(loc),
                used: resolved.used,
            },
            stack,
        ),
{
    let name = m.package.name;
    let stack_in = stack.push(name);
    let pretty = normalize_of(slashes_of(loc));
    let emitted = target_for(m, pretty);
    let t2 = ResolveTrace {
        targets: resolved.targets.push(emitted),
        locs: resolved.locs.push(loc),
        used: resolved.used,
    };
    lemma_names_push(resolved.targets, emitted);
    assert forall|idx: int, i: int|
        0 <= idx < t2.targets.len() && 0 <= i < t2.targets[idx].yac_toml.dependencies.len() implies
        ((#[trigger] t2.targets[idx].yac_toml.dependencies[i]).1.location is Path ==> match
            store_lookup(
            store,
            join_of(t2.locs[idx], t2.targets[idx].yac_toml.dependencies[i].1.location.carried()),
        ) {
            Some(child) => names_of(t2.targets.take(idx)).contains(child.package.name) || retired(
                t2,
                stack,
                child.package.name,
            ),
            None => true,
        }) by {
        if idx < resolved.targets.len() {
            // An entry emitted earlier: its situation only improved.
            assert(t2.targets[idx] == resolved.targets[idx]);
            assert(t2.locs[idx] == resolved.locs[idx]);
            if t2.targets[idx].yac_toml.dependencies[i].1.location is Path {
                let p = t2.targets[idx].yac_toml.dependencies[i].1.location.carried();
                assert(resolved.targets[idx].yac_toml.dependencies[i]
                    == t2.targets[idx].yac_toml.dependencies[i]);
                match store_lookup(store, join_of(resolved.locs[idx], p)) {
                    Some(child) => {
                        let n = child.package.name;
                        assert(t2.targets.take(idx) =~= resolved.targets.take(idx));
                        if !names_of(resolved.targets.take(idx)).contains(n) {
                            assert(retired(resolved, stack_in, n));
                            lemma_push_contains(stack, name, n);
                            assert(n != name);
                            lemma_push_contains(names_of(resolved.targets), name, n);
                            assert(!names_of(t2.targets).contains(n));
                        }
                    },
                    None => {},
                }
            }
        } else {
            // The entry just emitted: each of its resolved dependencies was
            // seen during its own walk, and cannot be an ancestor, whose
            // ranks all lie above its own.
            assert(t2.targets[idx] == emitted);
            assert(t2.locs[idx] == loc);
            assert(emitted.yac_toml == m);
            if m.dependencies[i].1.location is Path {
                let p = m.dependencies[i].1.location.carried();
                match store_lookup(store, join_of(loc, p)) {
                    Some(child) => {
                        let n = child.package.name;
                        assert(resolved.used.contains(n));
                        assert(rank[n] < rank[name]);
                        assert(t2.targets.take(idx) =~= resolved.targets);
                        if !names_of(resolved.targets).contains(n) {
                            assert(!stack_in.contains(n)) by {
                                if stack_in.contains(n) {
                                    let k = choose|k: int|
                                        0 <= k < stack_in.len() && stack_in[k] == n;
                                    if k < stack.len() {
                                        assert(rank[stack[k]] > rank[name]);
                                    }
                                }
                            }
                            assert(retired(resolved, stack_in, n));
                            lemma_push_contains(stack, name, n);
                            assert(n != name);
                            lemma_push_contains(names_of(resolved.targets), name, n);
                            assert(retired(t2, stack, n));
                        }
                    },
                    None => {},
                }
            }
        }
    }
}

proof fn lemma_order_deps(
    store: StoreView,
    m: YacTomlView,
    loc: Seq<char>,
    i: int,
    t: ResolveTrace,
    child_fuel: nat,
    stack: Seq<Seq<char>>,
    rank: Map<Seq<char>, int>,
)
    requires
        0 <= i,
        state_inv(untraced(t)),
        t.locs.len() == t.targets.len(),
        ranked_store(store, rank),
        ranked_from(store, m, loc, rank),
        stack.len() > 0,
        stack.last() == m.package.name,
        forall|k: int|
            0 <= k < stack.len() - 1 ==> rank[#[trigger] stack[k]] > rank[m.package.name],
        trace_ord(store, t, stack),
    ensures
        match resolve_deps_traced(store, m, loc, i, t, child_fuel) {
            Ok(t2) => {
                &&& resolve_deps(store, m, loc, i, untraced(t), child_fuel) == Ok::<
                    ResolveState,
                    LinearizeErrorView,
                >(untraced(t2))
                &&& t2.locs.len() == t2.targets.len()
                &&& forall|k: int| 0 <= k < t.locs.len() ==> t2.locs[k] == t.locs[k]
                &&& trace_ord(store, t2, stack)
                &&& forall|ii: int|
                    i <= ii < m.dependencies.len() ==> ((
                    #[trigger] m.dependencies[ii]).1.location is Path ==> match store_lookup(
                        store,
                        join_of(loc, m.dependencies[ii].1.location.carried()),
                    ) {
                        Some(child) => t2.used.contains(child.package.name),
                        None => true,
                    })
            },
            Err(e) => resolve_deps(store, m, loc, i, untraced(t), child_fuel) == Err::<
                ResolveState,
                LinearizeErrorView,
            >(e),
        },
    decreases child_fuel, m.dependencies.len() - i, 1int,
{
    if i < 0 || i >= m.dependencies.len() {
    } else {
        let (dep_name, dep) = m.dependencies[i];
        match dep.location {
            LocationView::Link { .. } => {},
            LocationView::Path { path } => {
                let child_loc = join_of(loc, path);
                lemma_lookup_is_entry(store, child_loc, 0);
                match store_lookup(store, child_loc) {
                    None => {},
                    Some(child) => {
                        assert(ranked_from(store, child, child_loc, rank)) by {
                            let j = choose|j: int|
                                0 <= j < store.len() && #[trigger] store[j] == (child_loc, child);
                            assert(ranked_from(store, store[j].1, store[j].0, rank));
                        }
                        assert(rank[child.package.name] < rank[m.package.name]);
                        assert forall|k: int|
                            0 <= k < stack.len() implies rank[#[trigger] stack[k]] > rank[child.package.name] by {
                            if k == stack.len() - 1 {
                                assert(stack[k] == m.package.name);
                            }
                        }
                        lemma_order_manifest(store, child, child_loc, t, child_fuel, stack, rank);
                        match resolve_manifest_traced(store, child, child_loc, t, child_fuel) {
                            Err(_) => {},
                            Ok(after_child) => {
                                lemma_resolve_manifest_props(
                                    store,
                                    child,
                                    child_loc,
                                    untraced(t),
                                    child_fuel,
                                );
                                lemma_order_deps(
                                    store,
                                    m,
                                    loc,
                                    i + 1,
                                    after_child,
                                    child_fuel,
                                    stack,
                                    rank,
                                );
                                match resolve_deps_traced(
                                    store,
                                    m,
                                    loc,
                                    i + 1,
                                    after_child,
                                    child_fuel,
                                ) {
                                    Err(_) => {},
                                    Ok(t2) => {
                                        lemma_resolve_deps_props(
                                            store,
                                            m,
                                            loc,
                                            i + 1,
                                            untraced(after_child),
                                            child_fuel,
                                        );
                                        assert(untraced(after_child).used.contains(
                                            child.package.name,
                                        ));
                                        assert(resolve_step_ok(
                                            untraced(after_child),
                                            untraced(t2),
                                        ));
                                        lemma_step_used_contains(
                                            untraced(after_child),
                                            untraced(t2),
                                            child.package.name,
                                        );
                                        assert(t2.used.contains(child.package.name));
                                        assert forall|ii: int|
                                            i <= ii < m.dependencies.len() implies ((
                                        #[trigger] m.dependencies[ii]).1.location is Path
                                            ==> match store_lookup(
                                            store,
                                            join_of(
                                                loc,
                                                m.dependencies[ii].1.location.carried(),
                                            ),
                                        ) {
                                            Some(c) => t2.used.contains(c.package.name),
                                            None => true,
                                        }) by {
                                            if ii == i {
                                                assert(m.dependencies[i].1 == dep);
                                                assert(dep.location.carried() == path);
                                            }
                                        }
                                    },
                                }
                            },
                        }
                    },
                }
            },
        }
    }
}

/// The resolution result decorated with the raw location each lock entry was
/// visited at, index for index; it erases to `spec_linearize`.
pub open spec fn spec_linearize_traced(store: StoreView, m: YacTomlView, loc: Seq<char>) -> Result<
    (Seq<TargetView>, Seq<Seq<char>>),
    LinearizeErrorView,
> {
    match resolve_manifest_traced(
        store,
        m,
        loc,
        ResolveTrace { targets: Seq::empty(), locs: Seq::empty(), used: Seq::empty() },
        RECURSION_LIMIT as nat,
    ) {
        Ok(t) => Ok((t.targets, t.locs)),
        Err(e) => Err(e),
    }
}

/// LAW: dependencies precede dependents. Over an acyclic dependency graph —
/// witnessed by any rank that strictly drops along every resolvable
/// dependency edge — the lock is topologically ordered: resolve a lock
/// entry's declared dependency at that entry's recorded visit location, and
/// wherever the package so reached stands in the lock at all, it stands
/// strictly earlier than the entry that depends on it.
pub proof fn lemma_dependencies_precede_dependents(
    store: StoreView,
    m: YacTomlView,
    loc: Seq<char>,
    rank: Map<Seq<char>, int>,
)
    requires
        ranked_store(store, rank),
        ranked_from(store, m, loc, rank),
    ensures
        match (spec_linearize(store, m, loc), spec_linearize_traced(store, m, loc)) {
            (Ok(targets), Ok((traced, locs))) => {
                &&& traced == targets
                &&& locs.len() == targets.len()
                &&& forall|idx: int, i: int, j: int|
                    #![trigger targets[idx].yac_toml.dependencies[i], targets[j]]
                    0 <= idx < targets.len() && 0 <= i < targets[idx].yac_toml.dependencies.len()
                        && 0 <= j < targets.len()
                        && targets[idx].yac_toml.dependencies[i].1.location is Path && (match
                        store_lookup(
                        store,
                        join_of(
                            locs[idx],
                            targets[idx].yac_toml.dependencies[i].1.location.carried(),
                        ),
                    ) {
                        Some(child) => child.package.name == targets[j].yac_toml.package.name,
                        None => false,
                    }) ==> j < idx
            },
            (Err(e), Err(traced_e)) => e == traced_e,
            _ => false,
        },
{
    let t0 = ResolveTrace { targets: Seq::empty(), locs: Seq::empty(), used: Seq::empty() };
    let st0 = ResolveState { targets: Seq::empty(), used: Seq::empty() };
    assert(untraced(t0) =~= st0);
    lemma_order_manifest(store, m, loc, t0, RECURSION_LIMIT as nat, Seq::empty(), rank);
    lemma_lock_well_formed(store, m, loc);
    match resolve_manifest_traced(store, m, loc, t0, RECURSION_LIMIT as nat) {
        Err(_) => {},
        Ok(t2) => {
            let targets = t2.targets;
            let locs = t2.locs;
            assert forall|idx: int, i: int, j: int|
                0 <= idx < targets.len() && 0 <= i < targets[idx].yac_toml.dependencies.len() && 0
                    <= j < targets.len() && (#[trigger] targets[idx].yac_toml.dependencies[
                i]).1.location is Path && (match store_lookup(
                store,
                join_of(locs[idx], targets[idx].yac_toml.dependencies[i].1.location.carried()),
            ) {
                Some(child) => child.package.name == (#[trigger] targets[j]).yac_toml.package.name,
                None => false,
            }) implies j < idx by {
                let child = store_lookup(
                    store,
                    join_of(locs[idx], targets[idx].yac_toml.dependencies[i].1.location.carried()),
                )->Some_0;
                let n = child.package.name;
                assert(names_of(targets)[j] == n);
                assert(names_of(targets).contains(n));
                assert(!retired(t2, Seq::empty(), n));
                assert(names_of(targets.take(idx)).contains(n));
                let k = choose|k: int|
                    0 <= k < names_of(targets.take(idx)).len() && names_of(targets.take(idx))[k]
                        == n;
                assert(names_of(targets)[k] == n);
                assert(names_of(targets).no_duplicates());
                assert(j == k);
            }
        },
    }
}

/// LAW: in a diamond — a root depending on two packages that both depend on
/// one shared package — the shared package is resolved exactly once, on its
/// first discovery, and stands in the lock before both of its dependents,
/// which keep their declaration order. This holds for every diamond: the
/// names, paths and manifests below are arbitrary.
pub proof fn lemma_diamond_shared_dependency_first(
    root: YacTomlView,
    a: YacTomlView,
    b: YacTomlView,
    c: YacTomlView,
    loc: Seq<char>,
    store: StoreView,
)
    requires
        root.dependencies.len() == 2,
        a.dependencies.len() == 1,
        b.dependencies.len() == 1,
        c.dependencies.len() == 0,
        root.dependencies[0].1.location is Path,
        root.dependencies[1].1.location is Path,
        a.dependencies[0].1.location is Path,
        b.dependencies[0].1.location is Path,
        // The four packages are distinct.
        root.package.name != a.package.name,
        root.package.name != b.package.name,
        root.package.name != c.package.name,
        a.package.name != b.package.name,
        a.package.name != c.package.name,
        b.package.name != c.package.name,
        // The store maps each joined location to the manifest found there.
        store == seq![
            (join_of(loc, root.dependencies[0].1.location.carried()), a),
            (join_of(loc, root.dependencies[1].1.location.carried()), b),
            (
                join_of(
                    join_of(loc, root.dependencies[0].1.location.carried()),
                    a.dependencies[0].1.location.carried(),
                ),
                c,
            ),
            (
                join_of(
                    join_of(loc, root.dependencies[1].1.location.carried()),
                    b.dependencies[0].1.location.carried(),
                ),
                c,
            ),
        ],
        // The four locations are told apart (the two routes to the shared
        // package may or may not coincide).
        store[0].0 != store[1].0,
        store[2].0 != store[0].0,
        store[2].0 != store[1].0,
        store[3].0 != store[0].0,
        store[3].0 != store[1].0,
        // The root is resolved at its own directory; the others are not.
        normalize_of(slashes_of(loc)).len() == 0,
        normalize_of(slashes_of(store[0].0)).len() > 0,
        normalize_of(slashes_of(store[1].0)).len() > 0,
        normalize_of(slashes_of(store[2].0)).len() > 0,
    ensures
        spec_linearize(store, root, loc) == Ok::<Seq<TargetView>, LinearizeErrorView>(
            seq![
                target_for(c, normalize_of(slashes_of(store[2].0))),
                target_for(a, normalize_of(slashes_of(store[0].0))),
                target_for(b, normalize_of(slashes_of(store[1].0))),
            ],
        ),
{
    let ka = store[0].0;
    let kb = store[1].0;
    let kca = store[2].0;
    let kcb = store[3].0;
    let rn = root.package.name;
    let an = a.package.name;
    let bn = b.package.name;
    let cn = c.package.name;

    let f0: nat = RECURSION_LIMIT as nat;
    let f1: nat = (f0 - 1) as nat;
    let f2: nat = (f1 - 1) as nat;
    let f3: nat = (f2 - 1) as nat;

    let st0 = ResolveState { targets: Seq::empty(), used: Seq::empty() };
    let entered0 = ResolveState { targets: st0.targets, used: st0.used.push(rn) };

    // Looking the four locations up hits the intended manifests.
    assert(store_lookup(store, ka) == Some(a));
    assert(store_lookup(store, kb) == Some(b)) by {
        assert(store_lookup_from(store, kb, 1) == Some(b));
    }
    assert(store_lookup(store, kca) == Some(c)) by {
        assert(store_lookup_from(store, kca, 2) == Some(c));
        assert(store_lookup_from(store, kca, 1) == Some(c));
        assert(store_lookup_from(store, kca, 0) == Some(c));
    }
    assert(store_lookup(store, kcb) == Some(c)) by {
        if kcb == kca {
            assert(store_lookup_from(store, kcb, 2) == Some(c));
        } else {
            assert(store_lookup_from(store, kcb, 3) == Some(c));
            assert(store_lookup_from(store, kcb, 2) == Some(c));
        }
        assert(store_lookup_from(store, kcb, 1) == Some(c));
        assert(store_lookup_from(store, kcb, 0) == Some(c));
    }

    // First branch: a, and below it the first discovery of c.
    let entered_a = ResolveState { targets: entered0.targets, used: entered0.used.push(an) };
    let entered_c = ResolveState { targets: entered_a.targets, used: entered_a.used.push(cn) };
    let pretty_c = normalize_of(slashes_of(kca));
    let st_c = ResolveState {
        targets: entered_c.targets.push(target_for(c, pretty_c)),
        used: entered_c.used,
    };

    assert(!entered_a.used.contains(cn)) by {
        assert(entered_a.used =~= seq![rn, an]);
    }
    assert(resolve_deps(store, c, kca, 0, entered_c, f3) == Ok::<
        ResolveState,
        LinearizeErrorView,
    >(entered_c));
    assert(resolve_manifest(store, c, kca, entered_a, f2) == Ok::<
        ResolveState,
        LinearizeErrorView,
    >(st_c));
    assert(resolve_deps(store, a, ka, 1, st_c, f2) == Ok::<ResolveState, LinearizeErrorView>(st_c));
    assert(resolve_deps(store, a, ka, 0, entered_a, f2) == Ok::<
        ResolveState,
        LinearizeErrorView,
    >(st_c));

    let pretty_a = normalize_of(slashes_of(ka));
    let st_a = ResolveState { targets: st_c.targets.push(target_for(a, pretty_a)), used: st_c.used };
    assert(!entered0.used.contains(an)) by {
        assert(entered0.used =~= seq![rn]);
    }
    assert(resolve_manifest(store, a, ka, entered0, f1) == Ok::<
        ResolveState,
        LinearizeErrorView,
    >(st_a));

    // Second branch: b; its route to c is cut off, c having been seen.
    let entered_b = ResolveState { targets: st_a.targets, used: st_a.used.push(bn) };
    assert(entered_b.used =~= seq![rn, an, cn, bn]);
    assert(entered_b.used.contains(cn)) by {
        assert(entered_b.used[2] == cn);
    }
    assert(resolve_manifest(store, c, kcb, entered_b, f2) == Ok::<
        ResolveState,
        LinearizeErrorView,
    >(entered_b));
    assert(resolve_deps(store, b, kb, 1, entered_b, f2) == Ok::<
        ResolveState,
        LinearizeErrorView,
    >(entered_b));
    assert(resolve_deps(store, b, kb, 0, entered_b, f2) == Ok::<
        ResolveState,
        LinearizeErrorView,
    >(entered_b));

    let pretty_b = normalize_of(slashes_of(kb));
    let st_b = ResolveState {
        targets: entered_b.targets.push(target_for(b, pretty_b)),
        used: entered_b.used,
    };
    assert(!st_a.used.contains(bn)) by {
        assert(st_a.used =~= seq![rn, an, cn]);
    }
    assert(resolve_manifest(store, b, kb, st_a, f1) == Ok::<ResolveState, LinearizeErrorView>(
        st_b,
    ));

    // The root itself: both branches in declaration order, then no emission.
    assert(resolve_deps(store, root, loc, 2, st_b, f1) == Ok::<
        ResolveState,
        LinearizeErrorView,
    >(st_b));
    assert(resolve_deps(store, root, loc, 1, st_a, f1) == Ok::<
        ResolveState,
        LinearizeErrorView,
    >(st_b));
    assert(resolve_deps(store, root, loc, 0, entered0, f1) == Ok::<
        ResolveState,
        LinearizeErrorView,
    >(st_b));
    assert(!st0.used.contains(rn));
    assert(resolve_manifest(store, root, loc, st0, f0) == Ok::<
        ResolveState,
        LinearizeErrorView,
    >(st_b));
    assert(st_b.targets =~= seq![
        target_for(c, pretty_c),
        target_for(a, pretty_a),
        target_for(b, pretty_b),
    ]);
}

// ---------------------------------------------------------------------------
// The recursion limit is out of reach for small graphs
// ---------------------------------------------------------------------------

/// The package names the store can ever hand out, in entry order.
pub open spec fn store_names(store: StoreView) -> Seq<Seq<char>> {
    store.map_values(|p: (Seq<char>, YacTomlView)| p.1.package.name)
}

proof fn lemma_push_to_set<A>(s: Seq<A>, x: A)
    ensures
        s.push(x).to_set() =~= s.to_set().insert(x),
{
    assert forall|y: A| s.push(x).to_set().contains(y) implies s.to_set().insert(x).contains(
        y,
    ) by {
        let k = choose|k: int| 0 <= k < s.push(x).len() && s.push(x)[k] == y;
        if k < s.len() {
            assert(s[k] == y);
        }
    }
    assert forall|y: A| s.to_set().insert(x).contains(y) implies s.push(x).to_set().contains(
        y,
    ) by {
        if s.to_set().contains(y) {
            let k = choose|k: int| 0 <= k < s.len() && s[k] == y;
            assert(s.push(x)[k] == y);
        } else {
            assert(s.push(x)[s.len() as int] == y);
        }
    }
}

proof fn lemma_lookup_yields_store_name(store: StoreView, key: Seq<char>, i: int)
    ensures
        match store_lookup_from(store, key, i) {
            Some(m) => store_names(store).to_set().contains(m.package.name),
            None => true,
        },
    decreases store.len() - i,
{
    if i < 0 || i >= store.len() {
    } else if store[i].0 == key {
        assert(store_names(store)[i] == store[i].1.package.name);
    } else {
        lemma_lookup_yields_store_name(store, key, i + 1);
    }
}

proof fn lemma_fuel_sufficient_manifest(
    store: StoreView,
    m: YacTomlView,
    loc: Seq<char>,
    st: ResolveState,
    fuel: nat,
    names: Set<Seq<char>>,
)
    requires
        names.finite(),
        store_names(store).to_set().subset_of(names),
        names.contains(m.package.name),
        st.used.to_set().subset_of(names),
        fuel >= names.len() - st.used.to_set().len() + 1,
    ensures
        resolve_manifest(store, m, loc, st, fuel) != Err::<ResolveState, LinearizeErrorView>(
            LinearizeErrorView::RecursionLimit,
        ),
        resolve_manifest(store, m, loc, st, fuel) matches Ok(st2) ==> st2.used.to_set().subset_of(
            names,
        ) && st.used.to_set().subset_of(st2.used.to_set()),
    decreases fuel, 0int, 0int,
{
    broadcast use vstd::seq_lib::seq_to_set_is_finite;

    vstd::set_lib::lemma_len_subset(st.used.to_set(), names);
    assert(fuel >= 1);
    if st.used.contains(m.package.name) {
    } else {
        let name = m.package.name;
        let entered = ResolveState { targets: st.targets, used: st.used.push(name) };
        lemma_push_to_set(st.used, name);
        assert(!st.used.to_set().contains(name));
        assert(entered.used.to_set().len() == st.used.to_set().len() + 1);
        lemma_fuel_sufficient_deps(store, m, loc, 0, entered, (fuel - 1) as nat, names);
        match resolve_deps(store, m, loc, 0, entered, (fuel - 1) as nat) {
            Err(_) => {},
            Ok(resolved) => {
                assert(st.used.to_set().subset_of(entered.used.to_set()));
            },
        }
    }
}

proof fn lemma_fuel_sufficient_deps(
    store: StoreView,
    m: YacTomlView,
    loc: Seq<char>,
    i: int,
    st: ResolveState,
    child_fuel: nat,
    names: Set<Seq<char>>,
)
    requires
        names.finite(),
        store_names(store).to_set().subset_of(names),
        st.used.to_set().subset_of(names),
        child_fuel >= names.len() - st.used.to_set().len() + 1,
    ensures
        resolve_deps(store, m, loc, i, st, child_fuel) != Err::<ResolveState, LinearizeErrorView>(
            LinearizeErrorView::RecursionLimit,
        ),
        resolve_deps(store, m, loc, i, st, child_fuel) matches Ok(st2) ==> st2.used.to_set()
            .subset_of(names) && st.used.to_set().subset_of(st2.used.to_set()),
    decreases child_fuel, m.dependencies.len() - i, 1int,
{
    broadcast use vstd::seq_lib::seq_to_set_is_finite;

    if i < 0 || i >= m.dependencies.len() {
    } else {
        let (dep_name, dep) = m.dependencies[i];
        match dep.location {
            LocationView::Link { .. } => {},
            LocationView::Path { path } => {
                let child_loc = join_of(loc, path);
                lemma_lookup_yields_store_name(store, child_loc, 0);
                match store_lookup(store, child_loc) {
                    None => {},
                    Some(child) => {
                        lemma_fuel_sufficient_manifest(store, child, child_loc, st, child_fuel, names);
                        match resolve_manifest(store, child, child_loc, st, child_fuel) {
                            Err(_) => {},
                            Ok(after_child) => {
                                vstd::set_lib::lemma_len_subset(
                                    st.used.to_set(),
                                    after_child.used.to_set(),
                                );
                                lemma_fuel_sufficient_deps(
                                    store,
                                    m,
                                    loc,
                                    i + 1,
                                    after_child,
                                    child_fuel,
                                    names,
                                );
                            },
                        }
                    },
                }
            },
        }
    }
}

/// LAW: the recursion limit is reachable only through graphs with more
/// packages than the limit itself, never through cycles or diamonds among
/// fewer: a resolution over a store of fewer than `RECURSION_LIMIT - 1`
/// manifests never reports `RecursionLimit` — being total, it terminates,
/// succeeding or failing for one of the other reasons.
pub proof fn lemma_limit_out_of_reach(store: StoreView, m: YacTomlView, loc: Seq<char>)
    requires
        store.len() + 2 <= RECURSION_LIMIT,
    ensures
        spec_linearize(store, m, loc) != Err::<Seq<TargetView>, LinearizeErrorView>(
            LinearizeErrorView::RecursionLimit,
        ),
{
    broadcast use vstd::seq_lib::seq_to_set_is_finite;

    let names = store_names(store).to_set().insert(m.package.name);
    store_names(store).lemma_cardinality_of_set();
    assert(names.len() <= store_names(store).to_set().len() + 1);
    let st0 = ResolveState { targets: Seq::empty(), used: Seq::empty() };
    assert(st0.used.to_set() =~= Set::<Seq<char>>::empty());
    lemma_fuel_sufficient_manifest(store, m, loc, st0, RECURSION_LIMIT as nat, names);
}

/// LAW: resolution is a function of the manifest, its location and the
/// manifest tree alone: two successful resolutions of unchanged input yield
/// field-for-field identical locks.
pub proof fn lemma_linearize_repeatable(
    store: StoreView,
    m: YacTomlView,
    loc: Seq<char>,
    first: YacLockView,
    second: YacLockView,
)
    requires
        spec_linearize(store, m, loc) == Ok::<Seq<TargetView>, LinearizeErrorView>(first.package),
        spec_linearize(store, m, loc) == Ok::<Seq<TargetView>, LinearizeErrorView>(second.package),
    ensures
        first == second,
{
    assert(first =~= second);
}

impl YacLock {
    /// Flattens `yac_toml`, found at `location`, into an ordered lock: its
    /// dependency tree is read from `store`, visited depth-first and
    /// post-order, each package name descended into exactly once, and the
    /// root itself (the manifest whose normalized location is empty) left
    /// out. The result is exactly what `spec_linearize` describes.
    pub fn linearize_from(yac_toml: &YacToml, location: &str, store: &ManifestStore) -> (result:
        Result<YacLock, YacLockLinearizeError>)
        ensures
            match result {
                Ok(lock) => spec_linearize(store@, yac_toml@, location@) == Ok::<
                    Seq<TargetView>,
                    LinearizeErrorView,
                >(lock@.package),
                Err(e) => spec_linearize(store@, yac_toml@, location@) == Err::<
                    Seq<TargetView>,
                    LinearizeErrorView,
                >(e@),
            },
    {
        let mut targets: Vec<Target> = Vec::new();
        let mut used: Vec<String> = Vec::new();
        proof {
            assert(state_of(targets@, used@) =~= ResolveState {
                targets: Seq::empty(),
                used: Seq::empty(),
            });
        }
        let root = yac_toml.duplicate();
        match linearize_rec(
            store,
            root,
            String::from_str(location),
            &mut targets,
            &mut used,
            RECURSION_LIMIT,
        ) {
            Err(e) => Err(e),
            Ok(()) => {
                let lock = YacLock { package: targets };
                Ok(lock)
            },
        }
    }
}

} // verus!
