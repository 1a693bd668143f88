//! What project discovery decides once the files are read: the workspace patterns a
//! `pnpm-workspace.yaml` declares, which patterns are allowed, which directories a
//! scan skips, which package manager runs the scripts, and which scripts become
//! launch profiles in what order.
use vstd::prelude::*;
use std::collections::VecDeque;
use crate::archive::sorted::{lemma_put_len, lookup, put, put_all, NameMap};
use crate::error::{invalid, AppError, AppResult};
use crate::models::{DiscoveredProfile, ExpectedPort};
use crate::pnpm_workspace::{compiles_everywhere, glob_compile_error, path_part};
use crate::text::{
    ascii_lowered, chars_of, decimal_digits, eq_ignore_ascii_case, is_white, is_whitespace, lines_of, push_char,
    push_decimal, push_str, str_eq, string_of, text_lines, texts, trim, trim_end, trim_start, trimmed,
    trimmed_end, trimmed_start,
};

verus! {

/// How deep below a development root a scan looks for projects.
pub const MAX_SCAN_DEPTH: usize = 8;

/// How many directories one scan visits at most.
pub const MAX_SCANNED_DIRECTORIES: usize = 10_000;

/// How many projects one scan reports at most.
pub const MAX_DISCOVERED_PROJECTS: usize = 200;

/// The directory names a scan never descends into, compared without ASCII case.
pub open spec fn ignored_directory_names() -> Seq<Seq<char>> {
    seq![
        "node_modules"@, ".git"@, "target"@, "dist"@, "build"@, ".next"@, ".turbo"@, "out"@, "coverage"@,
        ".cache"@, ".pnpm-store"@, ".yarn"@, ".venv"@, "venv"@,
    ]
}

/// Whether a scan skips a directory of this name.
pub fn ignored_directory(name: &str) -> (r: bool)
    ensures
        r == exists|i: int| 0 <= i < ignored_directory_names().len()
            && ascii_lowered(name@) == ascii_lowered(#[trigger] ignored_directory_names()[i]),
{
    let names: Vec<&str> = vec![
        "node_modules", ".git", "target", "dist", "build", ".next", ".turbo", "out", "coverage", ".cache",
        ".pnpm-store", ".yarn", ".venv", "venv",
    ];
    proof {
        assert(names@.len() == 14);
        assert forall|i: int| 0 <= i < 14 implies #[trigger] names@[i]@ == ignored_directory_names()[i] by {}
    }
    let mut i: usize = 0;
    while i < names.len()
        invariant
            names@.len() == 14,
            forall|k: int| 0 <= k < 14 ==> #[trigger] names@[k]@ == ignored_directory_names()[k],
            i <= 14,
            forall|k: int| 0 <= k < i ==> ascii_lowered(name@) != ascii_lowered(#[trigger] ignored_directory_names()[k]),
        decreases 14 - i,
    {
        if eq_ignore_ascii_case(name, names[i]) {
            proof {
                assert(ascii_lowered(name@) == ascii_lowered(ignored_directory_names()[i as int]));
            }
            return true;
        }
        i = i + 1;
    }
    false
}

/// The package manager a project uses: `pnpm` when it has a `pnpm-lock.yaml`, else
/// `npm`.
pub fn detect_package_manager(has_pnpm_lock: bool) -> (r: String)
    ensures
        r@ == (if has_pnpm_lock { "pnpm"@ } else { "npm"@ }),
{
    let mut r = String::new();
    if has_pnpm_lock {
        push_str(&mut r, "pnpm");
    } else {
        push_str(&mut r, "npm");
    }
    r
}

/// The program that runs a package manager: on Windows its `.cmd` shim.
pub fn executable_name(package_manager: &str, windows: bool) -> (r: String)
    ensures
        r@ == package_manager@ + (if windows { ".cmd"@ } else { ""@ }),
{
    let mut r = String::new();
    push_str(&mut r, package_manager);
    if windows {
        push_str(&mut r, ".cmd");
    } else {
        push_str(&mut r, "");
    }
    r
}

/// Where a script sorts among a package's launch candidates.
pub open spec fn script_rank(name: Seq<char>) -> u8 {
    if name == "dev"@ {
        0
    } else if name == "start"@ {
        1
    } else if name == "serve"@ {
        2
    } else if name == "preview"@ {
        3
    } else {
        4
    }
}

/// The key scripts are sorted by: the documented launch order first, then the name.
pub fn script_priority(name: &str) -> (r: (u8, String))
    ensures
        r.0 == script_rank(name@),
        r.1@ == name@,
{
    let rank: u8 = if str_eq(name, "dev") {
        0
    } else if str_eq(name, "start") {
        1
    } else if str_eq(name, "serve") {
        2
    } else if str_eq(name, "preview") {
        3
    } else {
        4
    };
    let mut owned = String::new();
    push_str(&mut owned, name);
    (rank, owned)
}

/// Whether a script becomes a launch profile: `dev`, `start`, `serve` or `preview`.
pub fn is_default_launch_script(name: &str) -> (r: bool)
    ensures
        r == (script_rank(name@) < 4),
{
    str_eq(name, "dev") || str_eq(name, "start") || str_eq(name, "serve") || str_eq(name, "preview")
}

/// The scripts of `names` that are `target`, in their order.
pub open spec fn scripts_named(names: Seq<Seq<char>>, target: Seq<char>) -> Seq<Seq<char>> {
    names.filter(|n: Seq<char>| n == target)
}

/// The launch scripts of a package, in launch order: every `dev`, then every
/// `start`, `serve` and `preview`.
pub open spec fn launch_scripts(names: Seq<Seq<char>>) -> Seq<Seq<char>> {
    scripts_named(names, "dev"@) + scripts_named(names, "start"@) + scripts_named(names, "serve"@)
        + scripts_named(names, "preview"@)
}

/// What a launch profile for `script` is called: the script alone in the project's
/// root package, else the package's label, a colon, and the script.
pub open spec fn profile_name(script: Seq<char>, is_root: bool, package_label: Seq<char>) -> Seq<char> {
    if is_root { script } else { package_label + ": "@ + script }
}

/// Whether a discovered profile is the one a script gives.
pub open spec fn is_launch_profile(
    profile: DiscoveredProfile,
    script: Seq<char>,
    is_root: bool,
    package_label: Seq<char>,
    program: Seq<char>,
    cwd: Seq<char>,
) -> bool {
    &&& profile.name@ == profile_name(script, is_root, package_label)
    &&& profile.program@ == program
    &&& texts(profile.args@) == seq!["run"@, script]
    &&& profile.cwd@ == cwd
    &&& profile.expected_ports@.len() == 0
    &&& !profile.observed_runtime
}

/// Append a profile for every script of `names` that is `target`.
fn push_profiles_named(
    profiles: &mut Vec<DiscoveredProfile>,
    names: &Vec<String>,
    target: &str,
    is_root: bool,
    package_label: &str,
    program: &str,
    cwd: &str,
)
    ensures
        final(profiles)@.len() == old(profiles)@.len() + scripts_named(texts(names@), target@).len(),
        forall|i: int| 0 <= i < old(profiles)@.len() ==> #[trigger] final(profiles)@[i] == old(profiles)@[i],
        forall|i: int| 0 <= i < scripts_named(texts(names@), target@).len() ==> is_launch_profile(
            #[trigger] final(profiles)@[old(profiles)@.len() + i],
            scripts_named(texts(names@), target@)[i],
            is_root,
            package_label@,
            program@,
            cwd@,
        ),
{
    let ghost start = old(profiles)@.len();
    let mut i: usize = 0;
    while i < names.len()
        invariant
            i <= names@.len(),
            start == old(profiles)@.len(),
            profiles@.len() == start + scripts_named(texts(names@).subrange(0, i as int), target@).len(),
            forall|k: int| 0 <= k < start ==> #[trigger] profiles@[k] == old(profiles)@[k],
            forall|k: int| 0 <= k < scripts_named(texts(names@).subrange(0, i as int), target@).len() ==> is_launch_profile(
                #[trigger] profiles@[start + k],
                scripts_named(texts(names@).subrange(0, i as int), target@)[k],
                is_root,
                package_label@,
                program@,
                cwd@,
            ),
        decreases names@.len() - i,
    {
        let ghost prefix = texts(names@).subrange(0, i + 1);
        proof {
            assert(prefix.drop_last() =~= texts(names@).subrange(0, i as int));
            assert(prefix.last() == names@[i as int]@);
            reveal(Seq::filter);
        }
        if str_eq(names[i].as_str(), target) {
            let mut name = String::new();
            if is_root {
                push_str(&mut name, names[i].as_str());
            } else {
                push_str(&mut name, package_label);
                push_str(&mut name, ": ");
                push_str(&mut name, names[i].as_str());
            }
            let mut owned_program = String::new();
            push_str(&mut owned_program, program);
            let mut owned_cwd = String::new();
            push_str(&mut owned_cwd, cwd);
            let mut run = String::new();
            push_str(&mut run, "run");
            let args: Vec<String> = vec![run, names[i].clone()];
            proof {
                reveal_strlit("run");
                assert(texts(args@) =~= seq!["run"@, names@[i as int]@]);
            }
            profiles.push(DiscoveredProfile {
                name,
                program: owned_program,
                args,
                cwd: owned_cwd,
                expected_ports: Vec::new(),
                observed_runtime: false,
            });
        }
        i = i + 1;
    }
    proof {
        assert(texts(names@).subrange(0, i as int) =~= texts(names@));
    }
}

/// The launch profiles a package's scripts give, in launch order: `dev`, `start`,
/// `serve`, `preview`, each run through the package manager's `run`.
pub fn launch_profiles(
    script_names: &Vec<String>,
    is_root: bool,
    package_label: &str,
    program: &str,
    cwd: &str,
) -> (profiles: Vec<DiscoveredProfile>)
    ensures
        profiles@.len() == launch_scripts(texts(script_names@)).len(),
        forall|i: int| 0 <= i < profiles@.len() ==> is_launch_profile(
            #[trigger] profiles@[i],
            launch_scripts(texts(script_names@))[i],
            is_root,
            package_label@,
            program@,
            cwd@,
        ),
{
    let mut profiles: Vec<DiscoveredProfile> = Vec::new();
    let ghost names = texts(script_names@);
    let ghost a = scripts_named(names, "dev"@);
    let ghost b = scripts_named(names, "start"@);
    let ghost c = scripts_named(names, "serve"@);
    let ghost d = scripts_named(names, "preview"@);
    push_profiles_named(&mut profiles, script_names, "dev", is_root, package_label, program, cwd);
    let ghost after_a = profiles@;
    push_profiles_named(&mut profiles, script_names, "start", is_root, package_label, program, cwd);
    let ghost after_b = profiles@;
    push_profiles_named(&mut profiles, script_names, "serve", is_root, package_label, program, cwd);
    let ghost after_c = profiles@;
    push_profiles_named(&mut profiles, script_names, "preview", is_root, package_label, program, cwd);
    proof {
        let all = launch_scripts(names);
        assert(all =~= a + b + c + d);
        assert forall|i: int| 0 <= i < profiles@.len() implies is_launch_profile(
            #[trigger] profiles@[i],
            all[i],
            is_root,
            package_label@,
            program@,
            cwd@,
        ) by {
            if i < a.len() {
                assert(profiles@[i] == after_c[i]);
                assert(after_c[i] == after_b[i]);
                assert(after_b[i] == after_a[i]);
                assert(after_a[0 + i] == after_a[i]);
            } else if i < a.len() + b.len() {
                assert(profiles@[i] == after_c[i]);
                assert(after_c[i] == after_b[i]);
                assert(after_b[a.len() + (i - a.len())] == after_b[i]);
            } else if i < a.len() + b.len() + c.len() {
                assert(profiles@[i] == after_c[i]);
                assert(after_c[(a.len() + b.len()) + (i - a.len() - b.len())] == after_c[i]);
            } else {
                assert(profiles@[(a.len() + b.len() + c.len()) + (i - a.len() - b.len() - c.len())] == profiles@[i]);
            }
        }
    }
    profiles
}

/// The names of a map built from `names`, each once, in order.
pub open spec fn sorted_unique(names: Seq<Seq<char>>) -> Seq<Seq<char>> {
    put_all(names.map_values(|n: Seq<char>| (n, ()))).map_values(|e: (Seq<char>, ())| e.0)
}

/// Each of `names` once, in sorted order.
pub fn sorted_names(names: &Vec<String>) -> (r: Vec<String>)
    ensures
        texts(r@) == sorted_unique(texts(names@)),
{
    let mut set: NameMap<()> = NameMap::new();
    let mut i: usize = 0;
    while i < names.len()
        invariant
            i <= names@.len(),
            set.wf(),
            set@ == put_all(texts(names@).subrange(0, i as int).map_values(|n: Seq<char>| (n, ()))),
        decreases names@.len() - i,
    {
        proof {
            let items = texts(names@).subrange(0, i + 1).map_values(|n: Seq<char>| (n, ()));
            assert(items.drop_last() =~= texts(names@).subrange(0, i as int).map_values(|n: Seq<char>| (n, ())));
            assert(items.last() == (names@[i as int]@, ()));
        }
        set.insert(names[i].clone(), ());
        i = i + 1;
    }
    proof {
        assert(texts(names@).subrange(0, i as int) =~= texts(names@));
    }
    let mut r: Vec<String> = Vec::new();
    let mut k: usize = 0;
    while k < set.entries.len()
        invariant
            k <= set@.len(),
            set@ == put_all(texts(names@).map_values(|n: Seq<char>| (n, ()))),
            r@.len() == k,
            texts(r@) == set@.subrange(0, k as int).map_values(|e: (Seq<char>, ())| e.0),
        decreases set@.len() - k,
    {
        let ghost before = r@;
        let name = set.entries[k].0.clone();
        r.push(name);
        proof {
            assert(set@[k as int].0 == name@);
            assert forall|x: int| 0 <= x < k + 1 implies #[trigger] texts(r@)[x] == set@.subrange(0, k + 1).map_values(
                |e: (Seq<char>, ())| e.0)[x] by {
                assert(texts(r@)[x] == r@[x]@);
                if x < k {
                    assert(r@[x] == before[x]);
                    assert(texts(before)[x] == set@.subrange(0, k as int).map_values(|e: (Seq<char>, ())| e.0)[x]);
                } else {
                    assert(r@[x] == name);
                }
            }
            assert(texts(r@) =~= set@.subrange(0, k + 1).map_values(|e: (Seq<char>, ())| e.0));
        }
        k = k + 1;
    }
    proof {
        assert(set@.subrange(0, k as int) =~= set@);
    }
    r
}

/// The workspace patterns of a project: those its `package.json` declares and those
/// its `pnpm-workspace.yaml` does, each once, sorted.
pub fn merged_workspace_patterns(manifest_patterns: &Vec<String>, pnpm_patterns: &Vec<String>) -> (r: Vec<String>)
    ensures
        texts(r@) == sorted_unique(texts(manifest_patterns@) + texts(pnpm_patterns@)),
{
    let mut all: Vec<String> = Vec::new();
    let mut i: usize = 0;
    while i < manifest_patterns.len()
        invariant
            i <= manifest_patterns@.len(),
            all@.len() == i,
            texts(all@) == texts(manifest_patterns@).subrange(0, i as int),
        decreases manifest_patterns@.len() - i,
    {
        all.push(manifest_patterns[i].clone());
        proof {
            assert(texts(all@) =~= texts(manifest_patterns@).subrange(0, i + 1));
        }
        i = i + 1;
    }
    let mut j: usize = 0;
    while j < pnpm_patterns.len()
        invariant
            i == manifest_patterns@.len(),
            j <= pnpm_patterns@.len(),
            all@.len() == i + j,
            texts(all@) == texts(manifest_patterns@) + texts(pnpm_patterns@).subrange(0, j as int),
        decreases pnpm_patterns@.len() - j,
    {
        let ghost before = all@;
        all.push(pnpm_patterns[j].clone());
        proof {
            assert forall|x: int| 0 <= x < i + j + 1 implies #[trigger] texts(all@)[x] == (texts(manifest_patterns@)
                + texts(pnpm_patterns@).subrange(0, j + 1))[x] by {
                assert(texts(all@)[x] == all@[x]@);
                if x < i + j {
                    assert(all@[x] == before[x]);
                    assert(texts(before)[x] == (texts(manifest_patterns@) + texts(pnpm_patterns@).subrange(0, j as int))[x]);
                } else {
                    assert(all@[x] == pnpm_patterns@[j as int]);
                }
            }
            assert(texts(all@) =~= texts(manifest_patterns@) + texts(pnpm_patterns@).subrange(0, j + 1));
        }
        j = j + 1;
    }
    proof {
        assert(texts(manifest_patterns@).subrange(0, i as int) =~= texts(manifest_patterns@));
        assert(texts(pnpm_patterns@).subrange(0, j as int) =~= texts(pnpm_patterns@));
    }
    sorted_names(&all)
}

/// A directory a scan has still to visit, with its depth below the root.
#[derive(Debug, Clone, PartialEq, Eq)]
pub struct PendingDirectory {
    pub path: String,
    pub depth: usize,
}

/// What a scan does with a directory it has just resolved.
#[derive(Debug, Clone, Copy, PartialEq, Eq, Structural)]
pub enum Admission {
    /// Outside the root, seen before, or inside a workspace already found: pass over it.
    Skip,
    /// Look for a project here, and descend when its depth allows.
    Visit,
    /// The scan has seen as many directories as it may: stop.
    Stop,
}

/// The walk of a development root, breadth first: the directories still to visit,
/// each resolved directory seen so far, and how many projects were found.
pub struct RootScan {
    pub pending: VecDeque<PendingDirectory>,
    pub visited: NameMap<()>,
    pub found: usize,
}

/// Whether a scan has already seen this resolved directory.
pub open spec fn seen(visited: Seq<(Seq<char>, ())>, path: Seq<char>) -> bool {
    lookup(visited, path) is Some
}

/// What resolving a directory decides, given whether it lies inside the
/// root and inside a workspace already found. A directory is seen once only; the
/// directory that takes the count past [`MAX_SCANNED_DIRECTORIES`] stops the scan.
pub open spec fn admission(
    visited: Seq<(Seq<char>, ())>,
    path: Seq<char>,
    inside_root: bool,
    under_workspace: bool,
) -> Admission {
    if !inside_root || seen(visited, path) {
        Admission::Skip
    } else if visited.len() + 1 > MAX_SCANNED_DIRECTORIES {
        Admission::Stop
    } else if under_workspace {
        Admission::Skip
    } else {
        Admission::Visit
    }
}

impl RootScan {
    /// Whether the scan's state is well formed: every directory is seen once, and none
    /// waits deeper than a scan looks.
    pub open spec fn wf(&self) -> bool {
        &&& self.visited.wf()
        &&& forall|i: int| 0 <= i < self.pending@.len() ==> (#[trigger] self.pending@[i]).depth <= MAX_SCAN_DEPTH
    }

    /// A scan of `root`, which waits at depth zero.
    pub fn new(root: String) -> (scan: Self)
        ensures
            scan.wf(),
            scan.pending@ == seq![PendingDirectory { path: root, depth: 0 }],
            scan.visited@.len() == 0,
            scan.found == 0,
    {
        let mut pending: VecDeque<PendingDirectory> = VecDeque::new();
        pending.push_back(PendingDirectory { path: root, depth: 0 });
        RootScan { pending, visited: NameMap::new(), found: 0 }
    }

    /// The next directory to visit, first in first out; `None` when the walk is done.
    pub fn next(&mut self) -> (r: Option<PendingDirectory>)
        requires
            old(self).wf(),
        ensures
            final(self).wf(),
            final(self).visited@ == old(self).visited@,
            final(self).found == old(self).found,
            old(self).pending@.len() == 0 ==> r is None && final(self).pending@.len() == 0,
            old(self).pending@.len() > 0 ==> {
                &&& r == Some(old(self).pending@[0])
                &&& final(self).pending@ == old(self).pending@.drop_first()
            },
    {
        let r = self.pending.pop_front();
        proof {
            assert forall|i: int| 0 <= i < self.pending@.len() implies (#[trigger] self.pending@[i]).depth
                <= MAX_SCAN_DEPTH by {
                assert(self.pending@[i] == old(self).pending@[i + 1]);
            }
        }
        r
    }

    /// Decide what to do with a directory the walk has just resolved, and remember it
    /// as seen when it lies inside the root.
    pub fn resolve(&mut self, path: String, inside_root: bool, under_workspace: bool) -> (r: Admission)
        requires
            old(self).wf(),
        ensures
            final(self).wf(),
            r == admission(old(self).visited@, path@, inside_root, under_workspace),
            final(self).visited@ == if inside_root && !seen(old(self).visited@, path@) {
                put(old(self).visited@, path@, ())
            } else {
                old(self).visited@
            },
            seen(final(self).visited@, path@) == (inside_root || seen(old(self).visited@, path@)),
            final(self).visited@.len() == old(self).visited@.len() + if inside_root && !seen(old(self).visited@, path@) {
                1int
            } else {
                0int
            },
            final(self).pending@ == old(self).pending@,
            final(self).found == old(self).found,
    {
        if !inside_root || self.visited.contains(path.as_str()) {
            return Admission::Skip;
        }
        let ghost before = self.visited@;
        proof {
            lemma_put_len(before, path@, ());
            crate::archive::sorted::lemma_lookup_put(before, path@, (), path@);
        }
        self.visited.insert(path, ());
        if self.visited.len() > MAX_SCANNED_DIRECTORIES {
            Admission::Stop
        } else if under_workspace {
            Admission::Skip
        } else {
            Admission::Visit
        }
    }

    /// Count one project found; `true` when that is as many as one scan reports.
    pub fn record_project(&mut self) -> (stop: bool)
        requires
            old(self).wf(),
            old(self).found < MAX_DISCOVERED_PROJECTS,
        ensures
            final(self).wf(),
            final(self).found == old(self).found + 1,
            stop == (final(self).found >= MAX_DISCOVERED_PROJECTS),
            final(self).pending@ == old(self).pending@,
            final(self).visited@ == old(self).visited@,
    {
        self.found = self.found + 1;
        self.found >= MAX_DISCOVERED_PROJECTS
    }

    /// Queue the subdirectories of a directory at `depth`, in name order, one level
    /// deeper; a directory at the deepest level a scan looks has none queued.
    pub fn descend(&mut self, children: &Vec<String>, depth: usize)
        requires
            old(self).wf(),
            depth <= MAX_SCAN_DEPTH,
        ensures
            final(self).wf(),
            depth == MAX_SCAN_DEPTH ==> final(self).pending@ == old(self).pending@,
            depth < MAX_SCAN_DEPTH ==> {
                let added = sorted_unique(texts(children@));
                &&& final(self).pending@.len() == old(self).pending@.len() + added.len()
                &&& final(self).pending@.subrange(0, old(self).pending@.len() as int) == old(self).pending@
                &&& forall|i: int| 0 <= i < added.len() ==> {
                    let queued = #[trigger] final(self).pending@[old(self).pending@.len() + i];
                    queued.path@ == added[i] && queued.depth == depth + 1
                }
            },
            final(self).visited@ == old(self).visited@,
            final(self).found == old(self).found,
    {
        if depth == MAX_SCAN_DEPTH {
            return;
        }
        let sorted = sorted_names(children);
        let ghost start = self.pending@;
        let ghost added = sorted_unique(texts(children@));
        let mut k: usize = 0;
        while k < sorted.len()
            invariant
                self.wf(),
                depth < MAX_SCAN_DEPTH,
                k <= sorted@.len(),
                texts(sorted@) == added,
                self.pending@.len() == start.len() + k,
                self.pending@.subrange(0, start.len() as int) == start,
                forall|i: int| 0 <= i < k ==> {
                    let queued = #[trigger] self.pending@[start.len() + i];
                    queued.path@ == added[i] && queued.depth == depth + 1
                },
                self.visited@ == old(self).visited@,
                self.found == old(self).found,
            decreases sorted@.len() - k,
        {
            let ghost before = self.pending@;
            self.pending.push_back(PendingDirectory { path: sorted[k].clone(), depth: depth + 1 });
            proof {
                assert(self.pending@ == before.push(PendingDirectory { path: sorted@[k as int], depth: (depth + 1) as usize }));
                assert(texts(sorted@)[k as int] == sorted@[k as int]@);
                assert forall|i: int| 0 <= i < self.pending@.len() implies (#[trigger] self.pending@[i]).depth
                    <= MAX_SCAN_DEPTH by {
                    if i < before.len() {
                        assert(self.pending@[i] == before[i]);
                    }
                }
                assert(self.pending@.subrange(0, start.len() as int) =~= before.subrange(0, start.len() as int));
                assert forall|i: int| 0 <= i < k + 1 implies {
                    let queued = #[trigger] self.pending@[start.len() + i];
                    queued.path@ == added[i] && queued.depth == depth + 1
                } by {
                    if i < k {
                        assert(self.pending@[start.len() + i] == before[start.len() + i]);
                    }
                }
            }
            k = k + 1;
        }
    }
}

/// A scan visits a directory once: once a resolved directory inside the root has been
/// resolved, resolving it again passes over it, whatever else is asked.
pub proof fn a_directory_is_visited_once(
    visited: Seq<(Seq<char>, ())>,
    path: Seq<char>,
    again_inside_root: bool,
    again_under_workspace: bool,
)
    requires
        crate::archive::sorted::names_ascend(visited),
    ensures
        ({
            let after = if !seen(visited, path) { put(visited, path, ()) } else { visited };
            admission(after, path, again_inside_root, again_under_workspace) == Admission::Skip
        }),
{
    if !seen(visited, path) {
        crate::archive::sorted::lemma_lookup_put(visited, path, (), path);
    }
}

/// Whether a glob pattern is literal: no `?`, `*` or `[`, so it matches only a text
/// equal to it.
pub open spec fn literal_pattern(p: Seq<char>) -> bool {
    forall|i: int| 0 <= i < p.len() ==> #[trigger] p[i] != '?' && p[i] != '*' && p[i] != '['
}

/// Whether a text holds no `\\`, which only some platforms read as a separator.
pub open spec fn no_backslash(p: Seq<char>) -> bool {
    forall|i: int| 0 <= i < p.len() ==> #[trigger] p[i] != '\\'
}

/// What `glob::Pattern::matches_path` answers, with the default options, for a
/// compiled pattern and a path, neither holding a `\\`.
pub uninterp spec fn glob_match(pattern: Seq<char>, path: Seq<char>) -> bool;

/// `glob::Pattern::new(pattern)` and, when it compiles, its `matches_path` on `path`
/// read as a path; `Err` carries the compile error's text. In glob 0.3.4 a pattern
/// with no run of three `*`, no `**` that is not a whole component and no `[`
/// compiles everywhere. A literal pattern matches with the default options exactly
/// the text equal to it, character for character, except that on Windows `/` and
/// `\\` match each other; so it matches a text equal to it everywhere, and, when
/// neither holds a `\\`, nothing else anywhere. When neither holds a `\\` at all,
/// every platform's separators read both alike, so the answer is a function of the two
/// texts: the compile error named [`glob_compile_error`], or the match named
/// [`glob_match`]. With a `\\`, the rest depends on the platform and is not stated.
#[verifier::external_body]
fn glob_matches_path(pattern: &str, path: &str) -> (r: Result<bool, String>)
    ensures
        compiles_everywhere(pattern@) ==> r is Ok,
        no_backslash(pattern@) && no_backslash(path@) ==> match r {
            Ok(b) => glob_compile_error(pattern@) is None && glob_match(pattern@, path@) == b,
            Err(m) => glob_compile_error(pattern@) == Some(m@),
        },
        literal_pattern(pattern@) && pattern@ == path@ ==> r is Ok && r->Ok_0,
        literal_pattern(pattern@) && no_backslash(pattern@) && no_backslash(path@) && pattern@ != path@ ==> r is Ok && !r->Ok_0,
{
    match glob::Pattern::new(pattern) {
        Ok(compiled) => Ok(compiled.matches_path(std::path::Path::new(path))),
        Err(error) => Err(error.to_string()),
    }
}

/// Whether a workspace pattern excludes: it starts with `!`.
pub open spec fn is_exclusion(pattern: Seq<char>) -> bool {
    pattern.len() > 0 && pattern[0] == '!'
}

/// The refusal for an excluding pattern glob does not compile.
pub open spec fn invalid_exclusion_message(pattern: Seq<char>, error: Seq<char>) -> Seq<char> {
    "Invalid workspace pattern '"@ + pattern + "': "@ + error
}

/// Whether every excluding pattern, and the path, are read the same way everywhere:
/// literal, and free of `\\`.
pub open spec fn plain_exclusions(relative: Seq<char>, patterns: Seq<Seq<char>>) -> bool {
    &&& no_backslash(relative)
    &&& forall|i: int| 0 <= i < patterns.len() && is_exclusion(#[trigger] patterns[i]) ==> literal_pattern(
        path_part(patterns[i])) && no_backslash(path_part(patterns[i]))
}

/// Whether the excluding patterns and the path hold no `\\`, so that every platform
/// reads them alike.
pub open spec fn exclusions_without_backslash(relative: Seq<char>, patterns: Seq<Seq<char>>) -> bool {
    &&& no_backslash(relative)
    &&& forall|i: int| 0 <= i < patterns.len() && is_exclusion(#[trigger] patterns[i]) ==> no_backslash(
        path_part(patterns[i]),
    )
}

/// Whether `relative` is excluded by `patterns`, tried in order: the first `!`
/// pattern whose glob matches excludes it; one whose glob does not compile is
/// refused when it is reached.
pub open spec fn exclusion_outcome(relative: Seq<char>, patterns: Seq<Seq<char>>) -> Result<bool, Seq<char>>
    decreases patterns.len(),
{
    if patterns.len() == 0 {
        Ok(false)
    } else if !is_exclusion(patterns[0]) {
        exclusion_outcome(relative, patterns.drop_first())
    } else {
        match glob_compile_error(path_part(patterns[0])) {
            Some(m) => Err(invalid_exclusion_message(patterns[0], m)),
            None => if glob_match(path_part(patterns[0]), relative) {
                Ok(true)
            } else {
                exclusion_outcome(relative, patterns.drop_first())
            },
        }
    }
}

/// What one `!` pattern decides, given glob's answer for it: `Some` result when it
/// excludes the directory or does not compile, `None` to try the next pattern.
pub fn exclusion_step(pattern: &str, verdict: Result<bool, String>) -> (r: Option<AppResult<bool>>)
    ensures
        match verdict {
            Ok(true) => r == Some(Ok::<bool, AppError>(true)),
            Ok(false) => r is None,
            Err(m) => r matches Some(Err(e)) && e is Message && e.text() == invalid_exclusion_message(pattern@, m@),
        },
{
    match verdict {
        Ok(true) => Some(Ok(true)),
        Ok(false) => None,
        Err(error) => {
            let mut message = String::new();
            push_str(&mut message, "Invalid workspace pattern '");
            push_str(&mut message, pattern);
            push_str(&mut message, "': ");
            push_str(&mut message, error.as_str());
            proof {
                assert(message@ =~= invalid_exclusion_message(pattern@, error@));
            }
            Some(Err(invalid(message)))
        }
    }
}

/// Whether a workspace directory, given by its path relative to the project root, is
/// excluded: some `!` pattern, without its `!`, matches it. The patterns are tried in
/// order, and one glob does not compile is refused when it is reached.
pub fn workspace_directory_is_excluded(relative: &str, patterns: &Vec<String>) -> (r: AppResult<bool>)
    ensures
        (forall|i: int| 0 <= i < patterns@.len() ==> !is_exclusion(#[trigger] patterns@[i]@)) ==> r
            == Ok::<bool, AppError>(false),
        r == Ok::<bool, AppError>(true) ==> exists|i: int| 0 <= i < patterns@.len() && is_exclusion(
            #[trigger] patterns@[i]@),
        r matches Err(e) ==> e is Message && exists|i: int, m: Seq<char>| 0 <= i < patterns@.len() && is_exclusion(patterns@[i]@)
            && e.text() == #[trigger] invalid_exclusion_message(patterns@[i]@, m),
        plain_exclusions(relative@, texts(patterns@)) ==> r == Ok::<bool, AppError>(
            exists|i: int| 0 <= i < patterns@.len() && is_exclusion(#[trigger] patterns@[i]@) && path_part(
                patterns@[i]@) == relative@),
        exclusions_without_backslash(relative@, texts(patterns@)) ==> match exclusion_outcome(
            relative@,
            texts(patterns@),
        ) {
            Ok(b) => r == Ok::<bool, AppError>(b),
            Err(m) => r matches Err(e) && e is Message && e.text() == m,
        },
{
    let mut i: usize = 0;
    assert(texts(patterns@).skip(0) =~= texts(patterns@));
    while i < patterns.len()
        invariant
            i <= patterns@.len(),
            forall|k: int| 0 <= k < i && is_exclusion(#[trigger] patterns@[k]@) && plain_exclusions(relative@,
                texts(patterns@)) ==> path_part(patterns@[k]@) != relative@,
            exclusions_without_backslash(relative@, texts(patterns@)) ==> exclusion_outcome(relative@, texts(patterns@))
                == exclusion_outcome(relative@, texts(patterns@).skip(i as int)),
        decreases patterns@.len() - i,
    {
        let chars = chars_of(patterns[i].as_str());
        if chars.len() > 0 && chars[0] == '!' {
            let rest = string_of(&chars, 1, chars.len());
            proof {
                assert(rest@ == path_part(patterns@[i as int]@));
                assert(texts(patterns@)[i as int] == patterns@[i as int]@);
            }
            let verdict = glob_matches_path(rest.as_str(), relative);
            proof {
                assert(texts(patterns@).skip(i as int)[0] == patterns@[i as int]@);
                assert(texts(patterns@).skip(i as int).drop_first() =~= texts(patterns@).skip(i + 1));
            }
            match exclusion_step(patterns[i].as_str(), verdict) {
                Some(decided) => return decided,
                None => {}
            }
        } else {
            proof {
                assert(texts(patterns@).skip(i as int)[0] == patterns@[i as int]@);
                assert(texts(patterns@).skip(i as int).drop_first() =~= texts(patterns@).skip(i + 1));
            }
        }
        i = i + 1;
    }
    proof {
        assert(texts(patterns@).skip(i as int).len() == 0);
    }
    Ok(false)
}


/// A package's label: its manifest's `name`, or the name of its directory.
pub fn package_label(name: &Option<String>, directory_name: &str) -> (r: String)
    ensures
        r@ == match *name {
            Some(n) => n@,
            None => directory_name@,
        },
{
    let mut r = String::new();
    match name {
        Some(n) => push_str(&mut r, n.as_str()),
        None => push_str(&mut r, directory_name),
    }
    r
}

/// Whether a directory a workspace pattern matched counts as a workspace package,
/// both given as their path components: it lies under the project root, and none of
/// its components is a `node_modules` folder.
pub open spec fn admitted_workspace_directory(root: Seq<Seq<char>>, directory: Seq<Seq<char>>) -> bool {
    &&& begins_with(directory, root)
    &&& forall|i: int| 0 <= i < directory.len() ==> #[trigger] directory[i] != "node_modules"@
}

/// Whether the path with components `path` begins with the whole path `prefix`.
pub open spec fn begins_with(path: Seq<Seq<char>>, prefix: Seq<Seq<char>>) -> bool {
    prefix.len() <= path.len() && path.subrange(0, prefix.len() as int) == prefix
}

/// Whether the path with components `path` lies at or under the one with `prefix`,
/// component by component.
pub fn path_begins_with(path: &Vec<String>, prefix: &Vec<String>) -> (r: bool)
    ensures
        r == begins_with(texts(path@), texts(prefix@)),
{
    if prefix.len() > path.len() {
        return false;
    }
    let mut i: usize = 0;
    while i < prefix.len()
        invariant
            i <= prefix@.len() <= path@.len(),
            forall|k: int| 0 <= k < i ==> #[trigger] texts(path@)[k] == texts(prefix@)[k],
        decreases prefix@.len() - i,
    {
        if !str_eq(prefix[i].as_str(), path[i].as_str()) {
            assert(texts(path@).subrange(0, prefix@.len() as int)[i as int] != texts(prefix@)[i as int]);
            return false;
        }
        i = i + 1;
    }
    assert(texts(path@).subrange(0, prefix@.len() as int) =~= texts(prefix@));
    true
}

/// Whether a matched directory, given by its path components, is under the root
/// (also given by components) and outside every `node_modules` folder.
pub fn admits_workspace_directory(root: &Vec<String>, directory: &Vec<String>) -> (r: bool)
    ensures
        r == admitted_workspace_directory(texts(root@), texts(directory@)),
{
    if !path_begins_with(directory, root) {
        return false;
    }
    let mut j: usize = 0;
    while j < directory.len()
        invariant
            j <= directory@.len(),
            forall|k: int| 0 <= k < j ==> #[trigger] texts(directory@)[k] != "node_modules"@,
        decreases directory@.len() - j,
    {
        if str_eq(directory[j].as_str(), "node_modules") {
            assert(texts(directory@)[j as int] == directory@[j as int]@);
            return false;
        }
        j = j + 1;
    }
    true
}

} // verus!
