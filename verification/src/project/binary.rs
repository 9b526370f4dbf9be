//! Getting the program under test: a prebuilt binary, or a build with make.
use vstd::prelude::*;
use crate::pattern::{Pattern, opt_text, regex_compiles, regex_named_captures};
use crate::project::definition::ProjectDefinition;
use crate::test::test::ExIoError;
use crate::text::push_str;
use vstd::string::*;

verus! {

/// Why the program under test is not available.
#[derive(Debug)]
pub enum CompileError {
    BinaryNotFound(String),
    MakefileNotFound(String),
    MakeFailed(std::io::Error),
}

/// The outcome of getting the program: whether it is there, the compiler's
/// messages where the build failed, and the compiler warnings by kind (each
/// kind once, in order of first appearance, with its count) where it
/// succeeded with warnings.
#[derive(Debug)]
pub struct CompilationInfo {
    pub warnings: Option<Vec<(String, i32)>>,
    pub errors: Option<String>,
    pub compiled: bool,
}

#[derive(Debug)]
pub struct Binary {
    pub info: CompilationInfo,
}

/// What `make` reported: its exit code (`None` where it was ended by a
/// signal) and its error output.
pub struct MakeOutput {
    pub exit_code: Option<i32>,
    pub stderr: String,
}

/// The next thing to do to get the program: nothing more (with the outcome),
/// or running `make` with these targets in this folder.
pub enum BuildAction {
    Finished(Result<Binary, CompileError>),
    RunMake { dir: String, targets: Vec<String> },
}

/// Whether a regular file exists at `path`: std's `Path::is_file`.
/// Nothing is claimed of the answer: it depends on the file system.
#[verifier::external_body]
fn file_exists(path: &str) -> bool {
    std::path::Path::new(path).is_file()
}

// ---------------------------------------------------------------------------
// Compiler warnings

/// The expression that finds a compiler warning and its kind (`-W...`).
pub open spec fn warning_pattern() -> Seq<char> {
    "warning: .*? \\[-W(?P<warn>[^\\]]+)\\]"@
}

/// The texts of the captures that took part in their match, in order.
pub open spec fn present_captures(caps: Seq<Option<Seq<char>>>) -> Seq<Seq<char>>
    decreases caps.len(),
{
    if caps.len() == 0 {
        Seq::empty()
    } else {
        let prev = present_captures(caps.drop_last());
        match caps.last() {
            Some(t) => prev.push(t),
            None => prev,
        }
    }
}

/// Where `name` stands among the counted names, or -1.
pub open spec fn position_of(counts: Seq<(Seq<char>, int)>, name: Seq<char>) -> int
    decreases counts.len(),
{
    if counts.len() == 0 {
        -1
    } else if counts.last().0 == name {
        counts.len() - 1
    } else {
        position_of(counts.drop_last(), name)
    }
}

/// Counts one more occurrence of `name` (counts stop at `i32::MAX`).
pub open spec fn count_name(counts: Seq<(Seq<char>, int)>, name: Seq<char>) -> Seq<(Seq<char>, int)> {
    let k = position_of(counts, name);
    if k >= 0 {
        counts.update(k, (name, if counts[k].1 < i32::MAX { counts[k].1 + 1 } else { counts[k].1 }))
    } else {
        counts.push((name, 1))
    }
}

/// Each distinct name once, in order of first appearance, with the number of
/// its occurrences.
pub open spec fn name_counts(names: Seq<Seq<char>>) -> Seq<(Seq<char>, int)>
    decreases names.len(),
{
    if names.len() == 0 {
        Seq::empty()
    } else {
        count_name(name_counts(names.drop_last()), names.last())
    }
}

pub open spec fn counts_view(v: Seq<(String, i32)>) -> Seq<(Seq<char>, int)> {
    v.map_values(|e: (String, i32)| (e.0@, e.1 as int))
}

/// The warning kinds in a compiler's error output, counted.
pub open spec fn spec_warning_counts(stderr: Seq<char>) -> Seq<(Seq<char>, int)> {
    if regex_compiles(warning_pattern()) {
        name_counts(present_captures(regex_named_captures(warning_pattern(), stderr, "warn"@)))
    } else {
        Seq::empty()
    }
}

fn count_into(counts: &mut Vec<(String, i32)>, name: String)
    ensures
        counts_view(final(counts)@) == count_name(counts_view(old(counts)@), name@),
{
    let ghost cv = counts_view(counts@);
    let mut k: usize = counts.len();
    assert(cv.take(k as int) =~= cv);
    while k > 0
        invariant
            k <= counts@.len(),
            cv == counts_view(counts@),
            cv == counts_view(old(counts)@),
            position_of(cv, name@) == position_of(cv.take(k as int), name@),
        decreases k,
    {
        assert(cv.take(k as int).drop_last() =~= cv.take(k - 1));
        if counts[k - 1].0 == name {
            assert(cv.take(k as int).last() == cv[k - 1]);
            assert(position_of(cv, name@) == k - 1);
            let c = counts[k - 1].1;
            let n = if c < i32::MAX { c + 1 } else { c };
            counts.set(k - 1, (name, n));
            assert(counts_view(counts@) =~= count_name(cv, name@));
            return;
        }
        k -= 1;
    }
    counts.push((name, 1));
    assert(counts_view(counts@) =~= count_name(cv, name@));
}

/// Counts the warning kinds that a compiler's error output reports.
pub fn warning_counts(stderr: &str) -> (r: Vec<(String, i32)>)
    ensures
        counts_view(r@) == spec_warning_counts(stderr@),
{
    let mut counts: Vec<(String, i32)> = Vec::new();
    match Pattern::compile("warning: .*? \\[-W(?P<warn>[^\\]]+)\\]") {
        None => counts,
        Some(re) => {
            let caps = re.named_captures(stderr, "warn");
            let ghost cv = caps@.map_values(|o: Option<String>| opt_text(o));
            let mut i: usize = 0;
            while i < caps.len()
                invariant
                    i <= caps@.len(),
                    cv == caps@.map_values(|o: Option<String>| opt_text(o)),
                    counts_view(counts@) == name_counts(present_captures(cv.take(i as int))),
                decreases caps.len() - i,
            {
                assert(cv.take(i + 1).drop_last() =~= cv.take(i as int));
                assert(cv.take(i + 1).last() == opt_text(caps@[i as int]));
                match &caps[i] {
                    Some(name) => {
                        let ghost prev = present_captures(cv.take(i as int));
                        assert(prev.push(name@).drop_last() =~= prev);
                        count_into(&mut counts, name.clone());
                    },
                    None => {},
                }
                i += 1;
            }
            assert(cv.take(caps@.len() as int) =~= cv);
            counts
        },
    }
}

/// The outcome of a `make` run: a failure (with its error output) unless it
/// exited with 0; else a success, with the warnings it reported, if any.
pub open spec fn is_make_outcome(output: MakeOutput, r: CompilationInfo) -> bool {
    &&& output.exit_code != Some(0i32) ==> !r.compiled && r.warnings is None && r.errors == Some(output.stderr)
    &&& output.exit_code == Some(0i32) ==> r.compiled && r.errors is None && if spec_warning_counts(
        output.stderr@,
    ).len() == 0 {
        r.warnings is None
    } else {
        r.warnings matches Some(w) && counts_view(w@) == spec_warning_counts(output.stderr@)
    }
}

impl CompilationInfo {
    pub fn from_make_output(output: MakeOutput) -> (r: CompilationInfo)
        ensures
            is_make_outcome(output, r),
    {
        let code = match output.exit_code {
            Some(c) => c,
            None => -1,
        };
        if code != 0 {
            CompilationInfo { compiled: false, errors: Some(output.stderr), warnings: None }
        } else {
            let counts = warning_counts(output.stderr.as_str());
            let warnings = if counts.len() == 0 {
                None
            } else {
                Some(counts)
            };
            CompilationInfo { compiled: true, errors: None, warnings }
        }
    }
}

// ---------------------------------------------------------------------------
// Getting the binary

/// The file whose presence decides the first step: the binary where no
/// makefile folder is configured, else the Makefile in that folder.
pub open spec fn spec_required_file(project_definition: &ProjectDefinition) -> Seq<char> {
    match project_definition.makefile_path {
        None => project_definition.binary_path@,
        Some(dir) => dir@ + "/Makefile"@,
    }
}

/// The first step, given whether the required file is present: a prebuilt
/// binary is taken as it is (or reported missing); a makefile folder without
/// a Makefile is reported; else `make` is to be run there with the configured
/// targets.
pub open spec fn build_step_is(project_definition: &ProjectDefinition, present: bool, r: BuildAction) -> bool {
    match project_definition.makefile_path {
        None => if present {
            r matches BuildAction::Finished(Ok(b)) && b.info.compiled && b.info.warnings is None
                && b.info.errors is None
        } else {
            r matches BuildAction::Finished(Err(CompileError::BinaryNotFound(p))) && p == project_definition.binary_path
        },
        Some(dir) => if present {
            r matches BuildAction::RunMake { dir: d, targets } && d == dir && match project_definition.make_targets {
                Some(t) => targets@ == t@,
                None => targets@.len() == 0,
            }
        } else {
            r matches BuildAction::Finished(Err(CompileError::MakefileNotFound(p))) && p == dir
        },
    }
}

impl Binary {
    pub fn required_file(project_definition: &ProjectDefinition) -> (r: String)
        ensures
            r@ == spec_required_file(project_definition),
    {
        match &project_definition.makefile_path {
            None => project_definition.binary_path.clone(),
            Some(dir) => {
                let mut s = dir.clone();
                push_str(&mut s, "/Makefile");
                s
            },
        }
    }

    /// The first step of getting the program, given whether its required
    /// file is present.
    pub fn plan_build(project_definition: &ProjectDefinition, present: bool) -> (r: BuildAction)
        ensures
            build_step_is(project_definition, present, r),
    {
        match &project_definition.makefile_path {
            None => if present {
                BuildAction::Finished(
                    Ok(Binary { info: CompilationInfo { warnings: None, errors: None, compiled: true } }),
                )
            } else {
                BuildAction::Finished(Err(CompileError::BinaryNotFound(project_definition.binary_path.clone())))
            },
            Some(dir) => if present {
                let targets = match &project_definition.make_targets {
                    Some(t) => t.clone(),
                    None => Vec::new(),
                };
                BuildAction::RunMake { dir: dir.clone(), targets }
            } else {
                BuildAction::Finished(Err(CompileError::MakefileNotFound(dir.clone())))
            },
        }
    }

    /// Whether the prebuilt binary is there.
    fn binary_exists(project_definition: &ProjectDefinition) -> bool {
        file_exists(project_definition.binary_path.as_str())
    }

    /// The first step of getting the program: looks for the required file and
    /// decides as `plan_build` does.
    pub fn from_project_definition(project_definition: &ProjectDefinition) -> (r: BuildAction)
        ensures
            exists|present: bool| build_step_is(project_definition, present, r),
    {
        let present = match &project_definition.makefile_path {
            None => Self::binary_exists(project_definition),
            Some(_) => {
                let makefile = Self::required_file(project_definition);
                file_exists(makefile.as_str())
            },
        };
        Self::plan_build(project_definition, present)
    }

    /// The outcome once `make` has run (or could not be started).
    pub fn from_make_result(result: Result<MakeOutput, std::io::Error>) -> (r: Result<Binary, CompileError>)
        ensures
            result is Err ==> r matches Err(CompileError::MakeFailed(_)),
            result matches Ok(out) ==> (r matches Ok(b) && is_make_outcome(out, b.info)),
    {
        match result {
            Ok(out) => Ok(Binary { info: CompilationInfo::from_make_output(out) }),
            Err(e) => Err(CompileError::MakeFailed(e)),
        }
    }
}

// ---------------------------------------------------------------------------
// Laws

proof fn lemma_position_of(counts: Seq<(Seq<char>, int)>, name: Seq<char>)
    ensures
        -1 <= position_of(counts, name) < counts.len(),
        position_of(counts, name) >= 0 ==> counts[position_of(counts, name)].0 == name,
        position_of(counts, name) == -1 ==> forall|i: int| 0 <= i < counts.len() ==> (#[trigger] counts[i]).0 != name,
    decreases counts.len(),
{
    if counts.len() > 0 {
        lemma_position_of(counts.drop_last(), name);
        if position_of(counts, name) == -1 {
            assert forall|i: int| 0 <= i < counts.len() implies (#[trigger] counts[i]).0 != name by {
                if i < counts.len() - 1 {
                    assert(counts[i] == counts.drop_last()[i]);
                }
            }
        }
    }
}

/// Each warning kind is counted once: the counted names are distinct, and
/// every count is at least one.
pub proof fn warning_kinds_distinct(names: Seq<Seq<char>>)
    ensures
        forall|i: int, j: int|
            0 <= i < j < name_counts(names).len() ==> (#[trigger] name_counts(names)[i]).0 != (
            #[trigger] name_counts(names)[j]).0,
        forall|i: int| 0 <= i < name_counts(names).len() ==> (#[trigger] name_counts(names)[i]).1 >= 1,
    decreases names.len(),
{
    if names.len() > 0 {
        let prev = name_counts(names.drop_last());
        let name = names.last();
        warning_kinds_distinct(names.drop_last());
        lemma_position_of(prev, name);
        let r = name_counts(names);
        assert(r == count_name(prev, name));
        let k = position_of(prev, name);
        if k >= 0 {
            assert forall|i: int, j: int| 0 <= i < j < r.len() implies (#[trigger] r[i]).0 != (#[trigger] r[j]).0 by {
                assert(r[i].0 == prev[i].0);
                assert(r[j].0 == prev[j].0);
            }
        } else {
            assert forall|i: int, j: int| 0 <= i < j < r.len() implies (#[trigger] r[i]).0 != (#[trigger] r[j]).0 by {
                assert(r[i] == prev[i]);
                if j < prev.len() {
                    assert(r[j] == prev[j]);
                }
            }
        }
        assert forall|i: int| 0 <= i < r.len() implies (#[trigger] r[i]).1 >= 1 by {
            if i < prev.len() && i != k {
                assert(r[i] == prev[i]);
            }
        }
    }
}

} // verus!
