//! The deciding half of the repository's task runner: which checks a set of
//! changed files calls for, what each check area runs, how commands are
//! parsed, and the validation record's text. Running processes and touching
//! files belong to the host program.
use vstd::prelude::*;
use crate::text::{
    chars_of, contains_at, contains_seq, decimal, ends_with_at, equals_at, has_prefix, has_suffix,
    line_bounds, lines, push_char, push_decimal, starts_with_at, string_of, trim, trim_bounds,
};

verus! {

/// A check selected for a set of changed files.
#[derive(Clone, Copy, Debug, PartialEq, Eq)]
pub enum ChangedCheck {
    Fast,
    Feature(&'static str),
    Workspace,
}

/// The mathematical value of a [`ChangedCheck`].
pub enum CheckModel {
    Fast,
    Feature(Seq<char>),
    Workspace,
}

impl ChangedCheck {
    pub open spec fn model(self) -> CheckModel {
        match self {
            ChangedCheck::Fast => CheckModel::Fast,
            ChangedCheck::Feature(area) => CheckModel::Feature(area@),
            ChangedCheck::Workspace => CheckModel::Workspace,
        }
    }
}

pub open spec fn check_models(checks: Seq<ChangedCheck>) -> Seq<CheckModel> {
    Seq::new(checks.len(), |i: int| checks[i].model())
}

/// Some path starts with `prefix`.
pub open spec fn any_starts(paths: Seq<Seq<char>>, prefix: Seq<char>) -> bool {
    exists|i: int| 0 <= i < paths.len() && has_prefix(#[trigger] paths[i], prefix)
}

/// Some path contains `needle`.
pub open spec fn any_contains(paths: Seq<Seq<char>>, needle: Seq<char>) -> bool {
    exists|i: int| 0 <= i < paths.len() && contains_seq(#[trigger] paths[i], needle)
}

/// Changes to the build, the task runner or the editor and CI settings call
/// for the fast check of everything.
pub open spec fn touches_tooling(paths: Seq<Seq<char>>) -> bool {
    ||| any_contains(paths, "Cargo.toml"@)
    ||| any_contains(paths, "Cargo.lock"@)
    ||| any_contains(paths, "xtask/"@)
    ||| any_contains(paths, ".cargo/"@)
    ||| any_contains(paths, ".github/"@)
    ||| any_contains(paths, ".vscode/"@)
    ||| any_contains(paths, "AGENTS.md"@)
}

pub open spec fn touches_loops(paths: Seq<Seq<char>>) -> bool {
    any_contains(paths, "tests/fixtures/loops"@) || any_contains(paths, "crates/gust-wgpu/tests/loops.rs"@)
}

pub open spec fn touches_macro(paths: Seq<Seq<char>>) -> bool {
    (any_starts(paths, "crates/gust-macros/"@) || any_starts(paths, "tests/fixtures/"@)) && !touches_loops(paths)
}

pub open spec fn touches_reflection(paths: Seq<Seq<char>>) -> bool {
    ||| any_contains(paths, "crates/gust/src/reflect/"@)
    ||| any_contains(paths, "reflect.rs"@)
    ||| any_contains(paths, "reflection.rs"@)
    ||| any_contains(paths, "scripts/probes/"@)
}

pub open spec fn touches_wgpu(paths: Seq<Seq<char>>) -> bool {
    any_starts(paths, "crates/gust-wgpu/"@)
}

pub open spec fn touches_core(paths: Seq<Seq<char>>) -> bool {
    &&& any_starts(paths, "crates/gust/"@)
    &&& !any_starts(paths, "crates/gust/src/reflect/"@)
    &&& !any_contains(paths, "reflect.rs"@)
    &&& !any_contains(paths, "reflection.rs"@)
}

pub open spec fn touches_examples(paths: Seq<Seq<char>>) -> bool {
    any_starts(paths, "examples/"@) || any_starts(paths, "generated-wgpu/"@)
}

/// `Feature(area)` when `on`, else nothing.
pub open spec fn feature_if(on: bool, area: Seq<char>) -> Seq<CheckModel> {
    if on {
        seq![CheckModel::Feature(area)]
    } else {
        Seq::empty()
    }
}

/// The feature checks a set of changed paths calls for, in order.
pub open spec fn feature_checks(paths: Seq<Seq<char>>) -> Seq<CheckModel> {
    feature_if(touches_loops(paths), "loops"@) + feature_if(touches_macro(paths), "macro"@)
        + feature_if(touches_reflection(paths), "reflection"@) + feature_if(
        touches_wgpu(paths),
        "wgpu"@,
    ) + feature_if(touches_core(paths), "core"@) + feature_if(touches_examples(paths), "examples"@)
}

/// The checks to run for a set of changed paths: none for no change, the
/// fast check for tooling changes, else the feature checks the paths touch,
/// or the workspace check when they touch none.
pub open spec fn spec_select_changed_checks(paths: Seq<Seq<char>>) -> Seq<CheckModel> {
    if paths.len() == 0 {
        Seq::empty()
    } else if touches_tooling(paths) {
        seq![CheckModel::Fast]
    } else if feature_checks(paths).len() == 0 {
        seq![CheckModel::Workspace]
    } else {
        feature_checks(paths)
    }
}

/// A non-empty set of changed paths always selects at least one check, and
/// a change to the build or the tooling selects the fast check alone.
pub proof fn lemma_changed_paths_select_a_check(paths: Seq<Seq<char>>)
    ensures
        paths.len() > 0 ==> spec_select_changed_checks(paths).len() >= 1,
        paths.len() > 0 && touches_tooling(paths) ==> spec_select_changed_checks(paths) == seq![CheckModel::Fast],
        paths.len() == 0 ==> spec_select_changed_checks(paths).len() == 0,
{
}

/// The texts of `paths`.
pub open spec fn path_texts(paths: Seq<String>) -> Seq<Seq<char>> {
    Seq::new(paths.len(), |i: int| paths[i]@)
}

/// Whether some path starts with `prefix`.
fn any_path_starts(paths: &[String], prefix: &str) -> (r: bool)
    ensures
        r == any_starts(path_texts(paths@), prefix@),
{
    let p = chars_of(prefix);
    let mut i: usize = 0;
    while i < paths.len()
        invariant
            i <= paths@.len(),
            p@ == prefix@,
            forall|j: int| 0 <= j < i ==> !has_prefix(#[trigger] path_texts(paths@)[j], prefix@),
        decreases paths@.len() - i,
    {
        let v = chars_of(paths[i].as_str());
        proof {
            assert(v@.subrange(0, v@.len() as int) =~= path_texts(paths@)[i as int]);
        }
        if starts_with_at(&v, 0, v.len(), &p) {
            return true;
        }
        i = i + 1;
    }
    false
}

/// Whether some path contains `needle`.
fn any_path_contains(paths: &[String], needle: &str) -> (r: bool)
    ensures
        r == any_contains(path_texts(paths@), needle@),
{
    let p = chars_of(needle);
    let mut i: usize = 0;
    while i < paths.len()
        invariant
            i <= paths@.len(),
            p@ == needle@,
            forall|j: int| 0 <= j < i ==> !contains_seq(#[trigger] path_texts(paths@)[j], needle@),
        decreases paths@.len() - i,
    {
        let v = chars_of(paths[i].as_str());
        proof {
            assert(v@.subrange(0, v@.len() as int) =~= path_texts(paths@)[i as int]);
        }
        if contains_at(&v, 0, v.len(), &p) {
            return true;
        }
        i = i + 1;
    }
    false
}

/// Appends `Feature(area)` when `on`.
fn push_feature(checks: &mut Vec<ChangedCheck>, on: bool, area: &'static str)
    ensures
        check_models(final(checks)@) == check_models(old(checks)@) + feature_if(on, area@),
{
    let ghost before = check_models(checks@);
    if on {
        checks.push(ChangedCheck::Feature(area));
    }
    proof {
        assert(check_models(checks@) =~= before + feature_if(on, area@));
    }
}

/// The checks to run for a set of changed paths.
pub fn select_changed_checks(paths: &[String]) -> (r: Vec<ChangedCheck>)
    ensures
        check_models(r@) == spec_select_changed_checks(path_texts(paths@)),
{
    let ghost ps = path_texts(paths@);
    let mut checks: Vec<ChangedCheck> = Vec::new();
    if paths.len() == 0 {
        proof {
            assert(check_models(checks@) =~= Seq::<CheckModel>::empty());
        }
        return checks;
    }
    if any_path_contains(paths, "Cargo.toml") || any_path_contains(paths, "Cargo.lock")
        || any_path_contains(paths, "xtask/") || any_path_contains(paths, ".cargo/")
        || any_path_contains(paths, ".github/") || any_path_contains(paths, ".vscode/")
        || any_path_contains(paths, "AGENTS.md") {
        checks.push(ChangedCheck::Fast);
        proof {
            assert(check_models(checks@) =~= seq![CheckModel::Fast]);
        }
        return checks;
    }
    let loops = any_path_contains(paths, "tests/fixtures/loops")
        || any_path_contains(paths, "crates/gust-wgpu/tests/loops.rs");
    let macros = (any_path_starts(paths, "crates/gust-macros/") || any_path_starts(paths, "tests/fixtures/"))
        && !loops;
    let reflection = any_path_contains(paths, "crates/gust/src/reflect/")
        || any_path_contains(paths, "reflect.rs") || any_path_contains(paths, "reflection.rs")
        || any_path_contains(paths, "scripts/probes/");
    let wgpu = any_path_starts(paths, "crates/gust-wgpu/");
    let core = any_path_starts(paths, "crates/gust/") && !any_path_starts(paths, "crates/gust/src/reflect/")
        && !any_path_contains(paths, "reflect.rs") && !any_path_contains(paths, "reflection.rs");
    let examples = any_path_starts(paths, "examples/") || any_path_starts(paths, "generated-wgpu/");
    proof {
        assert(check_models(checks@) =~= Seq::<CheckModel>::empty());
    }
    push_feature(&mut checks, loops, "loops");
    push_feature(&mut checks, macros, "macro");
    push_feature(&mut checks, reflection, "reflection");
    push_feature(&mut checks, wgpu, "wgpu");
    push_feature(&mut checks, core, "core");
    push_feature(&mut checks, examples, "examples");
    proof {
        assert(check_models(checks@) =~= feature_checks(ps));
    }
    if checks.len() == 0 {
        checks.push(ChangedCheck::Workspace);
        proof {
            assert(check_models(checks@) =~= seq![CheckModel::Workspace]);
        }
    }
    checks
}


/// How much `verify` runs.
#[derive(Clone, Copy, Debug, PartialEq, Eq, Structural)]
pub enum VerifyMode {
    Smoke,
    Fast,
    Gpu,
    Examples,
    Artifacts,
    Full,
}

/// `c` with an ASCII capital letter turned into its small letter.
pub open spec fn ascii_lower_char(c: char) -> char {
    if 'A' <= c && c <= 'Z' {
        ((c as int) + 32) as char
    } else {
        c
    }
}

/// `str::to_ascii_lowercase`.
pub open spec fn ascii_lower(t: Seq<char>) -> Seq<char> {
    Seq::new(t.len(), |i: int| ascii_lower_char(t[i]))
}

/// The name of each mode.
pub open spec fn mode_name(mode: VerifyMode) -> Seq<char> {
    match mode {
        VerifyMode::Smoke => "smoke"@,
        VerifyMode::Fast => "fast"@,
        VerifyMode::Gpu => "gpu"@,
        VerifyMode::Examples => "examples"@,
        VerifyMode::Artifacts => "artifacts"@,
        VerifyMode::Full => "full"@,
    }
}

/// The mode a name stands for, letter case aside.
pub open spec fn mode_named(name: Seq<char>) -> Option<VerifyMode> {
    let l = ascii_lower(name);
    if l == "smoke"@ {
        Some(VerifyMode::Smoke)
    } else if l == "fast"@ {
        Some(VerifyMode::Fast)
    } else if l == "gpu"@ {
        Some(VerifyMode::Gpu)
    } else if l == "examples"@ {
        Some(VerifyMode::Examples)
    } else if l == "artifacts"@ {
        Some(VerifyMode::Artifacts)
    } else if l == "full"@ {
        Some(VerifyMode::Full)
    } else {
        None
    }
}

/// Every mode is found again under its own name.
pub proof fn lemma_mode_name_round_trip(mode: VerifyMode)
    ensures
        mode_named(mode_name(mode)) == Some(mode),
{
    reveal_strlit("smoke");
    reveal_strlit("fast");
    reveal_strlit("gpu");
    reveal_strlit("examples");
    reveal_strlit("artifacts");
    reveal_strlit("full");
    let n = mode_name(mode);
    assert(ascii_lower(n) =~= n);
    assert("smoke"@ != "fast"@ && "smoke"@ != "gpu"@ && "smoke"@ != "examples"@ && "smoke"@ != "artifacts"@
        && "smoke"@ != "full"@) by {
        assert("smoke"@.len() != "fast"@.len());
        assert("smoke"@.len() != "gpu"@.len());
        assert("smoke"@.len() != "examples"@.len());
        assert("smoke"@.len() != "artifacts"@.len());
        assert("smoke"@.len() != "full"@.len());
    }
    assert("fast"@ != "gpu"@ && "fast"@ != "examples"@ && "fast"@ != "artifacts"@ && "fast"@ != "full"@) by {
        assert("fast"@.len() != "gpu"@.len());
        assert("fast"@.len() != "examples"@.len());
        assert("fast"@.len() != "artifacts"@.len());
        assert("fast"@[1] != "full"@[1]);
    }
    assert("gpu"@ != "examples"@ && "gpu"@ != "artifacts"@ && "gpu"@ != "full"@) by {
        assert("gpu"@.len() != "examples"@.len());
        assert("gpu"@.len() != "artifacts"@.len());
        assert("gpu"@.len() != "full"@.len());
    }
    assert("examples"@ != "artifacts"@ && "examples"@ != "full"@) by {
        assert("examples"@.len() != "artifacts"@.len());
        assert("examples"@.len() != "full"@.len());
    }
    assert("artifacts"@ != "full"@) by {
        assert("artifacts"@.len() != "full"@.len());
    }
}

/// The error for a name that is no mode.
pub open spec fn unknown_mode_message(name: Seq<char>) -> Seq<char> {
    "unknown verify mode `"@ + name + "`"@
}

/// `s` followed by `t`, as a new string.
fn joined3(a: &str, b: &str, c: &str) -> (r: String)
    ensures
        r@ == a@ + b@ + c@,
{
    let mut r = String::new();
    r.append(a);
    r.append(b);
    r.append(c);
    proof {
        assert(r@ =~= a@ + b@ + c@);
    }
    r
}

/// `a` followed by `b`, as a new string.
fn joined2(a: &str, b: &str) -> (r: String)
    ensures
        r@ == a@ + b@,
{
    let mut r = String::new();
    r.append(a);
    r.append(b);
    proof {
        assert(r@ =~= a@ + b@);
    }
    r
}

/// The ASCII-lowercased characters of `s`.
fn lowered_chars(s: &str) -> (v: Vec<char>)
    ensures
        v@ == ascii_lower(s@),
{
    let src = chars_of(s);
    let mut v: Vec<char> = Vec::new();
    let mut i: usize = 0;
    while i < src.len()
        invariant
            i <= src@.len(),
            src@ == s@,
            v@.len() == i,
            forall|k: int| 0 <= k < i ==> v@[k] == ascii_lower_char(#[trigger] src@[k]),
        decreases src@.len() - i,
    {
        let c = src[i];
        if 'A' <= c && c <= 'Z' {
            let lower = ((c as u8) + 32) as char;
            v.push(lower);
        } else {
            v.push(c);
        }
        i = i + 1;
    }
    proof {
        assert(v@ =~= ascii_lower(s@));
    }
    v
}

/// Whether the characters `v` spell `name`.
fn spells(v: &Vec<char>, name: &str) -> (r: bool)
    ensures
        r == (v@ == name@),
{
    let n = chars_of(name);
    let r = equals_at(v.as_slice(), 0, v.len(), n.as_slice());
    proof {
        assert(v@.subrange(0, v@.len() as int) =~= v@);
    }
    r
}

impl VerifyMode {
    /// The mode named `value`, letter case aside.
    pub fn from_name(value: &str) -> (r: Result<VerifyMode, String>)
        ensures
            match mode_named(value@) {
                Some(m) => r == Ok::<VerifyMode, String>(m),
                None => r matches Err(e) && e@ == unknown_mode_message(value@),
            },
    {
        let l = lowered_chars(value);
        if spells(&l, "smoke") {
            Ok(VerifyMode::Smoke)
        } else if spells(&l, "fast") {
            Ok(VerifyMode::Fast)
        } else if spells(&l, "gpu") {
            Ok(VerifyMode::Gpu)
        } else if spells(&l, "examples") {
            Ok(VerifyMode::Examples)
        } else if spells(&l, "artifacts") {
            Ok(VerifyMode::Artifacts)
        } else if spells(&l, "full") {
            Ok(VerifyMode::Full)
        } else {
            Err(joined3("unknown verify mode `", value, "`"))
        }
    }

    /// The mode's name.
    pub fn as_str(self) -> (r: &'static str)
        ensures
            r@ == mode_name(self),
    {
        match self {
            VerifyMode::Smoke => "smoke",
            VerifyMode::Fast => "fast",
            VerifyMode::Gpu => "gpu",
            VerifyMode::Examples => "examples",
            VerifyMode::Artifacts => "artifacts",
            VerifyMode::Full => "full",
        }
    }
}


/// A parsed `verify` command: its mode, and whether it writes the validation
/// record.
pub struct VerifyCommand {
    pub mode: VerifyMode,
    pub record: bool,
}

/// The mode and record choice that `args[i..]` leave, starting from `mode`
/// and `record`, or the first error.
pub open spec fn verify_args_from(
    args: Seq<Seq<char>>,
    i: int,
    mode: VerifyMode,
    record: Option<bool>,
) -> Result<(VerifyMode, Option<bool>), Seq<char>>
    decreases args.len() - i,
{
    if i < 0 || i >= args.len() {
        Ok((mode, record))
    } else {
        let a = args[i];
        if a == "--full"@ || a == "-Full"@ || a == "--Full"@ {
            verify_args_from(args, i + 1, VerifyMode::Full, record)
        } else if a == "--mode"@ || a == "-Mode"@ {
            if i + 1 >= args.len() {
                Err("--mode needs a value"@)
            } else {
                match mode_named(args[i + 1]) {
                    Some(m) => verify_args_from(args, i + 2, m, record),
                    None => Err(unknown_mode_message(args[i + 1])),
                }
            }
        } else if a == "--record"@ {
            verify_args_from(args, i + 1, mode, Some(true))
        } else if a == "--no-record"@ {
            verify_args_from(args, i + 1, mode, Some(false))
        } else {
            match mode_named(a) {
                Some(m) => verify_args_from(args, i + 1, m, record),
                None => Err(unknown_mode_message(a)),
            }
        }
    }
}

/// What `VerifyCommand::parse` gives: the smoke mode unless an argument
/// names another, and a record exactly for the full mode unless
/// `--record` or `--no-record` says otherwise.
pub open spec fn spec_verify_command(args: Seq<Seq<char>>) -> Result<(VerifyMode, bool), Seq<char>> {
    match verify_args_from(args, 0, VerifyMode::Smoke, None) {
        Ok((mode, record)) => Ok(
            (
                mode,
                match record {
                    Some(b) => b,
                    None => mode == VerifyMode::Full,
                },
            ),
        ),
        Err(e) => Err(e),
    }
}

/// A new string holding `s`.
fn owned(s: &str) -> (r: String)
    ensures
        r@ == s@,
{
    let mut r = String::new();
    r.append(s);
    proof {
        assert(r@ =~= s@);
    }
    r
}

/// Whether `s` is `t`.
fn is_text(s: &String, t: &str) -> (r: bool)
    ensures
        r == (s@ == t@),
{
    let v = chars_of(s.as_str());
    spells(&v, t)
}

impl VerifyCommand {
    /// Parses the arguments of `verify`.
    pub fn parse(args: &[String]) -> (r: Result<VerifyCommand, String>)
        ensures
            match spec_verify_command(path_texts(args@)) {
                Ok((mode, record)) => r matches Ok(c) && c.mode == mode && c.record == record,
                Err(e) => r matches Err(m) && m@ == e,
            },
    {
        let ghost a = path_texts(args@);
        let mut mode = VerifyMode::Smoke;
        let mut record: Option<bool> = None;
        let mut index: usize = 0;
        while index < args.len()
            invariant
                index <= args@.len(),
                a == path_texts(args@),
                verify_args_from(a, 0, VerifyMode::Smoke, None) == verify_args_from(a, index as int, mode, record),
            decreases args@.len() - index,
        {
            let arg = &args[index];
            if is_text(arg, "--full") || is_text(arg, "-Full") || is_text(arg, "--Full") {
                mode = VerifyMode::Full;
            } else if is_text(arg, "--mode") || is_text(arg, "-Mode") {
                if index + 1 >= args.len() {
                    return Err(owned("--mode needs a value"));
                }
                index = index + 1;
                match VerifyMode::from_name(args[index].as_str()) {
                    Ok(m) => {
                        mode = m;
                    },
                    Err(e) => {
                        return Err(e);
                    },
                }
            } else if is_text(arg, "--record") {
                record = Some(true);
            } else if is_text(arg, "--no-record") {
                record = Some(false);
            } else {
                match VerifyMode::from_name(arg.as_str()) {
                    Ok(m) => {
                        mode = m;
                    },
                    Err(e) => {
                        return Err(e);
                    },
                }
            }
            index = index + 1;
        }
        let record = match record {
            Some(b) => b,
            None => mode == VerifyMode::Full,
        };
        Ok(VerifyCommand { mode, record })
    }
}

/// The options of `build-slang-reflect`: rebuild even when up to date, the
/// Slang SDK and the output directory.
pub struct BuildOptions {
    pub force: bool,
    pub sdk_root: Option<String>,
    pub out_dir: Option<String>,
}

/// The options, with paths as text.
pub struct BuildOptionsModel {
    pub force: bool,
    pub sdk_root: Option<Seq<char>>,
    pub out_dir: Option<Seq<char>>,
}

impl BuildOptions {
    pub open spec fn model(&self) -> BuildOptionsModel {
        BuildOptionsModel {
            force: self.force,
            sdk_root: match self.sdk_root {
                Some(p) => Some(p@),
                None => None,
            },
            out_dir: match self.out_dir {
                Some(p) => Some(p@),
                None => None,
            },
        }
    }

    /// No forced rebuild and no paths given.
    pub fn new() -> (r: BuildOptions)
        ensures
            r.model() == (BuildOptionsModel { force: false, sdk_root: None, out_dir: None }),
    {
        BuildOptions { force: false, sdk_root: None, out_dir: None }
    }
}

/// The options that `args[i..]` leave, starting from `o`, or the first error.
pub open spec fn build_args_from(args: Seq<Seq<char>>, i: int, o: BuildOptionsModel) -> Result<
    BuildOptionsModel,
    Seq<char>,
>
    decreases args.len() - i,
{
    if i < 0 || i >= args.len() {
        Ok(o)
    } else {
        let a = args[i];
        if a == "--force"@ || a == "-Force"@ {
            build_args_from(args, i + 1, BuildOptionsModel { force: true, ..o })
        } else if a == "--sdk-root"@ || a == "-SdkRoot"@ {
            if i + 1 >= args.len() {
                Err("--sdk-root needs a path"@)
            } else {
                build_args_from(args, i + 2, BuildOptionsModel { sdk_root: Some(args[i + 1]), ..o })
            }
        } else if a == "--out-dir"@ || a == "--output-directory"@ || a == "-OutputDirectory"@ {
            if i + 1 >= args.len() {
                Err("--out-dir needs a path"@)
            } else {
                build_args_from(args, i + 2, BuildOptionsModel { out_dir: Some(args[i + 1]), ..o })
            }
        } else {
            Err("unknown build-slang-reflect option `"@ + a + "`"@)
        }
    }
}

impl BuildOptions {
    /// Parses the arguments of `build-slang-reflect`.
    pub fn parse(args: &[String]) -> (r: Result<BuildOptions, String>)
        ensures
            match build_args_from(
                path_texts(args@),
                0,
                BuildOptionsModel { force: false, sdk_root: None, out_dir: None },
            ) {
                Ok(o) => r matches Ok(b) && b.model() == o,
                Err(e) => r matches Err(m) && m@ == e,
            },
    {
        let ghost a = path_texts(args@);
        let mut options = BuildOptions::new();
        let mut index: usize = 0;
        while index < args.len()
            invariant
                index <= args@.len(),
                a == path_texts(args@),
                build_args_from(a, 0, BuildOptionsModel { force: false, sdk_root: None, out_dir: None })
                    == build_args_from(a, index as int, options.model()),
            decreases args@.len() - index,
        {
            let arg = &args[index];
            if is_text(arg, "--force") || is_text(arg, "-Force") {
                options.force = true;
            } else if is_text(arg, "--sdk-root") || is_text(arg, "-SdkRoot") {
                if index + 1 >= args.len() {
                    return Err(owned("--sdk-root needs a path"));
                }
                index = index + 1;
                options.sdk_root = Some(owned(args[index].as_str()));
            } else if is_text(arg, "--out-dir") || is_text(arg, "--output-directory") || is_text(
                arg,
                "-OutputDirectory",
            ) {
                if index + 1 >= args.len() {
                    return Err(owned("--out-dir needs a path"));
                }
                index = index + 1;
                options.out_dir = Some(owned(args[index].as_str()));
            } else {
                return Err(joined3("unknown build-slang-reflect option `", arg.as_str(), "`"));
            }
            index = index + 1;
        }
        Ok(options)
    }
}


/// Appends the string `s`.
fn push_arg(v: &mut Vec<String>, s: &str)
    ensures
        path_texts(final(v)@) == path_texts(old(v)@).push(s@),
{
    v.push(owned(s));
    proof {
        assert(path_texts(v@) =~= path_texts(old(v)@).push(s@));
    }
}

/// The argument list of the given words.
fn words1(a: &str) -> (r: Vec<String>)
    ensures
        path_texts(r@) == seq![a@],
{
    let mut r: Vec<String> = Vec::new();
    proof {
        assert(path_texts(r@) =~= Seq::<Seq<char>>::empty());
    }
    push_arg(&mut r, a);
    proof {
        assert(path_texts(r@) =~= seq![a@]);
    }
    r
}

fn words2(a: &str, b: &str) -> (r: Vec<String>)
    ensures
        path_texts(r@) == seq![a@, b@],
{
    let mut r: Vec<String> = Vec::new();
    push_arg(&mut r, a);
    push_arg(&mut r, b);
    proof {
        assert(path_texts(r@) =~= seq![a@, b@]);
    }
    r
}

fn words3(a: &str, b: &str, c: &str) -> (r: Vec<String>)
    ensures
        path_texts(r@) == seq![a@, b@, c@],
{
    let mut r = words2(a, b);
    push_arg(&mut r, c);
    proof {
        assert(path_texts(r@) =~= seq![a@, b@, c@]);
    }
    r
}

fn words4(a: &str, b: &str, c: &str, d: &str) -> (r: Vec<String>)
    ensures
        path_texts(r@) == seq![a@, b@, c@, d@],
{
    let mut r = words3(a, b, c);
    push_arg(&mut r, d);
    proof {
        assert(path_texts(r@) =~= seq![a@, b@, c@, d@]);
    }
    r
}

fn words5(a: &str, b: &str, c: &str, d: &str, e: &str) -> (r: Vec<String>)
    ensures
        path_texts(r@) == seq![a@, b@, c@, d@, e@],
{
    let mut r = words4(a, b, c, d);
    push_arg(&mut r, e);
    proof {
        assert(path_texts(r@) =~= seq![a@, b@, c@, d@, e@]);
    }
    r
}

/// The example packages, run by the example and artifact checks.
pub open spec fn example_names() -> Seq<Seq<char>> {
    seq![
        "atomic-counter"@,
        "vector-add"@,
        "polynomial"@,
        "signal-pipeline"@,
        "particle-step"@,
        "typed-pipeline"@,
        "staged-graph"@,
        "component-pool"@,
    ]
}

/// The examples the smoke check runs.
pub open spec fn smoke_example_names() -> Seq<Seq<char>> {
    seq!["vector-add"@, "typed-pipeline"@]
}

/// The example packages.
pub fn examples() -> (r: Vec<String>)
    ensures
        path_texts(r@) == example_names(),
{
    let mut r = words4("atomic-counter", "vector-add", "polynomial", "signal-pipeline");
    push_arg(&mut r, "particle-step");
    push_arg(&mut r, "typed-pipeline");
    push_arg(&mut r, "staged-graph");
    push_arg(&mut r, "component-pool");
    proof {
        assert(path_texts(r@) =~= example_names());
    }
    r
}

/// The examples the smoke check runs.
pub fn smoke_examples() -> (r: Vec<String>)
    ensures
        path_texts(r@) == smoke_example_names(),
{
    words2("vector-add", "typed-pipeline")
}

/// `--exclude` and the package, for each package of `names[..n]`.
pub open spec fn exclude_args(names: Seq<Seq<char>>, n: int) -> Seq<Seq<char>>
    decreases n,
{
    if n <= 0 || n > names.len() {
        Seq::empty()
    } else {
        exclude_args(names, n - 1) + seq!["--exclude"@, names[n - 1]]
    }
}

/// The arguments of `cargo` for the workspace tests without the examples.
pub open spec fn spec_workspace_test_args() -> Seq<Seq<char>> {
    seq!["test"@, "--workspace"@] + exclude_args(example_names(), 8)
}

/// The arguments of `cargo` for the workspace tests, every example package
/// excluded.
pub fn workspace_test_args() -> (r: Vec<String>)
    ensures
        path_texts(r@) == spec_workspace_test_args(),
{
    let names = examples();
    let mut args = words2("test", "--workspace");
    let mut i: usize = 0;
    while i < names.len()
        invariant
            i <= names@.len(),
            path_texts(names@) == example_names(),
            path_texts(args@) == seq!["test"@, "--workspace"@] + exclude_args(example_names(), i as int),
        decreases names@.len() - i,
    {
        push_arg(&mut args, "--exclude");
        push_arg(&mut args, names[i].as_str());
        proof {
            assert(path_texts(names@)[i as int] == names@[i as int]@);
            assert(path_texts(args@) =~= seq!["test"@, "--workspace"@] + exclude_args(
                example_names(),
                i + 1,
            ));
        }
        i = i + 1;
    }
    args
}

/// One step of `check-feature`.
pub enum FeatureStep {
    /// `cargo` with these arguments.
    Cargo(Vec<String>),
    /// `verify` in this mode, writing the record or not.
    Verify(VerifyMode, bool),
    /// Build the native reflection helper.
    BuildReflect,
}

pub enum FeatureStepModel {
    Cargo(Seq<Seq<char>>),
    Verify(VerifyMode, bool),
    BuildReflect,
}

impl FeatureStep {
    pub open spec fn model(&self) -> FeatureStepModel {
        match self {
            FeatureStep::Cargo(a) => FeatureStepModel::Cargo(path_texts(a@)),
            FeatureStep::Verify(m, r) => FeatureStepModel::Verify(*m, *r),
            FeatureStep::BuildReflect => FeatureStepModel::BuildReflect,
        }
    }
}

pub open spec fn feature_models(steps: Seq<FeatureStep>) -> Seq<FeatureStepModel> {
    Seq::new(steps.len(), |i: int| steps[i].model())
}

/// `cargo test -p gust-wgpu --test <name>`.
pub open spec fn wgpu_test(name: Seq<char>) -> FeatureStepModel {
    FeatureStepModel::Cargo(seq!["test"@, "-p"@, "gust-wgpu"@, "--test"@, name])
}

/// The steps each feature area runs, in order; `None` for an unknown area.
pub open spec fn spec_feature_steps(area: Seq<char>) -> Option<Seq<FeatureStepModel>> {
    if area == "macro"@ {
        Some(seq![FeatureStepModel::Cargo(seq!["test"@, "-p"@, "gust-macros"@])])
    } else if area == "core"@ {
        Some(seq![FeatureStepModel::Cargo(seq!["test"@, "-p"@, "gust"@, "--lib"@])])
    } else if area == "wgpu"@ {
        Some(seq![FeatureStepModel::Verify(VerifyMode::Gpu, false)])
    } else if area == "gpu-smoke"@ {
        Some(seq![FeatureStepModel::Cargo(seq!["test"@, "-p"@, "gust-wgpu"@, "--lib"@])])
    } else if area == "gpu-semantics"@ {
        Some(
            seq![
                wgpu_test("semantics"@),
                wgpu_test("numeric"@),
                wgpu_test("option"@),
                wgpu_test("result"@),
                wgpu_test("loops"@),
                wgpu_test("struct_assignment"@),
            ],
        )
    } else if area == "gpu-runtime"@ {
        Some(seq![wgpu_test("reflection"@)])
    } else if area == "reflection"@ {
        Some(
            seq![
                FeatureStepModel::BuildReflect,
                FeatureStepModel::Cargo(seq!["test"@, "-p"@, "gust"@, "--test"@, "reflection"@]),
                wgpu_test("reflection"@),
            ],
        )
    } else if area == "loops"@ {
        Some(
            seq![
                FeatureStepModel::Cargo(seq!["test"@, "-p"@, "gust-macros"@, "loops"@]),
                wgpu_test("loops"@),
            ],
        )
    } else if area == "examples"@ {
        Some(seq![FeatureStepModel::Verify(VerifyMode::Examples, false)])
    } else if area == "artifacts"@ {
        Some(seq![FeatureStepModel::Verify(VerifyMode::Artifacts, false)])
    } else if area == "full"@ {
        Some(seq![FeatureStepModel::Verify(VerifyMode::Full, true)])
    } else {
        None
    }
}

fn wgpu_test_step(name: &str) -> (r: FeatureStep)
    ensures
        r.model() == wgpu_test(name@),
{
    FeatureStep::Cargo(words5("test", "-p", "gust-wgpu", "--test", name))
}

fn one_step(step: FeatureStep) -> (r: Vec<FeatureStep>)
    ensures
        feature_models(r@) == seq![step.model()],
{
    let mut r: Vec<FeatureStep> = Vec::new();
    r.push(step);
    proof {
        assert(feature_models(r@) =~= seq![step.model()]);
    }
    r
}

/// The steps `check-feature` runs for `area`, in order: it stops at the
/// first that fails. No area, or an unknown one, is an error.
pub fn feature_steps(area: Option<&str>) -> (r: Result<Vec<FeatureStep>, String>)
    ensures
        match area {
            None => r matches Err(e) && e@ == "check-feature needs an area"@,
            Some(a) => match spec_feature_steps(a@) {
                Some(steps) => r matches Ok(v) && feature_models(v@) == steps,
                None => r matches Err(e) && e@ == "unknown feature area `"@ + a@ + "`"@,
            },
        },
{
    let area = match area {
        None => {
            return Err(owned("check-feature needs an area"));
        },
        Some(a) => a,
    };
    let a = chars_of(area);
    if spells(&a, "macro") {
        Ok(one_step(FeatureStep::Cargo(words3("test", "-p", "gust-macros"))))
    } else if spells(&a, "core") {
        Ok(one_step(FeatureStep::Cargo(words4("test", "-p", "gust", "--lib"))))
    } else if spells(&a, "wgpu") {
        Ok(one_step(FeatureStep::Verify(VerifyMode::Gpu, false)))
    } else if spells(&a, "gpu-smoke") {
        Ok(one_step(FeatureStep::Cargo(words4("test", "-p", "gust-wgpu", "--lib"))))
    } else if spells(&a, "gpu-semantics") {
        let mut r: Vec<FeatureStep> = Vec::new();
        r.push(wgpu_test_step("semantics"));
        r.push(wgpu_test_step("numeric"));
        r.push(wgpu_test_step("option"));
        r.push(wgpu_test_step("result"));
        r.push(wgpu_test_step("loops"));
        r.push(wgpu_test_step("struct_assignment"));
        proof {
            assert(feature_models(r@) =~= spec_feature_steps(area@).unwrap());
        }
        Ok(r)
    } else if spells(&a, "gpu-runtime") {
        Ok(one_step(wgpu_test_step("reflection")))
    } else if spells(&a, "reflection") {
        let mut r: Vec<FeatureStep> = Vec::new();
        r.push(FeatureStep::BuildReflect);
        r.push(FeatureStep::Cargo(words5("test", "-p", "gust", "--test", "reflection")));
        r.push(wgpu_test_step("reflection"));
        proof {
            assert(feature_models(r@) =~= spec_feature_steps(area@).unwrap());
        }
        Ok(r)
    } else if spells(&a, "loops") {
        let mut r: Vec<FeatureStep> = Vec::new();
        r.push(FeatureStep::Cargo(words4("test", "-p", "gust-macros", "loops")));
        r.push(wgpu_test_step("loops"));
        proof {
            assert(feature_models(r@) =~= spec_feature_steps(area@).unwrap());
        }
        Ok(r)
    } else if spells(&a, "examples") {
        Ok(one_step(FeatureStep::Verify(VerifyMode::Examples, false)))
    } else if spells(&a, "artifacts") {
        Ok(one_step(FeatureStep::Verify(VerifyMode::Artifacts, false)))
    } else if spells(&a, "full") {
        Ok(one_step(FeatureStep::Verify(VerifyMode::Full, true)))
    } else {
        Err(joined3("unknown feature area `", area, "`"))
    }
}


/// One step of `verify`.
pub enum VerifyStep {
    /// The program must be on the path.
    Require(&'static str),
    /// Run the program with these arguments and record what it printed.
    Run(&'static str, Vec<String>),
    /// Build the native reflection helper.
    BuildReflect,
    /// Check the exported SPIR-V kernels one by one.
    ValidateArtifacts,
}

pub enum VerifyStepModel {
    Require(Seq<char>),
    Run(Seq<char>, Seq<Seq<char>>),
    BuildReflect,
    ValidateArtifacts,
}

impl VerifyStep {
    pub open spec fn model(&self) -> VerifyStepModel {
        match self {
            VerifyStep::Require(p) => VerifyStepModel::Require(p@),
            VerifyStep::Run(p, a) => VerifyStepModel::Run(p@, path_texts(a@)),
            VerifyStep::BuildReflect => VerifyStepModel::BuildReflect,
            VerifyStep::ValidateArtifacts => VerifyStepModel::ValidateArtifacts,
        }
    }
}

pub open spec fn verify_models(steps: Seq<VerifyStep>) -> Seq<VerifyStepModel> {
    Seq::new(steps.len(), |i: int| steps[i].model())
}

pub open spec fn cargo_run(args: Seq<Seq<char>>) -> VerifyStepModel {
    VerifyStepModel::Run("cargo"@, args)
}

/// The tools each mode needs and the versions it records.
pub open spec fn setup_steps(mode: VerifyMode) -> Seq<VerifyStepModel> {
    seq![
        VerifyStepModel::Require("cargo"@),
        VerifyStepModel::Require("rustc"@),
        VerifyStepModel::Require("slangc"@),
    ] + (if mode == VerifyMode::Artifacts || mode == VerifyMode::Full {
        seq![VerifyStepModel::Require("spirv-val"@)]
    } else {
        Seq::empty()
    }) + seq![
        VerifyStepModel::Run("rustc"@, seq!["--version"@]),
        VerifyStepModel::Run("slangc"@, seq!["-version"@]),
        VerifyStepModel::BuildReflect,
    ]
}

/// Formatting and lint checks.
pub open spec fn style_steps(mode: VerifyMode) -> Seq<VerifyStepModel> {
    (if mode == VerifyMode::Smoke || mode == VerifyMode::Fast || mode == VerifyMode::Full {
        seq![cargo_run(seq!["fmt"@, "--all"@, "--"@, "--check"@])]
    } else {
        Seq::empty()
    }) + (if mode == VerifyMode::Smoke || mode == VerifyMode::Full {
        seq![
            cargo_run(
                seq!["clippy"@, "--workspace"@, "--all-targets"@, "--"@, "-D"@, "warnings"@],
            ),
        ]
    } else {
        Seq::empty()
    })
}

/// The test runs of each mode.
pub open spec fn test_steps(mode: VerifyMode) -> Seq<VerifyStepModel> {
    match mode {
        VerifyMode::Fast => seq![
            cargo_run(seq!["test"@, "-p"@, "gpu-dialect-macros"@]),
            cargo_run(seq!["test"@, "-p"@, "gpu-dialect"@, "--lib"@]),
            cargo_run(seq!["test"@, "-p"@, "gpu-dialect-wgpu"@]),
        ],
        VerifyMode::Gpu => seq![cargo_run(seq!["test"@, "-p"@, "gpu-dialect-wgpu"@])],
        VerifyMode::Smoke | VerifyMode::Full => seq![cargo_run(spec_workspace_test_args())],
        VerifyMode::Examples | VerifyMode::Artifacts => Seq::empty(),
    }
}

/// One run for each of `names[..n]`, the package name between `before` and
/// `after`.
pub open spec fn package_runs(
    names: Seq<Seq<char>>,
    n: int,
    before: Seq<Seq<char>>,
    after: Seq<Seq<char>>,
) -> Seq<VerifyStepModel>
    decreases n,
{
    if n <= 0 || n > names.len() {
        Seq::empty()
    } else {
        package_runs(names, n - 1, before, after).push(cargo_run(before.push(names[n - 1]) + after))
    }
}

/// The ignored example tests, then the example programs.
pub open spec fn example_steps(mode: VerifyMode) -> Seq<VerifyStepModel> {
    let ignored = if mode == VerifyMode::Examples || mode == VerifyMode::Full {
        package_runs(example_names(), 8, seq!["test"@, "-p"@], seq!["--"@, "--ignored"@])
    } else {
        Seq::empty()
    };
    let programs = match mode {
        VerifyMode::Smoke => smoke_example_names(),
        VerifyMode::Examples | VerifyMode::Artifacts | VerifyMode::Full => example_names(),
        VerifyMode::Fast | VerifyMode::Gpu => Seq::empty(),
    };
    ignored + package_runs(programs, programs.len() as int, seq!["run"@, "--quiet"@, "-p"@], Seq::empty())
}

/// The SPIR-V validation of the artifact modes.
pub open spec fn artifact_steps(mode: VerifyMode) -> Seq<VerifyStepModel> {
    if mode == VerifyMode::Artifacts || mode == VerifyMode::Full {
        seq![
            VerifyStepModel::Run("spirv-val"@, seq!["--version"@]),
            VerifyStepModel::ValidateArtifacts,
        ]
    } else {
        Seq::empty()
    }
}

/// Everything `verify` runs in `mode`, in order.
pub open spec fn spec_verify_steps(mode: VerifyMode) -> Seq<VerifyStepModel> {
    setup_steps(mode) + style_steps(mode) + test_steps(mode) + example_steps(mode) + artifact_steps(
        mode,
    )
}

/// Appends one step.
fn push_step(steps: &mut Vec<VerifyStep>, step: VerifyStep)
    ensures
        verify_models(final(steps)@) == verify_models(old(steps)@).push(step.model()),
{
    steps.push(step);
    proof {
        assert(verify_models(steps@) =~= verify_models(old(steps)@).push(step.model()));
    }
}

/// Appends one run of `cargo` for each of `names`, the name between `before`
/// and `after`.
fn push_package_runs(steps: &mut Vec<VerifyStep>, names: &Vec<String>, before: &Vec<String>, after: &Vec<String>)
    ensures
        verify_models(final(steps)@) == verify_models(old(steps)@) + package_runs(
            path_texts(names@),
            names@.len() as int,
            path_texts(before@),
            path_texts(after@),
        ),
{
    let ghost ns = path_texts(names@);
    let ghost b = path_texts(before@);
    let ghost af = path_texts(after@);
    let mut i: usize = 0;
    while i < names.len()
        invariant
            i <= names@.len(),
            ns == path_texts(names@),
            b == path_texts(before@),
            af == path_texts(after@),
            verify_models(steps@) == verify_models(old(steps)@) + package_runs(ns, i as int, b, af),
        decreases names@.len() - i,
    {
        let mut args: Vec<String> = Vec::new();
        let mut k: usize = 0;
        while k < before.len()
            invariant
                k <= before@.len(),
                b == path_texts(before@),
                path_texts(args@) == b.subrange(0, k as int),
            decreases before@.len() - k,
        {
            push_arg(&mut args, before[k].as_str());
            proof {
                assert(b.subrange(0, k + 1) =~= b.subrange(0, k as int).push(b[k as int]));
            }
            k = k + 1;
        }
        push_arg(&mut args, names[i].as_str());
        let mut k: usize = 0;
        let ghost mid = path_texts(args@);
        while k < after.len()
            invariant
                k <= after@.len(),
                af == path_texts(after@),
                path_texts(args@) == mid + af.subrange(0, k as int),
            decreases after@.len() - k,
        {
            push_arg(&mut args, after[k].as_str());
            proof {
                assert(af.subrange(0, k + 1) =~= af.subrange(0, k as int).push(af[k as int]));
                assert(mid + af.subrange(0, k + 1) =~= (mid + af.subrange(0, k as int)).push(af[k as int]));
            }
            k = k + 1;
        }
        proof {
            assert(b.subrange(0, b.len() as int) =~= b);
            assert(af.subrange(0, af.len() as int) =~= af);
            assert(ns[i as int] == names@[i as int]@);
            assert(path_texts(args@) == b.push(ns[i as int]) + af);
        }
        push_step(steps, VerifyStep::Run("cargo", args));
        proof {
            assert(verify_models(steps@) =~= verify_models(old(steps)@) + package_runs(ns, i + 1, b, af));
        }
        i = i + 1;
    }
}

/// Everything `verify` runs in `mode`, in order. The host runs the steps one
/// after the other and stops at the first that fails.
pub fn verify_steps(mode: VerifyMode) -> (r: Vec<VerifyStep>)
    ensures
        verify_models(r@) == spec_verify_steps(mode),
{
    let artifacts = mode == VerifyMode::Artifacts || mode == VerifyMode::Full;
    let mut steps: Vec<VerifyStep> = Vec::new();
    proof {
        assert(verify_models(steps@) =~= Seq::<VerifyStepModel>::empty());
    }
    push_step(&mut steps, VerifyStep::Require("cargo"));
    push_step(&mut steps, VerifyStep::Require("rustc"));
    push_step(&mut steps, VerifyStep::Require("slangc"));
    let ghost tools = verify_models(steps@);
    if artifacts {
        push_step(&mut steps, VerifyStep::Require("spirv-val"));
    }
    proof {
        assert(verify_models(steps@) =~= tools + (if artifacts {
            seq![VerifyStepModel::Require("spirv-val"@)]
        } else {
            Seq::empty()
        }));
    }
    push_step(&mut steps, VerifyStep::Run("rustc", words1("--version")));
    push_step(&mut steps, VerifyStep::Run("slangc", words1("-version")));
    push_step(&mut steps, VerifyStep::BuildReflect);
    proof {
        assert(verify_models(steps@) =~= setup_steps(mode));
    }
    let ghost after_setup = verify_models(steps@);
    if mode == VerifyMode::Smoke || mode == VerifyMode::Fast || mode == VerifyMode::Full {
        push_step(&mut steps, VerifyStep::Run("cargo", words4("fmt", "--all", "--", "--check")));
    }
    let ghost after_fmt = verify_models(steps@);
    proof {
        assert(after_fmt =~= after_setup + (if mode == VerifyMode::Smoke || mode == VerifyMode::Fast
            || mode == VerifyMode::Full {
            seq![cargo_run(seq!["fmt"@, "--all"@, "--"@, "--check"@])]
        } else {
            Seq::empty()
        }));
    }
    if mode == VerifyMode::Smoke || mode == VerifyMode::Full {
        let mut a = words5("clippy", "--workspace", "--all-targets", "--", "-D");
        push_arg(&mut a, "warnings");
        proof {
            assert(path_texts(a@) =~= seq!["clippy"@, "--workspace"@, "--all-targets"@, "--"@, "-D"@, "warnings"@]);
        }
        push_step(&mut steps, VerifyStep::Run("cargo", a));
    }
    proof {
        assert(verify_models(steps@) =~= after_setup + style_steps(mode));
    }
    let ghost after_style = verify_models(steps@);
    match mode {
        VerifyMode::Fast => {
            push_step(&mut steps, VerifyStep::Run("cargo", words3("test", "-p", "gpu-dialect-macros")));
            push_step(&mut steps, VerifyStep::Run("cargo", words4("test", "-p", "gpu-dialect", "--lib")));
            push_step(&mut steps, VerifyStep::Run("cargo", words3("test", "-p", "gpu-dialect-wgpu")));
        },
        VerifyMode::Gpu => {
            push_step(&mut steps, VerifyStep::Run("cargo", words3("test", "-p", "gpu-dialect-wgpu")));
        },
        VerifyMode::Smoke | VerifyMode::Full => {
            push_step(&mut steps, VerifyStep::Run("cargo", workspace_test_args()));
        },
        VerifyMode::Examples | VerifyMode::Artifacts => {},
    }
    proof {
        assert(verify_models(steps@) =~= after_style + test_steps(mode));
    }
    let ghost after_tests = verify_models(steps@);
    let none: Vec<String> = Vec::new();
    if mode == VerifyMode::Examples || mode == VerifyMode::Full {
        push_package_runs(&mut steps, &examples(), &words2("test", "-p"), &words2("--", "--ignored"));
    } else {
        proof {
            assert(verify_models(steps@) =~= after_tests + Seq::<VerifyStepModel>::empty());
        }
    }
    let ghost after_ignored = verify_models(steps@);
    let programs = match mode {
        VerifyMode::Smoke => smoke_examples(),
        VerifyMode::Examples | VerifyMode::Artifacts | VerifyMode::Full => examples(),
        VerifyMode::Fast | VerifyMode::Gpu => Vec::new(),
    };
    proof {
        assert(path_texts(none@) =~= Seq::<Seq<char>>::empty());
        if mode == VerifyMode::Fast || mode == VerifyMode::Gpu {
            assert(path_texts(programs@) =~= Seq::<Seq<char>>::empty());
        }
    }
    push_package_runs(&mut steps, &programs, &words3("run", "--quiet", "-p"), &none);
    proof {
        assert(verify_models(steps@) =~= after_tests + example_steps(mode));
    }
    let ghost after_examples = verify_models(steps@);
    if artifacts {
        push_step(&mut steps, VerifyStep::Run("spirv-val", words1("--version")));
        push_step(&mut steps, VerifyStep::ValidateArtifacts);
    }
    proof {
        assert(verify_models(steps@) =~= after_examples + artifact_steps(mode));
        assert(verify_models(steps@) =~= spec_verify_steps(mode));
    }
    steps
}


/// What `explain-check` says of each area; `None` for an unknown one.
pub open spec fn area_explanation(area: Seq<char>) -> Option<Seq<char>> {
    if area == "macro"@ {
        Some("macro: validator/emitter/golden changes; fastest compiler-front-end proof"@)
    } else if area == "core"@ {
        Some("core: ABI, Slang bridge, reflection parser, diagnostic mapping, SPIR-V structure helpers"@)
    } else if area == "wgpu"@ {
        Some("wgpu: all runtime/GPU integration tests; about 10s on this machine"@)
    } else if area == "gpu-smoke"@ {
        Some("gpu-smoke: wgpu crate unit tests only; cheap runtime/cache sanity"@)
    } else if area == "gpu-semantics"@ {
        Some("gpu-semantics: semantics/numeric/option/loops/struct assignment GPU differential tests"@)
    } else if area == "gpu-runtime"@ {
        Some("gpu-runtime: reflection gate and cache/runtime mismatch tests"@)
    } else if area == "reflection"@ {
        Some("reflection: native Slang helper + core/wgpu reflection contract"@)
    } else if area == "loops"@ {
        Some("loops: bounded-loop golden/rejection test plus real-GPU loop differential test"@)
    } else if area == "examples"@ {
        Some("examples: ignored example tests and example binaries; use for major behavior confidence"@)
    } else if area == "artifacts"@ {
        Some("artifacts: example binaries plus exported SPIR-V validation"@)
    } else if area == "full"@ {
        Some("full: release evidence; writes .ai/VALIDATION.json"@)
    } else if area == "changed"@ {
        Some("changed: route dirty files to the cheapest likely sufficient check"@)
    } else if area == "workspace"@ {
        Some("workspace: non-example workspace tests via --exclude; example tests stay in check-examples"@)
    } else if area == "format"@ {
        Some("format: rustfmt only"@)
    } else if area == "lints"@ {
        Some("lints: strict Clippy over workspace/all targets"@)
    } else if area == "all"@ {
        Some("known areas: macro, core, wgpu, gpu-smoke, gpu-semantics, gpu-runtime, reflection, loops, examples, artifacts, full, changed, workspace, format, lints"@)
    } else {
        None
    }
}

/// The explanation of a check area (`all` when none is named), or an error
/// for an unknown area.
pub fn explain_check(area: Option<&str>) -> (r: Result<&'static str, String>)
    ensures
        ({
            let a = match area {
                Some(a) => a@,
                None => "all"@,
            };
            match area_explanation(a) {
                Some(m) => r matches Ok(t) && t@ == m,
                None => r matches Err(e) && e@ == "unknown check area `"@ + a + "`"@,
            }
        }),
{
    let area = match area {
        Some(a) => a,
        None => "all",
    };
    let a = chars_of(area);
    if spells(&a, "macro") {
        Ok("macro: validator/emitter/golden changes; fastest compiler-front-end proof")
    } else if spells(&a, "core") {
        Ok("core: ABI, Slang bridge, reflection parser, diagnostic mapping, SPIR-V structure helpers")
    } else if spells(&a, "wgpu") {
        Ok("wgpu: all runtime/GPU integration tests; about 10s on this machine")
    } else if spells(&a, "gpu-smoke") {
        Ok("gpu-smoke: wgpu crate unit tests only; cheap runtime/cache sanity")
    } else if spells(&a, "gpu-semantics") {
        Ok("gpu-semantics: semantics/numeric/option/loops/struct assignment GPU differential tests")
    } else if spells(&a, "gpu-runtime") {
        Ok("gpu-runtime: reflection gate and cache/runtime mismatch tests")
    } else if spells(&a, "reflection") {
        Ok("reflection: native Slang helper + core/wgpu reflection contract")
    } else if spells(&a, "loops") {
        Ok("loops: bounded-loop golden/rejection test plus real-GPU loop differential test")
    } else if spells(&a, "examples") {
        Ok("examples: ignored example tests and example binaries; use for major behavior confidence")
    } else if spells(&a, "artifacts") {
        Ok("artifacts: example binaries plus exported SPIR-V validation")
    } else if spells(&a, "full") {
        Ok("full: release evidence; writes .ai/VALIDATION.json")
    } else if spells(&a, "changed") {
        Ok("changed: route dirty files to the cheapest likely sufficient check")
    } else if spells(&a, "workspace") {
        Ok("workspace: non-example workspace tests via --exclude; example tests stay in check-examples")
    } else if spells(&a, "format") {
        Ok("format: rustfmt only")
    } else if spells(&a, "lints") {
        Ok("lints: strict Clippy over workspace/all targets")
    } else if spells(&a, "all") {
        Ok("known areas: macro, core, wgpu, gpu-smoke, gpu-semantics, gpu-runtime, reflection, loops, examples, artifacts, full, changed, workspace, format, lints")
    } else {
        Err(joined3("unknown check area `", area, "`"))
    }
}


/// `parts[..n]` joined with `sep` between neighbours (`[String]::join`).
pub open spec fn join_with(parts: Seq<Seq<char>>, n: int, sep: Seq<char>) -> Seq<char>
    decreases n,
{
    if n <= 0 || n > parts.len() {
        Seq::empty()
    } else if n == 1 {
        parts[0]
    } else {
        join_with(parts, n - 1, sep) + sep + parts[n - 1]
    }
}

/// All of `parts` joined with `sep`.
pub open spec fn join_all(parts: Seq<Seq<char>>, sep: Seq<char>) -> Seq<char> {
    join_with(parts, parts.len() as int, sep)
}

/// `parts` joined with `sep` between neighbours.
pub fn join_strings(parts: &[String], sep: &str) -> (r: String)
    ensures
        r@ == join_all(path_texts(parts@), sep@),
{
    let ghost ps = path_texts(parts@);
    let mut out = String::new();
    let mut i: usize = 0;
    while i < parts.len()
        invariant
            i <= parts@.len(),
            ps == path_texts(parts@),
            out@ == join_with(ps, i as int, sep@),
        decreases parts@.len() - i,
    {
        if i > 0 {
            out.append(sep);
        }
        out.append(parts[i].as_str());
        proof {
            assert(ps[i as int] == parts@[i as int]@);
            if i == 0 {
                assert(out@ =~= join_with(ps, 1, sep@));
            } else {
                assert(out@ =~= join_with(ps, i + 1, sep@));
            }
        }
        i = i + 1;
    }
    out
}

/// The decimal spelling of a signed number.
pub open spec fn signed_decimal(n: int) -> Seq<char> {
    if n < 0 {
        seq!['-'] + decimal((-n) as nat)
    } else {
        decimal(n as nat)
    }
}

/// Appends the decimal spelling of `n`, with `-` when it is negative.
pub fn push_signed(out: &mut String, n: i64)
    ensures
        final(out)@ == old(out)@ + signed_decimal(n as int),
{
    if n < 0 {
        push_char(out, '-');
        let magnitude: u64 = if n == i64::MIN {
            9223372036854775808u64
        } else {
            (-n) as u64
        };
        push_decimal(out, magnitude);
        proof {
            assert(final(out)@ =~= old(out)@ + signed_decimal(n as int));
        }
    } else {
        push_decimal(out, n as u64);
    }
}

/// The failure of a command that ran: the program, its arguments and its
/// exit code, `-1` when it has none.
pub open spec fn spec_command_failure(program: Seq<char>, args: Seq<Seq<char>>, code: Option<i32>) -> Seq<char> {
    program + " "@ + join_all(args, " "@) + " failed (exit "@ + signed_decimal(
        match code {
            Some(c) => c as int,
            None => -1,
        },
    ) + ")"@
}

/// The error for a command that ran and failed.
pub fn command_failure(program: &str, args: &[String], code: Option<i32>) -> (r: String)
    ensures
        r@ == spec_command_failure(program@, path_texts(args@), code),
{
    let mut out = String::new();
    out.append(program);
    out.append(" ");
    let joined = join_strings(args, " ");
    out.append(joined.as_str());
    out.append(" failed (exit ");
    let c: i64 = match code {
        Some(c) => c as i64,
        None => -1,
    };
    push_signed(&mut out, c);
    out.append(")");
    proof {
        assert(out@ =~= spec_command_failure(program@, path_texts(args@), code));
    }
    out
}

/// A required program that is missing is an error.
pub fn require_command(found: bool, program: &str) -> (r: Result<(), String>)
    ensures
        found ==> r is Ok,
        !found ==> (r matches Err(e) && e@ == "required command `"@ + program@ + "` was not found on PATH"@),
{
    if found {
        Ok(())
    } else {
        Err(joined3("required command `", program, "` was not found on PATH"))
    }
}

/// The number of exported kernels the artifact check expects.
pub const EXPORTED_KERNELS: usize = 12;

/// The artifact check accepts exactly the expected number of exported
/// kernels.
pub fn check_artifact_count(found: usize) -> (r: Result<(), String>)
    ensures
        found == EXPORTED_KERNELS ==> r is Ok,
        found != EXPORTED_KERNELS ==> (r matches Err(e) && e@ == "Expected 12 exported kernels, found "@
            + decimal(found as nat) + "; update this check deliberately for new examples."@),
{
    if found == EXPORTED_KERNELS {
        Ok(())
    } else {
        let mut e = String::new();
        e.append("Expected 12 exported kernels, found ");
        push_decimal(&mut e, found as u64);
        e.append("; update this check deliberately for new examples.");
        proof {
            assert(e@ =~= "Expected 12 exported kernels, found "@ + decimal(found as nat)
                + "; update this check deliberately for new examples."@);
        }
        Err(e)
    }
}

/// The arguments of `spirv-val` for one exported kernel.
pub fn spirv_val_args(path: &str) -> (r: Vec<String>)
    ensures
        path_texts(r@) == seq!["--target-env"@, "vulkan1.2"@, path@],
{
    words3("--target-env", "vulkan1.2", path)
}

/// `"` with a backslash before it, for a `cmd` command line.
pub open spec fn cmd_escaped(t: Seq<char>) -> Seq<char>
    decreases t.len(),
{
    if t.len() == 0 {
        Seq::empty()
    } else {
        cmd_escaped(t.drop_last()) + if t.last() == '"' {
            seq!['\\', '"']
        } else {
            seq![t.last()]
        }
    }
}

pub open spec fn cmd_quoted(t: Seq<char>) -> Seq<char> {
    seq!['"'] + cmd_escaped(t) + seq!['"']
}

pub open spec fn quoted_all(args: Seq<Seq<char>>) -> Seq<Seq<char>> {
    Seq::new(args.len(), |i: int| cmd_quoted(args[i]))
}

/// One argument in double quotes, its own quotes escaped.
fn cmd_quote(arg: &str) -> (r: String)
    ensures
        r@ == cmd_quoted(arg@),
{
    let v = chars_of(arg);
    let mut out = String::new();
    push_char(&mut out, '"');
    let mut i: usize = 0;
    while i < v.len()
        invariant
            i <= v@.len(),
            v@ == arg@,
            out@ == seq!['"'] + cmd_escaped(v@.subrange(0, i as int)),
        decreases v@.len() - i,
    {
        let c = v[i];
        proof {
            assert(v@.subrange(0, i + 1).drop_last() =~= v@.subrange(0, i as int));
        }
        if c == '"' {
            push_char(&mut out, '\\');
        }
        push_char(&mut out, c);
        proof {
            assert(out@ =~= seq!['"'] + cmd_escaped(v@.subrange(0, i + 1)));
        }
        i = i + 1;
    }
    push_char(&mut out, '"');
    proof {
        assert(v@.subrange(0, v@.len() as int) =~= v@);
        assert(out@ =~= cmd_quoted(arg@));
    }
    out
}

/// The arguments of a `cmd` command line: each in double quotes, separated
/// by spaces.
pub fn quote_cmd_args(args: &[String]) -> (r: String)
    ensures
        r@ == join_all(quoted_all(path_texts(args@)), " "@),
{
    let mut quoted: Vec<String> = Vec::new();
    let mut i: usize = 0;
    while i < args.len()
        invariant
            i <= args@.len(),
            path_texts(quoted@) == quoted_all(path_texts(args@)).subrange(0, i as int),
        decreases args@.len() - i,
    {
        let q = cmd_quote(args[i].as_str());
        let ghost prev = path_texts(quoted@);
        quoted.push(q);
        proof {
            assert(path_texts(args@)[i as int] == args@[i as int]@);
            assert(path_texts(quoted@) =~= prev.push(q@));
            assert(path_texts(quoted@) =~= quoted_all(path_texts(args@)).subrange(0, i + 1));
        }
        i = i + 1;
    }
    proof {
        assert(quoted_all(path_texts(args@)).subrange(0, args@.len() as int) =~= quoted_all(path_texts(args@)));
    }
    join_strings(quoted.as_slice(), " ")
}


/// The compiler arguments that build the reflection helper with a Unix C++
/// compiler.
pub open spec fn spec_unix_compile_args(
    header_dir: Seq<char>,
    source: Seq<char>,
    library: Seq<char>,
    lib_dir: Seq<char>,
    exe: Seq<char>,
) -> Seq<Seq<char>> {
    seq![
        "-std=c++17"@,
        "-Wall"@,
        "-Wextra"@,
        "-Werror"@,
        "-I"@ + header_dir,
        source,
        library,
        "-Wl,-rpath,"@ + lib_dir,
        "-o"@,
        exe,
    ]
}

/// The arguments of the Unix C++ compiler for the reflection helper.
pub fn unix_compile_args(header_dir: &str, source: &str, library: &str, lib_dir: &str, exe: &str) -> (r: Vec<
    String,
>)
    ensures
        path_texts(r@) == spec_unix_compile_args(header_dir@, source@, library@, lib_dir@, exe@),
{
    let mut r = words4("-std=c++17", "-Wall", "-Wextra", "-Werror");
    let t = joined2("-I", header_dir);
    push_arg(&mut r, t.as_str());
    push_arg(&mut r, source);
    push_arg(&mut r, library);
    let t = joined2("-Wl,-rpath,", lib_dir);
    push_arg(&mut r, t.as_str());
    push_arg(&mut r, "-o");
    push_arg(&mut r, exe);
    proof {
        assert(path_texts(r@) =~= spec_unix_compile_args(header_dir@, source@, library@, lib_dir@, exe@));
    }
    r
}

/// The compiler arguments that build the reflection helper with MSVC.
pub open spec fn spec_windows_compile_args(
    header_dir: Seq<char>,
    source: Seq<char>,
    obj: Seq<char>,
    exe: Seq<char>,
    library: Seq<char>,
) -> Seq<Seq<char>> {
    seq![
        "/nologo"@,
        "/std:c++17"@,
        "/EHsc"@,
        "/W4"@,
        "/WX"@,
        "/I"@ + header_dir,
        source,
        "/Fo"@ + obj,
        "/Fe"@ + exe,
        "/link"@,
        library,
    ]
}

/// The arguments of MSVC's `cl` for the reflection helper.
pub fn windows_compile_args(header_dir: &str, source: &str, obj: &str, exe: &str, library: &str) -> (r: Vec<
    String,
>)
    ensures
        path_texts(r@) == spec_windows_compile_args(header_dir@, source@, obj@, exe@, library@),
{
    let mut r = words5("/nologo", "/std:c++17", "/EHsc", "/W4", "/WX");
    let t = joined2("/I", header_dir);
    push_arg(&mut r, t.as_str());
    push_arg(&mut r, source);
    let t = joined2("/Fo", obj);
    push_arg(&mut r, t.as_str());
    let t = joined2("/Fe", exe);
    push_arg(&mut r, t.as_str());
    push_arg(&mut r, "/link");
    push_arg(&mut r, library);
    proof {
        assert(path_texts(r@) =~= spec_windows_compile_args(header_dir@, source@, obj@, exe@, library@));
    }
    r
}

/// The `cmd` command line that runs `cl` inside the MSVC environment script.
pub fn vcvars_command(vcvars: &str, args: &[String]) -> (r: String)
    ensures
        r@ == "\""@ + vcvars@ + "\" && cl "@ + join_all(quoted_all(path_texts(args@)), " "@),
{
    let quoted = quote_cmd_args(args);
    let mut r = String::new();
    r.append("\"");
    r.append(vcvars);
    r.append("\" && cl ");
    r.append(quoted.as_str());
    proof {
        assert(r@ =~= "\""@ + vcvars@ + "\" && cl "@ + join_all(quoted_all(path_texts(args@)), " "@));
    }
    r
}

/// The Slang libraries the reflection helper links against, preferred
/// first.
pub open spec fn spec_slang_libraries(windows: bool, macos: bool) -> Seq<Seq<char>> {
    if windows {
        seq!["slang-compiler.lib"@, "slang.lib"@]
    } else if macos {
        seq!["libslang-compiler.dylib"@, "libslang.dylib"@]
    } else {
        seq!["libslang-compiler.so"@, "libslang.so"@]
    }
}

/// The Slang libraries to look for, preferred first.
pub fn slang_libraries(windows: bool, macos: bool) -> (r: Vec<String>)
    ensures
        path_texts(r@) == spec_slang_libraries(windows, macos),
{
    if windows {
        words2("slang-compiler.lib", "slang.lib")
    } else if macos {
        words2("libslang-compiler.dylib", "libslang.dylib")
    } else {
        words2("libslang-compiler.so", "libslang.so")
    }
}

/// Whether the text a post-edit hook receives asks for formatting: a
/// `PostToolUse` event on a Rust file from one of the editing tools.
pub open spec fn spec_hook_wants_format(input: Seq<char>) -> bool {
    &&& contains_seq(input, "PostToolUse"@)
    &&& contains_seq(input, ".rs"@)
    &&& {
        ||| contains_seq(input, "create_file"@)
        ||| contains_seq(input, "replace_string_in_file"@)
        ||| contains_seq(input, "multi_replace_string_in_file"@)
        ||| contains_seq(input, "insert_edit_into_file"@)
        ||| contains_seq(input, "edit_file"@)
        ||| contains_seq(input, "apply_patch"@)
    }
}

/// Whether `v` contains `needle`.
fn has_text(v: &Vec<char>, needle: &str) -> (r: bool)
    ensures
        r == contains_seq(v@, needle@),
{
    let n = chars_of(needle);
    let r = contains_at(v.as_slice(), 0, v.len(), n.as_slice());
    proof {
        assert(v@.subrange(0, v@.len() as int) =~= v@);
    }
    r
}

/// Whether the post-edit hook should format the workspace.
pub fn hook_wants_format(input: &str) -> (r: bool)
    ensures
        r == spec_hook_wants_format(input@),
{
    let v = chars_of(input);
    if !has_text(&v, "PostToolUse") || !has_text(&v, ".rs") {
        return false;
    }
    has_text(&v, "create_file") || has_text(&v, "replace_string_in_file") || has_text(
        &v,
        "multi_replace_string_in_file",
    ) || has_text(&v, "insert_edit_into_file") || has_text(&v, "edit_file") || has_text(
        &v,
        "apply_patch",
    )
}

/// How many of `ls[..n]` satisfy `f`.
pub open spec fn count_where(ls: Seq<Seq<char>>, n: int, f: spec_fn(Seq<char>) -> bool) -> nat
    decreases n,
{
    if n <= 0 || n > ls.len() {
        0
    } else {
        count_where(ls, n - 1, f) + if f(ls[n - 1]) {
            1nat
        } else {
            0nat
        }
    }
}

pub open spec fn is_test_line(l: Seq<char>) -> bool {
    has_suffix(l, ": test"@)
}

pub open spec fn is_ignored_example_line(l: Seq<char>) -> bool {
    is_test_line(l) && contains_seq(l, "tests::"@) && contains_seq(l, "example validation"@)
}

pub open spec fn is_doctest_line(l: Seq<char>) -> bool {
    contains_seq(l, " - (line "@)
}

/// What a `cargo test -- --list` listing holds.
pub struct TestListing {
    pub total_tests: usize,
    pub doctests: usize,
    pub ignored_examples: usize,
}

proof fn lemma_count_where_bounded(ls: Seq<Seq<char>>, n: int, f: spec_fn(Seq<char>) -> bool)
    requires
        0 <= n <= ls.len(),
    ensures
        count_where(ls, n, f) <= n,
    decreases n,
{
    if n > 0 {
        lemma_count_where_bounded(ls, n - 1, f);
    }
}

/// Counts the tests, the doctests and the example tests of a test listing,
/// one entry per line.
pub fn count_listed_tests(listing: &str) -> (r: TestListing)
    ensures
        r.total_tests == count_where(lines(listing@), lines(listing@).len() as int, |l: Seq<char>| is_test_line(l)),
        r.doctests == count_where(lines(listing@), lines(listing@).len() as int, |l: Seq<char>| is_doctest_line(l)),
        r.ignored_examples == count_where(
            lines(listing@),
            lines(listing@).len() as int,
            |l: Seq<char>| is_ignored_example_line(l),
        ),
{
    let v = chars_of(listing);
    let bounds = line_bounds(v.as_slice());
    let ghost ls = lines(listing@);
    let ghost ft = |l: Seq<char>| is_test_line(l);
    let ghost fd = |l: Seq<char>| is_doctest_line(l);
    let ghost fi = |l: Seq<char>| is_ignored_example_line(l);
    let suffix = chars_of(": test");
    let tests_mark = chars_of("tests::");
    let example_mark = chars_of("example validation");
    let doctest_mark = chars_of(" - (line ");
    let mut total: usize = 0;
    let mut doctests: usize = 0;
    let mut ignored: usize = 0;
    let mut i: usize = 0;
    while i < bounds.len()
        invariant
            v@ == listing@,
            ls == lines(listing@),
            bounds@.len() == ls.len(),
            forall|k: int| 0 <= k < bounds@.len() ==> (#[trigger] bounds@[k]).0 <= bounds@[k].1 <= v@.len(),
            forall|k: int| 0 <= k < bounds@.len() ==> #[trigger] v@.subrange(bounds@[k].0 as int, bounds@[k].1 as int) == ls[k],
            suffix@ == ": test"@,
            tests_mark@ == "tests::"@,
            example_mark@ == "example validation"@,
            doctest_mark@ == " - (line "@,
            ft == (|l: Seq<char>| is_test_line(l)),
            fd == (|l: Seq<char>| is_doctest_line(l)),
            fi == (|l: Seq<char>| is_ignored_example_line(l)),
            i <= bounds@.len(),
            total == count_where(ls, i as int, ft),
            doctests == count_where(ls, i as int, fd),
            ignored == count_where(ls, i as int, fi),
        decreases bounds@.len() - i,
    {
        let (lo, hi) = bounds[i];
        proof {
            assert(v@.subrange(bounds@[i as int].0 as int, bounds@[i as int].1 as int) == ls[i as int]);
            lemma_count_where_bounded(ls, i as int, ft);
            lemma_count_where_bounded(ls, i as int, fd);
            lemma_count_where_bounded(ls, i as int, fi);
        }
        let is_test = ends_with_at(v.as_slice(), lo, hi, suffix.as_slice());
        if is_test {
            total = total + 1;
            if contains_at(v.as_slice(), lo, hi, tests_mark.as_slice()) && contains_at(
                v.as_slice(),
                lo,
                hi,
                example_mark.as_slice(),
            ) {
                ignored = ignored + 1;
            }
        }
        if contains_at(v.as_slice(), lo, hi, doctest_mark.as_slice()) {
            doctests = doctests + 1;
        }
        i = i + 1;
    }
    TestListing { total_tests: total, doctests, ignored_examples: ignored }
}


/// The arguments of `measure-tests`: where to write the measurements, and
/// the command to time (empty for the default set).
pub struct MeasureOptions {
    pub json_path: Option<String>,
    pub command: Vec<String>,
}

/// The JSON path and command words that `args[i..]` leave, starting from
/// `path` and `command`, or the first error.
pub open spec fn measure_args_from(
    args: Seq<Seq<char>>,
    i: int,
    path: Option<Seq<char>>,
    command: Seq<Seq<char>>,
) -> Result<(Option<Seq<char>>, Seq<Seq<char>>), Seq<char>>
    decreases args.len() - i,
{
    if i < 0 || i >= args.len() {
        Ok((path, command))
    } else if args[i] == "--json"@ {
        if i + 1 >= args.len() {
            Err("--json needs a path"@)
        } else {
            measure_args_from(args, i + 2, Some(args[i + 1]), command)
        }
    } else {
        measure_args_from(args, i + 1, path, command.push(args[i]))
    }
}

/// Parses the arguments of `measure-tests`.
pub fn measure_options(args: &[String]) -> (r: Result<MeasureOptions, String>)
    ensures
        match measure_args_from(path_texts(args@), 0, None, Seq::empty()) {
            Ok((path, command)) => r matches Ok(o) && path_texts(o.command@) == command && match o.json_path {
                Some(p) => path == Some(p@),
                None => path is None,
            },
            Err(e) => r matches Err(m) && m@ == e,
        },
{
    let ghost a = path_texts(args@);
    let mut json_path: Option<String> = None;
    let mut command: Vec<String> = Vec::new();
    proof {
        assert(path_texts(command@) =~= Seq::<Seq<char>>::empty());
    }
    let mut index: usize = 0;
    while index < args.len()
        invariant
            index <= args@.len(),
            a == path_texts(args@),
            measure_args_from(a, 0, None, Seq::empty()) == measure_args_from(
                a,
                index as int,
                match json_path {
                    Some(p) => Some(p@),
                    None => None,
                },
                path_texts(command@),
            ),
        decreases args@.len() - index,
    {
        if is_text(&args[index], "--json") {
            if index + 1 >= args.len() {
                return Err(owned("--json needs a path"));
            }
            index = index + 1;
            json_path = Some(owned(args[index].as_str()));
        } else {
            push_arg(&mut command, args[index].as_str());
        }
        index = index + 1;
    }
    Ok(MeasureOptions { json_path, command })
}

/// The commands `measure-tests` times when given none: the macro, core and
/// runtime package tests and the workspace tests.
pub open spec fn spec_default_measure_commands() -> Seq<Seq<Seq<char>>> {
    seq![
        seq!["cargo"@, "test"@, "-p"@, "gust-macros"@],
        seq!["cargo"@, "test"@, "-p"@, "gust"@, "--lib"@],
        seq!["cargo"@, "test"@, "-p"@, "gust-wgpu"@],
        seq!["cargo"@] + spec_workspace_test_args(),
    ]
}

pub open spec fn command_texts(commands: Seq<Vec<String>>) -> Seq<Seq<Seq<char>>> {
    Seq::new(commands.len(), |i: int| path_texts(commands[i]@))
}

/// The commands `measure-tests` times when given none.
pub fn default_measure_commands() -> (r: Vec<Vec<String>>)
    ensures
        command_texts(r@) == spec_default_measure_commands(),
{
    let workspace_args = workspace_test_args();
    let mut workspace = words1("cargo");
    let mut i: usize = 0;
    while i < workspace_args.len()
        invariant
            i <= workspace_args@.len(),
            path_texts(workspace_args@) == spec_workspace_test_args(),
            path_texts(workspace@) == seq!["cargo"@] + spec_workspace_test_args().subrange(0, i as int),
        decreases workspace_args@.len() - i,
    {
        push_arg(&mut workspace, workspace_args[i].as_str());
        proof {
            assert(path_texts(workspace_args@)[i as int] == workspace_args@[i as int]@);
            assert(spec_workspace_test_args().subrange(0, i + 1) =~= spec_workspace_test_args().subrange(
                0,
                i as int,
            ).push(spec_workspace_test_args()[i as int]));
            assert(path_texts(workspace@) =~= seq!["cargo"@] + spec_workspace_test_args().subrange(
                0,
                i + 1,
            ));
        }
        i = i + 1;
    }
    proof {
        assert(spec_workspace_test_args().subrange(0, workspace_args@.len() as int) =~= spec_workspace_test_args());
    }
    let mut r: Vec<Vec<String>> = Vec::new();
    r.push(words4("cargo", "test", "-p", "gust-macros"));
    r.push(words5("cargo", "test", "-p", "gust", "--lib"));
    r.push(words4("cargo", "test", "-p", "gust-wgpu"));
    r.push(workspace);
    proof {
        assert(command_texts(r@) =~= spec_default_measure_commands());
    }
    r
}


/// `a` comes before `b` in lexicographic order of their characters, which
/// is the byte order of their UTF-8 encodings (`String`'s `Ord`).
pub open spec fn text_lt(a: Seq<char>, b: Seq<char>) -> bool
    decreases a.len(),
{
    if a.len() == 0 {
        b.len() > 0
    } else if b.len() == 0 {
        false
    } else if a[0] != b[0] {
        a[0] < b[0]
    } else {
        text_lt(a.drop_first(), b.drop_first())
    }
}

/// No text comes before itself.
pub proof fn lemma_text_lt_irreflexive(a: Seq<char>)
    ensures
        !text_lt(a, a),
    decreases a.len(),
{
    if a.len() > 0 {
        lemma_text_lt_irreflexive(a.drop_first());
    }
}

/// The order of texts is transitive.
pub proof fn lemma_text_lt_transitive(a: Seq<char>, b: Seq<char>, c: Seq<char>)
    requires
        text_lt(a, b),
        text_lt(b, c),
    ensures
        text_lt(a, c),
    decreases a.len(),
{
    if a.len() > 0 && b.len() > 0 && c.len() > 0 && a[0] == b[0] && b[0] == c[0] {
        lemma_text_lt_transitive(a.drop_first(), b.drop_first(), c.drop_first());
    }
}

/// Of two different texts, one comes before the other.
pub proof fn lemma_text_lt_total(a: Seq<char>, b: Seq<char>)
    requires
        a != b,
    ensures
        text_lt(a, b) || text_lt(b, a),
    decreases a.len(),
{
    if a.len() > 0 && b.len() > 0 && a[0] == b[0] {
        if a.drop_first() == b.drop_first() {
            assert(a =~= seq![a[0]] + a.drop_first());
            assert(b =~= seq![b[0]] + b.drop_first());
        }
        lemma_text_lt_total(a.drop_first(), b.drop_first());
    } else if a.len() == 0 && b.len() == 0 {
        assert(a =~= b);
    }
}

/// Whether `a` comes before `b`.
fn text_less(a: &Vec<char>, b: &Vec<char>) -> (r: bool)
    ensures
        r == text_lt(a@, b@),
{
    let mut i: usize = 0;
    proof {
        assert(a@.subrange(0, a@.len() as int) =~= a@);
        assert(b@.subrange(0, b@.len() as int) =~= b@);
    }
    while i < a.len() && i < b.len() && a[i] == b[i]
        invariant
            i <= a@.len(),
            i <= b@.len(),
            text_lt(a@, b@) == text_lt(a@.subrange(i as int, a@.len() as int), b@.subrange(i as int, b@.len() as int)),
        decreases a@.len() - i,
    {
        proof {
            let x = a@.subrange(i as int, a@.len() as int);
            let y = b@.subrange(i as int, b@.len() as int);
            assert(x.drop_first() =~= a@.subrange(i + 1, a@.len() as int));
            assert(y.drop_first() =~= b@.subrange(i + 1, b@.len() as int));
        }
        i = i + 1;
    }
    if i == a.len() {
        i < b.len()
    } else if i == b.len() {
        false
    } else {
        a[i] < b[i]
    }
}

/// All strictly in order.
pub open spec fn strictly_sorted(ps: Seq<Seq<char>>) -> bool {
    forall|i: int, j: int| 0 <= i < j < ps.len() ==> text_lt(#[trigger] ps[i], #[trigger] ps[j])
}

/// `t` with each backslash turned into a slash.
pub open spec fn forward_slashes(t: Seq<char>) -> Seq<char> {
    Seq::new(t.len(), |i: int| if t[i] == '\\' { '/' } else { t[i] })
}

/// A line of `git` output as a path: trimmed, with forward slashes.
pub open spec fn normalized_path(line: Seq<char>) -> Seq<char> {
    forward_slashes(trim(line))
}

/// `p` is a nonempty path on some line of some of the outputs.
pub open spec fn is_changed_path(outputs: Seq<Seq<char>>, p: Seq<char>) -> bool {
    p.len() > 0 && exists|i: int, j: int|
        0 <= i < outputs.len() && 0 <= j < lines(outputs[i]).len() && #[trigger] normalized_path(lines(outputs[i])[j]) == p
}

/// Inserts `p` into the strictly sorted `r` unless it is there.
fn insert_sorted(r: &mut Vec<String>, p: String)
    requires
        strictly_sorted(path_texts(old(r)@)),
    ensures
        strictly_sorted(path_texts(final(r)@)),
        forall|x: Seq<char>| path_texts(final(r)@).contains(x) <==> (path_texts(old(r)@).contains(x) || x == p@),
{
    let ghost old_texts = path_texts(r@);
    let pv = chars_of(p.as_str());
    let mut i: usize = 0;
    while i < r.len()
        invariant
            i <= r@.len(),
            r@ == old(r)@,
            old_texts == path_texts(r@),
            pv@ == p@,
            strictly_sorted(old_texts),
            forall|k: int| 0 <= k < i ==> text_lt(#[trigger] old_texts[k], p@),
        ensures
            i <= r@.len(),
            r@ == old(r)@,
            forall|k: int| 0 <= k < i ==> text_lt(#[trigger] old_texts[k], p@),
            i < r@.len() ==> text_lt(p@, old_texts[i as int]),
        decreases r@.len() - i,
    {
        let cv = chars_of(r[i].as_str());
        proof {
            assert(old_texts[i as int] == r@[i as int]@);
        }
        if equals_at(cv.as_slice(), 0, cv.len(), pv.as_slice()) {
            proof {
                assert(cv@.subrange(0, cv@.len() as int) =~= cv@);
                assert(old_texts.contains(p@)) by {
                    assert(old_texts[i as int] == p@);
                }
            }
            return;
        }
        proof {
            assert(cv@.subrange(0, cv@.len() as int) =~= cv@);
        }
        if text_less(&pv, &cv) {
            break;
        }
        proof {
            lemma_text_lt_total(old_texts[i as int], p@);
        }
        i = i + 1;
    }
    proof {
        if i < r@.len() {
            assert(text_lt(p@, old_texts[i as int]));
            assert forall|k: int| i <= k < old_texts.len() implies text_lt(p@, #[trigger] old_texts[k]) by {
                if k > i {
                    lemma_text_lt_transitive(p@, old_texts[i as int], old_texts[k]);
                }
            }
        }
    }
    r.insert(i, p);
    proof {
        let t = path_texts(r@);
        assert(t =~= old_texts.insert(i as int, p@));
        assert forall|a: int, b: int| 0 <= a < b < t.len() implies text_lt(#[trigger] t[a], #[trigger] t[b]) by {
            if b < i {
            } else if a < i && b == i {
            } else if a < i && b > i {
                lemma_text_lt_transitive(old_texts[a], p@, old_texts[b - 1]);
            } else if a == i {
            } else {
            }
        }
        assert forall|x: Seq<char>| t.contains(x) <==> (old_texts.contains(x) || x == p@) by {
            if t.contains(x) {
                let k = choose|k: int| 0 <= k < t.len() && t[k] == x;
                if k < i {
                    assert(old_texts[k] == x);
                } else if k > i {
                    assert(old_texts[k - 1] == x);
                }
            }
            if old_texts.contains(x) {
                let k = choose|k: int| 0 <= k < old_texts.len() && old_texts[k] == x;
                if k < i {
                    assert(t[k] == x);
                } else {
                    assert(t[k + 1] == x);
                }
            }
            if x == p@ {
                assert(t[i as int] == x);
            }
        }
    }
}

/// `t` with each backslash turned into a slash, as a new string.
fn with_forward_slashes(v: &Vec<char>, lo: usize, hi: usize) -> (r: String)
    requires
        lo <= hi <= v@.len(),
    ensures
        r@ == forward_slashes(v@.subrange(lo as int, hi as int)),
{
    let mut r = String::new();
    let mut i = lo;
    while i < hi
        invariant
            lo <= i <= hi <= v@.len(),
            r@ == forward_slashes(v@.subrange(lo as int, i as int)),
        decreases hi - i,
    {
        if v[i] == '\\' {
            push_char(&mut r, '/');
        } else {
            push_char(&mut r, v[i]);
        }
        proof {
            assert(r@ =~= forward_slashes(v@.subrange(lo as int, i + 1)));
        }
        i = i + 1;
    }
    r
}

/// The changed paths that `git` printed, one per line in each of
/// `outputs`: trimmed, with forward slashes, the empty ones dropped, each
/// once, in order.
pub fn changed_paths(outputs: &[String]) -> (r: Vec<String>)
    ensures
        strictly_sorted(path_texts(r@)),
        forall|p: Seq<char>| path_texts(r@).contains(p) <==> is_changed_path(path_texts(outputs@), p),
{
    let ghost outs = path_texts(outputs@);
    let mut paths: Vec<String> = Vec::new();
    proof {
        assert(path_texts(paths@) =~= Seq::<Seq<char>>::empty());
    }
    let mut i: usize = 0;
    while i < outputs.len()
        invariant
            i <= outputs@.len(),
            outs == path_texts(outputs@),
            strictly_sorted(path_texts(paths@)),
            forall|p: Seq<char>| path_texts(paths@).contains(p) <==> (p.len() > 0 && exists|a: int, b: int|
                0 <= a < i && 0 <= b < lines(outs[a]).len() && #[trigger] normalized_path(lines(outs[a])[b]) == p),
        decreases outputs@.len() - i,
    {
        let v = chars_of(outputs[i].as_str());
        let bounds = line_bounds(v.as_slice());
        proof {
            assert(outs[i as int] == outputs@[i as int]@);
        }
        let mut j: usize = 0;
        while j < bounds.len()
            invariant
                i < outputs@.len(),
                outs == path_texts(outputs@),
                v@ == outs[i as int],
                bounds@.len() == lines(v@).len(),
                forall|k: int| 0 <= k < bounds@.len() ==> (#[trigger] bounds@[k]).0 <= bounds@[k].1 <= v@.len(),
                forall|k: int| 0 <= k < bounds@.len() ==> #[trigger] v@.subrange(bounds@[k].0 as int, bounds@[k].1 as int) == lines(v@)[k],
                j <= bounds@.len(),
                strictly_sorted(path_texts(paths@)),
                forall|p: Seq<char>| path_texts(paths@).contains(p) <==> (p.len() > 0 && ((exists|a: int, b: int|
                    0 <= a < i && 0 <= b < lines(outs[a]).len() && #[trigger] normalized_path(lines(outs[a])[b]) == p)
                    || exists|b: int| 0 <= b < j && #[trigger] normalized_path(lines(outs[i as int])[b]) == p)),
            decreases bounds@.len() - j,
        {
            let (lo, hi) = bounds[j];
            let (a, b) = trim_bounds(v.as_slice(), lo, hi);
            let path = with_forward_slashes(&v, a, b);
            proof {
                assert(v@.subrange(bounds@[j as int].0 as int, bounds@[j as int].1 as int) == lines(v@)[j as int]);
                assert(path@ == normalized_path(lines(outs[i as int])[j as int]));
            }
            if a < b {
                let ghost before = path_texts(paths@);
                insert_sorted(&mut paths, path);
            }
            proof {
                assert forall|p: Seq<char>| path_texts(paths@).contains(p) <==> (p.len() > 0 && ((exists|a: int, b: int|
                    0 <= a < i && 0 <= b < lines(outs[a]).len() && #[trigger] normalized_path(lines(outs[a])[b]) == p)
                    || exists|b: int| 0 <= b < j + 1 && #[trigger] normalized_path(lines(outs[i as int])[b]) == p)) by {
                    if p == normalized_path(lines(outs[i as int])[j as int]) {
                        assert(normalized_path(lines(outs[i as int])[j as int]) == p);
                    }
                    if exists|b: int| 0 <= b < j + 1 && #[trigger] normalized_path(lines(outs[i as int])[b]) == p {
                        let b = choose|b: int| 0 <= b < j + 1 && #[trigger] normalized_path(lines(outs[i as int])[b]) == p;
                        if b < j {
                            assert(exists|b: int| 0 <= b < j && #[trigger] normalized_path(lines(outs[i as int])[b]) == p);
                        }
                    }
                }
            }
            j = j + 1;
        }
        proof {
            assert forall|p: Seq<char>| path_texts(paths@).contains(p) <==> (p.len() > 0 && exists|a: int, b: int|
                0 <= a < i + 1 && 0 <= b < lines(outs[a]).len() && #[trigger] normalized_path(lines(outs[a])[b]) == p) by {
                if p.len() > 0 && exists|a: int, b: int|
                    0 <= a < i + 1 && 0 <= b < lines(outs[a]).len() && #[trigger] normalized_path(lines(outs[a])[b]) == p {
                    let (a, b) = choose|a: int, b: int|
                        0 <= a < i + 1 && 0 <= b < lines(outs[a]).len() && #[trigger] normalized_path(lines(outs[a])[b]) == p;
                    if a == i {
                        assert(exists|b: int| 0 <= b < bounds@.len() && #[trigger] normalized_path(lines(outs[i as int])[b]) == p);
                    } else {
                        assert(exists|a: int, b: int|
                            0 <= a < i && 0 <= b < lines(outs[a]).len() && #[trigger] normalized_path(lines(outs[a])[b]) == p);
                    }
                }
            }
        }
        i = i + 1;
    }
    paths
}


/// The index of the first of `ls[from..]` that starts with `p`.
pub open spec fn first_line_with_prefix(ls: Seq<Seq<char>>, p: Seq<char>, from: int) -> Option<int>
    decreases ls.len() - from,
{
    if from < 0 || from >= ls.len() {
        None
    } else if has_prefix(ls[from], p) {
        Some(from)
    } else {
        first_line_with_prefix(ls, p, from + 1)
    }
}

/// The end of the block that starts at line `from`: just after the first
/// line from there on that is a closing fence, or the end of the text.
pub open spec fn fence_end(ls: Seq<Seq<char>>, from: int) -> int
    decreases ls.len() - from,
{
    if from < 0 || from >= ls.len() {
        ls.len() as int
    } else if ls[from] == "```"@ {
        from + 1
    } else {
        fence_end(ls, from + 1)
    }
}

/// What `status` shows of the status document: its first `## Active:`
/// line, and its first `text` code block, fences included.
pub open spec fn spec_status_excerpt(text: Seq<char>) -> (Option<Seq<char>>, Seq<Seq<char>>) {
    let ls = lines(text);
    (
        match first_line_with_prefix(ls, "## Active:"@, 0) {
            Some(i) => Some(ls[i]),
            None => None,
        },
        match first_line_with_prefix(ls, "```text"@, 0) {
            Some(s) => ls.subrange(s, fence_end(ls, s)),
            None => Seq::empty(),
        },
    )
}

/// The first line of `v` (given by its line bounds) that starts with `p`,
/// from line `from` on.
fn find_line_with_prefix(v: &Vec<char>, bounds: &Vec<(usize, usize)>, p: &str) -> (r: Option<usize>)
    requires
        bounds@.len() == lines(v@).len(),
        forall|k: int| 0 <= k < bounds@.len() ==> (#[trigger] bounds@[k]).0 <= bounds@[k].1 <= v@.len(),
        forall|k: int| 0 <= k < bounds@.len() ==> #[trigger] v@.subrange(bounds@[k].0 as int, bounds@[k].1 as int) == lines(v@)[k],
    ensures
        match r {
            Some(i) => i < bounds@.len() && first_line_with_prefix(lines(v@), p@, 0) == Some(i as int),
            None => first_line_with_prefix(lines(v@), p@, 0) is None,
        },
{
    let pv = chars_of(p);
    let mut i: usize = 0;
    while i < bounds.len()
        invariant
            i <= bounds@.len(),
            pv@ == p@,
            bounds@.len() == lines(v@).len(),
            forall|k: int| 0 <= k < bounds@.len() ==> (#[trigger] bounds@[k]).0 <= bounds@[k].1 <= v@.len(),
            forall|k: int| 0 <= k < bounds@.len() ==> #[trigger] v@.subrange(bounds@[k].0 as int, bounds@[k].1 as int) == lines(v@)[k],
            first_line_with_prefix(lines(v@), p@, 0) == first_line_with_prefix(lines(v@), p@, i as int),
        decreases bounds@.len() - i,
    {
        let (lo, hi) = bounds[i];
        proof {
            assert(v@.subrange(bounds@[i as int].0 as int, bounds@[i as int].1 as int) == lines(v@)[i as int]);
        }
        if starts_with_at(v.as_slice(), lo, hi, pv.as_slice()) {
            return Some(i);
        }
        i = i + 1;
    }
    None
}

/// What `status` shows of the status document.
pub fn status_excerpt(text: &str) -> (r: (Option<String>, Vec<String>))
    ensures
        ({
            let (active, block) = spec_status_excerpt(text@);
            &&& match r.0 {
                Some(a) => active == Some(a@),
                None => active is None,
            }
            &&& path_texts(r.1@) == block
        }),
{
    let v = chars_of(text);
    let bounds = line_bounds(v.as_slice());
    let ghost ls = lines(v@);
    let active = match find_line_with_prefix(&v, &bounds, "## Active:") {
        Some(i) => {
            let (lo, hi) = bounds[i];
            proof {
                assert(v@.subrange(bounds@[i as int].0 as int, bounds@[i as int].1 as int) == ls[i as int]);
            }
            Some(string_of(v.as_slice(), lo, hi))
        },
        None => None,
    };
    let mut block: Vec<String> = Vec::new();
    proof {
        assert(path_texts(block@) =~= Seq::<Seq<char>>::empty());
    }
    match find_line_with_prefix(&v, &bounds, "```text") {
        Some(s) => {
            let fence = chars_of("```");
            let mut i = s;
            loop
                invariant_except_break
                    fence_end(ls, s as int) == fence_end(ls, i as int),
                invariant
                    s <= i <= bounds@.len(),
                    s < bounds@.len(),
                    fence@ == "```"@,
                    ls == lines(v@),
                    bounds@.len() == ls.len(),
                    forall|k: int| 0 <= k < bounds@.len() ==> (#[trigger] bounds@[k]).0 <= bounds@[k].1 <= v@.len(),
                    forall|k: int| 0 <= k < bounds@.len() ==> #[trigger] v@.subrange(bounds@[k].0 as int, bounds@[k].1 as int) == ls[k],
                    path_texts(block@) == ls.subrange(s as int, i as int),
                ensures
                    path_texts(block@) == ls.subrange(s as int, fence_end(ls, s as int)),
                decreases bounds@.len() - i,
            {
                if i >= bounds.len() {
                    break;
                }
                let (lo, hi) = bounds[i];
                proof {
                    assert(v@.subrange(bounds@[i as int].0 as int, bounds@[i as int].1 as int) == ls[i as int]);
                }
                let line = string_of(v.as_slice(), lo, hi);
                let closing = equals_at(v.as_slice(), lo, hi, fence.as_slice());
                let ghost prev = path_texts(block@);
                block.push(line);
                proof {
                    assert(path_texts(block@) =~= prev.push(line@));
                    assert(path_texts(block@) =~= ls.subrange(s as int, i + 1));
                }
                i = i + 1;
                if closing {
                    break;
                }
            }
        },
        None => {},
    }
    (active, block)
}

} // verus!
