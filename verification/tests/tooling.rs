use gust::tooling::{
    BuildOptions, ChangedCheck, FeatureStep, VerifyCommand, VerifyMode, VerifyStep, changed_paths, check_artifact_count, command_failure, count_listed_tests, default_measure_commands, explain_check, feature_steps, hook_wants_format, measure_options, quote_cmd_args, require_command, select_changed_checks, slang_libraries, status_excerpt, unix_compile_args, vcvars_command, verify_steps, windows_compile_args, workspace_test_args,
};

fn select(paths: &[&str]) -> Vec<ChangedCheck> {
    select_changed_checks(
        &paths
            .iter()
            .map(|path| (*path).to_owned())
            .collect::<Vec<_>>(),
    )
}

#[test]
fn reflection_module_keeps_native_contract_checks() {
    assert_eq!(
        select(&["crates/gust/src/reflect/mod.rs"]),
        vec![ChangedCheck::Feature("reflection")]
    );
}

#[test]
fn mixed_loop_and_pool_changes_keep_both_scopes() {
    assert_eq!(
        select(&["tests/fixtures/loops.slang", "crates/gust-wgpu/src/pool.rs"]),
        vec![
            ChangedCheck::Feature("loops"),
            ChangedCheck::Feature("wgpu")
        ]
    );
}

#[test]
fn macro_changes_do_not_mask_ignored_example_tests() {
    assert_eq!(
        select(&[
            "crates/gust-macros/src/slang/mod.rs",
            "examples/component-pool/src/app.rs"
        ]),
        vec![
            ChangedCheck::Feature("macro"),
            ChangedCheck::Feature("examples")
        ]
    );
}

#[test]
fn no_changes_select_nothing() {
    assert_eq!(select(&[]), Vec::<ChangedCheck>::new());
}

#[test]
fn tooling_changes_select_only_the_fast_check() {
    assert_eq!(
        select(&["crates/gust-macros/src/lib.rs", "xtask/src/main.rs"]),
        vec![ChangedCheck::Fast]
    );
    assert_eq!(select(&["Cargo.lock"]), vec![ChangedCheck::Fast]);
}

#[test]
fn unrouted_changes_fall_back_to_the_workspace_check() {
    assert_eq!(select(&["docs/README.md"]), vec![ChangedCheck::Workspace]);
}

#[test]
fn core_changes_outside_reflection_select_core() {
    assert_eq!(
        select(&["crates/gust/src/runtime.rs"]),
        vec![ChangedCheck::Feature("core")]
    );
    assert_eq!(
        select(&["crates/gust/src/runtime.rs", "crates/gust/tests/reflection.rs"]),
        vec![ChangedCheck::Feature("reflection")]
    );
}

#[test]
fn verify_modes_round_trip_and_ignore_case() {
    for mode in [
        VerifyMode::Smoke,
        VerifyMode::Fast,
        VerifyMode::Gpu,
        VerifyMode::Examples,
        VerifyMode::Artifacts,
        VerifyMode::Full,
    ] {
        assert_eq!(VerifyMode::from_name(mode.as_str()).unwrap(), mode);
    }
    assert_eq!(VerifyMode::from_name("FuLL").unwrap(), VerifyMode::Full);
    assert_eq!(VerifyMode::from_name("nope").unwrap_err(), "unknown verify mode `nope`");
}

fn strings(words: &[&str]) -> Vec<String> {
    words.iter().map(|word| (*word).to_owned()).collect()
}

#[test]
fn verify_command_parsing() {
    let default = VerifyCommand::parse(&[]).unwrap();
    assert_eq!((default.mode, default.record), (VerifyMode::Smoke, false));
    let full = VerifyCommand::parse(&strings(&["--full"])).unwrap();
    assert_eq!((full.mode, full.record), (VerifyMode::Full, true));
    let unrecorded = VerifyCommand::parse(&strings(&["--mode", "full", "--no-record"])).unwrap();
    assert_eq!((unrecorded.mode, unrecorded.record), (VerifyMode::Full, false));
    let recorded = VerifyCommand::parse(&strings(&["gpu", "--record"])).unwrap();
    assert_eq!((recorded.mode, recorded.record), (VerifyMode::Gpu, true));
    assert_eq!(
        VerifyCommand::parse(&strings(&["--mode"])).err().unwrap(),
        "--mode needs a value"
    );
    assert_eq!(
        VerifyCommand::parse(&strings(&["--bogus"])).err().unwrap(),
        "unknown verify mode `--bogus`"
    );
}

#[test]
fn build_options_parsing() {
    let options = BuildOptions::parse(&strings(&["--force", "--sdk-root", "/sdk", "-OutputDirectory", "out"])).unwrap();
    assert!(options.force);
    assert_eq!(options.sdk_root.as_deref(), Some("/sdk"));
    assert_eq!(options.out_dir.as_deref(), Some("out"));
    assert_eq!(BuildOptions::parse(&strings(&["--out-dir"])).err().unwrap(), "--out-dir needs a path");
    assert_eq!(
        BuildOptions::parse(&strings(&["--fast"])).err().unwrap(),
        "unknown build-slang-reflect option `--fast`"
    );
}

#[test]
fn feature_areas_map_to_their_steps() {
    let steps = feature_steps(Some("reflection")).unwrap();
    assert_eq!(steps.len(), 3);
    assert!(matches!(steps[0], FeatureStep::BuildReflect));
    match &steps[1] {
        FeatureStep::Cargo(args) => assert_eq!(args, &strings(&["test", "-p", "gust", "--test", "reflection"])),
        _ => panic!("expected a cargo step"),
    }
    assert_eq!(feature_steps(Some("gpu-semantics")).unwrap().len(), 6);
    assert!(matches!(
        feature_steps(Some("full")).unwrap()[0],
        FeatureStep::Verify(VerifyMode::Full, true)
    ));
    assert_eq!(feature_steps(None).err().unwrap(), "check-feature needs an area");
    assert_eq!(feature_steps(Some("nope")).err().unwrap(), "unknown feature area `nope`");
}

#[test]
fn verify_steps_follow_the_mode() {
    let gpu = verify_steps(VerifyMode::Gpu);
    assert_eq!(gpu.len(), 7);
    assert!(matches!(gpu[0], VerifyStep::Require("cargo")));
    match &gpu[6] {
        VerifyStep::Run(program, args) => {
            assert_eq!(*program, "cargo");
            assert_eq!(args, &strings(&["test", "-p", "gpu-dialect-wgpu"]));
        }
        _ => panic!("expected the runtime tests"),
    }
    let full = verify_steps(VerifyMode::Full);
    assert!(matches!(full[3], VerifyStep::Require("spirv-val")));
    assert!(matches!(full.last().unwrap(), VerifyStep::ValidateArtifacts));
    let smoke = verify_steps(VerifyMode::Smoke);
    match smoke.last().unwrap() {
        VerifyStep::Run(_, args) => assert_eq!(args, &strings(&["run", "--quiet", "-p", "typed-pipeline"])),
        _ => panic!("expected an example run"),
    }
}

#[test]
fn workspace_tests_exclude_every_example() {
    let args = workspace_test_args();
    assert_eq!(args.len(), 18);
    assert_eq!(&args[..4], &strings(&["test", "--workspace", "--exclude", "atomic-counter"])[..]);
    assert_eq!(args.last().unwrap(), "component-pool");
}

#[test]
fn explanations_and_unknown_areas() {
    assert_eq!(explain_check(Some("format")).unwrap(), "format: rustfmt only");
    assert!(explain_check(None).unwrap().starts_with("known areas: macro"));
    assert_eq!(explain_check(Some("x")).err().unwrap(), "unknown check area `x`");
}

#[test]
fn command_texts() {
    assert_eq!(
        command_failure("cargo", &strings(&["test", "-p", "x"]), Some(101)),
        "cargo test -p x failed (exit 101)"
    );
    assert_eq!(command_failure("git", &[], None), "git  failed (exit -1)");
    assert_eq!(quote_cmd_args(&strings(&["a b", "say \"hi\""])), "\"a b\" \"say \\\"hi\\\"\"");
    assert!(require_command(true, "cargo").is_ok());
    assert_eq!(
        require_command(false, "slangc").unwrap_err(),
        "required command `slangc` was not found on PATH"
    );
    assert!(check_artifact_count(12).is_ok());
    assert_eq!(
        check_artifact_count(11).unwrap_err(),
        "Expected 12 exported kernels, found 11; update this check deliberately for new examples."
    );
}

#[test]
fn compile_arguments() {
    assert_eq!(
        unix_compile_args("/i", "s.cpp", "/l/libslang.so", "/l", "out"),
        strings(&["-std=c++17", "-Wall", "-Wextra", "-Werror", "-I/i", "s.cpp", "/l/libslang.so", "-Wl,-rpath,/l", "-o", "out"])
    );
    assert_eq!(
        windows_compile_args("C:\\i", "s.cpp", "o.obj", "o.exe", "slang.lib")[5..9].to_vec(),
        strings(&["/IC:\\i", "s.cpp", "/Foo.obj", "/Feo.exe"])
    );
    assert_eq!(vcvars_command("v.bat", &strings(&["/nologo"])), "\"v.bat\" && cl \"/nologo\"");
    assert_eq!(slang_libraries(false, true), strings(&["libslang-compiler.dylib", "libslang.dylib"]));
}

#[test]
fn edit_hook_and_test_listing() {
    assert!(hook_wants_format("{\"hook\":\"PostToolUse\",\"tool\":\"apply_patch\",\"file\":\"a.rs\"}"));
    assert!(!hook_wants_format("{\"hook\":\"PostToolUse\",\"tool\":\"read_file\",\"file\":\"a.rs\"}"));
    assert!(!hook_wants_format("{\"hook\":\"PreToolUse\",\"tool\":\"edit_file\",\"file\":\"a.rs\"}"));
    let listing = count_listed_tests(
        "a::tests::one: test\nexamples::tests::example validation run: test\nsrc/lib.rs - (line 3): test\nnot a test\n",
    );
    assert_eq!((listing.total_tests, listing.doctests, listing.ignored_examples), (3, 1, 1));
}

#[test]
fn measure_arguments_and_defaults() {
    let options = measure_options(&strings(&["cargo", "--json", "m.json", "test"])).unwrap();
    assert_eq!(options.json_path.as_deref(), Some("m.json"));
    assert_eq!(options.command, strings(&["cargo", "test"]));
    assert_eq!(measure_options(&strings(&["--json"])).err().unwrap(), "--json needs a path");
    let defaults = default_measure_commands();
    assert_eq!(defaults.len(), 4);
    assert_eq!(defaults[1], strings(&["cargo", "test", "-p", "gust", "--lib"]));
    assert_eq!(defaults[3].len(), 19);
}

#[test]
fn changed_paths_are_normalised_deduplicated_and_sorted() {
    let outputs = strings(&["src\\b.rs\n  a.rs \n\n", "a.rs\nsrc/b.rs\nc.rs\r\n"]);
    assert_eq!(changed_paths(&outputs), strings(&["a.rs", "c.rs", "src/b.rs"]));
    assert!(changed_paths(&[]).is_empty());
}

#[test]
fn status_shows_active_line_and_text_block() {
    let (active, block) = status_excerpt("# Status\n## Active: loops\nintro\n```text\nline one\n```\nafter\n");
    assert_eq!(active.as_deref(), Some("## Active: loops"));
    assert_eq!(block, strings(&["```text", "line one", "```"]));
    let (none, empty) = status_excerpt("nothing here\n");
    assert!(none.is_none() && empty.is_empty());
}
