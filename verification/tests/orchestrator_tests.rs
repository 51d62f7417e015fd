use kernel_build::flags::Profile;
use kernel_build::fs_tree::FsNode;
use kernel_build::orchestrator::BuildRun;
use kernel_build::stage::{kernel_stages, StageDescriptor, StageRoot};
use kernel_build::toolchain::{stage_result, BuildResult, CompileOutcome, CompileRequest, FailureCause};

fn file(name: &str) -> FsNode {
    FsNode::File { name: name.to_string() }
}

fn dir(name: &str, entries: Vec<FsNode>) -> FsNode {
    FsNode::Dir { name: name.to_string(), entries }
}

fn segs(parts: &[&str]) -> Vec<String> {
    parts.iter().map(|p| p.to_string()).collect()
}

fn stage(
    name: &str,
    roots: &[(&[&str], bool)],
    exts: &[&str],
    artifact: &str,
    ordinal: usize,
    needs_revision: bool,
) -> StageDescriptor {
    StageDescriptor {
        name: name.to_string(),
        roots: roots
            .iter()
            .map(|(path, recurse)| StageRoot { path: segs(path), recurse: *recurse })
            .collect(),
        extensions: segs(exts),
        artifact: artifact.to_string(),
        ordinal,
        needs_revision,
    }
}

fn request_paths(req: &CompileRequest) -> Vec<Vec<String>> {
    req.files.iter().map(|f| f.path.clone()).collect()
}

#[test]
fn failure_in_a_stage_prevents_later_stages() {
    let fs = vec![
        dir("alpha", vec![file("x.c")]),
        dir("beta", vec![file("y.c")]),
    ];
    let stages = vec![
        stage("alpha-stage", &[(&["alpha"], false)], &["c"], "alpha", 0, false),
        stage("beta-stage", &[(&["beta"], false)], &["c"], "beta", 1, false),
    ];
    let mut run = BuildRun::new(stages, Profile::Release, None);
    let req = run.next_request(&fs).expect("first stage should get a request");
    assert_eq!(req.artifact, "alpha");
    run.record_outcome(CompileOutcome::Failed { diagnostic: "undefined symbol: kmain".to_string() });
    assert!(run.done());
    assert!(run.next_request(&fs).is_none());
    assert_eq!(run.results.len(), 1);
    match &run.results[0] {
        BuildResult::Failure { stage, cause } => {
            assert_eq!(stage, "alpha-stage");
            match cause {
                FailureCause::Toolchain { diagnostic } => {
                    assert_eq!(diagnostic, "undefined symbol: kmain");
                }
                c => panic!("wrong cause: {:?}", c),
            }
        }
        r => panic!("wrong result: {:?}", r),
    }
}

#[test]
fn end_to_end_staged_build() {
    let fs = vec![dir(
        "src",
        vec![
            dir(
                "cpp",
                vec![
                    dir("sys", vec![file("a.cc")]),
                    dir("ulib", vec![file("b.cc")]),
                    dir("dev", vec![dir("net", vec![file("c.cc")])]),
                ],
            ),
            file("boot.S"),
        ],
    )];
    let stages = vec![
        stage("sys-stage", &[(&["src", "cpp", "sys"], false)], &["cc"], "sys", 0, false),
        stage("ulib-stage", &[(&["src", "cpp", "ulib"], false)], &["cc"], "ulib", 1, false),
        stage("dev-stage", &[(&["src", "cpp", "dev"], true)], &["cc"], "dev", 2, false),
        stage(
            "implementations-stage",
            &[(&["src"], true)],
            &["cc", "S"],
            "implementations",
            3,
            true,
        ),
    ];
    let revision = "deadbee".to_string();
    let mut run = BuildRun::new(stages, Profile::Debug, Some(revision));
    let mut requests: Vec<CompileRequest> = Vec::new();
    while !run.done() {
        match run.next_request(&fs) {
            Some(req) => {
                requests.push(req);
                run.record_outcome(CompileOutcome::Succeeded);
            }
            None => break,
        }
    }
    assert_eq!(requests.len(), 4);
    assert_eq!(run.results.len(), 4);
    let artifact_names: Vec<&str> = run
        .results
        .iter()
        .map(|r| match r {
            BuildResult::Artifact { name } => name.as_str(),
            r => panic!("stage failed: {:?}", r),
        })
        .collect();
    assert_eq!(artifact_names, vec!["sys", "ulib", "dev", "implementations"]);

    assert_eq!(request_paths(&requests[0]), vec![segs(&["src", "cpp", "sys", "a.cc"])]);
    assert_eq!(request_paths(&requests[1]), vec![segs(&["src", "cpp", "ulib", "b.cc"])]);
    assert_eq!(request_paths(&requests[2]), vec![segs(&["src", "cpp", "dev", "net", "c.cc"])]);
    let final_paths = request_paths(&requests[3]);
    assert_eq!(final_paths.len(), 4);
    assert!(final_paths.contains(&segs(&["src", "cpp", "sys", "a.cc"])));
    assert!(final_paths.contains(&segs(&["src", "cpp", "ulib", "b.cc"])));
    assert!(final_paths.contains(&segs(&["src", "cpp", "dev", "net", "c.cc"])));
    assert!(final_paths.contains(&segs(&["src", "boot.S"])));

    for req in &requests {
        assert!(req.flags.contains(&"-ffreestanding".to_string()));
        assert!(req.flags.contains(&"-nostdlib".to_string()));
        assert!(req.flags.contains(&"-DDEBUG".to_string()));
    }
    for req in &requests[..3] {
        assert!(req.flags.iter().all(|f| !f.starts_with("-DG_HASH=")));
    }
    assert!(requests[3].flags.contains(&"-DG_HASH=deadbee".to_string()));
}

#[test]
fn missing_required_revision_fails_that_stage() {
    let fs = vec![dir("alpha", vec![file("x.c")])];
    let stages = vec![
        stage("alpha-stage", &[(&["alpha"], false)], &["c"], "alpha", 0, false),
        stage("link-stage", &[(&["alpha"], false)], &["c"], "kernel", 1, true),
    ];
    let mut run = BuildRun::new(stages, Profile::Release, None);
    let first = run.next_request(&fs).expect("stage without revision need must run");
    assert_eq!(first.artifact, "alpha");
    run.record_outcome(CompileOutcome::Succeeded);
    assert!(run.next_request(&fs).is_none());
    assert!(run.done());
    assert_eq!(run.results.len(), 2);
    assert!(matches!(&run.results[0], BuildResult::Artifact { name } if name == "alpha"));
    match &run.results[1] {
        BuildResult::Failure { stage, cause } => {
            assert_eq!(stage, "link-stage");
            assert!(matches!(cause, FailureCause::RevisionUnavailable));
        }
        r => panic!("wrong result: {:?}", r),
    }
}

#[test]
fn unreadable_root_fails_stage_and_names_the_root() {
    let fs = vec![
        dir("good", vec![file("x.c")]),
        dir("bad", vec![FsNode::Unreadable]),
    ];
    let stages = vec![stage(
        "both-stage",
        &[(&["good"], true), (&["bad"], true)],
        &["c"],
        "both",
        0,
        false,
    )];
    let mut run = BuildRun::new(stages, Profile::Release, None);
    assert!(run.next_request(&fs).is_none());
    assert!(run.done());
    match &run.results[0] {
        BuildResult::Failure { stage, cause } => {
            assert_eq!(stage, "both-stage");
            match cause {
                FailureCause::UnreadableNode { root } => assert_eq!(root, &segs(&["bad"])),
                c => panic!("wrong cause: {:?}", c),
            }
        }
        r => panic!("wrong result: {:?}", r),
    }
}

#[test]
fn stage_with_missing_root_requests_empty_compile() {
    let fs = vec![dir("present", vec![file("x.c")])];
    let stages = vec![stage("ghost-stage", &[(&["absent"], true)], &["c"], "ghost", 0, false)];
    let mut run = BuildRun::new(stages, Profile::Release, None);
    let req = run.next_request(&fs).expect("missing root is tolerated");
    assert!(req.files.is_empty());
    assert_eq!(req.artifact, "ghost");
    run.record_outcome(CompileOutcome::Succeeded);
    assert!(run.done());
    assert!(matches!(&run.results[0], BuildResult::Artifact { name } if name == "ghost"));
}

#[test]
fn kernel_registry_matches_declared_layout() {
    let stages = kernel_stages();
    assert_eq!(stages.len(), 1);
    let kernel = &stages[0];
    assert_eq!(kernel.name, "kernel");
    assert_eq!(kernel.artifact, "kernel");
    assert_eq!(kernel.ordinal, 0);
    assert!(kernel.needs_revision);
    assert_eq!(kernel.extensions, segs(&["cpp", "c", "S"]));
    let roots: Vec<(Vec<String>, bool)> =
        kernel.roots.iter().map(|r| (r.path.clone(), r.recurse)).collect();
    assert_eq!(
        roots,
        vec![
            (segs(&["src", "arch", "riscv64gc"]), true),
            (segs(&["src", "mem"]), true),
            (segs(&["src", "sys"]), true),
        ]
    );
}

#[test]
fn toolchain_report_folds_into_stage_result() {
    let ok = stage_result(&"s".to_string(), &"art".to_string(), CompileOutcome::Succeeded);
    assert!(matches!(&ok, BuildResult::Artifact { name } if name == "art"));
    let bad = stage_result(
        &"s".to_string(),
        &"art".to_string(),
        CompileOutcome::Failed { diagnostic: "error: exit 1".to_string() },
    );
    match &bad {
        BuildResult::Failure { stage, cause: FailureCause::Toolchain { diagnostic } } => {
            assert_eq!(stage, "s");
            assert_eq!(diagnostic, "error: exit 1");
        }
        r => panic!("wrong result: {:?}", r),
    }
}
