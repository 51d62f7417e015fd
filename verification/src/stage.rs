//! Stage descriptors: the declared, ordered table of compilation units.
//!
//! A stage names the roots it draws sources from (each walked recursively
//! or not), the extension filter, the artifact it produces, and its ordinal
//! position. The table is configuration: a later stage may use symbols from
//! an earlier stage's artifact, so the declared order is the build order.

use vstd::prelude::*;

verus! {

/// One source root of a stage: a directory path and whether its
/// subdirectories are walked too.
pub struct StageRoot {
    pub path: Vec<String>,
    pub recurse: bool,
}

/// One ordered unit of compilation, producing one artifact.
pub struct StageDescriptor {
    /// The stage's name, reported on failure.
    pub name: String,
    /// The source roots, drawn from in declaration order.
    pub roots: Vec<StageRoot>,
    /// Extensions of the files the stage compiles.
    pub extensions: Vec<String>,
    /// Name of the static artifact the stage produces.
    pub artifact: String,
    /// Position in the declared build order.
    pub ordinal: usize,
    /// Whether this stage's flags must carry the source revision define.
    pub needs_revision: bool,
}

/// A well-formed registry: ordinal positions strictly increase in declared
/// order, so the declared order is unambiguous.
pub open spec fn stages_ordered(stages: Seq<StageDescriptor>) -> bool {
    forall|i: int, j: int|
        0 <= i < j < stages.len() ==> #[trigger] stages[i].ordinal < #[trigger] stages[j].ordinal
}

/// The stage registry of the kernel image build: one stage drawing from the
/// architecture/boot tree, the memory-management tree and the system tree,
/// each walked recursively, compiled together into the `kernel` artifact.
/// The kernel stage embeds the source revision, so it requires one.
pub fn kernel_stages() -> (r: Vec<StageDescriptor>)
    ensures
        stages_ordered(r@),
        r@.len() == 1,
        r@[0].name@ == "kernel"@,
        r@[0].artifact@ == "kernel"@,
        r@[0].ordinal == 0,
        r@[0].needs_revision,
        r@[0].extensions.deep_view() == seq!["cpp"@, "c"@, "S"@],
        r@[0].roots@.len() == 3,
        r@[0].roots@[0].path.deep_view() == seq!["src"@, "arch"@, "riscv64gc"@],
        r@[0].roots@[1].path.deep_view() == seq!["src"@, "mem"@],
        r@[0].roots@[2].path.deep_view() == seq!["src"@, "sys"@],
        r@[0].roots@[0].recurse,
        r@[0].roots@[1].recurse,
        r@[0].roots@[2].recurse,
{
    let mut boot_root: Vec<String> = Vec::new();
    boot_root.push("src".to_owned());
    boot_root.push("arch".to_owned());
    boot_root.push("riscv64gc".to_owned());
    let mut mem_root: Vec<String> = Vec::new();
    mem_root.push("src".to_owned());
    mem_root.push("mem".to_owned());
    let mut sys_root: Vec<String> = Vec::new();
    sys_root.push("src".to_owned());
    sys_root.push("sys".to_owned());
    let mut roots: Vec<StageRoot> = Vec::new();
    roots.push(StageRoot { path: boot_root, recurse: true });
    roots.push(StageRoot { path: mem_root, recurse: true });
    roots.push(StageRoot { path: sys_root, recurse: true });
    let mut extensions: Vec<String> = Vec::new();
    extensions.push("cpp".to_owned());
    extensions.push("c".to_owned());
    extensions.push("S".to_owned());
    let stage = StageDescriptor {
        name: "kernel".to_owned(),
        roots,
        extensions,
        artifact: "kernel".to_owned(),
        ordinal: 0,
        needs_revision: true,
    };
    let mut r: Vec<StageDescriptor> = Vec::new();
    r.push(stage);
    proof {
        assert(r@[0].extensions.deep_view() =~= seq!["cpp"@, "c"@, "S"@]);
        assert(r@[0].roots@[0].path.deep_view() =~= seq!["src"@, "arch"@, "riscv64gc"@]);
        assert(r@[0].roots@[1].path.deep_view() =~= seq!["src"@, "mem"@]);
        assert(r@[0].roots@[2].path.deep_view() =~= seq!["src"@, "sys"@]);
    }
    r
}

} // verus!
