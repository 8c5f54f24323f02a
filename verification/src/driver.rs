//! Decisions of the surrounding tool that are pure computation: the exact
//! build commands to produce the compiled artifact, the path it is
//! expected at, the toolchain check, and the command log line.

use crate::ir::Version;
use crate::model::strings_view;
use vstd::prelude::*;

verus! {

/// The toolchain major version the analysis requires, exactly.
pub const REQUIRED_MAJOR_VERSION: u32 = 17;

/// The analysis requires an exact major-version match of the IR toolchain.
pub fn toolchain_supported(v: &Version) -> (r: bool)
    ensures
        r == (v.major == REQUIRED_MAJOR_VERSION),
{
    v.major == REQUIRED_MAJOR_VERSION
}

/// Where the compiled artifact of the analyzed package is expected.
pub fn artifact_path(target: &str, profile: &str, package: &str) -> (p: String)
    ensures
        p@ == "target/"@ + target@ + "/"@ + profile@ + "/deps/"@ + package@ + ".bc"@,
{
    let mut p = String::new();
    p.append("target/");
    p.append(target);
    p.append("/");
    p.append(profile);
    p.append("/deps/");
    p.append(package);
    p.append(".bc");
    proof {
        assert(p@ =~= "target/"@ + target@ + "/"@ + profile@ + "/deps/"@ + package@ + ".bc"@);
    }
    p
}

/// The pinned toolchain used to produce the compiled artifact.
pub open spec fn pinned_toolchain() -> Seq<char> {
    "nightly-2023-09-17"@
}

/// The argument views of the two commands `do_init` decides on.
pub open spec fn init_commands(package: Seq<char>, profile: Seq<char>, target: Seq<char>) -> Seq<
    Seq<Seq<char>>,
> {
    seq![
        seq!["rustup"@, "install"@, pinned_toolchain()],
        seq![
            "rustup"@,
            "run"@,
            pinned_toolchain(),
            "cargo"@,
            "rustc"@,
            "-p"@,
            package,
            "--profile"@,
            profile,
            "-Z"@,
            "build-std=std,core,panic_abort"@,
            "--target"@,
            target,
            "--"@,
            "--emit"@,
            "llvm-bc"@,
        ],
    ]
}

/// The views of a sequence of commands, each a sequence of arguments.
pub open spec fn commands_view(cmds: Seq<Vec<String>>) -> Seq<Seq<Seq<char>>> {
    cmds.map_values(|c: Vec<String>| strings_view(c@))
}

/// Decides the build commands that produce the compiled artifact: install
/// the pinned toolchain, then compile the package with the standard
/// library built from source, emitting the representation the analysis
/// reads. The surrounding tool runs them in order.
pub fn do_init(package: &str, profile: &str, target: &str) -> (cmds: Vec<Vec<String>>)
    ensures
        commands_view(cmds@) == init_commands(package@, profile@, target@),
{
    let mut install: Vec<String> = Vec::new();
    install.push("rustup".to_owned());
    install.push("install".to_owned());
    install.push("nightly-2023-09-17".to_owned());
    let mut build: Vec<String> = Vec::new();
    build.push("rustup".to_owned());
    build.push("run".to_owned());
    build.push("nightly-2023-09-17".to_owned());
    build.push("cargo".to_owned());
    build.push("rustc".to_owned());
    build.push("-p".to_owned());
    build.push(package.to_owned());
    build.push("--profile".to_owned());
    build.push(profile.to_owned());
    build.push("-Z".to_owned());
    build.push("build-std=std,core,panic_abort".to_owned());
    build.push("--target".to_owned());
    build.push(target.to_owned());
    build.push("--".to_owned());
    build.push("--emit".to_owned());
    build.push("llvm-bc".to_owned());
    let mut cmds: Vec<Vec<String>> = Vec::new();
    cmds.push(install);
    cmds.push(build);
    proof {
        assert(strings_view(cmds@[0]@) =~= init_commands(package@, profile@, target@)[0]);
        assert(strings_view(cmds@[1]@) =~= init_commands(package@, profile@, target@)[1]);
        assert(commands_view(cmds@) =~= init_commands(package@, profile@, target@));
    }
    cmds
}

/// The log line printed before the surrounding tool runs a command: each
/// of the first `k` arguments, each followed by one space.
pub open spec fn args_joined(args: Seq<Seq<char>>, k: int) -> Seq<char>
    decreases k,
{
    if k <= 0 {
        Seq::empty()
    } else {
        args_joined(args, k - 1) + args[k - 1] + " "@
    }
}

/// The log line printed before a command runs.
pub fn command_line(args: &Vec<String>) -> (s: String)
    ensures
        s@ == "Running command: "@ + args_joined(strings_view(args@), args@.len() as int),
{
    let mut s = String::new();
    s.append("Running command: ");
    let n = args.len();
    let mut i: usize = 0;
    while i < n
        invariant
            0 <= i <= n,
            n == args@.len(),
            s@ == "Running command: "@ + args_joined(strings_view(args@), i as int),
        decreases n - i,
    {
        s.append(args[i].as_str());
        s.append(" ");
        i += 1;
        proof {
            assert(strings_view(args@)[i - 1] == args@[i - 1]@);
            assert(s@ =~= "Running command: "@ + args_joined(strings_view(args@), i as int));
        }
    }
    s
}

} // verus!
