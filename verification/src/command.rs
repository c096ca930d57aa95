//! The arguments with which the repacker is called as a command.

use crate::member::NestedMode;
use vstd::prelude::*;
use vstd::string::*;

verus! {

/// One argument of the command. The paths are filled in by the caller.
#[derive(Debug)]
pub enum CommandArg {
    /// The path of the archive to repack.
    Input,
    /// The path of the ZIP to write.
    Output,
    /// The path of the configuration file.
    Config,
    /// The argument itself.
    Text(String),
}

/// [`CommandArg`] as mathematics.
pub enum ArgView {
    Input,
    Output,
    Config,
    Text(Seq<char>),
}

impl View for CommandArg {
    type V = ArgView;

    open spec fn view(&self) -> ArgView {
        match self {
            CommandArg::Input => ArgView::Input,
            CommandArg::Output => ArgView::Output,
            CommandArg::Config => ArgView::Config,
            CommandArg::Text(s) => ArgView::Text(s@),
        }
    }
}

/// The views of a list of arguments.
pub open spec fn arg_views(args: Seq<CommandArg>) -> Seq<ArgView> {
    Seq::new(args.len(), |i: int| args[i]@)
}

/// An option that is given only under a condition.
pub open spec fn given_if(condition: bool, args: Seq<ArgView>) -> Seq<ArgView> {
    if condition {
        args
    } else {
        Seq::empty()
    }
}

/// What the nested mode is called on the command line.
pub open spec fn mode_text(nested: NestedMode) -> Seq<char> {
    match nested {
        NestedMode::Repack => "repack"@,
        NestedMode::Flatten => "flatten"@,
        NestedMode::Passthrough => "passthrough"@,
    }
}

/// The arguments for repacking a nested archive: it inherits the configuration, the wish for a
/// manifest, whether rules apply, and the nested mode.
pub open spec fn nested_args(
    has_config: bool,
    write_manifest: bool,
    process_members: bool,
    nested: NestedMode,
) -> Seq<ArgView> {
    seq![ArgView::Input, ArgView::Text("--output"@), ArgView::Output] + given_if(
        has_config,
        seq![ArgView::Text("--config"@), ArgView::Config],
    ) + given_if(write_manifest, seq![ArgView::Text("--write-manifest"@)]) + given_if(
        !process_members,
        seq![ArgView::Text("--no-process-members"@)],
    ) + seq![
        ArgView::Text("--nested"@),
        ArgView::Text(mode_text(nested)),
    ]
}

/// The arguments for repacking an archive found in a directory tree: it always gets a manifest,
/// and its progress is not shown.
pub open spec fn tree_args(has_config: bool, process_members: bool, verbose: bool) -> Seq<ArgView> {
    seq![
        ArgView::Input,
        ArgView::Text("--output"@),
        ArgView::Output,
        ArgView::Text("--write-manifest"@),
    ] + given_if(has_config, seq![ArgView::Text("--config"@), ArgView::Config]) + given_if(
        !process_members,
        seq![ArgView::Text("--no-process-members"@)],
    ) + seq![
        ArgView::Text("--no-progress"@),
    ] + given_if(verbose, seq![ArgView::Text("--verbose"@)])
}

fn push_arg(args: &mut Vec<CommandArg>, arg: CommandArg)
    ensures
        arg_views(final(args)@) == arg_views(old(args)@) + seq![arg@],
{
    let ghost before = args@;
    args.push(arg);
    assert(arg_views(args@) =~= arg_views(before) + seq![arg@]);
}

fn push_text(args: &mut Vec<CommandArg>, text: &str)
    ensures
        arg_views(final(args)@) == arg_views(old(args)@) + seq![ArgView::Text(text@)],
{
    push_arg(args, CommandArg::Text(text.to_owned()));
}

fn push_config(args: &mut Vec<CommandArg>, has_config: bool)
    ensures
        arg_views(final(args)@) == arg_views(old(args)@) + given_if(
            has_config,
            seq![ArgView::Text("--config"@), ArgView::Config],
        ),
{
    let ghost before = arg_views(args@);
    if has_config {
        push_text(args, "--config");
        push_arg(args, CommandArg::Config);
    }
    assert(arg_views(args@) =~= before + given_if(
        has_config,
        seq![ArgView::Text("--config"@), ArgView::Config],
    ));
}

/// The arguments for repacking a nested archive.
pub fn build_self_cmd(
    has_config: bool,
    write_manifest: bool,
    process_members: bool,
    nested: NestedMode,
) -> (res: Vec<CommandArg>)
    ensures
        arg_views(res@) == nested_args(has_config, write_manifest, process_members, nested),
{
    let mut args: Vec<CommandArg> = Vec::new();
    push_arg(&mut args, CommandArg::Input);
    push_text(&mut args, "--output");
    push_arg(&mut args, CommandArg::Output);
    push_config(&mut args, has_config);
    if write_manifest {
        push_text(&mut args, "--write-manifest");
    }
    if !process_members {
        push_text(&mut args, "--no-process-members");
    }
    push_text(&mut args, "--nested");
    match nested {
        NestedMode::Repack => push_text(&mut args, "repack"),
        NestedMode::Flatten => push_text(&mut args, "flatten"),
        NestedMode::Passthrough => push_text(&mut args, "passthrough"),
    }
    assert(arg_views(args@) =~= nested_args(has_config, write_manifest, process_members, nested));
    args
}

/// The arguments for repacking an archive found in a directory tree.
pub fn build_repack_cmd(has_config: bool, process_members: bool, verbose: bool) -> (res: Vec<CommandArg>)
    ensures
        arg_views(res@) == tree_args(has_config, process_members, verbose),
{
    let mut args: Vec<CommandArg> = Vec::new();
    push_arg(&mut args, CommandArg::Input);
    push_text(&mut args, "--output");
    push_arg(&mut args, CommandArg::Output);
    push_text(&mut args, "--write-manifest");
    push_config(&mut args, has_config);
    if !process_members {
        push_text(&mut args, "--no-process-members");
    }
    push_text(&mut args, "--no-progress");
    if verbose {
        push_text(&mut args, "--verbose");
    }
    assert(arg_views(args@) =~= tree_args(has_config, process_members, verbose));
    args
}

/// What the directory walk repacks gets a manifest, whatever the options.
pub proof fn law_tree_always_asks_for_manifest(has_config: bool, process_members: bool, verbose: bool)
    ensures
        tree_args(has_config, process_members, verbose).contains(
            ArgView::Text("--write-manifest"@),
        ),
{
    assert(tree_args(has_config, process_members, verbose)[3] == ArgView::Text("--write-manifest"@));
}

/// `args` holds `first` with `second` right behind it.
pub open spec fn has_pair(args: Seq<ArgView>, first: ArgView, second: ArgView) -> bool {
    exists|i: int| 0 <= i < args.len() - 1 && #[trigger] args[i] == first && args[i + 1] == second
}

proof fn lemma_options_differ()
    ensures
        "--output"@ != "--config"@,
        "--output"@ != "--write-manifest"@,
        "--output"@ != "--no-process-members"@,
        "--output"@ != "--nested"@,
        "--output"@ != "--no-progress"@,
        "--output"@ != "--verbose"@,
        "--config"@ != "--write-manifest"@,
        "--config"@ != "--no-process-members"@,
        "--config"@ != "--nested"@,
        "--config"@ != "--no-progress"@,
        "--config"@ != "--verbose"@,
        "--write-manifest"@ != "--no-process-members"@,
        "--write-manifest"@ != "--nested"@,
        "--write-manifest"@ != "--no-progress"@,
        "--write-manifest"@ != "--verbose"@,
        "--no-process-members"@ != "--nested"@,
        "--no-process-members"@ != "--no-progress"@,
        "--no-process-members"@ != "--verbose"@,
        "--nested"@ != "--no-progress"@,
        "--no-progress"@ != "--verbose"@,
        forall|nested: NestedMode|
            (#[trigger] mode_text(nested)).len() > 0 && mode_text(nested)[0] != '-',
        "--output"@[0] == '-',
        "--config"@[0] == '-',
        "--write-manifest"@[0] == '-',
        "--no-process-members"@[0] == '-',
        "--nested"@[0] == '-',
{
    reveal_strlit("--output");
    reveal_strlit("--config");
    reveal_strlit("--write-manifest");
    reveal_strlit("--no-process-members");
    reveal_strlit("--nested");
    reveal_strlit("--no-progress");
    reveal_strlit("--verbose");
    reveal_strlit("repack");
    reveal_strlit("flatten");
    reveal_strlit("passthrough");
    assert("--output"@[2] == 'o' && "--config"@[2] == 'c' && "--nested"@[2] == 'n' && "--verbose"@[2]
        == 'v' && "--write-manifest"@[2] == 'w' && "--no-process-members"@[2] == 'n');
    assert("--nested"@[3] == 'e' && "--no-process-members"@[3] == 'o' && "--no-progress"@[3] == 'o');
    assert("--no-process-members"@.len() != "--no-progress"@.len());
}

/// The call for a nested archive: the input first; the output, the configuration where there is
/// one, and the mode, each behind its option; the wish for a manifest and the word to leave members
/// alone exactly where they hold for the outer run; and nothing else.
pub proof fn law_nested_call_inherits(
    has_config: bool,
    write_manifest: bool,
    process_members: bool,
    nested: NestedMode,
)
    ensures
        ({
            let args = nested_args(has_config, write_manifest, process_members, nested);
            let mode = match nested {
                NestedMode::Repack => "repack"@,
                NestedMode::Flatten => "flatten"@,
                NestedMode::Passthrough => "passthrough"@,
            };
            &&& args[0] == ArgView::Input
            &&& has_pair(args, ArgView::Text("--output"@), ArgView::Output)
            &&& has_pair(args, ArgView::Text("--nested"@), ArgView::Text(mode))
            &&& has_config ==> has_pair(args, ArgView::Text("--config"@), ArgView::Config)
            &&& args.contains(ArgView::Text("--config"@)) <==> has_config
            &&& args.contains(ArgView::Text("--write-manifest"@)) <==> write_manifest
            &&& args.contains(ArgView::Text("--no-process-members"@)) <==> !process_members
            &&& args.len() == 5 + if has_config {
                2int
            } else {
                0int
            } + if write_manifest {
                1int
            } else {
                0int
            } + if process_members {
                0int
            } else {
                1int
            }
        }),
{
    lemma_options_differ();
    let args = nested_args(has_config, write_manifest, process_members, nested);
    let c: int = if has_config {
        2
    } else {
        0
    };
    let w: int = if write_manifest {
        1
    } else {
        0
    };
    let p: int = if process_members {
        0
    } else {
        1
    };
    assert(args[1] == ArgView::Text("--output"@) && args[2] == ArgView::Output);
    assert(args[3 + c + w + p] == ArgView::Text("--nested"@));
    assert(args[4 + c + w + p] == ArgView::Text(mode_text(nested)));
    if has_config {
        assert(args[3] == ArgView::Text("--config"@) && args[4] == ArgView::Config);
    }
    if write_manifest {
        assert(args[3 + c] == ArgView::Text("--write-manifest"@));
    }
    if !process_members {
        assert(args[3 + c + w] == ArgView::Text("--no-process-members"@));
    }
}

/// The call for an archive of the tree: the input first, the output and the configuration, where
/// there is one, each behind its option; always a manifest and no progress; members left alone and
/// a verbose log exactly where asked for; and nothing else.
pub proof fn law_tree_call_passes_on(has_config: bool, process_members: bool, verbose: bool)
    ensures
        ({
            let args = tree_args(has_config, process_members, verbose);
            &&& args[0] == ArgView::Input
            &&& has_pair(args, ArgView::Text("--output"@), ArgView::Output)
            &&& args.contains(ArgView::Text("--write-manifest"@))
            &&& args.contains(ArgView::Text("--no-progress"@))
            &&& has_config ==> has_pair(args, ArgView::Text("--config"@), ArgView::Config)
            &&& args.contains(ArgView::Text("--config"@)) <==> has_config
            &&& args.contains(ArgView::Text("--no-process-members"@)) <==> !process_members
            &&& args.contains(ArgView::Text("--verbose"@)) <==> verbose
            &&& args.len() == 5 + if has_config {
                2int
            } else {
                0int
            } + if verbose {
                1int
            } else {
                0int
            } + if process_members {
                0int
            } else {
                1int
            }
        }),
{
    lemma_options_differ();
    let args = tree_args(has_config, process_members, verbose);
    let c: int = if has_config {
        2
    } else {
        0
    };
    let p: int = if process_members {
        0
    } else {
        1
    };
    assert(args[1] == ArgView::Text("--output"@) && args[2] == ArgView::Output);
    assert(args[3] == ArgView::Text("--write-manifest"@));
    if has_config {
        assert(args[4] == ArgView::Text("--config"@) && args[5] == ArgView::Config);
    }
    if !process_members {
        assert(args[4 + c] == ArgView::Text("--no-process-members"@));
    }
    assert(args[4 + c + p] == ArgView::Text("--no-progress"@));
    if verbose {
        assert(args[5 + c + p] == ArgView::Text("--verbose"@));
    }
}

} // verus!
