use riku::shell::{shell_action, ShellAction};

fn show(a: ShellAction) -> String {
    match a {
        ShellAction::Skip => "skip".into(),
        ShellAction::Exit => "exit".into(),
        ShellAction::Help => "help".into(),
        ShellAction::Cd(t) => format!("cd:{t}"),
        ShellAction::Ls(None) => "ls".into(),
        ShellAction::Ls(Some(t)) => format!("ls:{t}"),
        ShellAction::Dispatch(l) => format!("run:{l}"),
    }
}

#[test]
fn blank_lines_and_exit_words() {
    assert_eq!(show(shell_action("")), "skip");
    assert_eq!(show(shell_action("   \t ")), "skip");
    assert_eq!(show(shell_action("exit")), "exit");
    assert_eq!(show(shell_action("  quit  ")), "exit");
    assert_eq!(show(shell_action("q")), "exit");
    assert_eq!(show(shell_action("help")), "help");
}

#[test]
fn cd_and_ls_take_the_trimmed_rest() {
    assert_eq!(show(shell_action("cd")), "cd:.");
    assert_eq!(show(shell_action("cd   ../x  ")), "cd:../x");
    assert_eq!(show(shell_action("ls")), "ls");
    assert_eq!(show(shell_action("ls  dir with space ")), "ls:dir with space");
}

#[test]
fn other_lines_go_to_the_command_parser() {
    assert_eq!(show(shell_action("  diff a b top.sch ")), "run:diff a b top.sch");
    assert_eq!(show(shell_action("exits")), "run:exits");
    assert_eq!(show(shell_action("cd\tx")), "run:cd\tx");
}
