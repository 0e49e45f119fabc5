use fleetops::git::{branch_from_head, gitdir_from_file, resolve_git_dir, DotGit, GitDir};

#[test]
fn branch_from_head_table() {
    let cases: &[(&str, Option<&str>)] = &[
        ("ref: refs/heads/main\n", Some("main")),
        (
            "ref: refs/heads/feat/email-signal-capture\n",
            Some("feat/email-signal-capture"),
        ),
        ("d30af8261f5c9b0aa3e4d5f6a7b8c9d0e1f2a3b4\n", Some("d30af82")),
        ("ref: refs/tags/v1.0\n", None),
        ("ref: refs/heads/\n", None),
        ("", None),
        ("   \n", None),
        ("total garbage", None),
        ("deadbee", Some("deadbee")),
        ("dead", None),
    ];
    for (head, want) in cases {
        assert_eq!(branch_from_head(head).as_deref(), *want, "head={head:?}");
    }
}

#[test]
fn a_head_of_seven_characters_that_are_not_hex_is_no_sha() {
    assert_eq!(branch_from_head("deadbeg"), None);
    assert_eq!(branch_from_head("éééé"), None);
    assert_eq!(branch_from_head("DEADBEEF0").as_deref(), Some("DEADBEE"));
}

#[test]
fn gitdir_from_file_table() {
    assert_eq!(
        gitdir_from_file("gitdir: /repo/.git/worktrees/wt\n").as_deref(),
        Some("/repo/.git/worktrees/wt")
    );
    assert_eq!(gitdir_from_file("gitdir:/no/space\n").as_deref(), Some("/no/space"));
    assert_eq!(gitdir_from_file("gitdir:\n"), None);
    assert_eq!(gitdir_from_file("not a gitdir file"), None);
    assert_eq!(gitdir_from_file(""), None);
}

#[test]
fn the_first_pointer_line_decides() {
    assert_eq!(
        gitdir_from_file("# comment\n  gitdir: /a b \ngitdir: /c\n").as_deref(),
        Some("/a b")
    );
    assert_eq!(gitdir_from_file("gitdir:\ngitdir: /c\n"), None);
}

#[test]
fn branch_of_a_plain_repo_and_a_subdir_below_it() {
    assert_eq!(resolve_git_dir(&[DotGit::Directory]), Some(GitDir::OfAncestor(0)));
    assert_eq!(
        resolve_git_dir(&[DotGit::Missing, DotGit::Missing, DotGit::Directory]),
        Some(GitDir::OfAncestor(2)),
        "a cwd below the root walks up"
    );
    assert_eq!(resolve_git_dir(&[DotGit::Missing]), None, "no .git above -> no branch");
    assert_eq!(resolve_git_dir(&[]), None);
}

#[test]
fn branch_of_a_worktree_follows_the_gitdir_file() {
    let pointer = DotGit::File(Some("gitdir: /main/.git/worktrees/feature\n".to_string()));
    assert_eq!(
        resolve_git_dir(&[pointer, DotGit::Directory]),
        Some(GitDir::Elsewhere("/main/.git/worktrees/feature".to_string()))
    );
}

#[test]
fn a_broken_git_pointer_is_none_never_a_panic() {
    let garbage = DotGit::File(Some("corrupted\n".to_string()));
    assert_eq!(resolve_git_dir(&[garbage, DotGit::Directory]), None);
    assert_eq!(resolve_git_dir(&[DotGit::File(None), DotGit::Directory]), None);
}

#[test]
fn no_more_than_sixty_four_directories_are_looked_at() {
    let mut probes = vec![DotGit::Missing; 63];
    probes.push(DotGit::Directory);
    assert_eq!(resolve_git_dir(&probes), Some(GitDir::OfAncestor(63)));
    let mut probes = vec![DotGit::Missing; 64];
    probes.push(DotGit::Directory);
    assert_eq!(resolve_git_dir(&probes), None);
}

#[test]
fn the_nearest_dot_git_governs() {
    let near = [DotGit::Missing, DotGit::Directory];
    let alone = resolve_git_dir(&near);
    for above in [DotGit::Missing, DotGit::Directory, DotGit::File(None)] {
        let mut probes = near.to_vec();
        probes.push(above);
        assert_eq!(resolve_git_dir(&probes), alone);
    }
}
