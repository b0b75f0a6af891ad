use youarehere::git::{
    branch_name, gitfile_target, is_sha, parse_head, tag_from_output, Discoverer, Discovery,
    Entry, GitInfo, Head,
};

const SHA: &str = "1111111111111111111111111111111111111111";

/// Runs discovery from `start`, answering each probe from `present`: the
/// ".git" paths that exist, each with what it is.
fn discover(start: &str, present: &[(&str, Entry)]) -> Discovery {
    let mut walk = Discoverer::new(start);
    let mut action = walk.action();
    loop {
        match action {
            Discovery::Probe(path) => {
                let found = present
                    .iter()
                    .find(|(p, _)| *p == path)
                    .map(|(_, e)| *e)
                    .unwrap_or(Entry::Absent);
                action = walk.observe(found);
            }
            other => return other,
        }
    }
}

fn branch(head: &Option<Head>) -> Option<&str> {
    match head {
        Some(Head::Branch(name)) => Some(name),
        _ => None,
    }
}

#[test]
fn no_repository_means_none() {
    assert_eq!(discover("/tmp/empty", &[]), Discovery::NotFound);
}

#[test]
fn a_branch_with_no_tag() {
    assert_eq!(
        discover("/tmp/r", &[("/tmp/r/.git", Entry::Directory)]),
        Discovery::GitDir("/tmp/r/.git".to_string())
    );
    let head = parse_head("ref: refs/heads/main\n");
    assert_eq!(branch(&head), Some("main"));
    assert_eq!(tag_from_output(true, Vec::new()), None);
}

#[test]
fn discovery_walks_up_from_a_subdirectory() {
    assert_eq!(
        discover("/tmp/r/a/b", &[("/tmp/r/.git", Entry::Directory)]),
        Discovery::GitDir("/tmp/r/.git".to_string())
    );
    assert_eq!(branch(&parse_head("ref: refs/heads/main\n")), Some("main"));
}

#[test]
fn a_branch_name_keeps_its_slashes() {
    assert_eq!(branch(&parse_head("ref: refs/heads/feat/x\n")), Some("feat/x"));
}

#[test]
fn a_symref_outside_refs_heads_shows_its_last_component() {
    assert_eq!(branch(&parse_head("ref: refs/something/else\n")), Some("else"));
}

#[test]
fn an_unborn_branch_has_a_name_and_no_tag() {
    let head = parse_head("ref: refs/heads/main\n");
    assert_eq!(branch(&head), Some("main"));
    assert_eq!(tag_from_output(false, Vec::new()), None);
}

#[test]
fn a_detached_head_keeps_the_full_sha() {
    assert_eq!(
        parse_head(&format!("{SHA}\n")),
        Some(Head::Detached(SHA.to_string()))
    );
}

#[test]
fn garbage_head_means_none() {
    assert_eq!(parse_head("not a head\n"), None);
}

#[test]
fn a_gitfile_with_a_relative_path_is_followed() {
    assert_eq!(
        discover("/tmp/t/tree", &[("/tmp/t/tree/.git", Entry::File)]),
        Discovery::GitFile("/tmp/t/tree/.git".to_string())
    );
    let git_dir = gitfile_target("/tmp/t/tree/.git", "gitdir: ../gitdirs/wt\n").unwrap();
    assert_eq!(git_dir, "/tmp/t/tree/../gitdirs/wt");
    assert_eq!(branch(&parse_head("ref: refs/heads/main\n")), Some("main"));
}

#[test]
fn a_gitfile_with_an_absolute_path_is_followed() {
    let git_dir = gitfile_target("/tmp/t/tree/.git", "gitdir: /tmp/t/gitdirs/wt\n").unwrap();
    assert_eq!(git_dir, "/tmp/t/gitdirs/wt");
    assert_eq!(
        parse_head(&format!("{SHA}\n")),
        Some(Head::Detached(SHA.to_string()))
    );
}

#[test]
fn a_linked_worktree_reads_its_own_head() {
    let git_dir = gitfile_target("/tmp/t/wt/.git", "gitdir: ../main/.git/worktrees/wt\n").unwrap();
    assert_eq!(git_dir, "/tmp/t/wt/../main/.git/worktrees/wt");
    assert_eq!(branch(&parse_head("ref: refs/heads/feat\n")), Some("feat"));
}

#[test]
fn a_gitfile_without_a_target_leads_nowhere() {
    assert_eq!(gitfile_target("/r/.git", "gitdir:   \n"), None);
    assert_eq!(gitfile_target("/r/.git", "worktree: x\n"), None);
    assert_eq!(gitfile_target("/r/.git", " gitdir: x\n"), None);
    assert_eq!(gitfile_target(".git", "gitdir: x"), Some("x".to_string()));
    assert_eq!(gitfile_target("/", "gitdir: x"), None);
}

#[test]
fn head_contents_are_trimmed_before_reading() {
    assert_eq!(branch(&parse_head("  ref:refs/heads/dev \r\n")), Some("dev"));
    assert_eq!(branch(&parse_head("ref: \t refs/heads/a b\n")), Some("a b"));
    assert_eq!(parse_head("ref: refs/heads/\n"), None);
    assert_eq!(parse_head("ref: refs/\n"), None);
    assert_eq!(parse_head(""), None);
    assert_eq!(parse_head("Ref: refs/heads/main"), None);
}

#[test]
fn only_forty_lowercase_hex_digits_are_a_sha() {
    assert!(is_sha(SHA));
    assert!(is_sha("0123456789abcdef0123456789abcdef01234567"));
    assert!(!is_sha("0123456789ABCDEF0123456789abcdef01234567"));
    assert!(!is_sha(&SHA[1..]));
    assert!(!is_sha(&format!("{SHA}0")));
    assert!(!is_sha(&"a".repeat(64)));
    assert!(!is_sha("g123456789abcdef0123456789abcdef01234567"));
}

#[test]
fn branch_names_come_from_the_target() {
    assert_eq!(branch_name("refs/heads/main"), Some("main".to_string()));
    assert_eq!(branch_name("refs/heads/a/b/c"), Some("a/b/c".to_string()));
    assert_eq!(branch_name("refs/remotes/origin/x"), Some("x".to_string()));
    assert_eq!(branch_name("plain"), Some("plain".to_string()));
    assert_eq!(branch_name("refs/x/"), None);
    assert_eq!(branch_name(""), None);
}

#[test]
fn the_tag_is_the_first_line_git_prints() {
    assert_eq!(tag_from_output(true, b"v1\n".to_vec()), Some("v1".to_string()));
    assert_eq!(tag_from_output(true, b"alpha\nzeta\n".to_vec()), Some("alpha".to_string()));
    assert_eq!(tag_from_output(true, b"release/1.0\r\n".to_vec()), Some("release/1.0".to_string()));
    assert_eq!(tag_from_output(true, b"odd\r".to_vec()), Some("odd\r".to_string()));
    assert_eq!(tag_from_output(true, b"\n".to_vec()), Some(String::new()));
    assert_eq!(tag_from_output(true, vec![0xff, b'\n']), None);
    assert_eq!(tag_from_output(false, b"v1\n".to_vec()), None);
}

#[test]
fn git_info_holds_head_and_tag() {
    let info = GitInfo {
        head: Head::Branch("main".to_string()),
        tag: Some("v1".to_string()),
    };
    assert_eq!(info.tag.as_deref(), Some("v1"));
}
