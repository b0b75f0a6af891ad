use youarehere::git::{GitInfo, Head};
use youarehere::prompt::{git_span, hostname, prompt, render, Surroundings};
use youarehere::shell::Shell;

fn on_branch(branch: &str, tag: Option<&str>) -> GitInfo {
    GitInfo {
        head: Head::Branch(branch.to_string()),
        tag: tag.map(String::from),
    }
}

#[test]
fn path_only_outside_a_repo() {
    assert_eq!(
        render("user", "host", "~/docs", None, None, false),
        "user@host ~/docs "
    );
}

#[test]
fn hostname_prefers_the_environment() {
    assert_eq!(
        hostname(Some("shell".to_string()), Some("system".to_string())),
        "shell"
    );
}

#[test]
fn hostname_falls_back_to_the_system() {
    assert_eq!(hostname(None, Some("system".to_string())), "system");
    assert_eq!(hostname(None, None), "?");
}

#[test]
fn branch_and_tag_share_the_parens() {
    let info = on_branch("main", Some("v0.1.0"));
    assert_eq!(
        render("user", "host", "~", Some(&info), None, false),
        "user@host ~ (main v0.1.0) "
    );
}

#[test]
fn colors_wrap_the_path_and_the_whole_git_span() {
    let info = on_branch("main", None);
    assert_eq!(
        render("user", "host", "~", Some(&info), None, true),
        "\x1b[1;36muser@host ~\x1b[0m \x1b[35m(main)\x1b[0m "
    );
}

#[test]
fn detached_head_shows_seven_sha_characters() {
    let info = GitInfo {
        head: Head::Detached("0123456789abcdef0123456789abcdef01234567".to_string()),
        tag: None,
    };
    assert_eq!(git_span(&info), "0123456");
}

#[test]
fn detached_head_prefers_the_tag() {
    let info = GitInfo {
        head: Head::Detached("0123456789abcdef0123456789abcdef01234567".to_string()),
        tag: Some("v1.2.0".to_string()),
    };
    assert_eq!(git_span(&info), "v1.2.0");
}

#[test]
fn zsh_text_is_percent_escaped_even_without_color() {
    assert_eq!(
        render("u%", "h%", "~/1%", None, Some(Shell::Zsh), false),
        "u%%@h%% ~/1%% "
    );
}

#[test]
fn an_empty_hostname_falls_through() {
    assert_eq!(hostname(Some(String::new()), Some("system".to_string())), "system");
    assert_eq!(hostname(Some(String::new()), Some(String::new())), "?");
}

#[test]
fn a_short_detached_id_is_shown_whole() {
    let info = GitInfo {
        head: Head::Detached("abc".to_string()),
        tag: None,
    };
    assert_eq!(git_span(&info), "abc");
}

#[test]
fn bash_and_zsh_wrap_both_spans() {
    let info = on_branch("main", None);
    assert_eq!(
        render("u", "h", "~", Some(&info), Some(Shell::Bash), true),
        "\x01\x1b[1;36m\x02u@h ~\x01\x1b[0m\x02 \x01\x1b[35m\x02(main)\x01\x1b[0m\x02 "
    );
    assert_eq!(
        render("u", "h", "~/5%", Some(&info), Some(Shell::Zsh), true),
        "%{\x1b[1;36m%}u@h ~/5%%%{\x1b[0m%} %{\x1b[35m%}(main)%{\x1b[0m%} "
    );
}

/// The surroundings the end-to-end runs give the prompt: HOME at `home`,
/// USER and HOSTNAME set, NO_COLOR unset, the current directory at `cwd`.
fn surroundings(home: &str, cwd: &str) -> Surroundings {
    Surroundings {
        no_color: None,
        user: Some("user".to_string()),
        hostname: Some("host".to_string()),
        system_hostname: Some("system".to_string()),
        home: Some(home.to_string()),
        cwd: Some(cwd.to_string()),
    }
}

/// The escape-free text of a prompt line: drops ANSI up to its terminating
/// m, plus the bash ignore bytes.
fn plain(prompt: &str) -> String {
    let mut out = String::new();
    let mut in_escape = false;
    for c in prompt.chars() {
        match c {
            '\x1b' => in_escape = true,
            'm' if in_escape => in_escape = false,
            _ if in_escape => {}
            '\x01' | '\x02' => {}
            _ => out.push(c),
        }
    }
    out
}

#[test]
fn outside_a_repo_the_prompt_is_the_path_alone() {
    let env = surroundings("/tmp/t", "/tmp/t/docs");
    let line = prompt(None, &env, None);
    assert_eq!(plain(&line), "user@host ~/docs ");
    assert!(!line.ends_with('\n'));
    assert!(line.contains("\x1b[1;36m"));
}

#[test]
fn a_branch_shows_in_parens() {
    let env = surroundings("/tmp/t", "/tmp/t/proj");
    let info = on_branch("main", None);
    assert_eq!(plain(&prompt(None, &env, Some(&info))), "user@host ~/proj (main) ");
}

#[test]
fn a_detached_head_shows_seven_sha_characters() {
    let env = surroundings("/tmp/t", "/tmp/t/proj");
    let info = GitInfo {
        head: Head::Detached("1111111111111111111111111111111111111111".to_string()),
        tag: None,
    };
    assert_eq!(plain(&prompt(None, &env, Some(&info))), "user@host ~/proj (1111111) ");
}

#[test]
fn no_color_strips_every_escape() {
    let mut env = surroundings("/tmp/t", "/tmp/t/proj");
    env.no_color = Some(b"1".to_vec());
    let info = on_branch("main", None);
    let line = prompt(None, &env, Some(&info));
    assert_eq!(line, "user@host ~/proj (main) ");
    assert!(!line.contains('\x1b'));
}

#[test]
fn an_empty_no_color_keeps_the_colors() {
    let mut env = surroundings("/tmp/t", "/tmp/t");
    env.no_color = Some(Vec::new());
    assert_eq!(prompt(None, &env, None), "\x1b[1;36muser@host ~\x1b[0m ");
}

#[test]
fn the_bash_dialect_wraps_colors_in_ignore_bytes() {
    let env = surroundings("/tmp/t", "/tmp/t/proj");
    let info = on_branch("main", None);
    let line = prompt(Some(Shell::Bash), &env, Some(&info));
    assert!(line.contains('\x01') && line.contains('\x02'));
    assert_eq!(plain(&line), "user@host ~/proj (main) ");
}

#[test]
fn the_zsh_dialect_wraps_colors_in_width_markers() {
    let env = surroundings("/tmp/t", "/tmp/t/proj");
    let info = on_branch("main", None);
    let line = prompt(Some(Shell::Zsh), &env, Some(&info));
    assert!(line.contains("%{") && line.contains("%}"));
}

#[test]
fn a_missing_user_uses_a_question_mark() {
    let mut env = surroundings("/tmp/t", "/tmp/t/proj");
    env.user = None;
    let info = on_branch("main", None);
    assert_eq!(plain(&prompt(None, &env, Some(&info))), "?@host ~/proj (main) ");
}

#[test]
fn a_missing_hostname_uses_the_system_hostname() {
    let mut env = surroundings("/tmp/t", "/tmp/t/proj");
    env.hostname = None;
    let info = on_branch("main", None);
    assert_eq!(plain(&prompt(None, &env, Some(&info))), "user@system ~/proj (main) ");
}

#[test]
fn pwd_wins_when_it_names_the_current_directory() {
    let env = surroundings("/tmp/t", "/tmp/t/link");
    assert_eq!(plain(&prompt(None, &env, None)), "user@host ~/link ");
}

#[test]
fn an_unreadable_directory_shows_a_question_mark() {
    let mut env = surroundings("/tmp/t", "/tmp/t");
    env.cwd = None;
    env.no_color = Some(b"yes".to_vec());
    assert_eq!(prompt(None, &env, None), "user@host ? ");
}

#[test]
fn a_tag_on_a_branch_joins_it_and_a_detached_tag_replaces_the_sha() {
    let mut env = surroundings("/tmp/t", "/tmp/t/proj");
    env.no_color = Some(b"1".to_vec());
    let tagged = on_branch("main", Some("v0.1.0"));
    assert_eq!(prompt(None, &env, Some(&tagged)), "user@host ~/proj (main v0.1.0) ");
    let detached = GitInfo {
        head: Head::Detached("1111111111111111111111111111111111111111".to_string()),
        tag: Some("v2".to_string()),
    };
    assert_eq!(prompt(None, &env, Some(&detached)), "user@host ~/proj (v2) ");
}
