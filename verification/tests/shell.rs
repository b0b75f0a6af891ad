use youarehere::shell::{color, escape_text, Shell};

#[test]
fn zsh_doubles_percent_and_others_do_not() {
    assert_eq!(escape_text(Some(Shell::Zsh), "50%"), "50%%");
    assert_eq!(escape_text(Some(Shell::Bash), "50%"), "50%");
    assert_eq!(escape_text(Some(Shell::Fish), "50%"), "50%");
    assert_eq!(escape_text(None, "50%"), "50%");
}

#[test]
fn bash_colors_carry_readline_ignore_bytes() {
    assert_eq!(
        color(Some(Shell::Bash), "35", "x"),
        "\x01\x1b[35m\x02x\x01\x1b[0m\x02"
    );
}

#[test]
fn zsh_colors_carry_width_markers() {
    assert_eq!(
        color(Some(Shell::Zsh), "35", "x"),
        "%{\x1b[35m%}x%{\x1b[0m%}"
    );
}

#[test]
fn fish_and_raw_colors_are_bare_ansi() {
    assert_eq!(color(Some(Shell::Fish), "35", "x"), "\x1b[35mx\x1b[0m");
    assert_eq!(color(None, "35", "x"), "\x1b[35mx\x1b[0m");
}

#[test]
fn snippets_call_prompt_with_their_own_shell() {
    assert!(Shell::Bash
        .snippet()
        .contains("youarehere prompt --shell bash"));
    assert!(Shell::Zsh
        .snippet()
        .contains("youarehere prompt --shell zsh"));
    assert!(Shell::Fish
        .snippet()
        .contains("youarehere prompt --shell fish"));
}

#[test]
fn the_zsh_snippet_leaves_prompt_subst_off() {
    assert!(!Shell::Zsh.snippet().contains("PROMPT_SUBST"));
}

#[test]
fn snippets_are_the_exact_integration_text() {
    assert_eq!(
        Shell::Bash.snippet(),
        "PS1='$(youarehere prompt --shell bash)'\n"
    );
    assert_eq!(
        Shell::Zsh.snippet(),
        "autoload -Uz add-zsh-hook\n__youarehere_precmd() {\n    PROMPT=\"$(youarehere prompt --shell zsh)\"\n}\nadd-zsh-hook precmd __youarehere_precmd\n"
    );
    assert_eq!(
        Shell::Fish.snippet(),
        "function fish_prompt\n    youarehere prompt --shell fish\nend\n"
    );
}

#[test]
fn zsh_escaping_doubles_every_percent_and_keeps_the_rest() {
    assert_eq!(escape_text(Some(Shell::Zsh), ""), "");
    assert_eq!(escape_text(Some(Shell::Zsh), "%%a%b"), "%%%%a%%b");
    assert_eq!(escape_text(Some(Shell::Zsh), "naïve ☃"), "naïve ☃");
    assert_eq!(escape_text(Some(Shell::Bash), "%%a%b"), "%%a%b");
}

#[test]
fn color_wraps_any_sgr_around_the_text() {
    assert_eq!(color(None, "1;36", "a b"), "\x1b[1;36ma b\x1b[0m");
    assert_eq!(
        color(Some(Shell::Zsh), "1;36", "%%"),
        "%{\x1b[1;36m%}%%%{\x1b[0m%}"
    );
}
