use hin::environment::Environment;
use hin::errors::Error;
use hin::files::FileTrait;
use hin::files::Matrix;
use hin::files::Symlink;
use hin::text::render_abs;
use hin::text::split_path;
use hin::text::u64_to_dec;

fn env() -> Environment {
    Environment {
        vars: vec![
            ("HOME".to_string(), "/home/u".to_string()),
            ("DOTFILES".to_string(), "/home/u/dotfiles".to_string()),
        ],
    }
}

#[test]
fn split_drops_empty_stretches() {
    let p = split_path("/home//u/");
    assert_eq!(p, vec!["home".to_string(), "u".to_string()]);
    assert_eq!(split_path(""), Vec::<String>::new());
    assert_eq!(split_path("a/b"), vec!["a".to_string(), "b".to_string()]);
}

#[test]
fn render_abs_round() {
    let p = vec!["home".to_string(), "u".to_string()];
    assert_eq!(render_abs(&p), "/home/u");
    assert_eq!(render_abs(&Vec::new()), "/");
}

#[test]
fn decimal_rendering() {
    assert_eq!(u64_to_dec(0), "0");
    assert_eq!(u64_to_dec(7), "7");
    assert_eq!(u64_to_dec(1700000000), "1700000000");
}

#[test]
fn expansion_substitutes_variables() {
    let e = env();
    assert_eq!(e.expand("$HOME/.bashrc").unwrap(), "/home/u/.bashrc");
    assert_eq!(e.expand("no placeholders").unwrap(), "no placeholders");
    assert_eq!(e.expand("a$HOME!b").unwrap(), "a/home/u!b");
    assert_eq!(e.expand("$ alone").unwrap(), "$ alone");
}

#[test]
fn expansion_unknown_variable_is_environment_error() {
    let e = env();
    let r = e.expand("$NOPE/x");
    assert!(matches!(r, Err(Error::EnvironmentError(_))));
}

#[test]
fn ensure_archive_root_only_fills_a_gap() {
    let mut e = Environment { vars: vec![("HOME".to_string(), "/home/u".to_string())] };
    e.ensure_archive_root("/home/u/.local/share/hin".to_string());
    assert_eq!(
        e.lookup(&"DOTFILES".to_string()).unwrap(),
        "/home/u/.local/share/hin"
    );
    let mut f = env();
    f.ensure_archive_root("/elsewhere".to_string());
    assert_eq!(f.lookup(&"DOTFILES".to_string()).unwrap(), "/home/u/dotfiles");
}

#[test]
fn pairing_reprs_and_paths() {
    let e = env();
    let m = Matrix::new(
        &"$HOME/.bashrc".to_string(),
        &".bashrc".to_string(),
        &e,
    )
    .unwrap();
    assert_eq!(m.key.repr(), "$HOME/.bashrc");
    assert_eq!(m.value.repr(), "$DOTFILES/bashrc");
    assert_eq!(render_abs(&m.key.path()), "/home/u/.bashrc");
    assert_eq!(render_abs(&m.value.path()), "/home/u/dotfiles/bashrc");
    assert_eq!(m.key.env(), "HOME");
    assert_eq!(m.value.env(), "DOTFILES");
    assert_eq!(m.key.string(), "/home/u/.bashrc");
}

#[test]
fn canonical_representation_is_pure() {
    let e = env();
    let a = Symlink::new(&"$HOME/.bashrc".to_string(), "HOME".to_string(), &e).unwrap();
    let b = Symlink::new(&"$HOME/.bashrc".to_string(), "HOME".to_string(), &e).unwrap();
    assert_eq!(a.repr(), b.repr());
    assert_eq!(a.path(), b.path());
}

#[test]
fn canonical_representation_round_trips() {
    let e = env();
    let a = Symlink::new(&"/home/u/.config/nvim".to_string(), "HOME".to_string(), &e).unwrap();
    let again = Symlink::new(&a.repr(), "HOME".to_string(), &e).unwrap();
    assert_eq!(again.path(), a.path());
    assert_eq!(again.repr(), a.repr());
}

#[test]
fn archive_side_keeps_intermediate_dots() {
    let e = env();
    let m = Matrix::new(
        &"$HOME/.config/nvim/init.vim".to_string(),
        &".config/nvim/init.vim".to_string(),
        &e,
    )
    .unwrap();
    assert_eq!(m.value.repr(), "$DOTFILES/.config/nvim/init.vim");
}

#[test]
fn path_escaping_root_is_invalid() {
    let e = env();
    let r = Matrix::new(&"/etc/passwd".to_string(), &"passwd".to_string(), &e);
    assert!(matches!(r, Err(Error::InvalidPathError(_))));
    let r = Matrix::new(&"/home/u/../x".to_string(), &"x".to_string(), &e);
    assert!(matches!(r, Err(Error::InvalidPathError(_))));
}

#[test]
fn unset_home_is_environment_error() {
    let e = Environment { vars: vec![("DOTFILES".to_string(), "/d".to_string())] };
    let r = Matrix::new(&"/home/u/.bashrc".to_string(), &".bashrc".to_string(), &e);
    assert!(matches!(r, Err(Error::EnvironmentError(_))));
}

#[test]
fn nesting_is_component_wise() {
    let e = env();
    let parent = Matrix::new(&"/home/u/.config".to_string(), &".config".to_string(), &e).unwrap();
    let child = Matrix::new(
        &"/home/u/.config/nvim/init.vim".to_string(),
        &"init.vim".to_string(),
        &e,
    )
    .unwrap();
    let lookalike = Matrix::new(
        &"/home/u/.configuration".to_string(),
        &".configuration".to_string(),
        &e,
    )
    .unwrap();
    assert!(child.is_child_of(&parent));
    assert!(!parent.is_child_of(&child));
    assert!(!lookalike.is_child_of(&parent));
    assert!(!parent.is_child_of(&parent));
}

#[test]
fn child_placement_reroots_below_directory_name() {
    let e = env();
    let parent = Matrix::new(&"/home/u/.config".to_string(), &".config".to_string(), &e).unwrap();
    let nested = Matrix::new(
        &"/home/u/.config/nvim/init.vim".to_string(),
        &"init.vim".to_string(),
        &e,
    )
    .unwrap();
    let placed = parent.child(&nested);
    assert_eq!(placed.repr(), "$DOTFILES/config/nvim/init.vim");
    assert_eq!(parent.child_suffix(&nested), vec!["nvim".to_string(), "init.vim".to_string()]);
}

#[test]
fn child_placement_falls_back_flat() {
    let e = env();
    let parent = Matrix::new(&"/home/u/.config".to_string(), &".config".to_string(), &e).unwrap();
    let unrelated = Matrix::new(
        &"/home/u/.config/other/x".to_string(),
        &"x".to_string(),
        &e,
    )
    .unwrap();
    // The nested home path holds the parent's directory name, so this
    // places below it; a stranger name falls back to the whole path.
    let stranger = Matrix::new(&"/home/u/.cfg/x".to_string(), &"x".to_string(), &e).unwrap();
    let placed = parent.child(&stranger);
    assert_eq!(placed.repr(), "$DOTFILES/config/cfg/x");
    let placed2 = parent.child(&unrelated);
    assert_eq!(placed2.repr(), "$DOTFILES/config/other/x");
}

#[test]
fn linksrc_rebuilds_from_target() {
    let e = env();
    let m = Matrix::new(&"/home/u/.vimrc".to_string(), &".vimrc".to_string(), &e).unwrap();
    let n = m
        .linksrc(&"/home/u/real/vimrc-actual".to_string(), true, &e)
        .unwrap();
    assert_eq!(n.key.repr(), "$HOME/real/vimrc-actual");
    assert_eq!(n.value.repr(), "$DOTFILES/vimrc-actual");
}

#[test]
fn linksrc_dangling_target_is_an_error() {
    let e = env();
    let m = Matrix::new(&"/home/u/.vimrc".to_string(), &".vimrc".to_string(), &e).unwrap();
    let r = m.linksrc(&"/home/u/gone".to_string(), false, &e);
    assert!(matches!(r, Err(Error::DanglingSymlinkError(_))));
}

#[test]
fn backup_renames_the_archive_side() {
    let e = env();
    let m = Matrix::new(&"/home/u/.bashrc".to_string(), &".bashrc".to_string(), &e).unwrap();
    let b = m.backup_with(42);
    assert_eq!(b.key.repr(), "$HOME/.bashrc");
    assert_eq!(b.value.repr(), "$DOTFILES/bashrc.42");
}

#[test]
fn timestamped_has_backup_shape() {
    let e = env();
    let m = Matrix::new(&"/home/u/.bashrc".to_string(), &".bashrc".to_string(), &e).unwrap();
    let b = m.timestamped();
    assert_eq!(b.key.repr(), "$HOME/.bashrc");
    let v = b.value.repr();
    assert!(v.starts_with("$DOTFILES/bashrc."));
    let suffix = &v["$DOTFILES/bashrc.".len()..];
    assert!(!suffix.is_empty() && suffix.chars().all(|c| c.is_ascii_digit()));
}

#[test]
fn error_messages_name_their_subject() {
    let e = Error::AlreadyTrackedError("$HOME/.bashrc".to_string());
    assert_eq!(e.message(), "already added: $HOME/.bashrc");
    let e = Error::EnvironmentError("NOPE".to_string());
    assert!(e.message().contains("NOPE"));
}
