use hin::add::absorb_children;
use hin::add::add_on_failure;
use hin::add::check_duplicate;
use hin::add::commit_message;
use hin::add::commit_paths;
use hin::add::normalize;
use hin::add::register_absorption;
use hin::environment::Environment;
use hin::errors::Error;
use hin::files::FileTrait;
use hin::files::Matrix;
use hin::gitignore::carve_exception;
use hin::gitignore::negation_line;
use hin::gitignore::unignore;
use hin::gitignore::IgnoreFile;
use hin::install::install_prepare;
use hin::install::install_retry;
use hin::install::InstallPrep;
use hin::install::LinkFailure;
use hin::install::RetryStep;
use hin::link::link_complete;
use hin::link::link_resolve;
use hin::link::LinkRelation;
use hin::list::list_lines;
use hin::registry::Registry;
use hin::uninstall::uninstall_targets;

fn env() -> Environment {
    Environment {
        vars: vec![
            ("HOME".to_string(), "/home/u".to_string()),
            ("DOTFILES".to_string(), "/home/u/dotfiles".to_string()),
        ],
    }
}

fn registry_of(pairs: &[(&str, &str)]) -> Registry {
    let owned: Vec<(String, String)> = pairs
        .iter()
        .map(|(k, v)| (k.to_string(), v.to_string()))
        .collect();
    Registry::from_pairs(&owned, &env()).unwrap()
}

#[test]
fn register_then_lookup_round_trip() {
    let e = env();
    let mut reg = Registry::new();
    let m = Matrix::new(&"$HOME/.bashrc".to_string(), &".bashrc".to_string(), &e).unwrap();
    reg.insert(m).unwrap();
    let got = reg.lookup(&"$HOME/.bashrc".to_string());
    assert_eq!(got, Some("$DOTFILES/bashrc".to_string()));
}

#[test]
fn duplicate_insert_is_refused() {
    let e = env();
    let mut reg = Registry::new();
    let m = Matrix::new(&"$HOME/.bashrc".to_string(), &".bashrc".to_string(), &e).unwrap();
    reg.insert(m).unwrap();
    let again = Matrix::new(&"$HOME/.bashrc".to_string(), &".bashrc".to_string(), &e).unwrap();
    assert!(matches!(reg.insert(again), Err(Error::DuplicateEntryError(_))));
    assert_eq!(reg.len(), 1);
}

#[test]
fn from_pairs_refuses_duplicates() {
    let owned = vec![
        ("$HOME/.a".to_string(), "a".to_string()),
        ("$HOME/.a".to_string(), "a".to_string()),
    ];
    let r = Registry::from_pairs(&owned, &env());
    assert!(matches!(r, Err(Error::DuplicateEntryError(_))));
}

#[test]
fn remove_takes_the_entry_out() {
    let mut reg = registry_of(&[("$HOME/.a", "a"), ("$HOME/.b", "b")]);
    assert!(reg.remove(&"$HOME/.a".to_string()));
    assert!(!reg.remove(&"$HOME/.a".to_string()));
    let pairs = reg.to_pairs();
    assert_eq!(pairs, vec![("$HOME/.b".to_string(), "$DOTFILES/b".to_string())]);
}

#[test]
fn ancestor_search_prefers_the_deepest_home_path() {
    let e = env();
    let reg = registry_of(&[("$HOME/.config", ".config"), ("$HOME/.config/nvim", ".config/nvim")]);
    let entry = Matrix::new(
        &"/home/u/.config/nvim/init.vim".to_string(),
        &"init.vim".to_string(),
        &e,
    )
    .unwrap();
    let i = reg.find_ancestor_of(&entry).unwrap();
    assert_eq!(reg.get(i).key.repr(), "$HOME/.config/nvim");
}

#[test]
fn add_first_file_registers_it() {
    // Add on an empty archive: the file moves to the archive under its
    // undotted name and the registry gains exactly that pairing.
    let e = env();
    let mut reg = Registry::new();
    let entry = normalize(&"/home/u/.bashrc".to_string(), &e).unwrap();
    assert_eq!(hin::text::render_abs(&entry.key.path()), "/home/u/.bashrc");
    assert_eq!(
        hin::text::render_abs(&entry.value.path()),
        "/home/u/dotfiles/bashrc"
    );
    check_duplicate(&reg, &entry).unwrap();
    assert_eq!(commit_message(&entry), "add .bashrc");
    assert_eq!(
        commit_paths(&entry),
        vec!["dotfiles.ini".to_string(), "bashrc".to_string()]
    );
    reg.insert(entry).unwrap();
    assert_eq!(
        reg.to_pairs(),
        vec![("$HOME/.bashrc".to_string(), "$DOTFILES/bashrc".to_string())]
    );
}

#[test]
fn add_same_file_again_is_already_tracked() {
    let e = env();
    let reg = registry_of(&[("$HOME/.bashrc", ".bashrc")]);
    let before = reg.to_pairs();
    let entry = normalize(&"/home/u/.bashrc".to_string(), &e).unwrap();
    let r = check_duplicate(&reg, &entry);
    assert!(matches!(r, Err(Error::AlreadyTrackedError(_))));
    assert_eq!(reg.to_pairs(), before);
}

#[test]
fn add_directory_absorbs_flat_children() {
    // A flat top-level entry that turns out to live inside the newly
    // added directory follows it into the archive and re-registers.
    let e = env();
    let mut reg = registry_of(&[("$HOME/.config/nvim/init.vim", "init.vim")]);
    let entry = normalize(&"/home/u/.config".to_string(), &e).unwrap();
    check_duplicate(&reg, &entry).unwrap();
    let absorbed = absorb_children(&reg, &entry);
    assert_eq!(absorbed.len(), 1);
    let a = &absorbed[0];
    assert_eq!(a.old_key, "$HOME/.config/nvim/init.vim");
    assert_eq!(hin::text::render_abs(&a.move_from), "/home/u/dotfiles/init.vim");
    assert_eq!(
        hin::text::render_abs(&a.move_to),
        "/home/u/dotfiles/config/nvim/init.vim"
    );
    assert_eq!(a.carve_rel, vec!["nvim".to_string(), "init.vim".to_string()]);
    let mut it = absorbed;
    let a = it.remove(0);
    register_absorption(&mut reg, a);
    reg.insert(entry).unwrap();
    assert_eq!(
        reg.to_pairs(),
        vec![
            (
                "$HOME/.config/nvim/init.vim".to_string(),
                "$DOTFILES/config/nvim/init.vim".to_string()
            ),
            ("$HOME/.config".to_string(), "$DOTFILES/config".to_string()),
        ]
    );
}

#[test]
fn add_under_tracked_directory_needs_no_move() {
    // The file already lives under the tracked root: no physical move,
    // only a registration at the existing archived location and a carve.
    let e = env();
    let mut reg = registry_of(&[("$HOME/.config", ".config")]);
    let entry = normalize(&"/home/u/.config/alacritty/alacritty.yml".to_string(), &e).unwrap();
    check_duplicate(&reg, &entry).unwrap();
    let f = add_on_failure(&reg, &entry).unwrap();
    assert_eq!(f.ancestor_index, 0);
    assert_eq!(
        f.carve_rel,
        vec!["alacritty".to_string(), "alacritty.yml".to_string()]
    );
    assert_eq!(
        f.registration.value.repr(),
        "$DOTFILES/config/alacritty/alacritty.yml"
    );
    reg.insert(f.registration).unwrap();
    assert_eq!(
        reg.to_pairs(),
        vec![
            ("$HOME/.config".to_string(), "$DOTFILES/config".to_string()),
            (
                "$HOME/.config/alacritty/alacritty.yml".to_string(),
                "$DOTFILES/config/alacritty/alacritty.yml".to_string()
            ),
        ]
    );
}

#[test]
fn add_without_ancestor_is_entry_not_found() {
    let e = env();
    let reg = Registry::new();
    let entry = normalize(&"/home/u/.missing".to_string(), &e).unwrap();
    let r = add_on_failure(&reg, &entry);
    assert!(matches!(r, Err(Error::EntryNotFoundError(_))));
}

#[test]
fn install_backs_up_a_real_file() {
    // A real file at the home path is renamed aside with the stamp
    // before the link is created.
    let reg = registry_of(&[("$HOME/.vimrc", "vimrc")]);
    let entry = reg.get(0);
    let prep = install_prepare(entry, true, None, 1700000000);
    match prep {
        InstallPrep::Backup(p) => {
            assert_eq!(hin::text::render_abs(&p), "/home/u/.vimrc.1700000000");
        }
        _ => panic!("expected a backup"),
    }
}

#[test]
fn install_refreshes_its_own_link() {
    let reg = registry_of(&[("$HOME/.vimrc", "vimrc")]);
    let entry = reg.get(0);
    let target = entry.value.path();
    let prep = install_prepare(entry, true, Some(&target), 5);
    assert!(matches!(prep, InstallPrep::RemoveLink));
    let prep = install_prepare(entry, false, None, 5);
    assert!(matches!(prep, InstallPrep::Link));
}

#[test]
fn install_retry_decisions() {
    let reg = registry_of(&[("$HOME/.d/.vimrc", "vimrc")]);
    let entry = reg.get(0);
    match install_retry(entry, &LinkFailure::AlreadyExists) {
        RetryStep::RemoveAndRetry(p) => {
            assert_eq!(hin::text::render_abs(&p), "/home/u/.d/.vimrc")
        }
        _ => panic!("expected removal"),
    }
    match install_retry(entry, &LinkFailure::MissingParent) {
        RetryStep::CreateParentAndRetry(p) => {
            assert_eq!(hin::text::render_abs(&p), "/home/u/.d")
        }
        _ => panic!("expected parent creation"),
    }
    assert!(matches!(install_retry(entry, &LinkFailure::Other), RetryStep::Fail));
}

#[test]
fn link_nested_without_archived_target_is_unrelated() {
    // The home path nests under a tracked directory, but the archive
    // holds no file for it: the link cannot be reproduced and fails.
    let e = env();
    let reg = registry_of(&[("$HOME/.config", ".config")]);
    let custom = Matrix::new(
        &"/home/u/.config/nvim/ginit.vim".to_string(),
        &".config/nvim/ginit.vim".to_string(),
        &e,
    )
    .unwrap();
    let rel = link_resolve(&reg, &custom).unwrap();
    match &rel {
        LinkRelation::Nested { target, .. } => {
            assert_eq!(target.repr(), "$DOTFILES/config/nvim/ginit.vim");
        }
        _ => panic!("expected nesting"),
    }
    let r = link_complete(&rel, false);
    assert!(matches!(r, Err(Error::UnrelatedLinkError(_))));
}

#[test]
fn link_nested_with_archived_target_carves() {
    let e = env();
    let reg = registry_of(&[("$HOME/.config", ".config")]);
    let custom = Matrix::new(
        &"/home/u/.config/nvim/ginit.vim".to_string(),
        &".config/nvim/ginit.vim".to_string(),
        &e,
    )
    .unwrap();
    let rel = link_resolve(&reg, &custom).unwrap();
    let plan = link_complete(&rel, true).unwrap();
    let (idx, carve) = plan.carve.unwrap();
    assert_eq!(idx, 0);
    assert_eq!(carve, vec!["nvim".to_string(), "ginit.vim".to_string()]);
    assert!(plan.permitted);
}

#[test]
fn link_already_tracked_is_refused() {
    let e = env();
    let reg = registry_of(&[("$HOME/.vimrc", "vimrc")]);
    let custom = Matrix::new(&"$HOME/.vimrc".to_string(), &"vimrc".to_string(), &e).unwrap();
    let r = link_resolve(&reg, &custom);
    assert!(matches!(r, Err(Error::AlreadyTrackedError(_))));
}

#[test]
fn link_to_archive_side_itself_is_permitted() {
    let e = env();
    let reg = registry_of(&[("$HOME/.config", ".config")]);
    let custom = Matrix::new(&"/home/u/config".to_string(), &"config".to_string(), &e).unwrap();
    let rel = link_resolve(&reg, &custom).unwrap();
    assert!(matches!(rel, LinkRelation::SameArchive { index: 0 }));
    let plan = link_complete(&rel, false).unwrap();
    assert!(plan.carve.is_none() && plan.permitted);
}

#[test]
fn seeded_rules_exclude_everything() {
    let f = IgnoreFile::seed_exclusions();
    assert_eq!(f.lines, vec!["*".to_string()]);
    assert_eq!(negation_line(&"nvim".to_string()), "!/nvim");
}

#[test]
fn carving_inserts_negations_per_directory() {
    let chain = vec![IgnoreFile::seed_exclusions(), IgnoreFile::seed_exclusions()];
    let rel = vec!["nvim".to_string(), "init.vim".to_string()];
    let out = carve_exception(&chain, &rel);
    assert_eq!(out[0].lines, vec!["*".to_string(), "!/nvim".to_string()]);
    assert_eq!(out[1].lines, vec!["*".to_string(), "!/init.vim".to_string()]);
}

#[test]
fn carving_twice_equals_carving_once() {
    let chain = vec![IgnoreFile::seed_exclusions(), IgnoreFile::seed_exclusions()];
    let rel = vec!["nvim".to_string(), "init.vim".to_string()];
    let once = carve_exception(&chain, &rel);
    let twice = carve_exception(&once, &rel);
    let once_lines: Vec<Vec<String>> = once.iter().map(|f| f.lines.clone()).collect();
    let twice_lines: Vec<Vec<String>> = twice.iter().map(|f| f.lines.clone()).collect();
    assert_eq!(once_lines, twice_lines);
}

#[test]
fn unignore_computes_the_chain_from_paths() {
    let chain = vec![IgnoreFile::seed_exclusions(), IgnoreFile::seed_exclusions()];
    let ancestor = vec!["home".to_string(), "u".to_string(), "dotfiles".to_string(), "config".to_string()];
    let mut nested = ancestor.clone();
    nested.push("nvim".to_string());
    nested.push("init.vim".to_string());
    let files = unignore(&chain, &nested, &ancestor).unwrap();
    assert_eq!(files[0].lines, vec!["*".to_string(), "!/nvim".to_string()]);
    assert_eq!(files[1].lines, vec!["*".to_string(), "!/init.vim".to_string()]);
    let stranger = vec!["elsewhere".to_string()];
    assert!(matches!(
        unignore(&chain, &stranger, &ancestor),
        Err(Error::InvalidPathError(_))
    ));
    let short_chain = vec![IgnoreFile::seed_exclusions()];
    assert!(matches!(
        unignore(&short_chain, &nested, &ancestor),
        Err(Error::IoError(_))
    ));
}

#[test]
fn uninstall_lists_every_home_path() {
    let reg = registry_of(&[("$HOME/.a", "a"), ("$HOME/.b", "b")]);
    let targets = uninstall_targets(&reg);
    assert_eq!(targets.len(), 2);
    assert_eq!(hin::text::render_abs(&targets[0]), "/home/u/.a");
    assert_eq!(hin::text::render_abs(&targets[1]), "/home/u/.b");
}

#[test]
fn listing_marks_archived_and_shared_entries() {
    let e = env();
    let pairs = vec![
        ("$HOME/.bashrc".to_string(), "$DOTFILES/bashrc".to_string()),
        ("$HOME/linked".to_string(), "$HOME/.bashrc".to_string()),
    ];
    let lines = list_lines(&pairs, &e).unwrap();
    assert_eq!(lines[0], "+ /home/u/.bashrc");
    assert_eq!(lines[1], "= /home/u/linked -> /home/u/.bashrc");
    let bad = vec![("$NOPE/x".to_string(), "y".to_string())];
    assert!(matches!(list_lines(&bad, &e), Err(Error::EnvironmentError(_))));
}
