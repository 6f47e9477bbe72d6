use dotrepo::path::{join, parent, render, split};
use dotrepo::skipped::report;
use dotrepo::{file_type, Action, Adder, Config, Error, Event, FileType, Metadata, SkipReason, Skipped};
use std::collections::BTreeMap;

#[derive(Debug, Clone, PartialEq, Eq)]
enum Entry {
    File,
    Dir,
    Link(Vec<u8>),
}

struct Disk {
    entries: BTreeMap<Vec<u8>, Entry>,
    failing_renames: bool,
}

fn disk_with(entries: &[(&str, Entry)]) -> Disk {
    let mut disk = Disk { entries: BTreeMap::new(), failing_renames: false };
    for (path, entry) in entries {
        disk.entries.insert(path.as_bytes().to_vec(), entry.clone());
    }
    disk
}

fn missing() -> Event {
    Event::Failed("No such file or directory (os error 2)".to_string())
}

fn perform(disk: &mut Disk, action: &Action) -> Event {
    match action {
        Action::Classify { path } => match disk.entries.get(path) {
            Some(entry) => Event::Classified(file_type(&Metadata {
                is_dir: *entry == Entry::Dir,
                is_file: *entry == Entry::File,
                is_symlink: matches!(entry, Entry::Link(_)),
            })),
            None => missing(),
        },
        Action::Canonicalize { path } => match disk.entries.get(path) {
            Some(Entry::File) | Some(Entry::Dir) => Event::Resolved(path.clone()),
            _ => missing(),
        },
        Action::CreateDirAll { path } => {
            let mut dir = Some(path.clone());
            while let Some(path) = dir {
                dir = parent(&path);
                disk.entries.insert(path, Entry::Dir);
            }
            Event::Done
        }
        Action::Rename { from, to } => {
            if disk.failing_renames {
                return Event::Failed("Invalid cross-device link (os error 18)".to_string());
            }
            match disk.entries.remove(from) {
                Some(entry) => {
                    disk.entries.insert(to.clone(), entry);
                    Event::Done
                }
                None => missing(),
            }
        }
        Action::Symlink { target, link } => {
            if disk.entries.contains_key(link) {
                return Event::Failed("File exists (os error 17)".to_string());
            }
            disk.entries.insert(link.clone(), Entry::Link(target.clone()));
            Event::Done
        }
        Action::Report { .. } | Action::Finish | Action::Abort { .. } => {
            panic!("the run is over")
        }
    }
}

fn run(disk: &mut Disk, repo_dir: &str, files: &[&str]) -> (Adder, Vec<Action>) {
    let config = Config { repo_dir: repo_dir.as_bytes().to_vec() };
    let files = files.iter().map(|path| path.as_bytes().to_vec()).collect();
    let (mut adder, mut action) = Adder::new(config, files);
    let mut trace = Vec::new();
    while !adder.is_finished() {
        let event = perform(disk, &action);
        assert!(adder.expects(&event));
        trace.push(action);
        (adder, action) = adder.step(event);
    }
    trace.push(action);
    (adder, trace)
}

fn follow(link: &[u8], target: &[u8]) -> Vec<u8> {
    let from = parent(link).unwrap();
    let mut names = Vec::new();
    for name in split(&join(&from, target)) {
        if name == b"..".to_vec() {
            names.pop();
        } else {
            names.push(name);
        }
    }
    render(true, &names)
}

fn home_of_alice() -> Disk {
    disk_with(&[
        ("/", Entry::Dir),
        ("/home", Entry::Dir),
        ("/home/alice", Entry::Dir),
        ("/home/alice/.vimrc", Entry::File),
        ("/home/alice/.config", Entry::Dir),
        ("/home/alice/.bashrc", Entry::File),
        ("/home/alice/current", Entry::Link(b".config".to_vec())),
    ])
}

#[test]
fn adding_a_file_moves_it_and_leaves_a_link() {
    let mut disk = home_of_alice();
    let (adder, trace) = run(&mut disk, "/repo", &["/home/alice/.vimrc"]);

    assert_eq!(disk.entries.get(&b"/repo".to_vec()), Some(&Entry::Dir));
    assert_eq!(disk.entries.get(&b"/repo/.vimrc".to_vec()), Some(&Entry::File));
    assert_eq!(
        disk.entries.get(&b"/home/alice/.vimrc".to_vec()),
        Some(&Entry::Link(b"../../repo/.vimrc".to_vec()))
    );
    assert_eq!(follow(b"/home/alice/.vimrc", b"../../repo/.vimrc"), b"/repo/.vimrc".to_vec());
    assert_eq!(trace.last(), Some(&Action::Finish));
    assert!(adder.is_finished());
    assert!(adder.skipped().is_empty());
}

#[test]
fn adding_a_file_asks_for_each_step_in_turn() {
    let config = Config { repo_dir: b"/repo".to_vec() };
    let (adder, action) = Adder::new(config, vec![b"/home/alice/.vimrc".to_vec()]);
    assert_eq!(action, Action::Classify { path: b"/home/alice/.vimrc".to_vec() });

    let (adder, action) = adder.step(Event::Classified(FileType::File));
    assert_eq!(action, Action::Canonicalize { path: b"/home/alice/.vimrc".to_vec() });

    let (adder, action) = adder.step(Event::Resolved(b"/home/alice/.vimrc".to_vec()));
    assert_eq!(action, Action::CreateDirAll { path: b"/repo".to_vec() });

    let (adder, action) = adder.step(Event::Done);
    assert_eq!(
        action,
        Action::Rename { from: b"/home/alice/.vimrc".to_vec(), to: b"/repo/.vimrc".to_vec() }
    );

    let (adder, action) = adder.step(Event::Done);
    assert_eq!(action, Action::Canonicalize { path: b"/home/alice".to_vec() });

    let (adder, action) = adder.step(Event::Resolved(b"/home/alice".to_vec()));
    assert_eq!(action, Action::Canonicalize { path: b"/repo/.vimrc".to_vec() });

    let (adder, action) = adder.step(Event::Resolved(b"/repo/.vimrc".to_vec()));
    assert_eq!(
        action,
        Action::Symlink { target: b"../../repo/.vimrc".to_vec(), link: b"/home/alice/.vimrc".to_vec() }
    );
    assert!(!adder.is_finished());

    let (adder, action) = adder.step(Event::Done);
    assert_eq!(action, Action::Finish);
    assert!(adder.is_finished());
}

#[test]
fn the_link_is_relative_to_where_the_paths_resolve() {
    let config = Config { repo_dir: b"dotfiles".to_vec() };
    let (adder, _) = Adder::new(config, vec![b"work/../.vimrc".to_vec()]);
    let (adder, action) = adder.step(Event::Classified(FileType::File));
    assert_eq!(action, Action::Canonicalize { path: b"work/../.vimrc".to_vec() });
    let (adder, action) = adder.step(Event::Resolved(b"/home/alice/.vimrc".to_vec()));
    assert_eq!(action, Action::CreateDirAll { path: b"dotfiles".to_vec() });
    let (adder, action) = adder.step(Event::Done);
    assert_eq!(
        action,
        Action::Rename { from: b"/home/alice/.vimrc".to_vec(), to: b"dotfiles/.vimrc".to_vec() }
    );
    let (adder, _) = adder.step(Event::Done);
    let (adder, action) = adder.step(Event::Resolved(b"/mnt/users/alice".to_vec()));
    assert_eq!(action, Action::Canonicalize { path: b"dotfiles/.vimrc".to_vec() });
    let (_, action) = adder.step(Event::Resolved(b"/mnt/users/alice/dotfiles/.vimrc".to_vec()));
    assert_eq!(
        action,
        Action::Symlink { target: b"dotfiles/.vimrc".to_vec(), link: b"/home/alice/.vimrc".to_vec() }
    );
}

#[test]
fn adding_a_directory_changes_nothing_and_reports_it() {
    let mut disk = home_of_alice();
    let before = disk.entries.clone();
    let (adder, trace) = run(&mut disk, "/repo", &["/home/alice/.config"]);

    assert_eq!(disk.entries, before);
    assert_eq!(
        adder.skipped(),
        &vec![Skipped { path: b"/home/alice/.config".to_vec(), reason: SkipReason::Directory }]
    );
    assert_eq!(
        trace,
        vec![
            Action::Classify { path: b"/home/alice/.config".to_vec() },
            Action::Report {
                text: b"The following paths are ignored:\n/home/alice/.config\t(file is a directory, which cannot be added)\n"
                    .to_vec()
            },
        ]
    );
}

#[test]
fn adding_a_link_changes_nothing_and_reports_it() {
    let mut disk = home_of_alice();
    let before = disk.entries.clone();
    let (adder, trace) = run(&mut disk, "/repo", &["/home/alice/current"]);

    assert_eq!(disk.entries, before);
    assert_eq!(
        adder.skipped(),
        &vec![Skipped { path: b"/home/alice/current".to_vec(), reason: SkipReason::Symlink }]
    );
    assert_eq!(
        trace.last(),
        Some(&Action::Report {
            text: b"The following paths are ignored:\n/home/alice/current\t(file is a symlink, which cannot be added)\n"
                .to_vec()
        })
    );
}

#[test]
fn adding_a_file_twice_passes_over_the_link_the_second_time() {
    let mut disk = home_of_alice();
    let (first, _) = run(&mut disk, "/repo", &["/home/alice/.vimrc"]);
    assert!(first.skipped().is_empty());
    let after_first = disk.entries.clone();

    let (second, trace) = run(&mut disk, "/repo", &["/home/alice/.vimrc"]);
    assert_eq!(disk.entries, after_first);
    assert_eq!(
        second.skipped(),
        &vec![Skipped { path: b"/home/alice/.vimrc".to_vec(), reason: SkipReason::Symlink }]
    );
    assert_eq!(trace.len(), 2);
    assert_eq!(trace[0], Action::Classify { path: b"/home/alice/.vimrc".to_vec() });
    assert!(matches!(trace[1], Action::Report { .. }));
}

#[test]
fn inputs_passed_over_do_not_stop_the_run() {
    let mut disk = home_of_alice();
    let files = ["/home/alice/.config", "/home/alice/.vimrc", "/home/alice/current", "/home/alice/.bashrc"];
    let (adder, trace) = run(&mut disk, "/repo", &files);

    assert_eq!(disk.entries.get(&b"/repo/.vimrc".to_vec()), Some(&Entry::File));
    assert_eq!(disk.entries.get(&b"/repo/.bashrc".to_vec()), Some(&Entry::File));
    assert_eq!(
        disk.entries.get(&b"/home/alice/.bashrc".to_vec()),
        Some(&Entry::Link(b"../../repo/.bashrc".to_vec()))
    );
    assert_eq!(disk.entries.get(&b"/home/alice/.config".to_vec()), Some(&Entry::Dir));
    assert_eq!(
        adder.skipped(),
        &vec![
            Skipped { path: b"/home/alice/.config".to_vec(), reason: SkipReason::Directory },
            Skipped { path: b"/home/alice/current".to_vec(), reason: SkipReason::Symlink },
        ]
    );
    assert_eq!(trace.last(), Some(&Action::Report { text: report(adder.skipped()) }));
    assert_eq!(trace.len(), 1 + 7 + 1 + 7 + 1);
    assert!(trace.len() <= 7 * files.len() + 1);
}

#[test]
fn a_failure_stops_the_run_before_the_inputs_that_follow() {
    let mut disk = home_of_alice();
    let before = disk.entries.clone();
    let (adder, trace) = run(&mut disk, "/repo", &["/home/alice/absent", "/home/alice/.vimrc"]);

    assert_eq!(disk.entries, before);
    assert_eq!(
        trace,
        vec![
            Action::Classify { path: b"/home/alice/absent".to_vec() },
            Action::Abort { error: Error::Io("No such file or directory (os error 2)".to_string()) },
        ]
    );
    assert!(adder.is_finished());
}

#[test]
fn a_failure_leaves_what_was_done_and_hides_the_report() {
    let mut disk = home_of_alice();
    let files = ["/home/alice/.config", "/home/alice/.vimrc", "/home/alice/absent", "/home/alice/.bashrc"];
    let (adder, trace) = run(&mut disk, "/repo", &files);

    assert_eq!(disk.entries.get(&b"/repo/.vimrc".to_vec()), Some(&Entry::File));
    assert_eq!(disk.entries.get(&b"/home/alice/.bashrc".to_vec()), Some(&Entry::File));
    assert_eq!(disk.entries.get(&b"/repo/.bashrc".to_vec()), None);
    assert_eq!(adder.skipped().len(), 1);
    assert_eq!(
        trace.last(),
        Some(&Action::Abort { error: Error::Io("No such file or directory (os error 2)".to_string()) })
    );
}

#[test]
fn a_failed_move_leaves_the_file_without_a_link() {
    let mut disk = home_of_alice();
    disk.failing_renames = true;
    let (_, trace) = run(&mut disk, "/repo", &["/home/alice/.vimrc", "/home/alice/.bashrc"]);

    assert_eq!(disk.entries.get(&b"/home/alice/.vimrc".to_vec()), Some(&Entry::File));
    assert_eq!(disk.entries.get(&b"/repo".to_vec()), Some(&Entry::Dir));
    assert_eq!(disk.entries.get(&b"/repo/.vimrc".to_vec()), None);
    assert_eq!(
        trace.last(),
        Some(&Action::Abort { error: Error::Io("Invalid cross-device link (os error 18)".to_string()) })
    );
    assert!(!trace.iter().any(|action| matches!(action, Action::Symlink { .. })));
}

#[test]
fn a_failure_is_taken_at_every_stage() {
    for stage in 0..7 {
        let config = Config { repo_dir: b"/repo".to_vec() };
        let (mut adder, _) = Adder::new(config, vec![b"/home/alice/.vimrc".to_vec(), b"/x".to_vec()]);
        let answers = vec![
            Event::Classified(FileType::File),
            Event::Resolved(b"/home/alice/.vimrc".to_vec()),
            Event::Done,
            Event::Done,
            Event::Resolved(b"/home/alice".to_vec()),
            Event::Resolved(b"/repo/.vimrc".to_vec()),
        ];
        for answer in answers.into_iter().take(stage) {
            assert!(adder.expects(&answer));
            (adder, _) = adder.step(answer);
        }
        let failure = Event::Failed("Permission denied (os error 13)".to_string());
        assert!(adder.expects(&failure));
        let (adder, action) = adder.step(failure);
        assert_eq!(action, Action::Abort { error: Error::Io("Permission denied (os error 13)".to_string()) });
        assert!(adder.is_finished());
        assert!(!adder.expects(&Event::Done));
        assert!(!adder.expects(&Event::Failed("again".to_string())));
    }
}

#[test]
fn paths_without_a_common_root_end_the_run() {
    let config = Config { repo_dir: b"repo".to_vec() };
    let (adder, _) = Adder::new(config, vec![b".vimrc".to_vec(), b".bashrc".to_vec()]);
    let (adder, _) = adder.step(Event::Classified(FileType::File));
    let (adder, _) = adder.step(Event::Resolved(b"/home/alice/.vimrc".to_vec()));
    let (adder, _) = adder.step(Event::Done);
    let (adder, _) = adder.step(Event::Done);
    let (adder, _) = adder.step(Event::Resolved(b"/home/alice".to_vec()));
    let (adder, action) = adder.step(Event::Resolved(b"repo/.vimrc".to_vec()));
    assert_eq!(action, Action::Abort { error: Error::NoCommonAncestor });
    assert!(adder.is_finished());
}

#[test]
fn no_inputs_means_nothing_to_do() {
    let (adder, action) = Adder::new(Config { repo_dir: b"/repo".to_vec() }, Vec::new());
    assert_eq!(action, Action::Finish);
    assert!(adder.is_finished());
    assert!(adder.skipped().is_empty());
    assert!(!adder.expects(&Event::Done));
}

#[test]
fn an_existing_file_at_the_destination_is_moved_over() {
    let mut disk = home_of_alice();
    disk.entries.insert(b"/repo".to_vec(), Entry::Dir);
    disk.entries.insert(b"/repo/.vimrc".to_vec(), Entry::File);
    let (_, trace) = run(&mut disk, "/repo", &["/home/alice/.vimrc"]);
    assert!(trace.contains(&Action::Rename {
        from: b"/home/alice/.vimrc".to_vec(),
        to: b"/repo/.vimrc".to_vec()
    }));
    assert_eq!(trace.last(), Some(&Action::Finish));
}

#[test]
fn only_the_answer_to_the_last_action_is_expected() {
    let (adder, _) = Adder::new(Config { repo_dir: b"/repo".to_vec() }, vec![b"a".to_vec()]);
    assert!(adder.expects(&Event::Classified(FileType::Dir)));
    assert!(adder.expects(&Event::Classified(FileType::File)));
    assert!(!adder.expects(&Event::Done));
    assert!(!adder.expects(&Event::Resolved(b"/a".to_vec())));

    let (adder, _) = adder.step(Event::Classified(FileType::File));
    assert!(adder.expects(&Event::Resolved(b"/home/alice/a".to_vec())));
    assert!(!adder.expects(&Event::Resolved(b"/".to_vec())));
    assert!(!adder.expects(&Event::Resolved(b"/home/alice/..".to_vec())));
    assert!(!adder.expects(&Event::Classified(FileType::File)));
    assert!(!adder.expects(&Event::Done));

    let (adder, _) = adder.step(Event::Resolved(b"/home/alice/a".to_vec()));
    assert!(adder.expects(&Event::Done));
    assert!(!adder.expects(&Event::Resolved(b"/repo".to_vec())));

    let (adder, _) = adder.step(Event::Done);
    assert!(adder.expects(&Event::Done));
    let (adder, _) = adder.step(Event::Done);
    assert!(adder.expects(&Event::Resolved(b"/home/alice".to_vec())));
    assert!(!adder.expects(&Event::Done));
}

#[test]
fn the_report_lists_each_path_with_its_reason() {
    assert_eq!(report(&Vec::new()), b"The following paths are ignored:\n".to_vec());
    let list = vec![
        Skipped { path: b"/a".to_vec(), reason: SkipReason::Symlink },
        Skipped { path: b"b/c".to_vec(), reason: SkipReason::Directory },
    ];
    assert_eq!(
        report(&list),
        b"The following paths are ignored:\n/a\t(file is a symlink, which cannot be added)\nb/c\t(file is a directory, which cannot be added)\n"
            .to_vec()
    );
    assert_eq!(SkipReason::Directory.message(), "file is a directory, which cannot be added");
    assert_eq!(SkipReason::Symlink.message(), "file is a symlink, which cannot be added");
}
