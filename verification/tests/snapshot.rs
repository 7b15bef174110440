use prefault::filelist::{is_list_file, FileList};
use prefault::filter::{
    is_primed, match_filter, match_filter_process, select_target, CommandError, Filter,
    FilterError, Target,
};
use prefault::pathset::PathSet;
use prefault::process::Process;
use prefault::snapshot::{is_snapshot_file, Snapshot, SnapshotError};
use prefault::util::hash_string;
use std::collections::hash_map::DefaultHasher;
use std::collections::{HashMap, HashSet};
use std::hash::{Hash, Hasher};

fn paths(list: &[&str]) -> PathSet {
    let mut set = PathSet::new();
    for p in list {
        set.insert(p.to_string());
    }
    set
}

fn snapshot(enabled: bool, command: &str, files: &[&str]) -> Snapshot {
    Snapshot { enabled, command: command.to_string(), mappings: paths(files) }
}

fn as_set(set: &PathSet) -> HashSet<String> {
    set.paths.iter().cloned().collect()
}

fn refused(path: &str, content: &str) -> bool {
    match Snapshot::new_from_file(path, content) {
        Err(SnapshotError::FormatError(file)) => file == path,
        Ok(_) => false,
    }
}

#[test]
fn path_set_holds_each_path_once() {
    let mut set = PathSet::new();
    assert_eq!(set.len(), 0);
    assert!(set.insert("/a".to_string()));
    assert!(set.insert("/b".to_string()));
    assert!(!set.insert("/a".to_string()));
    assert_eq!(set.paths, vec!["/a".to_string(), "/b".to_string()]);
    assert_eq!(set.len(), 2);
    assert!(set.contains(&"/b".to_string()));
    assert!(!set.contains(&"/c".to_string()));
    assert!(!set.contains(&"/".to_string()));
}

#[test]
fn fingerprint_is_the_default_hash_of_the_text() {
    for s in ["", "bash", "firefox", "a b", "\u{e9}t\u{e9}"] {
        let mut hasher = DefaultHasher::new();
        s.hash(&mut hasher);
        assert_eq!(hash_string(s), hasher.finish(), "{:?}", s);
    }
}

#[test]
fn fingerprint_is_the_same_in_every_call() {
    assert_eq!(hash_string("bash"), hash_string("bash"));
    assert_eq!(hash_string("bash"), hash_string(&String::from("bash")));
    assert_ne!(hash_string("bash"), hash_string("bash "));
    assert_ne!(hash_string("ab"), hash_string("ba"));
    assert_eq!(snapshot(true, "bash", &[]).get_hash(), hash_string("bash"));
    assert_eq!(snapshot(false, "bash", &["/x"]).get_hash(), hash_string("bash"));
}

#[test]
fn snapshot_of_a_process() {
    let maps = "1000-2000 r-xp 00000000 08:01 1 /bin/bash\n2000-3000 rw-p 00000000 00:00 0 [heap]\n3000-4000 r--p 00000000 08:01 2 /lib/libc.so\n4000-5000 r--p 00000000 08:01 1 /bin/bash\n5000-6000 rw-p 00000000 00:00 0 \n";
    let process = Process::new(10, maps).unwrap();
    let s = Snapshot::new_from_process(&process, "bash\n");
    assert!(s.enabled);
    assert_eq!(s.command, "bash");
    assert_eq!(s.mappings.paths, vec!["/bin/bash".to_string(), "/lib/libc.so".to_string()]);
}

#[test]
fn stored_snapshot_is_read() {
    let text = "prefault snapshot: 1.0\nenabled: false\n  bash \n/bin/bash\n/lib/libc.so\n";
    let s = Snapshot::new_from_file("/var/x.snapshot", text).unwrap();
    assert!(!s.enabled);
    assert_eq!(s.command, "  bash ");
    assert_eq!(s.mappings.paths, vec!["/bin/bash".to_string(), "/lib/libc.so".to_string()]);
    let t = Snapshot::new_from_file("x", "prefault snapshot: 1.0\nenabled: true\ncat").unwrap();
    assert!(t.enabled);
    assert_eq!(t.command, "cat");
    assert!(t.mappings.paths.is_empty());
}

#[test]
fn stored_paths_that_name_no_file_are_left_out() {
    let text = "prefault snapshot: 1.0\nenabled: true\nbash\n/a\n\n[heap]\n/a\n/tmp/x (deleted)\n   \n/b\n";
    let s = Snapshot::new_from_file("x", text).unwrap();
    assert_eq!(s.mappings.paths, vec!["/a".to_string(), "/b".to_string()]);
}

#[test]
fn first_line_must_be_the_header() {
    let rest = "enabled: true\nbash\n/bin/bash\n";
    for first in [
        "",
        "prefault snapshot: 1.1",
        "prefault snapshot: 1.0 ",
        " prefault snapshot: 1.0",
        "prefault snapshot: 1.0\r",
        "Prefault snapshot: 1.0",
        "prefault snapshot:1.0",
        "prefault snapshot: 2.0",
        "enabled: true",
    ] {
        let text = format!("{}\n{}", first, rest);
        assert!(refused("/dir/file", &text), "{:?}", first);
    }
    assert!(refused("f", ""));
    assert!(refused("f", "\n"));
    assert!(refused("f", "bash"));
    assert!(!refused("f", &format!("prefault snapshot: 1.0\n{}", rest)));
}

#[test]
fn header_has_three_lines() {
    assert!(refused("f", "prefault snapshot: 1.0"));
    assert!(refused("f", "prefault snapshot: 1.0\n"));
    assert!(refused("f", "prefault snapshot: 1.0\nenabled: true"));
    assert!(refused("f", "prefault snapshot: 1.0\nenabled: true\n"));
    assert!(!refused("f", "prefault snapshot: 1.0\nenabled: true\n\n"));
    assert!(refused("f", "prefault snapshot: 1.0\nenabled: yes\nbash\n"));
    assert!(refused("f", "prefault snapshot: 1.0\nenabled:true\nbash\n"));
    assert!(refused("f", "prefault snapshot: 1.0\nenabled: false \nbash\n"));
    assert!(refused("f", "prefault snapshot: 1.0\n\nenabled: true\nbash\n"));
}

#[test]
fn snapshot_is_written_line_by_line() {
    let s = snapshot(true, "bash", &["/bin/bash", "/lib/libc.so"]);
    let file = s.save_to_file("/var/lib/prefault/snapshots");
    assert_eq!(
        file.content,
        "prefault snapshot: 1.0\nenabled: true\nbash\n/bin/bash\n/lib/libc.so\n"
    );
    assert_eq!(
        file.path,
        format!("/var/lib/prefault/snapshots/{}.snapshot", hash_string("bash"))
    );
    let off = snapshot(false, "", &[]).save_to_file("d");
    assert_eq!(off.content, "prefault snapshot: 1.0\nenabled: false\n\n");
}

#[test]
fn snapshot_file_lies_in_the_directory() {
    let s = snapshot(true, "cat", &[]);
    let name = format!("{}.snapshot", s.get_hash());
    assert_eq!(s.save_to_file("").path, name);
    assert_eq!(s.save_to_file("/").path, format!("/{}", name));
    assert_eq!(s.save_to_file("dir").path, format!("dir/{}", name));
    assert_eq!(s.save_to_file("dir/").path, format!("dir/{}", name));
    assert_eq!(s.save_to_file("/a/b").path, format!("/a/b/{}", name));
}

#[test]
fn saved_snapshot_reads_back() {
    for s in [
        snapshot(true, "bash", &["/bin/bash", "/lib/libc.so", "/usr/share/a b"]),
        snapshot(false, "kworker/0:1", &[]),
        snapshot(true, "", &["/x"]),
        snapshot(false, "a  b", &["/\u{e9}", "/z\r"]),
        snapshot(true, " x", &["/a"]),
        snapshot(true, "a ", &[]),
        snapshot(false, "\t kworker \u{a0}", &["/b"]),
        snapshot(false, "  ", &[]),
    ] {
        let file = s.save_to_file("/snapshots");
        let back = Snapshot::new_from_file(&file.path, &file.content).unwrap();
        assert_eq!(back.enabled, s.enabled);
        assert_eq!(back.command, s.command);
        assert_eq!(as_set(&back.mappings), as_set(&s.mappings));
    }
}

#[test]
fn paths_read_back_in_any_order() {
    let a = snapshot(true, "x", &["/1", "/2", "/3"]).save_to_file("");
    let b = snapshot(true, "x", &["/3", "/1", "/2"]).save_to_file("");
    let ra = Snapshot::new_from_file("a", &a.content).unwrap();
    let rb = Snapshot::new_from_file("b", &b.content).unwrap();
    assert_ne!(a.content, b.content);
    assert_eq!(as_set(&ra.mappings), as_set(&rb.mappings));
}

#[test]
fn second_snapshot_of_a_command_takes_the_place_of_the_first() {
    let mut store: HashMap<String, String> = HashMap::new();
    let first = snapshot(true, "bash", &["/bin/bash"]).save_to_file("/s");
    store.insert(first.path, first.content);
    let second = snapshot(false, "bash", &["/lib/libc.so", "/bin/sh"]).save_to_file("/s");
    store.insert(second.path.clone(), second.content.clone());
    assert_eq!(store.len(), 1);
    let kept = Snapshot::new_from_file(&second.path, &store[&second.path]).unwrap();
    assert!(!kept.enabled);
    assert_eq!(kept.command, "bash");
    assert_eq!(kept.mappings.paths, vec!["/lib/libc.so".to_string(), "/bin/sh".to_string()]);
    let other = snapshot(true, "zsh", &[]).save_to_file("/s");
    store.insert(other.path, other.content);
    assert_eq!(store.len(), 2);
}

#[test]
fn enabling_changes_the_flag_only() {
    let mut s = snapshot(true, "bash", &["/bin/bash"]);
    s.set_enabled(false);
    assert!(!s.enabled);
    assert_eq!(s.command, "bash");
    assert_eq!(s.mappings.paths, vec!["/bin/bash".to_string()]);
    s.set_enabled(false);
    assert!(!s.enabled);
    s.set_enabled(true);
    assert!(s.enabled);
    let file = s.save_to_file("");
    assert!(Snapshot::new_from_file("", &file.content).unwrap().enabled);
}

#[test]
fn file_list_has_one_path_on_each_line() {
    let list = FileList::new_from_file("/etc/passwd\n/bin/sh\n/etc/passwd\n");
    assert_eq!(list.files.paths, vec!["/etc/passwd".to_string(), "/bin/sh".to_string()]);
    assert!(FileList::new_from_file("").files.paths.is_empty());
    let odd = FileList::new_from_file("prefault snapshot: 1.0\n\n a \nlast");
    assert_eq!(
        odd.files.paths,
        vec![
            "prefault snapshot: 1.0".to_string(),
            "".to_string(),
            " a ".to_string(),
            "last".to_string()
        ]
    );
}

#[test]
fn filters_are_read() {
    match Filter::parse("comm= bash ") {
        Ok(Filter::Command(c)) => assert_eq!(c, "bash"),
        other => panic!("{:?}", other),
    }
    match Filter::parse("command=fire fox") {
        Ok(Filter::Command(c)) => assert_eq!(c, "fire fox"),
        other => panic!("{:?}", other),
    }
    match Filter::parse("comm=") {
        Ok(Filter::Command(c)) => assert_eq!(c, ""),
        other => panic!("{:?}", other),
    }
    match Filter::parse("hash=18446744073709551615") {
        Ok(Filter::Hash(h)) => assert_eq!(h, u64::MAX),
        other => panic!("{:?}", other),
    }
    match Filter::parse("hashes=42") {
        Ok(Filter::Hash(h)) => assert_eq!(h, 42),
        other => panic!("{:?}", other),
    }
    assert!(matches!(Filter::parse("pid=42"), Ok(Filter::Nothing)));
    assert!(matches!(Filter::parse("=42"), Ok(Filter::Nothing)));
    assert!(matches!(Filter::parse(" comm=x"), Ok(Filter::Nothing)));
}

#[test]
fn bad_filters_are_refused() {
    assert!(matches!(Filter::parse(""), Err(FilterError::InvalidSyntax)));
    assert!(matches!(Filter::parse("comm"), Err(FilterError::InvalidSyntax)));
    assert!(matches!(Filter::parse("comm=a=b"), Err(FilterError::InvalidSyntax)));
    assert!(matches!(Filter::parse("hash=1="), Err(FilterError::InvalidSyntax)));
    assert!(matches!(Filter::parse("hash="), Err(FilterError::InvalidHash)));
    assert!(matches!(Filter::parse("hash=abc"), Err(FilterError::InvalidHash)));
    assert!(matches!(Filter::parse("hash= 1"), Err(FilterError::InvalidHash)));
    assert!(matches!(Filter::parse("hash=18446744073709551616"), Err(FilterError::InvalidHash)));
}

#[test]
fn snapshots_match_by_command_or_fingerprint() {
    let s = snapshot(true, "firefox-bin", &[]);
    assert!(Filter::Command("fox".to_string()).matches_snapshot(&s));
    assert!(Filter::Command("".to_string()).matches_snapshot(&s));
    assert!(Filter::Command("firefox-bin".to_string()).matches_snapshot(&s));
    assert!(!Filter::Command("firefox-bin2".to_string()).matches_snapshot(&s));
    assert!(!Filter::Command("Fox".to_string()).matches_snapshot(&s));
    assert!(Filter::Hash(hash_string("firefox-bin")).matches_snapshot(&s));
    assert!(!Filter::Hash(hash_string("firefox")).matches_snapshot(&s));
    assert!(!Filter::Nothing.matches_snapshot(&s));
    assert!(match_filter(None, &s));
    assert!(match_filter(Some(&Filter::Command("bin".to_string())), &s));
    assert!(!match_filter(Some(&Filter::Nothing), &s));
    let by_name = Filter::parse(&format!("hash={}", s.get_hash())).unwrap();
    assert!(match_filter(Some(&by_name), &s));
}

#[test]
fn processes_match_by_the_beginning_of_their_command() {
    let f = Filter::Command("fire".to_string());
    assert!(f.matches_process("firefox"));
    assert!(f.matches_process("fire"));
    assert!(!f.matches_process("fir"));
    assert!(!f.matches_process("campfire"));
    assert!(!Filter::Hash(hash_string("firefox")).matches_process("firefox"));
    assert!(!Filter::Nothing.matches_process("firefox"));
    assert!(match_filter_process(None, "anything"));
    assert!(match_filter_process(Some(&f), "firefox"));
    assert!(!match_filter_process(Some(&f), "chrome"));
}

#[test]
fn only_enabled_snapshots_are_primed() {
    let on = snapshot(true, "bash", &[]);
    let off = snapshot(false, "bash", &[]);
    let f = Filter::Command("ba".to_string());
    let g = Filter::Command("zsh".to_string());
    assert!(is_primed(None, &on));
    assert!(!is_primed(None, &off));
    assert!(is_primed(Some(&f), &on));
    assert!(!is_primed(Some(&f), &off));
    assert!(!is_primed(Some(&g), &on));
}

#[test]
fn process_id_goes_before_the_filter() {
    assert!(matches!(select_target(None, Some(5)), Ok(Target::Pid(5))));
    assert!(matches!(
        select_target(Some(Filter::Hash(1)), Some(5)),
        Ok(Target::Pid(5))
    ));
    assert!(matches!(
        select_target(Some(Filter::Hash(1)), None),
        Ok(Target::Matching(Filter::Hash(1)))
    ));
    assert!(matches!(select_target(None, None), Err(CommandError::InvalidParameters)));
}

#[test]
fn refusal_names_the_file() {
    match Snapshot::new_from_file("/s/1.snapshot", "not a snapshot") {
        Err(e) => assert_eq!(
            e.message(),
            "Invalid snapshot file format or unsupported version: /s/1.snapshot"
        ),
        Ok(_) => panic!("a text without header was read"),
    }
}

#[test]
fn files_are_told_by_their_extension() {
    assert!(is_list_file("/etc/prefault/cache.d/base.list"));
    assert!(is_list_file("a.b.list"));
    assert!(!is_list_file("/etc/prefault/cache.d/.list"));
    assert!(!is_list_file(".list"));
    assert!(!is_list_file("list"));
    assert!(!is_list_file("/etc/cache.list/readme"));
    assert!(!is_list_file("/etc/base.lists"));
    assert!(!is_list_file("/etc/base.list/"));
    assert!(!is_list_file(""));
    assert!(is_snapshot_file("/var/lib/prefault/snapshots/1234.snapshot"));
    assert!(!is_snapshot_file("/var/lib/prefault/snapshots/1234.snap"));
    assert!(!is_snapshot_file("/var/lib/prefault/snapshots/1234.list"));
    for dir in ["", "/", "snap.shots", "/var/lib/x/"] {
        let file = snapshot(true, "bash", &[]).save_to_file(dir);
        assert!(is_snapshot_file(&file.path), "{}", file.path);
    }
}

#[test]
fn command_of_a_process_reads_back_as_captured() {
    let process = Process::new(1, "1000-2000 r-xp 00000000 08:01 1 /bin/a\n").unwrap();
    let s = Snapshot::new_from_process(&process, "a \0b\n");
    assert_eq!(s.command, "a ");
    let file = s.save_to_file("/s");
    let back = Snapshot::new_from_file(&file.path, &file.content).unwrap();
    assert_eq!(back.command, "a ");
    assert_eq!(back.get_hash(), s.get_hash());
}
