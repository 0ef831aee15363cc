use fileserver::vfs::{File, Files, Vfs};

fn load(text: &[u8]) -> Vfs {
    Vfs::new(text)
}

#[test]
fn load_then_lookup_each_line() {
    let vfs = load(b"report$./docs/report.txt\nnotes$\nplain\n");
    assert_eq!(
        vfs.path_by_name(b"report").unwrap(),
        b"./docs/report.txt".to_vec()
    );
    assert_eq!(vfs.path_by_name(b"notes").unwrap(), b"./notes".to_vec());
    assert_eq!(vfs.path_by_name(b"plain").unwrap(), b"./plain".to_vec());
}

#[test]
fn duplicate_name_first_occurrence_wins() {
    let vfs = load(b"twin$first.txt\ntwin$second.txt\n");
    assert_eq!(vfs.path_by_name(b"twin").unwrap(), b"first.txt".to_vec());
}

#[test]
fn missing_path_defaults_to_same_directory() {
    let vfs = load(b"alone");
    assert_eq!(vfs.path_by_name(b"alone").unwrap(), b"./alone".to_vec());
}

#[test]
fn blank_lines_and_surrounding_whitespace_ignored() {
    let vfs = load(b"\n   \n  a$b  \n\n");
    let f = vfs.get_file_by_name(b"a").unwrap();
    assert_eq!(f.get_filename().clone(), b"a".to_vec());
    assert_eq!(f.get_path().clone(), b"b".to_vec());
    assert!(vfs.get_file_by_name(b"").is_none());
}

#[test]
fn carriage_return_line_endings_accepted() {
    let vfs = load(b"x$y\r\nz$w\r\n");
    assert_eq!(vfs.path_by_name(b"x").unwrap(), b"y".to_vec());
    assert_eq!(vfs.path_by_name(b"z").unwrap(), b"w".to_vec());
}

#[test]
fn extra_separators_keep_middle_portion_as_path() {
    let vfs = load(b"a$b$c\n");
    assert_eq!(vfs.path_by_name(b"a").unwrap(), b"b".to_vec());
}

#[test]
fn lookup_of_unlisted_name_is_none() {
    let vfs = load(b"one$1\ntwo$2\n");
    assert!(vfs.path_by_name(b"three").is_none());
    assert!(vfs.get_file_by_name(b"three").is_none());
}

#[test]
fn unresolved_name_falls_back_to_mapping_file_entry() {
    let vfs = load(b"one$1\n");
    let f = vfs.resolve(b"missing");
    assert_eq!(f.get_filename().clone(), b"tmp.vfs".to_vec());
    assert_eq!(f.get_path().clone(), b"./tmp.vfs".to_vec());
}

#[test]
fn resolved_name_keeps_its_entry() {
    let vfs = load(b"one$1\n");
    let f = vfs.resolve(b"one");
    assert_eq!(f.get_filename().clone(), b"one".to_vec());
    assert_eq!(f.get_path().clone(), b"1".to_vec());
}

#[test]
fn add_and_get_file() {
    let mut files = Files::new();
    files.add_file(File::new(b"a".to_vec(), b"pa".to_vec()));
    files.add_file(File::new(b"b".to_vec(), Vec::new()));
    let got = files.get_file(b"b").unwrap();
    assert_eq!(got.get_path().clone(), b"./b".to_vec());
    assert!(files.get_file(b"c").is_none());
}

#[test]
fn rem_file_removes_every_match() {
    let mut files = Files::new();
    files.add_file(File::new(b"a".to_vec(), b"1".to_vec()));
    files.add_file(File::new(b"b".to_vec(), b"2".to_vec()));
    files.add_file(File::new(b"a".to_vec(), b"3".to_vec()));
    files.rem_file(b"a");
    assert!(files.get_file(b"a").is_none());
    assert_eq!(files.get_file(b"b").unwrap().get_path().clone(), b"2".to_vec());
}

#[test]
fn mapping_bytes_renders_one_line_per_entry() {
    let mut files = Files::new();
    files.add_file(File::new(b"a".to_vec(), b"pa".to_vec()));
    files.add_file(File::new(b"b".to_vec(), Vec::new()));
    assert_eq!(files.mapping_bytes(), b"a$pa\nb$./b\n".to_vec());
}

#[test]
fn make_address_prefixes_server_address() {
    let f = File::new(b"report".to_vec(), b"x".to_vec());
    assert_eq!(Vfs::make_address(&f), b"127.0.0.1:8888/report".to_vec());
}

#[test]
fn allocate_builds_address_of_listed_name() {
    let vfs = load(b"report$x\n");
    assert_eq!(vfs.allocate(b"report"), b"127.0.0.1:8888/report".to_vec());
}

#[test]
fn setters_replace_fields() {
    let mut f = File::new(b"old".to_vec(), b"p".to_vec());
    f.set_filename(b"new".to_vec());
    f.set_path(b"q".to_vec());
    assert_eq!(f.get_filename().clone(), b"new".to_vec());
    assert_eq!(f.get_path().clone(), b"q".to_vec());
    let g = f.clone();
    assert_eq!(g.get_filename().clone(), b"new".to_vec());
    assert_eq!(g.get_path().clone(), b"q".to_vec());
}
