use seafuse::error::SeafError;
use seafuse::hash::Sha1;
use seafuse::library::Library;
use seafuse::store::Repo;

const UUID: &str = "868be3a7-b357-4189-af52-304b402d9904";
const NESTED_UUID: &str = "66ece1b2-55ed-414a-b0ee-2550273b0d29";

const ROOT_BASIC: &str = "ebd03d7c735be353d1c6d302e1092e69b5c5d041";
const FILE_TEST_MD: &str = "e40b894880747010bf6ec384b83e578f352beed7";
const BLOCK_TEST_MD: &str = "5516c9472d25947faae16a94ee25ed8054978c85";
const DIR_SOMEDIR: &str = "aaaaaaaaaaaaaaaaaaaaaaaaaaaaaaaaaaaaaaa1";
const FILE_TEST2_MD: &str = "aaaaaaaaaaaaaaaaaaaaaaaaaaaaaaaaaaaaaaa2";

const COMMIT_A: &str = "038cac5ffc20b13a4fac8d21e60bf01d03f8a179";
const COMMIT_B: &str = "3437b93bb6ce178dd3041b9db1874cc731cbca19";
const COMMIT_C: &str = "b075fb2acc9573f8b9546522f2c7f2221a062a29";

fn sha(s: &str) -> Sha1 {
    Sha1::parse(s).unwrap()
}

fn zlib(data: &str) -> Vec<u8> {
    let mut enc = flate2::write::ZlibEncoder::new(Vec::new(), flate2::Compression::default());
    std::io::Write::write_all(&mut enc, data.as_bytes()).unwrap();
    enc.finish().unwrap()
}

fn commit_json(commit_id: &str, root_id: &str, ctime: u64, repo_name: &str) -> String {
    format!(
        "{{\"commit_id\":\"{}\",\"root_id\":\"{}\",\"repo_id\":\"{}\",\"creator_name\":\"tester\",\"creator\":\"{}\",\"description\":\"added files\",\"ctime\":{},\"repo_name\":\"{}\",\"repo_desc\":\"a test library\",\"no_local_history\":1,\"version\":1}}",
        commit_id, root_id, UUID, COMMIT_A, ctime, repo_name
    )
}

fn file_json(block_ids: &[&str], size: u64) -> String {
    let ids: Vec<String> = block_ids.iter().map(|b| format!("\"{}\"", b)).collect();
    format!(
        "{{\"block_ids\":[{}],\"size\":{},\"type\":1,\"version\":1}}",
        ids.join(","),
        size
    )
}

fn dir_json(entries: &[(&str, &str)]) -> String {
    let des: Vec<String> = entries
        .iter()
        .map(|(id, name)| {
            format!(
                "{{\"id\":\"{}\",\"mode\":33188,\"mtime\":1700000000,\"name\":\"{}\"}}",
                id, name
            )
        })
        .collect();
    format!("{{\"dirents\":[{}],\"type\":3,\"version\":1}}", des.join(","))
}

/// The "basic" repository: a root with `test.md` (13 bytes, one block) and
/// `somedir` holding `test2.md`.
fn basic_repo() -> Repo {
    let mut repo = Repo::new();
    repo.add_commit(
        sha(COMMIT_A),
        commit_json(COMMIT_A, ROOT_BASIC, 200, "basic").into_bytes(),
    );
    repo.add_commit(
        sha(COMMIT_B),
        commit_json(COMMIT_B, ROOT_BASIC, 100, "basic").into_bytes(),
    );
    repo.add_fs(
        sha(ROOT_BASIC),
        zlib(&dir_json(&[(FILE_TEST_MD, "test.md"), (DIR_SOMEDIR, "somedir")])),
    );
    repo.add_fs(
        sha(FILE_TEST_MD),
        zlib(&file_json(&[BLOCK_TEST_MD], 13)),
    );
    repo.add_fs(
        sha(DIR_SOMEDIR),
        zlib(&dir_json(&[(FILE_TEST2_MD, "test2.md")])),
    );
    repo.add_fs(sha(FILE_TEST2_MD), zlib(&file_json(&[], 0)));
    repo.add_block(sha(BLOCK_TEST_MD), b"# test\n\ntest\n".to_vec());
    repo
}

fn open_basic() -> Library {
    Library::open("tests/testrepos/basic", UUID, basic_repo()).unwrap()
}

/// The "multiblock" repository: one file whose blocks concatenate to
/// `gronkadonkachonka`.
fn multiblock_repo() -> Repo {
    let b1 = "1111111111111111111111111111111111111111";
    let b2 = "2222222222222222222222222222222222222222";
    let b3 = "3333333333333333333333333333333333333333";
    let mut repo = Repo::new();
    repo.add_commit(
        sha(COMMIT_A),
        commit_json(COMMIT_A, ROOT_BASIC, 200, "multiblock").into_bytes(),
    );
    repo.add_fs(
        sha(ROOT_BASIC),
        zlib(&dir_json(&[(FILE_TEST_MD, "blocks.bin")])),
    );
    repo.add_fs(sha(FILE_TEST_MD), zlib(&file_json(&[b1, b2, b3], 17)));
    repo.add_block(sha(b1), b"gronka".to_vec());
    repo.add_block(sha(b2), b"donka".to_vec());
    repo.add_block(sha(b3), b"chonka".to_vec());
    repo
}

fn open_multiblock() -> Library {
    Library::open("tests/testrepos/multiblock", UUID, multiblock_repo()).unwrap()
}

/// The "nested" repository: `{a/a.md, b/b.md}`.
fn nested_repo() -> Repo {
    let root = "cccccccccccccccccccccccccccccccccccccc01";
    let dir_a = "cccccccccccccccccccccccccccccccccccccc02";
    let dir_b = "cccccccccccccccccccccccccccccccccccccc03";
    let file_a = "cccccccccccccccccccccccccccccccccccccc04";
    let file_b = "cccccccccccccccccccccccccccccccccccccc05";
    let mut repo = Repo::new();
    repo.add_commit(
        sha(COMMIT_A),
        commit_json(COMMIT_A, root, 200, "nested").into_bytes(),
    );
    repo.add_fs(sha(root), zlib(&dir_json(&[(dir_a, "a"), (dir_b, "b")])));
    repo.add_fs(sha(dir_a), zlib(&dir_json(&[(file_a, "a.md")])));
    repo.add_fs(sha(dir_b), zlib(&dir_json(&[(file_b, "b.md")])));
    repo.add_fs(sha(file_a), zlib(&file_json(&[], 0)));
    repo.add_fs(sha(file_b), zlib(&file_json(&[], 0)));
    repo
}

fn open_nested() -> Library {
    Library::open("tests/testrepos/nested", NESTED_UUID, nested_repo()).unwrap()
}

/// The "empty_dir" repository: the head commit's root is the sentinel
/// all-zero hash, so the root is an empty directory with no stored object.
fn empty_dir_repo() -> Repo {
    let zero = "0000000000000000000000000000000000000000";
    let mut repo = Repo::new();
    repo.add_commit(
        sha(COMMIT_A),
        commit_json(COMMIT_A, zero, 200, "empty_dir").into_bytes(),
    );
    repo
}

/// The "testrepo" repository of the early API tests: three commits.
fn testrepo() -> Repo {
    let mut repo = Repo::new();
    repo.add_commit(
        sha(COMMIT_A),
        commit_json(COMMIT_A, ROOT_BASIC, 300, "testrepo").into_bytes(),
    );
    repo.add_commit(
        sha(COMMIT_B),
        commit_json(COMMIT_B, ROOT_BASIC, 200, "testrepo").into_bytes(),
    );
    repo.add_commit(
        sha(COMMIT_C),
        commit_json(COMMIT_C, ROOT_BASIC, 100, "testrepo").into_bytes(),
    );
    repo.add_fs(
        sha(ROOT_BASIC),
        zlib(&dir_json(&[(FILE_TEST_MD, "test.md")])),
    );
    repo.add_fs(sha(FILE_TEST_MD), zlib(&file_json(&[BLOCK_TEST_MD], 13)));
    repo.add_block(sha(BLOCK_TEST_MD), b"# test\n\ntest\n".to_vec());
    repo
}

fn join(parent: &str, name: &str) -> String {
    if parent.is_empty() {
        name.to_string()
    } else {
        format!("{}/{}", parent, name)
    }
}

#[test]
fn parse_example_commit() {
    let bytes = commit_json(COMMIT_A, ROOT_BASIC, 300, "testrepo").into_bytes();
    let c = seafuse::decode::parse_commit(&bytes).unwrap();
    assert_eq!(c.commit_id.to_string(), COMMIT_A);
}

#[test]
fn test_find_and_parse_commits() {
    let lib = Library::open("tests/data/testrepo/", UUID, testrepo()).unwrap();
    let mut it = lib.commit_iterator();
    let mut ids: Vec<String> = Vec::new();
    while let Some(c) = it.next() {
        ids.push(c.unwrap().commit_id.to_string());
    }
    assert_eq!(ids, vec![COMMIT_A, COMMIT_B, COMMIT_C]);
}

#[test]
fn test_repo_find_and_parse_commits() {
    let lib = open_basic();
    let mut it = lib.commit_iterator();
    let mut ids: Vec<String> = Vec::new();
    while let Some(c) = it.next() {
        ids.push(c.unwrap().commit_id.to_string());
    }
    assert_eq!(ids[0..2], vec![COMMIT_A.to_string(), COMMIT_B.to_string()]);
}

#[test]
fn test_parse_example_fs_file() {
    let f = seafuse::decode::parse_fs_json(&zlib(&file_json(&[BLOCK_TEST_MD], 13)))
        .unwrap()
        .unwrap_file();
    let ids: Vec<String> = f.block_ids.into_iter().map(|s| s.to_string()).collect();
    assert_eq!(ids, vec![BLOCK_TEST_MD]);
}

#[test]
fn test_repo_parse_example_fs_file() {
    let f = seafuse::decode::parse_fs_json(&zlib(&file_json(&[BLOCK_TEST_MD], 13)))
        .unwrap()
        .unwrap_file();
    let ids: Vec<String> = f.block_ids.into_iter().map(|s| s.to_string()).collect();
    assert_eq!(ids, vec![BLOCK_TEST_MD]);
}

#[test]
fn test_parse_example_fs_dir() {
    let d = seafuse::decode::parse_fs_json(&zlib(&dir_json(&[
        (FILE_TEST_MD, "test.md"),
        (DIR_SOMEDIR, "somedir"),
    ])))
    .unwrap()
    .unwrap_dir();
    assert_eq!(d.dirents[0].id.to_string(), FILE_TEST_MD);
}

#[test]
fn test_repo_parse_example_fs_dir() {
    let d = seafuse::decode::parse_fs_json(&zlib(&dir_json(&[
        (FILE_TEST_MD, "test.md"),
        (DIR_SOMEDIR, "somedir"),
    ])))
    .unwrap()
    .unwrap_dir();
    assert_eq!(d.dirents[0].id.to_string(), FILE_TEST_MD);
}

#[test]
fn lookup_head_commit() {
    let lib = Library::open("tests/data/testrepo/", UUID, testrepo()).unwrap();
    assert_eq!(lib.head_commit.commit_id.to_string(), COMMIT_A);
}

#[test]
fn head_commit_selection_by_ctime() {
    // Among ctimes 100, 200 and 150 the commit with ctime 200 is the head.
    let mut repo = Repo::new();
    repo.add_commit(
        sha(COMMIT_B),
        commit_json(COMMIT_B, ROOT_BASIC, 100, "heads").into_bytes(),
    );
    repo.add_commit(
        sha(COMMIT_A),
        commit_json(COMMIT_A, ROOT_BASIC, 200, "heads").into_bytes(),
    );
    repo.add_commit(
        sha(COMMIT_C),
        commit_json(COMMIT_C, ROOT_BASIC, 150, "heads").into_bytes(),
    );
    let lib = Library::open("tests/data/heads", UUID, repo).unwrap();
    assert_eq!(lib.head_commit.ctime, 200);
    assert_eq!(lib.head_commit.commit_id.to_string(), COMMIT_A);
}

#[test]
fn no_head_commit_on_empty_store() {
    let r = Library::open("tests/data/none", UUID, Repo::new());
    assert!(matches!(r, Err(SeafError::NoHeadCommit)));
}

#[test]
fn parse_commit_rejects_bad_json() {
    let r = seafuse::decode::parse_commit(&b"{not json".to_vec());
    assert!(matches!(r, Err(SeafError::ParseJson(_))));
}

#[test]
fn test_sha1_roundtrip() {
    let raw = FILE_TEST_MD;
    let sha1 = Sha1::parse(raw).unwrap();
    assert_eq!(sha1.to_string(), raw);
}

#[test]
fn test_repo_sha1_roundtrip() {
    let raw = FILE_TEST_MD;
    let sha1 = Sha1::parse(raw).unwrap();
    assert_eq!(sha1.to_string(), raw);
}

#[test]
fn test_sha1_malformed() {
    assert_eq!(Sha1::parse("1234"), None);
    assert_eq!(Sha1::parse("thisisnosha1"), None);
}

#[test]
fn test_repo_sha1_malformed() {
    assert_eq!(Sha1::parse("1234"), None);
    assert_eq!(Sha1::parse("thisisnosha1"), None);
}

#[test]
fn sha1_zero_is_the_sentinel() {
    let zero = Sha1::zero();
    assert!(zero.is_zero());
    assert_eq!(zero.to_string(), "0000000000000000000000000000000000000000");
    assert_eq!(Sha1::parse("0000000000000000000000000000000000000000"), Some(zero));
}

#[test]
fn sha1_uppercase_parses_to_lowercase() {
    let upper = "E40B894880747010BF6EC384B83E578F352BEED7";
    let sha1 = Sha1::parse(upper).unwrap();
    assert_eq!(sha1.to_string(), upper.to_lowercase());
}

#[test]
fn object_path_layout() {
    let loc = seafuse::store::LibraryLocation {
        repo_path: "repo".to_string(),
        uuid: UUID.to_string(),
    };
    let p = seafuse::store::full_obj_path(&loc, "fs", &sha(FILE_TEST_MD));
    assert_eq!(
        p,
        format!(
            "repo/fs/{}/e4/0b894880747010bf6ec384b83e578f352beed7",
            UUID
        )
    );
}

#[test]
fn walk_lib_fs() {
    let lib = open_basic();
    let mut it = lib.fs_iterator();
    let mut file_names = std::collections::HashSet::new();
    while let Some(r) = it.next() {
        let (p, de, _fs) = r.unwrap();
        file_names.insert(join(&p, &de.name));
    }
    let expected: std::collections::HashSet<String> =
        ["test.md", "somedir", "somedir/test2.md"]
            .into_iter()
            .map(String::from)
            .collect();
    assert_eq!(file_names, expected);
}

#[test]
fn walk_prune_directory() {
    let lib = open_basic();
    let mut it = lib.fs_iterator();
    let (_path, de, _fs) = it.next().unwrap().unwrap();
    assert_eq!(de.name, "somedir");

    it.prune();
    let (_path, de, _fs) = it.next().unwrap().unwrap();
    assert_eq!(de.name, "test.md");

    let r = it.next();
    assert!(r.is_none());
}

#[test]
fn walk_prune_root() {
    let lib = open_basic();
    let mut it = lib.fs_iterator();
    it.prune();

    let r = it.next();
    assert!(r.is_none());
}

#[test]
fn walk_prune_nested() {
    let lib = open_nested();
    let mut it = lib.fs_iterator();
    let mut selected_paths: std::collections::HashSet<String> = std::collections::HashSet::new();
    let mut did_see_a = false;

    while let Some(x) = it.next() {
        let (path, de, _fs) = x.unwrap();
        let path_is_a = de.name == "a";
        let full_path = join(&path, &de.name);

        assert!(!did_see_a || !path_is_a);

        if path_is_a {
            it.prune();
            did_see_a = true;
            continue;
        }

        selected_paths.insert(full_path);
    }

    let expected: std::collections::HashSet<String> =
        ["b", "b/b.md"].into_iter().map(String::from).collect();
    assert_eq!(selected_paths, expected);
}

#[test]
fn read_file_having_single_block() {
    let lib = open_basic();
    let id = Sha1::parse(FILE_TEST_MD).unwrap();
    let f = lib.file_by_id(id).unwrap();
    let mut fr = lib.file_reader(&f).unwrap();
    let bytes = fr.read_to_end().unwrap();
    assert_eq!(&bytes, b"# test\n\ntest\n");
}

#[test]
fn read_file_having_multiple_blocks() {
    let lib = open_multiblock();
    let id = Sha1::parse(FILE_TEST_MD).unwrap();
    let f = lib.file_by_id(id).unwrap();
    let mut fr = lib.file_reader(&f).unwrap();
    let bytes = fr.read_to_end().unwrap();
    assert_eq!(&bytes, b"gronkadonkachonka");
}

#[test]
fn read_file_range() {
    let lib = open_multiblock();
    let id = Sha1::parse(FILE_TEST_MD).unwrap();
    let f = lib.file_by_id(id).unwrap();
    let mut fr = lib.file_reader(&f).unwrap();

    fr.seek(seafuse::blocks::SeekFrom::Start(5)).unwrap();
    let bytes = fr.read(7).unwrap();

    assert_eq!(bytes.len(), 7);
    assert_eq!(&bytes, b"adonkac");
}

#[test]
fn read_empty_range() {
    let lib = open_multiblock();
    let id = Sha1::parse(FILE_TEST_MD).unwrap();
    let f = lib.file_by_id(id).unwrap();
    let mut fr = lib.file_reader(&f).unwrap();

    fr.seek(seafuse::blocks::SeekFrom::Start(5)).unwrap();
    let bytes = fr.read(0).unwrap();

    assert_eq!(bytes.len(), 0);
}

#[test]
fn read_range_outside() {
    let lib = open_multiblock();
    let id = Sha1::parse(FILE_TEST_MD).unwrap();
    let f = lib.file_by_id(id).unwrap();
    let mut fr = lib.file_reader(&f).unwrap();

    fr.seek(seafuse::blocks::SeekFrom::Start(20)).unwrap();
    let bytes = fr.read(10).unwrap();

    assert_eq!(bytes.len(), 0);
}

#[test]
fn seek_from_end_and_current() {
    let lib = open_multiblock();
    let id = Sha1::parse(FILE_TEST_MD).unwrap();
    let f = lib.file_by_id(id).unwrap();
    let mut fr = lib.file_reader(&f).unwrap();

    let p = fr.seek(seafuse::blocks::SeekFrom::End(-5)).unwrap();
    assert_eq!(p, 12);
    let bytes = fr.read(5).unwrap();
    assert_eq!(&bytes, b"honka");

    let p = fr.seek(seafuse::blocks::SeekFrom::Current(-11)).unwrap();
    assert_eq!(p, 6);
    let bytes = fr.read(5).unwrap();
    assert_eq!(&bytes, b"donka");

    assert!(fr.seek(seafuse::blocks::SeekFrom::End(-100)).is_err());
}

#[test]
fn open_nonexistent_file() {
    let lib = open_basic();
    let id = Sha1::parse("1234123412341234123412341234123412341234").unwrap();

    match lib.file_by_id(id) {
        Err(e) => assert!(e.is_not_found()),
        _ => unreachable!(),
    };
}

#[test]
fn wrong_fs_type_for_directory() {
    let lib = open_basic();
    let r = lib.file_by_id(Sha1::parse(DIR_SOMEDIR).unwrap());
    assert!(matches!(r, Err(SeafError::WrongFsType)));
}

#[test]
fn empty_root_dir() {
    let lib = Library::open("tests/testrepos/empty_dir", UUID, empty_dir_repo()).unwrap();
    let dir = lib.load_fs(lib.head_commit.root_id).unwrap().unwrap_dir();
    assert_eq!(dir.dirents, vec![]);
}

#[test]
fn commit_stats_figures() {
    let lib = Library::open("tests/data/testrepo/", UUID, testrepo()).unwrap();
    let cs = seafuse::stats::commit_stats(&lib).unwrap();
    assert_eq!(cs.commit_count, 3);
    assert_eq!(cs.min_ctime, 100);
    assert_eq!(cs.max_ctime, 300);
}

#[test]
fn walk_stats_figures() {
    let lib = open_basic();
    let mut it = lib.fs_iterator();
    let mut acc = seafuse::stats::WalkStats::new();
    while let Some(r) = it.next() {
        let (_p, _de, fs) = r.unwrap();
        acc = seafuse::stats::walk_stats_step(acc, &fs);
    }
    assert_eq!(acc.file_count, 2);
    assert_eq!(acc.dir_count, 1);
    assert_eq!(acc.max_blocks_in_file, 1);
    assert_eq!(acc.max_files_in_dir, 1);
}

#[test]
fn open_for_commit_skips_the_scan() {
    let lib = Library::open_for_commit(
        "tests/data/testrepo/",
        UUID,
        testrepo(),
        sha(COMMIT_C),
    )
    .unwrap();
    assert_eq!(lib.head_commit.commit_id.to_string(), COMMIT_C);
    assert_eq!(lib.head_commit.ctime, 100);

    let missing = Library::open_for_commit(
        "tests/data/testrepo/",
        UUID,
        testrepo(),
        sha("9999999999999999999999999999999999999999"),
    );
    assert!(matches!(missing, Err(SeafError::IO(_, _))));
}

#[test]
fn file_handle_reads_through_to_reader() {
    let lib = open_multiblock();
    let id = Sha1::parse(FILE_TEST_MD).unwrap();
    let node = lib.load_fs(id).unwrap();
    assert_eq!(node.kind_name(), "File");
    let f = node.unwrap_file();
    let handle = lib.file_by_json(&f);
    let mut fr = handle.to_reader().unwrap();
    let bytes = fr.read_to_end().unwrap();
    assert_eq!(&bytes, b"gronkadonkachonka");
}

#[test]
fn commit_cursor_from_store() {
    let repo = testrepo();
    let loc = seafuse::store::LibraryLocation {
        repo_path: "tests/data/testrepo/".to_string(),
        uuid: UUID.to_string(),
    };
    let mut it = seafuse::library::CommitIterator::new(&repo.commits, &loc);
    let mut count = 0;
    while let Some(c) = it.next() {
        c.unwrap();
        count += 1;
    }
    assert_eq!(count, 3);
    assert!(it.next().is_none());
}

#[test]
fn malformed_file_fields_fall_back_to_dir() {
    // A node whose `block_ids` is present but whose file fields are
    // malformed still decodes as a directory when `dirents` is well-formed.
    let json = format!(
        "{{\"block_ids\":[\"{}\"],\"dirents\":[{{\"id\":\"{}\",\"mode\":33188,\"mtime\":0,\"name\":\"x\"}}],\"type\":3,\"version\":1}}",
        BLOCK_TEST_MD, FILE_TEST_MD
    );
    let d = seafuse::decode::parse_fs_json(&zlib(&json)).unwrap().unwrap_dir();
    assert_eq!(d.dirents[0].name, "x");
}

#[test]
fn not_found_error_names_the_object_path() {
    let lib = open_basic();
    let id = Sha1::parse("1234123412341234123412341234123412341234").unwrap();
    match lib.file_by_id(id) {
        Err(SeafError::IO(path, _)) => assert_eq!(
            path,
            format!(
                "tests/testrepos/basic/fs/{}/12/34123412341234123412341234123412341234",
                UUID
            )
        ),
        _ => unreachable!(),
    };
}
