use seafuse::fuse::{Errno, FileKind, SeafFuse, FUSE_ROOT_ID};
use seafuse::hash::Sha1;
use seafuse::library::Library;
use seafuse::prefix::{match_prefix, PrefixMatch};
use seafuse::store::Repo;

const UUID: &str = "868be3a7-b357-4189-af52-304b402d9904";

const ROOT_BASIC: &str = "ebd03d7c735be353d1c6d302e1092e69b5c5d041";
const FILE_TEST_MD: &str = "e40b894880747010bf6ec384b83e578f352beed7";
const BLOCK_TEST_MD: &str = "5516c9472d25947faae16a94ee25ed8054978c85";
const DIR_SOMEDIR: &str = "aaaaaaaaaaaaaaaaaaaaaaaaaaaaaaaaaaaaaaa1";
const FILE_TEST2_MD: &str = "aaaaaaaaaaaaaaaaaaaaaaaaaaaaaaaaaaaaaaa2";
const COMMIT_A: &str = "038cac5ffc20b13a4fac8d21e60bf01d03f8a179";

fn sha(s: &str) -> Sha1 {
    Sha1::parse(s).unwrap()
}

fn zlib(data: &str) -> Vec<u8> {
    let mut enc = flate2::write::ZlibEncoder::new(Vec::new(), flate2::Compression::default());
    std::io::Write::write_all(&mut enc, data.as_bytes()).unwrap();
    enc.finish().unwrap()
}

fn commit_json(commit_id: &str, root_id: &str, ctime: u64) -> String {
    format!(
        "{{\"commit_id\":\"{}\",\"root_id\":\"{}\",\"repo_id\":\"{}\",\"creator_name\":\"tester\",\"creator\":\"{}\",\"description\":\"added files\",\"ctime\":{},\"repo_name\":\"basic\",\"repo_desc\":\"a test library\",\"no_local_history\":1,\"version\":1}}",
        commit_id, root_id, UUID, COMMIT_A, ctime
    )
}

fn file_json(block_ids: &[&str], size: u64) -> String {
    let ids: Vec<String> = block_ids.iter().map(|b| format!("\"{}\"", b)).collect();
    format!(
        "{{\"block_ids\":[{}],\"size\":{},\"type\":1,\"version\":1}}",
        ids.join(","),
        size
    )
}

fn dir_json(entries: &[(&str, &str)]) -> String {
    let des: Vec<String> = entries
        .iter()
        .map(|(id, name)| {
            format!(
                "{{\"id\":\"{}\",\"mode\":33188,\"mtime\":1700000000,\"name\":\"{}\"}}",
                id, name
            )
        })
        .collect();
    format!("{{\"dirents\":[{}],\"type\":3,\"version\":1}}", des.join(","))
}

fn basic_fuse() -> SeafFuse {
    let mut repo = Repo::new();
    repo.add_commit(
        sha(COMMIT_A),
        commit_json(COMMIT_A, ROOT_BASIC, 200).into_bytes(),
    );
    repo.add_fs(
        sha(ROOT_BASIC),
        zlib(&dir_json(&[(FILE_TEST_MD, "test.md"), (DIR_SOMEDIR, "somedir")])),
    );
    repo.add_fs(sha(FILE_TEST_MD), zlib(&file_json(&[BLOCK_TEST_MD], 13)));
    repo.add_fs(
        sha(DIR_SOMEDIR),
        zlib(&dir_json(&[(FILE_TEST2_MD, "test2.md")])),
    );
    repo.add_fs(sha(FILE_TEST2_MD), zlib(&file_json(&[], 0)));
    repo.add_block(sha(BLOCK_TEST_MD), b"# test\n\ntest\n".to_vec());
    let lib = Library::open("tests/testrepos/basic", UUID, repo).unwrap();
    SeafFuse::new(lib)
}

#[test]
fn readdir_several_files() {
    let mut fs = basic_fuse();
    let mut entries: Vec<String> = fs
        .do_readdir(FUSE_ROOT_ID)
        .unwrap()
        .into_iter()
        .map(|e| e.name)
        .collect();

    entries.sort();

    assert_eq!(entries, ["somedir", "test.md"]);
}

#[test]
fn readdir_reports_kinds() {
    let mut fs = basic_fuse();
    let entries = fs.do_readdir(FUSE_ROOT_ID).unwrap();
    for e in &entries {
        if e.name == "somedir" {
            assert_eq!(e.kind, FileKind::Directory);
        } else {
            assert_eq!(e.kind, FileKind::RegularFile);
        }
    }
}

#[test]
fn lookup_file() {
    let mut fs = basic_fuse();
    let attr = fs.do_lookup(FUSE_ROOT_ID, "test.md").unwrap();

    assert_eq!(attr.size, 13);
    assert_eq!(attr.kind, FileKind::RegularFile);
}

#[test]
fn lookup_vs_getattr() {
    let mut fs = basic_fuse();
    let attr1 = fs.do_lookup(FUSE_ROOT_ID, "test.md").unwrap();
    let attr2 = fs.do_getattr(attr1.ino).unwrap();

    assert_eq!(attr1, attr2);
}

#[test]
fn lookup_non_existent() {
    let mut fs = basic_fuse();
    let r = fs.do_lookup(FUSE_ROOT_ID, "doesnt_exist");

    assert_eq!(r.unwrap_err(), Errno::ENOENT);
}

#[test]
fn lookup_reuses_inode() {
    let mut fs = basic_fuse();
    let attr1 = fs.do_lookup(FUSE_ROOT_ID, "test.md").unwrap();
    let attr2 = fs.do_lookup(FUSE_ROOT_ID, "test.md").unwrap();
    assert_eq!(attr1.ino, attr2.ino);
}

#[test]
fn read_file() {
    let mut fs = basic_fuse();
    let attr = fs.do_lookup(FUSE_ROOT_ID, "test.md").unwrap();
    let fh = fs.do_open(attr.ino).unwrap();
    let data = fs.do_read(fh, 8, 4).unwrap();

    fs.do_release(fh).unwrap();

    assert_eq!(data, "test".as_bytes());
}

#[test]
fn bad_file_handle() {
    let mut fs = basic_fuse();
    let r = fs.do_read(123, 0, 1024);

    assert_eq!(r.unwrap_err(), Errno::EBADF);
}

#[test]
fn release_twice_is_ebadf() {
    let mut fs = basic_fuse();
    let attr = fs.do_lookup(FUSE_ROOT_ID, "test.md").unwrap();
    let fh = fs.do_open(attr.ino).unwrap();
    fs.do_release(fh).unwrap();
    assert_eq!(fs.do_release(fh).unwrap_err(), Errno::EBADF);
}

#[test]
fn open_directory_is_einval() {
    let mut fs = basic_fuse();
    let attr = fs.do_lookup(FUSE_ROOT_ID, "somedir").unwrap();
    assert_eq!(fs.do_open(attr.ino).unwrap_err(), Errno::EINVAL);
}

#[test]
fn readdir_file_is_enotdir() {
    let mut fs = basic_fuse();
    let attr = fs.do_lookup(FUSE_ROOT_ID, "test.md").unwrap();
    assert_eq!(fs.do_readdir(attr.ino).unwrap_err(), Errno::ENOTDIR);
}

#[test]
fn read_negative_offset_is_einval() {
    let mut fs = basic_fuse();
    let attr = fs.do_lookup(FUSE_ROOT_ID, "test.md").unwrap();
    let fh = fs.do_open(attr.ino).unwrap();
    assert_eq!(fs.do_read(fh, -1, 4).unwrap_err(), Errno::EINVAL);
}

#[test]
fn test_prefix_examples() {
    assert_eq!(match_prefix("", "test/test2"), PrefixMatch::Yes);
    assert_eq!(match_prefix("", ""), PrefixMatch::Yes);
    assert_eq!(match_prefix("test", ""), PrefixMatch::Continue);

    assert_eq!(match_prefix("test", "test/test2"), PrefixMatch::Yes);
    assert_eq!(match_prefix("test2", "test"), PrefixMatch::No);
    assert_eq!(match_prefix("test2", "test/test2"), PrefixMatch::No);
    assert_eq!(match_prefix("test/test2", "test"), PrefixMatch::Continue);
    assert_eq!(match_prefix("test/test2", "test/test2"), PrefixMatch::Yes);
    assert_eq!(match_prefix("test/test2", "test/test"), PrefixMatch::No);
}

#[test]
fn getattr_unknown_inode_is_eio() {
    let fs = basic_fuse();
    assert_eq!(fs.do_getattr(9999).unwrap_err(), Errno::EIO);
}
