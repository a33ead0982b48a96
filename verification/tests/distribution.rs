use wrela_compiler::compiler::ProjectFile;
use wrela_compiler::distribution::{content_digest, role_for, seal_modules, ModuleRole};

fn part(bytes: &[u8]) -> Vec<u8> {
    let mut framed = (bytes.len() as u64).to_be_bytes().to_vec();
    framed.extend_from_slice(bytes);
    framed
}

#[test]
fn module_roles_follow_their_paths() {
    assert_eq!(role_for("src/core/build.wr"), ModuleRole::Standard);
    assert_eq!(role_for("src/std/text.wr"), ModuleRole::Standard);
    assert_eq!(role_for("src/runtime/topology.wr"), ModuleRole::Runtime);
    assert_eq!(role_for("src/drivers/uart.wr"), ModuleRole::Driver);
    assert_eq!(role_for("src/other.wr"), ModuleRole::Authenticated);
    assert_eq!(role_for("src/cor"), ModuleRole::Authenticated);
    assert_eq!(ModuleRole::Standard.tag(), 1);
    assert_eq!(ModuleRole::Authenticated.tag(), 4);
}

#[test]
fn content_digests_frame_path_and_bytes() {
    let file = ProjectFile::new("src/runtime/topology.wr", b"pub struct Node:\n");
    let mut bytes = b"wrela.distribution-module\0\x01".to_vec();
    bytes.extend(part(b"src/runtime/topology.wr"));
    bytes.extend(part(b"pub struct Node:\n"));
    assert_eq!(content_digest(&file), xxhash_rust::xxh3::xxh3_128(&bytes));
}

#[test]
fn sealed_modules_are_ordered_by_path() {
    let modules = vec![
        ProjectFile::new("src/runtime/topology.wr", b"b"),
        ProjectFile::new("src/core/pool.wr", b"a"),
        ProjectFile::new("src/core/build.wr", b"c"),
    ];
    let sealed = seal_modules(&modules);
    let paths: Vec<&str> = sealed.iter().map(|module| module.source().path()).collect();
    assert_eq!(
        paths,
        vec!["src/core/build.wr", "src/core/pool.wr", "src/runtime/topology.wr"]
    );
    assert_eq!(sealed[2].role(), ModuleRole::Runtime);
    assert_eq!(sealed[0].content_digest(), content_digest(&modules[2]));
}
