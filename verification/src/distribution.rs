//! The sealed modules of a compiler distribution: each authenticated module with the role
//! its path gives it and the digest of its content, in ascending order of path.
use vstd::prelude::*;
use vstd::utf8::encode_utf8;

use crate::compiler::{
    ProjectFile, ProjectFileView, canonical_file_order, file_key, file_views, ordered_keys,
    sorted_file_order,
};
use crate::hashing::{part, push_part, push_slice, xxh3_128, xxh3_128_digest};

verus! {

/// The version text of this compiler distribution.
pub const DISTRIBUTION_VERSION: &'static str = "wrela9-layer2-architecture-v1";

/// The role of an authenticated module, which its path decides.
#[derive(Clone, Copy, Debug, PartialEq, Eq, PartialOrd, Ord, Structural)]
pub enum ModuleRole {
    Standard,
    Runtime,
    Driver,
    Authenticated,
}

/// The canonical tag of a module role.
pub open spec fn module_role_tag(role: ModuleRole) -> u8 {
    match role {
        ModuleRole::Standard => 1,
        ModuleRole::Runtime => 2,
        ModuleRole::Driver => 3,
        ModuleRole::Authenticated => 4,
    }
}

impl ModuleRole {
    /// The canonical tag.
    pub fn tag(self) -> (tag: u8)
        ensures
            tag == module_role_tag(self),
    {
        match self {
            ModuleRole::Standard => 1,
            ModuleRole::Runtime => 2,
            ModuleRole::Driver => 3,
            ModuleRole::Authenticated => 4,
        }
    }
}

/// Whether `bytes` begins with `prefix`.
pub open spec fn has_prefix(bytes: Seq<u8>, prefix: Seq<u8>) -> bool {
    prefix.len() <= bytes.len() && bytes.take(prefix.len() as int) == prefix
}

/// Whether `bytes` begins with `prefix`, as `str::starts_with` answers for string prefixes.
fn starts_with(bytes: &[u8], prefix: &[u8]) -> (answer: bool)
    ensures
        answer == has_prefix(bytes@, prefix@),
{
    if prefix.len() > bytes.len() {
        return false;
    }
    let mut i: usize = 0;
    while i < prefix.len()
        invariant
            i <= prefix@.len(),
            prefix@.len() <= bytes@.len(),
            bytes@.take(i as int) == prefix@.take(i as int),
        decreases prefix@.len() - i,
    {
        if bytes[i] != prefix[i] {
            proof {
                assert(bytes@.take(prefix@.len() as int)[i as int] != prefix@[i as int]);
            }
            return false;
        }
        proof {
            assert(bytes@.take(i + 1) =~= bytes@.take(i as int).push(bytes@[i as int]));
            assert(prefix@.take(i + 1) =~= prefix@.take(i as int).push(prefix@[i as int]));
        }
        i = i + 1;
    }
    proof {
        assert(prefix@.take(prefix@.len() as int) =~= prefix@);
    }
    true
}

/// The role of the module at a path: the standard library under `src/core/` and
/// `src/std/`, the runtime under `src/runtime/`, drivers under `src/drivers/`, and any
/// other authenticated module otherwise.
pub open spec fn role_of(path: Seq<char>) -> ModuleRole {
    let bytes = encode_utf8(path);
    if has_prefix(bytes, encode_utf8("src/core/"@)) || has_prefix(bytes, encode_utf8("src/std/"@)) {
        ModuleRole::Standard
    } else if has_prefix(bytes, encode_utf8("src/runtime/"@)) {
        ModuleRole::Runtime
    } else if has_prefix(bytes, encode_utf8("src/drivers/"@)) {
        ModuleRole::Driver
    } else {
        ModuleRole::Authenticated
    }
}

/// The role of the module at a path.
pub fn role_for(path: &str) -> (role: ModuleRole)
    ensures
        role == role_of(path@),
{
    let bytes = path.as_bytes();
    if starts_with(bytes, "src/core/".as_bytes()) || starts_with(bytes, "src/std/".as_bytes()) {
        ModuleRole::Standard
    } else if starts_with(bytes, "src/runtime/".as_bytes()) {
        ModuleRole::Runtime
    } else if starts_with(bytes, "src/drivers/".as_bytes()) {
        ModuleRole::Driver
    } else {
        ModuleRole::Authenticated
    }
}

/// The bytes that a module's content digest is the digest of.
pub open spec fn module_content_bytes(module: ProjectFileView) -> Seq<u8> {
    encode_utf8("wrela.distribution-module\0\x01"@) + part(encode_utf8(module.path)) + part(
        module.bytes,
    )
}

/// The content digest of a module: its length-framed path and bytes after the module
/// domain.
pub open spec fn module_content_digest(module: ProjectFileView) -> u128 {
    xxh3_128_digest(module_content_bytes(module))
}

/// The content digest of a module.
pub fn content_digest(source: &ProjectFile) -> (digest: u128)
    ensures
        digest == module_content_digest(source@),
{
    let mut bytes: Vec<u8> = Vec::new();
    push_slice(&mut bytes, "wrela.distribution-module\0\x01".as_bytes());
    push_part(&mut bytes, source.path().as_bytes());
    push_part(&mut bytes, source.bytes());
    proof {
        assert(bytes@ =~= module_content_bytes(source@));
    }
    xxh3_128(bytes.as_slice())
}

/// An authenticated module with its role and content digest.
#[derive(Clone, Debug)]
pub struct SealedModule {
    source: ProjectFile,
    role: ModuleRole,
    content_digest: u128,
}

/// What a sealed module holds.
pub ghost struct SealedModuleView {
    pub source: ProjectFileView,
    pub role: ModuleRole,
    pub content_digest: u128,
}

impl View for SealedModule {
    type V = SealedModuleView;

    closed spec fn view(&self) -> SealedModuleView {
        SealedModuleView {
            source: self.source@,
            role: self.role,
            content_digest: self.content_digest,
        }
    }
}

/// The sealed form of a module.
pub open spec fn sealed(module: ProjectFileView) -> SealedModuleView {
    SealedModuleView {
        source: module,
        role: role_of(module.path),
        content_digest: module_content_digest(module),
    }
}

impl SealedModule {
    /// The module's source.
    pub fn source(&self) -> (source: &ProjectFile)
        ensures
            source@ == self@.source,
    {
        &self.source
    }

    /// The module's role.
    pub fn role(&self) -> (role: ModuleRole)
        ensures
            role == self@.role,
    {
        self.role
    }

    /// The module's content digest.
    pub fn content_digest(&self) -> (digest: u128)
        ensures
            digest == self@.content_digest,
    {
        self.content_digest
    }
}

/// Seals authenticated modules: each with its role and content digest, in ascending order
/// of path (then bytes).
pub fn seal_modules(modules: &Vec<ProjectFile>) -> (sealed_modules: Vec<SealedModule>)
    ensures
        sealed_modules@.len() == modules@.len(),
        forall|k: int|
            0 <= k < sealed_modules@.len() ==> {
                &&& #[trigger] sealed_modules@[k]@ == sealed(sealed_modules@[k]@.source)
                &&& file_key(sealed_modules@[k]@.source) == canonical_file_order(file_views(modules@))[k]
            },
{
    let order = sorted_file_order(modules);
    let ghost views = file_views(modules@);
    let mut sealed_modules: Vec<SealedModule> = Vec::new();
    let mut k: usize = 0;
    while k < order.len()
        invariant
            k <= order@.len(),
            order@.len() == modules@.len(),
            views == file_views(modules@),
            forall|j: int| 0 <= j < order@.len() ==> order@[j] < modules@.len(),
            ordered_keys(views, order@) == canonical_file_order(views),
            sealed_modules@.len() == k,
            forall|j: int|
                0 <= j < k ==> {
                    &&& #[trigger] sealed_modules@[j]@ == sealed(sealed_modules@[j]@.source)
                    &&& file_key(sealed_modules@[j]@.source) == canonical_file_order(views)[j]
                },
        decreases order@.len() - k,
    {
        let module = &modules[order[k]];
        let source = ProjectFile::new(module.path(), module.bytes());
        let role = role_for(source.path());
        let digest = content_digest(&source);
        sealed_modules.push(SealedModule { source, role, content_digest: digest });
        proof {
            assert(ordered_keys(views, order@)[k as int] == file_key(views[order@[k as int] as int]));
        }
        k = k + 1;
    }
    sealed_modules
}

} // verus!
