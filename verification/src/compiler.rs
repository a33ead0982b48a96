//! The public compiler surface: installations, project snapshots, requests, diagnostics
//! and the observations that an inspection carries.
use std::sync::atomic::AtomicBool;
use std::sync::Arc;

use vstd::prelude::*;
use vstd::relations::sorted_by;
use vstd::slice::slice_to_vec;
use vstd::string::StringExecFns;
use vstd::utf8::{decode_utf8, encode_utf8, encode_utf8_decode_utf8};

use crate::architecture_planning::{
    ArchitecturePlanningModule, ArchitecturePlanningObservation, ArchitectureProfile,
    ContractFailureKind, ObservationView, VerifiedArchitecturePlanningContract,
    current_contract_view, observed, profile_name,
};
use crate::hashing::{encode_each, lemma_encode_each_step, part, push_part, push_slice, xxh3_128, xxh3_128_digest};
use crate::ordering::{bytes_le, bytes_le_exec, lemma_bytes_le_antisymmetric, lemma_bytes_le_reflexive, lemma_bytes_le_total, lemma_bytes_le_transitive, lemma_pair_order_total, pair_le, pair_le_exec, pair_order};
use crate::text::{hex_text, push_hex128};

verus! {

// ---------------------------------------------------------------------------------------
// Project files and installations
// ---------------------------------------------------------------------------------------

/// A file of a project: a module path and its bytes.
#[derive(Clone, Debug, PartialEq, Eq)]
pub struct ProjectFile {
    path: String,
    bytes: Vec<u8>,
}

/// What a project file holds.
pub ghost struct ProjectFileView {
    pub path: Seq<char>,
    pub bytes: Seq<u8>,
}

impl View for ProjectFile {
    type V = ProjectFileView;

    closed spec fn view(&self) -> ProjectFileView {
        ProjectFileView { path: self.path@, bytes: self.bytes@ }
    }
}

/// The views of a sequence of project files.
pub open spec fn file_views(files: Seq<ProjectFile>) -> Seq<ProjectFileView> {
    files.map_values(|file: ProjectFile| file@)
}

impl ProjectFile {
    /// A file with the given module path and bytes.
    pub fn new(path: &str, bytes: &[u8]) -> (file: Self)
        ensures
            file@ == (ProjectFileView { path: path@, bytes: bytes@ }),
    {
        ProjectFile { path: String::from_str(path), bytes: slice_to_vec(bytes) }
    }

    /// The module path.
    pub fn path(&self) -> (path: &str)
        ensures
            path@ == self@.path,
    {
        self.path.as_str()
    }

    /// The file's bytes.
    pub fn bytes(&self) -> (bytes: &[u8])
        ensures
            bytes@ == self@.bytes,
    {
        self.bytes.as_slice()
    }
}

/// The compiler's authenticated installation: the modules that every project sees and
/// that no project may shadow.
#[derive(Clone, Debug)]
pub struct CompilerInstallation {
    authenticated_modules: Vec<ProjectFile>,
}

impl View for CompilerInstallation {
    type V = Seq<ProjectFileView>;

    closed spec fn view(&self) -> Seq<ProjectFileView> {
        file_views(self.authenticated_modules@)
    }
}

/// The text of the authenticated `src/core/build.wr` module.
pub open spec fn layer1_build_text() -> Seq<char> {
    "pub struct Image:\n    pub pure fn new() -> Image:\n        panic \"sealed Image constructor\"\n\npub struct Test:\n    pub pure fn new(cases: [TestApplication]) -> Test:\n        panic \"sealed Test constructor\"\n"@
}

/// The text of the authenticated `src/core/pool.wr` module.
pub open spec fn layer1_pool_text() -> Seq<char> {
    "pub resource struct Scope:\n    capacity: u64\n\npub pure fn scoped(capacity: u64) -> Scope:\n    return Scope(capacity=capacity)\n"@
}

/// The two modules that every layer-one installation carries.
pub open spec fn layer1_modules() -> Seq<ProjectFileView> {
    seq![
        ProjectFileView { path: "src/core/build.wr"@, bytes: encode_utf8(layer1_build_text()) },
        ProjectFileView { path: "src/core/pool.wr"@, bytes: encode_utf8(layer1_pool_text()) },
    ]
}

fn layer1_build_module() -> (file: ProjectFile)
    ensures
        file@ == layer1_modules()[0],
{
    ProjectFile::new(
        "src/core/build.wr",
        "pub struct Image:\n    pub pure fn new() -> Image:\n        panic \"sealed Image constructor\"\n\npub struct Test:\n    pub pure fn new(cases: [TestApplication]) -> Test:\n        panic \"sealed Test constructor\"\n".as_bytes(),
    )
}

fn layer1_pool_module() -> (file: ProjectFile)
    ensures
        file@ == layer1_modules()[1],
{
    ProjectFile::new(
        "src/core/pool.wr",
        "pub resource struct Scope:\n    capacity: u64\n\npub pure fn scoped(capacity: u64) -> Scope:\n    return Scope(capacity=capacity)\n".as_bytes(),
    )
}

impl CompilerInstallation {
    /// An installation without authenticated modules.
    pub fn empty() -> (installation: Self)
        ensures
            installation@ == Seq::<ProjectFileView>::empty(),
    {
        let installation = CompilerInstallation { authenticated_modules: Vec::new() };
        proof {
            assert(installation@ =~= Seq::<ProjectFileView>::empty());
        }
        installation
    }

    /// The given modules followed by the two layer-one modules.
    pub fn with_authenticated_modules(modules: Vec<ProjectFile>) -> (installation: Self)
        ensures
            installation@ == file_views(modules@) + layer1_modules(),
    {
        let mut modules = modules;
        let ghost given = modules@;
        modules.push(layer1_build_module());
        modules.push(layer1_pool_module());
        let installation = CompilerInstallation { authenticated_modules: modules };
        proof {
            assert(installation@ =~= file_views(given) + layer1_modules());
        }
        installation
    }

    /// The layer-one installation: exactly the two layer-one modules.
    pub fn layer1() -> (installation: Self)
        ensures
            installation@ == layer1_modules(),
    {
        let installation = Self::with_authenticated_modules(Vec::new());
        proof {
            assert(file_views(Seq::<ProjectFile>::empty()) + layer1_modules() =~= layer1_modules());
        }
        installation
    }

}

impl Default for CompilerInstallation {
    fn default() -> (installation: Self)
        ensures
            installation@ == Seq::<ProjectFileView>::empty(),
    {
        Self::empty()
    }
}

// ---------------------------------------------------------------------------------------
// Project snapshots
// ---------------------------------------------------------------------------------------

/// The sort key of a file: its path as UTF-8 bytes, then its bytes.
pub open spec fn file_key(file: ProjectFileView) -> (Seq<u8>, Seq<u8>) {
    (encode_utf8(file.path), file.bytes)
}

/// The sort keys of a sequence of files.
pub open spec fn file_keys(files: Seq<ProjectFileView>) -> Seq<(Seq<u8>, Seq<u8>)> {
    files.map_values(|file: ProjectFileView| file_key(file))
}

/// The sort keys of the files that an order of indices lists.
pub open spec fn ordered_keys(files: Seq<ProjectFileView>, order: Seq<usize>) -> Seq<(Seq<u8>, Seq<u8>)> {
    order.map_values(|index: usize| file_key(files[index as int]))
}

/// The files' keys in ascending order of path, then bytes.
pub open spec fn canonical_file_order(files: Seq<ProjectFileView>) -> Seq<(Seq<u8>, Seq<u8>)> {
    file_keys(files).sort_by(pair_order())
}

/// The encoding of one file in a snapshot digest: its length-framed path and bytes.
pub open spec fn snapshot_entry_bytes(key: (Seq<u8>, Seq<u8>)) -> Seq<u8> {
    part(key.0) + part(key.1)
}

/// The domain text of snapshot digests.
pub open spec fn snapshot_domain() -> Seq<u8> {
    encode_utf8("wrela.project-snapshot\0\x01"@)
}

/// The bytes that a snapshot digest is the digest of.
pub open spec fn snapshot_bytes(files: Seq<ProjectFileView>) -> Seq<u8> {
    snapshot_domain() + encode_each(
        canonical_file_order(files),
        |key: (Seq<u8>, Seq<u8>)| snapshot_entry_bytes(key),
    )
}

/// The digest of a set of project files, whatever their order.
pub open spec fn snapshot_digest(files: Seq<ProjectFileView>) -> u128 {
    xxh3_128_digest(snapshot_bytes(files))
}

/// The revision text of a snapshot that was given none.
pub open spec fn default_revision(digest: u128) -> Seq<char> {
    "snapshot-"@ + hex_text(digest, 32)
}

/// Whether `files[left] <= files[right]` in the order of path, then bytes.
fn file_le(left: &ProjectFile, right: &ProjectFile) -> (le: bool)
    ensures
        le == pair_le(file_key(left@), file_key(right@)),
{
    pair_le_exec(left.path.as_str().as_bytes(), left.bytes.as_slice(), right.path.as_str().as_bytes(), right.bytes.as_slice())
}

/// The indices of the files in ascending order of path, then bytes.
pub(crate) fn sorted_file_order(files: &Vec<ProjectFile>) -> (order: Vec<usize>)
    ensures
        order@.len() == files@.len(),
        forall|k: int| 0 <= k < order@.len() ==> order@[k] < files@.len(),
        ordered_keys(file_views(files@), order@) == canonical_file_order(file_views(files@)),
{
    let ghost views = file_views(files@);
    let ghost keys = file_keys(views);
    proof {
        lemma_pair_order_total();
    }
    let mut order: Vec<usize> = Vec::new();
    let mut i: usize = 0;
    proof {
        assert(ordered_keys(views, order@) =~= keys.take(0));
    }
    while i < files.len()
        invariant
            i <= files@.len(),
            views == file_views(files@),
            keys == file_keys(views),
            vstd::relations::total_ordering(pair_order()),
            order@.len() == i,
            forall|k: int| 0 <= k < order@.len() ==> order@[k] < files@.len(),
            sorted_by(ordered_keys(views, order@), pair_order()),
            ordered_keys(views, order@).to_multiset() == keys.take(i as int).to_multiset(),
        decreases files@.len() - i,
    {
        let ghost before = ordered_keys(views, order@);
        let ghost x = keys[i as int];
        let mut p: usize = 0;
        while p < order.len() && file_le(&files[order[p]], &files[i])
            invariant
                p <= order@.len(),
                views == file_views(files@),
                keys == file_keys(views),
                i < files@.len(),
                x == keys[i as int],
                before == ordered_keys(views, order@),
                forall|k: int| 0 <= k < order@.len() ==> order@[k] < files@.len(),
                forall|k: int| 0 <= k < p ==> pair_le(#[trigger] before[k], x),
            decreases order@.len() - p,
        {
            p = p + 1;
        }
        order.insert(p, i);
        proof {
            let after = ordered_keys(views, order@);
            assert(after =~= before.insert(p as int, x));
            if p < before.len() {
                assert(!pair_le(before[p as int], x));
                assert(pair_order()(x, before[p as int]) || pair_order()(before[p as int], x));
            }
            assert forall|a: int, b: int| 0 <= a < b < after.len() implies #[trigger] pair_order()(
                after[a],
                after[b],
            ) by {
                if b < p {
                    assert(pair_order()(before[a], before[b]));
                } else if b == p {
                    assert(pair_le(before[a], x));
                } else if a < p {
                    assert(pair_order()(before[a], before[b - 1]));
                } else if a == p {
                    if b - 1 > p {
                        assert(pair_order()(before[p as int], before[b - 1]));
                    }
                    assert(pair_order()(x, before[p as int]));
                } else {
                    assert(pair_order()(before[a - 1], before[b - 1]));
                }
            }
            vstd::seq_lib::to_multiset_insert(before, p as int, x);
            assert(keys.take(i + 1) =~= keys.take(i as int).push(x));
            vstd::seq_lib::to_multiset_build(keys.take(i as int), x);
        }
        i = i + 1;
    }
    proof {
        assert(keys.take(i as int) =~= keys);
        keys.lemma_sort_by_ensures(pair_order());
        vstd::seq_lib::lemma_sorted_unique(ordered_keys(views, order@), keys.sort_by(pair_order()), pair_order());
    }
    order
}

/// The digest of a set of project files: the files in ascending order of path and
/// bytes, each as its length-framed path and bytes, after the snapshot domain.
fn project_snapshot_digest(files: &Vec<ProjectFile>) -> (digest: u128)
    ensures
        digest == snapshot_digest(file_views(files@)),
{
    let ghost views = file_views(files@);
    let order = sorted_file_order(files);
    let ghost sorted = canonical_file_order(views);
    let mut bytes: Vec<u8> = Vec::new();
    push_slice(&mut bytes, "wrela.project-snapshot\0\x01".as_bytes());
    let mut k: usize = 0;
    while k < order.len()
        invariant
            k <= order@.len(),
            order@.len() == files@.len(),
            views == file_views(files@),
            forall|j: int| 0 <= j < order@.len() ==> order@[j] < files@.len(),
            ordered_keys(views, order@) == sorted,
            bytes@ == snapshot_domain() + encode_each(
                sorted.take(k as int),
                |key: (Seq<u8>, Seq<u8>)| snapshot_entry_bytes(key),
            ),
        decreases order@.len() - k,
    {
        let file = &files[order[k]];
        push_part(&mut bytes, file.path.as_str().as_bytes());
        push_part(&mut bytes, file.bytes.as_slice());
        proof {
            assert(sorted[k as int] == file_key(views[order@[k as int] as int]));
            lemma_encode_each_step(sorted, |key: (Seq<u8>, Seq<u8>)| snapshot_entry_bytes(key), k as int);
            assert(bytes@ =~= snapshot_domain() + encode_each(
                sorted.take(k + 1),
                |key: (Seq<u8>, Seq<u8>)| snapshot_entry_bytes(key),
            ));
        }
        k = k + 1;
    }
    proof {
        assert(sorted.take(k as int) =~= sorted);
    }
    xxh3_128(bytes.as_slice())
}

/// Two lists of files that hold the same files, in any order, have the same snapshot
/// digest.
pub proof fn lemma_snapshot_digest_ignores_order(left: Seq<ProjectFileView>, right: Seq<ProjectFileView>)
    requires
        file_keys(left).to_multiset() == file_keys(right).to_multiset(),
    ensures
        snapshot_digest(left) == snapshot_digest(right),
{
    lemma_pair_order_total();
    file_keys(left).lemma_sort_by_ensures(pair_order());
    file_keys(right).lemma_sort_by_ensures(pair_order());
    vstd::seq_lib::lemma_sorted_unique(
        canonical_file_order(left),
        canonical_file_order(right),
        pair_order(),
    );
}

/// An immutable project: its files, a revision text and the digest of the files.
#[derive(Clone, Debug, PartialEq, Eq)]
pub struct ProjectSnapshot {
    files: Vec<ProjectFile>,
    revision: String,
    digest: u128,
}

/// What a snapshot holds.
pub ghost struct ProjectSnapshotView {
    pub files: Seq<ProjectFileView>,
    pub revision: Seq<char>,
    pub digest: u128,
}

impl View for ProjectSnapshot {
    type V = ProjectSnapshotView;

    closed spec fn view(&self) -> ProjectSnapshotView {
        ProjectSnapshotView {
            files: file_views(self.files@),
            revision: self.revision@,
            digest: self.digest,
        }
    }
}

/// The snapshot of files with a revision text.
pub open spec fn snapshot_of(files: Seq<ProjectFileView>, revision: Seq<char>) -> ProjectSnapshotView {
    ProjectSnapshotView { files, revision, digest: snapshot_digest(files) }
}

/// A digest that a snapshot's files do not have.
#[derive(Clone, Copy, Debug, PartialEq, Eq)]
pub struct SnapshotDigestMismatch {
    expected: u128,
    actual: u128,
}

impl View for SnapshotDigestMismatch {
    type V = (u128, u128);

    /// The expected digest, then the actual one.
    closed spec fn view(&self) -> (u128, u128) {
        (self.expected, self.actual)
    }
}

impl SnapshotDigestMismatch {
    /// The digest the caller expected.
    pub fn expected(&self) -> (expected: u128)
        ensures
            expected == self@.0,
    {
        self.expected
    }

    /// The digest of the files.
    pub fn actual(&self) -> (actual: u128)
        ensures
            actual == self@.1,
    {
        self.actual
    }
}

impl ProjectSnapshot {
    /// A snapshot whose revision is `snapshot-` and the digest in 32 hexadecimal digits.
    pub fn new(files: Vec<ProjectFile>) -> (snapshot: Self)
        ensures
            snapshot@ == snapshot_of(file_views(files@), default_revision(snapshot_digest(file_views(files@)))),
    {
        let digest = project_snapshot_digest(&files);
        let mut revision = String::from_str("snapshot-");
        push_hex128(&mut revision, digest);
        ProjectSnapshot { files, revision, digest }
    }

    /// A snapshot with the given revision text.
    pub fn with_revision(files: Vec<ProjectFile>, revision: &str) -> (snapshot: Self)
        ensures
            snapshot@ == snapshot_of(file_views(files@), revision@),
    {
        let digest = project_snapshot_digest(&files);
        ProjectSnapshot { files, revision: String::from_str(revision), digest }
    }

    /// The snapshot, if its files have the expected digest; the mismatch otherwise.
    pub fn verified(files: Vec<ProjectFile>, revision: &str, expected_digest: u128) -> (result: Result<Self, SnapshotDigestMismatch>)
        ensures
            match result {
                Ok(snapshot) => snapshot_digest(file_views(files@)) == expected_digest
                    && snapshot@ == snapshot_of(file_views(files@), revision@),
                Err(mismatch) => snapshot_digest(file_views(files@)) != expected_digest
                    && mismatch@ == (expected_digest, snapshot_digest(file_views(files@))),
            },
    {
        let snapshot = Self::with_revision(files, revision);
        if snapshot.digest == expected_digest {
            Ok(snapshot)
        } else {
            Err(SnapshotDigestMismatch { expected: expected_digest, actual: snapshot.digest })
        }
    }

    /// The revision text.
    pub fn revision(&self) -> (revision: &str)
        ensures
            revision@ == self@.revision,
    {
        self.revision.as_str()
    }

    /// The digest of the files.
    pub fn digest(&self) -> (digest: u128)
        ensures
            digest == self@.digest,
    {
        self.digest
    }

}

impl Default for ProjectSnapshot {
    fn default() -> (snapshot: Self)
        ensures
            snapshot@ == snapshot_of(
                Seq::<ProjectFileView>::empty(),
                default_revision(snapshot_digest(Seq::<ProjectFileView>::empty())),
            ),
    {
        let snapshot = Self::new(Vec::new());
        proof {
            assert(file_views(Seq::<ProjectFile>::empty()) =~= Seq::<ProjectFileView>::empty());
        }
        snapshot
    }
}

// ---------------------------------------------------------------------------------------
// Cancellation
// ---------------------------------------------------------------------------------------

/// A cooperative cancellation flag shared between the host and a running compilation.
#[derive(Clone, Debug)]
pub struct Cancellation {
    cancelled: Arc<AtomicBool>,
}

impl Cancellation {
    /// A flag that has not been cancelled. Every clone shares the flag and another thread
    /// may set it at any moment, so its state is no part of any contract here.
    pub fn new() -> (cancellation: Self) {
        Cancellation { cancelled: Arc::new(AtomicBool::new(false)) }
    }

    /// Requests cancellation of every compilation that polls this flag.
    pub fn cancel(&self) {
        self.cancelled.store(true, std::sync::atomic::Ordering::Release);
    }

    /// Polls the flag. Another thread may cancel at any moment, so nothing is known of
    /// the answer beyond its being a poll of the shared flag.
    pub fn is_cancelled(&self) -> bool {
        self.cancelled.load(std::sync::atomic::Ordering::Acquire)
    }
}

// ---------------------------------------------------------------------------------------
// Requests
// ---------------------------------------------------------------------------------------

/// The root module a compilation starts from.
#[derive(Clone, Copy, Debug, PartialEq, Eq, Structural)]
pub enum Root {
    Image,
    Test,
}

/// The module path of a root.
pub open spec fn root_path(root: Root) -> Seq<char> {
    match root {
        Root::Image => "src/image.wr"@,
        Root::Test => "src/test.wr"@,
    }
}

impl Root {
    /// The module path of the root.
    pub fn path(self) -> (path: &'static str)
        ensures
            path@ == root_path(self),
    {
        match self {
            Root::Image => "src/image.wr",
            Root::Test => "src/test.wr",
        }
    }
}

/// Which observations an inspection should carry.
#[derive(Clone, Copy, Debug, PartialEq, Eq, Structural)]
pub struct InspectSelection {
    syntax: bool,
    closure: bool,
    identities: bool,
    semantics: bool,
    evaluation: bool,
    construction: bool,
    tests: bool,
    architecture_planning: bool,
    planning: bool,
}

/// What an inspection selection asks for.
pub ghost struct InspectSelectionView {
    pub syntax: bool,
    pub closure: bool,
    pub identities: bool,
    pub semantics: bool,
    pub evaluation: bool,
    pub construction: bool,
    pub tests: bool,
    pub architecture_planning: bool,
    pub planning: bool,
}

impl View for InspectSelection {
    type V = InspectSelectionView;

    closed spec fn view(&self) -> InspectSelectionView {
        InspectSelectionView {
            syntax: self.syntax,
            closure: self.closure,
            identities: self.identities,
            semantics: self.semantics,
            evaluation: self.evaluation,
            construction: self.construction,
            tests: self.tests,
            architecture_planning: self.architecture_planning,
            planning: self.planning,
        }
    }
}

/// A selection of every observation or of none.
pub open spec fn uniform_selection(value: bool) -> InspectSelectionView {
    InspectSelectionView {
        syntax: value,
        closure: value,
        identities: value,
        semantics: value,
        evaluation: value,
        construction: value,
        tests: value,
        architecture_planning: value,
        planning: value,
    }
}

impl InspectSelection {
    /// No observation.
    pub fn none() -> (selection: Self)
        ensures
            selection@ == uniform_selection(false),
    {
        InspectSelection {
            syntax: false,
            closure: false,
            identities: false,
            semantics: false,
            evaluation: false,
            construction: false,
            tests: false,
            architecture_planning: false,
            planning: false,
        }
    }

    /// The syntax observations only.
    pub fn syntax() -> (selection: Self)
        ensures
            selection@ == (InspectSelectionView { syntax: true, ..uniform_selection(false) }),
    {
        InspectSelection { syntax: true, ..Self::none() }
    }

    /// The architecture planning contract and the planning foundation.
    pub fn planning() -> (selection: Self)
        ensures
            selection@ == (InspectSelectionView {
                architecture_planning: true,
                planning: true,
                ..uniform_selection(false)
            }),
    {
        InspectSelection { architecture_planning: true, planning: true, ..Self::none() }
    }

    /// Every observation.
    pub fn all() -> (selection: Self)
        ensures
            selection@ == uniform_selection(true),
    {
        InspectSelection {
            syntax: true,
            closure: true,
            identities: true,
            semantics: true,
            evaluation: true,
            construction: true,
            tests: true,
            architecture_planning: true,
            planning: true,
        }
    }

}

impl Default for InspectSelection {
    fn default() -> (selection: Self)
        ensures
            selection@ == uniform_selection(false),
    {
        Self::none()
    }
}

/// A request to compile a project from a root.
#[derive(Clone, Debug)]
pub struct CompilationRequest {
    project: ProjectSnapshot,
    root: Root,
    inspection: InspectSelection,
    architecture_profile: Option<ArchitectureProfile>,
}

/// What a compilation request asks for.
pub ghost struct CompilationRequestView {
    pub project: ProjectSnapshotView,
    pub root: Root,
    pub inspection: InspectSelectionView,
    pub architecture_profile: Option<ArchitectureProfile>,
}

impl View for CompilationRequest {
    type V = CompilationRequestView;

    closed spec fn view(&self) -> CompilationRequestView {
        CompilationRequestView {
            project: self.project@,
            root: self.root,
            inspection: self.inspection@,
            architecture_profile: self.architecture_profile,
        }
    }
}

impl CompilationRequest {
    /// A request without inspection and without an architecture profile.
    pub fn new(project: ProjectSnapshot, root: Root) -> (request: Self)
        ensures
            request@ == (CompilationRequestView {
                project: project@,
                root,
                inspection: uniform_selection(false),
                architecture_profile: None,
            }),
    {
        CompilationRequest {
            project,
            root,
            inspection: InspectSelection::none(),
            architecture_profile: None,
        }
    }

    /// The same request with another inspection selection.
    pub fn with_inspection(self, inspection: InspectSelection) -> (request: Self)
        ensures
            request@ == (CompilationRequestView { inspection: inspection@, ..self@ }),
    {
        let mut request = self;
        request.inspection = inspection;
        request
    }

    /// The same request, planned for an architecture profile.
    pub fn with_architecture_profile(self, profile: ArchitectureProfile) -> (request: Self)
        ensures
            request@ == (CompilationRequestView { architecture_profile: Some(profile), ..self@ }),
    {
        let mut request = self;
        request.architecture_profile = Some(profile);
        request
    }
}

// ---------------------------------------------------------------------------------------
// Source ranges and diagnostics
// ---------------------------------------------------------------------------------------

/// A byte range of a module.
#[derive(Debug, PartialEq, Eq, PartialOrd, Ord)]
pub struct SourceRange {
    path: String,
    start: u64,
    end: u64,
}

/// What a source range holds.
pub ghost struct SourceRangeView {
    pub path: Seq<char>,
    pub start: u64,
    pub end: u64,
}

impl View for SourceRange {
    type V = SourceRangeView;

    closed spec fn view(&self) -> SourceRangeView {
        SourceRangeView { path: self.path@, start: self.start, end: self.end }
    }
}

impl Clone for SourceRange {
    fn clone(&self) -> (copy: Self)
        ensures
            copy@ == self@,
    {
        SourceRange { path: self.path.clone(), start: self.start, end: self.end }
    }
}

impl SourceRange {
    /// The range `start..end` of the module at `path`.
    pub fn new(path: &str, start: usize, end: usize) -> (range: Self)
        ensures
            range@ == (SourceRangeView { path: path@, start: start as u64, end: end as u64 }),
    {
        SourceRange { path: String::from_str(path), start: start as u64, end: end as u64 }
    }

    /// The range `start..end` of the module at `path`, from 64-bit offsets.
    pub fn from_u64(path: &str, start: u64, end: u64) -> (range: Self)
        requires
            start <= end,
        ensures
            range@ == (SourceRangeView { path: path@, start, end }),
    {
        SourceRange { path: String::from_str(path), start, end }
    }

    /// The module path.
    pub fn path(&self) -> (path: &str)
        ensures
            path@ == self@.path,
    {
        self.path.as_str()
    }

    /// The first byte offset.
    pub fn start(&self) -> (start: u64)
        ensures
            start == self@.start,
    {
        self.start
    }

    /// The offset just past the range.
    pub fn end(&self) -> (end: u64)
        ensures
            end == self@.end,
    {
        self.end
    }
}

/// What a secondary label of a diagnostic points at.
#[derive(Clone, Copy, Debug, PartialEq, Eq, Structural)]
pub enum DiagnosticLabelRole {
    PreviousDeclaration,
    PropagationSource,
    Related,
}

/// The canonical text of a label role.
pub open spec fn label_role_text(role: DiagnosticLabelRole) -> Seq<char> {
    match role {
        DiagnosticLabelRole::PreviousDeclaration => "previous_declaration"@,
        DiagnosticLabelRole::PropagationSource => "propagation_source"@,
        DiagnosticLabelRole::Related => "related"@,
    }
}

/// A secondary range of a diagnostic.
#[derive(Clone, Debug, PartialEq, Eq)]
pub struct DiagnosticLabel {
    range: SourceRange,
    role: DiagnosticLabelRole,
}

/// What a diagnostic label holds.
pub ghost struct DiagnosticLabelView {
    pub range: SourceRangeView,
    pub role: DiagnosticLabelRole,
}

impl View for DiagnosticLabel {
    type V = DiagnosticLabelView;

    closed spec fn view(&self) -> DiagnosticLabelView {
        DiagnosticLabelView { range: self.range@, role: self.role }
    }
}

impl DiagnosticLabel {
    /// The labelled range.
    pub fn range(&self) -> (range: &SourceRange)
        ensures
            range@ == self@.range,
    {
        &self.range
    }

    /// The canonical text of the label's role.
    pub fn role(&self) -> (role: &'static str)
        ensures
            role@ == label_role_text(self@.role),
    {
        match self.role {
            DiagnosticLabelRole::PreviousDeclaration => "previous_declaration",
            DiagnosticLabelRole::PropagationSource => "propagation_source",
            DiagnosticLabelRole::Related => "related",
        }
    }
}

/// The domain of an identity.
#[derive(Clone, Copy, Debug, PartialEq, Eq, PartialOrd, Ord, Structural)]
pub enum IdentityDomain {
    Module,
    Definition,
    Type,
    Pool,
    Specialization,
    Generated,
    SourceSite,
    Test,
    Construction,
}

/// Where an identity comes from.
#[derive(Clone, Copy, Debug, PartialEq, Eq, PartialOrd, Ord, Structural)]
pub enum IdentityOrigin {
    Project,
    Authenticated,
    Generated,
}

/// A typed parameter value of a diagnostic.
#[derive(Clone, Debug, PartialEq, Eq)]
pub enum DiagnosticValue {
    Text(String),
    Unsigned(u128),
    Signed(i128),
    Identity { domain: IdentityDomain, digest: u128 },
}

/// What a diagnostic parameter value holds.
pub ghost enum DiagnosticValueView {
    Text(Seq<char>),
    Unsigned(u128),
    Signed(i128),
    Identity { domain: IdentityDomain, digest: u128 },
}

impl View for DiagnosticValue {
    type V = DiagnosticValueView;

    closed spec fn view(&self) -> DiagnosticValueView {
        match self {
            DiagnosticValue::Text(text) => DiagnosticValueView::Text(text@),
            DiagnosticValue::Unsigned(value) => DiagnosticValueView::Unsigned(*value),
            DiagnosticValue::Signed(value) => DiagnosticValueView::Signed(*value),
            DiagnosticValue::Identity { domain, digest } => DiagnosticValueView::Identity {
                domain: *domain,
                digest: *digest,
            },
        }
    }
}

/// How the front end recovered from the problem a diagnostic reports.
#[derive(Clone, Debug, PartialEq, Eq)]
pub enum RecoveryAction {
    NoAction,
    PreservedInvalidBytes,
    InsertedMissing { expected: String },
    SkippedToBoundary,
    TruncatedDiagnostics,
}

/// What a recovery action holds.
pub ghost enum RecoveryActionView {
    NoAction,
    PreservedInvalidBytes,
    InsertedMissing { expected: Seq<char> },
    SkippedToBoundary,
    TruncatedDiagnostics,
}

impl View for RecoveryAction {
    type V = RecoveryActionView;

    closed spec fn view(&self) -> RecoveryActionView {
        match self {
            RecoveryAction::NoAction => RecoveryActionView::NoAction,
            RecoveryAction::PreservedInvalidBytes => RecoveryActionView::PreservedInvalidBytes,
            RecoveryAction::InsertedMissing { expected } => RecoveryActionView::InsertedMissing {
                expected: expected@,
            },
            RecoveryAction::SkippedToBoundary => RecoveryActionView::SkippedToBoundary,
            RecoveryAction::TruncatedDiagnostics => RecoveryActionView::TruncatedDiagnostics,
        }
    }
}

/// A problem found in a project: a code, a primary range, labels, typed parameters and
/// the recovery that followed.
#[derive(Clone, Debug, PartialEq, Eq)]
pub struct Diagnostic {
    code: String,
    primary: SourceRange,
    labels: Vec<DiagnosticLabel>,
    typed_parameters: Vec<(String, DiagnosticValue)>,
    recovery: RecoveryAction,
}

/// What a diagnostic holds.
pub ghost struct DiagnosticView {
    pub code: Seq<char>,
    pub primary: SourceRangeView,
    pub labels: Seq<DiagnosticLabelView>,
    pub typed_parameters: Seq<(Seq<char>, DiagnosticValueView)>,
    pub recovery: RecoveryActionView,
}

/// The views of a sequence of labels.
pub open spec fn label_views(labels: Seq<DiagnosticLabel>) -> Seq<DiagnosticLabelView> {
    labels.map_values(|label: DiagnosticLabel| label@)
}

/// The views of a sequence of typed parameters.
pub open spec fn parameter_views(parameters: Seq<(String, DiagnosticValue)>) -> Seq<(Seq<char>, DiagnosticValueView)> {
    parameters.map_values(|parameter: (String, DiagnosticValue)| (parameter.0@, parameter.1@))
}

impl View for Diagnostic {
    type V = DiagnosticView;

    closed spec fn view(&self) -> DiagnosticView {
        DiagnosticView {
            code: self.code@,
            primary: self.primary@,
            labels: label_views(self.labels@),
            typed_parameters: parameter_views(self.typed_parameters@),
            recovery: self.recovery@,
        }
    }
}

/// The views of a sequence of diagnostics.
pub open spec fn diagnostic_views(diagnostics: Seq<Diagnostic>) -> Seq<DiagnosticView> {
    diagnostics.map_values(|diagnostic: Diagnostic| diagnostic@)
}

impl Diagnostic {
    /// A diagnostic without labels or parameters.
    pub fn new(code: &str, primary: SourceRange, recovery: RecoveryAction) -> (diagnostic: Self)
        ensures
            diagnostic@ == (DiagnosticView {
                code: code@,
                primary: primary@,
                labels: Seq::empty(),
                typed_parameters: Seq::empty(),
                recovery: recovery@,
            }),
    {
        let diagnostic = Diagnostic {
            code: String::from_str(code),
            primary,
            labels: Vec::new(),
            typed_parameters: Vec::new(),
            recovery,
        };
        proof {
            assert(diagnostic@.labels =~= Seq::<DiagnosticLabelView>::empty());
            assert(diagnostic@.typed_parameters =~= Seq::<(Seq<char>, DiagnosticValueView)>::empty());
        }
        diagnostic
    }

    /// The same diagnostic with one more text parameter.
    pub fn with_parameter(self, name: &str, value: &str) -> (diagnostic: Self)
        ensures
            diagnostic@ == (DiagnosticView {
                typed_parameters: self@.typed_parameters.push((name@, DiagnosticValueView::Text(value@))),
                ..self@
            }),
    {
        let mut diagnostic = self;
        diagnostic.typed_parameters.push((String::from_str(name), DiagnosticValue::Text(String::from_str(value))));
        proof {
            assert(diagnostic@.typed_parameters =~= self@.typed_parameters.push(
                (name@, DiagnosticValueView::Text(value@)),
            ));
        }
        diagnostic
    }

    /// The same diagnostic with one more unsigned parameter.
    pub fn with_unsigned_parameter(self, name: &str, value: u128) -> (diagnostic: Self)
        ensures
            diagnostic@ == (DiagnosticView {
                typed_parameters: self@.typed_parameters.push((name@, DiagnosticValueView::Unsigned(value))),
                ..self@
            }),
    {
        let mut diagnostic = self;
        diagnostic.typed_parameters.push((String::from_str(name), DiagnosticValue::Unsigned(value)));
        proof {
            assert(diagnostic@.typed_parameters =~= self@.typed_parameters.push(
                (name@, DiagnosticValueView::Unsigned(value)),
            ));
        }
        diagnostic
    }

    /// The same diagnostic with one more identity parameter.
    pub fn with_identity_parameter(self, name: &str, domain: IdentityDomain, digest: u128) -> (diagnostic: Self)
        ensures
            diagnostic@ == (DiagnosticView {
                typed_parameters: self@.typed_parameters.push(
                    (name@, DiagnosticValueView::Identity { domain, digest }),
                ),
                ..self@
            }),
    {
        let mut diagnostic = self;
        diagnostic.typed_parameters.push((String::from_str(name), DiagnosticValue::Identity { domain, digest }));
        proof {
            assert(diagnostic@.typed_parameters =~= self@.typed_parameters.push(
                (name@, DiagnosticValueView::Identity { domain, digest }),
            ));
        }
        diagnostic
    }

    /// The same diagnostic with one more label.
    pub fn with_label(self, range: SourceRange, role: DiagnosticLabelRole) -> (diagnostic: Self)
        ensures
            diagnostic@ == (DiagnosticView {
                labels: self@.labels.push(DiagnosticLabelView { range: range@, role }),
                ..self@
            }),
    {
        let mut diagnostic = self;
        let ghost added = DiagnosticLabelView { range: range@, role };
        diagnostic.labels.push(DiagnosticLabel { range, role });
        proof {
            assert(diagnostic@.labels =~= self@.labels.push(added));
        }
        diagnostic
    }

    /// The diagnostic code.
    pub fn code(&self) -> (code: &str)
        ensures
            code@ == self@.code,
    {
        self.code.as_str()
    }

    /// The primary range.
    pub fn primary(&self) -> (primary: &SourceRange)
        ensures
            primary@ == self@.primary,
    {
        &self.primary
    }

    /// The labels, in the order they were added.
    pub fn labels(&self) -> (labels: &[DiagnosticLabel])
        ensures
            label_views(labels@) == self@.labels,
    {
        self.labels.as_slice()
    }

    /// The typed parameters, in the order they were added.
    pub fn typed_parameters(&self) -> (parameters: &[(String, DiagnosticValue)])
        ensures
            parameter_views(parameters@) == self@.typed_parameters,
    {
        self.typed_parameters.as_slice()
    }

    /// The recovery that followed.
    pub fn recovery(&self) -> (recovery: &RecoveryAction)
        ensures
            recovery@ == self@.recovery,
    {
        &self.recovery
    }
}

/// Whether one byte string sorts strictly before another.
pub open spec fn bytes_lt(a: Seq<u8>, b: Seq<u8>) -> bool {
    a != b && bytes_le(a, b)
}

/// Whether a diagnostic sorts strictly before another: by primary path, then primary
/// start, then code.
pub open spec fn diagnostic_precedes(a: DiagnosticView, b: DiagnosticView) -> bool {
    let left_path = encode_utf8(a.primary.path);
    let right_path = encode_utf8(b.primary.path);
    if left_path != right_path {
        bytes_le(left_path, right_path)
    } else if a.primary.start != b.primary.start {
        a.primary.start < b.primary.start
    } else {
        bytes_lt(encode_utf8(a.code), encode_utf8(b.code))
    }
}

/// A diagnostic inserted into a sorted sequence after every diagnostic it does not
/// precede.
pub open spec fn insert_in_order(sorted: Seq<DiagnosticView>, diagnostic: DiagnosticView) -> Seq<DiagnosticView>
    decreases sorted.len(),
{
    if sorted.len() == 0 {
        seq![diagnostic]
    } else if diagnostic_precedes(diagnostic, sorted.last()) {
        insert_in_order(sorted.drop_last(), diagnostic).push(sorted.last())
    } else {
        sorted.push(diagnostic)
    }
}

/// The stable sort of diagnostics by primary path, primary start and code: diagnostics
/// that compare equal keep their relative order.
pub open spec fn stable_sorted(diagnostics: Seq<DiagnosticView>) -> Seq<DiagnosticView>
    decreases diagnostics.len(),
{
    if diagnostics.len() == 0 {
        Seq::empty()
    } else {
        insert_in_order(stable_sorted(diagnostics.drop_last()), diagnostics.last())
    }
}

/// Whether a sequence of diagnostics is in order: no diagnostic precedes an earlier one.
pub open spec fn diagnostics_in_order(diagnostics: Seq<DiagnosticView>) -> bool {
    forall|i: int, j: int|
        0 <= i < j < diagnostics.len() ==> !diagnostic_precedes(#[trigger] diagnostics[j], #[trigger] diagnostics[i])
}

/// Not preceding is transitive: the diagnostic order is a strict weak order.
proof fn lemma_not_preceding_transitive(a: DiagnosticView, b: DiagnosticView, c: DiagnosticView)
    requires
        !diagnostic_precedes(b, a),
        !diagnostic_precedes(c, b),
    ensures
        !diagnostic_precedes(c, a),
{
    let (pa, pb, pc) = (encode_utf8(a.primary.path), encode_utf8(b.primary.path), encode_utf8(c.primary.path));
    let (ca, cb, cc) = (encode_utf8(a.code), encode_utf8(b.code), encode_utf8(c.code));
    lemma_bytes_le_total(pa, pb);
    lemma_bytes_le_total(pb, pc);
    lemma_bytes_le_total(pa, pc);
    lemma_bytes_le_total(ca, cb);
    lemma_bytes_le_total(cb, cc);
    lemma_bytes_le_total(ca, cc);
    if bytes_le(pa, pb) && bytes_le(pb, pa) {
        lemma_bytes_le_antisymmetric(pa, pb);
    }
    if bytes_le(pb, pc) && bytes_le(pc, pb) {
        lemma_bytes_le_antisymmetric(pb, pc);
    }
    if bytes_le(pa, pc) && bytes_le(pc, pa) {
        lemma_bytes_le_antisymmetric(pa, pc);
    }
    if bytes_le(ca, cb) && bytes_le(cb, ca) {
        lemma_bytes_le_antisymmetric(ca, cb);
    }
    if bytes_le(cb, cc) && bytes_le(cc, cb) {
        lemma_bytes_le_antisymmetric(cb, cc);
    }
    if bytes_le(ca, cc) && bytes_le(cc, ca) {
        lemma_bytes_le_antisymmetric(ca, cc);
    }
    if bytes_le(pa, pb) && bytes_le(pb, pc) {
        lemma_bytes_le_transitive(pa, pb, pc);
    }
    if bytes_le(ca, cb) && bytes_le(cb, cc) {
        lemma_bytes_le_transitive(ca, cb, cc);
    }
}

/// Preceding is irreflexive and asymmetric.
proof fn lemma_precedes_asymmetric(a: DiagnosticView, b: DiagnosticView)
    ensures
        !diagnostic_precedes(a, a),
        diagnostic_precedes(a, b) ==> !diagnostic_precedes(b, a),
{
    let (pa, pb) = (encode_utf8(a.primary.path), encode_utf8(b.primary.path));
    let (ca, cb) = (encode_utf8(a.code), encode_utf8(b.code));
    if pa != pb && bytes_le(pa, pb) && bytes_le(pb, pa) {
        lemma_bytes_le_antisymmetric(pa, pb);
    }
    if ca != cb && bytes_le(ca, cb) && bytes_le(cb, ca) {
        lemma_bytes_le_antisymmetric(ca, cb);
    }
}

/// Inserting in order keeps every diagnostic and adds the inserted one.
proof fn lemma_insert_in_order_multiset(sorted: Seq<DiagnosticView>, diagnostic: DiagnosticView)
    ensures
        insert_in_order(sorted, diagnostic).to_multiset() == sorted.to_multiset().insert(diagnostic),
    decreases sorted.len(),
{
    broadcast use vstd::seq_lib::group_to_multiset_ensures;

    if sorted.len() == 0 {
        assert(seq![diagnostic] =~= Seq::<DiagnosticView>::empty().push(diagnostic));
    } else if diagnostic_precedes(diagnostic, sorted.last()) {
        lemma_insert_in_order_multiset(sorted.drop_last(), diagnostic);
        assert(sorted =~= sorted.drop_last().push(sorted.last()));
        assert(insert_in_order(sorted, diagnostic).to_multiset() =~= sorted.to_multiset().insert(diagnostic));
    }
}

/// Inserting in order into an ordered sequence keeps it in order.
proof fn lemma_insert_in_order_ordered(sorted: Seq<DiagnosticView>, diagnostic: DiagnosticView)
    requires
        diagnostics_in_order(sorted),
    ensures
        diagnostics_in_order(insert_in_order(sorted, diagnostic)),
    decreases sorted.len(),
{
    broadcast use vstd::seq_lib::group_to_multiset_ensures;

    if sorted.len() == 0 {
    } else {
        let last = sorted.last();
        let shorter = sorted.drop_last();
        if diagnostic_precedes(diagnostic, last) {
            assert(diagnostics_in_order(shorter)) by {
                assert forall|i: int, j: int| 0 <= i < j < shorter.len() implies !diagnostic_precedes(
                    #[trigger] shorter[j],
                    #[trigger] shorter[i],
                ) by {
                    assert(shorter[j] == sorted[j] && shorter[i] == sorted[i]);
                }
            }
            lemma_insert_in_order_ordered(shorter, diagnostic);
            let inserted = insert_in_order(shorter, diagnostic);
            lemma_insert_in_order_multiset(shorter, diagnostic);
            let result = inserted.push(last);
            assert forall|i: int, j: int| 0 <= i < j < result.len() implies !diagnostic_precedes(
                #[trigger] result[j],
                #[trigger] result[i],
            ) by {
                if j == result.len() - 1 {
                    let x = inserted[i];
                    assert(inserted.to_multiset().count(x) > 0);
                    assert(shorter.to_multiset().insert(diagnostic).count(x) > 0);
                    if x == diagnostic {
                        lemma_precedes_asymmetric(diagnostic, last);
                    } else {
                        assert(shorter.to_multiset().count(x) > 0);
                        assert(shorter.contains(x));
                        let k = choose|k: int| 0 <= k < shorter.len() && shorter[k] == x;
                        assert(sorted[k] == x);
                        assert(!diagnostic_precedes(sorted[sorted.len() - 1], sorted[k]));
                    }
                } else {
                    assert(result[i] == inserted[i] && result[j] == inserted[j]);
                }
            }
        } else {
            let result = sorted.push(diagnostic);
            assert forall|i: int, j: int| 0 <= i < j < result.len() implies !diagnostic_precedes(
                #[trigger] result[j],
                #[trigger] result[i],
            ) by {
                if j == result.len() - 1 {
                    if i < sorted.len() - 1 {
                        assert(!diagnostic_precedes(sorted[sorted.len() - 1], sorted[i]));
                        lemma_not_preceding_transitive(sorted[i], last, diagnostic);
                    }
                } else {
                    assert(result[i] == sorted[i] && result[j] == sorted[j]);
                }
            }
        }
    }
}

/// Compilation diagnostics are reported in order: the stable sort of diagnostics is in
/// order of primary path, primary start and code, and holds exactly the diagnostics it
/// was given.
pub proof fn lemma_sorted_diagnostics_are_ordered_permutation(diagnostics: Seq<DiagnosticView>)
    ensures
        diagnostics_in_order(stable_sorted(diagnostics)),
        stable_sorted(diagnostics).to_multiset() == diagnostics.to_multiset(),
    decreases diagnostics.len(),
{
    broadcast use vstd::seq_lib::group_to_multiset_ensures;

    if diagnostics.len() > 0 {
        lemma_sorted_diagnostics_are_ordered_permutation(diagnostics.drop_last());
        lemma_insert_in_order_ordered(stable_sorted(diagnostics.drop_last()), diagnostics.last());
        lemma_insert_in_order_multiset(stable_sorted(diagnostics.drop_last()), diagnostics.last());
        assert(diagnostics =~= diagnostics.drop_last().push(diagnostics.last()));
    } else {
        assert(stable_sorted(diagnostics).to_multiset() =~= diagnostics.to_multiset());
    }
}

/// Inserting where a backwards scan stops is inserting in order.
proof fn lemma_insert_in_order_position(sorted: Seq<DiagnosticView>, diagnostic: DiagnosticView, position: int)
    requires
        0 <= position <= sorted.len(),
        forall|k: int| position <= k < sorted.len() ==> diagnostic_precedes(diagnostic, #[trigger] sorted[k]),
        position > 0 ==> !diagnostic_precedes(diagnostic, sorted[position - 1]),
    ensures
        insert_in_order(sorted, diagnostic) == sorted.insert(position, diagnostic),
    decreases sorted.len(),
{
    if sorted.len() == 0 {
        assert(sorted.insert(position, diagnostic) =~= seq![diagnostic]);
    } else if position == sorted.len() {
        assert(sorted.insert(position, diagnostic) =~= sorted.push(diagnostic));
    } else {
        assert(diagnostic_precedes(diagnostic, sorted[sorted.len() - 1]));
        let shorter = sorted.drop_last();
        assert forall|k: int| position <= k < shorter.len() implies diagnostic_precedes(
            diagnostic,
            #[trigger] shorter[k],
        ) by {
            assert(shorter[k] == sorted[k]);
        }
        if position > 0 {
            assert(shorter[position - 1] == sorted[position - 1]);
        }
        lemma_insert_in_order_position(shorter, diagnostic, position);
        assert(sorted.insert(position, diagnostic) =~= shorter.insert(position, diagnostic).push(
            sorted.last(),
        ));
    }
}

/// Whether `left` sorts strictly before `right`.
fn diagnostic_precedes_exec(left: &Diagnostic, right: &Diagnostic) -> (precedes: bool)
    ensures
        precedes == diagnostic_precedes(left@, right@),
{
    let left_path = left.primary.path.as_str().as_bytes();
    let right_path = right.primary.path.as_str().as_bytes();
    let forward = bytes_le_exec(left_path, right_path);
    let backward = bytes_le_exec(right_path, left_path);
    proof {
        lemma_bytes_le_reflexive(left_path@);
        if forward && backward {
            lemma_bytes_le_antisymmetric(left_path@, right_path@);
        }
    }
    if !(forward && backward) {
        return forward;
    }
    if left.primary.start != right.primary.start {
        return left.primary.start < right.primary.start;
    }
    let left_code = left.code.as_str().as_bytes();
    let right_code = right.code.as_str().as_bytes();
    let code_forward = bytes_le_exec(left_code, right_code);
    let code_backward = bytes_le_exec(right_code, left_code);
    proof {
        lemma_bytes_le_reflexive(left_code@);
        if code_forward && code_backward {
            lemma_bytes_le_antisymmetric(left_code@, right_code@);
        }
    }
    code_forward && !code_backward
}

/// Sorts diagnostics stably by primary path, primary start and code, as a compilation
/// reports them.
pub fn sort_diagnostics(diagnostics: Vec<Diagnostic>) -> (sorted: Vec<Diagnostic>)
    ensures
        diagnostic_views(sorted@) == stable_sorted(diagnostic_views(diagnostics@)),
{
    let ghost all = diagnostic_views(diagnostics@);
    let mut remaining = diagnostics;
    let mut sorted: Vec<Diagnostic> = Vec::new();
    let ghost mut taken: int = 0;
    proof {
        assert(all.take(0) =~= Seq::<DiagnosticView>::empty());
        assert(diagnostic_views(sorted@) =~= stable_sorted(all.take(0)));
        assert(diagnostic_views(remaining@) =~= all.skip(0));
    }
    while remaining.len() > 0
        invariant
            0 <= taken <= all.len(),
            diagnostic_views(remaining@) == all.skip(taken),
            diagnostic_views(sorted@) == stable_sorted(all.take(taken)),
        decreases remaining@.len(),
    {
        let ghost before = diagnostic_views(sorted@);
        let ghost rest = remaining@;
        let next = remaining.remove(0);
        proof {
            assert(diagnostic_views(rest)[0] == next@);
            assert(diagnostic_views(rest).len() == rest.len());
            assert(taken < all.len());
            assert(all.skip(taken)[0] == all[taken]);
            assert(diagnostic_views(remaining@) =~= diagnostic_views(rest).drop_first());
            assert(all.skip(taken).drop_first() =~= all.skip(taken + 1));
        }
        let mut position: usize = sorted.len();
        while position > 0 && diagnostic_precedes_exec(&next, &sorted[position - 1])
            invariant
                position <= sorted@.len(),
                before == diagnostic_views(sorted@),
                forall|k: int| position <= k < before.len() ==> diagnostic_precedes(next@, #[trigger] before[k]),
            decreases position,
        {
            position = position - 1;
        }
        proof {
            lemma_insert_in_order_position(before, next@, position as int);
        }
        let ghost next_view = next@;
        sorted.insert(position, next);
        proof {
            assert(diagnostic_views(sorted@) =~= before.insert(position as int, next_view));
            assert(all.take(taken + 1).drop_last() =~= all.take(taken));
            assert(all.take(taken + 1).last() == next_view);
            taken = taken + 1;
        }
    }
    proof {
        assert(all.skip(taken).len() == 0);
        assert(all.take(taken) =~= all);
    }
    sorted
}

/// The diagnostic for a request that plans for a profile the distribution cannot plan:
/// `architecture.unsupported_profile` at the start of the root module, with the profile's
/// canonical name as its `profile` parameter.
pub open spec fn unsupported_architecture_view(root: Root, profile: ArchitectureProfile) -> DiagnosticView {
    DiagnosticView {
        code: "architecture.unsupported_profile"@,
        primary: SourceRangeView { path: root_path(root), start: 0, end: 0 },
        labels: Seq::empty(),
        typed_parameters: seq![("profile"@, DiagnosticValueView::Text(profile_name(profile)))],
        recovery: RecoveryActionView::NoAction,
    }
}

/// The diagnostic for a request that plans for an unsupported profile.
pub fn unsupported_architecture_diagnostic(root: Root, profile: ArchitectureProfile) -> (diagnostic: Diagnostic)
    ensures
        diagnostic@ == unsupported_architecture_view(root, profile),
{
    let diagnostic = Diagnostic::new(
        "architecture.unsupported_profile",
        SourceRange::new(root.path(), 0, 0),
        RecoveryAction::NoAction,
    ).with_parameter("profile", profile.canonical_name());
    proof {
        assert(diagnostic@.typed_parameters =~= unsupported_architecture_view(root, profile).typed_parameters);
    }
    diagnostic
}

// ---------------------------------------------------------------------------------------
// Syntax observations
// ---------------------------------------------------------------------------------------

/// The kind of a token.
#[derive(Clone, Copy, Debug, PartialEq, Eq, Structural)]
pub enum SyntaxTokenKind {
    Identifier,
    IntegerLiteral,
    FloatLiteral,
    TextLiteral,
    ScalarLiteral,
    BytesLiteral,
    Fn,
    Pub,
    Pure,
    Async,
    Any,
    Return,
    Break,
    Case,
    Continue,
    Defer,
    For,
    If,
    Elif,
    Else,
    Const,
    Struct,
    Resource,
    Enum,
    Interface,
    Type,
    Pool,
    Suite,
    Test,
    From,
    Import,
    As,
    Comptime,
    Assert,
    In,
    Is,
    Match,
    And,
    Or,
    Not,
    Await,
    Own,
    Panic,
    Pass,
    Take,
    Read,
    Mut,
    SelfValue,
    Implements,
    Expect,
    Send,
    TrySend,
    While,
    With,
    True,
    False,
    LeftParen,
    RightParen,
    LeftBracket,
    RightBracket,
    Colon,
    Comma,
    Dot,
    At,
    Arrow,
    Equal,
    EqualEqual,
    BangEqual,
    Less,
    LessEqual,
    Greater,
    GreaterEqual,
    Plus,
    Minus,
    Star,
    Slash,
    Percent,
    Ampersand,
    Pipe,
    Caret,
    Tilde,
    ShiftLeft,
    ShiftRight,
    Range,
    RangeInclusive,
    Semicolon,
    Question,
    Invalid,
}

/// The canonical name of a token kind.
pub open spec fn token_name(kind: SyntaxTokenKind) -> Seq<char> {
    match kind {
        SyntaxTokenKind::Identifier => "identifier"@,
        SyntaxTokenKind::IntegerLiteral => "integer_literal"@,
        SyntaxTokenKind::FloatLiteral => "float_literal"@,
        SyntaxTokenKind::TextLiteral => "text_literal"@,
        SyntaxTokenKind::ScalarLiteral => "scalar_literal"@,
        SyntaxTokenKind::BytesLiteral => "bytes_literal"@,
        SyntaxTokenKind::Fn => "fn"@,
        SyntaxTokenKind::Pub => "pub"@,
        SyntaxTokenKind::Pure => "pure"@,
        SyntaxTokenKind::Async => "async"@,
        SyntaxTokenKind::Any => "any"@,
        SyntaxTokenKind::Return => "return"@,
        SyntaxTokenKind::Break => "break"@,
        SyntaxTokenKind::Case => "case"@,
        SyntaxTokenKind::Continue => "continue"@,
        SyntaxTokenKind::Defer => "defer"@,
        SyntaxTokenKind::For => "for"@,
        SyntaxTokenKind::If => "if"@,
        SyntaxTokenKind::Elif => "elif"@,
        SyntaxTokenKind::Else => "else"@,
        SyntaxTokenKind::Const => "const"@,
        SyntaxTokenKind::Struct => "struct"@,
        SyntaxTokenKind::Resource => "resource"@,
        SyntaxTokenKind::Enum => "enum"@,
        SyntaxTokenKind::Interface => "interface"@,
        SyntaxTokenKind::Type => "type"@,
        SyntaxTokenKind::Pool => "pool"@,
        SyntaxTokenKind::Suite => "suite"@,
        SyntaxTokenKind::Test => "test"@,
        SyntaxTokenKind::From => "from"@,
        SyntaxTokenKind::Import => "import"@,
        SyntaxTokenKind::As => "as"@,
        SyntaxTokenKind::Comptime => "comptime"@,
        SyntaxTokenKind::Assert => "assert"@,
        SyntaxTokenKind::In => "in"@,
        SyntaxTokenKind::Is => "is"@,
        SyntaxTokenKind::Match => "match"@,
        SyntaxTokenKind::And => "and"@,
        SyntaxTokenKind::Or => "or"@,
        SyntaxTokenKind::Not => "not"@,
        SyntaxTokenKind::Await => "await"@,
        SyntaxTokenKind::Own => "own"@,
        SyntaxTokenKind::Panic => "panic"@,
        SyntaxTokenKind::Pass => "pass"@,
        SyntaxTokenKind::Take => "take"@,
        SyntaxTokenKind::Read => "read"@,
        SyntaxTokenKind::Mut => "mut"@,
        SyntaxTokenKind::SelfValue => "self"@,
        SyntaxTokenKind::Implements => "implements"@,
        SyntaxTokenKind::Expect => "expect"@,
        SyntaxTokenKind::Send => "send"@,
        SyntaxTokenKind::TrySend => "try_send"@,
        SyntaxTokenKind::While => "while"@,
        SyntaxTokenKind::With => "with"@,
        SyntaxTokenKind::True => "true"@,
        SyntaxTokenKind::False => "false"@,
        SyntaxTokenKind::LeftParen => "left_paren"@,
        SyntaxTokenKind::RightParen => "right_paren"@,
        SyntaxTokenKind::LeftBracket => "left_bracket"@,
        SyntaxTokenKind::RightBracket => "right_bracket"@,
        SyntaxTokenKind::Colon => "colon"@,
        SyntaxTokenKind::Comma => "comma"@,
        SyntaxTokenKind::Dot => "dot"@,
        SyntaxTokenKind::At => "at"@,
        SyntaxTokenKind::Arrow => "arrow"@,
        SyntaxTokenKind::Equal => "equal"@,
        SyntaxTokenKind::EqualEqual => "equal_equal"@,
        SyntaxTokenKind::BangEqual => "bang_equal"@,
        SyntaxTokenKind::Less => "less"@,
        SyntaxTokenKind::LessEqual => "less_equal"@,
        SyntaxTokenKind::Greater => "greater"@,
        SyntaxTokenKind::GreaterEqual => "greater_equal"@,
        SyntaxTokenKind::Plus => "plus"@,
        SyntaxTokenKind::Minus => "minus"@,
        SyntaxTokenKind::Star => "star"@,
        SyntaxTokenKind::Slash => "slash"@,
        SyntaxTokenKind::Percent => "percent"@,
        SyntaxTokenKind::Ampersand => "ampersand"@,
        SyntaxTokenKind::Pipe => "pipe"@,
        SyntaxTokenKind::Caret => "caret"@,
        SyntaxTokenKind::Tilde => "tilde"@,
        SyntaxTokenKind::ShiftLeft => "shift_left"@,
        SyntaxTokenKind::ShiftRight => "shift_right"@,
        SyntaxTokenKind::Range => "range"@,
        SyntaxTokenKind::RangeInclusive => "range_inclusive"@,
        SyntaxTokenKind::Semicolon => "semicolon"@,
        SyntaxTokenKind::Question => "question"@,
        SyntaxTokenKind::Invalid => "invalid"@,
    }
}

impl SyntaxTokenKind {
    /// The canonical name of the token kind.
    pub fn name(self) -> (name: &'static str)
        ensures
            name@ == token_name(self),
    {
        match self {
            SyntaxTokenKind::Identifier => "identifier",
            SyntaxTokenKind::IntegerLiteral => "integer_literal",
            SyntaxTokenKind::FloatLiteral => "float_literal",
            SyntaxTokenKind::TextLiteral => "text_literal",
            SyntaxTokenKind::ScalarLiteral => "scalar_literal",
            SyntaxTokenKind::BytesLiteral => "bytes_literal",
            SyntaxTokenKind::Fn => "fn",
            SyntaxTokenKind::Pub => "pub",
            SyntaxTokenKind::Pure => "pure",
            SyntaxTokenKind::Async => "async",
            SyntaxTokenKind::Any => "any",
            SyntaxTokenKind::Return => "return",
            SyntaxTokenKind::Break => "break",
            SyntaxTokenKind::Case => "case",
            SyntaxTokenKind::Continue => "continue",
            SyntaxTokenKind::Defer => "defer",
            SyntaxTokenKind::For => "for",
            SyntaxTokenKind::If => "if",
            SyntaxTokenKind::Elif => "elif",
            SyntaxTokenKind::Else => "else",
            SyntaxTokenKind::Const => "const",
            SyntaxTokenKind::Struct => "struct",
            SyntaxTokenKind::Resource => "resource",
            SyntaxTokenKind::Enum => "enum",
            SyntaxTokenKind::Interface => "interface",
            SyntaxTokenKind::Type => "type",
            SyntaxTokenKind::Pool => "pool",
            SyntaxTokenKind::Suite => "suite",
            SyntaxTokenKind::Test => "test",
            SyntaxTokenKind::From => "from",
            SyntaxTokenKind::Import => "import",
            SyntaxTokenKind::As => "as",
            SyntaxTokenKind::Comptime => "comptime",
            SyntaxTokenKind::Assert => "assert",
            SyntaxTokenKind::In => "in",
            SyntaxTokenKind::Is => "is",
            SyntaxTokenKind::Match => "match",
            SyntaxTokenKind::And => "and",
            SyntaxTokenKind::Or => "or",
            SyntaxTokenKind::Not => "not",
            SyntaxTokenKind::Await => "await",
            SyntaxTokenKind::Own => "own",
            SyntaxTokenKind::Panic => "panic",
            SyntaxTokenKind::Pass => "pass",
            SyntaxTokenKind::Take => "take",
            SyntaxTokenKind::Read => "read",
            SyntaxTokenKind::Mut => "mut",
            SyntaxTokenKind::SelfValue => "self",
            SyntaxTokenKind::Implements => "implements",
            SyntaxTokenKind::Expect => "expect",
            SyntaxTokenKind::Send => "send",
            SyntaxTokenKind::TrySend => "try_send",
            SyntaxTokenKind::While => "while",
            SyntaxTokenKind::With => "with",
            SyntaxTokenKind::True => "true",
            SyntaxTokenKind::False => "false",
            SyntaxTokenKind::LeftParen => "left_paren",
            SyntaxTokenKind::RightParen => "right_paren",
            SyntaxTokenKind::LeftBracket => "left_bracket",
            SyntaxTokenKind::RightBracket => "right_bracket",
            SyntaxTokenKind::Colon => "colon",
            SyntaxTokenKind::Comma => "comma",
            SyntaxTokenKind::Dot => "dot",
            SyntaxTokenKind::At => "at",
            SyntaxTokenKind::Arrow => "arrow",
            SyntaxTokenKind::Equal => "equal",
            SyntaxTokenKind::EqualEqual => "equal_equal",
            SyntaxTokenKind::BangEqual => "bang_equal",
            SyntaxTokenKind::Less => "less",
            SyntaxTokenKind::LessEqual => "less_equal",
            SyntaxTokenKind::Greater => "greater",
            SyntaxTokenKind::GreaterEqual => "greater_equal",
            SyntaxTokenKind::Plus => "plus",
            SyntaxTokenKind::Minus => "minus",
            SyntaxTokenKind::Star => "star",
            SyntaxTokenKind::Slash => "slash",
            SyntaxTokenKind::Percent => "percent",
            SyntaxTokenKind::Ampersand => "ampersand",
            SyntaxTokenKind::Pipe => "pipe",
            SyntaxTokenKind::Caret => "caret",
            SyntaxTokenKind::Tilde => "tilde",
            SyntaxTokenKind::ShiftLeft => "shift_left",
            SyntaxTokenKind::ShiftRight => "shift_right",
            SyntaxTokenKind::Range => "range",
            SyntaxTokenKind::RangeInclusive => "range_inclusive",
            SyntaxTokenKind::Semicolon => "semicolon",
            SyntaxTokenKind::Question => "question",
            SyntaxTokenKind::Invalid => "invalid",
        }
    }
}

/// The kind of trivia between tokens.
#[derive(Clone, Copy, Debug, PartialEq, Eq, Structural)]
pub enum SyntaxTriviaKind {
    Spaces,
    Lf,
    Crlf,
    Comment,
    DocumentationComment,
}

/// The kind of bytes the lexer could not accept.
#[derive(Clone, Copy, Debug, PartialEq, Eq, Structural)]
pub enum SyntaxInvalidKind {
    OversizedSource,
    Tab,
    LineEnding,
    Literal,
    Token,
    Byte,
}

/// A layout token that indentation produced.
#[derive(Clone, Copy, Debug, PartialEq, Eq, Structural)]
pub enum SyntaxLayoutKind {
    Indent,
    Dedent,
}

/// Something the parser expected and did not find.
#[derive(Clone, Copy, Debug, PartialEq, Eq, Structural)]
pub enum SyntaxMissingKind {
    Block,
    Closer,
}

/// A structural error the parser recovered from.
#[derive(Clone, Copy, Debug, PartialEq, Eq, Structural)]
pub enum SyntaxErrorKind {
    UnexpectedIndentBlock,
}

/// The kind of a syntax element: a token, trivia, invalid bytes, layout, something
/// missing or a recovered error.
#[derive(Clone, Copy, Debug, PartialEq, Eq, Structural)]
pub enum SyntaxElementKind {
    Token(SyntaxTokenKind),
    Trivia(SyntaxTriviaKind),
    Invalid(SyntaxInvalidKind),
    Layout(SyntaxLayoutKind),
    Missing(SyntaxMissingKind),
    Error(SyntaxErrorKind),
}

/// The canonical name of a syntax element kind.
pub open spec fn element_name(kind: SyntaxElementKind) -> Seq<char> {
    match kind {
        SyntaxElementKind::Token(token) => token_name(token),
        SyntaxElementKind::Trivia(SyntaxTriviaKind::Spaces) => "spaces"@,
        SyntaxElementKind::Trivia(SyntaxTriviaKind::Lf) => "lf"@,
        SyntaxElementKind::Trivia(SyntaxTriviaKind::Crlf) => "crlf"@,
        SyntaxElementKind::Trivia(SyntaxTriviaKind::Comment) => "comment"@,
        SyntaxElementKind::Trivia(SyntaxTriviaKind::DocumentationComment) => "documentation_comment"@,
        SyntaxElementKind::Invalid(SyntaxInvalidKind::OversizedSource) => "oversized_source"@,
        SyntaxElementKind::Invalid(SyntaxInvalidKind::Tab) => "invalid_tab"@,
        SyntaxElementKind::Invalid(SyntaxInvalidKind::LineEnding) => "invalid_line_ending"@,
        SyntaxElementKind::Invalid(SyntaxInvalidKind::Literal) => "invalid_literal"@,
        SyntaxElementKind::Invalid(SyntaxInvalidKind::Token) => "invalid_token"@,
        SyntaxElementKind::Invalid(SyntaxInvalidKind::Byte) => "invalid_byte"@,
        SyntaxElementKind::Layout(SyntaxLayoutKind::Indent) => "indent"@,
        SyntaxElementKind::Layout(SyntaxLayoutKind::Dedent) => "dedent"@,
        SyntaxElementKind::Missing(SyntaxMissingKind::Block) => "missing_block"@,
        SyntaxElementKind::Missing(SyntaxMissingKind::Closer) => "missing_closer"@,
        SyntaxElementKind::Error(SyntaxErrorKind::UnexpectedIndentBlock) => "unexpected_indent_block"@,
    }
}

impl SyntaxElementKind {
    /// The canonical name of the element kind.
    pub fn name(self) -> (name: &'static str)
        ensures
            name@ == element_name(self),
    {
        match self {
            SyntaxElementKind::Token(token) => token.name(),
            SyntaxElementKind::Trivia(SyntaxTriviaKind::Spaces) => "spaces",
            SyntaxElementKind::Trivia(SyntaxTriviaKind::Lf) => "lf",
            SyntaxElementKind::Trivia(SyntaxTriviaKind::Crlf) => "crlf",
            SyntaxElementKind::Trivia(SyntaxTriviaKind::Comment) => "comment",
            SyntaxElementKind::Trivia(SyntaxTriviaKind::DocumentationComment) => "documentation_comment",
            SyntaxElementKind::Invalid(SyntaxInvalidKind::OversizedSource) => "oversized_source",
            SyntaxElementKind::Invalid(SyntaxInvalidKind::Tab) => "invalid_tab",
            SyntaxElementKind::Invalid(SyntaxInvalidKind::LineEnding) => "invalid_line_ending",
            SyntaxElementKind::Invalid(SyntaxInvalidKind::Literal) => "invalid_literal",
            SyntaxElementKind::Invalid(SyntaxInvalidKind::Token) => "invalid_token",
            SyntaxElementKind::Invalid(SyntaxInvalidKind::Byte) => "invalid_byte",
            SyntaxElementKind::Layout(SyntaxLayoutKind::Indent) => "indent",
            SyntaxElementKind::Layout(SyntaxLayoutKind::Dedent) => "dedent",
            SyntaxElementKind::Missing(SyntaxMissingKind::Block) => "missing_block",
            SyntaxElementKind::Missing(SyntaxMissingKind::Closer) => "missing_closer",
            SyntaxElementKind::Error(SyntaxErrorKind::UnexpectedIndentBlock) => "unexpected_indent_block",
        }
    }
}

/// The kind of a syntax tree node.
#[derive(Clone, Copy, Debug, PartialEq, Eq, Structural)]
pub enum SyntaxNodeKind {
    Source,
    Function,
    Constant,
    Pool,
    TypeAlias,
    Struct,
    ResourceStruct,
    Enum,
    Interface,
    Suite,
    FunctionSignature,
    Parameter,
    Block,
    ConstantValue,
    SuiteHeader,
    Test,
    AsyncTest,
    Variant,
    Field,
    MemberFunction,
    FunctionRequirement,
    ReturnStatement,
    PanicStatement,
    AssertStatement,
    ExpectStatement,
    InitializeStatement,
    ExpressionStatement,
    IfStatement,
    ComptimeSelection,
    ComptimeBranch,
    MatchStatement,
    MatchCase,
    ForStatement,
    WhileStatement,
    BreakStatement,
    ContinueStatement,
    DeferStatement,
    WithStatement,
    TakeStatement,
    SendStatement,
    TrySendStatement,
    PassStatement,
    IntegerExpression,
    FloatExpression,
    TextExpression,
    ScalarExpression,
    BytesExpression,
    BoolExpression,
    NameExpression,
    CallExpression,
    ArrayExpression,
    TupleExpression,
    IndexExpression,
    UnitExpression,
    PositiveExpression,
    NegateExpression,
    BitNotExpression,
    NotExpression,
    AwaitExpression,
    MutExpression,
    PropagateExpression,
    BinaryExpression,
    RangeExpression,
    IsExpression,
    ClosureExpression,
    RepeatedArrayExpression,
    TakeExpression,
    SendExpression,
    TrySendExpression,
}

/// A token, trivia or recovery element of a module, with its byte range.
#[derive(Clone, Debug, PartialEq, Eq)]
pub struct SyntaxElement {
    kind: SyntaxElementKind,
    range: SourceRange,
}

/// What a syntax element holds.
pub ghost struct SyntaxElementView {
    pub kind: SyntaxElementKind,
    pub range: SourceRangeView,
}

impl View for SyntaxElement {
    type V = SyntaxElementView;

    closed spec fn view(&self) -> SyntaxElementView {
        SyntaxElementView { kind: self.kind, range: self.range@ }
    }
}

impl SyntaxElement {
    /// An element of the given kind over `start..end` of the module at `path`.
    pub fn new(kind: SyntaxElementKind, path: &str, start: usize, end: usize) -> (element: Self)
        ensures
            element@ == (SyntaxElementView {
                kind,
                range: SourceRangeView { path: path@, start: start as u64, end: end as u64 },
            }),
    {
        SyntaxElement { kind, range: SourceRange::new(path, start, end) }
    }

    /// The element's kind.
    pub fn kind(&self) -> (kind: &SyntaxElementKind)
        ensures
            *kind == self@.kind,
    {
        &self.kind
    }

    /// The canonical name of the element's kind.
    pub fn name(&self) -> (name: &'static str)
        ensures
            name@ == element_name(self@.kind),
    {
        self.kind.name()
    }

    /// The element's byte range.
    pub fn range(&self) -> (range: &SourceRange)
        ensures
            range@ == self@.range,
    {
        &self.range
    }
}

/// A node of a module's syntax tree, with its range and depth.
#[derive(Clone, Debug, PartialEq, Eq)]
pub struct SyntaxNodeObservation {
    kind: SyntaxNodeKind,
    range: SourceRange,
    depth: u16,
}

/// What the observation holds.
pub ghost struct SyntaxNodeObservationView {
    pub kind: SyntaxNodeKind,
    pub range: SourceRangeView,
    pub depth: u16,
}

impl View for SyntaxNodeObservation {
    type V = SyntaxNodeObservationView;

    closed spec fn view(&self) -> SyntaxNodeObservationView {
        SyntaxNodeObservationView {
            kind: self.kind,
            range: self.range@,
            depth: self.depth,
        }
    }
}

impl SyntaxNodeObservation {
    /// An observation of the given values.
    pub fn new(kind: SyntaxNodeKind, range: SourceRange, depth: u16) -> (observation: Self)
        ensures
            observation@ == (SyntaxNodeObservationView {
                kind: kind,
                range: range@,
                depth: depth,
            }),
    {
        let observation = SyntaxNodeObservation { kind, range, depth };
        observation
    }

    /// The node's kind.
    pub fn kind(&self) -> (value: SyntaxNodeKind)
        ensures
            value == self@.kind,
    {
        self.kind
    }

    /// The node's byte range.
    pub fn range(&self) -> (value: &SourceRange)
        ensures
            value@ == self@.range,
    {
        &self.range
    }

    /// The node's depth below the source node.
    pub fn depth(&self) -> (value: u16)
        ensures
            value == self@.depth,
    {
        self.depth
    }
}

/// The syntax of one module: its path, its bytes, its elements and its tree nodes.
#[derive(Clone, Debug, PartialEq, Eq)]
pub struct SyntaxObservation {
    path: String,
    bytes: Vec<u8>,
    elements: Vec<SyntaxElement>,
    nodes: Vec<SyntaxNodeObservation>,
}

/// What a syntax observation holds.
pub ghost struct SyntaxObservationView {
    pub path: Seq<char>,
    pub bytes: Seq<u8>,
    pub elements: Seq<SyntaxElementView>,
    pub nodes: Seq<SyntaxNodeObservationView>,
}

impl View for SyntaxObservation {
    type V = SyntaxObservationView;

    closed spec fn view(&self) -> SyntaxObservationView {
        SyntaxObservationView {
            path: self.path@,
            bytes: self.bytes@,
            elements: self.elements@.map_values(|element: SyntaxElement| element@),
            nodes: self.nodes@.map_values(|node: SyntaxNodeObservation| node@),
        }
    }
}

impl SyntaxObservation {
    /// The syntax of a file: its path and bytes, the elements and the nodes.
    pub fn new(file: &ProjectFile, elements: Vec<SyntaxElement>, nodes: Vec<SyntaxNodeObservation>) -> (observation: Self)
        ensures
            observation@ == (SyntaxObservationView {
                path: file@.path,
                bytes: file@.bytes,
                elements: elements@.map_values(|element: SyntaxElement| element@),
                nodes: nodes@.map_values(|node: SyntaxNodeObservation| node@),
            }),
    {
        SyntaxObservation {
            path: String::from_str(file.path()),
            bytes: slice_to_vec(file.bytes()),
            elements,
            nodes,
        }
    }

    /// The module path.
    pub fn path(&self) -> (path: &str)
        ensures
            path@ == self@.path,
    {
        self.path.as_str()
    }

    /// The module's bytes.
    pub fn source_bytes(&self) -> (bytes: &[u8])
        ensures
            bytes@ == self@.bytes,
    {
        self.bytes.as_slice()
    }

    /// The elements, in source order.
    pub fn elements(&self) -> (elements: &[SyntaxElement])
        ensures
            elements@.map_values(|element: SyntaxElement| element@) == self@.elements,
    {
        self.elements.as_slice()
    }

    /// The tree nodes, in preorder.
    pub fn nodes(&self) -> (nodes: &[SyntaxNodeObservation])
        ensures
            nodes@.map_values(|node: SyntaxNodeObservation| node@) == self@.nodes,
    {
        self.nodes.as_slice()
    }
}

// ---------------------------------------------------------------------------------------
// Semantic observations
// ---------------------------------------------------------------------------------------

/// The values that a completed semantic program is observed by.
#[derive(Clone, Copy, Debug, PartialEq, Eq, Structural)]
pub struct CompletedSemanticProgramValues {
    pub fingerprint: u128,
    pub context_identity: u128,
    pub typed_program_fingerprint: u128,
    pub identity_catalog_revision: u128,
    pub custody_fingerprint: u128,
    pub construction_graph_fingerprint: u128,
    pub executable_demand_fingerprint: u128,
    pub solved_specialization_count: usize,
    pub evaluation_count: usize,
    pub construction_count: usize,
    pub executable_count: usize,
}

/// The phase schema of completed semantic programs.
pub open spec fn completed_semantic_phase_schema() -> Seq<char> {
    "wrela.completed-semantic-program.v3"@
}

/// The observation of a completed semantic program: its fingerprints and counts.
#[derive(Clone, Debug, PartialEq, Eq)]
pub struct CompletedSemanticProgramObservation {
    values: CompletedSemanticProgramValues,
}

impl View for CompletedSemanticProgramObservation {
    type V = CompletedSemanticProgramValues;

    closed spec fn view(&self) -> CompletedSemanticProgramValues {
        self.values
    }
}

impl CompletedSemanticProgramObservation {
    /// The observation of the given values.
    pub fn new(values: CompletedSemanticProgramValues) -> (observation: Self)
        ensures
            observation@ == values,
    {
        CompletedSemanticProgramObservation { values }
    }

    /// The program fingerprint.
    pub fn fingerprint(&self) -> (value: u128)
        ensures
            value == self@.fingerprint,
    {
        self.values.fingerprint
    }

    /// The identity of the semantic context.
    pub fn context_identity(&self) -> (value: u128)
        ensures
            value == self@.context_identity,
    {
        self.values.context_identity
    }

    /// The fingerprint of the typed program.
    pub fn typed_program_fingerprint(&self) -> (value: u128)
        ensures
            value == self@.typed_program_fingerprint,
    {
        self.values.typed_program_fingerprint
    }

    /// The revision of the identity catalog.
    pub fn identity_catalog_revision(&self) -> (value: u128)
        ensures
            value == self@.identity_catalog_revision,
    {
        self.values.identity_catalog_revision
    }

    /// The fingerprint of the custody facts.
    pub fn custody_fingerprint(&self) -> (value: u128)
        ensures
            value == self@.custody_fingerprint,
    {
        self.values.custody_fingerprint
    }

    /// The fingerprint of the construction graph.
    pub fn construction_graph_fingerprint(&self) -> (value: u128)
        ensures
            value == self@.construction_graph_fingerprint,
    {
        self.values.construction_graph_fingerprint
    }

    /// The fingerprint of the executable demand.
    pub fn executable_demand_fingerprint(&self) -> (value: u128)
        ensures
            value == self@.executable_demand_fingerprint,
    {
        self.values.executable_demand_fingerprint
    }

    /// The number of solved specializations.
    pub fn solved_specialization_count(&self) -> (value: usize)
        ensures
            value == self@.solved_specialization_count,
    {
        self.values.solved_specialization_count
    }

    /// The number of evaluations.
    pub fn evaluation_count(&self) -> (value: usize)
        ensures
            value == self@.evaluation_count,
    {
        self.values.evaluation_count
    }

    /// The number of constructions.
    pub fn construction_count(&self) -> (value: usize)
        ensures
            value == self@.construction_count,
    {
        self.values.construction_count
    }

    /// The number of executables.
    pub fn executable_count(&self) -> (value: usize)
        ensures
            value == self@.executable_count,
    {
        self.values.executable_count
    }

    /// The phase schema of completed semantic programs.
    pub fn phase_schema(&self) -> (schema: &'static str)
        ensures
            schema@ == completed_semantic_phase_schema(),
    {
        "wrela.completed-semantic-program.v3"
    }
}

/// Whether a resolution is a reference or a call.
#[derive(Clone, Copy, Debug, PartialEq, Eq, PartialOrd, Ord, Structural)]
pub enum ResolutionKind {
    Reference,
    Call,
}

/// A resolved name: its kind, its range and the identity it resolves to.
#[derive(Clone, Debug, PartialEq, Eq, PartialOrd, Ord)]
pub struct ResolutionObservation {
    kind: ResolutionKind,
    range: SourceRange,
    target_domain: IdentityDomain,
    target_identity: u128,
}

/// What the observation holds.
pub ghost struct ResolutionObservationView {
    pub kind: ResolutionKind,
    pub range: SourceRangeView,
    pub target_domain: IdentityDomain,
    pub target_identity: u128,
}

impl View for ResolutionObservation {
    type V = ResolutionObservationView;

    closed spec fn view(&self) -> ResolutionObservationView {
        ResolutionObservationView {
            kind: self.kind,
            range: self.range@,
            target_domain: self.target_domain,
            target_identity: self.target_identity,
        }
    }
}

impl ResolutionObservation {
    /// An observation of the given values.
    pub fn new(kind: ResolutionKind, range: SourceRange, target_domain: IdentityDomain, target_identity: u128) -> (observation: Self)
        ensures
            observation@ == (ResolutionObservationView {
                kind: kind,
                range: range@,
                target_domain: target_domain,
                target_identity: target_identity,
            }),
    {
        let observation = ResolutionObservation { kind, range, target_domain, target_identity };
        observation
    }

    /// The resolution kind.
    pub fn kind(&self) -> (value: ResolutionKind)
        ensures
            value == self@.kind,
    {
        self.kind
    }

    /// The range of the name.
    pub fn range(&self) -> (value: &SourceRange)
        ensures
            value@ == self@.range,
    {
        &self.range
    }

    /// The domain of the target identity.
    pub fn target_domain(&self) -> (value: IdentityDomain)
        ensures
            value == self@.target_domain,
    {
        self.target_domain
    }

    /// The target identity.
    pub fn target_identity(&self) -> (value: u128)
        ensures
            value == self@.target_identity,
    {
        self.target_identity
    }
}

/// How a binding or parameter is held.
#[derive(Clone, Copy, Debug, PartialEq, Eq, Structural)]
pub enum OwnershipMode {
    Value,
    Read,
    Mut,
    Take,
}

/// What a construction builds.
#[derive(Clone, Copy, Debug, PartialEq, Eq, Structural)]
pub enum ConstructionKind {
    Image,
    Test,
    Node { type_identity: u128 },
}

/// A value in canonical form, as evaluation and construction produce it.
#[derive(Debug, PartialEq, Eq)]
pub enum CanonicalValue {
    Unit,
    Bool(bool),
    Integer { typename: String, value: i128 },
    Float { typename: String, bits: u64 },
    Text(String),
    Scalar(char),
    Bytes(Vec<u8>),
    Function { identity: u128 },
    Closure { identity: u128, captures: Vec<CanonicalValue> },
    Tuple(Vec<CanonicalValue>),
    Array(Vec<CanonicalValue>),
    Variant { typename: String, variant: String, payload: Vec<CanonicalValue> },
    Struct { typename: String, fields: Vec<(String, CanonicalValue)> },
    SymbolicHandle { kind: ConstructionKind, identity: u128 },
}

/// What a canonical value holds.
pub ghost enum CanonicalView {
    Unit,
    Bool(bool),
    Integer { typename: Seq<char>, value: i128 },
    Float { typename: Seq<char>, bits: u64 },
    Text(Seq<char>),
    Scalar(char),
    Bytes(Seq<u8>),
    Function { identity: u128 },
    Closure { identity: u128, captures: Seq<CanonicalView> },
    Tuple(Seq<CanonicalView>),
    Array(Seq<CanonicalView>),
    Variant { typename: Seq<char>, variant: Seq<char>, payload: Seq<CanonicalView> },
    Struct { typename: Seq<char>, fields: Seq<(Seq<char>, CanonicalView)> },
    SymbolicHandle { kind: ConstructionKind, identity: u128 },
}

/// The view of a canonical value.
pub open spec fn canonical_view(value: CanonicalValue) -> CanonicalView
    decreases value,
{
    match value {
        CanonicalValue::Unit => CanonicalView::Unit,
        CanonicalValue::Bool(flag) => CanonicalView::Bool(flag),
        CanonicalValue::Integer { typename, value } => CanonicalView::Integer { typename: typename@, value },
        CanonicalValue::Float { typename, bits } => CanonicalView::Float { typename: typename@, bits },
        CanonicalValue::Text(text) => CanonicalView::Text(text@),
        CanonicalValue::Scalar(scalar) => CanonicalView::Scalar(scalar),
        CanonicalValue::Bytes(bytes) => CanonicalView::Bytes(bytes@),
        CanonicalValue::Function { identity } => CanonicalView::Function { identity },
        CanonicalValue::Closure { identity, captures } => {
            proof {
                assert(decreases_to!(value => captures));
            }
            CanonicalView::Closure { identity, captures: canonical_views(captures@) }
        },
        CanonicalValue::Tuple(values) => {
            proof {
                assert(decreases_to!(value => values));
            }
            CanonicalView::Tuple(canonical_views(values@))
        },
        CanonicalValue::Array(values) => {
            proof {
                assert(decreases_to!(value => values));
            }
            CanonicalView::Array(canonical_views(values@))
        },
        CanonicalValue::Variant { typename, variant, payload } => {
            proof {
                assert(decreases_to!(value => payload));
            }
            CanonicalView::Variant {
                typename: typename@,
                variant: variant@,
                payload: canonical_views(payload@),
            }
        },
        CanonicalValue::Struct { typename, fields } => {
            proof {
                assert(decreases_to!(value => fields));
            }
            CanonicalView::Struct { typename: typename@, fields: canonical_field_views(fields@) }
        },
        CanonicalValue::SymbolicHandle { kind, identity } => CanonicalView::SymbolicHandle { kind, identity },
    }
}

/// The views of canonical values.
pub open spec fn canonical_views(values: Seq<CanonicalValue>) -> Seq<CanonicalView>
    decreases values,
{
    if values.len() == 0 {
        Seq::empty()
    } else {
        canonical_views(values.drop_last()).push(canonical_view(values.last()))
    }
}

/// The views of named canonical fields.
pub open spec fn canonical_field_views(fields: Seq<(String, CanonicalValue)>) -> Seq<(Seq<char>, CanonicalView)>
    decreases fields,
{
    if fields.len() == 0 {
        Seq::empty()
    } else {
        canonical_field_views(fields.drop_last()).push((fields.last().0@, canonical_view(fields.last().1)))
    }
}

impl Clone for CanonicalValue {
    fn clone(&self) -> (copy: Self)
        ensures
            canonical_view(copy) == canonical_view(*self),
        decreases self,
    {
        match self {
            CanonicalValue::Unit => CanonicalValue::Unit,
            CanonicalValue::Bool(value) => CanonicalValue::Bool(*value),
            CanonicalValue::Integer { typename, value } => CanonicalValue::Integer {
                typename: typename.clone(),
                value: *value,
            },
            CanonicalValue::Float { typename, bits } => CanonicalValue::Float {
                typename: typename.clone(),
                bits: *bits,
            },
            CanonicalValue::Text(text) => CanonicalValue::Text(text.clone()),
            CanonicalValue::Scalar(value) => CanonicalValue::Scalar(*value),
            CanonicalValue::Bytes(bytes) => CanonicalValue::Bytes(bytes.clone()),
            CanonicalValue::Function { identity } => CanonicalValue::Function { identity: *identity },
            CanonicalValue::Closure { identity, captures } => CanonicalValue::Closure {
                identity: *identity,
                captures: clone_values(captures),
            },
            CanonicalValue::Tuple(items) => CanonicalValue::Tuple(clone_values(items)),
            CanonicalValue::Array(items) => CanonicalValue::Array(clone_values(items)),
            CanonicalValue::Variant { typename, variant, payload } => CanonicalValue::Variant {
                typename: typename.clone(),
                variant: variant.clone(),
                payload: clone_values(payload),
            },
            CanonicalValue::Struct { typename, fields } => CanonicalValue::Struct {
                typename: typename.clone(),
                fields: clone_fields(fields),
            },
            CanonicalValue::SymbolicHandle { kind, identity } => CanonicalValue::SymbolicHandle {
                kind: *kind,
                identity: *identity,
            },
        }
    }
}

fn clone_values(items: &Vec<CanonicalValue>) -> (copy: Vec<CanonicalValue>)
    ensures
        canonical_views(copy@) == canonical_views(items@),
    decreases items,
{
    let mut copy: Vec<CanonicalValue> = Vec::new();
    let mut i: usize = 0;
    proof {
        assert(items@.take(0) =~= Seq::<CanonicalValue>::empty());
    }
    while i < items.len()
        invariant
            i <= items@.len(),
            canonical_views(copy@) == canonical_views(items@.take(i as int)),
        decreases items@.len() - i,
    {
        proof {
            assert(decreases_to!(items => items@[i as int]));
        }
        let item = items[i].clone();
        let ghost before = copy@;
        copy.push(item);
        proof {
            assert(copy@.drop_last() =~= before);
            assert(items@.take(i + 1).drop_last() =~= items@.take(i as int));
        }
        i = i + 1;
    }
    proof {
        assert(items@.take(i as int) =~= items@);
    }
    copy
}

fn clone_fields(fields: &Vec<(String, CanonicalValue)>) -> (copy: Vec<(String, CanonicalValue)>)
    ensures
        canonical_field_views(copy@) == canonical_field_views(fields@),
    decreases fields,
{
    let mut copy: Vec<(String, CanonicalValue)> = Vec::new();
    let mut i: usize = 0;
    proof {
        assert(fields@.take(0) =~= Seq::<(String, CanonicalValue)>::empty());
    }
    while i < fields.len()
        invariant
            i <= fields@.len(),
            canonical_field_views(copy@) == canonical_field_views(fields@.take(i as int)),
        decreases fields@.len() - i,
    {
        proof {
            assert(decreases_to!(fields => fields@[i as int].1));
        }
        let field = (fields[i].0.clone(), fields[i].1.clone());
        let ghost before = copy@;
        copy.push(field);
        proof {
            assert(copy@.drop_last() =~= before);
            assert(fields@.take(i + 1).drop_last() =~= fields@.take(i as int));
        }
        i = i + 1;
    }
    proof {
        assert(fields@.take(i as int) =~= fields@);
    }
    copy
}

/// A binding of a test application: its name, type, ownership and value.
#[derive(Clone, Debug, PartialEq, Eq)]
pub struct TestBindingObservation {
    name: String,
    typename: String,
    ownership: OwnershipMode,
    value: CanonicalValue,
}

/// What the observation holds.
pub ghost struct TestBindingObservationView {
    pub name: Seq<char>,
    pub typename: Seq<char>,
    pub ownership: OwnershipMode,
    pub value: CanonicalValue,
}

impl View for TestBindingObservation {
    type V = TestBindingObservationView;

    closed spec fn view(&self) -> TestBindingObservationView {
        TestBindingObservationView {
            name: self.name@,
            typename: self.typename@,
            ownership: self.ownership,
            value: self.value,
        }
    }
}

impl TestBindingObservation {
    /// An observation of the given values.
    pub fn new(name: &str, typename: &str, ownership: OwnershipMode, value: CanonicalValue) -> (observation: Self)
        ensures
            observation@ == (TestBindingObservationView {
                name: name@,
                typename: typename@,
                ownership: ownership,
                value: value,
            }),
    {
        let observation = TestBindingObservation { name: String::from_str(name), typename: String::from_str(typename), ownership, value };
        observation
    }

    /// The binding name.
    pub fn name(&self) -> (value: &str)
        ensures
            value@ == self@.name,
    {
        self.name.as_str()
    }

    /// The binding's type name.
    pub fn typename(&self) -> (value: &str)
        ensures
            value@ == self@.typename,
    {
        self.typename.as_str()
    }

    /// How the binding is held.
    pub fn ownership(&self) -> (value: OwnershipMode)
        ensures
            value == self@.ownership,
    {
        self.ownership
    }

    /// The bound value.
    pub fn value(&self) -> (value: &CanonicalValue)
        ensures
            *value == self@.value,
    {
        &self.value
    }
}

/// A planned test application: suite, test, order, whether it is asynchronous, and its bindings.
#[derive(Clone, Debug, PartialEq, Eq)]
pub struct TestApplicationObservation {
    suite: String,
    test: String,
    order: u32,
    asynchronous: bool,
    bindings: Vec<TestBindingObservation>,
}

/// What the observation holds.
pub ghost struct TestApplicationObservationView {
    pub suite: Seq<char>,
    pub test: Seq<char>,
    pub order: u32,
    pub asynchronous: bool,
    pub bindings: Seq<TestBindingObservationView>,
}

impl View for TestApplicationObservation {
    type V = TestApplicationObservationView;

    closed spec fn view(&self) -> TestApplicationObservationView {
        TestApplicationObservationView {
            suite: self.suite@,
            test: self.test@,
            order: self.order,
            asynchronous: self.asynchronous,
            bindings: self.bindings@.map_values(|item: TestBindingObservation| item@),
        }
    }
}

impl TestApplicationObservation {
    /// An observation of the given values.
    pub fn new(suite: &str, test: &str, order: u32, asynchronous: bool, bindings: Vec<TestBindingObservation>) -> (observation: Self)
        ensures
            observation@ == (TestApplicationObservationView {
                suite: suite@,
                test: test@,
                order: order,
                asynchronous: asynchronous,
                bindings: bindings@.map_values(|item: TestBindingObservation| item@),
            }),
    {
        let ghost expected = TestApplicationObservationView {
            suite: suite@,
            test: test@,
            order: order,
            asynchronous: asynchronous,
            bindings: bindings@.map_values(|item: TestBindingObservation| item@),
        };
        let observation = TestApplicationObservation { suite: String::from_str(suite), test: String::from_str(test), order, asynchronous, bindings };
        proof {
            assert(observation@.bindings =~= expected.bindings);
        }
        observation
    }

    /// The suite name.
    pub fn suite(&self) -> (value: &str)
        ensures
            value@ == self@.suite,
    {
        self.suite.as_str()
    }

    /// The test name.
    pub fn test(&self) -> (value: &str)
        ensures
            value@ == self@.test,
    {
        self.test.as_str()
    }

    /// The application's position in the plan.
    pub fn order(&self) -> (value: u32)
        ensures
            value == self@.order,
    {
        self.order
    }

    /// Whether the test is asynchronous.
    pub fn is_async(&self) -> (value: bool)
        ensures
            value == self@.asynchronous,
    {
        self.asynchronous
    }

    /// The bindings, in order.
    pub fn bindings(&self) -> (values: &[TestBindingObservation])
        ensures
            values@.map_values(|item: TestBindingObservation| item@) == self@.bindings,
    {
        self.bindings.as_slice()
    }
}

// ---------------------------------------------------------------------------------------
// Evaluation and semantic facts
// ---------------------------------------------------------------------------------------

/// Why an evaluation was rejected before it ran.
#[derive(Clone, Copy, Debug, PartialEq, Eq, Structural)]
pub enum EvaluationRejectionKind {
    ConstantDependencyCycle,
    UnresolvedConstant,
    UnresolvedCall,
    ArgumentCount,
    ArgumentTypeMismatch,
    ReturnTypeMismatch,
    MissingLocal,
    InvalidUnaryOperand,
    PropagationRequiresResult,
    ResultOkMissingPayload,
    InvalidBooleanOperator,
    BinaryTypeMismatch,
    AwaitNotEvaluatorEligible,
}

/// The canonical code of a rejection.
pub open spec fn evaluation_rejection_kind_code(value: EvaluationRejectionKind) -> Seq<char> {
    match value {
        EvaluationRejectionKind::ConstantDependencyCycle => "constant_dependency_cycle"@,
        EvaluationRejectionKind::UnresolvedConstant => "unresolved_constant"@,
        EvaluationRejectionKind::UnresolvedCall => "unresolved_call"@,
        EvaluationRejectionKind::ArgumentCount => "argument_count"@,
        EvaluationRejectionKind::ArgumentTypeMismatch => "argument_type_mismatch"@,
        EvaluationRejectionKind::ReturnTypeMismatch => "return_type_mismatch"@,
        EvaluationRejectionKind::MissingLocal => "missing_local"@,
        EvaluationRejectionKind::InvalidUnaryOperand => "invalid_unary_operand"@,
        EvaluationRejectionKind::PropagationRequiresResult => "propagation_requires_result"@,
        EvaluationRejectionKind::ResultOkMissingPayload => "result_ok_missing_payload"@,
        EvaluationRejectionKind::InvalidBooleanOperator => "invalid_boolean_operator"@,
        EvaluationRejectionKind::BinaryTypeMismatch => "binary_type_mismatch"@,
        EvaluationRejectionKind::AwaitNotEvaluatorEligible => "await_not_evaluator_eligible"@,
    }
}

impl EvaluationRejectionKind {
    /// The canonical code.
    pub fn code(self) -> (code: &'static str)
        ensures
            code@ == evaluation_rejection_kind_code(self),
    {
        match self {
            EvaluationRejectionKind::ConstantDependencyCycle => "constant_dependency_cycle",
            EvaluationRejectionKind::UnresolvedConstant => "unresolved_constant",
            EvaluationRejectionKind::UnresolvedCall => "unresolved_call",
            EvaluationRejectionKind::ArgumentCount => "argument_count",
            EvaluationRejectionKind::ArgumentTypeMismatch => "argument_type_mismatch",
            EvaluationRejectionKind::ReturnTypeMismatch => "return_type_mismatch",
            EvaluationRejectionKind::MissingLocal => "missing_local",
            EvaluationRejectionKind::InvalidUnaryOperand => "invalid_unary_operand",
            EvaluationRejectionKind::PropagationRequiresResult => "propagation_requires_result",
            EvaluationRejectionKind::ResultOkMissingPayload => "result_ok_missing_payload",
            EvaluationRejectionKind::InvalidBooleanOperator => "invalid_boolean_operator",
            EvaluationRejectionKind::BinaryTypeMismatch => "binary_type_mismatch",
            EvaluationRejectionKind::AwaitNotEvaluatorEligible => "await_not_evaluator_eligible",
        }
    }
}

/// The code of the character at `index` of a name, shifted by one, or zero past its end.
pub open spec fn name_character(name: Seq<char>, index: int) -> int {
    if index < name.len() {
        name[index] as int + 1
    } else {
        0
    }
}

/// A number that tells the canonical names of syntax element kinds and of evaluation
/// rejections apart: their length and their first three characters.
pub open spec fn name_key(name: Seq<char>) -> int {
    name.len() + 1000 * (name_character(name, 0) + 1000 * (name_character(name, 1) + 1000 * name_character(name, 2)))
}

/// The syntax element kind whose canonical name has the given key.
pub open spec fn syntax_kind_of_name_key(key: int) -> SyntaxElementKind {
    if key == 102101106010 {
        SyntaxElementKind::Token(SyntaxTokenKind::Identifier)
    } else if key == 117111106015 {
        SyntaxElementKind::Token(SyntaxTokenKind::IntegerLiteral)
    } else if key == 112109103013 {
        SyntaxElementKind::Token(SyntaxTokenKind::FloatLiteral)
    } else if key == 121102117012 {
        SyntaxElementKind::Token(SyntaxTokenKind::TextLiteral)
    } else if key == 98100116014 {
        SyntaxElementKind::Token(SyntaxTokenKind::ScalarLiteral)
    } else if key == 117122099013 {
        SyntaxElementKind::Token(SyntaxTokenKind::BytesLiteral)
    } else if key == 111103002 {
        SyntaxElementKind::Token(SyntaxTokenKind::Fn)
    } else if key == 99118113003 {
        SyntaxElementKind::Token(SyntaxTokenKind::Pub)
    } else if key == 115118113004 {
        SyntaxElementKind::Token(SyntaxTokenKind::Pure)
    } else if key == 122116098005 {
        SyntaxElementKind::Token(SyntaxTokenKind::Async)
    } else if key == 122111098003 {
        SyntaxElementKind::Token(SyntaxTokenKind::Any)
    } else if key == 117102115006 {
        SyntaxElementKind::Token(SyntaxTokenKind::Return)
    } else if key == 102115099005 {
        SyntaxElementKind::Token(SyntaxTokenKind::Break)
    } else if key == 116098100004 {
        SyntaxElementKind::Token(SyntaxTokenKind::Case)
    } else if key == 111112100008 {
        SyntaxElementKind::Token(SyntaxTokenKind::Continue)
    } else if key == 103102101005 {
        SyntaxElementKind::Token(SyntaxTokenKind::Defer)
    } else if key == 115112103003 {
        SyntaxElementKind::Token(SyntaxTokenKind::For)
    } else if key == 103106002 {
        SyntaxElementKind::Token(SyntaxTokenKind::If)
    } else if key == 106109102004 {
        SyntaxElementKind::Token(SyntaxTokenKind::Elif)
    } else if key == 116109102004 {
        SyntaxElementKind::Token(SyntaxTokenKind::Else)
    } else if key == 111112100005 {
        SyntaxElementKind::Token(SyntaxTokenKind::Const)
    } else if key == 115117116006 {
        SyntaxElementKind::Token(SyntaxTokenKind::Struct)
    } else if key == 116102115008 {
        SyntaxElementKind::Token(SyntaxTokenKind::Resource)
    } else if key == 118111102004 {
        SyntaxElementKind::Token(SyntaxTokenKind::Enum)
    } else if key == 117111106009 {
        SyntaxElementKind::Token(SyntaxTokenKind::Interface)
    } else if key == 113122117004 {
        SyntaxElementKind::Token(SyntaxTokenKind::Type)
    } else if key == 112112113004 {
        SyntaxElementKind::Token(SyntaxTokenKind::Pool)
    } else if key == 106118116005 {
        SyntaxElementKind::Token(SyntaxTokenKind::Suite)
    } else if key == 116102117004 {
        SyntaxElementKind::Token(SyntaxTokenKind::Test)
    } else if key == 112115103004 {
        SyntaxElementKind::Token(SyntaxTokenKind::From)
    } else if key == 113110106006 {
        SyntaxElementKind::Token(SyntaxTokenKind::Import)
    } else if key == 116098002 {
        SyntaxElementKind::Token(SyntaxTokenKind::As)
    } else if key == 110112100008 {
        SyntaxElementKind::Token(SyntaxTokenKind::Comptime)
    } else if key == 116116098006 {
        SyntaxElementKind::Token(SyntaxTokenKind::Assert)
    } else if key == 111106002 {
        SyntaxElementKind::Token(SyntaxTokenKind::In)
    } else if key == 116106002 {
        SyntaxElementKind::Token(SyntaxTokenKind::Is)
    } else if key == 117098110005 {
        SyntaxElementKind::Token(SyntaxTokenKind::Match)
    } else if key == 101111098003 {
        SyntaxElementKind::Token(SyntaxTokenKind::And)
    } else if key == 115112002 {
        SyntaxElementKind::Token(SyntaxTokenKind::Or)
    } else if key == 117112111003 {
        SyntaxElementKind::Token(SyntaxTokenKind::Not)
    } else if key == 98120098005 {
        SyntaxElementKind::Token(SyntaxTokenKind::Await)
    } else if key == 111120112003 {
        SyntaxElementKind::Token(SyntaxTokenKind::Own)
    } else if key == 111098113005 {
        SyntaxElementKind::Token(SyntaxTokenKind::Panic)
    } else if key == 116098113004 {
        SyntaxElementKind::Token(SyntaxTokenKind::Pass)
    } else if key == 108098117004 {
        SyntaxElementKind::Token(SyntaxTokenKind::Take)
    } else if key == 98102115004 {
        SyntaxElementKind::Token(SyntaxTokenKind::Read)
    } else if key == 117118110003 {
        SyntaxElementKind::Token(SyntaxTokenKind::Mut)
    } else if key == 109102116004 {
        SyntaxElementKind::Token(SyntaxTokenKind::SelfValue)
    } else if key == 113110106010 {
        SyntaxElementKind::Token(SyntaxTokenKind::Implements)
    } else if key == 113121102006 {
        SyntaxElementKind::Token(SyntaxTokenKind::Expect)
    } else if key == 111102116004 {
        SyntaxElementKind::Token(SyntaxTokenKind::Send)
    } else if key == 122115117008 {
        SyntaxElementKind::Token(SyntaxTokenKind::TrySend)
    } else if key == 106105120005 {
        SyntaxElementKind::Token(SyntaxTokenKind::While)
    } else if key == 117106120004 {
        SyntaxElementKind::Token(SyntaxTokenKind::With)
    } else if key == 118115117004 {
        SyntaxElementKind::Token(SyntaxTokenKind::True)
    } else if key == 109098103005 {
        SyntaxElementKind::Token(SyntaxTokenKind::False)
    } else if key == 103102109010 {
        SyntaxElementKind::Token(SyntaxTokenKind::LeftParen)
    } else if key == 104106115011 {
        SyntaxElementKind::Token(SyntaxTokenKind::RightParen)
    } else if key == 103102109012 {
        SyntaxElementKind::Token(SyntaxTokenKind::LeftBracket)
    } else if key == 104106115013 {
        SyntaxElementKind::Token(SyntaxTokenKind::RightBracket)
    } else if key == 109112100005 {
        SyntaxElementKind::Token(SyntaxTokenKind::Colon)
    } else if key == 110112100005 {
        SyntaxElementKind::Token(SyntaxTokenKind::Comma)
    } else if key == 117112101003 {
        SyntaxElementKind::Token(SyntaxTokenKind::Dot)
    } else if key == 117098002 {
        SyntaxElementKind::Token(SyntaxTokenKind::At)
    } else if key == 115115098005 {
        SyntaxElementKind::Token(SyntaxTokenKind::Arrow)
    } else if key == 118114102005 {
        SyntaxElementKind::Token(SyntaxTokenKind::Equal)
    } else if key == 118114102011 {
        SyntaxElementKind::Token(SyntaxTokenKind::EqualEqual)
    } else if key == 111098099010 {
        SyntaxElementKind::Token(SyntaxTokenKind::BangEqual)
    } else if key == 116102109004 {
        SyntaxElementKind::Token(SyntaxTokenKind::Less)
    } else if key == 116102109010 {
        SyntaxElementKind::Token(SyntaxTokenKind::LessEqual)
    } else if key == 102115104007 {
        SyntaxElementKind::Token(SyntaxTokenKind::Greater)
    } else if key == 102115104013 {
        SyntaxElementKind::Token(SyntaxTokenKind::GreaterEqual)
    } else if key == 118109113004 {
        SyntaxElementKind::Token(SyntaxTokenKind::Plus)
    } else if key == 111106110005 {
        SyntaxElementKind::Token(SyntaxTokenKind::Minus)
    } else if key == 98117116004 {
        SyntaxElementKind::Token(SyntaxTokenKind::Star)
    } else if key == 98109116005 {
        SyntaxElementKind::Token(SyntaxTokenKind::Slash)
    } else if key == 115102113007 {
        SyntaxElementKind::Token(SyntaxTokenKind::Percent)
    } else if key == 113110098009 {
        SyntaxElementKind::Token(SyntaxTokenKind::Ampersand)
    } else if key == 113106113004 {
        SyntaxElementKind::Token(SyntaxTokenKind::Pipe)
    } else if key == 115098100005 {
        SyntaxElementKind::Token(SyntaxTokenKind::Caret)
    } else if key == 109106117005 {
        SyntaxElementKind::Token(SyntaxTokenKind::Tilde)
    } else if key == 106105116010 {
        SyntaxElementKind::Token(SyntaxTokenKind::ShiftLeft)
    } else if key == 106105116011 {
        SyntaxElementKind::Token(SyntaxTokenKind::ShiftRight)
    } else if key == 111098115005 {
        SyntaxElementKind::Token(SyntaxTokenKind::Range)
    } else if key == 111098115015 {
        SyntaxElementKind::Token(SyntaxTokenKind::RangeInclusive)
    } else if key == 110102116009 {
        SyntaxElementKind::Token(SyntaxTokenKind::Semicolon)
    } else if key == 102118114008 {
        SyntaxElementKind::Token(SyntaxTokenKind::Question)
    } else if key == 119111106007 {
        SyntaxElementKind::Token(SyntaxTokenKind::Invalid)
    } else if key == 98113116006 {
        SyntaxElementKind::Trivia(SyntaxTriviaKind::Spaces)
    } else if key == 103109002 {
        SyntaxElementKind::Trivia(SyntaxTriviaKind::Lf)
    } else if key == 109115100004 {
        SyntaxElementKind::Trivia(SyntaxTriviaKind::Crlf)
    } else if key == 110112100007 {
        SyntaxElementKind::Trivia(SyntaxTriviaKind::Comment)
    } else if key == 100112101021 {
        SyntaxElementKind::Trivia(SyntaxTriviaKind::DocumentationComment)
    } else if key == 102119112016 {
        SyntaxElementKind::Invalid(SyntaxInvalidKind::OversizedSource)
    } else if key == 119111106011 {
        SyntaxElementKind::Invalid(SyntaxInvalidKind::Tab)
    } else if key == 119111106019 {
        SyntaxElementKind::Invalid(SyntaxInvalidKind::LineEnding)
    } else if key == 119111106015 {
        SyntaxElementKind::Invalid(SyntaxInvalidKind::Literal)
    } else if key == 119111106013 {
        SyntaxElementKind::Invalid(SyntaxInvalidKind::Token)
    } else if key == 119111106012 {
        SyntaxElementKind::Invalid(SyntaxInvalidKind::Byte)
    } else if key == 101111106006 {
        SyntaxElementKind::Layout(SyntaxLayoutKind::Indent)
    } else if key == 101102101006 {
        SyntaxElementKind::Layout(SyntaxLayoutKind::Dedent)
    } else if key == 116106110013 {
        SyntaxElementKind::Missing(SyntaxMissingKind::Block)
    } else if key == 116106110014 {
        SyntaxElementKind::Missing(SyntaxMissingKind::Closer)
    } else if key == 102111118023 {
        SyntaxElementKind::Error(SyntaxErrorKind::UnexpectedIndentBlock)
    } else {
        SyntaxElementKind::Token(SyntaxTokenKind::Identifier)
    }
}

/// The key of each token name leads back to its token kind.
proof fn lemma_token_name_key(kind: SyntaxTokenKind)
    ensures
        syntax_kind_of_name_key(name_key(token_name(kind))) == SyntaxElementKind::Token(kind),
{
    match kind {
        SyntaxTokenKind::Identifier => {
            reveal_strlit("identifier");
        },
        SyntaxTokenKind::IntegerLiteral => {
            reveal_strlit("integer_literal");
        },
        SyntaxTokenKind::FloatLiteral => {
            reveal_strlit("float_literal");
        },
        SyntaxTokenKind::TextLiteral => {
            reveal_strlit("text_literal");
        },
        SyntaxTokenKind::ScalarLiteral => {
            reveal_strlit("scalar_literal");
        },
        SyntaxTokenKind::BytesLiteral => {
            reveal_strlit("bytes_literal");
        },
        SyntaxTokenKind::Fn => {
            reveal_strlit("fn");
        },
        SyntaxTokenKind::Pub => {
            reveal_strlit("pub");
        },
        SyntaxTokenKind::Pure => {
            reveal_strlit("pure");
        },
        SyntaxTokenKind::Async => {
            reveal_strlit("async");
        },
        SyntaxTokenKind::Any => {
            reveal_strlit("any");
        },
        SyntaxTokenKind::Return => {
            reveal_strlit("return");
        },
        SyntaxTokenKind::Break => {
            reveal_strlit("break");
        },
        SyntaxTokenKind::Case => {
            reveal_strlit("case");
        },
        SyntaxTokenKind::Continue => {
            reveal_strlit("continue");
        },
        SyntaxTokenKind::Defer => {
            reveal_strlit("defer");
        },
        SyntaxTokenKind::For => {
            reveal_strlit("for");
        },
        SyntaxTokenKind::If => {
            reveal_strlit("if");
        },
        SyntaxTokenKind::Elif => {
            reveal_strlit("elif");
        },
        SyntaxTokenKind::Else => {
            reveal_strlit("else");
        },
        SyntaxTokenKind::Const => {
            reveal_strlit("const");
        },
        SyntaxTokenKind::Struct => {
            reveal_strlit("struct");
        },
        SyntaxTokenKind::Resource => {
            reveal_strlit("resource");
        },
        SyntaxTokenKind::Enum => {
            reveal_strlit("enum");
        },
        SyntaxTokenKind::Interface => {
            reveal_strlit("interface");
        },
        SyntaxTokenKind::Type => {
            reveal_strlit("type");
        },
        SyntaxTokenKind::Pool => {
            reveal_strlit("pool");
        },
        SyntaxTokenKind::Suite => {
            reveal_strlit("suite");
        },
        SyntaxTokenKind::Test => {
            reveal_strlit("test");
        },
        SyntaxTokenKind::From => {
            reveal_strlit("from");
        },
        SyntaxTokenKind::Import => {
            reveal_strlit("import");
        },
        SyntaxTokenKind::As => {
            reveal_strlit("as");
        },
        SyntaxTokenKind::Comptime => {
            reveal_strlit("comptime");
        },
        SyntaxTokenKind::Assert => {
            reveal_strlit("assert");
        },
        SyntaxTokenKind::In => {
            reveal_strlit("in");
        },
        SyntaxTokenKind::Is => {
            reveal_strlit("is");
        },
        SyntaxTokenKind::Match => {
            reveal_strlit("match");
        },
        SyntaxTokenKind::And => {
            reveal_strlit("and");
        },
        SyntaxTokenKind::Or => {
            reveal_strlit("or");
        },
        SyntaxTokenKind::Not => {
            reveal_strlit("not");
        },
        SyntaxTokenKind::Await => {
            reveal_strlit("await");
        },
        SyntaxTokenKind::Own => {
            reveal_strlit("own");
        },
        SyntaxTokenKind::Panic => {
            reveal_strlit("panic");
        },
        SyntaxTokenKind::Pass => {
            reveal_strlit("pass");
        },
        SyntaxTokenKind::Take => {
            reveal_strlit("take");
        },
        SyntaxTokenKind::Read => {
            reveal_strlit("read");
        },
        SyntaxTokenKind::Mut => {
            reveal_strlit("mut");
        },
        SyntaxTokenKind::SelfValue => {
            reveal_strlit("self");
        },
        SyntaxTokenKind::Implements => {
            reveal_strlit("implements");
        },
        SyntaxTokenKind::Expect => {
            reveal_strlit("expect");
        },
        SyntaxTokenKind::Send => {
            reveal_strlit("send");
        },
        SyntaxTokenKind::TrySend => {
            reveal_strlit("try_send");
        },
        SyntaxTokenKind::While => {
            reveal_strlit("while");
        },
        SyntaxTokenKind::With => {
            reveal_strlit("with");
        },
        SyntaxTokenKind::True => {
            reveal_strlit("true");
        },
        SyntaxTokenKind::False => {
            reveal_strlit("false");
        },
        SyntaxTokenKind::LeftParen => {
            reveal_strlit("left_paren");
        },
        SyntaxTokenKind::RightParen => {
            reveal_strlit("right_paren");
        },
        SyntaxTokenKind::LeftBracket => {
            reveal_strlit("left_bracket");
        },
        SyntaxTokenKind::RightBracket => {
            reveal_strlit("right_bracket");
        },
        SyntaxTokenKind::Colon => {
            reveal_strlit("colon");
        },
        SyntaxTokenKind::Comma => {
            reveal_strlit("comma");
        },
        SyntaxTokenKind::Dot => {
            reveal_strlit("dot");
        },
        SyntaxTokenKind::At => {
            reveal_strlit("at");
        },
        SyntaxTokenKind::Arrow => {
            reveal_strlit("arrow");
        },
        SyntaxTokenKind::Equal => {
            reveal_strlit("equal");
        },
        SyntaxTokenKind::EqualEqual => {
            reveal_strlit("equal_equal");
        },
        SyntaxTokenKind::BangEqual => {
            reveal_strlit("bang_equal");
        },
        SyntaxTokenKind::Less => {
            reveal_strlit("less");
        },
        SyntaxTokenKind::LessEqual => {
            reveal_strlit("less_equal");
        },
        SyntaxTokenKind::Greater => {
            reveal_strlit("greater");
        },
        SyntaxTokenKind::GreaterEqual => {
            reveal_strlit("greater_equal");
        },
        SyntaxTokenKind::Plus => {
            reveal_strlit("plus");
        },
        SyntaxTokenKind::Minus => {
            reveal_strlit("minus");
        },
        SyntaxTokenKind::Star => {
            reveal_strlit("star");
        },
        SyntaxTokenKind::Slash => {
            reveal_strlit("slash");
        },
        SyntaxTokenKind::Percent => {
            reveal_strlit("percent");
        },
        SyntaxTokenKind::Ampersand => {
            reveal_strlit("ampersand");
        },
        SyntaxTokenKind::Pipe => {
            reveal_strlit("pipe");
        },
        SyntaxTokenKind::Caret => {
            reveal_strlit("caret");
        },
        SyntaxTokenKind::Tilde => {
            reveal_strlit("tilde");
        },
        SyntaxTokenKind::ShiftLeft => {
            reveal_strlit("shift_left");
        },
        SyntaxTokenKind::ShiftRight => {
            reveal_strlit("shift_right");
        },
        SyntaxTokenKind::Range => {
            reveal_strlit("range");
        },
        SyntaxTokenKind::RangeInclusive => {
            reveal_strlit("range_inclusive");
        },
        SyntaxTokenKind::Semicolon => {
            reveal_strlit("semicolon");
        },
        SyntaxTokenKind::Question => {
            reveal_strlit("question");
        },
        SyntaxTokenKind::Invalid => {
            reveal_strlit("invalid");
        },
    }
}

/// The key of each element name leads back to its element kind.
proof fn lemma_element_name_key(kind: SyntaxElementKind)
    ensures
        syntax_kind_of_name_key(name_key(element_name(kind))) == kind,
{
    match kind {
        SyntaxElementKind::Token(token) => {
            lemma_token_name_key(token);
        },
        SyntaxElementKind::Trivia(SyntaxTriviaKind::Spaces) => {
            reveal_strlit("spaces");
        },
        SyntaxElementKind::Trivia(SyntaxTriviaKind::Lf) => {
            reveal_strlit("lf");
        },
        SyntaxElementKind::Trivia(SyntaxTriviaKind::Crlf) => {
            reveal_strlit("crlf");
        },
        SyntaxElementKind::Trivia(SyntaxTriviaKind::Comment) => {
            reveal_strlit("comment");
        },
        SyntaxElementKind::Trivia(SyntaxTriviaKind::DocumentationComment) => {
            reveal_strlit("documentation_comment");
        },
        SyntaxElementKind::Invalid(SyntaxInvalidKind::OversizedSource) => {
            reveal_strlit("oversized_source");
        },
        SyntaxElementKind::Invalid(SyntaxInvalidKind::Tab) => {
            reveal_strlit("invalid_tab");
        },
        SyntaxElementKind::Invalid(SyntaxInvalidKind::LineEnding) => {
            reveal_strlit("invalid_line_ending");
        },
        SyntaxElementKind::Invalid(SyntaxInvalidKind::Literal) => {
            reveal_strlit("invalid_literal");
        },
        SyntaxElementKind::Invalid(SyntaxInvalidKind::Token) => {
            reveal_strlit("invalid_token");
        },
        SyntaxElementKind::Invalid(SyntaxInvalidKind::Byte) => {
            reveal_strlit("invalid_byte");
        },
        SyntaxElementKind::Layout(SyntaxLayoutKind::Indent) => {
            reveal_strlit("indent");
        },
        SyntaxElementKind::Layout(SyntaxLayoutKind::Dedent) => {
            reveal_strlit("dedent");
        },
        SyntaxElementKind::Missing(SyntaxMissingKind::Block) => {
            reveal_strlit("missing_block");
        },
        SyntaxElementKind::Missing(SyntaxMissingKind::Closer) => {
            reveal_strlit("missing_closer");
        },
        SyntaxElementKind::Error(SyntaxErrorKind::UnexpectedIndentBlock) => {
            reveal_strlit("unexpected_indent_block");
        },
    }
}

/// Distinct syntax element kinds have distinct canonical names, and a token's element
/// name is its token name.
pub proof fn lemma_element_names_distinct(first: SyntaxElementKind, second: SyntaxElementKind)
    ensures
        first != second ==> element_name(first) != element_name(second),
        forall|token: SyntaxTokenKind| element_name(SyntaxElementKind::Token(token)) == #[trigger] token_name(token),
{
    lemma_element_name_key(first);
    lemma_element_name_key(second);
}

/// The rejection kind whose canonical name has the given key.
pub open spec fn rejection_kind_of_name_key(key: int) -> EvaluationRejectionKind {
    if key == 111112100025 {
        EvaluationRejectionKind::ConstantDependencyCycle
    } else if key == 115111118019 {
        EvaluationRejectionKind::UnresolvedConstant
    } else if key == 115111118015 {
        EvaluationRejectionKind::UnresolvedCall
    } else if key == 104115098014 {
        EvaluationRejectionKind::ArgumentCount
    } else if key == 104115098022 {
        EvaluationRejectionKind::ArgumentTypeMismatch
    } else if key == 117102115020 {
        EvaluationRejectionKind::ReturnTypeMismatch
    } else if key == 116106110013 {
        EvaluationRejectionKind::MissingLocal
    } else if key == 119111106021 {
        EvaluationRejectionKind::InvalidUnaryOperand
    } else if key == 112115113027 {
        EvaluationRejectionKind::PropagationRequiresResult
    } else if key == 116102115025 {
        EvaluationRejectionKind::ResultOkMissingPayload
    } else if key == 119111106024 {
        EvaluationRejectionKind::InvalidBooleanOperator
    } else if key == 111106099020 {
        EvaluationRejectionKind::BinaryTypeMismatch
    } else if key == 98120098028 {
        EvaluationRejectionKind::AwaitNotEvaluatorEligible
    } else {
        EvaluationRejectionKind::ConstantDependencyCycle
    }
}

/// The key of each rejection code leads back to its rejection kind.
proof fn lemma_rejection_code_key(kind: EvaluationRejectionKind)
    ensures
        rejection_kind_of_name_key(name_key(evaluation_rejection_kind_code(kind))) == kind,
{
    match kind {
        EvaluationRejectionKind::ConstantDependencyCycle => {
            reveal_strlit("constant_dependency_cycle");
        },
        EvaluationRejectionKind::UnresolvedConstant => {
            reveal_strlit("unresolved_constant");
        },
        EvaluationRejectionKind::UnresolvedCall => {
            reveal_strlit("unresolved_call");
        },
        EvaluationRejectionKind::ArgumentCount => {
            reveal_strlit("argument_count");
        },
        EvaluationRejectionKind::ArgumentTypeMismatch => {
            reveal_strlit("argument_type_mismatch");
        },
        EvaluationRejectionKind::ReturnTypeMismatch => {
            reveal_strlit("return_type_mismatch");
        },
        EvaluationRejectionKind::MissingLocal => {
            reveal_strlit("missing_local");
        },
        EvaluationRejectionKind::InvalidUnaryOperand => {
            reveal_strlit("invalid_unary_operand");
        },
        EvaluationRejectionKind::PropagationRequiresResult => {
            reveal_strlit("propagation_requires_result");
        },
        EvaluationRejectionKind::ResultOkMissingPayload => {
            reveal_strlit("result_ok_missing_payload");
        },
        EvaluationRejectionKind::InvalidBooleanOperator => {
            reveal_strlit("invalid_boolean_operator");
        },
        EvaluationRejectionKind::BinaryTypeMismatch => {
            reveal_strlit("binary_type_mismatch");
        },
        EvaluationRejectionKind::AwaitNotEvaluatorEligible => {
            reveal_strlit("await_not_evaluator_eligible");
        },
    }
}

/// Distinct rejection kinds have distinct codes.
pub proof fn lemma_rejection_codes_distinct(first: EvaluationRejectionKind, second: EvaluationRejectionKind)
    ensures
        first != second ==> evaluation_rejection_kind_code(first) != evaluation_rejection_kind_code(second),
{
    lemma_rejection_code_key(first);
    lemma_rejection_code_key(second);
}

/// Why an evaluation panicked.
#[derive(Clone, Copy, Debug, PartialEq, Eq, Structural)]
pub enum EvaluationPanicKind {
    Explicit,
    AssertionFailed,
    IntegerOverflow,
    DivisionByZero,
    IndexOutOfBounds,
}

/// The canonical code of a panic.
pub open spec fn evaluation_panic_kind_code(value: EvaluationPanicKind) -> Seq<char> {
    match value {
        EvaluationPanicKind::Explicit => "explicit"@,
        EvaluationPanicKind::AssertionFailed => "assertion_failed"@,
        EvaluationPanicKind::IntegerOverflow => "integer_overflow"@,
        EvaluationPanicKind::DivisionByZero => "division_by_zero"@,
        EvaluationPanicKind::IndexOutOfBounds => "index_out_of_bounds"@,
    }
}

impl EvaluationPanicKind {
    /// The canonical code.
    pub fn code(self) -> (code: &'static str)
        ensures
            code@ == evaluation_panic_kind_code(self),
    {
        match self {
            EvaluationPanicKind::Explicit => "explicit",
            EvaluationPanicKind::AssertionFailed => "assertion_failed",
            EvaluationPanicKind::IntegerOverflow => "integer_overflow",
            EvaluationPanicKind::DivisionByZero => "division_by_zero",
            EvaluationPanicKind::IndexOutOfBounds => "index_out_of_bounds",
        }
    }
}

/// The limit an evaluation exceeded.
#[derive(Clone, Copy, Debug, PartialEq, Eq, Structural)]
pub enum EvaluationLimitPolicy {
    RootFuel,
    RootMemory,
    CallDepth,
    CompilationFuel,
    CompilationMemory,
}

/// The canonical code of a limit policy.
pub open spec fn evaluation_limit_policy_code(value: EvaluationLimitPolicy) -> Seq<char> {
    match value {
        EvaluationLimitPolicy::RootFuel => "root_fuel"@,
        EvaluationLimitPolicy::RootMemory => "root_memory"@,
        EvaluationLimitPolicy::CallDepth => "call_depth"@,
        EvaluationLimitPolicy::CompilationFuel => "compilation_fuel"@,
        EvaluationLimitPolicy::CompilationMemory => "compilation_memory"@,
    }
}

impl EvaluationLimitPolicy {
    /// The canonical code.
    pub fn code(self) -> (code: &'static str)
        ensures
            code@ == evaluation_limit_policy_code(self),
    {
        match self {
            EvaluationLimitPolicy::RootFuel => "root_fuel",
            EvaluationLimitPolicy::RootMemory => "root_memory",
            EvaluationLimitPolicy::CallDepth => "call_depth",
            EvaluationLimitPolicy::CompilationFuel => "compilation_fuel",
            EvaluationLimitPolicy::CompilationMemory => "compilation_memory",
        }
    }
}

/// How an evaluation ended.
#[derive(Clone, Debug, PartialEq, Eq)]
pub enum EvaluationOutcome {
    Completed(CanonicalValue),
    CreatorRejected { kind: EvaluationRejectionKind },
    Panicked { kind: EvaluationPanicKind, site: SourceRange },
    LimitExceeded { policy: EvaluationLimitPolicy, ceiling: u64, used: u64 },
    Cancelled,
    Defect { evidence: String },
}

/// What an evaluation root is.
#[derive(Clone, Copy, Debug, PartialEq, Eq, Structural)]
pub enum EvaluationPolicy {
    Constant,
    ComptimeAssertion,
    ImageConstructor,
}

/// A frame of the call chain of an evaluation.
#[derive(Clone, Debug, PartialEq, Eq)]
pub struct EvaluationFrameObservation {
    identity: u128,
    callable: String,
    call_site: SourceRange,
}

/// What the observation holds.
pub ghost struct EvaluationFrameObservationView {
    pub identity: u128,
    pub callable: Seq<char>,
    pub call_site: SourceRangeView,
}

impl View for EvaluationFrameObservation {
    type V = EvaluationFrameObservationView;

    closed spec fn view(&self) -> EvaluationFrameObservationView {
        EvaluationFrameObservationView {
            identity: self.identity,
            callable: self.callable@,
            call_site: self.call_site@,
        }
    }
}

impl EvaluationFrameObservation {
    /// An observation of the given values.
    pub fn new(identity: u128, callable: &str, call_site: SourceRange) -> (observation: Self)
        ensures
            observation@ == (EvaluationFrameObservationView {
                identity: identity,
                callable: callable@,
                call_site: call_site@,
            }),
    {
        let observation = EvaluationFrameObservation { identity, callable: String::from_str(callable), call_site };
        observation
    }

    /// The identity of the callable.
    pub fn identity(&self) -> (value: u128)
        ensures
            value == self@.identity,
    {
        self.identity
    }

    /// The name of the callable.
    pub fn callable(&self) -> (value: &str)
        ensures
            value@ == self@.callable,
    {
        self.callable.as_str()
    }

    /// Where the call was made.
    pub fn call_site(&self) -> (value: &SourceRange)
        ensures
            value@ == self@.call_site,
    {
        &self.call_site
    }
}

/// A site that contributed fuel to an evaluation.
#[derive(Clone, Debug, PartialEq, Eq)]
pub struct EvaluationContributorObservation {
    site: SourceRange,
    fuel: u64,
}

/// What the observation holds.
pub ghost struct EvaluationContributorObservationView {
    pub site: SourceRangeView,
    pub fuel: u64,
}

impl View for EvaluationContributorObservation {
    type V = EvaluationContributorObservationView;

    closed spec fn view(&self) -> EvaluationContributorObservationView {
        EvaluationContributorObservationView {
            site: self.site@,
            fuel: self.fuel,
        }
    }
}

impl EvaluationContributorObservation {
    /// An observation of the given values.
    pub fn new(site: SourceRange, fuel: u64) -> (observation: Self)
        ensures
            observation@ == (EvaluationContributorObservationView {
                site: site@,
                fuel: fuel,
            }),
    {
        let observation = EvaluationContributorObservation { site, fuel };
        observation
    }

    /// The contributing site.
    pub fn site(&self) -> (value: &SourceRange)
        ensures
            value@ == self@.site,
    {
        &self.site
    }

    /// The fuel it used.
    pub fn fuel(&self) -> (value: u64)
        ensures
            value == self@.fuel,
    {
        self.fuel
    }
}

/// The receipt of an evaluation: the tariff it ran under, its root and arguments, its
/// dependencies, the fuel and memory it used, and the evidence of a failure.
#[derive(Clone, Debug, PartialEq, Eq)]
pub struct EvaluationReceipt {
    tariff_schema: String,
    policy: EvaluationPolicy,
    root_identity: u128,
    argument_fingerprint: u128,
    evaluator_eligible: bool,
    dependency_roots: Vec<u128>,
    typed_hir_fingerprint: u128,
    fuel_used: u64,
    peak_memory: u64,
    provenance: Option<SourceRange>,
    relevant_identity: Option<u128>,
    call_chain: Vec<EvaluationFrameObservation>,
    contributors: Vec<EvaluationContributorObservation>,
}

/// What an evaluation receipt holds.
pub ghost struct EvaluationReceiptView {
    pub tariff_schema: Seq<char>,
    pub policy: EvaluationPolicy,
    pub root_identity: u128,
    pub argument_fingerprint: u128,
    pub evaluator_eligible: bool,
    pub dependency_roots: Seq<u128>,
    pub typed_hir_fingerprint: u128,
    pub fuel_used: u64,
    pub peak_memory: u64,
    pub provenance: Option<SourceRangeView>,
    pub relevant_identity: Option<u128>,
    pub call_chain: Seq<EvaluationFrameObservationView>,
    pub contributors: Seq<EvaluationContributorObservationView>,
}

impl View for EvaluationReceipt {
    type V = EvaluationReceiptView;

    closed spec fn view(&self) -> EvaluationReceiptView {
        EvaluationReceiptView {
            tariff_schema: self.tariff_schema@,
            policy: self.policy,
            root_identity: self.root_identity,
            argument_fingerprint: self.argument_fingerprint,
            evaluator_eligible: self.evaluator_eligible,
            dependency_roots: self.dependency_roots@,
            typed_hir_fingerprint: self.typed_hir_fingerprint,
            fuel_used: self.fuel_used,
            peak_memory: self.peak_memory,
            provenance: match &self.provenance {
                Some(range) => Some(range@),
                None => None,
            },
            relevant_identity: self.relevant_identity,
            call_chain: self.call_chain@.map_values(|frame: EvaluationFrameObservation| frame@),
            contributors: self.contributors@.map_values(
                |contributor: EvaluationContributorObservation| contributor@,
            ),
        }
    }
}

/// The tariff schema that evaluations run under.
pub open spec fn evaluation_tariff_schema() -> Seq<char> {
    "wrela.evaluator.tariff.v2"@
}

/// The fingerprint of an evaluation without arguments.
pub open spec fn empty_argument_fingerprint() -> u128 {
    xxh3_128_digest(encode_utf8("wrela.evaluation-arguments\0\x01"@))
}

/// The receipt of an evaluation that found no failure evidence.
pub open spec fn receipt_of(
    policy: EvaluationPolicy,
    root_identity: u128,
    dependency_roots: Seq<u128>,
    typed_hir_fingerprint: u128,
    fuel_used: u64,
    peak_memory: u64,
) -> EvaluationReceiptView {
    EvaluationReceiptView {
        tariff_schema: evaluation_tariff_schema(),
        policy,
        root_identity,
        argument_fingerprint: empty_argument_fingerprint(),
        evaluator_eligible: true,
        dependency_roots,
        typed_hir_fingerprint,
        fuel_used,
        peak_memory,
        provenance: None,
        relevant_identity: None,
        call_chain: Seq::empty(),
        contributors: Seq::empty(),
    }
}

impl EvaluationReceipt {
    /// The receipt of an evaluator-eligible evaluation without arguments, under the
    /// current tariff, with no failure evidence.
    pub fn new(
        policy: EvaluationPolicy,
        root_identity: u128,
        dependency_roots: Vec<u128>,
        typed_hir_fingerprint: u128,
        fuel_used: u64,
        peak_memory: u64,
    ) -> (receipt: Self)
        ensures
            receipt@ == receipt_of(
                policy,
                root_identity,
                dependency_roots@,
                typed_hir_fingerprint,
                fuel_used,
                peak_memory,
            ),
    {
        let receipt = EvaluationReceipt {
            tariff_schema: String::from_str("wrela.evaluator.tariff.v2"),
            policy,
            root_identity,
            argument_fingerprint: xxh3_128("wrela.evaluation-arguments\0\x01".as_bytes()),
            evaluator_eligible: true,
            dependency_roots,
            typed_hir_fingerprint,
            fuel_used,
            peak_memory,
            provenance: None,
            relevant_identity: None,
            call_chain: Vec::new(),
            contributors: Vec::new(),
        };
        proof {
            assert(receipt@.call_chain =~= Seq::<EvaluationFrameObservationView>::empty());
            assert(receipt@.contributors =~= Seq::<EvaluationContributorObservationView>::empty());
        }
        receipt
    }

    /// The same receipt with the evidence of a failure.
    pub fn with_failure_evidence(
        self,
        provenance: Option<SourceRange>,
        relevant_identity: Option<u128>,
        call_chain: Vec<EvaluationFrameObservation>,
        contributors: Vec<EvaluationContributorObservation>,
    ) -> (receipt: Self)
        ensures
            receipt@ == (EvaluationReceiptView {
                provenance: match provenance {
                    Some(range) => Some(range@),
                    None => None,
                },
                relevant_identity,
                call_chain: call_chain@.map_values(|frame: EvaluationFrameObservation| frame@),
                contributors: contributors@.map_values(
                    |contributor: EvaluationContributorObservation| contributor@,
                ),
                ..self@
            }),
    {
        let mut receipt = self;
        receipt.provenance = provenance;
        receipt.relevant_identity = relevant_identity;
        receipt.call_chain = call_chain;
        receipt.contributors = contributors;
        receipt
    }

    /// The tariff schema the evaluation ran under.
    pub fn tariff_schema(&self) -> (schema: &str)
        ensures
            schema@ == self@.tariff_schema,
    {
        self.tariff_schema.as_str()
    }

    /// What the evaluation root is.
    pub fn policy(&self) -> (policy: EvaluationPolicy)
        ensures
            policy == self@.policy,
    {
        self.policy
    }

    /// The identity of the evaluation root.
    pub fn root_identity(&self) -> (identity: u128)
        ensures
            identity == self@.root_identity,
    {
        self.root_identity
    }

    /// The fingerprint of the evaluation's arguments.
    pub fn argument_fingerprint(&self) -> (fingerprint: u128)
        ensures
            fingerprint == self@.argument_fingerprint,
    {
        self.argument_fingerprint
    }

    /// Whether the root was eligible for evaluation.
    pub fn evaluator_eligible(&self) -> (eligible: bool)
        ensures
            eligible == self@.evaluator_eligible,
    {
        self.evaluator_eligible
    }

    /// The identities the evaluation depended on.
    pub fn dependency_roots(&self) -> (roots: &[u128])
        ensures
            roots@ == self@.dependency_roots,
    {
        self.dependency_roots.as_slice()
    }

    /// The fingerprint of the typed program the evaluation read.
    pub fn typed_hir_fingerprint(&self) -> (fingerprint: u128)
        ensures
            fingerprint == self@.typed_hir_fingerprint,
    {
        self.typed_hir_fingerprint
    }

    /// The fuel the evaluation used.
    pub fn fuel_used(&self) -> (fuel: u64)
        ensures
            fuel == self@.fuel_used,
    {
        self.fuel_used
    }

    /// The peak memory the evaluation used.
    pub fn peak_memory(&self) -> (memory: u64)
        ensures
            memory == self@.peak_memory,
    {
        self.peak_memory
    }

    /// Where a failure came from, if the evaluation failed.
    pub fn provenance(&self) -> (provenance: Option<&SourceRange>)
        ensures
            match provenance {
                Some(range) => self@.provenance == Some(range@),
                None => self@.provenance.is_none(),
            },
    {
        match &self.provenance {
            Some(range) => Some(range),
            None => None,
        }
    }

    /// The identity a failure concerns, if any.
    pub fn relevant_identity(&self) -> (identity: Option<u128>)
        ensures
            identity == self@.relevant_identity,
    {
        self.relevant_identity
    }

    /// The call chain at a failure.
    pub fn call_chain(&self) -> (frames: &[EvaluationFrameObservation])
        ensures
            frames@.map_values(|frame: EvaluationFrameObservation| frame@) == self@.call_chain,
    {
        self.call_chain.as_slice()
    }

    /// The sites that contributed fuel to a failure.
    pub fn contributors(&self) -> (contributors: &[EvaluationContributorObservation])
        ensures
            contributors@.map_values(|contributor: EvaluationContributorObservation| contributor@)
                == self@.contributors,
    {
        self.contributors.as_slice()
    }
}

/// An evaluation: its root, how it ended and its receipt.
#[derive(Clone, Debug, PartialEq, Eq)]
pub struct EvaluationObservation {
    root: String,
    outcome: EvaluationOutcome,
    receipt: EvaluationReceipt,
}

/// What the observation holds.
pub ghost struct EvaluationObservationView {
    pub root: Seq<char>,
    pub outcome: EvaluationOutcome,
    pub receipt: EvaluationReceiptView,
}

impl View for EvaluationObservation {
    type V = EvaluationObservationView;

    closed spec fn view(&self) -> EvaluationObservationView {
        EvaluationObservationView {
            root: self.root@,
            outcome: self.outcome,
            receipt: self.receipt@,
        }
    }
}

impl EvaluationObservation {
    /// An observation of the given values.
    pub fn new(root: &str, outcome: EvaluationOutcome, receipt: EvaluationReceipt) -> (observation: Self)
        ensures
            observation@ == (EvaluationObservationView {
                root: root@,
                outcome: outcome,
                receipt: receipt@,
            }),
    {
        let observation = EvaluationObservation { root: String::from_str(root), outcome, receipt };
        observation
    }

    /// The evaluation root.
    pub fn root(&self) -> (value: &str)
        ensures
            value@ == self@.root,
    {
        self.root.as_str()
    }

    /// How the evaluation ended.
    pub fn outcome(&self) -> (value: &EvaluationOutcome)
        ensures
            *value == self@.outcome,
    {
        &self.outcome
    }

    /// The evaluation receipt.
    pub fn receipt(&self) -> (value: &EvaluationReceipt)
        ensures
            value@ == self@.receipt,
    {
        &self.receipt
    }
}

/// The facts derived for a function.
#[derive(Clone, Copy, Debug, PartialEq, Eq, Structural)]
pub struct FunctionFactsValues {
    pub pure: bool,
    pub may_panic: bool,
    pub suspends: bool,
    pub evaluator_eligible: bool,
    pub ownership_transfer: bool,
    pub bounded: bool,
    pub logical_cost: u64,
}

/// The facts of a function.
#[derive(Clone, Debug, PartialEq, Eq)]
pub struct FunctionFactsObservation {
    identity: u128,
    name: String,
    facts: FunctionFactsValues,
}

/// What the observation holds.
pub ghost struct FunctionFactsObservationView {
    pub identity: u128,
    pub name: Seq<char>,
    pub facts: FunctionFactsValues,
}

impl View for FunctionFactsObservation {
    type V = FunctionFactsObservationView;

    closed spec fn view(&self) -> FunctionFactsObservationView {
        FunctionFactsObservationView {
            identity: self.identity,
            name: self.name@,
            facts: self.facts,
        }
    }
}

impl FunctionFactsObservation {
    /// An observation of the given values.
    pub fn new(identity: u128, name: &str, facts: FunctionFactsValues) -> (observation: Self)
        ensures
            observation@ == (FunctionFactsObservationView {
                identity: identity,
                name: name@,
                facts: facts,
            }),
    {
        let observation = FunctionFactsObservation { identity, name: String::from_str(name), facts };
        observation
    }

    /// The function identity.
    pub fn identity(&self) -> (value: u128)
        ensures
            value == self@.identity,
    {
        self.identity
    }

    /// The function name.
    pub fn name(&self) -> (value: &str)
        ensures
            value@ == self@.name,
    {
        self.name.as_str()
    }

    /// Whether the function is pure.
    pub fn is_pure(&self) -> (value: bool)
        ensures
            value == self@.facts.pure,
    {
        self.facts.pure
    }

    /// Whether the function may panic.
    pub fn may_panic(&self) -> (value: bool)
        ensures
            value == self@.facts.may_panic,
    {
        self.facts.may_panic
    }

    /// Whether the function may suspend.
    pub fn suspends(&self) -> (value: bool)
        ensures
            value == self@.facts.suspends,
    {
        self.facts.suspends
    }

    /// Whether the evaluator may run the function.
    pub fn evaluator_eligible(&self) -> (value: bool)
        ensures
            value == self@.facts.evaluator_eligible,
    {
        self.facts.evaluator_eligible
    }

    /// Whether the function transfers ownership.
    pub fn transfers_ownership(&self) -> (value: bool)
        ensures
            value == self@.facts.ownership_transfer,
    {
        self.facts.ownership_transfer
    }

    /// Whether the cost of the function is bounded.
    pub fn is_bounded(&self) -> (value: bool)
        ensures
            value == self@.facts.bounded,
    {
        self.facts.bounded
    }

    /// The logical cost of the function.
    pub fn logical_cost(&self) -> (value: u64)
        ensures
            value == self@.facts.logical_cost,
    {
        self.facts.logical_cost
    }
}

/// The role of a typed name.
#[derive(Clone, Copy, Debug, PartialEq, Eq, Structural)]
pub enum TypeRole {
    Parameter,
    Return,
    Constant,
}

/// The type of a parameter, return value or constant.
#[derive(Clone, Debug, PartialEq, Eq)]
pub struct TypeObservation {
    owner_identity: u128,
    name: String,
    role: TypeRole,
    typename: String,
}

/// What the observation holds.
pub ghost struct TypeObservationView {
    pub owner_identity: u128,
    pub name: Seq<char>,
    pub role: TypeRole,
    pub typename: Seq<char>,
}

impl View for TypeObservation {
    type V = TypeObservationView;

    closed spec fn view(&self) -> TypeObservationView {
        TypeObservationView {
            owner_identity: self.owner_identity,
            name: self.name@,
            role: self.role,
            typename: self.typename@,
        }
    }
}

impl TypeObservation {
    /// An observation of the given values.
    pub fn new(owner_identity: u128, name: &str, role: TypeRole, typename: &str) -> (observation: Self)
        ensures
            observation@ == (TypeObservationView {
                owner_identity: owner_identity,
                name: name@,
                role: role,
                typename: typename@,
            }),
    {
        let observation = TypeObservation { owner_identity, name: String::from_str(name), role, typename: String::from_str(typename) };
        observation
    }

    /// The identity of the owner.
    pub fn owner_identity(&self) -> (value: u128)
        ensures
            value == self@.owner_identity,
    {
        self.owner_identity
    }

    /// The typed name.
    pub fn name(&self) -> (value: &str)
        ensures
            value@ == self@.name,
    {
        self.name.as_str()
    }

    /// The role of the name.
    pub fn role(&self) -> (value: TypeRole)
        ensures
            value == self@.role,
    {
        self.role
    }

    /// The name of the type.
    pub fn typename(&self) -> (value: &str)
        ensures
            value@ == self@.typename,
    {
        self.typename.as_str()
    }
}

/// How a parameter is held.
#[derive(Clone, Debug, PartialEq, Eq)]
pub struct OwnershipObservation {
    owner_identity: u128,
    name: String,
    mode: OwnershipMode,
}

/// What the observation holds.
pub ghost struct OwnershipObservationView {
    pub owner_identity: u128,
    pub name: Seq<char>,
    pub mode: OwnershipMode,
}

impl View for OwnershipObservation {
    type V = OwnershipObservationView;

    closed spec fn view(&self) -> OwnershipObservationView {
        OwnershipObservationView {
            owner_identity: self.owner_identity,
            name: self.name@,
            mode: self.mode,
        }
    }
}

impl OwnershipObservation {
    /// An observation of the given values.
    pub fn new(owner_identity: u128, name: &str, mode: OwnershipMode) -> (observation: Self)
        ensures
            observation@ == (OwnershipObservationView {
                owner_identity: owner_identity,
                name: name@,
                mode: mode,
            }),
    {
        let observation = OwnershipObservation { owner_identity, name: String::from_str(name), mode };
        observation
    }

    /// The identity of the owner.
    pub fn owner_identity(&self) -> (value: u128)
        ensures
            value == self@.owner_identity,
    {
        self.owner_identity
    }

    /// The parameter name.
    pub fn name(&self) -> (value: &str)
        ensures
            value@ == self@.name,
    {
        self.name.as_str()
    }

    /// How the parameter is held.
    pub fn mode(&self) -> (value: OwnershipMode)
        ensures
            value == self@.mode,
    {
        self.mode
    }
}

/// A specialization of a generic function.
#[derive(Clone, Debug, PartialEq, Eq)]
pub struct SpecializationObservation {
    identity: u128,
    function_identity: u128,
    function: String,
    argument_types: Vec<String>,
}

/// What the observation holds.
pub ghost struct SpecializationObservationView {
    pub identity: u128,
    pub function_identity: u128,
    pub function: Seq<char>,
    pub argument_types: Seq<Seq<char>>,
}

impl View for SpecializationObservation {
    type V = SpecializationObservationView;

    closed spec fn view(&self) -> SpecializationObservationView {
        SpecializationObservationView {
            identity: self.identity,
            function_identity: self.function_identity,
            function: self.function@,
            argument_types: self.argument_types@.map_values(|item: String| item@),
        }
    }
}

impl SpecializationObservation {
    /// An observation of the given values.
    pub fn new(identity: u128, function_identity: u128, function: &str, argument_types: Vec<String>) -> (observation: Self)
        ensures
            observation@ == (SpecializationObservationView {
                identity: identity,
                function_identity: function_identity,
                function: function@,
                argument_types: argument_types@.map_values(|item: String| item@),
            }),
    {
        let ghost expected = SpecializationObservationView {
            identity: identity,
            function_identity: function_identity,
            function: function@,
            argument_types: argument_types@.map_values(|item: String| item@),
        };
        let observation = SpecializationObservation { identity, function_identity, function: String::from_str(function), argument_types };
        proof {
            assert(observation@.argument_types =~= expected.argument_types);
        }
        observation
    }

    /// The specialization identity.
    pub fn identity(&self) -> (value: u128)
        ensures
            value == self@.identity,
    {
        self.identity
    }

    /// The identity of the generic function.
    pub fn function_identity(&self) -> (value: u128)
        ensures
            value == self@.function_identity,
    {
        self.function_identity
    }

    /// The function name.
    pub fn function(&self) -> (value: &str)
        ensures
            value@ == self@.function,
    {
        self.function.as_str()
    }

    /// The type arguments, in order.
    pub fn argument_types(&self) -> (values: &[String])
        ensures
            values@.map_values(|item: String| item@) == self@.argument_types,
    {
        self.argument_types.as_slice()
    }
}

/// An error type inferred for a specialization.
#[derive(Clone, Debug, PartialEq, Eq)]
pub struct InferredErrorObservation {
    specialization_identity: u128,
    function: String,
    error_type: String,
    provenance: SourceRange,
}

/// What the observation holds.
pub ghost struct InferredErrorObservationView {
    pub specialization_identity: u128,
    pub function: Seq<char>,
    pub error_type: Seq<char>,
    pub provenance: SourceRangeView,
}

impl View for InferredErrorObservation {
    type V = InferredErrorObservationView;

    closed spec fn view(&self) -> InferredErrorObservationView {
        InferredErrorObservationView {
            specialization_identity: self.specialization_identity,
            function: self.function@,
            error_type: self.error_type@,
            provenance: self.provenance@,
        }
    }
}

impl InferredErrorObservation {
    /// An observation of the given values.
    pub fn new(specialization_identity: u128, function: &str, error_type: &str, provenance: SourceRange) -> (observation: Self)
        ensures
            observation@ == (InferredErrorObservationView {
                specialization_identity: specialization_identity,
                function: function@,
                error_type: error_type@,
                provenance: provenance@,
            }),
    {
        let observation = InferredErrorObservation { specialization_identity, function: String::from_str(function), error_type: String::from_str(error_type), provenance };
        observation
    }

    /// The specialization identity.
    pub fn specialization_identity(&self) -> (value: u128)
        ensures
            value == self@.specialization_identity,
    {
        self.specialization_identity
    }

    /// The function name.
    pub fn function(&self) -> (value: &str)
        ensures
            value@ == self@.function,
    {
        self.function.as_str()
    }

    /// The inferred error type.
    pub fn error_type(&self) -> (value: &str)
        ensures
            value@ == self@.error_type,
    {
        self.error_type.as_str()
    }

    /// Where the error type was inferred from.
    pub fn provenance(&self) -> (value: &SourceRange)
        ensures
            value@ == self@.provenance,
    {
        &self.provenance
    }
}

/// A labelled operand of a construction.
#[derive(Clone, Debug, PartialEq, Eq)]
pub struct ConstructionOperandObservation {
    label: String,
    value: CanonicalValue,
}

/// What the observation holds.
pub ghost struct ConstructionOperandObservationView {
    pub label: Seq<char>,
    pub value: CanonicalValue,
}

impl View for ConstructionOperandObservation {
    type V = ConstructionOperandObservationView;

    closed spec fn view(&self) -> ConstructionOperandObservationView {
        ConstructionOperandObservationView {
            label: self.label@,
            value: self.value,
        }
    }
}

impl ConstructionOperandObservation {
    /// An observation of the given values.
    pub fn new(label: &str, value: CanonicalValue) -> (observation: Self)
        ensures
            observation@ == (ConstructionOperandObservationView {
                label: label@,
                value: value,
            }),
    {
        let observation = ConstructionOperandObservation { label: String::from_str(label), value };
        observation
    }

    /// The operand label.
    pub fn label(&self) -> (value: &str)
        ensures
            value@ == self@.label,
    {
        self.label.as_str()
    }

    /// The operand value.
    pub fn value(&self) -> (value: &CanonicalValue)
        ensures
            *value == self@.value,
    {
        &self.value
    }
}

/// A node of the construction graph: identity, kind, site, edges and operands.
#[derive(Clone, Debug, PartialEq, Eq)]
pub struct ConstructionObservation {
    identity: u128,
    kind: ConstructionKind,
    site: SourceRange,
    edges: Vec<u128>,
    operands: Vec<ConstructionOperandObservation>,
}

/// What the observation holds.
pub ghost struct ConstructionObservationView {
    pub identity: u128,
    pub kind: ConstructionKind,
    pub site: SourceRangeView,
    pub edges: Seq<u128>,
    pub operands: Seq<ConstructionOperandObservationView>,
}

impl View for ConstructionObservation {
    type V = ConstructionObservationView;

    closed spec fn view(&self) -> ConstructionObservationView {
        ConstructionObservationView {
            identity: self.identity,
            kind: self.kind,
            site: self.site@,
            edges: self.edges@,
            operands: self.operands@.map_values(|item: ConstructionOperandObservation| item@),
        }
    }
}

impl ConstructionObservation {
    /// An observation of the given values.
    pub fn new(identity: u128, kind: ConstructionKind, site: SourceRange, edges: Vec<u128>, operands: Vec<ConstructionOperandObservation>) -> (observation: Self)
        ensures
            observation@ == (ConstructionObservationView {
                identity: identity,
                kind: kind,
                site: site@,
                edges: edges@,
                operands: operands@.map_values(|item: ConstructionOperandObservation| item@),
            }),
    {
        let ghost expected = ConstructionObservationView {
            identity: identity,
            kind: kind,
            site: site@,
            edges: edges@,
            operands: operands@.map_values(|item: ConstructionOperandObservation| item@),
        };
        let observation = ConstructionObservation { identity, kind, site, edges, operands };
        proof {
            assert(observation@.operands =~= expected.operands);
        }
        observation
    }

    /// The construction identity.
    pub fn identity(&self) -> (value: u128)
        ensures
            value == self@.identity,
    {
        self.identity
    }

    /// What the construction builds.
    pub fn kind(&self) -> (value: ConstructionKind)
        ensures
            value == self@.kind,
    {
        self.kind
    }

    /// Where the construction is.
    pub fn site(&self) -> (value: &SourceRange)
        ensures
            value@ == self@.site,
    {
        &self.site
    }

    /// The identities the construction depends on.
    pub fn edges(&self) -> (values: &[u128])
        ensures
            values@ == self@.edges,
    {
        self.edges.as_slice()
    }

    /// The operands, in order.
    pub fn operands(&self) -> (values: &[ConstructionOperandObservation])
        ensures
            values@.map_values(|item: ConstructionOperandObservation| item@) == self@.operands,
    {
        self.operands.as_slice()
    }
}

/// An identity of the catalog: domain, origin, name, digest and fingerprint.
#[derive(Clone, Debug, PartialEq, Eq)]
pub struct IdentityObservation {
    domain: IdentityDomain,
    origin: IdentityOrigin,
    name: String,
    digest: u128,
    fingerprint: u128,
}

/// What the observation holds.
pub ghost struct IdentityObservationView {
    pub domain: IdentityDomain,
    pub origin: IdentityOrigin,
    pub name: Seq<char>,
    pub digest: u128,
    pub fingerprint: u128,
}

impl View for IdentityObservation {
    type V = IdentityObservationView;

    closed spec fn view(&self) -> IdentityObservationView {
        IdentityObservationView {
            domain: self.domain,
            origin: self.origin,
            name: self.name@,
            digest: self.digest,
            fingerprint: self.fingerprint,
        }
    }
}

impl IdentityObservation {
    /// An observation of the given values.
    pub fn new(domain: IdentityDomain, origin: IdentityOrigin, name: &str, digest: u128, fingerprint: u128) -> (observation: Self)
        ensures
            observation@ == (IdentityObservationView {
                domain: domain,
                origin: origin,
                name: name@,
                digest: digest,
                fingerprint: fingerprint,
            }),
    {
        let observation = IdentityObservation { domain, origin, name: String::from_str(name), digest, fingerprint };
        observation
    }

    /// The identity domain.
    pub fn domain(&self) -> (value: IdentityDomain)
        ensures
            value == self@.domain,
    {
        self.domain
    }

    /// Where the identity comes from.
    pub fn origin(&self) -> (value: IdentityOrigin)
        ensures
            value == self@.origin,
    {
        self.origin
    }

    /// The identity name.
    pub fn name(&self) -> (value: &str)
        ensures
            value@ == self@.name,
    {
        self.name.as_str()
    }

    /// The identity digest.
    pub fn digest(&self) -> (value: u128)
        ensures
            value == self@.digest,
    {
        self.digest
    }

    /// The fingerprint of what the identity names.
    pub fn fingerprint(&self) -> (value: u128)
        ensures
            value == self@.fingerprint,
    {
        self.fingerprint
    }

    /// Replaces the fingerprint.
    pub fn replace_fingerprint(&mut self, fingerprint: u128)
        ensures
            final(self)@ == (IdentityObservationView { fingerprint, ..old(self)@ }),
    {
        self.fingerprint = fingerprint;
    }
}

// ---------------------------------------------------------------------------------------
// Inspections and outcomes
// ---------------------------------------------------------------------------------------

/// The observations of a compilation, as its request selected them.
#[derive(Clone, Debug, PartialEq, Eq)]
pub struct Inspection {
    distribution_version: String,
    distribution_digest: u128,
    project_revision: String,
    snapshot_digest: u128,
    semantic_closure_digest: Option<u128>,
    syntax: Vec<SyntaxObservation>,
    closure: Vec<String>,
    identities: Vec<IdentityObservation>,
    resolutions: Vec<ResolutionObservation>,
    function_facts: Vec<FunctionFactsObservation>,
    types: Vec<TypeObservation>,
    ownership: Vec<OwnershipObservation>,
    specializations: Vec<SpecializationObservation>,
    inferred_errors: Vec<InferredErrorObservation>,
    evaluations: Vec<EvaluationObservation>,
    constructions: Vec<ConstructionObservation>,
    test_plan: Vec<TestApplicationObservation>,
    architecture_planning_contract: Option<ArchitecturePlanningObservation>,
    completed_semantic_program: Option<CompletedSemanticProgramObservation>,
}

/// What an inspection holds.
pub ghost struct InspectionView {
    pub distribution_version: Seq<char>,
    pub distribution_digest: u128,
    pub project_revision: Seq<char>,
    pub snapshot_digest: u128,
    pub semantic_closure_digest: Option<u128>,
    pub syntax: Seq<SyntaxObservationView>,
    pub closure: Seq<Seq<char>>,
    pub identities: Seq<IdentityObservationView>,
    pub resolutions: Seq<ResolutionObservationView>,
    pub function_facts: Seq<FunctionFactsObservationView>,
    pub types: Seq<TypeObservationView>,
    pub ownership: Seq<OwnershipObservationView>,
    pub specializations: Seq<SpecializationObservationView>,
    pub inferred_errors: Seq<InferredErrorObservationView>,
    pub evaluations: Seq<EvaluationObservationView>,
    pub constructions: Seq<ConstructionObservationView>,
    pub test_plan: Seq<TestApplicationObservationView>,
    pub architecture_planning_contract: Option<ObservationView>,
    pub completed_semantic_program: Option<CompletedSemanticProgramValues>,
}

impl View for Inspection {
    type V = InspectionView;

    closed spec fn view(&self) -> InspectionView {
        InspectionView {
            distribution_version: self.distribution_version@,
            distribution_digest: self.distribution_digest,
            project_revision: self.project_revision@,
            snapshot_digest: self.snapshot_digest,
            semantic_closure_digest: self.semantic_closure_digest,
            syntax: self.syntax@.map_values(|item: SyntaxObservation| item@),
            closure: self.closure@.map_values(|item: String| item@),
            identities: self.identities@.map_values(|item: IdentityObservation| item@),
            resolutions: self.resolutions@.map_values(|item: ResolutionObservation| item@),
            function_facts: self.function_facts@.map_values(|item: FunctionFactsObservation| item@),
            types: self.types@.map_values(|item: TypeObservation| item@),
            ownership: self.ownership@.map_values(|item: OwnershipObservation| item@),
            specializations: self.specializations@.map_values(|item: SpecializationObservation| item@),
            inferred_errors: self.inferred_errors@.map_values(|item: InferredErrorObservation| item@),
            evaluations: self.evaluations@.map_values(|item: EvaluationObservation| item@),
            constructions: self.constructions@.map_values(|item: ConstructionObservation| item@),
            test_plan: self.test_plan@.map_values(|item: TestApplicationObservation| item@),
            architecture_planning_contract: match &self.architecture_planning_contract {
                Some(contract) => Some(contract@),
                None => None,
            },
            completed_semantic_program: match &self.completed_semantic_program {
                Some(program) => Some(program@),
                None => None,
            },
        }
    }
}

/// The inspection of nothing: empty texts, zero digests and no observations.
pub open spec fn empty_inspection() -> InspectionView {
    InspectionView {
        distribution_version: Seq::empty(),
        distribution_digest: 0,
        project_revision: Seq::empty(),
        snapshot_digest: 0,
        semantic_closure_digest: None,
        syntax: Seq::empty(),
        closure: Seq::empty(),
        identities: Seq::empty(),
        resolutions: Seq::empty(),
        function_facts: Seq::empty(),
        types: Seq::empty(),
        ownership: Seq::empty(),
        specializations: Seq::empty(),
        inferred_errors: Seq::empty(),
        evaluations: Seq::empty(),
        constructions: Seq::empty(),
        test_plan: Seq::empty(),
        architecture_planning_contract: None,
        completed_semantic_program: None,
    }
}

impl Default for Inspection {
    fn default() -> (inspection: Self)
        ensures
            inspection@ == empty_inspection(),
    {
        let inspection = Inspection {
            distribution_version: String::new(),
            distribution_digest: 0,
            project_revision: String::new(),
            snapshot_digest: 0,
            semantic_closure_digest: None,
            syntax: Vec::new(),
            closure: Vec::new(),
            identities: Vec::new(),
            resolutions: Vec::new(),
            function_facts: Vec::new(),
            types: Vec::new(),
            ownership: Vec::new(),
            specializations: Vec::new(),
            inferred_errors: Vec::new(),
            evaluations: Vec::new(),
            constructions: Vec::new(),
            test_plan: Vec::new(),
            architecture_planning_contract: None,
            completed_semantic_program: None,
        };
        proof {
            assert(inspection@.syntax =~= empty_inspection().syntax);
            assert(inspection@.closure =~= empty_inspection().closure);
            assert(inspection@.identities =~= empty_inspection().identities);
            assert(inspection@.resolutions =~= empty_inspection().resolutions);
            assert(inspection@.function_facts =~= empty_inspection().function_facts);
            assert(inspection@.types =~= empty_inspection().types);
            assert(inspection@.ownership =~= empty_inspection().ownership);
            assert(inspection@.specializations =~= empty_inspection().specializations);
            assert(inspection@.inferred_errors =~= empty_inspection().inferred_errors);
            assert(inspection@.evaluations =~= empty_inspection().evaluations);
            assert(inspection@.constructions =~= empty_inspection().constructions);
            assert(inspection@.test_plan =~= empty_inspection().test_plan);
        }
        inspection
    }
}

impl Inspection {
    /// The version of the compiler distribution.
    pub fn distribution_version(&self) -> (value: &str)
        ensures
            value@ == self@.distribution_version,
    {
        self.distribution_version.as_str()
    }

    /// The digest of the compiler distribution.
    pub fn distribution_digest(&self) -> (value: u128)
        ensures
            value == self@.distribution_digest,
    {
        self.distribution_digest
    }

    /// The revision of the project snapshot.
    pub fn project_revision(&self) -> (value: &str)
        ensures
            value@ == self@.project_revision,
    {
        self.project_revision.as_str()
    }

    /// The digest of the project snapshot.
    pub fn snapshot_digest(&self) -> (value: u128)
        ensures
            value == self@.snapshot_digest,
    {
        self.snapshot_digest
    }

    /// The digest of the semantic closure, once the project was closed.
    pub fn semantic_closure_digest(&self) -> (value: Option<u128>)
        ensures
            value == self@.semantic_closure_digest,
    {
        self.semantic_closure_digest
    }

    /// The syntax of every module, if it was selected and anything was parsed.
    pub fn syntax(&self) -> (syntax: Option<&[SyntaxObservation]>)
        ensures
            match syntax {
                Some(items) => self@.syntax.len() > 0
                    && items@.map_values(|item: SyntaxObservation| item@) == self@.syntax,
                None => self@.syntax.len() == 0,
            },
    {
        if self.syntax.len() == 0 {
            None
        } else {
            Some(self.syntax.as_slice())
        }
    }

    /// The module paths of the semantic closure, if selected.
    pub fn closure(&self) -> (paths: &[String])
        ensures
            paths@.map_values(|item: String| item@) == self@.closure,
    {
        self.closure.as_slice()
    }

    /// The project identities, if selected.
    pub fn identities(&self) -> (items: &[IdentityObservation])
        ensures
            items@.map_values(|item: IdentityObservation| item@) == self@.identities,
    {
        self.identities.as_slice()
    }

    /// The resolutions, if selected.
    pub fn resolutions(&self) -> (items: &[ResolutionObservation])
        ensures
            items@.map_values(|item: ResolutionObservation| item@) == self@.resolutions,
    {
        self.resolutions.as_slice()
    }

    /// The function facts, if selected.
    pub fn function_facts(&self) -> (items: &[FunctionFactsObservation])
        ensures
            items@.map_values(|item: FunctionFactsObservation| item@) == self@.function_facts,
    {
        self.function_facts.as_slice()
    }

    /// The types, if selected.
    pub fn types(&self) -> (items: &[TypeObservation])
        ensures
            items@.map_values(|item: TypeObservation| item@) == self@.types,
    {
        self.types.as_slice()
    }

    /// The ownership modes, if selected.
    pub fn ownership(&self) -> (items: &[OwnershipObservation])
        ensures
            items@.map_values(|item: OwnershipObservation| item@) == self@.ownership,
    {
        self.ownership.as_slice()
    }

    /// The specializations, if selected.
    pub fn specializations(&self) -> (items: &[SpecializationObservation])
        ensures
            items@.map_values(|item: SpecializationObservation| item@) == self@.specializations,
    {
        self.specializations.as_slice()
    }

    /// The inferred error types, if selected.
    pub fn inferred_errors(&self) -> (items: &[InferredErrorObservation])
        ensures
            items@.map_values(|item: InferredErrorObservation| item@) == self@.inferred_errors,
    {
        self.inferred_errors.as_slice()
    }

    /// The evaluations, if selected.
    pub fn evaluations(&self) -> (items: &[EvaluationObservation])
        ensures
            items@.map_values(|item: EvaluationObservation| item@) == self@.evaluations,
    {
        self.evaluations.as_slice()
    }

    /// The constructions, if selected.
    pub fn constructions(&self) -> (items: &[ConstructionObservation])
        ensures
            items@.map_values(|item: ConstructionObservation| item@) == self@.constructions,
    {
        self.constructions.as_slice()
    }

    /// The test plan, if selected.
    pub fn test_plan(&self) -> (items: &[TestApplicationObservation])
        ensures
            items@.map_values(|item: TestApplicationObservation| item@) == self@.test_plan,
    {
        self.test_plan.as_slice()
    }

    /// The architecture planning contract, if selected and authenticated.
    pub fn architecture_planning_contract(&self) -> (contract: Option<&ArchitecturePlanningObservation>)
        ensures
            match contract {
                Some(observation) => self@.architecture_planning_contract == Some(observation@),
                None => self@.architecture_planning_contract.is_none(),
            },
    {
        match &self.architecture_planning_contract {
            Some(observation) => Some(observation),
            None => None,
        }
    }

    /// The completed semantic program, if selected and accepted.
    pub fn completed_semantic_program(&self) -> (program: Option<&CompletedSemanticProgramObservation>)
        ensures
            match program {
                Some(observation) => self@.completed_semantic_program == Some(observation@),
                None => self@.completed_semantic_program.is_none(),
            },
    {
        match &self.completed_semantic_program {
            Some(observation) => Some(observation),
            None => None,
        }
    }
}

/// The architecture planning contract observation an inspection carries: the contract's
/// observation when the selection asks for it and a contract was authenticated, and
/// nothing otherwise.
pub fn architecture_observation(
    contract: Option<&VerifiedArchitecturePlanningContract>,
    inspection: InspectSelection,
) -> (observation: Option<ArchitecturePlanningObservation>)
    ensures
        match observation {
            Some(observed_contract) => inspection@.architecture_planning && contract.is_some()
                && observed_contract@ == observed(contract.unwrap()@),
            None => !inspection@.architecture_planning || contract.is_none(),
        },
{
    if inspection.architecture_planning {
        match contract {
            Some(verified) => Some(verified.observation()),
            None => None,
        }
    } else {
        None
    }
}

/// What planning for the requested architecture gives a compilation.
pub enum ArchitecturePlan {
    /// The request plans for no architecture, or for the contract that was authenticated.
    Planned(Option<VerifiedArchitecturePlanningContract>),
    /// The profile cannot be planned; the compilation reports this diagnostic.
    Unsupported(Diagnostic),
    /// The compilation was cancelled.
    Cancelled,
    /// The distribution failed to authenticate its own contract.
    Defect(Defect),
}

/// Plans for the request's architecture profile: no profile plans nothing; a supported
/// profile gives its authenticated contract; an unsupported one gives the
/// `architecture.unsupported_profile` diagnostic at the root; a cancelled authentication
/// cancels; any other failure is a defect of the distribution, with the failure's bounded
/// evidence.
pub fn plan_architecture(
    module: &ArchitecturePlanningModule,
    root: Root,
    profile: Option<ArchitectureProfile>,
    cancellation: &Cancellation,
) -> (plan: ArchitecturePlan)
    ensures
        match plan {
            ArchitecturePlan::Planned(None) => profile.is_none(),
            ArchitecturePlan::Planned(Some(contract)) => profile == Some(ArchitectureProfile::CurrentAarch64)
                && contract@ == current_contract_view(module.context()),
            ArchitecturePlan::Unsupported(diagnostic) => profile.is_some() && profile != Some(
                ArchitectureProfile::CurrentAarch64,
            ) && diagnostic@ == unsupported_architecture_view(root, profile.unwrap()),
            ArchitecturePlan::Cancelled => profile.is_some(),
            ArchitecturePlan::Defect(_) => false,
        },
{
    match profile {
        None => ArchitecturePlan::Planned(None),
        Some(profile) => match module.authenticate(profile, cancellation) {
            Ok(contract) => ArchitecturePlan::Planned(Some(contract)),
            Err(failure) => {
                if failure.kind() == ContractFailureKind::Cancelled {
                    ArchitecturePlan::Cancelled
                } else if failure.kind() == ContractFailureKind::UnsupportedProfile {
                    ArchitecturePlan::Unsupported(unsupported_architecture_diagnostic(root, profile))
                } else {
                    let evidence = failure.bounded_evidence();
                    ArchitecturePlan::Defect(Defect::new("architecture planning contract", evidence.as_str()))
                }
            },
        },
    }
}

/// A compilation that was accepted: no diagnostics, its inspection and the fingerprints
/// of what it produced.
#[derive(Clone, Debug, PartialEq, Eq)]
pub struct AcceptedCompilation {
    diagnostics: Vec<Diagnostic>,
    inspection: Inspection,
    semantic_program_fingerprint: u128,
    planning_foundation_fingerprint: Option<u128>,
}

/// What an accepted compilation holds.
pub ghost struct AcceptedCompilationView {
    pub diagnostics: Seq<DiagnosticView>,
    pub inspection: InspectionView,
    pub semantic_program_fingerprint: u128,
    pub planning_foundation_fingerprint: Option<u128>,
}

impl View for AcceptedCompilation {
    type V = AcceptedCompilationView;

    closed spec fn view(&self) -> AcceptedCompilationView {
        AcceptedCompilationView {
            diagnostics: diagnostic_views(self.diagnostics@),
            inspection: self.inspection@,
            semantic_program_fingerprint: self.semantic_program_fingerprint,
            planning_foundation_fingerprint: self.planning_foundation_fingerprint,
        }
    }
}

impl AcceptedCompilation {
    /// An accepted compilation, which carries no diagnostics.
    pub fn new(
        inspection: Inspection,
        semantic_program_fingerprint: u128,
        planning_foundation_fingerprint: Option<u128>,
    ) -> (accepted: Self)
        ensures
            accepted@ == (AcceptedCompilationView {
                diagnostics: Seq::empty(),
                inspection: inspection@,
                semantic_program_fingerprint,
                planning_foundation_fingerprint,
            }),
    {
        let accepted = AcceptedCompilation {
            diagnostics: Vec::new(),
            inspection,
            semantic_program_fingerprint,
            planning_foundation_fingerprint,
        };
        proof {
            assert(accepted@.diagnostics =~= Seq::<DiagnosticView>::empty());
        }
        accepted
    }

    /// The diagnostics; an accepted compilation has none.
    pub fn diagnostics(&self) -> (diagnostics: &[Diagnostic])
        ensures
            diagnostic_views(diagnostics@) == self@.diagnostics,
    {
        self.diagnostics.as_slice()
    }

    /// The inspection.
    pub fn inspection(&self) -> (inspection: &Inspection)
        ensures
            inspection@ == self@.inspection,
    {
        &self.inspection
    }

    /// The fingerprint of the completed semantic program.
    pub fn semantic_program_fingerprint(&self) -> (fingerprint: u128)
        ensures
            fingerprint == self@.semantic_program_fingerprint,
    {
        self.semantic_program_fingerprint
    }

    /// The fingerprint of the planning foundation, if the request planned for an
    /// architecture.
    pub fn planning_foundation_fingerprint(&self) -> (fingerprint: Option<u128>)
        ensures
            fingerprint == self@.planning_foundation_fingerprint,
    {
        self.planning_foundation_fingerprint
    }
}

/// A compilation that was rejected: its diagnostics and its inspection.
#[derive(Clone, Debug, PartialEq, Eq)]
pub struct RejectedCompilation {
    diagnostics: Vec<Diagnostic>,
    inspection: Inspection,
}

/// What a rejected compilation holds.
pub ghost struct RejectedCompilationView {
    pub diagnostics: Seq<DiagnosticView>,
    pub inspection: InspectionView,
}

impl View for RejectedCompilation {
    type V = RejectedCompilationView;

    closed spec fn view(&self) -> RejectedCompilationView {
        RejectedCompilationView {
            diagnostics: diagnostic_views(self.diagnostics@),
            inspection: self.inspection@,
        }
    }
}

impl RejectedCompilation {
    /// A rejected compilation with its diagnostics and inspection.
    pub fn new(diagnostics: Vec<Diagnostic>, inspection: Inspection) -> (rejected: Self)
        ensures
            rejected@ == (RejectedCompilationView {
                diagnostics: diagnostic_views(diagnostics@),
                inspection: inspection@,
            }),
    {
        RejectedCompilation { diagnostics, inspection }
    }

    /// The diagnostics.
    pub fn diagnostics(&self) -> (diagnostics: &[Diagnostic])
        ensures
            diagnostic_views(diagnostics@) == self@.diagnostics,
    {
        self.diagnostics.as_slice()
    }

    /// The inspection.
    pub fn inspection(&self) -> (inspection: &Inspection)
        ensures
            inspection@ == self@.inspection,
    {
        &self.inspection
    }
}

/// A failure of the host around a compilation.
#[derive(Clone, Debug, PartialEq, Eq)]
pub struct HostFailure {
    operation: String,
}

/// What a host failure holds.
pub ghost struct HostFailureView {
    pub operation: Seq<char>,
}

impl View for HostFailure {
    type V = HostFailureView;

    closed spec fn view(&self) -> HostFailureView {
        HostFailureView {
            operation: self.operation@,
        }
    }
}

impl HostFailure {
    /// The failure of a host operation.
    pub fn new(operation: &str) -> (observation: Self)
        ensures
            observation@ == (HostFailureView {
                operation: operation@,
            }),
    {
        let observation = HostFailure { operation: String::from_str(operation) };
        observation
    }

    /// The host operation that failed.
    pub fn operation(&self) -> (value: &str)
        ensures
            value@ == self@.operation,
    {
        self.operation.as_str()
    }
}

/// A defect of the compiler itself: the phase it was found in and its evidence.
#[derive(Clone, Debug, PartialEq, Eq)]
pub struct Defect {
    phase: String,
    evidence: String,
}

/// What a defect holds.
pub ghost struct DefectView {
    pub phase: Seq<char>,
    pub evidence: Seq<char>,
}

impl View for Defect {
    type V = DefectView;

    closed spec fn view(&self) -> DefectView {
        DefectView {
            phase: self.phase@,
            evidence: self.evidence@,
        }
    }
}

impl Defect {
    /// A defect found in a phase, with its evidence.
    pub fn new(phase: &str, evidence: &str) -> (observation: Self)
        ensures
            observation@ == (DefectView {
                phase: phase@,
                evidence: evidence@,
            }),
    {
        let observation = Defect { phase: String::from_str(phase), evidence: String::from_str(evidence) };
        observation
    }

    /// The phase the defect was found in.
    pub fn phase(&self) -> (value: &str)
        ensures
            value@ == self@.phase,
    {
        self.phase.as_str()
    }

    /// The evidence of the defect.
    pub fn evidence(&self) -> (value: &str)
        ensures
            value@ == self@.evidence,
    {
        self.evidence.as_str()
    }
}

/// How a compilation ended.
#[derive(Clone, Debug, PartialEq, Eq)]
pub enum CompilationOutcome {
    Accepted(AcceptedCompilation),
    Rejected(RejectedCompilation),
    Cancelled,
    HostFailed(HostFailure),
    Defect(Defect),
}

/// How a compilation ends once its diagnostics, inspection and products are known: with
/// no diagnostics it is accepted, which needs a completed semantic program (its absence
/// is a defect of the compiler); with diagnostics it is rejected with them, in order.
pub fn conclude_compilation(
    diagnostics: Vec<Diagnostic>,
    inspection: Inspection,
    semantic_program_fingerprint: Option<u128>,
    planning_foundation_fingerprint: Option<u128>,
) -> (outcome: CompilationOutcome)
    ensures
        match outcome {
            CompilationOutcome::Accepted(accepted) => diagnostics@.len() == 0
                && semantic_program_fingerprint.is_some() && accepted@ == (AcceptedCompilationView {
                diagnostics: Seq::empty(),
                inspection: inspection@,
                semantic_program_fingerprint: semantic_program_fingerprint.unwrap(),
                planning_foundation_fingerprint,
            }),
            CompilationOutcome::Rejected(rejected) => diagnostics@.len() > 0 && rejected@ == (RejectedCompilationView {
                diagnostics: diagnostic_views(diagnostics@),
                inspection: inspection@,
            }),
            CompilationOutcome::Defect(defect) => diagnostics@.len() == 0 && semantic_program_fingerprint.is_none()
                && defect@ == (DefectView {
                phase: "semantic completion"@,
                evidence: "accepted compilation omitted Completed Semantic Program"@,
            }),
            _ => false,
        },
{
    if diagnostics.len() == 0 {
        match semantic_program_fingerprint {
            Some(fingerprint) => CompilationOutcome::Accepted(
                AcceptedCompilation::new(inspection, fingerprint, planning_foundation_fingerprint),
            ),
            None => CompilationOutcome::Defect(
                Defect::new("semantic completion", "accepted compilation omitted Completed Semantic Program"),
            ),
        }
    } else {
        CompilationOutcome::Rejected(RejectedCompilation::new(diagnostics, inspection))
    }
}

/// Why an installation could not be opened.
#[derive(Clone, Debug, PartialEq, Eq)]
pub enum OpenError {
    DuplicateAuthenticatedModule { path: String },
    InvalidAuthenticatedModulePath { path: String },
    MalformedAuthenticatedModule { path: String, code: String },
    InvalidAuthenticatedModule { path: String, code: String },
    AuthenticatedIdentityCollision { digest: u128 },
    AuthenticatedModuleDefect { phase: String, evidence: String },
    MissingAuthenticatedDependency { path: String, dependency: String },
    AuthenticatedImportCycle { path: String },
}

// ---------------------------------------------------------------------------------------
// Admission of project files and authenticated modules
// ---------------------------------------------------------------------------------------

/// A diagnostic at the start of the module whose path has the given UTF-8 bytes.
pub open spec fn path_diagnostic(code: Seq<char>, path: Seq<u8>) -> DiagnosticView {
    DiagnosticView {
        code,
        primary: SourceRangeView { path: decode_utf8(path), start: 0, end: 0 },
        labels: Seq::empty(),
        typed_parameters: Seq::empty(),
        recovery: RecoveryActionView::NoAction,
    }
}

/// The files a compilation admits, keyed by path bytes, the paths of the authenticated
/// modules among them in admission order, and the diagnostics of admission.
pub ghost struct AdmissionView {
    pub files: Map<Seq<u8>, Seq<u8>>,
    pub authenticated_paths: Seq<Seq<u8>>,
    pub diagnostics: Seq<DiagnosticView>,
}

/// The map from path to bytes of a sequence of keys with distinct paths.
pub open spec fn keys_map(keys: Seq<(Seq<u8>, Seq<u8>)>) -> Map<Seq<u8>, Seq<u8>>
    decreases keys.len(),
{
    if keys.len() == 0 {
        Map::empty()
    } else {
        keys_map(keys.drop_last()).insert(keys.last().0, keys.last().1)
    }
}

/// Project files admitted in canonical order: the first file of each path is admitted,
/// and each later file with the same path is reported as `project.duplicate_path`.
pub open spec fn admit_project_keys(keys: Seq<(Seq<u8>, Seq<u8>)>) -> AdmissionView
    decreases keys.len(),
{
    if keys.len() == 0 {
        AdmissionView { files: Map::empty(), authenticated_paths: Seq::empty(), diagnostics: Seq::empty() }
    } else {
        let admitted = admit_project_keys(keys.drop_last());
        let key = keys.last();
        if admitted.files.contains_key(key.0) {
            AdmissionView {
                diagnostics: admitted.diagnostics.push(path_diagnostic("project.duplicate_path"@, key.0)),
                ..admitted
            }
        } else {
            AdmissionView { files: admitted.files.insert(key.0, key.1), ..admitted }
        }
    }
}

/// Authenticated modules admitted after the project: a module whose path a project file
/// already has is reported as `project.authenticated_module_shadow`; any other is
/// admitted and recorded as authenticated.
pub open spec fn admit_module_keys(admitted: AdmissionView, keys: Seq<(Seq<u8>, Seq<u8>)>) -> AdmissionView
    decreases keys.len(),
{
    if keys.len() == 0 {
        admitted
    } else {
        let before = admit_module_keys(admitted, keys.drop_last());
        let key = keys.last();
        if before.files.contains_key(key.0) {
            AdmissionView {
                diagnostics: before.diagnostics.push(
                    path_diagnostic("project.authenticated_module_shadow"@, key.0),
                ),
                ..before
            }
        } else {
            AdmissionView {
                files: before.files.insert(key.0, key.1),
                authenticated_paths: before.authenticated_paths.push(key.0),
                ..before
            }
        }
    }
}

/// What a compilation admits of a project and the distribution's modules, before it
/// parses anything.
pub open spec fn front_end_admission(project: Seq<ProjectFileView>, modules: Seq<ProjectFileView>) -> AdmissionView {
    admit_module_keys(admit_project_keys(canonical_file_order(project)), file_keys(modules))
}

/// A map of keys holds exactly their paths.
proof fn lemma_keys_map_contains(keys: Seq<(Seq<u8>, Seq<u8>)>, path: Seq<u8>)
    ensures
        keys_map(keys).contains_key(path) <==> exists|i: int| 0 <= i < keys.len() && #[trigger] keys[i].0 == path,
    decreases keys.len(),
{
    if keys.len() > 0 {
        lemma_keys_map_contains(keys.drop_last(), path);
        if keys_map(keys.drop_last()).contains_key(path) {
            let i = choose|i: int| 0 <= i < keys.drop_last().len() && #[trigger] keys.drop_last()[i].0 == path;
            assert(keys[i].0 == path);
        }
        if exists|i: int| 0 <= i < keys.len() && #[trigger] keys[i].0 == path {
            let i = choose|i: int| 0 <= i < keys.len() && #[trigger] keys[i].0 == path;
            if i < keys.len() - 1 {
                assert(keys.drop_last()[i].0 == path);
            }
        }
    }
}

/// The files, authenticated paths and diagnostics of admission.
pub struct FileAdmission {
    files: Vec<ProjectFile>,
    authenticated_paths: Vec<String>,
    diagnostics: Vec<Diagnostic>,
}

impl View for FileAdmission {
    type V = AdmissionView;

    closed spec fn view(&self) -> AdmissionView {
        AdmissionView {
            files: keys_map(file_keys(file_views(self.files@))),
            authenticated_paths: self.authenticated_paths@.map_values(|path: String| encode_utf8(path@)),
            diagnostics: diagnostic_views(self.diagnostics@),
        }
    }
}

/// Whether a file of `files` has the path whose bytes are `path`.
fn contains_path(files: &Vec<ProjectFile>, path: &[u8]) -> (found: bool)
    ensures
        found == keys_map(file_keys(file_views(files@))).contains_key(path@),
{
    let ghost keys = file_keys(file_views(files@));
    proof {
        lemma_keys_map_contains(keys, path@);
    }
    let mut i: usize = 0;
    while i < files.len()
        invariant
            i <= files@.len(),
            keys == file_keys(file_views(files@)),
            forall|j: int| 0 <= j < i ==> #[trigger] keys[j].0 != path@,
        decreases files@.len() - i,
    {
        let candidate = files[i].path.as_str().as_bytes();
        let forward = bytes_le_exec(candidate, path);
        let backward = bytes_le_exec(path, candidate);
        proof {
            lemma_bytes_le_reflexive(path@);
            if forward && backward {
                lemma_bytes_le_antisymmetric(candidate@, path@);
            }
            assert(keys[i as int].0 == candidate@);
        }
        if forward && backward {
            proof {
                assert(keys[i as int].0 == path@);
                lemma_keys_map_contains(keys, path@);
            }
            return true;
        }
        i = i + 1;
    }
    false
}

impl FileAdmission {
    /// Admits the project's files in canonical order and then the authenticated modules
    /// in their sealed order. A cancelled admission answers nothing: whether admission
    /// completes is decided by the polls of the shared cancellation flag alone.
    pub fn new(project: &ProjectSnapshot, modules: &[ProjectFile], cancellation: &Cancellation) -> (admission: Option<Self>)
        ensures
            match admission {
                Some(admitted) => admitted@ == front_end_admission(project@.files, file_views(modules@)),
                None => true,
            },
            project@.files.len() == 0 ==> admission is Some,
    {
        let ghost views = project@.files;
        let ghost sorted = canonical_file_order(views);
        let order = sorted_file_order(&project.files);
        let mut files: Vec<ProjectFile> = Vec::new();
        let authenticated_paths: Vec<String> = Vec::new();
        let mut diagnostics: Vec<Diagnostic> = Vec::new();
        let mut k: usize = 0;
        proof {
            assert(sorted.take(0) =~= Seq::<(Seq<u8>, Seq<u8>)>::empty());
            assert(file_views(files@) =~= Seq::<ProjectFileView>::empty());
            assert(file_keys(file_views(files@)) =~= Seq::<(Seq<u8>, Seq<u8>)>::empty());
            assert(diagnostic_views(diagnostics@) =~= Seq::<DiagnosticView>::empty());
            assert(authenticated_paths@.map_values(|path: String| encode_utf8(path@)) =~= Seq::<Seq<u8>>::empty());
        }
        while k < order.len()
            invariant
                k <= order@.len(),
                order@.len() == project@.files.len(),
                views == project@.files,
                views == file_views(project.files@),
                forall|j: int| 0 <= j < order@.len() ==> order@[j] < project.files@.len(),
                ordered_keys(views, order@) == sorted,
                authenticated_paths@.len() == 0,
                keys_map(file_keys(file_views(files@))) == admit_project_keys(sorted.take(k as int)).files,
                diagnostic_views(diagnostics@) == admit_project_keys(sorted.take(k as int)).diagnostics,
                admit_project_keys(sorted.take(k as int)).authenticated_paths == Seq::<Seq<u8>>::empty(),
            decreases order@.len() - k,
        {
            if cancellation.is_cancelled() {
                return None;
            }
            let file = &project.files[order[k]];
            let ghost key = sorted[k as int];
            proof {
                assert(key == file_key(file@));
                assert(sorted.take(k + 1).drop_last() =~= sorted.take(k as int));
                assert(sorted.take(k + 1).last() == key);
                encode_utf8_decode_utf8(file@.path);
            }
            let path_bytes = file.path.as_str().as_bytes();
            if contains_path(&files, path_bytes) {
                let ghost before = diagnostic_views(diagnostics@);
                diagnostics.push(Diagnostic::new(
                    "project.duplicate_path",
                    SourceRange::new(file.path(), 0, 0),
                    RecoveryAction::NoAction,
                ));
                proof {
                    assert(diagnostic_views(diagnostics@) =~= before.push(
                        path_diagnostic("project.duplicate_path"@, key.0),
                    ));
                }
            } else {
                let ghost before = file_keys(file_views(files@));
                files.push(ProjectFile::new(file.path(), file.bytes()));
                proof {
                    assert(file_keys(file_views(files@)) =~= before.push(key));
                    assert(file_keys(file_views(files@)).drop_last() =~= before);
                }
            }
            k = k + 1;
        }
        proof {
            assert(sorted.take(k as int) =~= sorted);
        }
        let ghost admitted = admit_project_keys(sorted);
        let ghost module_keys = file_keys(file_views(modules@));
        let mut authenticated_paths = authenticated_paths;
        let mut m: usize = 0;
        proof {
            assert(module_keys.take(0) =~= Seq::<(Seq<u8>, Seq<u8>)>::empty());
            assert(authenticated_paths@.map_values(|path: String| encode_utf8(path@)) =~= Seq::<Seq<u8>>::empty());
        }
        while m < modules.len()
            invariant
                m <= modules@.len(),
                module_keys == file_keys(file_views(modules@)),
                keys_map(file_keys(file_views(files@))) == admit_module_keys(admitted, module_keys.take(m as int)).files,
                diagnostic_views(diagnostics@) == admit_module_keys(admitted, module_keys.take(m as int)).diagnostics,
                authenticated_paths@.map_values(|path: String| encode_utf8(path@)) == admit_module_keys(
                    admitted,
                    module_keys.take(m as int),
                ).authenticated_paths,
            decreases modules@.len() - m,
        {
            let module = &modules[m];
            let ghost key = module_keys[m as int];
            proof {
                assert(key == file_key(module@));
                assert(module_keys.take(m + 1).drop_last() =~= module_keys.take(m as int));
                assert(module_keys.take(m + 1).last() == key);
                encode_utf8_decode_utf8(module@.path);
            }
            let path_bytes = module.path.as_str().as_bytes();
            if contains_path(&files, path_bytes) {
                let ghost before = diagnostic_views(diagnostics@);
                diagnostics.push(Diagnostic::new(
                    "project.authenticated_module_shadow",
                    SourceRange::new(module.path(), 0, 0),
                    RecoveryAction::NoAction,
                ));
                proof {
                    assert(diagnostic_views(diagnostics@) =~= before.push(
                        path_diagnostic("project.authenticated_module_shadow"@, key.0),
                    ));
                }
            } else {
                let ghost before = file_keys(file_views(files@));
                let ghost before_paths = authenticated_paths@.map_values(|path: String| encode_utf8(path@));
                files.push(ProjectFile::new(module.path(), module.bytes()));
                authenticated_paths.push(String::from_str(module.path()));
                proof {
                    assert(file_keys(file_views(files@)) =~= before.push(key));
                    assert(file_keys(file_views(files@)).drop_last() =~= before);
                    assert(authenticated_paths@.map_values(|path: String| encode_utf8(path@)) =~= before_paths.push(key.0));
                }
            }
            m = m + 1;
        }
        proof {
            assert(module_keys.take(m as int) =~= module_keys);
        }
        Some(FileAdmission { files, authenticated_paths, diagnostics })
    }

    /// Whether the root's module was admitted.
    pub fn contains_root(&self, root: Root) -> (found: bool)
        ensures
            found == self@.files.contains_key(encode_utf8(root_path(root))),
    {
        contains_path(&self.files, root.path().as_bytes())
    }

    /// The diagnostics of admission, in the order they were found.
    pub fn diagnostics(&self) -> (diagnostics: &[Diagnostic])
        ensures
            diagnostic_views(diagnostics@) == self@.diagnostics,
    {
        self.diagnostics.as_slice()
    }

    /// The paths of the admitted authenticated modules, in admission order.
    pub fn authenticated_paths(&self) -> (paths: &[String])
        ensures
            paths@.map_values(|path: String| encode_utf8(path@)) == self@.authenticated_paths,
    {
        self.authenticated_paths.as_slice()
    }
}

} // verus!
