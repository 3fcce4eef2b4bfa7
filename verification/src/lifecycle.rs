//! The OS lifecycle manager: install, backup, restore, remove and
//! update-with-rollback of OS payloads, over an in-memory model of the two
//! directory trees it owns (installed systems and backup archives) and the
//! registry. The filesystem and the external tools (archiver, mounter,
//! fetcher) are driven by the caller, which performs each outside step and
//! hands its outcome in as a plain value; every decision, state change and
//! failure contract here is verified.

use vstd::prelude::*;
use crate::catalog::{OSType, OperatingSystem, OsEntryView, entry_views, entries_sorted,
    names_distinct, sort_entries, has_name, lemma_names_distinct_perm};
use crate::registry::{Registry, RegistryRecord, RecordView};
use crate::text::{str_eq, bytes_of, contains_bytes, lower_bytes, contains_ci};
use crate::clock::{timestamp_label_of, rfc3339_label_of, format_compact_timestamp, format_rfc3339,
    TIMESTAMP_LIMIT};

verus! {

use vstd::string::StringSliceAdditionalSpecFns;

// ---------- Files and directory images ----------

/// One file of an installed system's directory tree.
#[derive(Clone, Debug)]
pub struct NamedFile {
    pub name: String,
    pub content: Vec<u8>,
}

/// The mathematical value of one file.
pub ghost struct FileView {
    pub name: Seq<char>,
    pub content: Seq<u8>,
}

impl View for NamedFile {
    type V = FileView;

    open spec fn view(&self) -> FileView {
        FileView { name: self.name@, content: self.content@ }
    }
}

/// The modelled contents of one directory tree: its files, in order. Two
/// trees are byte-for-byte equal exactly when their views are equal.
#[derive(Clone, Debug)]
pub struct DirImage {
    pub files: Vec<NamedFile>,
}

impl View for DirImage {
    type V = Seq<FileView>;

    open spec fn view(&self) -> Seq<FileView> {
        self.files@.map_values(|f: NamedFile| f@)
    }
}

fn copy_bytes(v: &Vec<u8>) -> (r: Vec<u8>)
    ensures
        r@ == v@,
{
    let mut r: Vec<u8> = Vec::new();
    let mut i: usize = 0;
    while i < v.len()
        invariant
            i <= v@.len(),
            r@ =~= v@.take(i as int),
        decreases v@.len() - i,
    {
        r.push(v[i]);
        i = i + 1;
        assert(v@.take(i as int) =~= v@.take(i - 1).push(v@[i - 1]));
    }
    assert(v@.take(i as int) =~= v@);
    r
}

impl DirImage {
    /// A copy with the same view.
    pub fn clone_image(&self) -> (r: DirImage)
        ensures
            r@ == self@,
    {
        let mut files: Vec<NamedFile> = Vec::new();
        let mut i: usize = 0;
        while i < self.files.len()
            invariant
                i <= self.files@.len(),
                files@.map_values(|f: NamedFile| f@) =~= self@.take(i as int),
        decreases self.files@.len() - i,
    {
            let ghost pre = files@;
            let f = &self.files[i];
            files.push(NamedFile { name: f.name.clone(), content: copy_bytes(&f.content) });
            i = i + 1;
            proof {
                assert(files@.map_values(|g: NamedFile| g@) =~= pre.map_values(
                    |g: NamedFile| g@,
                ).push(files@.last()@));
                assert(self@.take(i as int) =~= self@.take(i - 1).push(self@[i - 1]));
                assert(files@.last()@ == self@[i - 1]);
            }
        }
        proof {
            assert(self@.take(i as int) =~= self@);
        }
        DirImage { files }
    }
}

/// A file of this name is present in the tree.
pub open spec fn tree_has_file(files: Seq<FileView>, name: Seq<char>) -> bool {
    exists|i: int| 0 <= i < files.len() && files[i].name == name
}

/// Whether the tree holds a file of the given name.
pub fn image_has_file(img: &DirImage, name: &str) -> (r: bool)
    ensures
        r == tree_has_file(img@, name@),
{
    let mut i: usize = 0;
    while i < img.files.len()
        invariant
            i <= img.files@.len(),
            forall|k: int| 0 <= k < i ==> img@[k].name != name@,
        decreases img.files@.len() - i,
    {
        if str_eq(img.files[i].name.as_str(), name) {
            assert(img@[i as int].name == name@);
            return true;
        }
        i = i + 1;
    }
    return false;
}

/// The total size of the tree in bytes.
pub open spec fn tree_size_bytes(files: Seq<FileView>) -> nat
    decreases files.len(),
{
    if files.len() == 0 {
        0
    } else {
        tree_size_bytes(files.drop_last()) + files.last().content.len()
    }
}

/// Whole megabytes a byte count amounts to.
pub open spec fn bytes_to_mb(bytes: nat) -> nat {
    bytes / 0x100000
}

/// The size of the directory tree in whole megabytes, as the original
/// computed with a disk-usage tool.
pub fn calculate_directory_size(img: &DirImage) -> (r: u64)
    ensures
        r == if bytes_to_mb(tree_size_bytes(img@)) > u64::MAX {
            u64::MAX as nat
        } else {
            bytes_to_mb(tree_size_bytes(img@))
        },
{
    let n = img.files.len();
    let mut total: u128 = 0;
    let mut i: usize = 0;
    while i < n
        invariant
            i <= n,
            n == img.files@.len(),
            total == tree_size_bytes(img@.take(i as int)),
            total <= (i as nat) * (usize::MAX as nat),
        decreases n - i,
    {
        let flen: u128 = img.files[i].content.len() as u128;
        proof {
            assert((i as nat) * (usize::MAX as nat) + (usize::MAX as nat) == ((i + 1) as nat) * (
            usize::MAX as nat)) by (nonlinear_arith);
            assert(((i + 1) as nat) * (usize::MAX as nat) <= (n as nat) * (usize::MAX as nat))
                by (nonlinear_arith)
                requires i + 1 <= n,
            ;
            assert((n as nat) * (usize::MAX as nat) < u128::MAX) by (nonlinear_arith)
                requires n <= usize::MAX, usize::MAX <= u64::MAX,
            ;
        }
        total = total + flen;
        i = i + 1;
        proof {
            assert(img@.take(i as int).drop_last() =~= img@.take(i - 1));
        }
    }
    proof {
        assert(img@.take(i as int) =~= img@);
    }
    let mb: u128 = total / 0x100000;
    if mb > u64::MAX as u128 {
        u64::MAX
    } else {
        mb as u64
    }
}

// ---------- Classification of an installed directory ----------

/// The fixed-precedence signature classification the lifecycle manager runs
/// over an installed directory: first match wins.
pub open spec fn classify_installed(files: Seq<FileView>) -> OSType {
    if tree_has_file(files, "retropie"@) || tree_has_file(files, "RetroPie"@) {
        OSType::RetroPie
    } else if tree_has_file(files, "batocera"@) || tree_has_file(files, "BATOCERA"@) {
        OSType::Batocera
    } else if tree_has_file(files, "recalbox"@) {
        OSType::Recalbox
    } else if tree_has_file(files, "config.txt"@) && tree_has_file(files, "cmdline.txt"@) {
        OSType::RaspberryPiOS
    } else if tree_has_file(files, "ubuntu"@) || tree_has_file(files, "etc/lsb-release"@) {
        OSType::Ubuntu
    } else {
        OSType::Unknown
    }
}

/// Classify an installed directory by its signature files.
pub fn detect_os_type(img: &DirImage) -> (r: OSType)
    ensures
        r == classify_installed(img@),
{
    if image_has_file(img, "retropie") || image_has_file(img, "RetroPie") {
        OSType::RetroPie
    } else if image_has_file(img, "batocera") || image_has_file(img, "BATOCERA") {
        OSType::Batocera
    } else if image_has_file(img, "recalbox") {
        OSType::Recalbox
    } else if image_has_file(img, "config.txt") && image_has_file(img, "cmdline.txt") {
        OSType::RaspberryPiOS
    } else if image_has_file(img, "ubuntu") || image_has_file(img, "etc/lsb-release") {
        OSType::Ubuntu
    } else {
        OSType::Unknown
    }
}

/// A directory boots when any of the boot marker files is present.
pub open spec fn image_bootable(files: Seq<FileView>) -> bool {
    ||| tree_has_file(files, "boot.sh"@)
    ||| tree_has_file(files, "kernel.img"@)
    ||| tree_has_file(files, "config.txt"@)
    ||| tree_has_file(files, "system.img"@)
}

/// Whether a directory holds one of the boot marker files.
pub fn is_bootable(img: &DirImage) -> (r: bool)
    ensures
        r == image_bootable(img@),
{
    image_has_file(img, "boot.sh") || image_has_file(img, "kernel.img") || image_has_file(
        img,
        "config.txt",
    ) || image_has_file(img, "system.img")
}

// ---------- Lifecycle state ----------

/// One installed system: its name, install directory and modelled contents.
#[derive(Clone, Debug)]
pub struct InstalledSystem {
    pub name: String,
    pub path: String,
    pub image: DirImage,
}

/// The mathematical value of one installed system.
pub ghost struct SystemView {
    pub name: Seq<char>,
    pub path: Seq<char>,
    pub image: Seq<FileView>,
}

impl View for InstalledSystem {
    type V = SystemView;

    open spec fn view(&self) -> SystemView {
        SystemView { name: self.name@, path: self.path@, image: self.image@ }
    }
}

/// The views of a row of installed systems.
pub open spec fn sys_views(s: Seq<InstalledSystem>) -> Seq<SystemView> {
    s.map_values(|x: InstalledSystem| x@)
}

/// No two installed systems share a name.
pub open spec fn sys_names_distinct(s: Seq<SystemView>) -> bool {
    forall|i: int, j: int| 0 <= i < j < s.len() ==> (#[trigger] s[i]).name != (#[trigger] s[j]).name
}

/// A system of this name is installed.
pub open spec fn has_system(s: Seq<SystemView>, name: Seq<char>) -> bool {
    exists|i: int| 0 <= i < s.len() && s[i].name == name
}

/// The installed system bearing this name.
pub open spec fn system_at(s: Seq<SystemView>, name: Seq<char>) -> SystemView {
    s[choose|i: int| 0 <= i < s.len() && s[i].name == name]
}

/// For a row of distinct names, the system found at an index bearing the
/// name is the system the name denotes.
pub proof fn lemma_system_at(s: Seq<SystemView>, name: Seq<char>, i: int)
    requires
        sys_names_distinct(s),
        0 <= i < s.len(),
        s[i].name == name,
    ensures
        has_system(s, name),
        system_at(s, name) == s[i],
{
    let j = choose|j: int| 0 <= j < s.len() && s[j].name == name;
    if i != j {
        if i < j {
            assert(s[i].name != s[j].name);
        } else {
            assert(s[j].name != s[i].name);
        }
    }
}

/// The row of systems with every system of this name taken out, order kept.
pub open spec fn remove_system(s: Seq<SystemView>, name: Seq<char>) -> Seq<SystemView>
    decreases s.len(),
{
    if s.len() == 0 {
        s
    } else {
        let rest = remove_system(s.drop_last(), name);
        if s.last().name == name {
            rest
        } else {
            rest.push(s.last())
        }
    }
}

/// Removing an absent name changes nothing.
pub proof fn lemma_remove_absent(s: Seq<SystemView>, name: Seq<char>)
    requires
        !has_system(s, name),
    ensures
        remove_system(s, name) == s,
    decreases s.len(),
{
    if s.len() > 0 {
        assert(!has_system(s.drop_last(), name)) by {
            if has_system(s.drop_last(), name) {
                let i = choose|i: int|
                    0 <= i < s.drop_last().len() && s.drop_last()[i].name == name;
                assert(s[i].name == name);
            }
        }
        lemma_remove_absent(s.drop_last(), name);
        assert(s.last().name != name) by {
            assert(s[s.len() - 1] == s.last());
        }
        assert(remove_system(s, name) =~= s);
    }
}

/// For a row of distinct names, removing a name is removing its one index.
pub proof fn lemma_remove_at(s: Seq<SystemView>, name: Seq<char>, i: int)
    requires
        sys_names_distinct(s),
        0 <= i < s.len(),
        s[i].name == name,
    ensures
        remove_system(s, name) =~= s.remove(i),
        !has_system(remove_system(s, name), name),
        sys_names_distinct(remove_system(s, name)),
    decreases s.len(),
{
    let out = remove_system(s, name);
    if i == s.len() - 1 {
        assert(!has_system(s.drop_last(), name)) by {
            if has_system(s.drop_last(), name) {
                let k = choose|k: int|
                    0 <= k < s.drop_last().len() && s.drop_last()[k].name == name;
                assert(s[k].name == s[i].name);
            }
        }
        lemma_remove_absent(s.drop_last(), name);
        assert(out =~= s.remove(i));
    } else {
        assert(s.last().name != name) by {
            assert(s[i].name != s[s.len() - 1].name);
        }
        assert(sys_names_distinct(s.drop_last())) by {
            assert(forall|p: int, q: int|
                0 <= p < q < s.drop_last().len() ==> (#[trigger] s.drop_last()[p]).name != (
                #[trigger] s.drop_last()[q]).name);
        }
        lemma_remove_at(s.drop_last(), name, i);
        assert(out =~= s.drop_last().remove(i).push(s.last()));
        assert(out =~= s.remove(i));
    }
    assert(!has_system(out, name)) by {
        if has_system(out, name) {
            let k = choose|k: int| 0 <= k < out.len() && out[k].name == name;
            let kk = if k < i {
                k
            } else {
                k + 1
            };
            assert(s[kk].name == name);
            if kk < i {
                assert(s[kk].name != s[i].name);
            } else {
                assert(s[i].name != s[kk].name);
            }
        }
    }
    assert(sys_names_distinct(out)) by {
        assert forall|p: int, q: int| 0 <= p < q < out.len() implies (#[trigger] out[p]).name != (
        #[trigger] out[q]).name by {
            let pp = if p < i {
                p
            } else {
                p + 1
            };
            let qq = if q < i {
                q
            } else {
                q + 1
            };
            assert(s[pp].name != s[qq].name);
        }
    }
}

/// A backup record: what `get_backups` lists and `restore_os_from_backup`
/// consumes. `backup_date` is a Unix timestamp in seconds.
#[derive(Clone, Debug)]
pub struct OSBackup {
    pub os_name: String,
    pub backup_date: u64,
    pub backup_size_mb: u64,
    pub backup_path: String,
    pub is_bootable: bool,
}

/// The mathematical value of one backup record.
pub ghost struct BackupView {
    pub os_name: Seq<char>,
    pub backup_date: u64,
    pub backup_size_mb: u64,
    pub backup_path: Seq<char>,
    pub is_bootable: bool,
}

impl View for OSBackup {
    type V = BackupView;

    open spec fn view(&self) -> BackupView {
        BackupView {
            os_name: self.os_name@,
            backup_date: self.backup_date,
            backup_size_mb: self.backup_size_mb,
            backup_path: self.backup_path@,
            is_bootable: self.is_bootable,
        }
    }
}

impl OSBackup {
    /// A copy with the same view.
    pub fn clone_backup(&self) -> (r: OSBackup)
        ensures
            r@ == self@,
    {
        OSBackup {
            os_name: self.os_name.clone(),
            backup_date: self.backup_date,
            backup_size_mb: self.backup_size_mb,
            backup_path: self.backup_path.clone(),
            is_bootable: self.is_bootable,
        }
    }
}

/// One archive in the backup root: its record and the archived tree.
#[derive(Clone, Debug)]
pub struct ArchiveEntry {
    pub record: OSBackup,
    pub image: DirImage,
}

/// The mathematical value of one archive.
pub ghost struct ArchiveView {
    pub record: BackupView,
    pub image: Seq<FileView>,
}

impl View for ArchiveEntry {
    type V = ArchiveView;

    open spec fn view(&self) -> ArchiveView {
        ArchiveView { record: self.record@, image: self.image@ }
    }
}

/// The views of a row of archives.
pub open spec fn archive_views(s: Seq<ArchiveEntry>) -> Seq<ArchiveView> {
    s.map_values(|x: ArchiveEntry| x@)
}

/// The persisted boot configuration.
#[derive(Clone, Debug)]
pub struct BootConfiguration {
    pub default_os: Option<String>,
    pub timeout_seconds: u64,
    pub available_systems: Vec<OperatingSystem>,
    pub boot_order: Vec<String>,
    pub recovery_mode: bool,
}

impl BootConfiguration {
    /// The configuration substituted when none is persisted: no default OS
    /// and a ten second timeout.
    pub fn default_boot_configuration() -> (r: BootConfiguration)
        ensures
            r.default_os is None,
            r.timeout_seconds == 10,
            r.available_systems@.len() == 0,
            r.boot_order@.len() == 0,
            r.recovery_mode == false,
    {
        BootConfiguration {
            default_os: None,
            timeout_seconds: 10,
            available_systems: Vec::new(),
            boot_order: Vec::new(),
            recovery_mode: false,
        }
    }
}

/// How far an installation has progressed, for callers that report it.
#[derive(Clone, Copy, Debug, PartialEq, Eq, Structural)]
pub enum InstallationStage {
    Preparing,
    Downloading,
    Extracting,
    Installing,
    Configuring,
    Testing,
    Finalizing,
    Completed,
    Failed,
}

/// A distributable OS image, as offered to installers.
#[derive(Clone, Debug)]
pub struct OSImage {
    pub name: String,
    pub file_path: String,
    pub size_mb: u64,
    pub os_type: OSType,
    pub checksum: Option<String>,
    pub is_compressed: bool,
    pub supported_devices: Vec<String>,
}

/// The failures a lifecycle operation surfaces.
#[derive(Clone, Debug)]
pub enum LifecycleError {
    NotFound,
    SourceUnavailable,
    ExternalToolFailure(String),
    ValidationFailure,
}

/// An update failure: the failure of the update step itself, and, when the
/// automatic rollback also failed, that failure beside it.
#[derive(Clone, Debug)]
pub struct UpdateFailure {
    pub original: LifecycleError,
    pub rollback: Option<LifecycleError>,
}

/// What the caller observed of one install source: whether it could be read,
/// whether the external extraction tool succeeded, the tool's error text when
/// it did not, the extracted tree when it did, and what the external
/// type-identification tool printed for the file.
pub struct InstallSource {
    pub path: String,
    pub readable: bool,
    pub extract_ok: bool,
    pub tool_stderr: String,
    pub payload: DirImage,
    pub type_tool_output: String,
}

/// What the caller observed of one run of the archiving tool: the archive's
/// size in bytes on success, the tool's error text on failure.
pub enum ArchiveOutcome {
    Archived { size_bytes: u64 },
    Failed { stderr: String },
}

/// What the caller observed of one run of the extraction tool.
pub enum ToolOutcome {
    Success,
    Failure { stderr: String },
}

// ---------- Container-type detection ----------

/// The container types an install source can come in, each with its own
/// extraction strategy.
#[derive(Clone, Copy, Debug, PartialEq, Eq, Structural)]
pub enum ImageType {
    ISO,
    IMG,
    TAR,
    ZIP,
}

/// The extension of a path: the characters after the last dot of its file
/// name, provided the dot is not the file name's first character. Mirrors how
/// a path library reads extensions.
pub open spec fn ext_of(p: Seq<char>) -> Option<Seq<char>>
    decreases p.len(),
{
    if p.len() == 0 {
        None
    } else if p.last() == '/' {
        None
    } else if p.last() == '.' {
        if p.len() >= 2 && p[p.len() - 2] != '/' {
            Some(Seq::empty())
        } else {
            None
        }
    } else {
        match ext_of(p.drop_last()) {
            Some(e) => Some(e.push(p.last())),
            None => None,
        }
    }
}

proof fn lemma_ext_suffix(p: Seq<char>, j: int)
    requires
        0 <= j <= p.len(),
        forall|k: int| j <= k < p.len() ==> p[k] != '.' && p[k] != '/',
    ensures
        ext_of(p) == match ext_of(p.take(j)) {
            Some(e) => Some(e + p.skip(j)),
            None => None::<Seq<char>>,
        },
    decreases p.len() - j,
{
    if j == p.len() {
        assert(p.take(j) =~= p);
        assert(p.skip(j) =~= Seq::<char>::empty());
        match ext_of(p) {
            Some(e) => {
                assert(e + p.skip(j) =~= e);
            },
            None => {},
        }
    } else {
        assert(p.last() != '.' && p.last() != '/');
        lemma_ext_suffix(p.drop_last(), j);
        assert(p.drop_last().take(j) =~= p.take(j));
        match ext_of(p.take(j)) {
            Some(e) => {
                assert(e + p.drop_last().skip(j) =~= (e + p.skip(j)).drop_last());
                assert(ext_of(p) == Some((e + p.drop_last().skip(j)).push(p.last())));
                assert((e + p.drop_last().skip(j)).push(p.last()) =~= e + p.skip(j));
            },
            None => {},
        }
    }
}

/// Read a path's extension.
pub fn extension_of(path: &str) -> (r: Option<String>)
    ensures
        match r {
            Some(e) => ext_of(path@) == Some(e@),
            None => ext_of(path@) is None,
        },
{
    let len = path.unicode_len();
    let mut j: usize = len;
    while j > 0 && path.get_char(j - 1) != '.' && path.get_char(j - 1) != '/'
        invariant
            j <= len,
            len == path@.len(),
            forall|k: int| j <= k < len ==> path@[k] != '.' && path@[k] != '/',
        decreases j,
    {
        j = j - 1;
    }
    proof {
        lemma_ext_suffix(path@, j as int);
    }
    if j == 0 {
        return None;
    }
    if path.get_char(j - 1) == '/' {
        proof {
            assert(path@.take(j as int).last() == path@[j - 1]);
        }
        return None;
    }
    proof {
        assert(path@.take(j as int).last() == path@[j - 1]);
        assert(path@[j - 1] == '.');
    }
    if j >= 2 && path.get_char(j - 2) != '/' {
        proof {
            assert(path@.take(j as int)[j - 2] == path@[j - 2]);
            assert(ext_of(path@.take(j as int)) == Some(Seq::<char>::empty()));
            assert(Seq::<char>::empty() + path@.skip(j as int) =~= path@.skip(j as int));
            assert(path@.skip(j as int) =~= path@.subrange(j as int, len as int));
        }
        Some(path.substring_char(j, len).to_owned())
    } else {
        proof {
            if j >= 2 {
                assert(path@.take(j as int)[j - 2] == path@[j - 2]);
            }
        }
        None
    }
}

/// A byte string equals, case-folded, an expected lower-case word.
pub open spec fn folds_to(s: Seq<char>, word: &str) -> bool {
    lower_bytes(bytes_of(s)) == word.spec_bytes()
}

fn eq_bytes(a: &Vec<u8>, b: &Vec<u8>) -> (r: bool)
    ensures
        r == (a@ == b@),
{
    if a.len() != b.len() {
        return false;
    }
    let mut i: usize = 0;
    while i < a.len()
        invariant
            i <= a@.len(),
            a@.len() == b@.len(),
            forall|k: int| 0 <= k < i ==> a@[k] == b@[k],
        decreases a@.len() - i,
    {
        if a[i] != b[i] {
            return false;
        }
        i = i + 1;
    }
    assert(a@ =~= b@);
    return true;
}

fn ext_matches(e: &str, word: &str) -> (r: bool)
    ensures
        r == folds_to(e@, word),
{
    let lowered = crate::text::lower_bytes_of(e);
    let wb = word.as_bytes_vec();
    eq_bytes(&lowered, &wb)
}

/// The container type the content-identification tool's output suggests,
/// defaulting to a raw image.
pub open spec fn sniffed_type(out: Seq<char>) -> ImageType {
    if contains_bytes(lower_bytes(bytes_of(out)), lower_bytes("iso".spec_bytes())) {
        ImageType::ISO
    } else if contains_bytes(lower_bytes(bytes_of(out)), lower_bytes("tar".spec_bytes())) {
        ImageType::TAR
    } else if contains_bytes(lower_bytes(bytes_of(out)), lower_bytes("zip".spec_bytes())) {
        ImageType::ZIP
    } else {
        ImageType::IMG
    }
}

/// Classify the content-identification tool's output.
pub fn detect_image_type_by_content(file_info: &str) -> (r: ImageType)
    ensures
        r == sniffed_type(file_info@),
{
    if contains_ci(file_info, "iso") {
        ImageType::ISO
    } else if contains_ci(file_info, "tar") {
        ImageType::TAR
    } else if contains_ci(file_info, "zip") {
        ImageType::ZIP
    } else {
        ImageType::IMG
    }
}

/// The container type of an install source: the file extension decides when
/// it is a known one; an absent or unrecognized extension falls back to what
/// the content-identification tool printed.
pub open spec fn image_type_of(path: Seq<char>, tool_output: Seq<char>) -> ImageType {
    match ext_of(path) {
        Some(e) => if folds_to(e, "iso") {
            ImageType::ISO
        } else if folds_to(e, "img") {
            ImageType::IMG
        } else if folds_to(e, "tar") || folds_to(e, "tgz") {
            ImageType::TAR
        } else if folds_to(e, "zip") {
            ImageType::ZIP
        } else {
            sniffed_type(tool_output)
        },
        None => sniffed_type(tool_output),
    }
}

/// Decide the container type of an install source, and with it the
/// extraction strategy the caller runs.
pub fn detect_image_type(image_path: &str, type_tool_output: &str) -> (r: ImageType)
    ensures
        r == image_type_of(image_path@, type_tool_output@),
{
    match extension_of(image_path) {
        Some(e) => {
            let es = e.as_str();
            if ext_matches(es, "iso") {
                ImageType::ISO
            } else if ext_matches(es, "img") {
                ImageType::IMG
            } else if ext_matches(es, "tar") || ext_matches(es, "tgz") {
                ImageType::TAR
            } else if ext_matches(es, "zip") {
                ImageType::ZIP
            } else {
                detect_image_type_by_content(type_tool_output)
            }
        },
        None => detect_image_type_by_content(type_tool_output),
    }
}

// ---------- The install-time pipeline ----------

/// The metadata file an install writes into the new directory.
pub open spec fn config_text(name: Seq<char>, now: u64) -> Seq<char> {
    "[system]\nname = \""@ + name + "\"\ninstall_date = \""@ + rfc3339_label_of(now)
        + "\"\nversion = \"1.0\"\nbootable = true\n"@
}

/// The metadata file as a file of the tree.
pub open spec fn config_file(name: Seq<char>, now: u64) -> FileView {
    FileView { name: "dos_safar_config.toml"@, content: bytes_of(config_text(name, now)) }
}

/// The boot-dispatch script an install writes.
pub open spec fn boot_script_text(name: Seq<char>) -> Seq<char> {
    "#!/bin/bash\nexport DOS_SAFAR_OS=\""@ + name + "\"\nexec /sbin/init\n"@
}

/// The boot-dispatch script as a file of the tree.
pub open spec fn boot_script_file(name: Seq<char>) -> FileView {
    FileView { name: "boot.sh"@, content: bytes_of(boot_script_text(name)) }
}

/// The small-screen display settings written on gaming handhelds.
pub open spec fn display_text() -> Seq<char> {
    "hdmi_force_hotplug=1\nhdmi_group=2\nhdmi_mode=87\nhdmi_cvt=480 320 60 6 0 0 0\ndisplay_rotate=0\n"@
}

/// The display settings as a file of the tree.
pub open spec fn display_config_file() -> FileView {
    FileView { name: "display_config.txt"@, content: bytes_of(display_text()) }
}

/// The GPU tuning lines appended to a Raspberry Pi `config.txt` that does not
/// set a GPU memory split yet.
pub open spec fn gpu_suffix() -> Seq<u8> {
    "\ngpu_mem=128\ngpu_freq=500\nover_voltage=2\n".spec_bytes()
}

/// The Raspberry Pi optimization pass: a `config.txt` that does not mention
/// `gpu_mem` gains the GPU tuning lines; every other file is untouched.
pub open spec fn rpi_optimized(files: Seq<FileView>) -> Seq<FileView> {
    files.map_values(
        |f: FileView|
            if f.name == "config.txt"@ && !contains_bytes(f.content, "gpu_mem".spec_bytes()) {
                FileView { name: f.name, content: f.content + gpu_suffix() }
            } else {
                f
            },
    )
}

/// What an install leaves in the new directory: the extracted payload, then
/// the metadata file, then the device passes (GPU tuning on a Raspberry Pi,
/// which edits an existing `config.txt` in place; display settings on a
/// gaming handheld), then the boot-dispatch script.
pub open spec fn installed_image(
    payload: Seq<FileView>,
    raspberry_pi: bool,
    gaming_handheld: bool,
    name: Seq<char>,
    now: u64,
) -> Seq<FileView> {
    let with_config = payload.push(config_file(name, now));
    let tuned = if raspberry_pi {
        rpi_optimized(with_config)
    } else {
        with_config
    };
    let with_display = if gaming_handheld {
        tuned.push(display_config_file())
    } else {
        tuned
    };
    with_display.push(boot_script_file(name))
}

fn make_config_file(name: &str, now: u64) -> (r: NamedFile)
    requires
        now < TIMESTAMP_LIMIT,
    ensures
        r@ == config_file(name@, now),
{
    let date = format_rfc3339(now);
    let text = String::from_str("[system]\nname = \"").concat(name).concat(
        "\"\ninstall_date = \"",
    ).concat(date.as_str()).concat("\"\nversion = \"1.0\"\nbootable = true\n");
    proof {
        assert(text@ =~= config_text(name@, now));
    }
    let content = text.as_str().as_bytes_vec();
    NamedFile { name: String::from_str("dos_safar_config.toml"), content }
}

fn make_boot_script(name: &str) -> (r: NamedFile)
    ensures
        r@ == boot_script_file(name@),
{
    let text = String::from_str("#!/bin/bash\nexport DOS_SAFAR_OS=\"").concat(name).concat(
        "\"\nexec /sbin/init\n",
    );
    proof {
        assert(text@ =~= boot_script_text(name@));
    }
    let content = text.as_str().as_bytes_vec();
    NamedFile { name: String::from_str("boot.sh"), content }
}

fn make_display_config() -> (r: NamedFile)
    ensures
        r@ == display_config_file(),
{
    let text = String::from_str(
        "hdmi_force_hotplug=1\nhdmi_group=2\nhdmi_mode=87\nhdmi_cvt=480 320 60 6 0 0 0\ndisplay_rotate=0\n",
    );
    let content = text.as_str().as_bytes_vec();
    NamedFile { name: String::from_str("display_config.txt"), content }
}

/// Apply the Raspberry Pi GPU tuning pass to a directory tree.
pub fn apply_raspberry_pi_optimizations(img: &DirImage) -> (r: DirImage)
    ensures
        r@ == rpi_optimized(img@),
{
    let mut files: Vec<NamedFile> = Vec::new();
    let mut i: usize = 0;
    while i < img.files.len()
        invariant
            i <= img.files@.len(),
            files@.map_values(|f: NamedFile| f@) =~= rpi_optimized(img@.take(i as int)),
        decreases img.files@.len() - i,
    {
        let ghost pre = files@;
        let f = &img.files[i];
        let needs_tuning = str_eq(f.name.as_str(), "config.txt") && !crate::text::find_sub(
            &f.content,
            &String::from_str("gpu_mem").as_str().as_bytes_vec(),
        );
        if needs_tuning {
            let mut content = copy_bytes(&f.content);
            let mut suffix = String::from_str(
                "\ngpu_mem=128\ngpu_freq=500\nover_voltage=2\n",
            ).as_str().as_bytes_vec();
            content.append(&mut suffix);
            files.push(NamedFile { name: f.name.clone(), content });
        } else {
            files.push(NamedFile { name: f.name.clone(), content: copy_bytes(&f.content) });
        }
        i = i + 1;
        proof {
            assert(files@.map_values(|g: NamedFile| g@) =~= pre.map_values(
                |g: NamedFile| g@,
            ).push(files@.last()@));
            assert(rpi_optimized(img@.take(i as int)) =~= rpi_optimized(img@.take(i - 1)).push(
                rpi_optimized(img@)[i - 1],
            ));
        }
    }
    proof {
        assert(img@.take(i as int) =~= img@);
    }
    DirImage { files }
}

/// `a`, a separator, and `b`: how paths under a root are written.
pub open spec fn path_joined(a: Seq<char>, b: Seq<char>) -> Seq<char> {
    a + "/"@ + b
}

fn path_join(a: &str, b: &str) -> (r: String)
    ensures
        r@ == path_joined(a@, b@),
{
    let r = String::from_str(a).concat("/").concat(b);
    proof {
        assert(r@ =~= path_joined(a@, b@));
    }
    r
}

/// The clamped whole-megabyte size of a tree, as recorded in the registry.
pub open spec fn size_mb_clamped(files: Seq<FileView>) -> u64 {
    if bytes_to_mb(tree_size_bytes(files)) > u64::MAX {
        u64::MAX
    } else {
        bytes_to_mb(tree_size_bytes(files)) as u64
    }
}

/// The registry record an install (or re-registration) writes for a freshly
/// placed directory.
pub open spec fn install_record(name: Seq<char>, path: Seq<char>, now: u64, files: Seq<FileView>) -> RecordView {
    RecordView {
        name: name,
        path: path,
        install_time: now,
        last_used: None,
        bootable: true,
        size_mb: size_mb_clamped(files),
    }
}

/// The record a backup writes: archive named `{name}_{YYYYMMDD_HHMMSS}.tar.gz`
/// under the backup root, size in whole megabytes of the archive file, and
/// the bootable flag carried from the directory.
pub open spec fn backup_record_view(
    name: Seq<char>,
    now: u64,
    archive_size_bytes: u64,
    backup_root: Seq<char>,
    bootable: bool,
) -> BackupView {
    BackupView {
        os_name: name,
        backup_date: now,
        backup_size_mb: (archive_size_bytes / 1024 / 1024) as u64,
        backup_path: path_joined(
            backup_root,
            name + "_"@ + timestamp_label_of(now) + ".tar.gz"@,
        ),
        is_bootable: bootable,
    }
}

// ---------- The manager ----------

/// The OS lifecycle manager. It owns the model of the install tree, the
/// backup tree, the registry and the boot configuration; the two device
/// flags select install-time optimizations.
pub struct OSManager {
    pub raspberry_pi: bool,
    pub gaming_handheld: bool,
    pub os_storage_path: String,
    pub boot_partition_path: String,
    pub backup_path: String,
    pub installed: Vec<InstalledSystem>,
    pub archives: Vec<ArchiveEntry>,
    pub registry: Registry,
    pub boot_config: BootConfiguration,
}

impl OSManager {
    /// Installed names are unique and the registry is well formed.
    pub open spec fn wf(&self) -> bool {
        sys_names_distinct(sys_views(self.installed@)) && self.registry.wf()
    }

    /// Everything an operation does not touch: device flags and roots.
    pub open spec fn same_frame(&self, other: &OSManager) -> bool {
        &&& self.raspberry_pi == other.raspberry_pi
        &&& self.gaming_handheld == other.gaming_handheld
        &&& self.os_storage_path == other.os_storage_path
        &&& self.boot_partition_path == other.boot_partition_path
        &&& self.backup_path == other.backup_path
    }

    /// A fresh manager over the fixed storage roots, with nothing installed
    /// and an empty registry.
    pub fn new(raspberry_pi: bool, gaming_handheld: bool) -> (r: OSManager)
        ensures
            r.wf(),
            r.raspberry_pi == raspberry_pi,
            r.gaming_handheld == gaming_handheld,
            r.os_storage_path@ == "/boot/dos_safar/systems"@,
            r.boot_partition_path@ == "/boot"@,
            r.backup_path@ == "/boot/dos_safar/backups"@,
            r.installed@.len() == 0,
            r.archives@.len() == 0,
            r.registry@ == Map::<Seq<char>, RecordView>::empty(),
            r.boot_config.default_os is None,
    {
        OSManager {
            raspberry_pi,
            gaming_handheld,
            os_storage_path: String::from_str("/boot/dos_safar/systems"),
            boot_partition_path: String::from_str("/boot"),
            backup_path: String::from_str("/boot/dos_safar/backups"),
            installed: Vec::new(),
            archives: Vec::new(),
            registry: Registry::new(),
            boot_config: BootConfiguration::default_boot_configuration(),
        }
    }

    /// Adopt a system discovered on disk into the model. A name already held
    /// is kept as it is — the first reading wins.
    pub fn adopt_system(&mut self, sys: InstalledSystem)
        requires
            old(self).wf(),
        ensures
            final(self).wf(),
            final(self).same_frame(old(self)),
            final(self).archives@ == old(self).archives@,
            final(self).registry@ == old(self).registry@,
            final(self).boot_config == old(self).boot_config,
            !has_system(sys_views(old(self).installed@), sys@.name) ==> sys_views(
                final(self).installed@,
            ) == sys_views(old(self).installed@).push(sys@),
            has_system(sys_views(old(self).installed@), sys@.name) ==> final(self).installed@
                == old(self).installed@,
    {
        let ghost pre = sys_views(self.installed@);
        match self.find_system(sys.name.as_str()) {
            Some(_) => {},
            None => {
                let ghost sv = sys@;
                self.installed.push(sys);
                proof {
                    assert(sys_views(self.installed@) =~= pre.push(sv));
                    assert forall|p: int, q: int|
                        0 <= p < q < sys_views(self.installed@).len() implies (
                    #[trigger] sys_views(self.installed@)[p]).name != (
                    #[trigger] sys_views(self.installed@)[q]).name by {
                        if q == sys_views(self.installed@).len() - 1 {
                            assert(pre[p].name != sv.name);
                        }
                    }
                }
            },
        }
    }

    /// Adopt an archive discovered in the backup root into the model.
    pub fn adopt_archive(&mut self, entry: ArchiveEntry)
        requires
            old(self).wf(),
        ensures
            final(self).wf(),
            final(self).same_frame(old(self)),
            final(self).installed@ == old(self).installed@,
            final(self).registry@ == old(self).registry@,
            final(self).boot_config == old(self).boot_config,
            archive_views(final(self).archives@) == archive_views(old(self).archives@).push(
                entry@,
            ),
    {
        let ghost pre = archive_views(self.archives@);
        let ghost ev = entry@;
        self.archives.push(entry);
        proof {
            assert(archive_views(self.archives@) =~= pre.push(ev));
        }
    }

    /// Load the persisted registry records. Records repeating a name are
    /// dropped, so a corrupt store degrades rather than failing.
    pub fn load_registry(&mut self, records: Vec<RegistryRecord>)
        requires
            old(self).wf(),
        ensures
            final(self).wf(),
            final(self).same_frame(old(self)),
            final(self).installed@ == old(self).installed@,
            final(self).archives@ == old(self).archives@,
            final(self).boot_config == old(self).boot_config,
            forall|n: Seq<char>| #[trigger]
                final(self).registry@.dom().contains(n) == exists|i: int|
                    0 <= i < records@.len() && (#[trigger] records@[i]).name@ == n,
    {
        self.registry = Registry::from_records(records);
    }

    /// Load the persisted boot configuration.
    pub fn load_boot_configuration(&mut self, config: BootConfiguration)
        requires
            old(self).wf(),
        ensures
            final(self).wf(),
            final(self).same_frame(old(self)),
            final(self).installed@ == old(self).installed@,
            final(self).archives@ == old(self).archives@,
            final(self).registry@ == old(self).registry@,
            final(self).boot_config == config,
    {
        self.boot_config = config;
    }

    /// The position of the installed system bearing this name.
    fn find_system(&self, name: &str) -> (r: Option<usize>)
        ensures
            match r {
                Some(i) => i < self.installed@.len() && sys_views(self.installed@)[i as int].name
                    == name@,
                None => !has_system(sys_views(self.installed@), name@),
            },
    {
        let mut i: usize = 0;
        while i < self.installed.len()
            invariant
                i <= self.installed@.len(),
                forall|k: int| 0 <= k < i ==> sys_views(self.installed@)[k].name != name@,
            decreases self.installed@.len() - i,
        {
            if str_eq(self.installed[i].name.as_str(), name) {
                return Some(i);
            }
            i = i + 1;
        }
        return None;
    }

    /// Whether a system of this name is installed.
    pub fn os_exists(&self, name: &str) -> (r: bool)
        ensures
            r == has_system(sys_views(self.installed@), name@),
    {
        match self.find_system(name) {
            Some(_) => true,
            None => false,
        }
    }

    /// Install an OS payload under a name. The caller read the source and ran
    /// the extraction strategy for its container type; both observations come
    /// in as `source`. An unreadable source fails with `SourceUnavailable`
    /// and changes nothing. Any directory already installed under the name is
    /// deleted before the new payload is placed, so a failing extraction tool
    /// leaves no directory under the name and the registry untouched. On
    /// success the new directory holds the configured payload — bootable, by
    /// its boot-dispatch script — and the registry binds the name to a fresh
    /// record.
    pub fn install_os_from_image(&mut self, os_name: &str, source: &InstallSource, now: u64) -> (r:
        Result<(), LifecycleError>)
        requires
            old(self).wf(),
            now < TIMESTAMP_LIMIT,
        ensures
            final(self).wf(),
            final(self).same_frame(old(self)),
            final(self).archives@ == old(self).archives@,
            final(self).boot_config == old(self).boot_config,
            match r {
                Ok(()) => {
                    let image = installed_image(
                        source.payload@,
                        old(self).raspberry_pi,
                        old(self).gaming_handheld,
                        os_name@,
                        now,
                    );
                    let path = path_joined(old(self).os_storage_path@, os_name@);
                    &&& source.readable
                    &&& source.extract_ok
                    &&& sys_views(final(self).installed@) == remove_system(
                        sys_views(old(self).installed@),
                        os_name@,
                    ).push(SystemView { name: os_name@, path: path, image: image })
                    &&& final(self).registry@ == old(self).registry@.insert(
                        os_name@,
                        install_record(os_name@, path, now, image),
                    )
                },
                Err(LifecycleError::SourceUnavailable) => !source.readable && *final(self)
                    == *old(self),
                Err(LifecycleError::ExternalToolFailure(msg)) => source.readable
                    && !source.extract_ok && msg@ == source.tool_stderr@ && sys_views(
                    final(self).installed@,
                ) == remove_system(sys_views(old(self).installed@), os_name@)
                    && final(self).registry@ == old(self).registry@,
                _ => false,
            },
    {
        if !source.readable {
            return Err(LifecycleError::SourceUnavailable);
        }

        // a directory already installed under the name is deleted first
        let ghost old_views = sys_views(self.installed@);
        match self.find_system(os_name) {
            Some(i) => {
                self.installed.remove(i);
                proof {
                    lemma_remove_at(old_views, os_name@, i as int);
                    assert(sys_views(self.installed@) =~= old_views.remove(i as int));
                }
            },
            None => {
                proof {
                    lemma_remove_absent(old_views, os_name@);
                }
            },
        }
        proof {
            assert(sys_views(self.installed@) == remove_system(old_views, os_name@));
            if has_system(old_views, os_name@) {
                let i = choose|i: int| 0 <= i < old_views.len() && old_views[i].name == os_name@;
                lemma_remove_at(old_views, os_name@, i);
            } else {
                lemma_remove_absent(old_views, os_name@);
            }
            assert(!has_system(sys_views(self.installed@), os_name@));
            assert(sys_names_distinct(sys_views(self.installed@)));
        }

        if !source.extract_ok {
            return Err(LifecycleError::ExternalToolFailure(source.tool_stderr.clone()));
        }

        // place the extracted payload and run the configuration passes
        let mut img = source.payload.clone_image();
        img.files.push(make_config_file(os_name, now));
        proof {
            assert(img@ =~= source.payload@.push(config_file(os_name@, now)));
        }
        if self.raspberry_pi {
            img = apply_raspberry_pi_optimizations(&img);
        }
        if self.gaming_handheld {
            let ghost pre = img@;
            img.files.push(make_display_config());
            proof {
                assert(img@ =~= pre.push(display_config_file()));
            }
        }
        let ghost pre = img@;
        img.files.push(make_boot_script(os_name));
        proof {
            assert(img@ =~= pre.push(boot_script_file(os_name@)));
            assert(img@ == installed_image(
                source.payload@,
                self.raspberry_pi,
                self.gaming_handheld,
                os_name@,
                now,
            ));
        }

        let path = path_join(self.os_storage_path.as_str(), os_name);
        let size_mb = calculate_directory_size(&img);
        let ghost mid_views = sys_views(self.installed@);
        self.installed.push(
            InstalledSystem { name: String::from_str(os_name), path: path.clone(), image: img },
        );
        proof {
            assert(sys_views(self.installed@) =~= mid_views.push(
                self.installed@.last()@,
            ));
            assert forall|p: int, q: int|
                0 <= p < q < sys_views(self.installed@).len() implies (
            #[trigger] sys_views(self.installed@)[p]).name != (
            #[trigger] sys_views(self.installed@)[q]).name by {
                if q == sys_views(self.installed@).len() - 1 {
                    assert(mid_views[p].name != os_name@);
                }
            }
        }
        self.registry.register(
            RegistryRecord {
                name: String::from_str(os_name),
                path: path,
                install_time: now,
                last_used: None,
                bootable: true,
                size_mb,
            },
        );
        Ok(())
    }

    /// Create a backup of an installed system: a timestamp-named compressed
    /// archive of its directory. The caller ran the archiving tool and hands
    /// in its outcome. The record's size comes from the archive's byte
    /// length; its bootable flag is carried from the directory at backup
    /// time. The installed directory and the registry are never touched, and
    /// nothing changes at all unless the archive was written.
    pub fn backup_os(&mut self, os_name: &str, now: u64, tar: &ArchiveOutcome) -> (r: Result<
        OSBackup,
        LifecycleError,
    >)
        requires
            old(self).wf(),
            now < TIMESTAMP_LIMIT,
        ensures
            final(self).wf(),
            final(self).same_frame(old(self)),
            final(self).installed@ == old(self).installed@,
            final(self).registry@ == old(self).registry@,
            final(self).boot_config == old(self).boot_config,
            match r {
                Ok(b) => {
                    let sys = system_at(sys_views(old(self).installed@), os_name@);
                    &&& has_system(sys_views(old(self).installed@), os_name@)
                    &&& *tar matches ArchiveOutcome::Archived { size_bytes } && b@
                        == backup_record_view(
                        os_name@,
                        now,
                        size_bytes,
                        old(self).backup_path@,
                        image_bootable(sys.image),
                    )
                    &&& archive_views(final(self).archives@) == archive_views(
                        old(self).archives@,
                    ).push(ArchiveView { record: b@, image: sys.image })
                },
                Err(LifecycleError::NotFound) => !has_system(
                    sys_views(old(self).installed@),
                    os_name@,
                ) && *final(self) == *old(self),
                Err(LifecycleError::ExternalToolFailure(msg)) => has_system(
                    sys_views(old(self).installed@),
                    os_name@,
                ) && (*tar matches ArchiveOutcome::Failed { stderr } && msg@ == stderr@)
                    && *final(self) == *old(self),
                _ => false,
            },
    {
        let idx = match self.find_system(os_name) {
            None => {
                return Err(LifecycleError::NotFound);
            },
            Some(i) => i,
        };
        proof {
            lemma_system_at(sys_views(self.installed@), os_name@, idx as int);
        }
        match tar {
            ArchiveOutcome::Failed { stderr } => {
                return Err(LifecycleError::ExternalToolFailure(stderr.clone()));
            },
            ArchiveOutcome::Archived { size_bytes } => {
                let label = format_compact_timestamp(now);
                let file_name = String::from_str(os_name).concat("_").concat(label.as_str()).concat(
                    ".tar.gz",
                );
                let path = path_join(self.backup_path.as_str(), file_name.as_str());
                proof {
                    assert(file_name@ =~= os_name@ + "_"@ + timestamp_label_of(now) + ".tar.gz"@);
                }
                let bootable = is_bootable(&self.installed[idx].image);
                let record = OSBackup {
                    os_name: String::from_str(os_name),
                    backup_date: now,
                    backup_size_mb: *size_bytes / 1024 / 1024,
                    backup_path: path,
                    is_bootable: bootable,
                };
                let image = self.installed[idx].image.clone_image();
                let out = record.clone_backup();
                let ghost pre = archive_views(self.archives@);
                self.archives.push(ArchiveEntry { record, image });
                proof {
                    assert(archive_views(self.archives@) =~= pre.push(
                        self.archives@.last()@,
                    ));
                }
                Ok(out)
            },
        }
    }

    /// Restore a system from a backup record. The caller ran the extraction
    /// tool on the archive and hands in its outcome. A record whose archive
    /// is not in the backup root fails with `NotFound` and changes nothing.
    /// Any directory installed under the record's name is deleted first; on
    /// success the archived tree is placed back under the name and the name
    /// is re-registered, overwriting prior registry metadata.
    pub fn restore_os_from_backup(&mut self, backup: &OSBackup, now: u64, tar: &ToolOutcome) -> (r:
        Result<(), LifecycleError>)
        requires
            old(self).wf(),
        ensures
            final(self).wf(),
            final(self).same_frame(old(self)),
            final(self).archives@ == old(self).archives@,
            final(self).boot_config == old(self).boot_config,
            match r {
                Ok(()) => {
                    let arch = last_archive(
                        archive_views(old(self).archives@),
                        backup.backup_path@,
                    );
                    let path = path_joined(old(self).os_storage_path@, backup.os_name@);
                    &&& has_archive(archive_views(old(self).archives@), backup.backup_path@)
                    &&& *tar is Success
                    &&& sys_views(final(self).installed@) == remove_system(
                        sys_views(old(self).installed@),
                        backup.os_name@,
                    ).push(SystemView { name: backup.os_name@, path: path, image: arch.image })
                    &&& final(self).registry@ == old(self).registry@.insert(
                        backup.os_name@,
                        install_record(backup.os_name@, path, now, arch.image),
                    )
                },
                Err(LifecycleError::NotFound) => !has_archive(
                    archive_views(old(self).archives@),
                    backup.backup_path@,
                ) && *final(self) == *old(self),
                Err(LifecycleError::ExternalToolFailure(msg)) => has_archive(
                    archive_views(old(self).archives@),
                    backup.backup_path@,
                ) && (*tar matches ToolOutcome::Failure { stderr } && msg@ == stderr@)
                    && sys_views(final(self).installed@) == remove_system(
                    sys_views(old(self).installed@),
                    backup.os_name@,
                ) && final(self).registry@ == old(self).registry@,
                _ => false,
            },
    {
        let idx = match self.find_archive(backup.backup_path.as_str()) {
            None => {
                return Err(LifecycleError::NotFound);
            },
            Some(i) => i,
        };

        // the directory currently under the name is deleted first
        let ghost old_views = sys_views(self.installed@);
        match self.find_system(backup.os_name.as_str()) {
            Some(i) => {
                self.installed.remove(i);
                proof {
                    lemma_remove_at(old_views, backup.os_name@, i as int);
                    assert(sys_views(self.installed@) =~= old_views.remove(i as int));
                }
            },
            None => {
                proof {
                    lemma_remove_absent(old_views, backup.os_name@);
                }
            },
        }
        proof {
            if has_system(old_views, backup.os_name@) {
                let i = choose|i: int|
                    0 <= i < old_views.len() && old_views[i].name == backup.os_name@;
                lemma_remove_at(old_views, backup.os_name@, i);
            } else {
                lemma_remove_absent(old_views, backup.os_name@);
            }
            assert(!has_system(sys_views(self.installed@), backup.os_name@));
        }

        match tar {
            ToolOutcome::Failure { stderr } => {
                return Err(LifecycleError::ExternalToolFailure(stderr.clone()));
            },
            ToolOutcome::Success => {},
        }

        let image = self.archives[idx].image.clone_image();
        let path = path_join(self.os_storage_path.as_str(), backup.os_name.as_str());
        let size_mb = calculate_directory_size(&image);
        let ghost mid_views = sys_views(self.installed@);
        self.installed.push(
            InstalledSystem {
                name: backup.os_name.clone(),
                path: path.clone(),
                image,
            },
        );
        proof {
            assert(sys_views(self.installed@) =~= mid_views.push(self.installed@.last()@));
            assert forall|p: int, q: int|
                0 <= p < q < sys_views(self.installed@).len() implies (
            #[trigger] sys_views(self.installed@)[p]).name != (
            #[trigger] sys_views(self.installed@)[q]).name by {
                if q == sys_views(self.installed@).len() - 1 {
                    assert(mid_views[p].name != backup.os_name@);
                }
            }
        }
        self.registry.register(
            RegistryRecord {
                name: backup.os_name.clone(),
                path: path,
                install_time: now,
                last_used: None,
                bootable: true,
                size_mb,
            },
        );
        Ok(())
    }

    /// Remove an installed system, optionally taking a backup first. When a
    /// backup is requested it must succeed before anything is deleted: a
    /// failing archiving tool aborts the removal with the tool's error and
    /// the system stays intact. On success the directory is gone and the
    /// name unregistered; with a backup requested, the backup root has
    /// gained an archive of the directory as it stood.
    pub fn remove_os(&mut self, os_name: &str, create_backup: bool, now: u64, tar: &ArchiveOutcome)
        -> (r: Result<(), LifecycleError>)
        requires
            old(self).wf(),
            now < TIMESTAMP_LIMIT,
        ensures
            final(self).wf(),
            final(self).same_frame(old(self)),
            final(self).boot_config == old(self).boot_config,
            match r {
                Ok(()) => {
                    let sys = system_at(sys_views(old(self).installed@), os_name@);
                    &&& has_system(sys_views(old(self).installed@), os_name@)
                    &&& sys_views(final(self).installed@) == remove_system(
                        sys_views(old(self).installed@),
                        os_name@,
                    )
                    &&& final(self).registry@ == old(self).registry@.remove(os_name@)
                    &&& if create_backup {
                        *tar matches ArchiveOutcome::Archived { size_bytes }
                            && archive_views(final(self).archives@) == archive_views(
                            old(self).archives@,
                        ).push(
                            ArchiveView {
                                record: backup_record_view(
                                    os_name@,
                                    now,
                                    size_bytes,
                                    old(self).backup_path@,
                                    image_bootable(sys.image),
                                ),
                                image: sys.image,
                            },
                        )
                    } else {
                        final(self).archives@ == old(self).archives@
                    }
                },
                Err(LifecycleError::NotFound) => !has_system(
                    sys_views(old(self).installed@),
                    os_name@,
                ) && *final(self) == *old(self),
                Err(LifecycleError::ExternalToolFailure(msg)) => create_backup && has_system(
                    sys_views(old(self).installed@),
                    os_name@,
                ) && (*tar matches ArchiveOutcome::Failed { stderr } && msg@ == stderr@)
                    && *final(self) == *old(self),
                _ => false,
            },
    {
        if !self.os_exists(os_name) {
            return Err(LifecycleError::NotFound);
        }

        // the backup must be in place before anything is deleted
        if create_backup {
            match self.backup_os(os_name, now, tar) {
                Ok(_) => {},
                Err(e) => {
                    return Err(e);
                },
            }
        }

        let ghost old_views = sys_views(self.installed@);
        match self.find_system(os_name) {
            Some(i) => {
                self.installed.remove(i);
                proof {
                    lemma_remove_at(old_views, os_name@, i as int);
                    assert(sys_views(self.installed@) =~= old_views.remove(i as int));
                }
            },
            None => {
                proof {
                    lemma_remove_absent(old_views, os_name@);
                }
            },
        }
        self.registry.unregister(os_name);
        Ok(())
    }

    /// Update an installed system from a source, all or nothing. A backup is
    /// always taken first; if the backup step fails, the update fails at once
    /// and nothing has changed. Then the update step (read the source, run
    /// its extraction into the directory, re-run the configuration passes) is
    /// attempted; on any failure the directory is automatically restored from
    /// the backup just taken and the original failure is returned — and if
    /// that rollback itself fails, both failures are surfaced together. On
    /// success the backup is retained.
    pub fn update_os(
        &mut self,
        os_name: &str,
        source: &InstallSource,
        now: u64,
        backup_tar: &ArchiveOutcome,
        restore_tar: &ToolOutcome,
    ) -> (r: Result<(), UpdateFailure>)
        requires
            old(self).wf(),
            now < TIMESTAMP_LIMIT,
        ensures
            final(self).wf(),
            final(self).same_frame(old(self)),
            final(self).boot_config == old(self).boot_config,
            match r {
                Ok(()) => {
                    let sys = system_at(sys_views(old(self).installed@), os_name@);
                    let image = installed_image(
                        source.payload@,
                        old(self).raspberry_pi,
                        old(self).gaming_handheld,
                        os_name@,
                        now,
                    );
                    &&& has_system(sys_views(old(self).installed@), os_name@)
                    &&& *backup_tar matches ArchiveOutcome::Archived { size_bytes }
                        && archive_views(final(self).archives@) == archive_views(
                        old(self).archives@,
                    ).push(
                        ArchiveView {
                            record: backup_record_view(
                                os_name@,
                                now,
                                size_bytes,
                                old(self).backup_path@,
                                image_bootable(sys.image),
                            ),
                            image: sys.image,
                        },
                    )
                    &&& source.readable && source.extract_ok
                    &&& sys_views(final(self).installed@) == remove_system(
                        sys_views(old(self).installed@),
                        os_name@,
                    ).push(SystemView { name: os_name@, path: sys.path, image: image })
                    &&& final(self).registry@ == old(self).registry@
                },
                Err(f) => update_failure_holds(*old(self), *final(self), f, os_name@, *source, now, *backup_tar, *restore_tar),
            },
    {
        // take the safety backup; its failure fails the update at once
        let backup = match self.backup_os(os_name, now, backup_tar) {
            Ok(b) => b,
            Err(e) => {
                return Err(UpdateFailure { original: e, rollback: None });
            },
        };

        // attempt the update step on the directory
        let step_error: LifecycleError;
        if !source.readable {
            step_error = LifecycleError::SourceUnavailable;
        } else if !source.extract_ok {
            step_error = LifecycleError::ExternalToolFailure(source.tool_stderr.clone());
        } else {
            // replace the directory's contents with the configured payload
            let idx = match self.find_system(os_name) {
                Some(i) => i,
                None => {
                    proof {
                        assert(false);
                    }
                    return Err(UpdateFailure { original: LifecycleError::NotFound, rollback: None });
                },
            };
            let ghost views0 = sys_views(self.installed@);
            proof {
                lemma_system_at(views0, os_name@, idx as int);
            }
            let path = self.installed[idx].path.clone();
            self.installed.remove(idx);
            proof {
                lemma_remove_at(views0, os_name@, idx as int);
                assert(sys_views(self.installed@) =~= views0.remove(idx as int));
            }
            let mut img = source.payload.clone_image();
            img.files.push(make_config_file(os_name, now));
            proof {
                assert(img@ =~= source.payload@.push(config_file(os_name@, now)));
            }
            if self.raspberry_pi {
                img = apply_raspberry_pi_optimizations(&img);
            }
            if self.gaming_handheld {
                let ghost pre = img@;
                img.files.push(make_display_config());
                proof {
                    assert(img@ =~= pre.push(display_config_file()));
                }
            }
            let ghost pre = img@;
            img.files.push(make_boot_script(os_name));
            proof {
                assert(img@ =~= pre.push(boot_script_file(os_name@)));
            }
            let ghost mid_views = sys_views(self.installed@);
            self.installed.push(
                InstalledSystem { name: String::from_str(os_name), path, image: img },
            );
            proof {
                assert(sys_views(self.installed@) =~= mid_views.push(self.installed@.last()@));
                assert forall|p: int, q: int|
                    0 <= p < q < sys_views(self.installed@).len() implies (
                #[trigger] sys_views(self.installed@)[p]).name != (
                #[trigger] sys_views(self.installed@)[q]).name by {
                    if q == sys_views(self.installed@).len() - 1 {
                        assert(mid_views[p].name != os_name@);
                    }
                }
            }
            return Ok(());
        }

        // the update step failed: roll back from the backup just taken
        match self.restore_os_from_backup(&backup, now, restore_tar) {
            Ok(()) => Err(UpdateFailure { original: step_error, rollback: None }),
            Err(re) => Err(UpdateFailure { original: step_error, rollback: Some(re) }),
        }
    }

    /// Set the default OS of the boot configuration. The name must denote an
    /// installed system; the caller persists the mutated configuration.
    pub fn set_default_os(&mut self, os_name: &str) -> (r: Result<(), LifecycleError>)
        requires
            old(self).wf(),
        ensures
            final(self).wf(),
            final(self).same_frame(old(self)),
            final(self).installed@ == old(self).installed@,
            final(self).archives@ == old(self).archives@,
            final(self).registry@ == old(self).registry@,
            match r {
                Ok(()) => {
                    &&& has_system(sys_views(old(self).installed@), os_name@)
                    &&& (final(self).boot_config.default_os matches Some(d) && d@ == os_name@)
                    &&& final(self).boot_config.timeout_seconds == old(
                        self,
                    ).boot_config.timeout_seconds
                    &&& final(self).boot_config.available_systems == old(
                        self,
                    ).boot_config.available_systems
                    &&& final(self).boot_config.boot_order == old(self).boot_config.boot_order
                    &&& final(self).boot_config.recovery_mode == old(
                        self,
                    ).boot_config.recovery_mode
                },
                Err(LifecycleError::NotFound) => !has_system(
                    sys_views(old(self).installed@),
                    os_name@,
                ) && *final(self) == *old(self),
                _ => false,
            },
    {
        if !self.os_exists(os_name) {
            return Err(LifecycleError::NotFound);
        }
        self.boot_config.default_os = Some(String::from_str(os_name));
        Ok(())
    }

    /// Run the maintenance passes over an installed system. The passes only
    /// touch caches and indexes, never the payload, so the state is
    /// unchanged; a name that is not installed fails with `NotFound`.
    pub fn optimize_os(&self, os_name: &str) -> (r: Result<(), LifecycleError>)
        ensures
            match r {
                Ok(()) => has_system(sys_views(self.installed@), os_name@),
                Err(LifecycleError::NotFound) => !has_system(
                    sys_views(self.installed@),
                    os_name@,
                ),
                _ => false,
            },
    {
        if !self.os_exists(os_name) {
            return Err(LifecycleError::NotFound);
        }
        Ok(())
    }

    /// Record that a system was just booted into: its registry record, if
    /// any, gets the time as its last-used stamp.
    pub fn mark_os_used(&mut self, os_name: &str, now: u64)
        requires
            old(self).wf(),
        ensures
            final(self).wf(),
            final(self).same_frame(old(self)),
            final(self).installed@ == old(self).installed@,
            final(self).archives@ == old(self).archives@,
            final(self).boot_config == old(self).boot_config,
            old(self).registry@.dom().contains(os_name@) ==> final(self).registry@ == old(
                self,
            ).registry@.insert(
                os_name@,
                RecordView { last_used: Some(now), ..old(self).registry@[os_name@] },
            ),
            !old(self).registry@.dom().contains(os_name@) ==> final(self).registry@ == old(
                self,
            ).registry@,
    {
        self.registry.mark_last_used(os_name, now);
    }

    /// The ordered catalog of the installed systems: every installed
    /// directory classified and listed, reconciled with the registry (the
    /// registry supplies the last-used stamp), most recently used first.
    pub fn get_available_systems(&self) -> (r: Vec<OperatingSystem>)
        requires
            self.wf(),
        ensures
            entries_sorted(entry_views(r@)),
            names_distinct(entry_views(r@)),
            entry_views(r@).to_multiset() == catalog_of(
                sys_views(self.installed@),
                self.registry@,
            ).to_multiset(),
    {
        let ghost views = sys_views(self.installed@);
        let ghost cat = catalog_of(views, self.registry@);
        let mut entries: Vec<OperatingSystem> = Vec::new();
        let mut i: usize = 0;
        proof {
            assert(entry_views(entries@) =~= cat.take(0));
        }
        while i < self.installed.len()
            invariant
                self.wf(),
                i <= self.installed@.len(),
                views == sys_views(self.installed@),
                cat == catalog_of(views, self.registry@),
                entry_views(entries@) =~= cat.take(i as int),
            decreases self.installed@.len() - i,
        {
            let ghost pre = entry_views(entries@);
            let sys = &self.installed[i];
            let t = detect_os_type(&sys.image);
            let last_used: Option<u64> = match self.registry.get(sys.name.as_str()) {
                Some(rec) => rec.last_used,
                None => None,
            };
            let entry = OperatingSystem {
                name: sys.name.clone(),
                path: sys.path.clone(),
                description: crate::catalog::dir_entry_description_exec(t),
                os_type: t,
                is_bootable: is_bootable(&sys.image),
                last_used,
            };
            proof {
                assert(entry@ == system_entry(views[i as int], self.registry@));
            }
            entries.push(entry);
            i = i + 1;
            proof {
                assert(entry_views(entries@) =~= pre.push(entries@.last()@));
                assert(cat.take(i as int) =~= cat.take(i - 1).push(cat[i - 1]));
            }
        }
        proof {
            assert(cat.take(i as int) =~= cat);
            assert(names_distinct(entry_views(entries@))) by {
                assert forall|p: int, q: int|
                    0 <= p < q < cat.len() implies (#[trigger] cat[p]).name != (
                #[trigger] cat[q]).name by {
                    assert(views[p].name != views[q].name);
                }
            }
        }
        let sorted = sort_entries(entries);
        proof {
            lemma_names_distinct_perm(cat, entry_views(sorted@));
        }
        sorted
    }

    /// The backups on record, newest first; the archive path, ascending,
    /// breaks ties between backups of the same second.
    pub fn get_backups(&self) -> (r: Vec<OSBackup>)
        ensures
            backups_sorted(backup_views(r@)),
            backup_views(r@).to_multiset() == archive_records(
                archive_views(self.archives@),
            ).to_multiset(),
    {
        let mut records: Vec<OSBackup> = Vec::new();
        let mut i: usize = 0;
        proof {
            assert(backup_views(records@) =~= archive_records(
                archive_views(self.archives@),
            ).take(0));
        }
        while i < self.archives.len()
            invariant
                i <= self.archives@.len(),
                backup_views(records@) =~= archive_records(
                    archive_views(self.archives@),
                ).take(i as int),
            decreases self.archives@.len() - i,
        {
            let ghost pre = backup_views(records@);
            records.push(self.archives[i].record.clone_backup());
            i = i + 1;
            proof {
                let recs = archive_records(archive_views(self.archives@));
                assert(backup_views(records@) =~= pre.push(records@.last()@));
                assert(recs.take(i as int) =~= recs.take(i - 1).push(recs[i - 1]));
            }
        }
        proof {
            assert(archive_records(archive_views(self.archives@)).take(i as int) =~= archive_records(
                archive_views(self.archives@),
            ));
        }
        sort_backups(records)
    }

    /// The position of the newest archive stored under this path — the one
    /// whose file the archiving tool wrote last.
    fn find_archive(&self, path: &str) -> (r: Option<usize>)
        ensures
            match r {
                Some(i) => {
                    &&& i < self.archives@.len()
                    &&& archive_views(self.archives@)[i as int].record.backup_path == path@
                    &&& has_archive(archive_views(self.archives@), path@)
                    &&& last_archive(archive_views(self.archives@), path@) == archive_views(
                        self.archives@,
                    )[i as int]
                },
                None => !has_archive(archive_views(self.archives@), path@),
            },
    {
        let ghost a = archive_views(self.archives@);
        let mut i: usize = self.archives.len();
        while i > 0
            invariant
                i <= a.len(),
                a == archive_views(self.archives@),
                forall|k: int| i <= k < a.len() ==> (#[trigger] a[k]).record.backup_path != path@,
            decreases i,
        {
            i = i - 1;
            if str_eq(self.archives[i].record.backup_path.as_str(), path) {
                proof {
                    lemma_last_archive(a, path@, i as int);
                }
                return Some(i);
            }
        }
        proof {
            if has_archive(a, path@) {
                let k = choose|k: int| 0 <= k < a.len() && a[k].record.backup_path == path@;
                assert(a[k].record.backup_path != path@);
            }
        }
        return None;
    }
}

/// Some archive is stored under this path.
pub open spec fn has_archive(a: Seq<ArchiveView>, path: Seq<char>) -> bool {
    exists|i: int| 0 <= i < a.len() && a[i].record.backup_path == path
}

/// The newest archive stored under this path: a later backup to the same
/// path overwrote the earlier file.
pub open spec fn last_archive(a: Seq<ArchiveView>, path: Seq<char>) -> ArchiveView
    decreases a.len(),
    when a.len() > 0
{
    if a.last().record.backup_path == path || a.len() == 1 {
        a.last()
    } else {
        last_archive(a.drop_last(), path)
    }
}

proof fn lemma_last_archive(a: Seq<ArchiveView>, path: Seq<char>, i: int)
    requires
        0 <= i < a.len(),
        a[i].record.backup_path == path,
        forall|k: int| i < k < a.len() ==> (#[trigger] a[k]).record.backup_path != path,
    ensures
        last_archive(a, path) == a[i],
    decreases a.len(),
{
    if i == a.len() - 1 {
    } else {
        assert(a.last().record.backup_path != path);
        lemma_last_archive(a.drop_last(), path, i);
    }
}

/// The catalog entry one installed system contributes: the directory's
/// classification decides category and description, its boot markers the
/// bootable flag, and the registry supplies the last-used stamp.
pub open spec fn system_entry(sys: SystemView, reg: Map<Seq<char>, RecordView>) -> OsEntryView {
    OsEntryView {
        name: sys.name,
        path: sys.path,
        description: crate::catalog::dir_entry_description(classify_installed(sys.image)),
        os_type: classify_installed(sys.image),
        is_bootable: image_bootable(sys.image),
        last_used: if reg.dom().contains(sys.name) {
            reg[sys.name].last_used
        } else {
            None
        },
    }
}

/// The catalog entries of a row of installed systems.
pub open spec fn catalog_of(ss: Seq<SystemView>, reg: Map<Seq<char>, RecordView>) -> Seq<
    OsEntryView,
> {
    ss.map_values(|s: SystemView| system_entry(s, reg))
}

/// The views of a row of backup records.
pub open spec fn backup_views(s: Seq<OSBackup>) -> Seq<BackupView> {
    s.map_values(|b: OSBackup| b@)
}

/// The records of a row of archives.
pub open spec fn archive_records(a: Seq<ArchiveView>) -> Seq<BackupView> {
    a.map_values(|x: ArchiveView| x.record)
}

/// The order backups are listed in: newest first, the archive path ascending
/// as the tie-break.
pub open spec fn backup_lt(a: BackupView, b: BackupView) -> bool {
    b.backup_date < a.backup_date || (a.backup_date == b.backup_date && crate::text::lex_lt(
        a.backup_path,
        b.backup_path,
    ))
}

/// Non-strict companion of `backup_lt`.
pub open spec fn backup_le(a: BackupView, b: BackupView) -> bool {
    !backup_lt(b, a)
}

/// The backups are listed newest first.
pub open spec fn backups_sorted(s: Seq<BackupView>) -> bool {
    forall|i: int, j: int| 0 <= i < j < s.len() ==> backup_le(#[trigger] s[i], #[trigger] s[j])
}

proof fn lemma_backup_order(a: BackupView, b: BackupView, c: BackupView)
    ensures
        backup_lt(a, b) ==> !backup_lt(b, a),
        !backup_lt(a, a),
        backup_lt(a, b) && backup_lt(b, c) ==> backup_lt(a, c),
{
    crate::text::lemma_lex_trichotomy(a.backup_path, b.backup_path);
    crate::text::lemma_lex_trichotomy(a.backup_path, a.backup_path);
    if backup_lt(a, b) && backup_lt(b, c) {
        if a.backup_date == b.backup_date && b.backup_date == c.backup_date {
            crate::text::lemma_lex_trans(a.backup_path, b.backup_path, c.backup_path);
        }
    }
}

/// Sort backup records newest first. The result is a permutation of the
/// input.
pub fn sort_backups(input: Vec<OSBackup>) -> (r: Vec<OSBackup>)
    ensures
        backups_sorted(backup_views(r@)),
        backup_views(r@).to_multiset() == backup_views(input@).to_multiset(),
{
    broadcast use vstd::seq_lib::group_to_multiset_ensures;
    broadcast use vstd::multiset::group_multiset_axioms;

    let ghost orig = backup_views(input@).to_multiset();
    let mut rest = input;
    let mut out: Vec<OSBackup> = Vec::new();
    proof {
        assert(backup_views(out@) =~= Seq::<BackupView>::empty());
        assert(backup_views(out@).to_multiset().add(backup_views(rest@).to_multiset()) =~= orig);
    }
    while rest.len() > 0
        invariant
            backups_sorted(backup_views(out@)),
            backup_views(out@).to_multiset().add(backup_views(rest@).to_multiset()) == orig,
            forall|j: int, k: int|
                0 <= j < out@.len() && 0 <= k < rest@.len() ==> backup_le(
                    #[trigger] backup_views(out@)[j],
                    #[trigger] backup_views(rest@)[k],
                ),
        decreases rest@.len(),
    {
        let mut m: usize = 0;
        let mut k: usize = 1;
        proof {
            lemma_backup_order(rest@[0]@, rest@[0]@, rest@[0]@);
        }
        while k < rest.len()
            invariant
                0 < rest@.len(),
                m < k,
                k <= rest@.len(),
                forall|t: int| 0 <= t < k ==> !backup_lt(#[trigger] rest@[t]@, rest@[m as int]@),
            decreases rest@.len() - k,
        {
            proof {
                lemma_backup_order(rest@[k as int]@, rest@[k as int]@, rest@[k as int]@);
            }
            let a = &rest[k];
            let b = &rest[m];
            let before: bool = if b.backup_date < a.backup_date {
                true
            } else if a.backup_date == b.backup_date {
                crate::text::str_lex_lt(a.backup_path.as_str(), b.backup_path.as_str())
            } else {
                false
            };
            if before {
                proof {
                    assert forall|t: int| 0 <= t < k implies !backup_lt(
                        #[trigger] rest@[t]@,
                        rest@[k as int]@,
                    ) by {
                        lemma_backup_order(rest@[t]@, rest@[k as int]@, rest@[m as int]@);
                    }
                }
                m = k;
            }
            k = k + 1;
        }
        let ghost old_rest = rest@;
        let ghost old_out = out@;
        let e = rest.remove(m);
        out.push(e);
        proof {
            broadcast use vstd::seq_lib::group_to_multiset_ensures;
            broadcast use vstd::multiset::group_multiset_axioms;

            let vr_old = backup_views(old_rest);
            let vr_new = backup_views(rest@);
            let vo_old = backup_views(old_out);
            let vo_new = backup_views(out@);
            assert(vr_new =~= vr_old.remove(m as int));
            assert(vo_new =~= vo_old.push(e@));
            assert(vr_old[m as int] == e@);
            vstd::seq_lib::to_multiset_remove(vr_old, m as int);
            vstd::seq_lib::to_multiset_build(vo_old, e@);
            assert(vo_new.to_multiset().add(vr_new.to_multiset()) =~= vo_old.to_multiset().add(
                vr_old.to_multiset(),
            ));
            assert forall|t: int| 0 <= t < vr_old.len() implies backup_le(
                e@,
                #[trigger] vr_old[t],
            ) by {
                assert(!backup_lt(old_rest[t]@, old_rest[m as int]@));
            }
            assert forall|j: int, k2: int|
                0 <= j < vo_new.len() && 0 <= k2 < vr_new.len() implies backup_le(
                #[trigger] vo_new[j],
                #[trigger] vr_new[k2],
            ) by {
                let w = if k2 < m {
                    vr_old[k2]
                } else {
                    vr_old[k2 + 1]
                };
                assert(vr_new[k2] == w);
                if j < vo_old.len() {
                    assert(backup_le(vo_old[j], w));
                } else {
                    assert(vo_new[j] == e@);
                    assert(backup_le(e@, w));
                }
            }
            assert forall|i: int, j: int| 0 <= i < j < vo_new.len() implies backup_le(
                #[trigger] vo_new[i],
                #[trigger] vo_new[j],
            ) by {
                if j < vo_old.len() {
                    assert(backup_le(vo_old[i], vo_old[j]));
                } else {
                    assert(vo_new[j] == e@);
                    assert(backup_le(vo_old[i], vr_old[m as int]));
                }
            }
        }
    }
    proof {
        assert(backup_views(rest@) =~= Seq::<BackupView>::empty());
        broadcast use vstd::seq_lib::group_to_multiset_ensures;
        broadcast use vstd::multiset::group_multiset_axioms;

        assert(backup_views(out@).to_multiset().add(Seq::<BackupView>::empty().to_multiset())
            =~= backup_views(out@).to_multiset());
    }
    out
}

/// The update step failed in one of its two ways: the source could not be
/// read, or the extraction tool failed with this error text.
pub open spec fn update_step_fails(source: InstallSource, e: LifecycleError) -> bool {
    ||| (!source.readable && e is SourceUnavailable)
    ||| (source.readable && !source.extract_ok && (e matches LifecycleError::ExternalToolFailure(m)
        && m@ == source.tool_stderr@))
}

/// What each failing shape of `update_os` leaves behind. Exactly one shape
/// fits any given inputs: the backup step failed and nothing changed; or the
/// update step failed and the automatic rollback restored the directory
/// byte-for-byte from the backup just taken; or the rollback failed too and
/// both failures are surfaced.
pub open spec fn update_failure_holds(
    old_m: OSManager,
    m: OSManager,
    f: UpdateFailure,
    name: Seq<char>,
    source: InstallSource,
    now: u64,
    backup_tar: ArchiveOutcome,
    restore_tar: ToolOutcome,
) -> bool {
    let views = sys_views(old_m.installed@);
    let sys = system_at(views, name);
    let backed_record = backup_record_view(
        name,
        now,
        backup_tar->Archived_size_bytes,
        old_m.backup_path@,
        image_bootable(sys.image),
    );
    let pushed = archive_views(old_m.archives@).push(
        ArchiveView { record: backed_record, image: sys.image },
    );
    let restore_path = path_joined(old_m.os_storage_path@, name);
    ||| (f.rollback is None && m == old_m && ((!has_system(views, name) && f.original is NotFound)
        || (has_system(views, name) && (backup_tar matches ArchiveOutcome::Failed { stderr }
        && f.original matches LifecycleError::ExternalToolFailure(msg) && msg@ == stderr@))))
    ||| (f.rollback is None && has_system(views, name) && backup_tar is Archived
        && update_step_fails(source, f.original) && restore_tar is Success && archive_views(
        m.archives@,
    ) == pushed && sys_views(m.installed@) == remove_system(views, name).push(
        SystemView { name: name, path: restore_path, image: sys.image },
    ) && m.registry@ == old_m.registry@.insert(
        name,
        install_record(name, restore_path, now, sys.image),
    ))
    ||| (has_system(views, name) && backup_tar is Archived && update_step_fails(source, f.original)
        && (restore_tar matches ToolOutcome::Failure { stderr } && f.rollback matches Some(
        LifecycleError::ExternalToolFailure(msg),
    ) && msg@ == stderr@) && archive_views(m.archives@) == pushed && sys_views(m.installed@)
        == remove_system(views, name) && m.registry@ == old_m.registry@)
}

// ---------- The stated laws of the lifecycle ----------

/// Name membership is a property of the entries alone: permutations agree on
/// it.
pub proof fn lemma_has_name_perm(s1: Seq<OsEntryView>, s2: Seq<OsEntryView>, n: Seq<char>)
    requires
        s1.to_multiset() == s2.to_multiset(),
        has_name(s1, n),
    ensures
        has_name(s2, n),
{
    broadcast use vstd::seq_lib::group_to_multiset_ensures;
    broadcast use vstd::multiset::group_multiset_axioms;

    let i = choose|i: int| 0 <= i < s1.len() && s1[i].name == n;
    assert(s1.contains(s1[i]));
    assert(s1.to_multiset().count(s1[i]) > 0);
    assert(s2.to_multiset().count(s1[i]) > 0);
    assert(s2.contains(s1[i]));
    let j = choose|j: int| 0 <= j < s2.len() && s2[j] == s1[i];
    assert(s2[j].name == n);
}

/// The entry an installed system contributes carries its name and its
/// bootable flag into any listing built from the state.
pub proof fn lemma_system_listed(
    ss: Seq<SystemView>,
    reg: Map<Seq<char>, RecordView>,
    listed: Seq<OsEntryView>,
    i: int,
)
    requires
        0 <= i < ss.len(),
        listed.to_multiset() == catalog_of(ss, reg).to_multiset(),
    ensures
        exists|j: int|
            0 <= j < listed.len() && (#[trigger] listed[j]).name == ss[i].name && listed[j].is_bootable
                == image_bootable(ss[i].image),
{
    broadcast use vstd::seq_lib::group_to_multiset_ensures;
    broadcast use vstd::multiset::group_multiset_axioms;

    let cat = catalog_of(ss, reg);
    assert(cat[i] == system_entry(ss[i], reg));
    assert(cat.contains(cat[i]));
    assert(cat.to_multiset().count(cat[i]) > 0);
    assert(listed.to_multiset().count(cat[i]) > 0);
    assert(listed.contains(cat[i]));
    let j = choose|j: int| 0 <= j < listed.len() && listed[j] == cat[i];
    assert(listed[j].name == ss[i].name && listed[j].is_bootable == image_bootable(ss[i].image));
}

/// Law: an install of `name` followed by a scan always lists an entry named
/// `name` with the bootable flag set. The first three premises are what
/// `install_os_from_image` ensures on success; the last is what
/// `get_available_systems` ensures of its listing.
pub proof fn lemma_install_then_scan(
    old_m: OSManager,
    m: OSManager,
    listed: Seq<OsEntryView>,
    name: Seq<char>,
    payload: Seq<FileView>,
    now: u64,
)
    requires
        sys_views(m.installed@) == remove_system(sys_views(old_m.installed@), name).push(
            SystemView {
                name: name,
                path: path_joined(old_m.os_storage_path@, name),
                image: installed_image(
                    payload,
                    old_m.raspberry_pi,
                    old_m.gaming_handheld,
                    name,
                    now,
                ),
            },
        ),
        listed.to_multiset() == catalog_of(sys_views(m.installed@), m.registry@).to_multiset(),
    ensures
        exists|j: int|
            0 <= j < listed.len() && (#[trigger] listed[j]).name == name && listed[j].is_bootable,
{
    let views = sys_views(m.installed@);
    let image = installed_image(payload, old_m.raspberry_pi, old_m.gaming_handheld, name, now);
    assert(image_bootable(image)) by {
        assert(image.last() == boot_script_file(name));
        assert(tree_has_file(image, "boot.sh"@));
    }
    let i = views.len() - 1;
    assert(views[i].name == name && views[i].image == image);
    lemma_system_listed(views, m.registry@, listed, i);
}

/// Law: a removal that took a backup leaves a retrievable archive for the
/// name, and restoring that archive places the very tree that was removed
/// back under the name, which any listing built afterwards shows again. The
/// premises are what `remove_os` (with a backup requested) and
/// `restore_os_from_backup` ensure on success, and what
/// `get_available_systems` ensures of its listing.
pub proof fn lemma_remove_backup_then_restore(
    m0: OSManager,
    m1: OSManager,
    m2: OSManager,
    listed: Seq<OsEntryView>,
    name: Seq<char>,
    size_bytes: u64,
    now: u64,
    now2: u64,
)
    requires
        m0.wf(),
        m2.wf(),
        has_system(sys_views(m0.installed@), name),
        archive_views(m1.archives@) == archive_views(m0.archives@).push(
            ArchiveView {
                record: backup_record_view(
                    name,
                    now,
                    size_bytes,
                    m0.backup_path@,
                    image_bootable(system_at(sys_views(m0.installed@), name).image),
                ),
                image: system_at(sys_views(m0.installed@), name).image,
            },
        ),
        sys_views(m2.installed@) == remove_system(sys_views(m1.installed@), name).push(
            SystemView {
                name: name,
                path: path_joined(m1.os_storage_path@, name),
                image: last_archive(
                    archive_views(m1.archives@),
                    backup_record_view(
                        name,
                        now,
                        size_bytes,
                        m0.backup_path@,
                        image_bootable(system_at(sys_views(m0.installed@), name).image),
                    ).backup_path,
                ).image,
            },
        ),
        listed.to_multiset() == catalog_of(sys_views(m2.installed@), m2.registry@).to_multiset(),
    ensures
        has_archive(
            archive_views(m1.archives@),
            backup_record_view(
                name,
                now,
                size_bytes,
                m0.backup_path@,
                image_bootable(system_at(sys_views(m0.installed@), name).image),
            ).backup_path,
        ),
        has_system(sys_views(m2.installed@), name),
        system_at(sys_views(m2.installed@), name).image == system_at(
            sys_views(m0.installed@),
            name,
        ).image,
        has_name(listed, name),
{
    let removed = system_at(sys_views(m0.installed@), name);
    let record = backup_record_view(
        name,
        now,
        size_bytes,
        m0.backup_path@,
        image_bootable(removed.image),
    );
    let a = archive_views(m1.archives@);
    assert(a.last().record.backup_path == record.backup_path);
    assert(last_archive(a, record.backup_path) == a.last());
    assert(a[a.len() - 1].record.backup_path == record.backup_path);

    let views2 = sys_views(m2.installed@);
    let i = views2.len() - 1;
    assert(views2[i].name == name && views2[i].image == removed.image);
    lemma_system_at(views2, name, i);
    lemma_system_listed(views2, m2.registry@, listed, i);
    let j = choose|j: int|
        0 <= j < listed.len() && (#[trigger] listed[j]).name == views2[i].name && listed[j].is_bootable
            == image_bootable(views2[i].image);
    assert(listed[j].name == name);
}

/// Law: an update whose update step failed but whose automatic rollback
/// succeeded leaves the directory installed under the name byte-for-byte the
/// tree of the backup it took first — the tree installed before the update —
/// and returns the update step's own failure. The premises are what
/// `update_os` ensures on such a failure.
pub proof fn lemma_update_rollback(
    old_m: OSManager,
    m: OSManager,
    f: UpdateFailure,
    name: Seq<char>,
    source: InstallSource,
    now: u64,
    backup_tar: ArchiveOutcome,
    restore_tar: ToolOutcome,
)
    requires
        old_m.wf(),
        m.wf(),
        has_system(sys_views(old_m.installed@), name),
        backup_tar is Archived,
        f.rollback is None,
        update_failure_holds(old_m, m, f, name, source, now, backup_tar, restore_tar),
    ensures
        update_step_fails(source, f.original),
        has_system(sys_views(m.installed@), name),
        system_at(sys_views(m.installed@), name).image == system_at(
            sys_views(old_m.installed@),
            name,
        ).image,
{
    let views = sys_views(m.installed@);
    let i = views.len() - 1;
    assert(views[i].name == name);
    lemma_system_at(views, name, i);
}

} // verus!
