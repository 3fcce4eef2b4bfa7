//! The OS catalog: classification of discovered directories and image files
//! into OS categories, and the total order in which catalog entries are
//! listed (most recently used first; entries with a timestamp before entries
//! without one; name ascending as the tie-break).

use vstd::prelude::*;
use crate::text::{contains_bytes, lower_bytes, lex_lt, lemma_lex_trichotomy, lemma_lex_trans,
    str_eq, str_lex_lt, contains_ci};

verus! {

use vstd::string::StringSliceAdditionalSpecFns;

/// The OS categories a payload can be classified into: three near-identical
/// retro-gaming categories, the vendor OS, two general-Linux categories, and
/// a catch-all.
#[derive(Clone, Copy, Debug, PartialEq, Eq, Structural)]
pub enum OSType {
    RetroPie,
    Batocera,
    Recalbox,
    RaspberryPiOS,
    Ubuntu,
    Debian,
    Unknown,
}

/// One entry of the catalog. `last_used` is a Unix timestamp in seconds.
#[derive(Clone, Debug)]
pub struct OperatingSystem {
    pub name: String,
    pub path: String,
    pub description: String,
    pub os_type: OSType,
    pub is_bootable: bool,
    pub last_used: Option<u64>,
}

/// The mathematical value of a catalog entry: its strings as character
/// sequences, the rest as plain values.
pub ghost struct OsEntryView {
    pub name: Seq<char>,
    pub path: Seq<char>,
    pub description: Seq<char>,
    pub os_type: OSType,
    pub is_bootable: bool,
    pub last_used: Option<u64>,
}

impl View for OperatingSystem {
    type V = OsEntryView;

    open spec fn view(&self) -> OsEntryView {
        OsEntryView {
            name: self.name@,
            path: self.path@,
            description: self.description@,
            os_type: self.os_type,
            is_bootable: self.is_bootable,
            last_used: self.last_used,
        }
    }
}

/// The views of a sequence of catalog entries.
pub open spec fn entry_views(s: Seq<OperatingSystem>) -> Seq<OsEntryView> {
    s.map_values(|e: OperatingSystem| e@)
}

/// What a scan found at one candidate directory: its path and the names of
/// the files and subdirectories directly inside it.
#[derive(Clone, Debug)]
pub struct DirectoryListing {
    pub path: String,
    pub entries: Vec<String>,
}

/// One of the names in a listing equals `name`.
pub open spec fn has_marker(entries: Seq<String>, name: Seq<char>) -> bool {
    exists|i: int| 0 <= i < entries.len() && entries[i]@ == name
}

/// Whether a listing holds an entry of the given name.
pub fn listing_has(entries: &Vec<String>, name: &str) -> (r: bool)
    ensures
        r == has_marker(entries@, name@),
{
    let mut i: usize = 0;
    while i < entries.len()
        invariant
            i <= entries@.len(),
            forall|k: int| 0 <= k < i ==> entries@[k]@ != name@,
        decreases entries@.len() - i,
    {
        if str_eq(entries[i].as_str(), name) {
            assert(has_marker(entries@, name@));
            return true;
        }
        i = i + 1;
    }
    return false;
}

// ---------- Classification of a boot-partition directory ----------

/// Category signatures checked in fixed precedence order: the first category
/// whose signature is present wins, and later categories never override it.
pub open spec fn classify_dir(entries: Seq<String>) -> Option<OSType> {
    if has_marker(entries, "retropie"@) || has_marker(entries, "RetroPie"@) {
        Some(OSType::RetroPie)
    } else if has_marker(entries, "batocera"@) || has_marker(entries, "BATOCERA"@) {
        Some(OSType::Batocera)
    } else if has_marker(entries, "recalbox"@) {
        Some(OSType::Recalbox)
    } else if has_marker(entries, "config.txt"@) && has_marker(entries, "cmdline.txt"@) {
        Some(OSType::RaspberryPiOS)
    } else if has_marker(entries, "ubuntu"@) || has_marker(entries, "vmlinuz"@) {
        Some(OSType::Ubuntu)
    } else {
        None
    }
}

/// The display name a boot-partition classification gets.
pub open spec fn dir_entry_name(t: OSType) -> Seq<char> {
    match t {
        OSType::RetroPie => "RetroPie"@,
        OSType::Batocera => "Batocera"@,
        OSType::Recalbox => "Recalbox"@,
        OSType::RaspberryPiOS => "Raspberry Pi OS"@,
        OSType::Ubuntu => "Linux System"@,
        OSType::Debian => "Linux System"@,
        OSType::Unknown => "Unknown System"@,
    }
}

/// The human description a boot-partition classification gets.
pub open spec fn dir_entry_description(t: OSType) -> Seq<char> {
    match t {
        OSType::RetroPie => "Retro Gaming System"@,
        OSType::Batocera => "Retro Gaming Distribution"@,
        OSType::Recalbox => "Retro Gaming OS"@,
        OSType::RaspberryPiOS => "Official Raspberry Pi Operating System"@,
        OSType::Ubuntu => "General Linux Distribution"@,
        OSType::Debian => "General Linux Distribution"@,
        OSType::Unknown => "Unknown Operating System"@,
    }
}

pub(crate) fn dir_entry_name_exec(t: OSType) -> (r: String)
    ensures
        r@ == dir_entry_name(t),
{
    match t {
        OSType::RetroPie => String::from_str("RetroPie"),
        OSType::Batocera => String::from_str("Batocera"),
        OSType::Recalbox => String::from_str("Recalbox"),
        OSType::RaspberryPiOS => String::from_str("Raspberry Pi OS"),
        OSType::Ubuntu => String::from_str("Linux System"),
        OSType::Debian => String::from_str("Linux System"),
        OSType::Unknown => String::from_str("Unknown System"),
    }
}

pub(crate) fn dir_entry_description_exec(t: OSType) -> (r: String)
    ensures
        r@ == dir_entry_description(t),
{
    match t {
        OSType::RetroPie => String::from_str("Retro Gaming System"),
        OSType::Batocera => String::from_str("Retro Gaming Distribution"),
        OSType::Recalbox => String::from_str("Retro Gaming OS"),
        OSType::RaspberryPiOS => String::from_str("Official Raspberry Pi Operating System"),
        OSType::Ubuntu => String::from_str("General Linux Distribution"),
        OSType::Debian => String::from_str("General Linux Distribution"),
        OSType::Unknown => String::from_str("Unknown Operating System"),
    }
}

/// The catalog entry a directory listing denotes, when a signature matches.
pub open spec fn dir_entry_view(l: DirectoryListing) -> Option<OsEntryView> {
    match classify_dir(l.entries@) {
        Some(t) => Some(
            OsEntryView {
                name: dir_entry_name(t),
                path: l.path@,
                description: dir_entry_description(t),
                os_type: t,
                is_bootable: true,
                last_used: None,
            },
        ),
        None => None,
    }
}

/// Classify a boot-partition directory by its signature entries, in the fixed
/// precedence order. Returns the catalog entry it denotes, or `None` when no
/// signature matches.
pub fn identify_os_from_boot_partition(listing: &DirectoryListing) -> (r: Option<OperatingSystem>)
    ensures
        match r {
            Some(os) => dir_entry_view(*listing) == Some(os@),
            None => dir_entry_view(*listing) is None,
        },
{
    let t: OSType;
    if listing_has(&listing.entries, "retropie") || listing_has(&listing.entries, "RetroPie") {
        t = OSType::RetroPie;
    } else if listing_has(&listing.entries, "batocera") || listing_has(&listing.entries, "BATOCERA") {
        t = OSType::Batocera;
    } else if listing_has(&listing.entries, "recalbox") {
        t = OSType::Recalbox;
    } else if listing_has(&listing.entries, "config.txt") && listing_has(&listing.entries, "cmdline.txt") {
        t = OSType::RaspberryPiOS;
    } else if listing_has(&listing.entries, "ubuntu") || listing_has(&listing.entries, "vmlinuz") {
        t = OSType::Ubuntu;
    } else {
        return None;
    }
    Some(OperatingSystem {
        name: dir_entry_name_exec(t),
        path: listing.path.clone(),
        description: dir_entry_description_exec(t),
        os_type: t,
        is_bootable: true,
        last_used: None,
    })
}

/// Classification precedence: a directory's category is decided by the
/// earliest signature present, and by signatures alone — never by what its
/// path or any file name resembles. A directory carrying an earlier
/// category's signature is classified into that category whatever later
/// signatures it also carries, and a later category is assigned only when
/// every earlier signature is absent.
pub proof fn lemma_signature_precedence(entries: Seq<String>)
    ensures
        has_marker(entries, "retropie"@) || has_marker(entries, "RetroPie"@) ==> classify_dir(
            entries,
        ) == Some(OSType::RetroPie),
        classify_dir(entries) == Some(OSType::Batocera) ==> {
            &&& has_marker(entries, "batocera"@) || has_marker(entries, "BATOCERA"@)
            &&& !has_marker(entries, "retropie"@) && !has_marker(entries, "RetroPie"@)
        },
        classify_dir(entries) == Some(OSType::Recalbox) ==> {
            &&& has_marker(entries, "recalbox"@)
            &&& !has_marker(entries, "retropie"@) && !has_marker(entries, "RetroPie"@)
            &&& !has_marker(entries, "batocera"@) && !has_marker(entries, "BATOCERA"@)
        },
        classify_dir(entries) == Some(OSType::RaspberryPiOS) ==> {
            &&& has_marker(entries, "config.txt"@) && has_marker(entries, "cmdline.txt"@)
            &&& !has_marker(entries, "retropie"@) && !has_marker(entries, "RetroPie"@)
            &&& !has_marker(entries, "batocera"@) && !has_marker(entries, "BATOCERA"@)
            &&& !has_marker(entries, "recalbox"@)
        },
        classify_dir(entries) is None ==> !has_marker(entries, "retropie"@) && !has_marker(
            entries,
            "recalbox"@,
        ) && !has_marker(entries, "ubuntu"@) && !has_marker(entries, "vmlinuz"@),
{
}

/// The classification of a directory reads its signature entries only: two
/// listings with the same entries classify alike, whatever their paths.
pub proof fn lemma_classification_ignores_path(a: DirectoryListing, b: DirectoryListing)
    requires
        a.entries@ == b.entries@,
    ensures
        classify_dir(a.entries@) == classify_dir(b.entries@),
{
}

// ---------- Classification of a standalone image file ----------

/// What a scan found for one candidate image file.
#[derive(Clone, Debug)]
pub struct ImageCandidate {
    pub path: String,
    pub file_name: String,
}

/// Both sides ASCII-lower-cased, the file name contains the keyword.
pub open spec fn name_matches(file_name: Seq<u8>, keyword: &str) -> bool {
    contains_bytes(lower_bytes(file_name), lower_bytes(keyword.spec_bytes()))
}

/// Keyword classification of a standalone image file name, in the same fixed
/// precedence order as the signature classification.
pub open spec fn classify_image(file_name: Seq<u8>) -> OSType {
    if name_matches(file_name, "retropie") {
        OSType::RetroPie
    } else if name_matches(file_name, "batocera") {
        OSType::Batocera
    } else if name_matches(file_name, "recalbox") {
        OSType::Recalbox
    } else if name_matches(file_name, "raspios") || name_matches(file_name, "raspberry") {
        OSType::RaspberryPiOS
    } else {
        OSType::Unknown
    }
}

/// The display name an image-file classification gets.
pub open spec fn image_entry_name(t: OSType, file_name: Seq<char>) -> Seq<char> {
    match t {
        OSType::RetroPie => "RetroPie Image"@,
        OSType::Batocera => "Batocera Image"@,
        OSType::Recalbox => "Recalbox Image"@,
        OSType::RaspberryPiOS => "Raspberry Pi OS Image"@,
        _ => "OS Image: "@ + file_name,
    }
}

/// The description an image-file classification gets.
pub open spec fn image_entry_description(t: OSType) -> Seq<char> {
    match t {
        OSType::RetroPie => "RetroPie OS Image"@,
        OSType::Batocera => "Batocera OS Image"@,
        OSType::Recalbox => "Recalbox OS Image"@,
        OSType::RaspberryPiOS => "Raspberry Pi OS Image"@,
        _ => "Unknown OS Image"@,
    }
}

/// The catalog entry an image candidate denotes.
pub open spec fn image_entry_view(c: ImageCandidate) -> OsEntryView {
    let t = classify_image(crate::text::bytes_of(c.file_name@));
    OsEntryView {
        name: image_entry_name(t, c.file_name@),
        path: c.path@,
        description: image_entry_description(t),
        os_type: t,
        is_bootable: true,
        last_used: None,
    }
}

/// Classify a standalone image file by keywords in its (case-folded) file
/// name, first keyword match wins, defaulting to `Unknown`.
pub fn identify_os_from_image(img: &ImageCandidate) -> (r: OperatingSystem)
    ensures
        r@ == image_entry_view(*img),
{
    let fname = img.file_name.as_str();
    let t: OSType;
    let name: String;
    let description: String;
    if contains_ci(fname, "retropie") {
        t = OSType::RetroPie;
        name = String::from_str("RetroPie Image");
        description = String::from_str("RetroPie OS Image");
    } else if contains_ci(fname, "batocera") {
        t = OSType::Batocera;
        name = String::from_str("Batocera Image");
        description = String::from_str("Batocera OS Image");
    } else if contains_ci(fname, "recalbox") {
        t = OSType::Recalbox;
        name = String::from_str("Recalbox Image");
        description = String::from_str("Recalbox OS Image");
    } else if contains_ci(fname, "raspios") || contains_ci(fname, "raspberry") {
        t = OSType::RaspberryPiOS;
        name = String::from_str("Raspberry Pi OS Image");
        description = String::from_str("Raspberry Pi OS Image");
    } else {
        t = OSType::Unknown;
        name = String::from_str("OS Image: ").concat(fname);
        description = String::from_str("Unknown OS Image");
    }
    OperatingSystem {
        name,
        path: img.path.clone(),
        description,
        os_type: t,
        is_bootable: true,
        last_used: None,
    }
}

// ---------- The catalog order ----------

/// The strict order in which catalog entries are listed: an entry with a
/// last-used timestamp comes before one without; a later timestamp comes
/// before an earlier one; the name, ascending, breaks every remaining tie.
pub open spec fn entry_lt(a: OsEntryView, b: OsEntryView) -> bool {
    match (a.last_used, b.last_used) {
        (Some(x), Some(y)) => y < x || (x == y && lex_lt(a.name, b.name)),
        (Some(x), None) => true,
        (None, Some(y)) => false,
        (None, None) => lex_lt(a.name, b.name),
    }
}

/// Non-strict companion of `entry_lt`.
pub open spec fn entry_le(a: OsEntryView, b: OsEntryView) -> bool {
    !entry_lt(b, a)
}

/// Two entries agree on everything the order looks at.
pub open spec fn entry_key_eq(a: OsEntryView, b: OsEntryView) -> bool {
    a.last_used == b.last_used && a.name == b.name
}

/// For any two entries, exactly one of `a` before `b`, `b` before `a`, or
/// equal order keys holds. In particular, entries with distinct names are
/// always strictly ordered one way and only one way.
pub proof fn lemma_entry_trichotomy(a: OsEntryView, b: OsEntryView)
    ensures
        entry_lt(a, b) || entry_lt(b, a) || entry_key_eq(a, b),
        entry_lt(a, b) ==> !entry_lt(b, a) && !entry_key_eq(a, b),
        entry_lt(b, a) ==> !entry_lt(a, b) && !entry_key_eq(a, b),
{
    lemma_lex_trichotomy(a.name, b.name);
}

/// The order between entries is transitive.
pub proof fn lemma_entry_lt_trans(a: OsEntryView, b: OsEntryView, c: OsEntryView)
    requires
        entry_lt(a, b),
        entry_lt(b, c),
    ensures
        entry_lt(a, c),
{
    if a.last_used is Some && b.last_used is Some && c.last_used is Some {
        if a.last_used == b.last_used && b.last_used == c.last_used {
            lemma_lex_trans(a.name, b.name, c.name);
        }
    } else if a.last_used is None && b.last_used is None && c.last_used is None {
        lemma_lex_trans(a.name, b.name, c.name);
    }
}

/// Executable comparison deciding `entry_lt`.
pub fn entry_before(a: &OperatingSystem, b: &OperatingSystem) -> (r: bool)
    ensures
        r == entry_lt(a@, b@),
{
    match (&a.last_used, &b.last_used) {
        (Some(x), Some(y)) => {
            if *y < *x {
                true
            } else if *x == *y {
                str_lex_lt(a.name.as_str(), b.name.as_str())
            } else {
                false
            }
        },
        (Some(_), None) => true,
        (None, Some(_)) => false,
        (None, None) => str_lex_lt(a.name.as_str(), b.name.as_str()),
    }
}

/// The entries are listed in catalog order.
pub open spec fn entries_sorted(s: Seq<OsEntryView>) -> bool {
    forall|i: int, j: int| 0 <= i < j < s.len() ==> entry_le(#[trigger] s[i], #[trigger] s[j])
}

/// No two entries share a name.
pub open spec fn names_distinct(s: Seq<OsEntryView>) -> bool {
    forall|i: int, j: int| 0 <= i < j < s.len() ==> (#[trigger] s[i]).name != (#[trigger] s[j]).name
}

/// Sort catalog entries into catalog order. The result is a permutation of
/// the input.
pub fn sort_entries(input: Vec<OperatingSystem>) -> (r: Vec<OperatingSystem>)
    ensures
        entries_sorted(entry_views(r@)),
        entry_views(r@).to_multiset() == entry_views(input@).to_multiset(),
{
    broadcast use vstd::seq_lib::group_to_multiset_ensures;
    broadcast use vstd::multiset::group_multiset_axioms;

    let ghost orig = entry_views(input@).to_multiset();
    let mut rest = input;
    let mut out: Vec<OperatingSystem> = Vec::new();
    proof {
        assert(entry_views(out@) =~= Seq::<OsEntryView>::empty());
        assert(entry_views(out@).to_multiset().add(entry_views(rest@).to_multiset()) =~= orig);
    }
    while rest.len() > 0
        invariant
            entries_sorted(entry_views(out@)),
            entry_views(out@).to_multiset().add(entry_views(rest@).to_multiset()) == orig,
            forall|j: int, k: int|
                0 <= j < out@.len() && 0 <= k < rest@.len() ==> entry_le(
                    #[trigger] entry_views(out@)[j],
                    #[trigger] entry_views(rest@)[k],
                ),
        decreases rest@.len(),
    {
        let mut m: usize = 0;
        let mut k: usize = 1;
        proof {
            lemma_entry_trichotomy(rest@[0]@, rest@[0]@);
        }
        while k < rest.len()
            invariant
                0 < rest@.len(),
                m < k,
                k <= rest@.len(),
                forall|t: int|
                    0 <= t < k ==> !entry_lt(#[trigger] rest@[t]@, rest@[m as int]@),
            decreases rest@.len() - k,
        {
            proof {
                lemma_entry_trichotomy(rest@[k as int]@, rest@[k as int]@);
            }
            if entry_before(&rest[k], &rest[m]) {
                proof {
                    assert forall|t: int| 0 <= t < k implies !entry_lt(
                        #[trigger] rest@[t]@,
                        rest@[k as int]@,
                    ) by {
                        if entry_lt(rest@[t]@, rest@[k as int]@) {
                            lemma_entry_lt_trans(rest@[t]@, rest@[k as int]@, rest@[m as int]@);
                        }
                    }
                }
                m = k;
            }
            k = k + 1;
        }
        let ghost old_rest = rest@;
        let ghost old_out = out@;
        let e = rest.remove(m);
        out.push(e);
        proof {
            broadcast use vstd::seq_lib::group_to_multiset_ensures;
            broadcast use vstd::multiset::group_multiset_axioms;

            let vr_old = entry_views(old_rest);
            let vr_new = entry_views(rest@);
            let vo_old = entry_views(old_out);
            let vo_new = entry_views(out@);
            assert(vr_new =~= vr_old.remove(m as int));
            assert(vo_new =~= vo_old.push(e@));
            assert(vr_old[m as int] == e@);
            vstd::seq_lib::to_multiset_remove(vr_old, m as int);
            vstd::seq_lib::to_multiset_build(vo_old, e@);
            assert(vr_new.to_multiset() == vr_old.to_multiset().remove(e@));
            assert(vo_new.to_multiset() == vo_old.to_multiset().insert(e@));
            assert(vr_old.to_multiset().contains(e@)) by {
                vr_old.to_multiset_ensures();
            }
            assert(vo_new.to_multiset().add(vr_new.to_multiset()) =~= vo_old.to_multiset().add(
                vr_old.to_multiset(),
            ));
            // the minimum found comes no later than anything left
            assert forall|t: int| 0 <= t < vr_old.len() implies entry_le(
                e@,
                #[trigger] vr_old[t],
            ) by {
                assert(!entry_lt(old_rest[t]@, old_rest[m as int]@));
            }
            assert forall|j: int, k2: int|
                0 <= j < vo_new.len() && 0 <= k2 < vr_new.len() implies entry_le(
                #[trigger] vo_new[j],
                #[trigger] vr_new[k2],
            ) by {
                let w = if k2 < m { vr_old[k2] } else { vr_old[k2 + 1] };
                assert(vr_new[k2] == w);
                if j < vo_old.len() {
                    assert(entry_le(vo_old[j], w));
                } else {
                    assert(vo_new[j] == e@);
                    assert(entry_le(e@, w));
                }
            }
            assert forall|i: int, j: int| 0 <= i < j < vo_new.len() implies entry_le(
                #[trigger] vo_new[i],
                #[trigger] vo_new[j],
            ) by {
                if j < vo_old.len() {
                    assert(entry_le(vo_old[i], vo_old[j]));
                } else {
                    assert(vo_new[j] == e@);
                    assert(entry_le(vo_old[i], vr_old[m as int]));
                }
            }
        }
    }
    proof {
        assert(entry_views(rest@) =~= Seq::<OsEntryView>::empty());
        assert(entry_views(out@).to_multiset().add(Seq::<OsEntryView>::empty().to_multiset())
            =~= entry_views(out@).to_multiset());
    }
    out
}

/// Some entry of the sequence bears this name.
pub open spec fn has_name(s: Seq<OsEntryView>, name: Seq<char>) -> bool {
    exists|i: int| 0 <= i < s.len() && s[i].name == name
}

/// Keep, for each name, only its first occurrence.
pub open spec fn dedup_by_name(s: Seq<OsEntryView>) -> Seq<OsEntryView>
    decreases s.len(),
{
    if s.len() == 0 {
        Seq::empty()
    } else {
        let rest = dedup_by_name(s.drop_last());
        if has_name(s.drop_last(), s.last().name) {
            rest
        } else {
            rest.push(s.last())
        }
    }
}

/// Deduplication yields pairwise-distinct names and keeps exactly the names
/// of the input.
pub proof fn lemma_dedup_names(s: Seq<OsEntryView>)
    ensures
        names_distinct(dedup_by_name(s)),
        forall|n: Seq<char>| #[trigger] has_name(dedup_by_name(s), n) == has_name(s, n),
    decreases s.len(),
{
    if s.len() == 0 {
    } else {
        let front = s.drop_last();
        let last = s.last();
        lemma_dedup_names(front);
        let rest = dedup_by_name(front);
        assert forall|n: Seq<char>| #[trigger] has_name(s, n) == (has_name(front, n) || last.name
            == n) by {
            if has_name(s, n) {
                let i = choose|i: int| 0 <= i < s.len() && s[i].name == n;
                if i < s.len() - 1 {
                    assert(front[i] == s[i]);
                    assert(has_name(front, n));
                }
            }
            if has_name(front, n) {
                let i = choose|i: int| 0 <= i < front.len() && front[i].name == n;
                assert(s[i] == front[i]);
                assert(has_name(s, n));
            }
            if last.name == n {
                assert(s[s.len() - 1].name == n);
                assert(has_name(s, n));
            }
        }
        if has_name(front, last.name) {
        } else {
            let d = rest.push(last);
            assert forall|i: int, j: int| 0 <= i < j < d.len() implies (#[trigger] d[i]).name != (
            #[trigger] d[j]).name by {
                if j == d.len() - 1 {
                    assert(d[i] == rest[i]);
                    assert(has_name(rest, rest[i].name));
                    assert(!has_name(rest, last.name));
                }
            }
            assert forall|n: Seq<char>| #[trigger] has_name(d, n) == (has_name(rest, n)
                || last.name == n) by {
                if has_name(d, n) {
                    let i = choose|i: int| 0 <= i < d.len() && d[i].name == n;
                    if i < d.len() - 1 {
                        assert(rest[i] == d[i]);
                        assert(has_name(rest, n));
                    }
                }
                if has_name(rest, n) {
                    let i = choose|i: int| 0 <= i < rest.len() && rest[i].name == n;
                    assert(d[i] == rest[i]);
                    assert(has_name(d, n));
                }
                if last.name == n {
                    assert(d[d.len() - 1].name == n);
                    assert(has_name(d, n));
                }
            }
        }
    }
}

/// A permutation of entries with pairwise-distinct names again has
/// pairwise-distinct names.
pub proof fn lemma_names_distinct_perm(s1: Seq<OsEntryView>, s2: Seq<OsEntryView>)
    requires
        names_distinct(s1),
        s1.to_multiset() == s2.to_multiset(),
    ensures
        names_distinct(s2),
{
    broadcast use vstd::seq_lib::group_to_multiset_ensures;
    broadcast use vstd::multiset::group_multiset_axioms;

    assert forall|i: int, j: int| 0 <= i < j < s2.len() implies (#[trigger] s2[i]).name != (
    #[trigger] s2[j]).name by {
        let x = s2[i];
        let y = s2[j];
        if x.name == y.name {
            if x == y {
                let s0 = s2.subrange(0, j);
                let sr = s2.subrange(j, s2.len() as int);
                assert(s2 =~= s0 + sr);
                vstd::seq_lib::lemma_multiset_commutative(s0, sr);
                assert(s0[i] == x);
                assert(s0.contains(x));
                assert(sr[0] == x);
                assert(sr.contains(x));
                assert(s2.to_multiset().count(x) >= 2);
                assert(s1.no_duplicates()) by {
                    assert forall|p: int, q: int|
                        0 <= p < s1.len() && 0 <= q < s1.len() && p != q implies s1[p] != s1[q] by {
                        if p < q {
                            assert(s1[p].name != s1[q].name);
                        } else {
                            assert(s1[q].name != s1[p].name);
                        }
                    }
                }
                s1.lemma_multiset_has_no_duplicates();
                assert(s1.to_multiset().contains(x));
                assert(false);
            } else {
                assert(s2.contains(x));
                assert(s2.contains(y));
                assert(s2.to_multiset().count(x) > 0);
                assert(s2.to_multiset().count(y) > 0);
                assert(s1.to_multiset().count(x) > 0);
                assert(s1.to_multiset().count(y) > 0);
                assert(s1.contains(x));
                assert(s1.contains(y));
                let p = choose|p: int| 0 <= p < s1.len() && s1[p] == x;
                let q = choose|q: int| 0 <= q < s1.len() && s1[q] == y;
                assert(p != q);
                assert(false);
            }
        }
    }
}

/// The catalog listing is canonical: two listings of the same entries, both
/// in catalog order and with no duplicate names, are identical. Hence a scan
/// over unchanged sources yields the same entries in the same order, however
/// the sources were enumerated.
pub proof fn lemma_catalog_listing_unique(s1: Seq<OsEntryView>, s2: Seq<OsEntryView>)
    requires
        entries_sorted(s1),
        entries_sorted(s2),
        names_distinct(s1),
        s1.to_multiset() == s2.to_multiset(),
    ensures
        s1 =~= s2,
    decreases s1.len(),
{
    broadcast use vstd::seq_lib::group_to_multiset_ensures;
    broadcast use vstd::multiset::group_multiset_axioms;

    if s1.len() == 0 {
        assert(s2.to_multiset().len() == 0);
    } else if s2.len() == 0 {
        assert(s1.to_multiset().len() == 0);
    } else {
        let a = s1[0];
        let b = s2[0];
        assert(s1.to_multiset().contains(a));
        assert(s2.to_multiset().contains(b));
        assert(s1.contains(b));
        assert(s2.contains(a));
        let i = choose|i: int| 0 <= i < s1.len() && s1[i] == b;
        let j = choose|j: int| 0 <= j < s2.len() && s2[j] == a;
        lemma_entry_trichotomy(a, a);
        lemma_entry_trichotomy(b, b);
        assert(entry_le(a, s1[i]));
        assert(entry_le(b, s2[j]));
        lemma_entry_trichotomy(a, b);
        assert(entry_key_eq(a, b));
        assert(a.name == b.name);
        if i != 0 {
            assert(s1[0].name != s1[i].name);
            assert(false);
        }
        assert(a == b);
        let t1 = s1.drop_first();
        let t2 = s2.drop_first();
        assert(t1.to_multiset() =~= s1.to_multiset().remove(a)) by {
            assert(t1 =~= s1.remove(0));
        }
        assert(t2.to_multiset() =~= s2.to_multiset().remove(b)) by {
            assert(t2 =~= s2.remove(0));
        }
        assert(entries_sorted(t1)) by {
            assert(forall|p: int, q: int|
                0 <= p < q < t1.len() ==> entry_le(#[trigger] t1[p], #[trigger] t1[q]));
        }
        assert(entries_sorted(t2)) by {
            assert(forall|p: int, q: int|
                0 <= p < q < t2.len() ==> entry_le(#[trigger] t2[p], #[trigger] t2[q]));
        }
        assert(names_distinct(t1)) by {
            assert(forall|p: int, q: int|
                0 <= p < q < t1.len() ==> (#[trigger] t1[p]).name != (#[trigger] t1[q]).name);
        }
        lemma_catalog_listing_unique(t1, t2);
        assert(s1.len() == s2.len());
        assert forall|p: int| 0 <= p < s1.len() implies s1[p] == s2[p] by {
            if p >= 1 {
                assert(t1[p - 1] == s1[p]);
                assert(t2[p - 1] == s2[p]);
                assert(t1[p - 1] == t2[p - 1]);
            }
        }
        assert(s1 =~= s2);
    }
}

// ---------- The scan ----------

/// What one scan pass over the configured source locations found: candidate
/// boot-partition directories, standalone image files, and removable-media
/// mount points, each already read into plain values.
#[derive(Clone, Debug)]
pub struct ScanInput {
    pub boot_partitions: Vec<DirectoryListing>,
    pub image_files: Vec<ImageCandidate>,
    pub usb_mounts: Vec<DirectoryListing>,
}

/// The entries that classifying a row of directories yields, in order,
/// skipping directories no signature matches.
pub open spec fn classified_dirs(ds: Seq<DirectoryListing>) -> Seq<OsEntryView>
    decreases ds.len(),
{
    if ds.len() == 0 {
        Seq::empty()
    } else {
        let rest = classified_dirs(ds.drop_last());
        match dir_entry_view(ds.last()) {
            Some(v) => rest.push(v),
            None => rest,
        }
    }
}

/// The entries that classifying a row of image files yields, in order.
pub open spec fn classified_images(cs: Seq<ImageCandidate>) -> Seq<OsEntryView> {
    cs.map_values(|c: ImageCandidate| image_entry_view(c))
}

/// Every candidate entry a scan produces, in discovery order, before
/// deduplication.
pub open spec fn scan_candidates(input: ScanInput) -> Seq<OsEntryView> {
    classified_dirs(input.boot_partitions@) + classified_images(input.image_files@)
        + classified_dirs(input.usb_mounts@)
}

/// Look an entry up by name; returns the position of the first entry bearing
/// the name.
pub fn find_by_name(list: &Vec<OperatingSystem>, name: &str) -> (r: Option<usize>)
    ensures
        match r {
            Some(i) => i < list@.len() && entry_views(list@)[i as int].name == name@,
            None => !has_name(entry_views(list@), name@),
        },
{
    let mut i: usize = 0;
    while i < list.len()
        invariant
            i <= list@.len(),
            forall|k: int| 0 <= k < i ==> entry_views(list@)[k].name != name@,
        decreases list@.len() - i,
    {
        if str_eq(list[i].name.as_str(), name) {
            return Some(i);
        }
        i = i + 1;
    }
    return None;
}

fn classify_dir_row(ds: &Vec<DirectoryListing>, acc: &mut Vec<OperatingSystem>)
    ensures
        entry_views(final(acc)@) =~= entry_views(old(acc)@) + classified_dirs(ds@),
{
    let ghost base = entry_views(old(acc)@);
    let mut i: usize = 0;
    proof {
        assert(classified_dirs(ds@.take(0)) =~= Seq::empty());
        assert(entry_views(acc@) =~= base + classified_dirs(ds@.take(0)));
    }
    while i < ds.len()
        invariant
            i <= ds@.len(),
            entry_views(acc@) =~= base + classified_dirs(ds@.take(i as int)),
        decreases ds@.len() - i,
    {
        let ghost pre = entry_views(acc@);
        match identify_os_from_boot_partition(&ds[i]) {
            Some(os) => {
                acc.push(os);
                proof {
                    assert(entry_views(acc@) =~= pre.push(os@));
                }
            },
            None => {},
        }
        i = i + 1;
        proof {
            assert(ds@.take(i as int).drop_last() =~= ds@.take(i - 1));
            assert(ds@.take(i as int).last() == ds@[i - 1]);
        }
    }
    proof {
        assert(ds@.take(i as int) =~= ds@);
    }
}

fn classify_image_row(cs: &Vec<ImageCandidate>, acc: &mut Vec<OperatingSystem>)
    ensures
        entry_views(final(acc)@) =~= entry_views(old(acc)@) + classified_images(cs@),
{
    let ghost base = entry_views(old(acc)@);
    let mut i: usize = 0;
    proof {
        assert(entry_views(acc@) =~= base + classified_images(cs@.take(0)));
    }
    while i < cs.len()
        invariant
            i <= cs@.len(),
            entry_views(acc@) =~= base + classified_images(cs@.take(i as int)),
        decreases cs@.len() - i,
    {
        let ghost pre = entry_views(acc@);
        let os = identify_os_from_image(&cs[i]);
        acc.push(os);
        i = i + 1;
        proof {
            assert(entry_views(acc@) =~= pre.push(os@));
            assert(classified_images(cs@.take(i as int)) =~= classified_images(
                cs@.take(i - 1),
            ).push(image_entry_view(cs@[i - 1])));
        }
    }
    proof {
        assert(cs@.take(i as int) =~= cs@);
    }
}

/// Scan the configured source locations: classify every candidate, keep the
/// first entry of each name, and list the survivors in catalog order. The
/// result is fully determined by what the scan found: it is sorted,
/// duplicate-free by name, and a permutation of the deduplicated
/// classification of the input.
pub fn scan_for_operating_systems(input: &ScanInput) -> (r: Vec<OperatingSystem>)
    ensures
        entries_sorted(entry_views(r@)),
        names_distinct(entry_views(r@)),
        entry_views(r@).to_multiset() == dedup_by_name(scan_candidates(*input)).to_multiset(),
{
    let mut candidates: Vec<OperatingSystem> = Vec::new();
    classify_dir_row(&input.boot_partitions, &mut candidates);
    classify_image_row(&input.image_files, &mut candidates);
    classify_dir_row(&input.usb_mounts, &mut candidates);
    proof {
        assert(entry_views(candidates@) =~= scan_candidates(*input));
    }

    // keep only the first occurrence of each name
    let ghost cviews = entry_views(candidates@);
    let mut unique: Vec<OperatingSystem> = Vec::new();
    let mut i: usize = 0;
    proof {
        assert(entry_views(unique@) =~= dedup_by_name(cviews.take(0)));
    }
    while i < candidates.len()
        invariant
            i <= candidates@.len(),
            cviews == entry_views(candidates@),
            entry_views(unique@) =~= dedup_by_name(cviews.take(i as int)),
        decreases candidates@.len() - i,
    {
        let ghost pre = entry_views(unique@);
        proof {
            lemma_dedup_names(cviews.take(i as int));
        }
        match find_by_name(&unique, candidates[i].name.as_str()) {
            Some(_) => {
                proof {
                    assert(has_name(pre, candidates@[i as int]@.name));
                    assert(has_name(cviews.take(i as int), cviews[i as int].name));
                }
            },
            None => {
                proof {
                    assert(!has_name(cviews.take(i as int), cviews[i as int].name));
                }
                let os = candidates[i].clone_entry();
                unique.push(os);
                proof {
                    assert(entry_views(unique@) =~= pre.push(cviews[i as int]));
                }
            },
        }
        i = i + 1;
        proof {
            assert(cviews.take(i as int).drop_last() =~= cviews.take(i - 1));
            assert(cviews.take(i as int).last() == cviews[i - 1]);
        }
    }
    proof {
        assert(cviews.take(i as int) =~= cviews);
    }

    let sorted = sort_entries(unique);
    proof {
        lemma_dedup_names(cviews);
        lemma_names_distinct_perm(entry_views(unique@), entry_views(sorted@));
    }
    sorted
}

impl OperatingSystem {
    /// A copy with the same view.
    pub fn clone_entry(&self) -> (r: OperatingSystem)
        ensures
            r@ == self@,
    {
        OperatingSystem {
            name: self.name.clone(),
            path: self.path.clone(),
            description: self.description.clone(),
            os_type: self.os_type,
            is_bootable: self.is_bootable,
            last_used: self.last_used,
        }
    }
}

// ---------- The stated laws of the catalog ----------

/// A scan is idempotent while the sources are unchanged: two scans whose
/// classified candidates agree produce the same entries in the same order,
/// whatever order the sources were enumerated in.
pub proof fn lemma_scan_idempotent(
    r1: Seq<OsEntryView>,
    r2: Seq<OsEntryView>,
    c1: Seq<OsEntryView>,
    c2: Seq<OsEntryView>,
)
    requires
        entries_sorted(r1),
        names_distinct(r1),
        r1.to_multiset() == dedup_by_name(c1).to_multiset(),
        entries_sorted(r2),
        names_distinct(r2),
        r2.to_multiset() == dedup_by_name(c2).to_multiset(),
        c1 == c2,
    ensures
        r1 =~= r2,
{
    lemma_catalog_listing_unique(r1, r2);
}

/// The catalog order is a strict total order on entries of distinct names:
/// of two such entries, exactly one comes before the other, and the order is
/// transitive.
pub proof fn lemma_order_total(a: OsEntryView, b: OsEntryView)
    requires
        a.name != b.name,
    ensures
        entry_lt(a, b) || entry_lt(b, a),
        !(entry_lt(a, b) && entry_lt(b, a)),
{
    lemma_entry_trichotomy(a, b);
}

} // verus!
