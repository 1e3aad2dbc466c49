//! What a session of the former layout consists of.

use crate::digest::sha256_hex;
use crate::digest;
use crate::text::{join2, same_text};
use vstd::prelude::*;
use vstd::utf8::*;

verus! {

pub const SOURCE_MANIFEST_SCHEMA: &'static str = "flow-legacy-source-manifest-v0";

/// A file of the former layout.
pub struct LegacySourceFile {
    pub domain: String,
    pub leaf: String,
    pub bytes: u64,
    pub sha256: String,
}

/// A file of the former layout, by its contents.
pub struct SourceFileModel {
    pub domain: Seq<char>,
    pub leaf: Seq<char>,
    pub bytes: u64,
    pub sha256: Seq<char>,
}

impl View for LegacySourceFile {
    type V = SourceFileModel;

    open spec fn view(&self) -> SourceFileModel {
        SourceFileModel {
            domain: self.domain@,
            leaf: self.leaf@,
            bytes: self.bytes,
            sha256: self.sha256@,
        }
    }
}

/// The objects of the former layout, all together.
pub struct LegacyObjectManifest {
    pub count: usize,
    pub bytes: u64,
    pub inventory_sha256: String,
}

/// Everything that a session of the former layout consists of, with the canonical
/// form of the record that says so.
pub struct LegacySourceManifest {
    pub schema: String,
    pub session_id: String,
    pub event_segments: Vec<LegacySourceFile>,
    pub context_segments: Vec<LegacySourceFile>,
    pub metadata: LegacySourceFile,
    pub lock: Option<LegacySourceFile>,
    pub objects: LegacyObjectManifest,
    pub canonical: String,
}

/// Everything that a session of the former layout consists of, by its contents.
pub struct ManifestModel {
    pub schema: Seq<char>,
    pub session_id: Seq<char>,
    pub event_segments: Seq<SourceFileModel>,
    pub context_segments: Seq<SourceFileModel>,
    pub metadata: SourceFileModel,
    pub lock: Option<SourceFileModel>,
    pub object_count: usize,
    pub object_bytes: u64,
    pub object_inventory: Seq<char>,
}

/// Files by their contents.
pub open spec fn files_view(files: Seq<LegacySourceFile>) -> Seq<SourceFileModel> {
    files.map_values(|file: LegacySourceFile| file@)
}

/// An optional file, by its contents.
pub open spec fn optional_file(file: Option<LegacySourceFile>) -> Option<SourceFileModel> {
    match file {
        Some(file) => Some(file@),
        None => None,
    }
}

impl View for LegacySourceManifest {
    type V = ManifestModel;

    open spec fn view(&self) -> ManifestModel {
        ManifestModel {
            schema: self.schema@,
            session_id: self.session_id@,
            event_segments: files_view(self.event_segments@),
            context_segments: files_view(self.context_segments@),
            metadata: self.metadata@,
            lock: optional_file(self.lock),
            object_count: self.objects.count,
            object_bytes: self.objects.bytes,
            object_inventory: self.objects.inventory_sha256@,
        }
    }
}

impl Clone for LegacySourceFile {
    fn clone(&self) -> (copy: Self)
        ensures
            copy@ == self@,
    {
        LegacySourceFile {
            domain: self.domain.clone(),
            leaf: self.leaf.clone(),
            bytes: self.bytes,
            sha256: self.sha256.clone(),
        }
    }
}

/// Another copy of some files.
pub fn clone_files(files: &Vec<LegacySourceFile>) -> (copy: Vec<LegacySourceFile>)
    ensures
        files_view(copy@) == files_view(files@),
{
    let mut copy: Vec<LegacySourceFile> = Vec::new();
    let mut i: usize = 0;
    while i < files.len()
        invariant
            i <= files.len(),
            copy@.len() == i,
            forall|k: int| 0 <= k < i ==> (#[trigger] copy@[k])@ == files@[k]@,
        decreases files.len() - i,
    {
        copy.push(files[i].clone());
        i = i + 1;
    }
    assert(files_view(copy@) =~= files_view(files@));
    copy
}

impl Clone for LegacySourceManifest {
    fn clone(&self) -> (copy: Self)
        ensures
            copy@ == self@,
            copy.canonical@ == self.canonical@,
    {
        LegacySourceManifest {
            schema: self.schema.clone(),
            session_id: self.session_id.clone(),
            event_segments: clone_files(&self.event_segments),
            context_segments: clone_files(&self.context_segments),
            metadata: self.metadata.clone(),
            lock: match &self.lock {
                Some(file) => Some(file.clone()),
                None => None,
            },
            objects: LegacyObjectManifest {
                count: self.objects.count,
                bytes: self.objects.bytes,
                inventory_sha256: self.objects.inventory_sha256.clone(),
            },
            canonical: self.canonical.clone(),
        }
    }
}

/// Whether two files are the same.
pub fn same_file(left: &LegacySourceFile, right: &LegacySourceFile) -> (same: bool)
    ensures
        same == (left@ == right@),
{
    same_text(left.domain.as_str(), right.domain.as_str()) && same_text(
        left.leaf.as_str(),
        right.leaf.as_str(),
    ) && left.bytes == right.bytes && same_text(left.sha256.as_str(), right.sha256.as_str())
}

/// Whether two lists of files are the same.
pub fn same_files(left: &Vec<LegacySourceFile>, right: &Vec<LegacySourceFile>) -> (same: bool)
    ensures
        same == (files_view(left@) == files_view(right@)),
{
    if left.len() != right.len() {
        assert(files_view(left@).len() != files_view(right@).len());
        return false;
    }
    let mut i: usize = 0;
    while i < left.len()
        invariant
            i <= left.len(),
            left.len() == right.len(),
            forall|k: int| 0 <= k < i ==> (#[trigger] left@[k])@ == right@[k]@,
        decreases left.len() - i,
    {
        if !same_file(&left[i], &right[i]) {
            assert(files_view(left@)[i as int] != files_view(right@)[i as int]);
            return false;
        }
        i = i + 1;
    }
    assert(files_view(left@) =~= files_view(right@));
    true
}

/// Whether two manifests say the same.
pub fn same_manifest(left: &LegacySourceManifest, right: &LegacySourceManifest) -> (same: bool)
    ensures
        same == (left@ == right@),
{
    let same_lock = match &left.lock {
        Some(file) => match &right.lock {
            Some(other) => same_file(file, other),
            None => false,
        },
        None => right.lock.is_none(),
    };
    same_text(left.schema.as_str(), right.schema.as_str()) && same_text(
        left.session_id.as_str(),
        right.session_id.as_str(),
    ) && same_files(&left.event_segments, &right.event_segments) && same_files(
        &left.context_segments,
        &right.context_segments,
    ) && same_file(&left.metadata, &right.metadata) && same_lock && left.objects.count
        == right.objects.count && left.objects.bytes == right.objects.bytes && same_text(
        left.objects.inventory_sha256.as_str(),
        right.objects.inventory_sha256.as_str(),
    )
}

/// The identifier of the entry that a migrated session begins with: the digest of
/// its manifest in canonical form.
pub open spec fn root_entry_id(canonical: Seq<char>) -> Seq<char> {
    "legacy-"@ + digest::digest_text(encode_utf8(canonical))
}

/// The identifier of the entry that a migrated session begins with.
pub fn legacy_root_entry_id(manifest: &LegacySourceManifest) -> (id: String)
    ensures
        id@ == root_entry_id(manifest.canonical@),
{
    let digest = sha256_hex(manifest.canonical.as_str().as_bytes());
    join2("legacy-", digest.as_str())
}

} // verus!
