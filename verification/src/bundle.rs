//! The bundle: a manifest with a revision, and the three relation snapshots
//! the revision was computed from.

use crate::archive::{accepts, is_plain_path, tar_gz, Archive};
use crate::error::{FetchError, Relation, SerializationError};
use crate::json::{
    encode_string, frame_manifest, is_document, is_json, json_string, manifest_json,
};
use crate::etag::{is_etagc, is_opaque};
use crate::text::{
    ascii_bytes, decimal, is_digit, lemma_decimal_digits, lemma_decimal_injective, push_ascii,
    push_decimal, views,
};
use std::collections::hash_map::DefaultHasher;
use std::hash::Hasher;
use vstd::bytes::{spec_u64_to_le_bytes, u64_to_le_bytes};
use vstd::prelude::*;
use vstd::std_specs::hash::DefaultHasherAdditionalSpecFns;
use vstd::string::*;
use vstd::utf8::is_ascii_chars;

verus! {

/// The version of this package, the first half of every revision.
pub const PKG_VERSION: &'static str = "0.1.0";

/// The root under which the relation documents lie in every archive.
pub const BUNDLE_PREFIX: &'static str = "diamond/data";

/// The absence of metadata: the manifest then carries `null`.
#[derive(Debug, Clone, Copy, Hash)]
pub struct NoMetadata;

impl NoMetadata {
    /// The document that stands for no metadata.
    pub fn encode(&self) -> (document: Document)
        ensures
            document@ == ascii_bytes("null"@),
    {
        let mut bytes: Vec<u8> = Vec::new();
        proof {
            reveal_strlit("null");
        }
        push_ascii(&mut bytes, "null");
        Document::new(bytes)
    }
}

/// A value as the JSON document that encodes it: the snapshot of a relation,
/// or the metadata attached to a manifest.
pub struct Document {
    json: Vec<u8>,
}

impl View for Document {
    type V = Seq<u8>;

    closed spec fn view(&self) -> Seq<u8> {
        self.json@
    }
}

impl Document {
    /// A document that holds `json`. Whether the bytes are JSON is asked when
    /// the bundle is packed.
    pub fn new(json: Vec<u8>) -> (document: Document)
        ensures
            document@ == json@,
    {
        Document { json }
    }

    /// The bytes of the document.
    pub fn as_bytes(&self) -> (bytes: &[u8])
        ensures
            bytes@ == self@,
    {
        self.json.as_slice()
    }
}

/// The length of a field as eight bytes, least significant first.
pub open spec fn length_prefix(field: Seq<u8>) -> Seq<u8> {
    spec_u64_to_le_bytes(field.len() as u64)
}

/// What the hasher is fed, write by write: each field in the fixed order
/// metadata, proposals, sessions, permissions, with its length before it.
pub open spec fn hashed(
    metadata: Seq<u8>,
    proposals: Seq<u8>,
    sessions: Seq<u8>,
    permissions: Seq<u8>,
) -> Seq<Seq<u8>> {
    seq![
        length_prefix(metadata),
        metadata,
        length_prefix(proposals),
        proposals,
        length_prefix(sessions),
        sessions,
        length_prefix(permissions),
        permissions,
    ]
}

/// The 64-bit hash of the four fields.
pub open spec fn digest(
    metadata: Seq<u8>,
    proposals: Seq<u8>,
    sessions: Seq<u8>,
    permissions: Seq<u8>,
) -> u64 {
    DefaultHasher::spec_finish(hashed(metadata, proposals, sessions, permissions))
}

/// The revision for a digest: the package version, a colon and the digest in
/// decimal.
pub open spec fn revision_text(digest: u64) -> Seq<char> {
    PKG_VERSION@ + seq![':'] + decimal(digest as nat)
}

/// The revision of a bundle made from these four fields.
pub open spec fn revision_of(
    metadata: Seq<u8>,
    proposals: Seq<u8>,
    sessions: Seq<u8>,
    permissions: Seq<u8>,
) -> Seq<char> {
    revision_text(digest(metadata, proposals, sessions, permissions))
}

/// The name of a relation as it stands in archive paths.
pub open spec fn relation_name(relation: Relation) -> Seq<char> {
    match relation {
        Relation::Proposals => "proposals"@,
        Relation::Sessions => "sessions"@,
        Relation::Permissions => "permissions"@,
    }
}

/// The path of the manifest in every archive.
pub open spec fn manifest_path() -> Seq<char> {
    ".manifest"@
}

/// The path of a relation's document in every archive. It does not depend on
/// the revision.
pub open spec fn snapshot_path(relation: Relation) -> Seq<char> {
    BUNDLE_PREFIX@ + "/users/"@ + relation_name(relation) + "/data.json"@
}

/// What a bundle is, for contracts: its revision and its four encoded
/// fields.
pub struct BundleView {
    pub revision: Seq<char>,
    pub metadata: Seq<u8>,
    pub proposals: Seq<u8>,
    pub sessions: Seq<u8>,
    pub permissions: Seq<u8>,
}

/// The manifest document of a bundle.
pub open spec fn manifest_of(bundle: BundleView) -> Seq<u8> {
    manifest_json(bundle.revision, seq![BUNDLE_PREFIX@], bundle.metadata)
}

/// The four entries of a bundle's archive, in their fixed order.
pub open spec fn archive_entries(bundle: BundleView) -> Seq<(Seq<char>, Seq<u8>)> {
    seq![
        (manifest_path(), manifest_of(bundle)),
        (snapshot_path(Relation::Proposals), bundle.proposals),
        (snapshot_path(Relation::Sessions), bundle.sessions),
        (snapshot_path(Relation::Permissions), bundle.permissions),
    ]
}

/// The archive of a bundle whose entries were all accepted, or nothing when
/// the compressor fails on it.
pub open spec fn archive_of(bundle: BundleView) -> Option<Seq<u8>> {
    tar_gz(archive_entries(bundle))
}

/// Whether every field of the bundle is a JSON document.
pub open spec fn encodable(bundle: BundleView) -> bool {
    &&& is_json(bundle.metadata)
    &&& is_json(bundle.proposals)
    &&& is_json(bundle.sessions)
    &&& is_json(bundle.permissions)
}

/// What packing a bundle gives. The fields are taken in the order metadata,
/// proposals, sessions, permissions; the manifest is added once the metadata
/// was found to be JSON, and each snapshot once it was. The first field
/// that is not a JSON document is reported, and so is the first entry that
/// the tar writer does not accept. When all four entries are in, the result
/// is their archive, or the failure of the compressor.
pub open spec fn packed(bundle: BundleView) -> Result<Seq<u8>, SerializationError> {
    if !is_json(bundle.metadata) {
        Err(SerializationError::Metadata)
    } else if !accepts(manifest_path(), manifest_of(bundle).len()) {
        Err(SerializationError::Archive)
    } else if !is_json(bundle.proposals) {
        Err(SerializationError::Snapshot(Relation::Proposals))
    } else if !accepts(snapshot_path(Relation::Proposals), bundle.proposals.len()) {
        Err(SerializationError::Archive)
    } else if !is_json(bundle.sessions) {
        Err(SerializationError::Snapshot(Relation::Sessions))
    } else if !accepts(snapshot_path(Relation::Sessions), bundle.sessions.len()) {
        Err(SerializationError::Archive)
    } else if !is_json(bundle.permissions) {
        Err(SerializationError::Snapshot(Relation::Permissions))
    } else if !accepts(snapshot_path(Relation::Permissions), bundle.permissions.len()) {
        Err(SerializationError::Archive)
    } else {
        match archive_of(bundle) {
            Some(bytes) => Ok(bytes),
            None => Err(SerializationError::Compression),
        }
    }
}

/// What the manifest document is made from.
struct Manifest {
    revision: String,
    roots: Vec<String>,
    metadata: Document,
}

/// A manifest and the three snapshots. A bundle is made once and never
/// changed.
pub struct Bundle {
    manifest: Manifest,
    proposals: Document,
    sessions: Document,
    permissions: Document,
}

impl View for Bundle {
    type V = BundleView;

    closed spec fn view(&self) -> BundleView {
        BundleView {
            revision: self.manifest.revision@,
            metadata: self.manifest.metadata@,
            proposals: self.proposals@,
            sessions: self.sessions@,
            permissions: self.permissions@,
        }
    }
}

/// Feeds one field to the hasher: its length, then its bytes.
fn absorb(hasher: &mut DefaultHasher, field: &[u8])
    ensures
        final(hasher)@ == old(hasher)@.push(length_prefix(field@)).push(field@),
{
    let prefix = u64_to_le_bytes(field.len() as u64);
    hasher.write(prefix.as_slice());
    hasher.write(field);
}

/// The path of a relation's document.
fn path_of(relation: Relation) -> (path: String)
    ensures
        path@ == snapshot_path(relation),
        is_plain_path(path@),
{
    proof {
        reveal_strlit("diamond/data");
        reveal_strlit("/users/");
        reveal_strlit("proposals");
        reveal_strlit("sessions");
        reveal_strlit("permissions");
        reveal_strlit("/data.json");
    }
    let mut path = String::from_str(BUNDLE_PREFIX);
    path.append("/users/");
    match relation {
        Relation::Proposals => path.append("proposals"),
        Relation::Sessions => path.append("sessions"),
        Relation::Permissions => path.append("permissions"),
    }
    path.append("/data.json");
    path
}

/// Adds the document of one relation to the archive, if it is a JSON
/// document. The tar writer accepts the entry, since its path is plain.
fn append_snapshot(archive: Archive, relation: Relation, snapshot: &Document) -> (out: Result<
    Archive,
    SerializationError,
>)
    ensures
        match out {
            Ok(next) => {
                &&& is_json(snapshot@)
                &&& accepts(snapshot_path(relation), snapshot@.len())
                &&& next.entries() == archive.entries().push((snapshot_path(relation), snapshot@))
            },
            Err(e) => e == SerializationError::Snapshot(relation) && !is_json(snapshot@),
        },
{
    if !is_document(snapshot.as_bytes()) {
        return Err(SerializationError::Snapshot(relation));
    }
    let path = path_of(relation);
    archive.append(path.as_str(), snapshot.as_bytes())
}

impl Manifest {
    /// The manifest document.
    fn to_json(&self) -> (bytes: Vec<u8>)
        ensures
            bytes@ == manifest_json(
                self.revision@,
                self.roots@.map_values(|root: String| root@),
                self.metadata@,
            ),
    {
        let revision = encode_string(self.revision.as_str());
        let ghost texts = self.roots@.map_values(|root: String| root@);
        let ghost wanted = texts.map_values(|root: Seq<char>| json_string(root));
        let mut roots: Vec<Vec<u8>> = Vec::new();
        let mut i: usize = 0;
        while i < self.roots.len()
            invariant
                i <= self.roots.len(),
                texts == self.roots@.map_values(|root: String| root@),
                wanted == texts.map_values(|root: Seq<char>| json_string(root)),
                views(roots@) =~= wanted.take(i as int),
            decreases self.roots.len() - i,
        {
            let root = encode_string(self.roots[i].as_str());
            roots.push(root);
            proof {
                assert(texts[i as int] == self.roots@[i as int]@);
                assert(wanted[i as int] == json_string(texts[i as int]));
                assert(views(roots@).last() == wanted[i as int]);
                assert(views(roots@).drop_last() =~= wanted.take(i as int));
            }
            i += 1;
        }
        proof {
            assert(wanted.take(i as int) =~= wanted);
        }
        frame_manifest(revision.as_slice(), &roots, self.metadata.as_bytes())
    }
}

impl Bundle {
    /// The revision is the one computed from the four fields, and the roots
    /// are the one constant prefix.
    #[verifier::type_invariant]
    pub closed spec fn well_formed(&self) -> bool {
        &&& self.manifest.revision@ == revision_of(
            self.manifest.metadata@,
            self.proposals@,
            self.sessions@,
            self.permissions@,
        )
        &&& self.manifest.roots@.map_values(|root: String| root@) == seq![BUNDLE_PREFIX@]
    }

    /// A bundle of the metadata and the three snapshots, with the revision
    /// computed from them.
    pub fn new(metadata: Document, proposals: Document, sessions: Document, permissions: Document) -> (bundle:
        Self)
        ensures
            bundle.well_formed(),
            bundle@ == (BundleView {
                revision: revision_of(
                    metadata@,
                    proposals@,
                    sessions@,
                    permissions@,
                ),
                metadata: metadata@,
                proposals: proposals@,
                sessions: sessions@,
                permissions: permissions@,
            }),
    {
        let mut hasher = DefaultHasher::new();
        absorb(&mut hasher, metadata.as_bytes());
        absorb(&mut hasher, proposals.as_bytes());
        absorb(&mut hasher, sessions.as_bytes());
        absorb(&mut hasher, permissions.as_bytes());
        proof {
            assert(hasher@ =~= hashed(metadata@, proposals@, sessions@, permissions@));
        }
        let hash = hasher.finish();

        let mut revision = String::from_str(PKG_VERSION);
        revision.append(":");
        proof {
            reveal_strlit(":");
            assert(":"@ =~= seq![':']);
        }
        push_decimal(&mut revision, hash);

        let mut roots: Vec<String> = Vec::new();
        roots.push(String::from_str(BUNDLE_PREFIX));
        proof {
            assert(roots@.map_values(|root: String| root@) =~= seq![BUNDLE_PREFIX@]);
        }
        Self { manifest: Manifest { revision, roots, metadata }, proposals, sessions, permissions }
    }

    /// A bundle of what the data provider returned for the three relations:
    /// all of it or nothing. When a fetch has failed there is no bundle, and
    /// the error is that of the first relation that failed, in the order
    /// proposals, sessions, permissions.
    pub fn fetch(
        metadata: Document,
        proposals: Result<Document, FetchError>,
        sessions: Result<Document, FetchError>,
        permissions: Result<Document, FetchError>,
    ) -> (out: Result<Self, FetchError>)
        ensures
            match (proposals, sessions, permissions) {
                (Ok(p), Ok(s), Ok(q)) => out matches Ok(bundle) && bundle.well_formed() && bundle@
                    == (BundleView {
                    revision: revision_of(metadata@, p@, s@, q@),
                    metadata: metadata@,
                    proposals: p@,
                    sessions: s@,
                    permissions: q@,
                }),
                (Err(e), _, _) => out matches Err(f) && f == e,
                (Ok(_), Err(e), _) => out matches Err(f) && f == e,
                (Ok(_), Ok(_), Err(e)) => out matches Err(f) && f == e,
            },
    {
        let proposals = match proposals {
            Ok(snapshot) => snapshot,
            Err(e) => {
                return Err(e);
            },
        };
        let sessions = match sessions {
            Ok(snapshot) => snapshot,
            Err(e) => {
                return Err(e);
            },
        };
        let permissions = match permissions {
            Ok(snapshot) => snapshot,
            Err(e) => {
                return Err(e);
            },
        };
        Ok(Self::new(metadata, proposals, sessions, permissions))
    }

    /// The revision of a bundle is the one computed from its four fields.
    pub proof fn lemma_revision(&self)
        requires
            self.well_formed(),
        ensures
            self@.revision == revision_of(
                self@.metadata,
                self@.proposals,
                self@.sessions,
                self@.permissions,
            ),
    {
    }

    /// The revision of this bundle.
    pub fn revision(&self) -> (revision: &str)
        ensures
            revision@ == self@.revision,
            self@.revision == revision_of(
                self@.metadata,
                self@.proposals,
                self@.sessions,
                self@.permissions,
            ),
    {
        proof {
            use_type_invariant(self);
        }
        self.manifest.revision.as_str()
    }

    /// Packs the bundle into its archive: the manifest and the three relation
    /// documents, in this order, as a tar stream compressed at the best
    /// level. The result is [`packed`] of the bundle, whether an archive or
    /// an error. The tar writer accepts the four entries, whose paths are
    /// plain: so the only errors are a field that is not a JSON document and
    /// a failure of the compressor.
    pub fn to_tar_gz(&self) -> (out: Result<Vec<u8>, SerializationError>)
        ensures
            match out {
                Ok(bytes) => packed(self@) == Ok::<Seq<u8>, SerializationError>(bytes@),
                Err(error) => packed(self@) == Err::<Seq<u8>, SerializationError>(error),
            },
            out is Ok <==> encodable(self@) && archive_of(self@) is Some,
            out matches Err(error) ==> error != SerializationError::Archive,
    {
        proof {
            use_type_invariant(self);
            reveal_strlit(".manifest");
            assert(is_plain_path(".manifest"@));
        }
        let archive = Archive::new();

        if !is_document(self.manifest.metadata.as_bytes()) {
            return Err(SerializationError::Metadata);
        }
        let manifest = self.manifest.to_json();
        assert(manifest@ == manifest_of(self@));
        let archive = match archive.append(".manifest", manifest.as_slice()) {
            Ok(next) => next,
            Err(e) => {
                return Err(e);
            },
        };
        let archive = match append_snapshot(archive, Relation::Proposals, &self.proposals) {
            Ok(next) => next,
            Err(e) => {
                return Err(e);
            },
        };
        let archive = match append_snapshot(archive, Relation::Sessions, &self.sessions) {
            Ok(next) => next,
            Err(e) => {
                return Err(e);
            },
        };
        let archive = match append_snapshot(archive, Relation::Permissions, &self.permissions) {
            Ok(next) => next,
            Err(e) => {
                return Err(e);
            },
        };
        proof {
            assert(archive.entries() =~= archive_entries(self@));
        }
        archive.finish()
    }
}

/// A revision is ASCII text, and each of its characters may stand between the
/// quotes of an entity tag.
pub proof fn lemma_revision_text(digest: u64)
    ensures
        is_ascii_chars(revision_text(digest)),
        is_opaque(ascii_bytes(revision_text(digest))),
{
    reveal_strlit("0.1.0");
    lemma_decimal_digits(digest as nat);
    let text = revision_text(digest);
    let numeral = decimal(digest as nat);
    assert forall|i: int| 0 <= i < text.len() implies '!' <= #[trigger] text[i] <= '~' && text[i]
        != '"' by {
        if i >= 6 {
            assert(text[i] == numeral[i - 6]);
            assert(is_digit(numeral[i - 6]));
        }
    }
    assert forall|i: int| 0 <= i < ascii_bytes(text).len() implies is_etagc(
        #[trigger] ascii_bytes(text)[i],
    ) by {
        assert(ascii_bytes(text)[i] == text[i] as u8);
    }
}

/// Two digests with the same revision are the same digest.
pub proof fn lemma_revision_injective(a: u64, b: u64)
    requires
        revision_text(a) == revision_text(b),
    ensures
        a == b,
{
    let prefix = PKG_VERSION@ + seq![':'];
    assert(revision_text(a).subrange(prefix.len() as int, revision_text(a).len() as int) =~= decimal(
        a as nat,
    ));
    assert(revision_text(b).subrange(prefix.len() as int, revision_text(b).len() as int) =~= decimal(
        b as nat,
    ));
    lemma_decimal_injective(a as nat, b as nat);
}

/// Packing gives an archive exactly when every field is a JSON document, the
/// tar writer accepts the four entries and the compressor does not fail, and
/// the archive is then that of the four entries. A field that is not JSON is
/// never passed over, and none is reported that is JSON.
pub proof fn lemma_packed_fields(bundle: BundleView)
    ensures
        packed(bundle) is Ok <==> {
            &&& encodable(bundle)
            &&& accepts(manifest_path(), manifest_of(bundle).len())
            &&& accepts(snapshot_path(Relation::Proposals), bundle.proposals.len())
            &&& accepts(snapshot_path(Relation::Sessions), bundle.sessions.len())
            &&& accepts(snapshot_path(Relation::Permissions), bundle.permissions.len())
            &&& archive_of(bundle) is Some
        },
        packed(bundle) matches Ok(bytes) ==> archive_of(bundle) == Some(bytes),
        !encodable(bundle) ==> packed(bundle) is Err,
        packed(bundle) == Err::<Seq<u8>, SerializationError>(SerializationError::Metadata)
            <==> !is_json(bundle.metadata),
        packed(bundle) == Err::<Seq<u8>, SerializationError>(
            SerializationError::Snapshot(Relation::Proposals),
        ) ==> is_json(bundle.metadata) && !is_json(bundle.proposals),
        packed(bundle) == Err::<Seq<u8>, SerializationError>(
            SerializationError::Snapshot(Relation::Sessions),
        ) ==> is_json(bundle.metadata) && is_json(bundle.proposals) && !is_json(bundle.sessions),
        packed(bundle) == Err::<Seq<u8>, SerializationError>(
            SerializationError::Snapshot(Relation::Permissions),
        ) ==> is_json(bundle.metadata) && is_json(bundle.proposals) && is_json(bundle.sessions)
            && !is_json(bundle.permissions),
{
}

/// Two bundles made from the same four fields have the same revision, and
/// packing them gives the same result: both the same archive, byte for byte,
/// or both the same error.
pub proof fn lemma_deterministic(a: Bundle, b: Bundle)
    requires
        a.well_formed(),
        b.well_formed(),
        a@.metadata == b@.metadata,
        a@.proposals == b@.proposals,
        a@.sessions == b@.sessions,
        a@.permissions == b@.permissions,
    ensures
        a@.revision == b@.revision,
        a@ == b@,
        packed(a@) == packed(b@),
{
    a.lemma_revision();
    b.lemma_revision();
}

/// Two bundles with the same revision were made from fields with the same
/// digest. So when a field changes, the revision changes too, unless the
/// hasher gives two different inputs the same hash.
pub proof fn lemma_sensitive(a: Bundle, b: Bundle)
    requires
        a.well_formed(),
        b.well_formed(),
        a@.revision == b@.revision,
    ensures
        digest(a@.metadata, a@.proposals, a@.sessions, a@.permissions) == digest(
            b@.metadata,
            b@.proposals,
            b@.sessions,
            b@.permissions,
        ),
        a@ != b@ ==> hashed(a@.metadata, a@.proposals, a@.sessions, a@.permissions) != hashed(
            b@.metadata,
            b@.proposals,
            b@.sessions,
            b@.permissions,
        ),
{
    a.lemma_revision();
    b.lemma_revision();
    lemma_revision_injective(
        digest(a@.metadata, a@.proposals, a@.sessions, a@.permissions),
        digest(b@.metadata, b@.proposals, b@.sessions, b@.permissions),
    );
    let fed_a = hashed(a@.metadata, a@.proposals, a@.sessions, a@.permissions);
    let fed_b = hashed(b@.metadata, b@.proposals, b@.sessions, b@.permissions);
    if fed_a == fed_b {
        assert(fed_a[1] == fed_b[1]);
        assert(fed_a[3] == fed_b[3]);
        assert(fed_a[5] == fed_b[5]);
        assert(fed_a[7] == fed_b[7]);
    }
}

} // verus!
