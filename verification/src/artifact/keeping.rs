//! What is kept of an artifact that a codec made of a file.
use vstd::prelude::*;

use crate::artifact::bundle::{
    AssetImport, CodecImport, ImportView, is_taken_over, SupplementaryImport,
};
use crate::artifact::kind::{ArtifactError, kind_name};
use crate::artifact::revision::{
    ArtifactBundle, ArtifactRecord, describe_revision, is_record, semantic_hash_of,
};
use crate::artifact_codec::{
    ArtifactCodecBundle, ArtifactCodecError, ArtifactCodecProvenance, ArtifactCodecSupplementary,
    ArtifactCodecSupplementaryProvenance,
};
use crate::capsule::{at_hand, check_at_hand};
use crate::identity::{artifact_revision_hash, ContentHash, revision_hash_of, sha256, sha256_of};

verus! {

/// The events by which an artifact and those beside it are imported.
#[derive(Clone, Debug)]
pub struct ImportEvents {
    pub primary: String,
    pub supplementary: Vec<String>,
}

/// What is kept of an import: the records, where the artifact comes from, and the
/// digests of the files for which there was no file before.
#[derive(Debug)]
pub struct KeptImport {
    pub bundle: ArtifactBundle,
    pub provenance: ArtifactCodecProvenance,
    pub created: Vec<ContentHash>,
}

/// The revision of an artifact that is kept beside another.
pub open spec fn supplementary_revision(artifact: SupplementaryImport) -> Seq<u8> {
    revision_hash_of(
        kind_name(artifact.decoded.kind),
        artifact.source_format@,
        artifact.bytes@,
    )
}

/// The records of artifacts that are kept beside another.
pub open spec fn are_records(
    records: Seq<ArtifactRecord>,
    artifacts: Seq<SupplementaryImport>,
    events: Seq<String>,
) -> bool {
    &&& records.len() == artifacts.len()
    &&& forall|i: int|
        0 <= i < records.len() ==> is_record(
            #[trigger] records[i],
            supplementary_revision(artifacts[i]),
            artifacts[i].bytes@,
            artifacts[i].decoded,
            artifacts[i].source_format@,
            events[i]@,
        )
}

/// Where the artifacts that are kept beside another come from.
pub open spec fn are_sources(
    sources: Seq<ArtifactCodecSupplementaryProvenance>,
    artifacts: Seq<SupplementaryImport>,
    proposed: Seq<ArtifactCodecSupplementary>,
) -> bool {
    &&& sources.len() == artifacts.len()
    &&& forall|i: int|
        0 <= i < sources.len() ==> {
            &&& (#[trigger] sources[i]).logical_path == artifacts[i].logical_path
            &&& sources[i].embedded == proposed[i].embedded
            &&& sources[i].revision_hash@ == supplementary_revision(artifacts[i])
        }
}

/// A digest is that of one of the files.
pub open spec fn is_asset_digest(assets: Seq<AssetImport>, digest: Seq<u8>) -> bool {
    exists|i: int| 0 <= i < assets.len() && sha256_of((#[trigger] assets[i]).bytes@) == digest
}

/// The digests of the files for which there is no file yet, each of them once.
pub open spec fn are_new_files(
    created: Seq<ContentHash>,
    assets: Seq<AssetImport>,
    present: Seq<ContentHash>,
) -> bool {
    &&& forall|i: int|
        0 <= i < created.len() ==> is_asset_digest(assets, (#[trigger] created[i])@) && !at_hand(
            present,
            created[i]@,
        )
    &&& forall|i: int|
        0 <= i < assets.len() ==> at_hand(present, sha256_of((#[trigger] assets[i]).bytes@))
            || at_hand(created, sha256_of(assets[i].bytes@))
    &&& forall|i: int, j: int|
        0 <= i < j < created.len() ==> (#[trigger] created[i])@ != (#[trigger] created[j])@
}

/// The digests of the files for which there is no file yet: those that are taken
/// away again where nothing is kept in the end.
pub fn new_files(assets: &Vec<AssetImport>, present: &Vec<ContentHash>) -> (created: Vec<
    ContentHash,
>)
    ensures
        are_new_files(created@, assets@, present@),
{
    let mut created: Vec<ContentHash> = Vec::new();
    let mut k: usize = 0;
    while k < assets.len()
        invariant
            k <= assets@.len(),
            forall|i: int|
                0 <= i < created@.len() ==> is_asset_digest(assets@, (#[trigger] created@[i])@)
                    && !at_hand(present@, created@[i]@),
            forall|i: int|
                0 <= i < k ==> at_hand(present@, sha256_of((#[trigger] assets@[i]).bytes@))
                    || at_hand(created@, sha256_of(assets@[i].bytes@)),
            forall|i: int, j: int|
                0 <= i < j < created@.len() ==> (#[trigger] created@[i])@ != (
                #[trigger] created@[j])@,
        decreases assets@.len() - k,
    {
        let digest = ContentHash::new(sha256(&assets[k].bytes));
        let ghost before = created@;
        if !check_at_hand(present, &digest) && !check_at_hand(&created, &digest) {
            created.push(digest);
            proof {
                assert(created@[before.len() as int]@ == digest@);
                assert(is_asset_digest(assets@, digest@)) by {
                    assert(sha256_of(assets@[k as int].bytes@) == digest@);
                }
                assert forall|i: int| 0 <= i < k implies at_hand(
                    present@,
                    sha256_of((#[trigger] assets@[i]).bytes@),
                ) || at_hand(created@, sha256_of(assets@[i].bytes@)) by {
                    if at_hand(before, sha256_of(assets@[i].bytes@)) {
                        let j = choose|j: int|
                            0 <= j < before.len() && (#[trigger] before[j])@ == sha256_of(
                                assets@[i].bytes@,
                            );
                        assert(created@[j] == before[j]);
                    }
                }
            }
        }
        k = k + 1;
    }
    created
}

/// What is kept of an import that a codec made.
pub open spec fn is_kept_import(
    kept: KeptImport,
    import: CodecImport,
    proposed: ArtifactCodecBundle,
    provenance: ArtifactCodecProvenance,
    events: ImportEvents,
    present: Seq<ContentHash>,
) -> bool {
    &&& is_record(
        kept.bundle.primary,
        import.revision_hash@,
        import.payload@,
        import.decoded,
        proposed.source_format@,
        events.primary@,
    )
    &&& are_records(
        kept.bundle.supplementary_artifacts@,
        import.supplementary@,
        events.supplementary@,
    )
    &&& kept.bundle.asset_count == import.assets@.len()
    &&& are_sources(
        kept.provenance.supplementary_artifacts@,
        import.supplementary@,
        proposed.supplementary_artifacts@,
    )
    &&& kept.provenance == (ArtifactCodecProvenance {
        supplementary_artifacts: kept.provenance.supplementary_artifacts,
        ..provenance
    })
    &&& are_new_files(kept.created@, import.assets@, present)
}

/// Some artifact of an import has no canonical form.
pub open spec fn is_unhashable(import: CodecImport) -> bool {
    ||| semantic_hash_of(import.decoded.semantic@) is None
    ||| exists|i: int|
        0 <= i < import.supplementary@.len() && semantic_hash_of(
            (#[trigger] import.supplementary@[i]).decoded.semantic@,
        ) is None
}

/// Works out what is kept of an import that a codec made, given the files that
/// are there.
pub fn keep_codec_import(
    import: &CodecImport,
    proposed: &ArtifactCodecBundle,
    provenance: ArtifactCodecProvenance,
    events: &ImportEvents,
    present: &Vec<ContentHash>,
) -> (r: Result<KeptImport, ArtifactError>)
    requires
        events.supplementary@.len() == import.supplementary@.len(),
        proposed.supplementary_artifacts@.len() == import.supplementary@.len(),
    ensures
        match r {
            Ok(kept) => is_kept_import(kept, *import, *proposed, provenance, *events, present@),
            Err(e) => e == ArtifactError::Canonicalize && is_unhashable(*import),
        },
{
    let primary = match describe_revision(
        import.revision_hash,
        &import.payload,
        &import.decoded,
        proposed.source_format.as_str(),
        events.primary.as_str(),
    ) {
        Ok(record) => record,
        Err(e) => return Err(e),
    };
    let mut records: Vec<ArtifactRecord> = Vec::new();
    let mut sources: Vec<ArtifactCodecSupplementaryProvenance> = Vec::new();
    let mut i: usize = 0;
    while i < import.supplementary.len()
        invariant
            i <= import.supplementary@.len(),
            events.supplementary@.len() == import.supplementary@.len(),
            proposed.supplementary_artifacts@.len() == import.supplementary@.len(),
            are_records(
                records@,
                import.supplementary@.take(i as int),
                events.supplementary@,
            ),
            are_sources(
                sources@,
                import.supplementary@.take(i as int),
                proposed.supplementary_artifacts@,
            ),
        decreases import.supplementary@.len() - i,
    {
        let artifact = &import.supplementary[i];
        let revision_hash = artifact_revision_hash(
            artifact.decoded.kind.as_str(),
            artifact.source_format.as_str(),
            artifact.bytes.as_slice(),
        );
        let record = match describe_revision(
            revision_hash,
            &artifact.bytes,
            &artifact.decoded,
            artifact.source_format.as_str(),
            events.supplementary[i].as_str(),
        ) {
            Ok(record) => record,
            Err(e) => return Err(e),
        };
        records.push(record);
        sources.push(
            ArtifactCodecSupplementaryProvenance {
                logical_path: artifact.logical_path.clone(),
                embedded: proposed.supplementary_artifacts[i].embedded,
                revision_hash,
            },
        );
        i = i + 1;
    }
    proof {
        assert(import.supplementary@.take(i as int) =~= import.supplementary@);
    }
    Ok(
        KeptImport {
            bundle: ArtifactBundle {
                primary,
                supplementary_artifacts: records,
                asset_count: import.assets.len(),
            },
            provenance: ArtifactCodecProvenance {
                supplementary_artifacts: sources,
                ..provenance
            },
            created: new_files(&import.assets, present),
        },
    )
}

/// Where nothing is kept in the end, what is taken away again is what was not
/// there before: a file that was there stays.
pub proof fn law_files_that_were_there_stay(
    kept: KeptImport,
    import: CodecImport,
    proposed: ArtifactCodecBundle,
    provenance: ArtifactCodecProvenance,
    events: ImportEvents,
    present: Seq<ContentHash>,
    i: int,
)
    requires
        is_kept_import(kept, import, proposed, provenance, events, present),
        0 <= i < kept.created@.len(),
    ensures
        !at_hand(present, kept.created@[i]@),
        is_asset_digest(import.assets@, kept.created@[i]@),
{
}

/// A revision that is kept is not taken over a second time, whatever the codec
/// made of the file.
pub proof fn law_kept_revisions_are_refused(
    r: Result<CodecImport, ArtifactCodecError>,
    view: ImportView,
    revisions: Seq<ContentHash>,
    i: int,
)
    requires
        is_taken_over(r, view, revisions),
        0 <= i < revisions.len(),
        revisions[i]@ == view.revision_hash,
    ensures
        r matches Err(ArtifactCodecError::RevisionConflict(hash)) && hash@ == view.revision_hash,
{
}

} // verus!
