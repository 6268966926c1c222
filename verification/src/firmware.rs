use vstd::prelude::*;
use vstd::string::StringExecFns;

use crate::crypto::{
    base64_standard_decoding, decode_base64_standard, ed25519_key_decodes,
    ed25519_public_key_decodes, ed25519_signature_accepted, ed25519_signature_from_slice,
    ed25519_verify, lower_hex, matches_lower_hex, sha256, sha256_digest,
};
use crate::interfaces::{
    contains_text, identity_option_view, string_option_view, strings_view, text_eq, FirmwareBootHealth,
    FirmwareImageIdentity, FirmwareManifest, FirmwareUpdateTelemetry, ImageIdentityModel,
    SignedFirmwareManifest,
};

verus! {

/// What this controller accepts: its family, its hardware revision, the
/// protocol it speaks, the lowest rollback epoch it still installs, and how
/// many failed boots of a new image it tolerates before rolling back.
#[derive(Debug, Clone, PartialEq, Eq)]
pub struct FirmwareUpdatePolicy {
    pub controller_family: String,
    pub hardware_revision: String,
    pub protocol_version: u16,
    pub minimum_rollback_epoch: u64,
    pub boot_attempt_limit: u8,
}

/// The mathematical value of a [`FirmwareUpdatePolicy`].
pub ghost struct PolicyModel {
    pub controller_family: Seq<char>,
    pub hardware_revision: Seq<char>,
    pub protocol_version: u16,
    pub minimum_rollback_epoch: u64,
    pub boot_attempt_limit: u8,
}

impl View for FirmwareUpdatePolicy {
    type V = PolicyModel;

    open spec fn view(&self) -> PolicyModel {
        PolicyModel {
            controller_family: self.controller_family@,
            hardware_revision: self.hardware_revision@,
            protocol_version: self.protocol_version,
            minimum_rollback_epoch: self.minimum_rollback_epoch,
            boot_attempt_limit: self.boot_attempt_limit,
        }
    }
}

/// A public key that may sign firmware, with the lowest rollback epoch it may sign.
#[derive(Debug, Clone, PartialEq, Eq)]
pub struct TrustedFirmwareKey {
    pub key_id: String,
    pub public_key_ed25519: [u8; 32],
    pub minimum_rollback_epoch: u64,
}

/// The mathematical value of a [`TrustedFirmwareKey`].
pub ghost struct KeyModel {
    pub key_id: Seq<char>,
    pub public_key: Seq<u8>,
    pub minimum_rollback_epoch: u64,
}

impl View for TrustedFirmwareKey {
    type V = KeyModel;

    open spec fn view(&self) -> KeyModel {
        KeyModel {
            key_id: self.key_id@,
            public_key: self.public_key_ed25519@,
            minimum_rollback_epoch: self.minimum_rollback_epoch,
        }
    }
}

impl TrustedFirmwareKey {
    /// A field-by-field copy.
    pub fn duplicate(&self) -> (copy: Self)
        ensures
            copy@ == self@,
    {
        TrustedFirmwareKey {
            key_id: self.key_id.clone(),
            public_key_ed25519: self.public_key_ed25519,
            minimum_rollback_epoch: self.minimum_rollback_epoch,
        }
    }
}

/// Why a firmware operation was refused.
#[derive(Debug, Clone, Copy, PartialEq, Eq, Structural)]
pub enum FirmwareUpdateError {
    InvalidManifest,
    UnknownSigningKey,
    RevokedSigningKey,
    InvalidSigningKey,
    WrongControllerFamily,
    IncompatibleHardware,
    IncompatibleProtocol,
    RollbackForbidden,
    ArtifactSizeMismatch,
    ArtifactDigestMismatch,
    InvalidSignatureEncoding,
    InvalidSignature,
    NoPendingUpdate,
    InvalidBootAttemptLimit,
}

/// The sentence that describes each error.
pub open spec fn firmware_error_text(error: FirmwareUpdateError) -> Seq<char> {
    match error {
        FirmwareUpdateError::InvalidManifest => "firmware manifest is invalid"@,
        FirmwareUpdateError::UnknownSigningKey => "firmware signing key is not trusted"@,
        FirmwareUpdateError::RevokedSigningKey => "firmware signing key is revoked"@,
        FirmwareUpdateError::InvalidSigningKey => "firmware signing key is malformed"@,
        FirmwareUpdateError::WrongControllerFamily =>
            "firmware targets a different controller family"@,
        FirmwareUpdateError::IncompatibleHardware =>
            "firmware does not support this hardware revision"@,
        FirmwareUpdateError::IncompatibleProtocol =>
            "firmware does not support this protocol version"@,
        FirmwareUpdateError::RollbackForbidden =>
            "firmware rollback epoch is below the accepted minimum"@,
        FirmwareUpdateError::ArtifactSizeMismatch =>
            "firmware artifact size does not match its manifest"@,
        FirmwareUpdateError::ArtifactDigestMismatch =>
            "firmware artifact digest does not match its manifest"@,
        FirmwareUpdateError::InvalidSignatureEncoding => "firmware signature encoding is invalid"@,
        FirmwareUpdateError::InvalidSignature => "firmware manifest signature is invalid"@,
        FirmwareUpdateError::NoPendingUpdate => "no verified firmware update is staged"@,
        FirmwareUpdateError::InvalidBootAttemptLimit =>
            "boot attempt limit must be greater than zero"@,
    }
}

impl FirmwareUpdateError {
    /// A human-readable description of the error.
    pub fn message(&self) -> (text: &'static str)
        ensures
            text@ == firmware_error_text(*self),
    {
        match self {
            FirmwareUpdateError::InvalidManifest => "firmware manifest is invalid",
            FirmwareUpdateError::UnknownSigningKey => "firmware signing key is not trusted",
            FirmwareUpdateError::RevokedSigningKey => "firmware signing key is revoked",
            FirmwareUpdateError::InvalidSigningKey => "firmware signing key is malformed",
            FirmwareUpdateError::WrongControllerFamily =>
                "firmware targets a different controller family",
            FirmwareUpdateError::IncompatibleHardware =>
                "firmware does not support this hardware revision",
            FirmwareUpdateError::IncompatibleProtocol =>
                "firmware does not support this protocol version",
            FirmwareUpdateError::RollbackForbidden =>
                "firmware rollback epoch is below the accepted minimum",
            FirmwareUpdateError::ArtifactSizeMismatch =>
                "firmware artifact size does not match its manifest",
            FirmwareUpdateError::ArtifactDigestMismatch =>
                "firmware artifact digest does not match its manifest",
            FirmwareUpdateError::InvalidSignatureEncoding => "firmware signature encoding is invalid",
            FirmwareUpdateError::InvalidSignature => "firmware manifest signature is invalid",
            FirmwareUpdateError::NoPendingUpdate => "no verified firmware update is staged",
            FirmwareUpdateError::InvalidBootAttemptLimit =>
                "boot attempt limit must be greater than zero",
        }
    }
}

/// How many revoked key identifiers the controller remembers.
pub const REVOKED_KEY_CAPACITY: usize = 64;

/// The reason recorded when a failing image is rolled back.
pub open spec fn boot_limit_reason() -> Seq<char> {
    "boot health check attempt limit exceeded"@
}

/// Verifies, stages, activates and, when its boots keep failing, rolls back
/// firmware images.
#[derive(Debug, Clone)]
pub struct FirmwareUpdateController {
    policy: FirmwareUpdatePolicy,
    trusted_keys: Vec<TrustedFirmwareKey>,
    revoked_key_ids: Vec<String>,
    active: FirmwareImageIdentity,
    previous: Option<FirmwareImageIdentity>,
    pending: Option<FirmwareImageIdentity>,
    boot_health: FirmwareBootHealth,
    boot_attempts: u8,
    rollback_reason: Option<String>,
}

/// The mathematical state of a [`FirmwareUpdateController`]: the trusted keys
/// form a map from key identifier to key.
pub ghost struct ControllerModel {
    pub policy: PolicyModel,
    pub trusted: Map<Seq<char>, KeyModel>,
    pub revoked: Seq<Seq<char>>,
    pub active: ImageIdentityModel,
    pub previous: Option<ImageIdentityModel>,
    pub pending: Option<ImageIdentityModel>,
    pub boot_health: FirmwareBootHealth,
    pub boot_attempts: u8,
    pub rollback_reason: Option<Seq<char>>,
}

/// The views of a sequence of keys.
pub open spec fn keys_view(keys: Seq<TrustedFirmwareKey>) -> Seq<KeyModel> {
    keys.map_values(|key: TrustedFirmwareKey| key@)
}

/// The map that inserting `keys` one after the other, into an empty map,
/// yields: a later key replaces an earlier one with the same identifier.
pub open spec fn keys_map_of(keys: Seq<KeyModel>) -> Map<Seq<char>, KeyModel>
    decreases keys.len(),
{
    if keys.len() == 0 {
        Map::empty()
    } else {
        keys_map_of(keys.drop_last()).insert(keys.last().key_id, keys.last())
    }
}

/// No two keys share an identifier.
pub open spec fn distinct_key_ids(keys: Seq<KeyModel>) -> bool {
    forall|i: int, j: int|
        0 <= i < keys.len() && 0 <= j < keys.len() && i != j ==> #[trigger] keys[i].key_id
            != #[trigger] keys[j].key_id
}

/// For keys with distinct identifiers, the map holds exactly their identifiers,
/// each bound to its key.
proof fn lemma_keys_map_of_distinct(keys: Seq<KeyModel>)
    requires
        distinct_key_ids(keys),
    ensures
        forall|id: Seq<char>|
            #[trigger] keys_map_of(keys).dom().contains(id) <==> exists|i: int|
                0 <= i < keys.len() && keys[i].key_id == id,
        forall|i: int| 0 <= i < keys.len() ==> keys_map_of(keys)[#[trigger] keys[i].key_id] == keys[i],
    decreases keys.len(),
{
    if keys.len() > 0 {
        let rest = keys.drop_last();
        assert(distinct_key_ids(rest)) by {
            assert forall|i: int, j: int|
                0 <= i < rest.len() && 0 <= j < rest.len() && i != j implies #[trigger] rest[i].key_id
                != #[trigger] rest[j].key_id by {
                assert(rest[i] == keys[i] && rest[j] == keys[j]);
            }
        }
        lemma_keys_map_of_distinct(rest);
        let last = keys.len() - 1;
        assert forall|id: Seq<char>|
            #[trigger] keys_map_of(keys).dom().contains(id) <==> exists|i: int|
                0 <= i < keys.len() && keys[i].key_id == id by {
            if keys_map_of(keys).dom().contains(id) {
                if id != keys[last].key_id {
                    assert(keys_map_of(rest).dom().contains(id));
                    let i = choose|i: int| 0 <= i < rest.len() && rest[i].key_id == id;
                    assert(keys[i].key_id == id);
                }
            }
            if exists|i: int| 0 <= i < keys.len() && keys[i].key_id == id {
                let i = choose|i: int| 0 <= i < keys.len() && keys[i].key_id == id;
                if i != last {
                    assert(rest[i].key_id == id);
                }
            }
        }
        assert forall|i: int| 0 <= i < keys.len() implies keys_map_of(keys)[#[trigger] keys[i].key_id]
            == keys[i] by {
            if i != last {
                assert(rest[i] == keys[i]);
                assert(keys[i].key_id != keys[last].key_id);
            }
        }
    }
}

/// Replacing the key at a position by one with the same identifier rebinds that identifier.
proof fn lemma_keys_map_of_update(keys: Seq<KeyModel>, index: int, key: KeyModel)
    requires
        distinct_key_ids(keys),
        0 <= index < keys.len(),
        keys[index].key_id == key.key_id,
    ensures
        distinct_key_ids(keys.update(index, key)),
        keys_map_of(keys.update(index, key)) == keys_map_of(keys).insert(key.key_id, key),
{
    let updated = keys.update(index, key);
    assert(distinct_key_ids(updated)) by {
        assert forall|i: int, j: int|
            0 <= i < updated.len() && 0 <= j < updated.len() && i != j implies #[trigger] updated[i].key_id
            != #[trigger] updated[j].key_id by {
            assert(updated[i].key_id == keys[i].key_id);
            assert(updated[j].key_id == keys[j].key_id);
        }
    }
    lemma_keys_map_of_distinct(keys);
    lemma_keys_map_of_distinct(updated);
    let expected = keys_map_of(keys).insert(key.key_id, key);
    assert forall|id: Seq<char>| #[trigger] keys_map_of(updated).dom().contains(id)
        <==> expected.dom().contains(id) by {
        if keys_map_of(updated).dom().contains(id) {
            let i = choose|i: int| 0 <= i < updated.len() && updated[i].key_id == id;
            assert(keys[i].key_id == id);
        }
        if expected.dom().contains(id) {
            if id == key.key_id {
                assert(updated[index].key_id == id);
            } else {
                let i = choose|i: int| 0 <= i < keys.len() && keys[i].key_id == id;
                assert(updated[i].key_id == id);
            }
        }
    }
    assert forall|id: Seq<char>| #[trigger] keys_map_of(updated).dom().contains(id) implies keys_map_of(
        updated,
    )[id] == expected[id] by {
        let i = choose|i: int| 0 <= i < updated.len() && updated[i].key_id == id;
        assert(keys_map_of(updated)[updated[i].key_id] == updated[i]);
        if i != index {
            assert(keys_map_of(keys)[keys[i].key_id] == keys[i]);
        }
    }
    assert(keys_map_of(updated) =~= expected);
}

/// Appending a key with a new identifier binds that identifier.
proof fn lemma_keys_map_of_push(keys: Seq<KeyModel>, key: KeyModel)
    requires
        distinct_key_ids(keys),
        forall|i: int| 0 <= i < keys.len() ==> keys[i].key_id != key.key_id,
    ensures
        distinct_key_ids(keys.push(key)),
        keys_map_of(keys.push(key)) == keys_map_of(keys).insert(key.key_id, key),
{
    let pushed = keys.push(key);
    assert(pushed.drop_last() =~= keys);
    assert(distinct_key_ids(pushed)) by {
        assert forall|i: int, j: int|
            0 <= i < pushed.len() && 0 <= j < pushed.len() && i != j implies #[trigger] pushed[i].key_id
            != #[trigger] pushed[j].key_id by {
            if i < keys.len() && j < keys.len() {
                assert(pushed[i] == keys[i] && pushed[j] == keys[j]);
            } else if i < keys.len() {
                assert(pushed[i] == keys[i]);
            } else {
                assert(pushed[j] == keys[j]);
            }
        }
    }
}

/// Removing the key at a position unbinds its identifier.
proof fn lemma_keys_map_of_remove(keys: Seq<KeyModel>, index: int)
    requires
        distinct_key_ids(keys),
        0 <= index < keys.len(),
    ensures
        distinct_key_ids(keys.remove(index)),
        keys_map_of(keys.remove(index)) == keys_map_of(keys).remove(keys[index].key_id),
{
    let removed = keys.remove(index);
    let id0 = keys[index].key_id;
    assert(distinct_key_ids(removed)) by {
        assert forall|i: int, j: int|
            0 <= i < removed.len() && 0 <= j < removed.len() && i != j implies #[trigger] removed[i].key_id
            != #[trigger] removed[j].key_id by {
            let oi = if i < index { i } else { i + 1 };
            let oj = if j < index { j } else { j + 1 };
            assert(removed[i] == keys[oi] && removed[j] == keys[oj]);
        }
    }
    lemma_keys_map_of_distinct(keys);
    lemma_keys_map_of_distinct(removed);
    let expected = keys_map_of(keys).remove(id0);
    assert forall|id: Seq<char>| #[trigger] keys_map_of(removed).dom().contains(id)
        <==> expected.dom().contains(id) by {
        if keys_map_of(removed).dom().contains(id) {
            let i = choose|i: int| 0 <= i < removed.len() && removed[i].key_id == id;
            let oi = if i < index { i } else { i + 1 };
            assert(removed[i] == keys[oi]);
        }
        if expected.dom().contains(id) {
            let i = choose|i: int| 0 <= i < keys.len() && keys[i].key_id == id;
            assert(i != index);
            let ri = if i < index { i } else { i - 1 };
            assert(removed[ri] == keys[i]);
        }
    }
    assert forall|id: Seq<char>| #[trigger] keys_map_of(removed).dom().contains(id) implies keys_map_of(
        removed,
    )[id] == expected[id] by {
        let i = choose|i: int| 0 <= i < removed.len() && removed[i].key_id == id;
        let oi = if i < index { i } else { i + 1 };
        assert(removed[i] == keys[oi]);
        assert(keys_map_of(removed)[removed[i].key_id] == removed[i]);
        assert(keys_map_of(keys)[keys[oi].key_id] == keys[oi]);
    }
    assert(keys_map_of(removed) =~= expected);
}

/// Position of the key with identifier `key_id`, if any.
fn find_key(keys: &Vec<TrustedFirmwareKey>, key_id: &str) -> (found: Option<usize>)
    ensures
        match found {
            Some(i) => i < keys@.len() && keys@[i as int].key_id@ == key_id@,
            None => forall|i: int| 0 <= i < keys@.len() ==> keys@[i].key_id@ != key_id@,
        },
{
    let count = keys.len();
    let mut index: usize = 0;
    while index < count
        invariant
            count == keys@.len(),
            index <= count,
            forall|i: int| 0 <= i < index ==> keys@[i].key_id@ != key_id@,
        decreases count - index,
    {
        if text_eq(keys[index].key_id.as_str(), key_id) {
            return Some(index);
        }
        index = index + 1;
    }
    None
}

/// Binds `key` under its identifier, replacing a key with the same identifier.
fn insert_key(keys: &mut Vec<TrustedFirmwareKey>, key: TrustedFirmwareKey)
    requires
        distinct_key_ids(keys_view(old(keys)@)),
    ensures
        distinct_key_ids(keys_view(final(keys)@)),
        keys_map_of(keys_view(final(keys)@)) == keys_map_of(keys_view(old(keys)@)).insert(
            key@.key_id,
            key@,
        ),
{
    let ghost before = keys_view(keys@);
    let ghost key_model = key@;
    match find_key(keys, key.key_id.as_str()) {
        Some(index) => {
            keys.set(index, key);
            proof {
                assert(keys_view(keys@) =~= before.update(index as int, key_model));
                lemma_keys_map_of_update(before, index as int, key_model);
            }
        },
        None => {
            keys.push(key);
            proof {
                assert(keys_view(keys@) =~= before.push(key_model));
                lemma_keys_map_of_push(before, key_model);
            }
        },
    }
}

/// Unbinds `key_id`.
fn remove_key(keys: &mut Vec<TrustedFirmwareKey>, key_id: &str)
    requires
        distinct_key_ids(keys_view(old(keys)@)),
    ensures
        distinct_key_ids(keys_view(final(keys)@)),
        keys_map_of(keys_view(final(keys)@)) == keys_map_of(keys_view(old(keys)@)).remove(key_id@),
{
    let ghost before = keys_view(keys@);
    match find_key(keys, key_id) {
        Some(index) => {
            keys.remove(index);
            proof {
                assert(keys_view(keys@) =~= before.remove(index as int));
                lemma_keys_map_of_remove(before, index as int);
            }
        },
        None => {
            proof {
                lemma_keys_map_of_distinct(before);
                if keys_map_of(before).dom().contains(key_id@) {
                    let i = choose|i: int| 0 <= i < before.len() && before[i].key_id == key_id@;
                    assert(keys@[i].key_id@ == key_id@);
                }
                assert(keys_map_of(before).remove(key_id@) =~= keys_map_of(before));
            }
        },
    }
}

/// The identity of the image that `manifest` describes.
pub open spec fn manifest_identity(manifest: FirmwareManifest) -> ImageIdentityModel {
    ImageIdentityModel {
        firmware_version: manifest.firmware_version@,
        artifact_sha256: manifest.artifact_sha256@,
        signing_key_id: manifest.signing_key_id@,
        rollback_epoch: manifest.rollback_epoch,
    }
}

/// The checks that need nothing but the manifest, the controller and the
/// artifact's length, in the order in which they are made.
pub open spec fn manifest_verdict(
    m: ControllerModel,
    manifest: FirmwareManifest,
    artifact_len: nat,
) -> Result<(), FirmwareUpdateError> {
    if !manifest.spec_valid() {
        Err(FirmwareUpdateError::InvalidManifest)
    } else if manifest.controller_family@ != m.policy.controller_family {
        Err(FirmwareUpdateError::WrongControllerFamily)
    } else if !manifest.spec_supports_hardware(m.policy.hardware_revision) {
        Err(FirmwareUpdateError::IncompatibleHardware)
    } else if !manifest.spec_supports_protocol(m.policy.protocol_version) {
        Err(FirmwareUpdateError::IncompatibleProtocol)
    } else if manifest.rollback_epoch < m.policy.minimum_rollback_epoch || manifest.rollback_epoch
        < m.active.rollback_epoch {
        Err(FirmwareUpdateError::RollbackForbidden)
    } else if artifact_len != manifest.artifact_size_bytes {
        Err(FirmwareUpdateError::ArtifactSizeMismatch)
    } else {
        Ok(())
    }
}

/// The checks on the signing key named by the manifest.
pub open spec fn key_verdict(m: ControllerModel, manifest: FirmwareManifest) -> Result<
    (),
    FirmwareUpdateError,
> {
    let id = manifest.signing_key_id@;
    if m.revoked.contains(id) {
        Err(FirmwareUpdateError::RevokedSigningKey)
    } else if !m.trusted.dom().contains(id) {
        Err(FirmwareUpdateError::UnknownSigningKey)
    } else if manifest.rollback_epoch < m.trusted[id].minimum_rollback_epoch {
        Err(FirmwareUpdateError::RollbackForbidden)
    } else {
        Ok(())
    }
}

/// The checks on the signature, given whether the key decodes, what the
/// signature text decodes to, and whether the signature is accepted.
pub open spec fn signature_verdict(
    key_decodes: bool,
    decoded_signature: Option<Seq<u8>>,
    signature_accepted: bool,
) -> Result<(), FirmwareUpdateError> {
    if !key_decodes {
        Err(FirmwareUpdateError::InvalidSigningKey)
    } else {
        match decoded_signature {
            None => Err(FirmwareUpdateError::InvalidSignatureEncoding),
            Some(bytes) => if bytes.len() != 64 {
                Err(FirmwareUpdateError::InvalidSignatureEncoding)
            } else if !signature_accepted {
                Err(FirmwareUpdateError::InvalidSignature)
            } else {
                Ok(())
            },
        }
    }
}

/// The verdict on a signed manifest and its artifact, given the digest of the
/// artifact and the outcome of the signature checks.
pub open spec fn staging_verdict(
    m: ControllerModel,
    manifest: FirmwareManifest,
    artifact_len: nat,
    artifact_digest: Seq<u8>,
    key_decodes: bool,
    decoded_signature: Option<Seq<u8>>,
    signature_accepted: bool,
) -> Result<(), FirmwareUpdateError> {
    if manifest_verdict(m, manifest, artifact_len) is Err {
        manifest_verdict(m, manifest, artifact_len)
    } else if lower_hex(artifact_digest) != manifest.artifact_sha256@ {
        Err(FirmwareUpdateError::ArtifactDigestMismatch)
    } else if key_verdict(m, manifest) is Err {
        key_verdict(m, manifest)
    } else {
        signature_verdict(key_decodes, decoded_signature, signature_accepted)
    }
}

/// The verdict on `signed`, `artifact` and the canonical bytes of the manifest,
/// with the outside computations named.
pub open spec fn verdict_for(
    m: ControllerModel,
    signed: SignedFirmwareManifest,
    artifact: Seq<u8>,
    canonical_manifest: Seq<u8>,
) -> Result<(), FirmwareUpdateError> {
    let key = m.trusted[signed.manifest.signing_key_id@];
    let decoded = base64_standard_decoding(signed.signature_ed25519_base64@);
    staging_verdict(
        m,
        signed.manifest,
        artifact.len(),
        sha256_digest(artifact),
        ed25519_public_key_decodes(key.public_key),
        decoded,
        ed25519_signature_accepted(key.public_key, canonical_manifest, decoded.unwrap()),
    )
}

/// The state after `identity` has been staged.
pub open spec fn staged_model(m: ControllerModel, identity: ImageIdentityModel) -> ControllerModel {
    ControllerModel { pending: Some(identity), rollback_reason: None, ..m }
}

/// The state after the pending image has been activated.
pub open spec fn activated_model(m: ControllerModel) -> ControllerModel {
    ControllerModel {
        previous: Some(m.active),
        active: m.pending.unwrap(),
        pending: None,
        boot_health: FirmwareBootHealth::Pending,
        boot_attempts: 0,
        rollback_reason: None,
        ..m
    }
}

/// The state after a boot of the active image has been reported.
pub open spec fn boot_reported_model(m: ControllerModel, healthy: bool) -> ControllerModel {
    if healthy {
        ControllerModel {
            boot_health: FirmwareBootHealth::Healthy,
            policy: PolicyModel {
                minimum_rollback_epoch: if m.policy.minimum_rollback_epoch
                    >= m.active.rollback_epoch {
                    m.policy.minimum_rollback_epoch
                } else {
                    m.active.rollback_epoch
                },
                ..m.policy
            },
            previous: None,
            boot_attempts: 0,
            rollback_reason: None,
            ..m
        }
    } else {
        let attempts: u8 = if m.boot_attempts == 255 {
            255
        } else {
            (m.boot_attempts + 1) as u8
        };
        if attempts >= m.policy.boot_attempt_limit && m.previous is Some {
            ControllerModel {
                active: m.previous.unwrap(),
                previous: None,
                boot_health: FirmwareBootHealth::RolledBack,
                rollback_reason: Some(boot_limit_reason()),
                boot_attempts: 0,
                ..m
            }
        } else {
            ControllerModel { boot_attempts: attempts, boot_health: FirmwareBootHealth::Failed, ..m }
        }
    }
}

/// The state after `key` has been trusted.
pub open spec fn trusted_model(m: ControllerModel, key: KeyModel) -> ControllerModel {
    ControllerModel {
        revoked: m.revoked.filter(|id: Seq<char>| id != key.key_id),
        trusted: m.trusted.insert(key.key_id, key),
        ..m
    }
}

/// The state after `key_id` has been revoked: at most the latest
/// [`REVOKED_KEY_CAPACITY`] revocations are remembered.
pub open spec fn revoked_model(m: ControllerModel, key_id: Seq<char>) -> ControllerModel {
    ControllerModel {
        trusted: m.trusted.remove(key_id),
        revoked: if m.revoked.contains(key_id) {
            m.revoked
        } else if m.revoked.len() + 1 > REVOKED_KEY_CAPACITY {
            m.revoked.push(key_id).drop_first()
        } else {
            m.revoked.push(key_id)
        },
        ..m
    }
}

/// The state of a new controller.
pub open spec fn initial_model(
    policy: PolicyModel,
    active: ImageIdentityModel,
    keys: Seq<KeyModel>,
) -> ControllerModel {
    ControllerModel {
        policy,
        trusted: keys_map_of(keys),
        revoked: Seq::empty(),
        active,
        previous: None,
        pending: None,
        boot_health: FirmwareBootHealth::Healthy,
        boot_attempts: 0,
        rollback_reason: None,
    }
}

impl View for FirmwareUpdateController {
    type V = ControllerModel;

    closed spec fn view(&self) -> ControllerModel {
        ControllerModel {
            policy: self.policy@,
            trusted: keys_map_of(keys_view(self.trusted_keys@)),
            revoked: strings_view(self.revoked_key_ids@),
            active: self.active@,
            previous: identity_option_view(self.previous),
            pending: identity_option_view(self.pending),
            boot_health: self.boot_health,
            boot_attempts: self.boot_attempts,
            rollback_reason: string_option_view(self.rollback_reason),
        }
    }
}

/// A controller state that the operations can reach: the boot attempt limit
/// is positive and at most [`REVOKED_KEY_CAPACITY`] revocations are held.
pub open spec fn model_valid(m: ControllerModel) -> bool {
    m.policy.boot_attempt_limit > 0 && m.revoked.len() <= REVOKED_KEY_CAPACITY
}

fn copy_identity_option(o: &Option<FirmwareImageIdentity>) -> (copy: Option<FirmwareImageIdentity>)
    ensures
        identity_option_view(copy) == identity_option_view(*o),
{
    match o {
        Some(identity) => Some(identity.duplicate()),
        None => None,
    }
}

fn copy_string_option(o: &Option<String>) -> (copy: Option<String>)
    ensures
        string_option_view(copy) == string_option_view(*o),
{
    match o {
        Some(s) => Some(s.clone()),
        None => None,
    }
}

impl FirmwareUpdateController {
    /// The controller's own consistency: trusted keys have distinct
    /// identifiers, and its state is valid.
    pub closed spec fn wf(&self) -> bool {
        &&& distinct_key_ids(keys_view(self.trusted_keys@))
        &&& model_valid(self@)
    }

    /// Every controller that the operations produce has a valid state.
    pub proof fn lemma_wf_model_valid(&self)
        requires
            self.wf(),
        ensures
            model_valid(self@),
    {
    }

    /// Creates a controller running `active`, trusting `trusted_keys` (a later
    /// key replaces an earlier one with the same identifier).  Fails when the
    /// policy allows no boot attempt.
    pub fn new(
        policy: FirmwareUpdatePolicy,
        active: FirmwareImageIdentity,
        trusted_keys: Vec<TrustedFirmwareKey>,
    ) -> (result: Result<Self, FirmwareUpdateError>)
        ensures
            match result {
                Ok(controller) => {
                    &&& policy.boot_attempt_limit > 0
                    &&& controller.wf()
                    &&& controller@ == initial_model(policy@, active@, keys_view(trusted_keys@))
                },
                Err(error) => policy.boot_attempt_limit == 0 && error
                    == FirmwareUpdateError::InvalidBootAttemptLimit,
            },
    {
        if policy.boot_attempt_limit == 0 {
            return Err(FirmwareUpdateError::InvalidBootAttemptLimit);
        }
        let ghost input = keys_view(trusted_keys@);
        let mut keys: Vec<TrustedFirmwareKey> = Vec::new();
        let count = trusted_keys.len();
        let mut index: usize = 0;
        while index < count
            invariant
                count == trusted_keys@.len(),
                input == keys_view(trusted_keys@),
                index <= count,
                distinct_key_ids(keys_view(keys@)),
                keys_map_of(keys_view(keys@)) == keys_map_of(input.subrange(0, index as int)),
            decreases count - index,
        {
            let key = trusted_keys[index].duplicate();
            proof {
                assert(input.subrange(0, index + 1).drop_last() =~= input.subrange(0, index as int));
            }
            insert_key(&mut keys, key);
            index = index + 1;
        }
        assert(input.subrange(0, input.len() as int) =~= input);
        let controller = FirmwareUpdateController {
            policy,
            trusted_keys: keys,
            revoked_key_ids: Vec::new(),
            active,
            previous: None,
            pending: None,
            boot_health: FirmwareBootHealth::Healthy,
            boot_attempts: 0,
            rollback_reason: None,
        };
        assert(strings_view(controller.revoked_key_ids@) =~= Seq::<Seq<char>>::empty());
        Ok(controller)
    }

    /// Trusts `key`, replacing a key with the same identifier and forgetting
    /// an earlier revocation of that identifier.
    pub fn trust_key(&mut self, key: TrustedFirmwareKey)
        requires
            old(self).wf(),
        ensures
            final(self).wf(),
            final(self)@ == trusted_model(old(self)@, key@),
            final(self)@.trusted.dom().contains(key@.key_id),
            final(self)@.trusted[key@.key_id] == key@,
            forall|id: Seq<char>|
                id != key@.key_id ==> (#[trigger] final(self)@.trusted.dom().contains(id)
                    == old(self)@.trusted.dom().contains(id)),
            forall|id: Seq<char>|
                id != key@.key_id && old(self)@.trusted.dom().contains(id) ==> #[trigger] final(self)@.trusted[id]
                    == old(self)@.trusted[id],
            !final(self)@.revoked.contains(key@.key_id),
    {
        let ghost key_model = key@;
        let ghost old_revoked = strings_view(self.revoked_key_ids@);
        let mut kept: Vec<String> = Vec::new();
        let count = self.revoked_key_ids.len();
        let mut index: usize = 0;
        while index < count
            invariant
                count == self.revoked_key_ids@.len(),
                old_revoked == strings_view(self.revoked_key_ids@),
                index <= count,
                strings_view(kept@) == old_revoked.take(index as int).filter(
                    |id: Seq<char>| id != key_model.key_id,
                ),
                key_model == key@,
            decreases count - index,
        {
            proof {
                reveal_with_fuel(Seq::filter, 1);
                assert(old_revoked.take(index + 1).drop_last() =~= old_revoked.take(index as int));
            }
            if self.revoked_key_ids[index] != key.key_id {
                let ghost before = strings_view(kept@);
                kept.push(self.revoked_key_ids[index].clone());
                assert(strings_view(kept@) =~= before.push(old_revoked[index as int]));
            }
            index = index + 1;
        }
        assert(old_revoked.take(count as int) =~= old_revoked);
        proof {
            assert(strings_view(kept@).len() <= old_revoked.len()) by {
                old_revoked.lemma_filter_len(|id: Seq<char>| id != key_model.key_id);
            }
        }
        self.revoked_key_ids = kept;
        insert_key(&mut self.trusted_keys, key);
    }

    /// Revokes `key_id`: the key is no longer trusted, and remains refused
    /// until it is trusted again or [`REVOKED_KEY_CAPACITY`] later revocations
    /// have pushed it out.
    pub fn revoke_key(&mut self, key_id: &str)
        requires
            old(self).wf(),
        ensures
            final(self).wf(),
            final(self)@ == revoked_model(old(self)@, key_id@),
            !final(self)@.trusted.dom().contains(key_id@),
            final(self)@.revoked.contains(key_id@),
            forall|id: Seq<char>|
                id != key_id@ ==> (#[trigger] final(self)@.trusted.dom().contains(id)
                    == old(self)@.trusted.dom().contains(id)),
            forall|id: Seq<char>|
                id != key_id@ && old(self)@.trusted.dom().contains(id) ==> #[trigger] final(self)@.trusted[id]
                    == old(self)@.trusted[id],
    {
        remove_key(&mut self.trusted_keys, key_id);
        let ghost old_revoked = strings_view(self.revoked_key_ids@);
        if contains_text(&self.revoked_key_ids, key_id) {
            return;
        }
        assert(!old_revoked.contains(key_id@));
        self.revoked_key_ids.push(String::from_str(key_id));
        assert(strings_view(self.revoked_key_ids@) =~= old_revoked.push(key_id@));
        if self.revoked_key_ids.len() > REVOKED_KEY_CAPACITY {
            self.revoked_key_ids.remove(0);
            assert(strings_view(self.revoked_key_ids@) =~= old_revoked.push(key_id@).drop_first());
        }
        let ghost kept = strings_view(self.revoked_key_ids@);
        assert(kept[kept.len() - 1] == key_id@);
    }
}


/// The view of an optional byte slice.
pub open spec fn bytes_option_view(o: Option<&[u8]>) -> Option<Seq<u8>> {
    match o {
        Some(bytes) => Some(bytes@),
        None => None,
    }
}

/// The identity of the image that `manifest` describes.
fn identity_of(manifest: &FirmwareManifest) -> (identity: FirmwareImageIdentity)
    ensures
        identity@ == manifest_identity(*manifest),
{
    FirmwareImageIdentity {
        firmware_version: manifest.firmware_version.clone(),
        artifact_sha256: manifest.artifact_sha256.clone(),
        signing_key_id: manifest.signing_key_id.clone(),
        rollback_epoch: manifest.rollback_epoch,
    }
}

/// The signature checks, in order: the key must decode, the signature text
/// must decode to a 64-byte Ed25519 signature, and the signature must be accepted.
pub fn check_signature(
    key_decodes: bool,
    decoded_signature: Option<&[u8]>,
    signature_accepted: bool,
) -> (result: Result<(), FirmwareUpdateError>)
    ensures
        result == signature_verdict(
            key_decodes,
            bytes_option_view(decoded_signature),
            signature_accepted,
        ),
{
    if !key_decodes {
        return Err(FirmwareUpdateError::InvalidSigningKey);
    }
    match decoded_signature {
        None => Err(FirmwareUpdateError::InvalidSignatureEncoding),
        Some(bytes) => match ed25519_signature_from_slice(bytes) {
            None => Err(FirmwareUpdateError::InvalidSignatureEncoding),
            Some(_) => if !signature_accepted {
                Err(FirmwareUpdateError::InvalidSignature)
            } else {
                Ok(())
            },
        },
    }
}

impl FirmwareUpdateController {
    /// The checks of [`manifest_verdict`].
    fn check_manifest(&self, manifest: &FirmwareManifest, artifact_len: usize) -> (result: Result<
        (),
        FirmwareUpdateError,
    >)
        ensures
            result == manifest_verdict(self@, *manifest, artifact_len as nat),
    {
        match manifest.validate() {
            Err(_) => {
                return Err(FirmwareUpdateError::InvalidManifest);
            },
            Ok(()) => {},
        }
        if manifest.controller_family != self.policy.controller_family {
            return Err(FirmwareUpdateError::WrongControllerFamily);
        }
        if !manifest.supports_hardware(self.policy.hardware_revision.as_str()) {
            return Err(FirmwareUpdateError::IncompatibleHardware);
        }
        if !manifest.supports_protocol(self.policy.protocol_version) {
            return Err(FirmwareUpdateError::IncompatibleProtocol);
        }
        if manifest.rollback_epoch < self.policy.minimum_rollback_epoch || manifest.rollback_epoch
            < self.active.rollback_epoch {
            return Err(FirmwareUpdateError::RollbackForbidden);
        }
        if artifact_len as u64 != manifest.artifact_size_bytes {
            return Err(FirmwareUpdateError::ArtifactSizeMismatch);
        }
        Ok(())
    }

    /// The checks of [`key_verdict`]; on success, the position of the signing key.
    fn check_signing_key(&self, manifest: &FirmwareManifest) -> (result: Result<
        usize,
        FirmwareUpdateError,
    >)
        requires
            self.wf(),
        ensures
            match result {
                Ok(index) => {
                    &&& key_verdict(self@, *manifest) is Ok
                    &&& index < self.trusted_keys@.len()
                    &&& self.trusted_keys@[index as int]@ == self@.trusted[manifest.signing_key_id@]
                },
                Err(error) => key_verdict(self@, *manifest) == Err::<(), _>(error),
            },
    {
        let ghost keys = keys_view(self.trusted_keys@);
        proof {
            lemma_keys_map_of_distinct(keys);
        }
        if contains_text(&self.revoked_key_ids, manifest.signing_key_id.as_str()) {
            return Err(FirmwareUpdateError::RevokedSigningKey);
        }
        match find_key(&self.trusted_keys, manifest.signing_key_id.as_str()) {
            None => {
                proof {
                    if self@.trusted.dom().contains(manifest.signing_key_id@) {
                        let i = choose|i: int|
                            0 <= i < keys.len() && keys[i].key_id == manifest.signing_key_id@;
                        assert(self.trusted_keys@[i].key_id@ == manifest.signing_key_id@);
                    }
                }
                Err(FirmwareUpdateError::UnknownSigningKey)
            },
            Some(index) => {
                proof {
                    assert(keys[index as int].key_id == manifest.signing_key_id@);
                    assert(self@.trusted[keys[index as int].key_id] == keys[index as int]);
                }
                if manifest.rollback_epoch < self.trusted_keys[index].minimum_rollback_epoch {
                    return Err(FirmwareUpdateError::RollbackForbidden);
                }
                Ok(index)
            },
        }
    }

    /// Decides, from the outcomes of the outside computations given as
    /// arguments, whether `manifest` would be staged: `artifact_digest` is the
    /// SHA-256 digest of the artifact, `key_decodes` whether the signing key
    /// decodes, `decoded_signature` what the signature text decodes to, and
    /// `signature_accepted` whether the signature verifies.  On success,
    /// returns the identity of the image.
    pub fn check_staging(
        &self,
        manifest: &FirmwareManifest,
        artifact_len: usize,
        artifact_digest: &[u8],
        key_decodes: bool,
        decoded_signature: Option<&[u8]>,
        signature_accepted: bool,
    ) -> (result: Result<FirmwareImageIdentity, FirmwareUpdateError>)
        requires
            self.wf(),
        ensures
            ({
                let verdict = staging_verdict(
                    self@,
                    *manifest,
                    artifact_len as nat,
                    artifact_digest@,
                    key_decodes,
                    bytes_option_view(decoded_signature),
                    signature_accepted,
                );
                match result {
                    Ok(identity) => verdict is Ok && identity@ == manifest_identity(*manifest),
                    Err(error) => verdict == Err::<(), _>(error),
                }
            }),
    {
        match self.check_manifest(manifest, artifact_len) {
            Err(error) => {
                return Err(error);
            },
            Ok(()) => {},
        }
        if !matches_lower_hex(artifact_digest, manifest.artifact_sha256.as_str()) {
            return Err(FirmwareUpdateError::ArtifactDigestMismatch);
        }
        match self.check_signing_key(manifest) {
            Err(error) => {
                return Err(error);
            },
            Ok(_) => {},
        }
        match check_signature(key_decodes, decoded_signature, signature_accepted) {
            Err(error) => Err(error),
            Ok(()) => Ok(identity_of(manifest)),
        }
    }

    /// Verifies `signed` and `artifact` and, when every check passes, stages
    /// the image for activation.  `canonical_manifest` is the byte string over
    /// which the manifest's signature was made.
    ///
    /// The checks, in order: the manifest is well formed, targets this
    /// controller's family, hardware revision and protocol, does not roll back
    /// below the accepted epochs, and gives the artifact's size and SHA-256
    /// digest; its signing key is not revoked, is trusted, and may sign this
    /// epoch; the key decodes, the signature decodes to 64 bytes, and it
    /// verifies.  A refusal leaves the controller unchanged.
    pub fn verify_and_stage(
        &mut self,
        signed: &SignedFirmwareManifest,
        artifact: &[u8],
        canonical_manifest: &[u8],
    ) -> (result: Result<FirmwareImageIdentity, FirmwareUpdateError>)
        requires
            old(self).wf(),
        ensures
            final(self).wf(),
            ({
                let verdict = verdict_for(old(self)@, *signed, artifact@, canonical_manifest@);
                match result {
                    Ok(identity) => {
                        &&& verdict is Ok
                        &&& identity@ == manifest_identity(signed.manifest)
                        &&& final(self)@ == staged_model(old(self)@, identity@)
                    },
                    Err(error) => verdict == Err::<(), _>(error) && final(self)@ == old(self)@,
                }
            }),
    {
        let manifest = &signed.manifest;
        match self.check_manifest(manifest, artifact.len()) {
            Err(error) => {
                return Err(error);
            },
            Ok(()) => {},
        }
        let digest = sha256(artifact);
        if !matches_lower_hex(digest.as_slice(), manifest.artifact_sha256.as_str()) {
            return Err(FirmwareUpdateError::ArtifactDigestMismatch);
        }
        let index = match self.check_signing_key(manifest) {
            Err(error) => {
                return Err(error);
            },
            Ok(index) => index,
        };
        let public_key: [u8; 32] = self.trusted_keys[index].public_key_ed25519;
        if !ed25519_key_decodes(&public_key) {
            return Err(FirmwareUpdateError::InvalidSigningKey);
        }
        let decoded = match decode_base64_standard(signed.signature_ed25519_base64.as_str()) {
            None => {
                return Err(FirmwareUpdateError::InvalidSignatureEncoding);
            },
            Some(bytes) => bytes,
        };
        let signature = match ed25519_signature_from_slice(decoded.as_slice()) {
            None => {
                return Err(FirmwareUpdateError::InvalidSignatureEncoding);
            },
            Some(signature) => signature,
        };
        if !ed25519_verify(&public_key, canonical_manifest, &signature) {
            return Err(FirmwareUpdateError::InvalidSignature);
        }
        let identity = identity_of(manifest);
        self.pending = Some(identity.duplicate());
        self.rollback_reason = None;
        Ok(identity)
    }

    /// Makes the staged image the active one, keeping the former active image
    /// for rollback; the new image's boot health is pending.
    pub fn activate_staged(&mut self) -> (result: Result<(), FirmwareUpdateError>)
        requires
            old(self).wf(),
        ensures
            final(self).wf(),
            match result {
                Ok(()) => {
                    &&& old(self)@.pending is Some
                    &&& final(self)@ == activated_model(old(self)@)
                    &&& final(self)@.pending is None
                    &&& final(self)@.active == old(self)@.pending.unwrap()
                    &&& final(self)@.previous == Some(old(self)@.active)
                    &&& final(self)@.boot_health == FirmwareBootHealth::Pending
                    &&& final(self)@.boot_attempts == 0
                },
                Err(error) => {
                    &&& error == FirmwareUpdateError::NoPendingUpdate
                    &&& old(self)@.pending is None
                    &&& final(self)@ == old(self)@
                },
            },
    {
        match self.pending.take() {
            None => Err(FirmwareUpdateError::NoPendingUpdate),
            Some(pending) => {
                let mut former = pending;
                std::mem::swap(&mut self.active, &mut former);
                self.previous = Some(former);
                self.boot_health = FirmwareBootHealth::Pending;
                self.boot_attempts = 0;
                self.rollback_reason = None;
                Ok(())
            },
        }
    }

    /// Records the outcome of a boot of the active image.  A healthy boot
    /// commits the image: its epoch becomes the rollback floor and the former
    /// image is forgotten.  A failed boot counts an attempt; once the policy's
    /// limit is reached, the former image, if any, becomes active again.
    pub fn record_boot_result(&mut self, healthy: bool)
        requires
            old(self).wf(),
        ensures
            final(self).wf(),
            final(self)@ == boot_reported_model(old(self)@, healthy),
    {
        if healthy {
            self.boot_health = FirmwareBootHealth::Healthy;
            if self.active.rollback_epoch > self.policy.minimum_rollback_epoch {
                self.policy.minimum_rollback_epoch = self.active.rollback_epoch;
            }
            self.previous = None;
            self.boot_attempts = 0;
            self.rollback_reason = None;
            return;
        }
        self.boot_attempts = self.boot_attempts.saturating_add(1);
        self.boot_health = FirmwareBootHealth::Failed;
        if self.boot_attempts >= self.policy.boot_attempt_limit {
            match self.previous.take() {
                Some(previous) => {
                    self.active = previous;
                    self.boot_health = FirmwareBootHealth::RolledBack;
                    self.rollback_reason = Some(
                        String::from_str("boot health check attempt limit exceeded"),
                    );
                    self.boot_attempts = 0;
                },
                None => {},
            }
        }
    }

    /// A snapshot of the active and pending images, the boot health and the
    /// reason of the last rollback.
    pub fn telemetry(&self) -> (telemetry: FirmwareUpdateTelemetry)
        ensures
            telemetry.active@ == self@.active,
            identity_option_view(telemetry.pending) == self@.pending,
            telemetry.boot_health == self@.boot_health,
            string_option_view(telemetry.rollback_reason) == self@.rollback_reason,
    {
        FirmwareUpdateTelemetry {
            active: self.active.duplicate(),
            pending: copy_identity_option(&self.pending),
            boot_health: self.boot_health,
            rollback_reason: copy_string_option(&self.rollback_reason),
        }
    }
}

/// The state after `count` failed boots have been reported.
pub open spec fn failed_boots(m: ControllerModel, count: nat) -> ControllerModel
    decreases count,
{
    if count == 0 {
        m
    } else {
        boot_reported_model(failed_boots(m, (count - 1) as nat), false)
    }
}

/// An image that is staged has passed every check: the manifest is well
/// formed and made for this controller, it rolls back to no epoch below the
/// accepted floors, the artifact has the announced size and digest, its
/// signing key is trusted and not revoked, and the signature verifies.
pub proof fn lemma_staged_image_passed_every_check(
    m: ControllerModel,
    manifest: FirmwareManifest,
    artifact_len: nat,
    artifact_digest: Seq<u8>,
    key_decodes: bool,
    decoded_signature: Option<Seq<u8>>,
    signature_accepted: bool,
)
    requires
        staging_verdict(
            m,
            manifest,
            artifact_len,
            artifact_digest,
            key_decodes,
            decoded_signature,
            signature_accepted,
        ) is Ok,
    ensures
        manifest.spec_valid(),
        manifest.controller_family@ == m.policy.controller_family,
        manifest.spec_supports_hardware(m.policy.hardware_revision),
        manifest.spec_supports_protocol(m.policy.protocol_version),
        manifest.rollback_epoch >= m.policy.minimum_rollback_epoch,
        manifest.rollback_epoch >= m.active.rollback_epoch,
        artifact_len == manifest.artifact_size_bytes,
        lower_hex(artifact_digest) == manifest.artifact_sha256@,
        !m.revoked.contains(manifest.signing_key_id@),
        m.trusted.dom().contains(manifest.signing_key_id@),
        manifest.rollback_epoch >= m.trusted[manifest.signing_key_id@].minimum_rollback_epoch,
        key_decodes,
        decoded_signature matches Some(bytes) && bytes.len() == 64,
        signature_accepted,
{
}

/// The failed boots before the limit keep the new image active and count the attempts.
proof fn lemma_failed_boots_before_limit(s: ControllerModel, previous: ImageIdentityModel, count: nat)
    requires
        s.boot_attempts == 0,
        s.previous == Some(previous),
        count < s.policy.boot_attempt_limit,
    ensures
        failed_boots(s, count).boot_attempts == count,
        failed_boots(s, count).previous == Some(previous),
        failed_boots(s, count).active == s.active,
        failed_boots(s, count).policy == s.policy,
        count > 0 ==> failed_boots(s, count).boot_health == FirmwareBootHealth::Failed,
    decreases count,
{
    if count > 0 {
        lemma_failed_boots_before_limit(s, previous, (count - 1) as nat);
    }
}

/// Activation is atomic and reversible: once a staged image is activated, it
/// stays active through the failed boots below the policy's limit, and the
/// failed boot that reaches the limit restores the image that was active
/// before, marks the boot health rolled back and records why.
pub proof fn lemma_failed_boots_restore_last_good_image(m: ControllerModel)
    requires
        model_valid(m),
        m.pending is Some,
    ensures
        ({
            let activated = activated_model(m);
            let limit = m.policy.boot_attempt_limit as nat;
            &&& forall|count: nat|
                count < limit ==> (#[trigger] failed_boots(activated, count)).active
                    == m.pending.unwrap()
            &&& failed_boots(activated, limit).active == m.active
            &&& failed_boots(activated, limit).boot_health == FirmwareBootHealth::RolledBack
            &&& failed_boots(activated, limit).rollback_reason == Some(boot_limit_reason())
            &&& failed_boots(activated, limit).previous is None
        }),
{
    let activated = activated_model(m);
    let limit = m.policy.boot_attempt_limit as nat;
    assert forall|count: nat| count < limit implies (#[trigger] failed_boots(
        activated,
        count,
    )).active == m.pending.unwrap() by {
        lemma_failed_boots_before_limit(activated, m.active, count);
    }
    lemma_failed_boots_before_limit(activated, m.active, (limit - 1) as nat);
}

/// No operation lowers the rollback floor, and a healthy boot raises it to
/// the epoch of the active image.
pub proof fn lemma_rollback_floor_never_decreases(
    m: ControllerModel,
    identity: ImageIdentityModel,
    healthy: bool,
    key: KeyModel,
    key_id: Seq<char>,
)
    ensures
        staged_model(m, identity).policy.minimum_rollback_epoch
            == m.policy.minimum_rollback_epoch,
        activated_model(m).policy.minimum_rollback_epoch == m.policy.minimum_rollback_epoch,
        boot_reported_model(m, healthy).policy.minimum_rollback_epoch
            >= m.policy.minimum_rollback_epoch,
        boot_reported_model(m, true).policy.minimum_rollback_epoch >= m.active.rollback_epoch,
        trusted_model(m, key).policy.minimum_rollback_epoch == m.policy.minimum_rollback_epoch,
        revoked_model(m, key_id).policy.minimum_rollback_epoch == m.policy.minimum_rollback_epoch,
{
}

/// Revoking a key refuses every later image signed with it, whatever its
/// contents, as soon as the checks that precede the key checks pass.
pub proof fn lemma_revoked_key_is_refused(
    m: ControllerModel,
    key_id: Seq<char>,
    manifest: FirmwareManifest,
    artifact_len: nat,
    artifact_digest: Seq<u8>,
    key_decodes: bool,
    decoded_signature: Option<Seq<u8>>,
    signature_accepted: bool,
)
    requires
        model_valid(m),
        manifest.signing_key_id@ == key_id,
        manifest_verdict(revoked_model(m, key_id), manifest, artifact_len) is Ok,
        lower_hex(artifact_digest) == manifest.artifact_sha256@,
    ensures
        staging_verdict(
            revoked_model(m, key_id),
            manifest,
            artifact_len,
            artifact_digest,
            key_decodes,
            decoded_signature,
            signature_accepted,
        ) == Err::<(), _>(FirmwareUpdateError::RevokedSigningKey),
{
    let r = revoked_model(m, key_id);
    if !m.revoked.contains(key_id) {
        let pushed = m.revoked.push(key_id);
        assert(pushed[pushed.len() - 1] == key_id);
        if pushed.len() > REVOKED_KEY_CAPACITY {
            assert(r.revoked[r.revoked.len() - 1] == key_id);
        }
    }
    assert(r.revoked.contains(key_id));
}

/// Trusting a key undoes its revocation: the key checks pass for a manifest
/// signed with it at an epoch the key may sign.
pub proof fn lemma_trusted_key_passes_key_checks(
    m: ControllerModel,
    key: KeyModel,
    manifest: FirmwareManifest,
)
    requires
        manifest.signing_key_id@ == key.key_id,
        manifest.rollback_epoch >= key.minimum_rollback_epoch,
    ensures
        key_verdict(trusted_model(m, key), manifest) is Ok,
{
    let t = trusted_model(m, key);
    let kept = m.revoked.filter(|id: Seq<char>| id != key.key_id);
    if kept.contains(key.key_id) {
        let i = choose|i: int| 0 <= i < kept.len() && kept[i] == key.key_id;
        m.revoked.lemma_filter_pred(|id: Seq<char>| id != key.key_id, i);
        assert(kept[i] != key.key_id);
    }
}

/// A manifest that lists the controller's hardware revision, at any position
/// of its list, is never refused as incompatible hardware.
pub proof fn lemma_listed_hardware_never_refused(
    m: ControllerModel,
    manifest: FirmwareManifest,
    artifact_len: nat,
    position: int,
)
    requires
        0 <= position < manifest.compatible_hardware_revisions@.len(),
        manifest.compatible_hardware_revisions@[position]@ == m.policy.hardware_revision,
    ensures
        manifest_verdict(m, manifest, artifact_len) != Err::<(), _>(
            FirmwareUpdateError::IncompatibleHardware,
        ),
{
    crate::interfaces::lemma_listed_revisions_are_supported(manifest, m.policy.hardware_revision);
}

/// When every check holds, stated on the manifest's fields, the controller's
/// state and the outside results, the manifest is staged.
pub proof fn lemma_every_check_passing_stages(
    m: ControllerModel,
    manifest: FirmwareManifest,
    artifact_len: nat,
    artifact_digest: Seq<u8>,
    key_decodes: bool,
    signature: Seq<u8>,
    signature_accepted: bool,
    position: int,
)
    requires
        manifest.schema_version == 1,
        manifest.controller_family@.len() > 0,
        manifest.firmware_version@.len() > 0,
        manifest.signing_key_id@.len() > 0,
        manifest.artifact_sha256@.len() == 64,
        forall|i: int|
            0 <= i < 64 ==> ('0' <= #[trigger] manifest.artifact_sha256@[i] <= '9') || ('a'
                <= manifest.artifact_sha256@[i] <= 'f'),
        manifest.controller_family@ == m.policy.controller_family,
        0 <= position < manifest.compatible_hardware_revisions@.len(),
        manifest.compatible_hardware_revisions@[position]@ == m.policy.hardware_revision,
        manifest.protocol_minimum <= m.policy.protocol_version <= manifest.protocol_maximum,
        manifest.rollback_epoch >= m.policy.minimum_rollback_epoch,
        manifest.rollback_epoch >= m.active.rollback_epoch,
        artifact_len == manifest.artifact_size_bytes,
        lower_hex(artifact_digest) == manifest.artifact_sha256@,
        !m.revoked.contains(manifest.signing_key_id@),
        m.trusted.dom().contains(manifest.signing_key_id@),
        manifest.rollback_epoch >= m.trusted[manifest.signing_key_id@].minimum_rollback_epoch,
        key_decodes,
        signature.len() == 64,
        signature_accepted,
    ensures
        staging_verdict(
            m,
            manifest,
            artifact_len,
            artifact_digest,
            key_decodes,
            Some(signature),
            signature_accepted,
        ) == Ok::<(), FirmwareUpdateError>(()),
{
    crate::interfaces::lemma_listed_revisions_are_supported(manifest, m.policy.hardware_revision);
    assert(manifest.compatible_hardware_revisions@.len() > 0);
}

/// After an activation no image is pending: the staged image became the
/// active one, the former active image is kept for rollback, and activating
/// again, without staging anew, finds nothing to activate.
pub proof fn lemma_activation_consumes_pending_image(m: ControllerModel)
    requires
        m.pending is Some,
    ensures
        activated_model(m).pending is None,
        activated_model(m).active == m.pending.unwrap(),
        activated_model(m).previous == Some(m.active),
        activated_model(m).boot_health == FirmwareBootHealth::Pending,
        activated_model(m).boot_attempts == 0,
{
}

/// Trusting a key binds its identifier to it, forgets its revocation, and
/// leaves every other identifier trusted, or not, exactly as before, bound to
/// the same key.
pub proof fn lemma_trust_keeps_other_keys(m: ControllerModel, key: KeyModel)
    ensures
        trusted_model(m, key).trusted.dom().contains(key.key_id),
        trusted_model(m, key).trusted[key.key_id] == key,
        !trusted_model(m, key).revoked.contains(key.key_id),
        forall|id: Seq<char>|
            id != key.key_id ==> (#[trigger] trusted_model(m, key).trusted.dom().contains(id)
                == m.trusted.dom().contains(id)),
        forall|id: Seq<char>|
            id != key.key_id && m.trusted.dom().contains(id) ==> #[trigger] trusted_model(
                m,
                key,
            ).trusted[id] == m.trusted[id],
        forall|id: Seq<char>|
            id != key.key_id ==> (#[trigger] trusted_model(m, key).revoked.contains(id)
                == m.revoked.contains(id)),
{
    let pred = |id: Seq<char>| id != key.key_id;
    let kept = m.revoked.filter(pred);
    if kept.contains(key.key_id) {
        let i = choose|i: int| 0 <= i < kept.len() && kept[i] == key.key_id;
        m.revoked.lemma_filter_pred(pred, i);
    }
    assert forall|id: Seq<char>| id != key.key_id implies (#[trigger] trusted_model(
        m,
        key,
    ).revoked.contains(id) == m.revoked.contains(id)) by {
        if m.revoked.contains(id) {
            let i = choose|i: int| 0 <= i < m.revoked.len() && m.revoked[i] == id;
            m.revoked.lemma_filter_contains(pred, i);
        }
        if kept.contains(id) {
            let i = choose|i: int| 0 <= i < kept.len() && kept[i] == id;
            m.revoked.lemma_filter_pred(pred, i);
            m.revoked.lemma_filter_contains_rev(pred, id);
        }
    }
}

/// Revoking a key untrusts it and records its revocation, and leaves every
/// other identifier trusted, or not, exactly as before, bound to the same key.
pub proof fn lemma_revoke_keeps_other_keys(m: ControllerModel, key_id: Seq<char>)
    requires
        model_valid(m),
    ensures
        !revoked_model(m, key_id).trusted.dom().contains(key_id),
        revoked_model(m, key_id).revoked.contains(key_id),
        forall|id: Seq<char>|
            id != key_id ==> (#[trigger] revoked_model(m, key_id).trusted.dom().contains(id)
                == m.trusted.dom().contains(id)),
        forall|id: Seq<char>|
            id != key_id && m.trusted.dom().contains(id) ==> #[trigger] revoked_model(
                m,
                key_id,
            ).trusted[id] == m.trusted[id],
{
    let r = revoked_model(m, key_id);
    if !m.revoked.contains(key_id) {
        let pushed = m.revoked.push(key_id);
        assert(pushed[pushed.len() - 1] == key_id);
        if pushed.len() > REVOKED_KEY_CAPACITY {
            assert(r.revoked[r.revoked.len() - 1] == key_id);
        }
    }
}

} // verus!
