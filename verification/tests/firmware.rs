use base64::{engine::general_purpose::STANDARD, Engine as _};
use ed25519_dalek::{Signer, SigningKey};
use leddy_lib::firmware::{
    check_signature, FirmwareUpdateController, FirmwareUpdateError, FirmwareUpdatePolicy,
    TrustedFirmwareKey,
};
use leddy_lib::interfaces::{
    FirmwareBootHealth, FirmwareImageIdentity, FirmwareManifest, SignedFirmwareManifest,
};
use sha2::{Digest, Sha256};

fn active() -> FirmwareImageIdentity {
    FirmwareImageIdentity {
        firmware_version: "1.0.0".into(),
        artifact_sha256: "00".repeat(32),
        signing_key_id: "release-1".into(),
        rollback_epoch: 3,
    }
}

fn policy() -> FirmwareUpdatePolicy {
    FirmwareUpdatePolicy {
        controller_family: "leddy-controller".into(),
        hardware_revision: "esp32-s3-r1".into(),
        protocol_version: 3,
        minimum_rollback_epoch: 3,
        boot_attempt_limit: 2,
    }
}

fn controller(signing_key: &SigningKey) -> FirmwareUpdateController {
    FirmwareUpdateController::new(
        policy(),
        active(),
        vec![TrustedFirmwareKey {
            key_id: "release-1".into(),
            public_key_ed25519: signing_key.verifying_key().to_bytes(),
            minimum_rollback_epoch: 3,
        }],
    )
    .expect("valid policy")
}

fn json_text(text: &str) -> String {
    serde_json::to_string(text).expect("serialize")
}

/// The manifest as compact JSON, its fields in declaration order.
fn canonical(manifest: &FirmwareManifest) -> Vec<u8> {
    let revisions: Vec<String> = manifest
        .compatible_hardware_revisions
        .iter()
        .map(|revision| json_text(revision))
        .collect();
    format!(
        "{{\"schema_version\":{},\"controller_family\":{},\"compatible_hardware_revisions\":[{}],\"firmware_version\":{},\"protocol_minimum\":{},\"protocol_maximum\":{},\"artifact_sha256\":{},\"artifact_size_bytes\":{},\"source_commit\":{},\"reproducible_build_id\":{},\"rollback_epoch\":{},\"signing_key_id\":{}}}",
        manifest.schema_version,
        json_text(&manifest.controller_family),
        revisions.join(","),
        json_text(&manifest.firmware_version),
        manifest.protocol_minimum,
        manifest.protocol_maximum,
        json_text(&manifest.artifact_sha256),
        manifest.artifact_size_bytes,
        json_text(&manifest.source_commit),
        json_text(&manifest.reproducible_build_id),
        manifest.rollback_epoch,
        json_text(&manifest.signing_key_id),
    )
    .into_bytes()
}

fn signed_manifest(signing_key: &SigningKey, artifact: &[u8]) -> SignedFirmwareManifest {
    let manifest = FirmwareManifest {
        schema_version: 1,
        controller_family: "leddy-controller".into(),
        compatible_hardware_revisions: vec!["esp32-s3-r1".into(), "stm32-f4-r2".into()],
        firmware_version: "2.0.0".into(),
        protocol_minimum: 2,
        protocol_maximum: 4,
        artifact_sha256: format!("{:x}", Sha256::digest(artifact)),
        artifact_size_bytes: artifact.len() as u64,
        source_commit: "0123456789abcdef".into(),
        reproducible_build_id: "nix:leddy-firmware-2.0.0".into(),
        rollback_epoch: 4,
        signing_key_id: "release-1".into(),
    };
    let signature = signing_key.sign(&canonical(&manifest));
    SignedFirmwareManifest {
        manifest,
        signature_ed25519_base64: STANDARD.encode(signature.to_bytes()),
    }
}

fn stage(
    controller: &mut FirmwareUpdateController,
    signed: &SignedFirmwareManifest,
    artifact: &[u8],
) -> Result<FirmwareImageIdentity, FirmwareUpdateError> {
    controller.verify_and_stage(signed, artifact, &canonical(&signed.manifest))
}

#[test]
fn verifies_digest_signature_hardware_and_rollback_before_staging() {
    let signing_key = SigningKey::from_bytes(&[7; 32]);
    let artifact = b"verified firmware image";
    let signed = signed_manifest(&signing_key, artifact);
    let mut controller = controller(&signing_key);

    let staged = stage(&mut controller, &signed, artifact).expect("verified image should stage");

    assert_eq!(staged.firmware_version, "2.0.0");
    assert_eq!(controller.telemetry().pending, Some(staged));
    assert_eq!(controller.telemetry().active, active());
}

#[test]
fn rejects_tampered_wrong_board_revoked_and_rollback_images() {
    let signing_key = SigningKey::from_bytes(&[7; 32]);
    let artifact = b"verified firmware image";
    let mut signed = signed_manifest(&signing_key, artifact);
    let mut controller = controller(&signing_key);

    assert_eq!(
        stage(&mut controller, &signed, b"tampered firmware image"),
        Err(FirmwareUpdateError::ArtifactDigestMismatch)
    );
    signed.manifest.compatible_hardware_revisions = vec!["stm32-f4-r2".into()];
    assert_eq!(
        stage(&mut controller, &signed, artifact),
        Err(FirmwareUpdateError::IncompatibleHardware)
    );

    let mut signed = signed_manifest(&signing_key, artifact);
    signed.manifest.rollback_epoch = 2;
    assert_eq!(
        stage(&mut controller, &signed, artifact),
        Err(FirmwareUpdateError::RollbackForbidden)
    );

    let signed = signed_manifest(&signing_key, artifact);
    controller.revoke_key("release-1");
    assert_eq!(
        stage(&mut controller, &signed, artifact),
        Err(FirmwareUpdateError::RevokedSigningKey)
    );
}

#[test]
fn activation_is_atomic_and_failed_health_checks_restore_last_good_image() {
    let signing_key = SigningKey::from_bytes(&[7; 32]);
    let artifact = b"verified firmware image";
    let signed = signed_manifest(&signing_key, artifact);
    let mut controller = controller(&signing_key);

    stage(&mut controller, &signed, artifact).expect("verified image should stage");
    assert_eq!(controller.telemetry().active, active());
    controller.activate_staged().expect("staged image");
    assert_eq!(controller.telemetry().active.firmware_version, "2.0.0");
    assert_eq!(
        controller.telemetry().boot_health,
        FirmwareBootHealth::Pending
    );

    controller.record_boot_result(false);
    assert_eq!(
        controller.telemetry().boot_health,
        FirmwareBootHealth::Failed
    );
    controller.record_boot_result(false);
    let telemetry = controller.telemetry();
    assert_eq!(telemetry.active, active());
    assert_eq!(telemetry.boot_health, FirmwareBootHealth::RolledBack);
    assert!(telemetry.rollback_reason.is_some());
}

// Further cases.

#[test]
fn zero_boot_attempt_limit_is_rejected() {
    let mut policy = policy();
    policy.boot_attempt_limit = 0;
    assert_eq!(
        FirmwareUpdateController::new(policy, active(), Vec::new()).err(),
        Some(FirmwareUpdateError::InvalidBootAttemptLimit)
    );
}

#[test]
fn manifest_checks_come_in_order() {
    let signing_key = SigningKey::from_bytes(&[7; 32]);
    let artifact = b"verified firmware image";
    let mut controller = controller(&signing_key);

    let mut signed = signed_manifest(&signing_key, artifact);
    signed.manifest.schema_version = 2;
    assert_eq!(
        stage(&mut controller, &signed, artifact),
        Err(FirmwareUpdateError::InvalidManifest)
    );
    let mut signed = signed_manifest(&signing_key, artifact);
    signed.manifest.artifact_sha256 = "ABCD".into();
    assert_eq!(
        stage(&mut controller, &signed, artifact),
        Err(FirmwareUpdateError::InvalidManifest)
    );
    let mut signed = signed_manifest(&signing_key, artifact);
    signed.manifest.controller_family = "other-controller".into();
    assert_eq!(
        stage(&mut controller, &signed, artifact),
        Err(FirmwareUpdateError::WrongControllerFamily)
    );
    let mut signed = signed_manifest(&signing_key, artifact);
    signed.manifest.protocol_minimum = 4;
    assert_eq!(
        stage(&mut controller, &signed, artifact),
        Err(FirmwareUpdateError::IncompatibleProtocol)
    );
    let signed = signed_manifest(&signing_key, artifact);
    assert_eq!(
        stage(&mut controller, &signed, b"short"),
        Err(FirmwareUpdateError::ArtifactSizeMismatch)
    );
    assert_eq!(controller.telemetry().pending, None);
}

#[test]
fn signing_key_checks() {
    let signing_key = SigningKey::from_bytes(&[7; 32]);
    let artifact = b"verified firmware image";
    let mut controller = controller(&signing_key);

    let mut signed = signed_manifest(&signing_key, artifact);
    signed.manifest.signing_key_id = "release-2".into();
    assert_eq!(
        stage(&mut controller, &signed, artifact),
        Err(FirmwareUpdateError::UnknownSigningKey)
    );

    controller.trust_key(TrustedFirmwareKey {
        key_id: "release-1".into(),
        public_key_ed25519: signing_key.verifying_key().to_bytes(),
        minimum_rollback_epoch: 5,
    });
    let signed = signed_manifest(&signing_key, artifact);
    assert_eq!(
        stage(&mut controller, &signed, artifact),
        Err(FirmwareUpdateError::RollbackForbidden)
    );

    // y = 2 is the y coordinate of no point of the curve.
    let mut malformed = [0_u8; 32];
    malformed[0] = 2;
    controller.trust_key(TrustedFirmwareKey {
        key_id: "release-1".into(),
        public_key_ed25519: malformed,
        minimum_rollback_epoch: 0,
    });
    assert_eq!(
        stage(&mut controller, &signed, artifact),
        Err(FirmwareUpdateError::InvalidSigningKey)
    );
}

#[test]
fn signature_checks() {
    let signing_key = SigningKey::from_bytes(&[7; 32]);
    let other_key = SigningKey::from_bytes(&[9; 32]);
    let artifact = b"verified firmware image";
    let mut controller = controller(&signing_key);

    let mut signed = signed_manifest(&signing_key, artifact);
    signed.signature_ed25519_base64 = "not base64!".into();
    assert_eq!(
        stage(&mut controller, &signed, artifact),
        Err(FirmwareUpdateError::InvalidSignatureEncoding)
    );
    signed.signature_ed25519_base64 = STANDARD.encode([1_u8; 63]);
    assert_eq!(
        stage(&mut controller, &signed, artifact),
        Err(FirmwareUpdateError::InvalidSignatureEncoding)
    );

    let forged = signed_manifest(&other_key, artifact);
    assert_eq!(
        stage(&mut controller, &forged, artifact),
        Err(FirmwareUpdateError::InvalidSignature)
    );

    let signed = signed_manifest(&signing_key, artifact);
    let mut altered = signed.manifest.clone();
    altered.firmware_version = "2.0.1".into();
    assert_eq!(
        controller.verify_and_stage(&signed, artifact, &canonical(&altered)),
        Err(FirmwareUpdateError::InvalidSignature)
    );
    assert_eq!(controller.telemetry().pending, None);
}

#[test]
fn check_signature_decides_in_order() {
    let bytes = [0_u8; 64];
    assert_eq!(
        check_signature(false, Some(&bytes), true),
        Err(FirmwareUpdateError::InvalidSigningKey)
    );
    assert_eq!(
        check_signature(true, None, true),
        Err(FirmwareUpdateError::InvalidSignatureEncoding)
    );
    assert_eq!(
        check_signature(true, Some(&bytes[..10]), true),
        Err(FirmwareUpdateError::InvalidSignatureEncoding)
    );
    assert_eq!(
        check_signature(true, Some(&bytes), false),
        Err(FirmwareUpdateError::InvalidSignature)
    );
    assert_eq!(check_signature(true, Some(&bytes), true), Ok(()));
}

#[test]
fn check_staging_uses_the_given_digest() {
    let signing_key = SigningKey::from_bytes(&[7; 32]);
    let artifact = b"verified firmware image";
    let controller = controller(&signing_key);
    let signed = signed_manifest(&signing_key, artifact);
    let digest = Sha256::digest(artifact).to_vec();
    let signature = [0_u8; 64];

    let staged = controller
        .check_staging(&signed.manifest, artifact.len(), &digest, true, Some(&signature), true)
        .expect("every check passes");
    assert_eq!(staged.rollback_epoch, 4);
    assert_eq!(
        controller.check_staging(
            &signed.manifest,
            artifact.len(),
            &[0_u8; 32],
            true,
            Some(&signature),
            true
        ),
        Err(FirmwareUpdateError::ArtifactDigestMismatch)
    );
}

#[test]
fn activation_without_staged_image_fails() {
    let signing_key = SigningKey::from_bytes(&[7; 32]);
    let mut controller = controller(&signing_key);
    assert_eq!(
        controller.activate_staged(),
        Err(FirmwareUpdateError::NoPendingUpdate)
    );
    assert_eq!(controller.telemetry().active, active());
}

#[test]
fn healthy_boot_commits_the_image_and_raises_the_rollback_floor() {
    let signing_key = SigningKey::from_bytes(&[7; 32]);
    let artifact = b"verified firmware image";
    let signed = signed_manifest(&signing_key, artifact);
    let mut controller = controller(&signing_key);

    stage(&mut controller, &signed, artifact).expect("stages");
    controller.activate_staged().expect("activates");
    controller.record_boot_result(false);
    controller.record_boot_result(true);
    let telemetry = controller.telemetry();
    assert_eq!(telemetry.boot_health, FirmwareBootHealth::Healthy);
    assert_eq!(telemetry.active.rollback_epoch, 4);
    assert_eq!(telemetry.rollback_reason, None);

    // Failed boots can no longer roll back: the former image is forgotten.
    controller.record_boot_result(false);
    controller.record_boot_result(false);
    controller.record_boot_result(false);
    let telemetry = controller.telemetry();
    assert_eq!(telemetry.boot_health, FirmwareBootHealth::Failed);
    assert_eq!(telemetry.active.rollback_epoch, 4);

    // The floor rose to 4: an image of epoch 3 is refused now.
    let mut older = signed_manifest(&signing_key, artifact);
    older.manifest.rollback_epoch = 3;
    let signature = signing_key.sign(&canonical(&older.manifest));
    older.signature_ed25519_base64 = STANDARD.encode(signature.to_bytes());
    assert_eq!(
        stage(&mut controller, &older, artifact),
        Err(FirmwareUpdateError::RollbackForbidden)
    );
}

#[test]
fn trusting_a_revoked_key_again_restores_it() {
    let signing_key = SigningKey::from_bytes(&[7; 32]);
    let artifact = b"verified firmware image";
    let signed = signed_manifest(&signing_key, artifact);
    let mut controller = controller(&signing_key);

    controller.revoke_key("release-1");
    controller.revoke_key("release-1");
    assert_eq!(
        stage(&mut controller, &signed, artifact),
        Err(FirmwareUpdateError::RevokedSigningKey)
    );
    controller.trust_key(TrustedFirmwareKey {
        key_id: "release-1".into(),
        public_key_ed25519: signing_key.verifying_key().to_bytes(),
        minimum_rollback_epoch: 3,
    });
    assert!(stage(&mut controller, &signed, artifact).is_ok());
}

#[test]
fn later_duplicate_keys_replace_earlier_ones() {
    let signing_key = SigningKey::from_bytes(&[7; 32]);
    let other_key = SigningKey::from_bytes(&[9; 32]);
    let artifact = b"verified firmware image";
    let signed = signed_manifest(&signing_key, artifact);
    let key = |signer: &SigningKey| TrustedFirmwareKey {
        key_id: "release-1".into(),
        public_key_ed25519: signer.verifying_key().to_bytes(),
        minimum_rollback_epoch: 0,
    };
    let mut controller =
        FirmwareUpdateController::new(policy(), active(), vec![key(&other_key), key(&signing_key)])
            .expect("valid");
    assert!(stage(&mut controller, &signed, artifact).is_ok());
    let mut controller =
        FirmwareUpdateController::new(policy(), active(), vec![key(&signing_key), key(&other_key)])
            .expect("valid");
    assert_eq!(
        stage(&mut controller, &signed, artifact),
        Err(FirmwareUpdateError::InvalidSignature)
    );
}

#[test]
fn revocations_beyond_capacity_forget_the_oldest() {
    let signing_key = SigningKey::from_bytes(&[7; 32]);
    let artifact = b"verified firmware image";
    let signed = signed_manifest(&signing_key, artifact);
    let mut controller = controller(&signing_key);
    controller.revoke_key("release-1");
    for index in 0..64 {
        controller.revoke_key(&format!("other-{index}"));
    }
    // "release-1" has left the revocation list but is no longer trusted either.
    assert_eq!(
        stage(&mut controller, &signed, artifact),
        Err(FirmwareUpdateError::UnknownSigningKey)
    );
}

#[test]
fn firmware_error_messages() {
    assert_eq!(
        FirmwareUpdateError::NoPendingUpdate.message(),
        "no verified firmware update is staged"
    );
    assert_eq!(
        FirmwareUpdateError::ArtifactDigestMismatch.message(),
        "firmware artifact digest does not match its manifest"
    );
}
