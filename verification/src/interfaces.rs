use vstd::prelude::*;
use vstd::string::StrSliceExecFns;

verus! {

/// A validation failure, with a short human-readable reason.
#[derive(Debug, Clone, Copy, PartialEq, Eq)]
pub struct ValidationError(pub &'static str);

/// Corner of the panel at which the physical LED chain starts.
#[derive(Debug, Clone, Copy, PartialEq, Eq, Structural)]
pub enum PixelOrigin {
    TopLeft,
    TopRight,
    BottomLeft,
    BottomRight,
}

/// Direction in which text travels across the panel.
#[derive(Debug, Clone, Copy, PartialEq, Eq, Structural)]
pub enum ScrollDirection {
    Left,
    Right,
}

/// How often a message is played.
#[derive(Debug, Clone, Copy, PartialEq, Eq, Structural)]
pub enum RepeatMode {
    Once,
    Forever,
    Count(u32),
}

/// Geometry and wiring of an LED matrix.
#[derive(Debug, Clone, Copy, PartialEq, Eq, Structural)]
pub struct DisplayConfig {
    pub width: u16,
    pub height: u16,
    pub brightness: u8,
    pub serpentine: bool,
    pub origin: PixelOrigin,
}

impl DisplayConfig {
    /// The outcome of validating the configuration: the panel needs at least
    /// one column and one row.
    pub open spec fn spec_check(&self) -> Result<(), ValidationError> {
        if self.width == 0 {
            Err(ValidationError("display width must be greater than zero"))
        } else if self.height == 0 {
            Err(ValidationError("display height must be greater than zero"))
        } else {
            Ok(())
        }
    }

    /// A configuration is usable when the panel has at least one row and one column.
    pub open spec fn spec_valid(&self) -> bool {
        self.width > 0 && self.height > 0
    }

    /// Number of pixels of the panel.
    pub fn pixel_count(&self) -> (count: usize)
        ensures
            count == self.width * self.height,
    {
        assert(self.width * self.height <= 0xffff * 0xffff) by (nonlinear_arith)
            requires
                self.width <= 0xffff,
                self.height <= 0xffff,
        ;
        (self.width as usize) * (self.height as usize)
    }

    /// Rejects a panel without rows or columns.
    pub fn validate(&self) -> (result: Result<(), ValidationError>)
        ensures
            result == self.spec_check(),
            result is Ok <==> self.spec_valid(),
    {
        if self.width == 0 {
            return Err(ValidationError("display width must be greater than zero"));
        }
        if self.height == 0 {
            return Err(ValidationError("display height must be greater than zero"));
        }
        Ok(())
    }
}

/// A message to be scrolled across the panel.  The scroll speed, a
/// floating-point quantity, travels beside it in the caller.
#[derive(Debug, Clone, PartialEq, Eq)]
pub struct MessageEnvelope {
    pub id: String,
    pub text: String,
    pub direction: ScrollDirection,
    pub repeat: RepeatMode,
    pub issued_at_unix_ms: u64,
}

impl MessageEnvelope {
    /// The outcome of validating the message: it must carry an identifier.
    pub open spec fn spec_check(&self) -> Result<(), ValidationError> {
        if self.id@.len() == 0 {
            Err(ValidationError("message id must not be empty"))
        } else {
            Ok(())
        }
    }

    /// A message must carry an identifier.
    pub open spec fn spec_valid(&self) -> bool {
        self.id@.len() > 0
    }

    /// Rejects a message without identifier.
    pub fn validate(&self) -> (result: Result<(), ValidationError>)
        ensures
            result == self.spec_check(),
            result is Ok <==> self.spec_valid(),
    {
        if self.id.as_str().is_empty() {
            return Err(ValidationError("message id must not be empty"));
        }
        Ok(())
    }
}

/// Health of the firmware image that is currently active.
#[derive(Debug, Clone, Copy, PartialEq, Eq, Structural)]
pub enum FirmwareBootHealth {
    Healthy,
    Pending,
    Failed,
    RolledBack,
}

/// What identifies a firmware image once it has been verified.
#[derive(Debug, Clone, PartialEq, Eq)]
pub struct FirmwareImageIdentity {
    pub firmware_version: String,
    pub artifact_sha256: String,
    pub signing_key_id: String,
    pub rollback_epoch: u64,
}

/// The mathematical value of a [`FirmwareImageIdentity`].
pub ghost struct ImageIdentityModel {
    pub firmware_version: Seq<char>,
    pub artifact_sha256: Seq<char>,
    pub signing_key_id: Seq<char>,
    pub rollback_epoch: u64,
}

impl View for FirmwareImageIdentity {
    type V = ImageIdentityModel;

    open spec fn view(&self) -> ImageIdentityModel {
        ImageIdentityModel {
            firmware_version: self.firmware_version@,
            artifact_sha256: self.artifact_sha256@,
            signing_key_id: self.signing_key_id@,
            rollback_epoch: self.rollback_epoch,
        }
    }
}

impl FirmwareImageIdentity {
    /// A field-by-field copy.
    pub fn duplicate(&self) -> (copy: Self)
        ensures
            copy@ == self@,
    {
        FirmwareImageIdentity {
            firmware_version: self.firmware_version.clone(),
            artifact_sha256: self.artifact_sha256.clone(),
            signing_key_id: self.signing_key_id.clone(),
            rollback_epoch: self.rollback_epoch,
        }
    }
}

/// The view of an optional identity.
pub open spec fn identity_option_view(o: Option<FirmwareImageIdentity>) -> Option<
    ImageIdentityModel,
> {
    match o {
        Some(identity) => Some(identity@),
        None => None,
    }
}

/// The view of an optional string.
pub open spec fn string_option_view(o: Option<String>) -> Option<Seq<char>> {
    match o {
        Some(s) => Some(s@),
        None => None,
    }
}

/// A snapshot of the firmware update controller.
#[derive(Debug, Clone, PartialEq, Eq)]
pub struct FirmwareUpdateTelemetry {
    pub active: FirmwareImageIdentity,
    pub pending: Option<FirmwareImageIdentity>,
    pub boot_health: FirmwareBootHealth,
    pub rollback_reason: Option<String>,
}

/// Description of a firmware artifact, as signed by its publisher.
#[derive(Debug, Clone, PartialEq, Eq)]
pub struct FirmwareManifest {
    pub schema_version: u32,
    pub controller_family: String,
    pub compatible_hardware_revisions: Vec<String>,
    pub firmware_version: String,
    pub protocol_minimum: u16,
    pub protocol_maximum: u16,
    pub artifact_sha256: String,
    pub artifact_size_bytes: u64,
    pub source_commit: String,
    pub reproducible_build_id: String,
    pub rollback_epoch: u64,
    pub signing_key_id: String,
}

/// The only manifest schema this library understands.
pub const MANIFEST_SCHEMA_VERSION: u32 = 1;

/// `c` is a lower-case hexadecimal digit.
pub open spec fn is_lower_hex_digit(c: char) -> bool {
    ('0' <= c && c <= '9') || ('a' <= c && c <= 'f')
}

/// `s` spells a SHA-256 digest: sixty-four lower-case hexadecimal digits.
pub open spec fn is_sha256_hex(s: Seq<char>) -> bool {
    s.len() == 64 && forall|i: int| 0 <= i < s.len() ==> is_lower_hex_digit(#[trigger] s[i])
}

impl FirmwareManifest {
    /// A manifest is well formed when it uses the known schema, names its
    /// family, version and signing key, lists at least one hardware revision,
    /// gives an ordered protocol range and a SHA-256 digest in lower-case hex.
    pub open spec fn spec_valid(&self) -> bool {
        &&& self.schema_version == MANIFEST_SCHEMA_VERSION
        &&& self.controller_family@.len() > 0
        &&& self.firmware_version@.len() > 0
        &&& self.signing_key_id@.len() > 0
        &&& self.compatible_hardware_revisions@.len() > 0
        &&& self.protocol_minimum <= self.protocol_maximum
        &&& is_sha256_hex(self.artifact_sha256@)
    }

    /// The manifest names `revision` among its compatible hardware revisions.
    pub open spec fn spec_supports_hardware(&self, revision: Seq<char>) -> bool {
        exists|i: int|
            0 <= i < self.compatible_hardware_revisions@.len()
                && #[trigger] self.compatible_hardware_revisions@[i]@ == revision
    }

    /// The protocol range of the manifest holds `version`.
    pub open spec fn spec_supports_protocol(&self, version: u16) -> bool {
        self.protocol_minimum <= version && version <= self.protocol_maximum
    }

    /// The outcome of validating the manifest, rule by rule in the order of
    /// [`FirmwareManifest::spec_valid`].
    pub open spec fn spec_check(&self) -> Result<(), ValidationError> {
        if self.schema_version != MANIFEST_SCHEMA_VERSION {
            Err(ValidationError("unsupported manifest schema version"))
        } else if self.controller_family@.len() == 0 {
            Err(ValidationError("controller family must not be empty"))
        } else if self.firmware_version@.len() == 0 {
            Err(ValidationError("firmware version must not be empty"))
        } else if self.signing_key_id@.len() == 0 {
            Err(ValidationError("signing key id must not be empty"))
        } else if self.compatible_hardware_revisions@.len() == 0 {
            Err(ValidationError("at least one hardware revision is required"))
        } else if self.protocol_minimum > self.protocol_maximum {
            Err(ValidationError("protocol range is reversed"))
        } else if !is_sha256_hex(self.artifact_sha256@) {
            Err(ValidationError("artifact digest must be 64 lower-case hex digits"))
        } else {
            Ok(())
        }
    }

    /// Checks the rules of [`FirmwareManifest::spec_valid`].
    pub fn validate(&self) -> (result: Result<(), ValidationError>)
        ensures
            result == self.spec_check(),
            result is Ok <==> self.spec_valid(),
    {
        if self.schema_version != MANIFEST_SCHEMA_VERSION {
            return Err(ValidationError("unsupported manifest schema version"));
        }
        if self.controller_family.as_str().is_empty() {
            return Err(ValidationError("controller family must not be empty"));
        }
        if self.firmware_version.as_str().is_empty() {
            return Err(ValidationError("firmware version must not be empty"));
        }
        if self.signing_key_id.as_str().is_empty() {
            return Err(ValidationError("signing key id must not be empty"));
        }
        if self.compatible_hardware_revisions.len() == 0 {
            return Err(ValidationError("at least one hardware revision is required"));
        }
        if self.protocol_minimum > self.protocol_maximum {
            return Err(ValidationError("protocol range is reversed"));
        }
        if !is_sha256_hex_text(self.artifact_sha256.as_str()) {
            return Err(ValidationError("artifact digest must be 64 lower-case hex digits"));
        }
        Ok(())
    }

    /// Whether `revision` is one of the compatible hardware revisions.
    pub fn supports_hardware(&self, revision: &str) -> (supported: bool)
        ensures
            supported == self.spec_supports_hardware(revision@),
            supported <==> exists|i: int|
                0 <= i < self.compatible_hardware_revisions@.len()
                    && #[trigger] self.compatible_hardware_revisions@[i]@ == revision@,
    {
        let count = self.compatible_hardware_revisions.len();
        let mut index: usize = 0;
        while index < count
            invariant
                count == self.compatible_hardware_revisions@.len(),
                index <= count,
                forall|j: int|
                    0 <= j < index ==> #[trigger] self.compatible_hardware_revisions@[j]@
                        != revision@,
            decreases count - index,
        {
            if text_eq(self.compatible_hardware_revisions[index].as_str(), revision) {
                return true;
            }
            index = index + 1;
        }
        false
    }

    /// Whether the protocol range holds `version`.
    pub fn supports_protocol(&self, version: u16) -> (supported: bool)
        ensures
            supported == self.spec_supports_protocol(version),
    {
        self.protocol_minimum <= version && version <= self.protocol_maximum
    }
}

/// Character-by-character equality of two texts.
pub fn text_eq(a: &str, b: &str) -> (equal: bool)
    ensures
        equal == (a@ == b@),
{
    let length = a.unicode_len();
    if length != b.unicode_len() {
        return false;
    }
    let mut index: usize = 0;
    while index < length
        invariant
            length == a@.len(),
            length == b@.len(),
            index <= length,
            forall|j: int| 0 <= j < index ==> a@[j] == b@[j],
        decreases length - index,
    {
        if a.get_char(index) != b.get_char(index) {
            return false;
        }
        index = index + 1;
    }
    assert(a@ =~= b@);
    true
}

/// The views of a sequence of strings.
pub open spec fn strings_view(strings: Seq<String>) -> Seq<Seq<char>> {
    strings.map_values(|s: String| s@)
}

/// Whether `text` is one of `strings`.
pub fn contains_text(strings: &Vec<String>, text: &str) -> (found: bool)
    ensures
        found == strings_view(strings@).contains(text@),
{
    let count = strings.len();
    let mut index: usize = 0;
    while index < count
        invariant
            count == strings@.len(),
            index <= count,
            forall|j: int| 0 <= j < index ==> strings@[j]@ != text@,
        decreases count - index,
    {
        if text_eq(strings[index].as_str(), text) {
            assert(strings_view(strings@)[index as int] == text@);
            return true;
        }
        index = index + 1;
    }
    assert(!strings_view(strings@).contains(text@)) by {
        if strings_view(strings@).contains(text@) {
            let j = choose|j: int| 0 <= j < count && strings_view(strings@)[j] == text@;
            assert(strings@[j]@ == text@);
        }
    }
    false
}

/// Whether `text` consists of exactly sixty-four lower-case hexadecimal digits.
pub fn is_sha256_hex_text(text: &str) -> (ok: bool)
    ensures
        ok == is_sha256_hex(text@),
{
    if !text.is_ascii() {
        proof {
            assert(!is_sha256_hex(text@)) by {
                if is_sha256_hex(text@) {
                    assert(vstd::utf8::is_ascii_chars(text@));
                }
            }
        }
        return false;
    }
    let count = text.unicode_len();
    if count != 64 {
        return false;
    }
    let mut index: usize = 0;
    while index < count
        invariant
            count == text@.len(),
            text.is_ascii(),
            index <= count,
            forall|j: int| 0 <= j < index ==> is_lower_hex_digit(#[trigger] text@[j]),
        decreases count - index,
    {
        let c = text.get_ascii(index) as char;
        assert(c == text@[index as int]);
        if !(('0' <= c && c <= '9') || ('a' <= c && c <= 'f')) {
            return false;
        }
        index = index + 1;
    }
    true
}

/// A manifest with its detached Ed25519 signature, base64 encoded.
#[derive(Debug, Clone, PartialEq, Eq)]
pub struct SignedFirmwareManifest {
    pub manifest: FirmwareManifest,
    pub signature_ed25519_base64: String,
}

/// Kinds of fault that the safety controller detects.
#[derive(Debug, Clone, Copy, PartialEq, Eq, Structural)]
pub enum SafetyFaultCode {
    SensorFailure,
    UnderVoltage,
    OverCurrent,
    OverTemperature,
    CommunicationLoss,
}

/// One occurrence of a fault: when it tripped and, once it has, when it cleared.
#[derive(Debug, Clone, Copy, PartialEq, Eq, Structural)]
pub struct SafetyFaultRecord {
    pub code: SafetyFaultCode,
    pub tripped_at_unix_ms: u64,
    pub cleared_at_unix_ms: Option<u64>,
}

/// Limits enforced locally by the safety controller.
#[derive(Debug, Clone, Copy, PartialEq, Eq, Structural)]
pub struct SafetyLimits {
    pub minimum_supply_millivolts: Option<u32>,
    pub maximum_current_milliamps: Option<u32>,
    pub maximum_temperature_millicelsius: Option<i32>,
    pub fail_safe_brightness: u8,
    pub communication_timeout_ms: u32,
    pub telemetry_interval_ms: u32,
    pub fault_history_capacity: u16,
}

impl SafetyLimits {
    /// Timeouts, the telemetry interval and the history capacity must be positive.
    pub open spec fn spec_valid(&self) -> bool {
        &&& self.communication_timeout_ms > 0
        &&& self.telemetry_interval_ms > 0
        &&& self.fault_history_capacity > 0
    }

    /// The outcome of validating the limits, rule by rule.
    pub open spec fn spec_check(&self) -> Result<(), ValidationError> {
        if self.communication_timeout_ms == 0 {
            Err(ValidationError("communication timeout must be greater than zero"))
        } else if self.telemetry_interval_ms == 0 {
            Err(ValidationError("telemetry interval must be greater than zero"))
        } else if self.fault_history_capacity == 0 {
            Err(ValidationError("fault history capacity must be greater than zero"))
        } else {
            Ok(())
        }
    }

    /// Checks the rules of [`SafetyLimits::spec_valid`].
    pub fn validate(&self) -> (result: Result<(), ValidationError>)
        ensures
            result == self.spec_check(),
            result is Ok <==> self.spec_valid(),
    {
        if self.communication_timeout_ms == 0 {
            return Err(ValidationError("communication timeout must be greater than zero"));
        }
        if self.telemetry_interval_ms == 0 {
            return Err(ValidationError("telemetry interval must be greater than zero"));
        }
        if self.fault_history_capacity == 0 {
            return Err(ValidationError("fault history capacity must be greater than zero"));
        }
        Ok(())
    }
}

/// A one-time authorization to clear a latched fault.
#[derive(Debug, Clone, PartialEq, Eq)]
pub struct FaultResetAuthorization {
    pub authorization_id: String,
    pub issued_at_unix_ms: u64,
    pub expires_at_unix_ms: u64,
}

impl FaultResetAuthorization {
    /// An authorization is usable at `now` when it has an identifier, has been
    /// issued and has not yet expired.
    pub open spec fn spec_valid_at(&self, now: u64) -> bool {
        &&& self.authorization_id@.len() > 0
        &&& self.issued_at_unix_ms <= now
        &&& now < self.expires_at_unix_ms
    }

    /// The outcome of validating the authorization at `now`, rule by rule.
    pub open spec fn spec_check_at(&self, now: u64) -> Result<(), ValidationError> {
        if self.authorization_id@.len() == 0 {
            Err(ValidationError("authorization id must not be empty"))
        } else if now < self.issued_at_unix_ms {
            Err(ValidationError("authorization is not yet valid"))
        } else if now >= self.expires_at_unix_ms {
            Err(ValidationError("authorization has expired"))
        } else {
            Ok(())
        }
    }

    /// Checks the rules of [`FaultResetAuthorization::spec_valid_at`].
    pub fn validate_at(&self, now_unix_ms: u64) -> (result: Result<(), ValidationError>)
        ensures
            result == self.spec_check_at(now_unix_ms),
            result is Ok <==> self.spec_valid_at(now_unix_ms),
    {
        if self.authorization_id.as_str().is_empty() {
            return Err(ValidationError("authorization id must not be empty"));
        }
        if now_unix_ms < self.issued_at_unix_ms {
            return Err(ValidationError("authorization is not yet valid"));
        }
        if now_unix_ms >= self.expires_at_unix_ms {
            return Err(ValidationError("authorization has expired"));
        }
        Ok(())
    }
}

/// A manifest supports every hardware revision it lists, wherever in the
/// list it stands, and no other.
pub proof fn lemma_listed_revisions_are_supported(manifest: FirmwareManifest, revision: Seq<char>)
    ensures
        forall|i: int|
            0 <= i < manifest.compatible_hardware_revisions@.len()
                && manifest.compatible_hardware_revisions@[i]@ == revision
                ==> manifest.spec_supports_hardware(revision),
        manifest.spec_supports_hardware(revision) ==> exists|i: int|
            0 <= i < manifest.compatible_hardware_revisions@.len()
                && #[trigger] manifest.compatible_hardware_revisions@[i]@ == revision,
{
    assert forall|i: int|
        0 <= i < manifest.compatible_hardware_revisions@.len()
            && manifest.compatible_hardware_revisions@[i]@ == revision implies manifest.spec_supports_hardware(
        revision,
    ) by {
        assert(manifest.compatible_hardware_revisions@[i]@ == revision);
    }
}

} // verus!
