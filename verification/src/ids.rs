//! UUID-based identifiers.
//!
//! Each identifier holds the 128 bits of a UUID. Random generation, parsing
//! and the hyphenated rendering are done by the `uuid` crate.

use vstd::prelude::*;
use crate::primitives::hex_digit;

verus! {

#[verifier::external_type_specification]
#[verifier::external_body]
pub struct ExUuidError(uuid::Error);

/// The 128-bit value denoted by a UUID text, when `uuid::Uuid::parse_str` accepts it.
pub uninterp spec fn uuid_text_value(s: Seq<char>) -> Option<u128>;

/// The 32 lowercase hexadecimal digits of a UUID value, most significant first.
pub open spec fn uuid_hex(v: u128) -> Seq<char> {
    Seq::new(32, |i: int| hex_digit(((v >> ((124 - 4 * i) as u128)) & 15u128) as u8))
}

/// The hyphenated lowercase rendering of a UUID value (`Display` for
/// `uuid::Uuid`): its hex digits in groups of 8, 4, 4, 4 and 12.
pub open spec fn uuid_text(v: u128) -> Seq<char> {
    let h = uuid_hex(v);
    h.subrange(0, 8) + seq!['-'] + h.subrange(8, 12) + seq!['-'] + h.subrange(12, 16) + seq!['-']
        + h.subrange(16, 20) + seq!['-'] + h.subrange(20, 32)
}

/// Whether a UUID value is a random (version 4, RFC 9562 variant) UUID:
/// its version nibble is 4 and its two variant bits are `10`.
pub open spec fn is_random_uuid(v: u128) -> bool {
    (v >> 76u128) & 0xfu128 == 4 && (v >> 62u128) & 3u128 == 2
}

/// `uuid::Uuid::new_v4().as_u128()`: random bits, with the version and
/// variant fields set as `new_v4` sets them; nothing else is stated of them.
#[verifier::external_body]
pub(crate) fn uuid_new_v4_bits() -> (res: u128)
    ensures
        is_random_uuid(res),
{
    uuid::Uuid::new_v4().as_u128()
}

/// `uuid::Uuid::parse_str(s)`, as the parsed 128-bit value.
#[verifier::external_body]
pub(crate) fn uuid_parse_str(s: &str) -> (res: Result<u128, uuid::Error>)
    ensures
        res is Ok <==> uuid_text_value(s@) is Some,
        res matches Ok(v) ==> uuid_text_value(s@) == Some(v),
{
    match uuid::Uuid::parse_str(s) {
        Ok(u) => Ok(u.as_u128()),
        Err(e) => Err(e),
    }
}

/// `uuid::Uuid::from_u128(v).to_string()`. The rendering is the hyphenated
/// form, which `parse_str` reads back to the same value.
#[verifier::external_body]
pub(crate) fn uuid_to_string(v: u128) -> (res: String)
    ensures
        res@ == uuid_text(v),
        uuid_text_value(res@) == Some(v),
{
    uuid::Uuid::from_u128(v).to_string()
}

/// A tenant (family) unique identifier.
#[derive(Debug, Clone, Copy, PartialEq, Eq, Hash)]
pub struct TenantId(u128);

impl View for TenantId {
    type V = u128;

    closed spec fn view(&self) -> u128 {
        self.0
    }
}

impl TenantId {
    /// A fresh random identifier.
    pub fn new() -> (res: TenantId)
        ensures
            is_random_uuid(res@),
    {
        TenantId(uuid_new_v4_bits())
    }

    /// Parses the textual form of a UUID.
    pub fn parse(s: &str) -> (res: Result<TenantId, uuid::Error>)
        ensures
            res is Ok <==> uuid_text_value(s@) is Some,
            res matches Ok(id) ==> uuid_text_value(s@) == Some(id@),
    {
        match uuid_parse_str(s) {
            Ok(v) => Ok(TenantId(v)),
            Err(e) => Err(e),
        }
    }

    /// The identifier with the given 128 bits.
    pub fn from_u128(v: u128) -> (res: TenantId)
        ensures
            res@ == v,
    {
        TenantId(v)
    }

    /// The identifier's 128 bits.
    pub fn as_u128(&self) -> (res: u128)
        ensures
            res == self@,
    {
        self.0
    }

    /// The hyphenated textual form; parsing it gives back this identifier.
    pub fn to_string(&self) -> (res: String)
        ensures
            res@ == uuid_text(self@),
            uuid_text_value(res@) == Some(self@),
    {
        uuid_to_string(self.0)
    }
}

/// A user's unique identifier.
#[derive(Debug, Clone, Copy, PartialEq, Eq, Hash)]
pub struct UserId(u128);

impl View for UserId {
    type V = u128;

    closed spec fn view(&self) -> u128 {
        self.0
    }
}

impl UserId {
    /// A fresh random identifier.
    pub fn new() -> (res: UserId)
        ensures
            is_random_uuid(res@),
    {
        UserId(uuid_new_v4_bits())
    }

    /// Parses the textual form of a UUID.
    pub fn parse(s: &str) -> (res: Result<UserId, uuid::Error>)
        ensures
            res is Ok <==> uuid_text_value(s@) is Some,
            res matches Ok(id) ==> uuid_text_value(s@) == Some(id@),
    {
        match uuid_parse_str(s) {
            Ok(v) => Ok(UserId(v)),
            Err(e) => Err(e),
        }
    }

    /// The identifier with the given 128 bits.
    pub fn from_u128(v: u128) -> (res: UserId)
        ensures
            res@ == v,
    {
        UserId(v)
    }

    /// The identifier's 128 bits.
    pub fn as_u128(&self) -> (res: u128)
        ensures
            res == self@,
    {
        self.0
    }

    /// The hyphenated textual form; parsing it gives back this identifier.
    pub fn to_string(&self) -> (res: String)
        ensures
            res@ == uuid_text(self@),
            uuid_text_value(res@) == Some(self@),
    {
        uuid_to_string(self.0)
    }
}

/// A channel's unique identifier.
#[derive(Debug, Clone, Copy, PartialEq, Eq, Hash)]
pub struct ChannelId(u128);

impl View for ChannelId {
    type V = u128;

    closed spec fn view(&self) -> u128 {
        self.0
    }
}

impl ChannelId {
    /// A fresh random identifier.
    pub fn new() -> (res: ChannelId)
        ensures
            is_random_uuid(res@),
    {
        ChannelId(uuid_new_v4_bits())
    }

    /// Parses the textual form of a UUID.
    pub fn parse(s: &str) -> (res: Result<ChannelId, uuid::Error>)
        ensures
            res is Ok <==> uuid_text_value(s@) is Some,
            res matches Ok(id) ==> uuid_text_value(s@) == Some(id@),
    {
        match uuid_parse_str(s) {
            Ok(v) => Ok(ChannelId(v)),
            Err(e) => Err(e),
        }
    }

    /// The identifier with the given 128 bits.
    pub fn from_u128(v: u128) -> (res: ChannelId)
        ensures
            res@ == v,
    {
        ChannelId(v)
    }

    /// The identifier's 128 bits.
    pub fn as_u128(&self) -> (res: u128)
        ensures
            res == self@,
    {
        self.0
    }

    /// The hyphenated textual form; parsing it gives back this identifier.
    pub fn to_string(&self) -> (res: String)
        ensures
            res@ == uuid_text(self@),
            uuid_text_value(res@) == Some(self@),
    {
        uuid_to_string(self.0)
    }
}

/// A message's unique identifier.
#[derive(Debug, Clone, Copy, PartialEq, Eq, Hash)]
pub struct MessageId(u128);

impl View for MessageId {
    type V = u128;

    closed spec fn view(&self) -> u128 {
        self.0
    }
}

impl MessageId {
    /// A fresh random identifier.
    pub fn new() -> (res: MessageId)
        ensures
            is_random_uuid(res@),
    {
        MessageId(uuid_new_v4_bits())
    }

    /// Parses the textual form of a UUID.
    pub fn parse(s: &str) -> (res: Result<MessageId, uuid::Error>)
        ensures
            res is Ok <==> uuid_text_value(s@) is Some,
            res matches Ok(id) ==> uuid_text_value(s@) == Some(id@),
    {
        match uuid_parse_str(s) {
            Ok(v) => Ok(MessageId(v)),
            Err(e) => Err(e),
        }
    }

    /// The identifier with the given 128 bits.
    pub fn from_u128(v: u128) -> (res: MessageId)
        ensures
            res@ == v,
    {
        MessageId(v)
    }

    /// The identifier's 128 bits.
    pub fn as_u128(&self) -> (res: u128)
        ensures
            res == self@,
    {
        self.0
    }

    /// The hyphenated textual form; parsing it gives back this identifier.
    pub fn to_string(&self) -> (res: String)
        ensures
            res@ == uuid_text(self@),
            uuid_text_value(res@) == Some(self@),
    {
        uuid_to_string(self.0)
    }
}

/// A course (persistent session/history bucket) unique identifier.
#[derive(Debug, Clone, Copy, PartialEq, Eq, Hash)]
pub struct CourseId(u128);

impl View for CourseId {
    type V = u128;

    closed spec fn view(&self) -> u128 {
        self.0
    }
}

impl CourseId {
    /// A fresh random identifier.
    pub fn new() -> (res: CourseId)
        ensures
            is_random_uuid(res@),
    {
        CourseId(uuid_new_v4_bits())
    }

    /// Parses the textual form of a UUID.
    pub fn parse(s: &str) -> (res: Result<CourseId, uuid::Error>)
        ensures
            res is Ok <==> uuid_text_value(s@) is Some,
            res matches Ok(id) ==> uuid_text_value(s@) == Some(id@),
    {
        match uuid_parse_str(s) {
            Ok(v) => Ok(CourseId(v)),
            Err(e) => Err(e),
        }
    }

    /// The identifier with the given 128 bits.
    pub fn from_u128(v: u128) -> (res: CourseId)
        ensures
            res@ == v,
    {
        CourseId(v)
    }

    /// The identifier's 128 bits.
    pub fn as_u128(&self) -> (res: u128)
        ensures
            res == self@,
    {
        self.0
    }

    /// The hyphenated textual form; parsing it gives back this identifier.
    pub fn to_string(&self) -> (res: String)
        ensures
            res@ == uuid_text(self@),
            uuid_text_value(res@) == Some(self@),
    {
        uuid_to_string(self.0)
    }
}

/// A shuttle (transient unit of work) unique identifier.
#[derive(Debug, Clone, Copy, PartialEq, Eq, Hash)]
pub struct ShuttleId(u128);

impl View for ShuttleId {
    type V = u128;

    closed spec fn view(&self) -> u128 {
        self.0
    }
}

impl ShuttleId {
    /// A fresh random identifier.
    pub fn new() -> (res: ShuttleId)
        ensures
            is_random_uuid(res@),
    {
        ShuttleId(uuid_new_v4_bits())
    }

    /// Parses the textual form of a UUID.
    pub fn parse(s: &str) -> (res: Result<ShuttleId, uuid::Error>)
        ensures
            res is Ok <==> uuid_text_value(s@) is Some,
            res matches Ok(id) ==> uuid_text_value(s@) == Some(id@),
    {
        match uuid_parse_str(s) {
            Ok(v) => Ok(ShuttleId(v)),
            Err(e) => Err(e),
        }
    }

    /// The identifier with the given 128 bits.
    pub fn from_u128(v: u128) -> (res: ShuttleId)
        ensures
            res@ == v,
    {
        ShuttleId(v)
    }

    /// The identifier's 128 bits.
    pub fn as_u128(&self) -> (res: u128)
        ensures
            res == self@,
    {
        self.0
    }

    /// The hyphenated textual form; parsing it gives back this identifier.
    pub fn to_string(&self) -> (res: String)
        ensures
            res@ == uuid_text(self@),
            uuid_text_value(res@) == Some(self@),
    {
        uuid_to_string(self.0)
    }
}

/// A thread (domain entity - Person/Concept) unique identifier.
#[derive(Debug, Clone, Copy, PartialEq, Eq, Hash)]
pub struct ThreadId(u128);

impl View for ThreadId {
    type V = u128;

    closed spec fn view(&self) -> u128 {
        self.0
    }
}

impl ThreadId {
    /// A fresh random identifier.
    pub fn new() -> (res: ThreadId)
        ensures
            is_random_uuid(res@),
    {
        ThreadId(uuid_new_v4_bits())
    }

    /// Parses the textual form of a UUID.
    pub fn parse(s: &str) -> (res: Result<ThreadId, uuid::Error>)
        ensures
            res is Ok <==> uuid_text_value(s@) is Some,
            res matches Ok(id) ==> uuid_text_value(s@) == Some(id@),
    {
        match uuid_parse_str(s) {
            Ok(v) => Ok(ThreadId(v)),
            Err(e) => Err(e),
        }
    }

    /// The identifier with the given 128 bits.
    pub fn from_u128(v: u128) -> (res: ThreadId)
        ensures
            res@ == v,
    {
        ThreadId(v)
    }

    /// The identifier's 128 bits.
    pub fn as_u128(&self) -> (res: u128)
        ensures
            res == self@,
    {
        self.0
    }

    /// The hyphenated textual form; parsing it gives back this identifier.
    pub fn to_string(&self) -> (res: String)
        ensures
            res@ == uuid_text(self@),
            uuid_text_value(res@) == Some(self@),
    {
        uuid_to_string(self.0)
    }
}

/// A session's unique identifier.
#[derive(Debug, Clone, Copy, PartialEq, Eq, Hash)]
pub struct SessionId(u128);

impl View for SessionId {
    type V = u128;

    closed spec fn view(&self) -> u128 {
        self.0
    }
}

impl SessionId {
    /// A fresh random identifier.
    pub fn new() -> (res: SessionId)
        ensures
            is_random_uuid(res@),
    {
        SessionId(uuid_new_v4_bits())
    }

    /// Parses the textual form of a UUID.
    pub fn parse(s: &str) -> (res: Result<SessionId, uuid::Error>)
        ensures
            res is Ok <==> uuid_text_value(s@) is Some,
            res matches Ok(id) ==> uuid_text_value(s@) == Some(id@),
    {
        match uuid_parse_str(s) {
            Ok(v) => Ok(SessionId(v)),
            Err(e) => Err(e),
        }
    }

    /// The identifier with the given 128 bits.
    pub fn from_u128(v: u128) -> (res: SessionId)
        ensures
            res@ == v,
    {
        SessionId(v)
    }

    /// The identifier's 128 bits.
    pub fn as_u128(&self) -> (res: u128)
        ensures
            res == self@,
    {
        self.0
    }

    /// The hyphenated textual form; parsing it gives back this identifier.
    pub fn to_string(&self) -> (res: String)
        ensures
            res@ == uuid_text(self@),
            uuid_text_value(res@) == Some(self@),
    {
        uuid_to_string(self.0)
    }
}

/// A unique identifier for family invitations.
#[derive(Debug, Clone, Copy, PartialEq, Eq, Hash)]
pub struct InvitationId(u128);

impl View for InvitationId {
    type V = u128;

    closed spec fn view(&self) -> u128 {
        self.0
    }
}

impl InvitationId {
    /// A fresh random identifier.
    pub fn new() -> (res: InvitationId)
        ensures
            is_random_uuid(res@),
    {
        InvitationId(uuid_new_v4_bits())
    }

    /// Parses the textual form of a UUID.
    pub fn parse(s: &str) -> (res: Result<InvitationId, uuid::Error>)
        ensures
            res is Ok <==> uuid_text_value(s@) is Some,
            res matches Ok(id) ==> uuid_text_value(s@) == Some(id@),
    {
        match uuid_parse_str(s) {
            Ok(v) => Ok(InvitationId(v)),
            Err(e) => Err(e),
        }
    }

    /// The identifier with the given 128 bits.
    pub fn from_u128(v: u128) -> (res: InvitationId)
        ensures
            res@ == v,
    {
        InvitationId(v)
    }

    /// The identifier's 128 bits.
    pub fn as_u128(&self) -> (res: u128)
        ensures
            res == self@,
    {
        self.0
    }

    /// The hyphenated textual form; parsing it gives back this identifier.
    pub fn to_string(&self) -> (res: String)
        ensures
            res@ == uuid_text(self@),
            uuid_text_value(res@) == Some(self@),
    {
        uuid_to_string(self.0)
    }
}

/// A unique identifier for join requests.
#[derive(Debug, Clone, Copy, PartialEq, Eq, Hash)]
pub struct JoinRequestId(u128);

impl View for JoinRequestId {
    type V = u128;

    closed spec fn view(&self) -> u128 {
        self.0
    }
}

impl JoinRequestId {
    /// A fresh random identifier.
    pub fn new() -> (res: JoinRequestId)
        ensures
            is_random_uuid(res@),
    {
        JoinRequestId(uuid_new_v4_bits())
    }

    /// Parses the textual form of a UUID.
    pub fn parse(s: &str) -> (res: Result<JoinRequestId, uuid::Error>)
        ensures
            res is Ok <==> uuid_text_value(s@) is Some,
            res matches Ok(id) ==> uuid_text_value(s@) == Some(id@),
    {
        match uuid_parse_str(s) {
            Ok(v) => Ok(JoinRequestId(v)),
            Err(e) => Err(e),
        }
    }

    /// The identifier with the given 128 bits.
    pub fn from_u128(v: u128) -> (res: JoinRequestId)
        ensures
            res@ == v,
    {
        JoinRequestId(v)
    }

    /// The identifier's 128 bits.
    pub fn as_u128(&self) -> (res: u128)
        ensures
            res == self@,
    {
        self.0
    }

    /// The hyphenated textual form; parsing it gives back this identifier.
    pub fn to_string(&self) -> (res: String)
        ensures
            res@ == uuid_text(self@),
            uuid_text_value(res@) == Some(self@),
    {
        uuid_to_string(self.0)
    }
}

/// A unique identifier for magic links.
#[derive(Debug, Clone, Copy, PartialEq, Eq, Hash)]
pub struct MagicLinkId(u128);

impl View for MagicLinkId {
    type V = u128;

    closed spec fn view(&self) -> u128 {
        self.0
    }
}

impl MagicLinkId {
    /// A fresh random identifier.
    pub fn new() -> (res: MagicLinkId)
        ensures
            is_random_uuid(res@),
    {
        MagicLinkId(uuid_new_v4_bits())
    }

    /// Parses the textual form of a UUID.
    pub fn parse(s: &str) -> (res: Result<MagicLinkId, uuid::Error>)
        ensures
            res is Ok <==> uuid_text_value(s@) is Some,
            res matches Ok(id) ==> uuid_text_value(s@) == Some(id@),
    {
        match uuid_parse_str(s) {
            Ok(v) => Ok(MagicLinkId(v)),
            Err(e) => Err(e),
        }
    }

    /// The identifier with the given 128 bits.
    pub fn from_u128(v: u128) -> (res: MagicLinkId)
        ensures
            res@ == v,
    {
        MagicLinkId(v)
    }

    /// The identifier's 128 bits.
    pub fn as_u128(&self) -> (res: u128)
        ensures
            res == self@,
    {
        self.0
    }

    /// The hyphenated textual form; parsing it gives back this identifier.
    pub fn to_string(&self) -> (res: String)
        ensures
            res@ == uuid_text(self@),
            uuid_text_value(res@) == Some(self@),
    {
        uuid_to_string(self.0)
    }
}

/// A unique identifier for audit log entries.
#[derive(Debug, Clone, Copy, PartialEq, Eq, Hash)]
pub struct AuditLogId(u128);

impl View for AuditLogId {
    type V = u128;

    closed spec fn view(&self) -> u128 {
        self.0
    }
}

impl AuditLogId {
    /// A fresh random identifier.
    pub fn new() -> (res: AuditLogId)
        ensures
            is_random_uuid(res@),
    {
        AuditLogId(uuid_new_v4_bits())
    }

    /// Parses the textual form of a UUID.
    pub fn parse(s: &str) -> (res: Result<AuditLogId, uuid::Error>)
        ensures
            res is Ok <==> uuid_text_value(s@) is Some,
            res matches Ok(id) ==> uuid_text_value(s@) == Some(id@),
    {
        match uuid_parse_str(s) {
            Ok(v) => Ok(AuditLogId(v)),
            Err(e) => Err(e),
        }
    }

    /// The identifier with the given 128 bits.
    pub fn from_u128(v: u128) -> (res: AuditLogId)
        ensures
            res@ == v,
    {
        AuditLogId(v)
    }

    /// The identifier's 128 bits.
    pub fn as_u128(&self) -> (res: u128)
        ensures
            res == self@,
    {
        self.0
    }

    /// The hyphenated textual form; parsing it gives back this identifier.
    pub fn to_string(&self) -> (res: String)
        ensures
            res@ == uuid_text(self@),
            uuid_text_value(res@) == Some(self@),
    {
        uuid_to_string(self.0)
    }
}

/// A unique identifier for consent records.
#[derive(Debug, Clone, Copy, PartialEq, Eq, Hash)]
pub struct ConsentRecordId(u128);

impl View for ConsentRecordId {
    type V = u128;

    closed spec fn view(&self) -> u128 {
        self.0
    }
}

impl ConsentRecordId {
    /// A fresh random identifier.
    pub fn new() -> (res: ConsentRecordId)
        ensures
            is_random_uuid(res@),
    {
        ConsentRecordId(uuid_new_v4_bits())
    }

    /// Parses the textual form of a UUID.
    pub fn parse(s: &str) -> (res: Result<ConsentRecordId, uuid::Error>)
        ensures
            res is Ok <==> uuid_text_value(s@) is Some,
            res matches Ok(id) ==> uuid_text_value(s@) == Some(id@),
    {
        match uuid_parse_str(s) {
            Ok(v) => Ok(ConsentRecordId(v)),
            Err(e) => Err(e),
        }
    }

    /// The identifier with the given 128 bits.
    pub fn from_u128(v: u128) -> (res: ConsentRecordId)
        ensures
            res@ == v,
    {
        ConsentRecordId(v)
    }

    /// The identifier's 128 bits.
    pub fn as_u128(&self) -> (res: u128)
        ensures
            res == self@,
    {
        self.0
    }

    /// The hyphenated textual form; parsing it gives back this identifier.
    pub fn to_string(&self) -> (res: String)
        ensures
            res@ == uuid_text(self@),
            uuid_text_value(res@) == Some(self@),
    {
        uuid_to_string(self.0)
    }
}

/// A unique identifier for async tasks.
#[derive(Debug, Clone, Copy, PartialEq, Eq, Hash)]
pub struct TaskId(u128);

impl View for TaskId {
    type V = u128;

    closed spec fn view(&self) -> u128 {
        self.0
    }
}

impl TaskId {
    /// A fresh random identifier.
    pub fn new() -> (res: TaskId)
        ensures
            is_random_uuid(res@),
    {
        TaskId(uuid_new_v4_bits())
    }

    /// Parses the textual form of a UUID.
    pub fn parse(s: &str) -> (res: Result<TaskId, uuid::Error>)
        ensures
            res is Ok <==> uuid_text_value(s@) is Some,
            res matches Ok(id) ==> uuid_text_value(s@) == Some(id@),
    {
        match uuid_parse_str(s) {
            Ok(v) => Ok(TaskId(v)),
            Err(e) => Err(e),
        }
    }

    /// The identifier with the given 128 bits.
    pub fn from_u128(v: u128) -> (res: TaskId)
        ensures
            res@ == v,
    {
        TaskId(v)
    }

    /// The identifier's 128 bits.
    pub fn as_u128(&self) -> (res: u128)
        ensures
            res == self@,
    {
        self.0
    }

    /// The hyphenated textual form; parsing it gives back this identifier.
    pub fn to_string(&self) -> (res: String)
        ensures
            res@ == uuid_text(self@),
            uuid_text_value(res@) == Some(self@),
    {
        uuid_to_string(self.0)
    }
}

/// A unique identifier for entities.
#[derive(Debug, Clone, Copy, PartialEq, Eq, Hash)]
pub struct EntityId(u128);

impl View for EntityId {
    type V = u128;

    closed spec fn view(&self) -> u128 {
        self.0
    }
}

impl EntityId {
    /// A fresh random identifier.
    pub fn new() -> (res: EntityId)
        ensures
            is_random_uuid(res@),
    {
        EntityId(uuid_new_v4_bits())
    }

    /// Parses the textual form of a UUID.
    pub fn parse(s: &str) -> (res: Result<EntityId, uuid::Error>)
        ensures
            res is Ok <==> uuid_text_value(s@) is Some,
            res matches Ok(id) ==> uuid_text_value(s@) == Some(id@),
    {
        match uuid_parse_str(s) {
            Ok(v) => Ok(EntityId(v)),
            Err(e) => Err(e),
        }
    }

    /// The identifier with the given 128 bits.
    pub fn from_u128(v: u128) -> (res: EntityId)
        ensures
            res@ == v,
    {
        EntityId(v)
    }

    /// The identifier's 128 bits.
    pub fn as_u128(&self) -> (res: u128)
        ensures
            res == self@,
    {
        self.0
    }

    /// The hyphenated textual form; parsing it gives back this identifier.
    pub fn to_string(&self) -> (res: String)
        ensures
            res@ == uuid_text(self@),
            uuid_text_value(res@) == Some(self@),
    {
        uuid_to_string(self.0)
    }
}

/// A unique identifier for data export requests.
#[derive(Debug, Clone, Copy, PartialEq, Eq, Hash)]
pub struct ExportRequestId(u128);

impl View for ExportRequestId {
    type V = u128;

    closed spec fn view(&self) -> u128 {
        self.0
    }
}

impl ExportRequestId {
    /// A fresh random identifier.
    pub fn new() -> (res: ExportRequestId)
        ensures
            is_random_uuid(res@),
    {
        ExportRequestId(uuid_new_v4_bits())
    }

    /// Parses the textual form of a UUID.
    pub fn parse(s: &str) -> (res: Result<ExportRequestId, uuid::Error>)
        ensures
            res is Ok <==> uuid_text_value(s@) is Some,
            res matches Ok(id) ==> uuid_text_value(s@) == Some(id@),
    {
        match uuid_parse_str(s) {
            Ok(v) => Ok(ExportRequestId(v)),
            Err(e) => Err(e),
        }
    }

    /// The identifier with the given 128 bits.
    pub fn from_u128(v: u128) -> (res: ExportRequestId)
        ensures
            res@ == v,
    {
        ExportRequestId(v)
    }

    /// The identifier's 128 bits.
    pub fn as_u128(&self) -> (res: u128)
        ensures
            res == self@,
    {
        self.0
    }

    /// The hyphenated textual form; parsing it gives back this identifier.
    pub fn to_string(&self) -> (res: String)
        ensures
            res@ == uuid_text(self@),
            uuid_text_value(res@) == Some(self@),
    {
        uuid_to_string(self.0)
    }
}

/// A unique identifier for data deletion requests.
#[derive(Debug, Clone, Copy, PartialEq, Eq, Hash)]
pub struct DeletionRequestId(u128);

impl View for DeletionRequestId {
    type V = u128;

    closed spec fn view(&self) -> u128 {
        self.0
    }
}

impl DeletionRequestId {
    /// A fresh random identifier.
    pub fn new() -> (res: DeletionRequestId)
        ensures
            is_random_uuid(res@),
    {
        DeletionRequestId(uuid_new_v4_bits())
    }

    /// Parses the textual form of a UUID.
    pub fn parse(s: &str) -> (res: Result<DeletionRequestId, uuid::Error>)
        ensures
            res is Ok <==> uuid_text_value(s@) is Some,
            res matches Ok(id) ==> uuid_text_value(s@) == Some(id@),
    {
        match uuid_parse_str(s) {
            Ok(v) => Ok(DeletionRequestId(v)),
            Err(e) => Err(e),
        }
    }

    /// The identifier with the given 128 bits.
    pub fn from_u128(v: u128) -> (res: DeletionRequestId)
        ensures
            res@ == v,
    {
        DeletionRequestId(v)
    }

    /// The identifier's 128 bits.
    pub fn as_u128(&self) -> (res: u128)
        ensures
            res == self@,
    {
        self.0
    }

    /// The hyphenated textual form; parsing it gives back this identifier.
    pub fn to_string(&self) -> (res: String)
        ensures
            res@ == uuid_text(self@),
            uuid_text_value(res@) == Some(self@),
    {
        uuid_to_string(self.0)
    }
}

/// A UUID wrapper.
#[derive(Debug, Clone, Copy, PartialEq, Eq, Hash)]
pub struct UUID(u128);

impl View for UUID {
    type V = u128;

    closed spec fn view(&self) -> u128 {
        self.0
    }
}

impl UUID {
    /// A fresh random identifier.
    pub fn new() -> (res: UUID)
        ensures
            is_random_uuid(res@),
    {
        UUID(uuid_new_v4_bits())
    }

    /// Parses the textual form of a UUID.
    pub fn parse(s: &str) -> (res: Result<UUID, uuid::Error>)
        ensures
            res is Ok <==> uuid_text_value(s@) is Some,
            res matches Ok(id) ==> uuid_text_value(s@) == Some(id@),
    {
        match uuid_parse_str(s) {
            Ok(v) => Ok(UUID(v)),
            Err(e) => Err(e),
        }
    }

    /// The identifier with the given 128 bits.
    pub fn from_u128(v: u128) -> (res: UUID)
        ensures
            res@ == v,
    {
        UUID(v)
    }

    /// The identifier's 128 bits.
    pub fn as_u128(&self) -> (res: u128)
        ensures
            res == self@,
    {
        self.0
    }

    /// The hyphenated textual form; parsing it gives back this identifier.
    pub fn to_string(&self) -> (res: String)
        ensures
            res@ == uuid_text(self@),
            uuid_text_value(res@) == Some(self@),
    {
        uuid_to_string(self.0)
    }
}

} // verus!
