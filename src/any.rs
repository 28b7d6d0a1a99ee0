//! Messages of any registered type packed with their type URL, and the
//! registry that turns a type URL back into a message.

use crate::text::{parse_duration, parse_timestamp};
use crate::time::{Duration, Timestamp};
use crate::wire::{
    decode_duration,
    decode_empty,
    decode_error_text,
    decode_timestamp,
    encode_duration,
    encode_timestamp,
    seconds_nanos_wire,
};
use vstd::prelude::*;

verus! {

/// The type URL of `google.protobuf.Timestamp`.
pub const TIMESTAMP_TYPE_URL: &'static str = "type.googleapis.com/google.protobuf.Timestamp";

/// The type URL of `google.protobuf.Duration`.
pub const DURATION_TYPE_URL: &'static str = "type.googleapis.com/google.protobuf.Duration";

/// The type URL of `google.protobuf.Empty`.
pub const EMPTY_TYPE_URL: &'static str = "type.googleapis.com/google.protobuf.Empty";

/// A message without fields.
#[derive(Clone, Copy, Debug, Default, PartialEq, Eq, Hash, Structural)]
pub struct Empty {}

impl From<()> for Empty {
    fn from(_unit: ()) -> (r: Empty) {
        Empty {  }
    }
}

impl vstd::std_specs::convert::FromSpecImpl<()> for Empty {
    open spec fn obeys_from_spec() -> bool {
        true
    }

    open spec fn from_spec(v: ()) -> Empty {
        Empty {  }
    }
}

/// What kind of failure an [`AnyError`] reports.
#[derive(Clone, Copy, Debug, PartialEq, Eq, Structural)]
pub enum AnyErrorKind {
    /// A message could not be encoded.
    Encode,
    /// The payload is not a valid encoding of its registered type.
    Decode,
    /// The envelope holds another type than the one asked for.
    TypeMismatch,
    /// No type is registered under the envelope's type URL.
    Unregistered,
    /// Any other failure, described in words.
    Custom,
}

/// Why a message could not be packed into or unpacked from an [`Any`].
#[derive(Clone, Debug, PartialEq, Eq)]
pub struct AnyError {
    pub kind: AnyErrorKind,
    pub description: String,
}

impl AnyError {
    /// An error with the given description.
    pub fn new(description: String) -> (r: AnyError)
        ensures
            r.kind == AnyErrorKind::Custom,
            r.description@ == description@,
    {
        AnyError { kind: AnyErrorKind::Custom, description }
    }

    /// The description of this error, after the words that every message of
    /// such an error starts with.
    pub fn to_string(&self) -> (r: String)
        ensures
            r@ == "failed to convert Value: "@ + self.description@,
    {
        let mut s = String::from_str("failed to convert Value: ");
        s.append(self.description.as_str());
        s
    }
}

/// The fully qualified type name of a type URL: what follows its last `/`,
/// where there is a `/` and the name does not start with `.`.
pub open spec fn type_url_full_name(s: Seq<char>) -> Option<Seq<char>> {
    let k = last_slash(s, s.len() as int);
    if k < 0 {
        None
    } else {
        let name = s.subrange(k + 1, s.len() as int);
        if name.len() > 0 && name[0] == '.' {
            None
        } else {
            Some(name)
        }
    }
}

/// The position of the last `/` before position `i`, or -1.
pub open spec fn last_slash(s: Seq<char>, i: int) -> int
    decreases i,
{
    if i <= 0 {
        -1
    } else if s[i - 1] == '/' {
        i - 1
    } else {
        last_slash(s, i - 1)
    }
}

/// A type URL, such as `type.googleapis.com/google.protobuf.Duration`, taken
/// apart: only the fully qualified name decides which type it names.
#[derive(Debug)]
pub struct TypeUrl {
    /// The fully qualified name of the type, such as
    /// `google.protobuf.Duration`.
    pub full_name: String,
}

impl TypeUrl {
    /// Takes a type URL apart; `None` where it has no `/` or its name starts
    /// with `.`.
    pub fn new(s: &str) -> (r: Option<TypeUrl>)
        ensures
            r matches Some(t) ==> type_url_full_name(s@) == Some(t.full_name@),
            r is None ==> type_url_full_name(s@) is None,
    {
        let n = s.unicode_len();
        let mut i = n;
        while i > 0 && s.get_char(i - 1) != '/'
            invariant
                i <= n == s@.len(),
                last_slash(s@, i as int) == last_slash(s@, n as int),
            decreases i,
        {
            i = i - 1;
        }
        if i == 0 {
            return None;
        }
        let name = s.substring_char(i, n);
        if n > i && name.get_char(0) == '.' {
            return None;
        }
        Some(TypeUrl { full_name: String::from_str(name) })
    }
}

/// A message type that can travel in an [`Any`] and be recovered from a
/// [`DynamicMessage`].
pub trait MessageSerde: Sized {
    /// The type URL of the message type.
    spec fn spec_type_url() -> Seq<char>;

    /// The protobuf wire form of a message.
    spec fn spec_wire(self) -> Seq<u8>;

    /// A message as a value of unknown type.
    spec fn spec_to_dynamic(self) -> DynamicMessage;

    /// The type URL of the message type, such as
    /// `type.googleapis.com/my.package.MyMessage`.
    fn type_url() -> (r: String)
        ensures
            r@ == Self::spec_type_url(),
    ;

    /// The protobuf wire form of the message.
    fn try_encoded(&self) -> (r: Result<Vec<u8>, AnyError>)
        ensures
            r matches Ok(b) && b@ == self.spec_wire(),
    ;

    /// Decodes a message from its wire form.
    fn decode(bytes: &[u8]) -> (r: Result<Self, AnyError>)
        ensures
            forall|m: Self| bytes@ == #[trigger] m.spec_wire() ==> r == Ok::<Self, AnyError>(m),
            r matches Err(e) ==> e.kind == AnyErrorKind::Decode,
    ;

    /// The message as a value of unknown type.
    fn into_dynamic(self) -> (r: DynamicMessage)
        ensures
            r == self.spec_to_dynamic(),
    ;

    /// A message as a value of unknown type keeps its wire form and its
    /// type URL, and tells messages apart.
    proof fn lemma_dynamic(self, other: Self)
        ensures
            self.spec_to_dynamic().spec_wire() == self.spec_wire(),
            kind_type_url(self.spec_to_dynamic().kind()) == Self::spec_type_url(),
            self.spec_to_dynamic() == other.spec_to_dynamic() ==> self == other,
    ;

    /// The kind of every message of this type.
    fn message_kind() -> (r: MessageKind)
        ensures
            forall|m: Self| #[trigger] m.spec_to_dynamic().kind() == r,
    ;

    /// A mutable reference to the message that a value of unknown type
    /// holds, where it is of this type; changes to it change that value.
    fn from_dynamic_mut(d: &mut DynamicMessage) -> (r: Option<&mut Self>)
        ensures
            r matches Some(m) ==> ((*m).spec_to_dynamic() == *old(d) && *final(d) == (
            *final(m)).spec_to_dynamic()),
            r is None ==> ((forall|m: Self| #[trigger] m.spec_to_dynamic() != *old(d)) && *final(d)
                == *old(d)),
    ;

    /// The message that a value of unknown type holds, where it is of this
    /// type.
    fn from_dynamic(d: &DynamicMessage) -> (r: Option<&Self>)
        ensures
            r matches Some(m) ==> m.spec_to_dynamic() == *d,
            r is None ==> forall|m: Self| #[trigger] m.spec_to_dynamic() != *d,
    ;
}

/// A message whose type is known only at run time.
#[derive(Clone, Copy, Debug, PartialEq, Eq, Structural)]
pub enum DynamicMessage {
    Timestamp(Timestamp),
    Duration(Duration),
    Empty(Empty),
}

/// The registered kinds of message.
#[derive(Clone, Copy, Debug, PartialEq, Eq, Structural)]
pub enum MessageKind {
    Timestamp,
    Duration,
    Empty,
}

impl DynamicMessage {
    /// The kind of the message.
    pub open spec fn kind(self) -> MessageKind {
        match self {
            DynamicMessage::Timestamp(_) => MessageKind::Timestamp,
            DynamicMessage::Duration(_) => MessageKind::Duration,
            DynamicMessage::Empty(_) => MessageKind::Empty,
        }
    }

    /// The protobuf wire form of the message.
    pub open spec fn spec_wire(self) -> Seq<u8> {
        match self {
            DynamicMessage::Timestamp(t) => seconds_nanos_wire(t.seconds, t.nanos),
            DynamicMessage::Duration(d) => seconds_nanos_wire(d.seconds, d.nanos),
            DynamicMessage::Empty(_) => Seq::empty(),
        }
    }

    /// The type URL of the message's type.
    pub fn type_url(&self) -> (r: String)
        ensures
            r@ == kind_type_url(self.kind()),
    {
        kind_url(self.kind_of())
    }

    /// The kind of the message.
    pub fn kind_of(&self) -> (r: MessageKind)
        ensures
            r == self.kind(),
    {
        match self {
            DynamicMessage::Timestamp(_) => MessageKind::Timestamp,
            DynamicMessage::Duration(_) => MessageKind::Duration,
            DynamicMessage::Empty(_) => MessageKind::Empty,
        }
    }

    /// The protobuf wire form of the message.
    pub fn try_encoded(&self) -> (r: Result<Vec<u8>, AnyError>)
        ensures
            r matches Ok(b) && b@ == self.spec_wire(),
    {
        match self {
            DynamicMessage::Timestamp(t) => t.try_encoded(),
            DynamicMessage::Duration(d) => d.try_encoded(),
            DynamicMessage::Empty(e) => e.try_encoded(),
        }
    }

    /// Whether the message is of type `T`.
    pub fn is<T: MessageSerde>(&self) -> (r: bool)
        ensures
            r <==> exists|m: T| #[trigger] m.spec_to_dynamic() == *self,
    {
        match T::from_dynamic(self) {
            Some(m) => true,
            None => false,
        }
    }

    /// A mutable reference to the message as a `T`, where it is of that
    /// type.
    pub fn downcast_mut<T: MessageSerde>(&mut self) -> (r: Option<&mut T>)
        ensures
            r matches Some(m) ==> ((*m).spec_to_dynamic() == *old(self) && *final(self) == (
            *final(m)).spec_to_dynamic()),
            r is None ==> ((forall|m: T| #[trigger] m.spec_to_dynamic() != *old(self))
                && *final(self) == *old(self)),
    {
        T::from_dynamic_mut(self)
    }

    /// The message as a `T`, where it is of that type.
    pub fn downcast_ref<T: MessageSerde>(&self) -> (r: Option<&T>)
        ensures
            r matches Some(m) ==> m.spec_to_dynamic() == *self,
            r is None ==> forall|m: T| #[trigger] m.spec_to_dynamic() != *self,
    {
        T::from_dynamic(self)
    }
}

/// The type URL under which a kind of message is known.
pub open spec fn kind_type_url(kind: MessageKind) -> Seq<char> {
    match kind {
        MessageKind::Timestamp => TIMESTAMP_TYPE_URL@,
        MessageKind::Duration => DURATION_TYPE_URL@,
        MessageKind::Empty => EMPTY_TYPE_URL@,
    }
}

/// The type URL under which a kind of message is known.
pub fn kind_url(kind: MessageKind) -> (r: String)
    ensures
        r@ == kind_type_url(kind),
{
    match kind {
        MessageKind::Timestamp => String::from_str(TIMESTAMP_TYPE_URL),
        MessageKind::Duration => String::from_str(DURATION_TYPE_URL),
        MessageKind::Empty => String::from_str(EMPTY_TYPE_URL),
    }
}

/// The error for a payload that `prost` could not decode.
fn decode_failure(error: &prost::DecodeError) -> (r: AnyError)
    ensures
        r.kind == AnyErrorKind::Decode,
{
    AnyError { kind: AnyErrorKind::Decode, description: decode_error_text(error) }
}

impl MessageSerde for Timestamp {
    open spec fn spec_type_url() -> Seq<char> {
        TIMESTAMP_TYPE_URL@
    }

    open spec fn spec_wire(self) -> Seq<u8> {
        seconds_nanos_wire(self.seconds, self.nanos)
    }

    open spec fn spec_to_dynamic(self) -> DynamicMessage {
        DynamicMessage::Timestamp(self)
    }

    fn type_url() -> (r: String) {
        String::from_str(TIMESTAMP_TYPE_URL)
    }

    fn try_encoded(&self) -> (r: Result<Vec<u8>, AnyError>) {
        Ok(encode_timestamp(self.seconds, self.nanos))
    }

    fn decode(bytes: &[u8]) -> (r: Result<Timestamp, AnyError>) {
        match decode_timestamp(bytes) {
            Ok((seconds, nanos)) => Ok(Timestamp { seconds, nanos }),
            Err(e) => Err(decode_failure(&e)),
        }
    }

    fn into_dynamic(self) -> (r: DynamicMessage) {
        DynamicMessage::Timestamp(self)
    }

    proof fn lemma_dynamic(self, other: Self) {
    }

    fn message_kind() -> (r: MessageKind) {
        MessageKind::Timestamp
    }

    fn from_dynamic_mut(d: &mut DynamicMessage) -> (r: Option<&mut Timestamp>) {
        match d {
            DynamicMessage::Timestamp(t) => Some(t),
            _ => None,
        }
    }

    fn from_dynamic(d: &DynamicMessage) -> (r: Option<&Timestamp>) {
        match d {
            DynamicMessage::Timestamp(t) => Some(t),
            _ => None,
        }
    }
}

impl MessageSerde for Duration {
    open spec fn spec_type_url() -> Seq<char> {
        DURATION_TYPE_URL@
    }

    open spec fn spec_wire(self) -> Seq<u8> {
        seconds_nanos_wire(self.seconds, self.nanos)
    }

    open spec fn spec_to_dynamic(self) -> DynamicMessage {
        DynamicMessage::Duration(self)
    }

    fn type_url() -> (r: String) {
        String::from_str(DURATION_TYPE_URL)
    }

    fn try_encoded(&self) -> (r: Result<Vec<u8>, AnyError>) {
        Ok(encode_duration(self.seconds, self.nanos))
    }

    fn decode(bytes: &[u8]) -> (r: Result<Duration, AnyError>) {
        match decode_duration(bytes) {
            Ok((seconds, nanos)) => Ok(Duration { seconds, nanos }),
            Err(e) => Err(decode_failure(&e)),
        }
    }

    fn into_dynamic(self) -> (r: DynamicMessage) {
        DynamicMessage::Duration(self)
    }

    proof fn lemma_dynamic(self, other: Self) {
    }

    fn message_kind() -> (r: MessageKind) {
        MessageKind::Duration
    }

    fn from_dynamic_mut(d: &mut DynamicMessage) -> (r: Option<&mut Duration>) {
        match d {
            DynamicMessage::Duration(t) => Some(t),
            _ => None,
        }
    }

    fn from_dynamic(d: &DynamicMessage) -> (r: Option<&Duration>) {
        match d {
            DynamicMessage::Duration(t) => Some(t),
            _ => None,
        }
    }
}

impl MessageSerde for Empty {
    open spec fn spec_type_url() -> Seq<char> {
        EMPTY_TYPE_URL@
    }

    open spec fn spec_wire(self) -> Seq<u8> {
        Seq::empty()
    }

    open spec fn spec_to_dynamic(self) -> DynamicMessage {
        DynamicMessage::Empty(self)
    }

    fn type_url() -> (r: String) {
        String::from_str(EMPTY_TYPE_URL)
    }

    fn try_encoded(&self) -> (r: Result<Vec<u8>, AnyError>) {
        // A message without fields has an empty wire form.
        Ok(Vec::new())
    }

    fn decode(bytes: &[u8]) -> (r: Result<Empty, AnyError>) {
        match decode_empty(bytes) {
            Ok(()) => Ok(Empty {  }),
            Err(e) => Err(decode_failure(&e)),
        }
    }

    fn into_dynamic(self) -> (r: DynamicMessage) {
        DynamicMessage::Empty(self)
    }

    proof fn lemma_dynamic(self, other: Self) {
    }

    fn message_kind() -> (r: MessageKind) {
        MessageKind::Empty
    }

    fn from_dynamic_mut(d: &mut DynamicMessage) -> (r: Option<&mut Empty>) {
        match d {
            DynamicMessage::Empty(t) => Some(t),
            _ => None,
        }
    }

    fn from_dynamic(d: &DynamicMessage) -> (r: Option<&Empty>) {
        match d {
            DynamicMessage::Empty(t) => Some(t),
            _ => None,
        }
    }
}

/// A type URL registered with the kind of message it names, which decides
/// how its payload is decoded.
#[derive(Debug)]
pub struct MessageSerdeDecoderEntry {
    pub type_url: String,
    pub kind: MessageKind,
}

impl MessageSerdeDecoderEntry {
    /// The entry of the message type `M`: its type URL and its kind.
    pub fn new<M: MessageSerde>() -> (r: MessageSerdeDecoderEntry)
        ensures
            r.type_url@ == M::spec_type_url(),
            forall|m: M| #[trigger] m.spec_to_dynamic().kind() == r.kind,
    {
        MessageSerdeDecoderEntry { type_url: M::type_url(), kind: M::message_kind() }
    }
}

/// The kind registered last under `url`, where there is one.
pub open spec fn registry_lookup(entries: Seq<(Seq<char>, MessageKind)>, url: Seq<char>) -> Option<
    MessageKind,
>
    decreases entries.len(),
{
    if entries.len() == 0 {
        None
    } else if entries.last().0 == url {
        Some(entries.last().1)
    } else {
        registry_lookup(entries.drop_last(), url)
    }
}

/// The table from type URLs to the kinds of message they name. It is filled
/// once, before the first envelope is unpacked, and only read afterwards.
#[derive(Debug)]
pub struct TypeRegistry {
    entries: Vec<MessageSerdeDecoderEntry>,
}

impl View for TypeRegistry {
    type V = Seq<(Seq<char>, MessageKind)>;

    closed spec fn view(&self) -> Seq<(Seq<char>, MessageKind)> {
        Seq::new(
            self.entries@.len(),
            |i: int| (self.entries@[i].type_url@, self.entries@[i].kind),
        )
    }
}

impl TypeRegistry {
    /// A registry without entries.
    pub fn new() -> (r: TypeRegistry)
        ensures
            r@ == Seq::<(Seq<char>, MessageKind)>::empty(),
    {
        let r = TypeRegistry { entries: Vec::new() };
        assert(r@ =~= Seq::<(Seq<char>, MessageKind)>::empty());
        r
    }

    /// Registers `kind` under `type_url`; a later registration of the same
    /// URL takes the place of an earlier one.
    pub fn register(&mut self, type_url: String, kind: MessageKind)
        ensures
            final(self)@ == old(self)@.push((type_url@, kind)),
    {
        let ghost url = type_url@;
        self.entries.push(MessageSerdeDecoderEntry { type_url, kind });
        assert(final(self)@ =~= old(self)@.push((url, kind)));
    }

    /// Registers an entry; a later registration of the same URL takes the
    /// place of an earlier one.
    pub fn submit(&mut self, entry: MessageSerdeDecoderEntry)
        ensures
            final(self)@ == old(self)@.push((entry.type_url@, entry.kind)),
    {
        let ghost url = entry.type_url@;
        let ghost kind = entry.kind;
        self.entries.push(entry);
        assert(final(self)@ =~= old(self)@.push((url, kind)));
    }

    /// A registry of the well known types `Timestamp`, `Duration` and
    /// `Empty` under their type URLs.
    pub fn with_well_known_types() -> (r: TypeRegistry)
        ensures
            r@ == seq![
                (TIMESTAMP_TYPE_URL@, MessageKind::Timestamp),
                (DURATION_TYPE_URL@, MessageKind::Duration),
                (EMPTY_TYPE_URL@, MessageKind::Empty),
            ],
    {
        let mut r = TypeRegistry::new();
        r.register(kind_url(MessageKind::Timestamp), MessageKind::Timestamp);
        r.register(kind_url(MessageKind::Duration), MessageKind::Duration);
        r.register(kind_url(MessageKind::Empty), MessageKind::Empty);
        assert(r@ =~= seq![
            (TIMESTAMP_TYPE_URL@, MessageKind::Timestamp),
            (DURATION_TYPE_URL@, MessageKind::Duration),
            (EMPTY_TYPE_URL@, MessageKind::Empty),
        ]);
        r
    }

    /// The kind registered last under `type_url`, compared as a whole string.
    pub fn lookup(&self, type_url: &String) -> (r: Option<MessageKind>)
        ensures
            r == registry_lookup(self@, type_url@),
    {
        let mut i = self.entries.len();
        assert(self@.subrange(0, i as int) =~= self@);
        while i > 0
            invariant
                i <= self.entries@.len(),
                registry_lookup(self@, type_url@) == registry_lookup(
                    self@.subrange(0, i as int),
                    type_url@,
                ),
            decreases i,
        {
            let ghost prefix = self@.subrange(0, i as int);
            assert(prefix.drop_last() =~= self@.subrange(0, i - 1));
            if self.entries[i - 1].type_url == *type_url {
                return Some(self.entries[i - 1].kind);
            }
            i = i - 1;
        }
        assert(self@.subrange(0, 0) =~= Seq::<(Seq<char>, MessageKind)>::empty());
        None
    }
}

/// Decodes a message of the given kind from its wire form.
pub fn decode_message(kind: MessageKind, bytes: &[u8]) -> (r: Result<DynamicMessage, AnyError>)
    ensures
        forall|m: DynamicMessage|
            m.kind() == kind && bytes@ == #[trigger] m.spec_wire() ==> r == Ok::<
                DynamicMessage,
                AnyError,
            >(m),
        r matches Ok(m) ==> m.kind() == kind,
        r matches Err(e) ==> e.kind == AnyErrorKind::Decode,
{
    let r = match kind {
        MessageKind::Timestamp => match Timestamp::decode(bytes) {
            Ok(t) => Ok(DynamicMessage::Timestamp(t)),
            Err(e) => Err(e),
        },
        MessageKind::Duration => match Duration::decode(bytes) {
            Ok(d) => Ok(DynamicMessage::Duration(d)),
            Err(e) => Err(e),
        },
        MessageKind::Empty => match Empty::decode(bytes) {
            Ok(e) => Ok(DynamicMessage::Empty(e)),
            Err(e) => Err(e),
        },
    };
    proof {
        assert forall|m: DynamicMessage|
            m.kind() == kind && bytes@ == #[trigger] m.spec_wire() implies r == Ok::<
                DynamicMessage,
                AnyError,
            >(m) by {
            match m {
                DynamicMessage::Timestamp(t) => {
                    assert(bytes@ == t.spec_wire());
                },
                DynamicMessage::Duration(d) => {
                    assert(bytes@ == d.spec_wire());
                },
                DynamicMessage::Empty(e) => {
                    assert(bytes@ == e.spec_wire());
                },
            }
        }
    }
    r
}

/// What unpacking an envelope through a registry may give: an unregistered
/// type is an error of its own; a registered one decodes the payload, which
/// gives back the message whose wire form it is.
pub open spec fn unpack_outcome(
    entries: Seq<(Seq<char>, MessageKind)>,
    type_url: Seq<char>,
    value: Seq<u8>,
    r: Result<DynamicMessage, AnyError>,
) -> bool {
    match registry_lookup(entries, type_url) {
        None => r matches Err(e) && e.kind == AnyErrorKind::Unregistered,
        Some(kind) => {
            &&& forall|m: DynamicMessage|
                m.kind() == kind && value == #[trigger] m.spec_wire() ==> r == Ok::<
                    DynamicMessage,
                    AnyError,
                >(m)
            &&& r matches Ok(m) ==> m.kind() == kind
            &&& r matches Err(e) ==> e.kind == AnyErrorKind::Decode
        },
    }
}

/// The description of a type mismatch: the expected and the actual type URL.
pub open spec fn mismatch_text(expected: Seq<char>, actual: Seq<char>) -> Seq<char> {
    "expected type URL: \""@ + expected + "\" (got: \""@ + actual + "\")"@
}

/// Whether two type URLs name the same type: both are well formed and their
/// fully qualified names agree.
pub open spec fn same_type(a: Seq<char>, b: Seq<char>) -> bool {
    type_url_full_name(a) is Some && type_url_full_name(a) == type_url_full_name(b)
}

/// What the value field of an envelope's structured form may hold: the
/// message where the envelope unpacks, else the raw payload.
pub open spec fn value_field_outcome(
    entries: Seq<(Seq<char>, MessageKind)>,
    type_url: Seq<char>,
    value: Seq<u8>,
    r: AnyValue,
) -> bool {
    exists|u: Result<DynamicMessage, AnyError>|
        {
            &&& #[trigger] unpack_outcome(entries, type_url, value, u)
            &&& u matches Ok(m) ==> r == AnyValue::Message(m)
            &&& u is Err ==> (r matches AnyValue::Bytes(b) && b@ == value)
        }
}

/// What the value field of an envelope's structured form holds.
#[derive(Debug)]
pub enum AnyValue {
    /// The message, where its type is registered and the payload decodes.
    Message(DynamicMessage),
    /// The raw payload otherwise.
    Bytes(Vec<u8>),
}

/// A message of any type: its type URL and its protobuf wire form.
#[derive(Clone, Debug, PartialEq, Eq)]
pub struct Any {
    pub type_url: String,
    pub value: Vec<u8>,
}

impl Any {
    /// Packs a message with its type URL, such as
    /// `type.googleapis.com/package_name.struct_name`, and its encoded form.
    pub fn try_pack<T: MessageSerde>(message: T) -> (r: Result<Any, AnyError>)
        ensures
            r matches Ok(a) && a.type_url@ == T::spec_type_url() && a.value@ == message.spec_wire(),
    {
        Any::from_msg(&message)
    }

    /// Packs a message with its type URL and its encoded form; encoding these
    /// messages does not fail.
    pub fn pack<T: MessageSerde>(message: T) -> (r: Any)
        ensures
            r.type_url@ == T::spec_type_url(),
            r.value@ == message.spec_wire(),
    {
        let type_url = T::type_url();
        let value = match message.try_encoded() {
            Ok(v) => v,
            Err(_) => Vec::new(),
        };
        Any { type_url, value }
    }

    /// Packs a message with its type URL and its encoded form.
    pub fn from_msg<M: MessageSerde>(msg: &M) -> (r: Result<Any, AnyError>)
        ensures
            r matches Ok(a) && a.type_url@ == M::spec_type_url() && a.value@ == msg.spec_wire(),
    {
        let type_url = M::type_url();
        let value = msg.try_encoded()?;
        Ok(Any { type_url, value })
    }

    /// Packs a message whose type is known only at run time.
    pub fn from_dynamic(message: &DynamicMessage) -> (r: Result<Any, AnyError>)
        ensures
            r matches Ok(a) && a.type_url@ == kind_type_url(message.kind()) && a.value@
                == message.spec_wire(),
    {
        let type_url = message.type_url();
        let value = message.try_encoded()?;
        Ok(Any { type_url, value })
    }

    /// Decodes the payload as a `T`, trusting the caller that it is one: the
    /// type URL is not looked at, and `target` only names the type.
    pub fn unpack_as<T: MessageSerde>(self, target: T) -> (r: Result<T, AnyError>)
        ensures
            forall|m: T| self.value@ == #[trigger] m.spec_wire() ==> r == Ok::<T, AnyError>(m),
            r matches Err(e) ==> e.kind == AnyErrorKind::Decode,
    {
        T::decode(self.value.as_slice())
    }

    /// Decodes the payload as an `M`, where the type URL names `M`; a type
    /// mismatch is an error that names both type URLs.
    pub fn to_msg<M: MessageSerde>(&self) -> (r: Result<M, AnyError>)
        ensures
            !same_type(M::spec_type_url(), self.type_url@) ==> (r matches Err(e) && e.kind
                == AnyErrorKind::TypeMismatch && e.description@ == mismatch_text(
                M::spec_type_url(),
                self.type_url@,
            )),
            same_type(M::spec_type_url(), self.type_url@) ==> forall|m: M|
                self.value@ == #[trigger] m.spec_wire() ==> r == Ok::<M, AnyError>(m),
            same_type(M::spec_type_url(), self.type_url@) ==> (r matches Err(e) ==> e.kind
                == AnyErrorKind::Decode),
    {
        let expected_type_url = M::type_url();
        let expected = TypeUrl::new(expected_type_url.as_str());
        let actual = TypeUrl::new(self.type_url.as_str());
        if let (Some(expected), Some(actual)) = (expected, actual) {
            if expected.full_name == actual.full_name {
                return M::decode(self.value.as_slice());
            }
        }
        proof {
            reveal_strlit("expected type URL: \"");
            reveal_strlit("\" (got: \"");
            reveal_strlit("\")");
        }
        let mut description = String::from_str("expected type URL: \"");
        description.append(expected_type_url.as_str());
        description.append("\" (got: \"");
        description.append(self.type_url.as_str());
        description.append("\")");
        Err(AnyError { kind: AnyErrorKind::TypeMismatch, description })
    }

    /// Unpacks the payload through the registry into a message whose type is
    /// known only at run time.
    pub fn unpack(&self, registry: &TypeRegistry) -> (r: Result<DynamicMessage, AnyError>)
        ensures
            unpack_outcome(registry@, self.type_url@, self.value@, r),
    {
        match registry.lookup(&self.type_url) {
            None => {
                let mut description = String::from_str("type URL is not registered: ");
                description.append(self.type_url.as_str());
                Err(AnyError { kind: AnyErrorKind::Unregistered, description })
            },
            Some(kind) => match decode_message(kind, self.value.as_slice()) {
                Ok(m) => Ok(m),
                Err(e) => {
                    let mut description = String::from_str("failed to decode ");
                    description.append(self.type_url.as_str());
                    description.append(": ");
                    description.append(e.description.as_str());
                    Err(AnyError { kind: AnyErrorKind::Decode, description })
                },
            },
        }
    }

    /// Unpacks the envelope through the registry into a message whose type is
    /// known only at run time.
    pub fn try_unpack(self, registry: &TypeRegistry) -> (r: Result<DynamicMessage, AnyError>)
        ensures
            unpack_outcome(registry@, self.type_url@, self.value@, r),
    {
        self.unpack(registry)
    }

    /// What the value field of the envelope's structured form holds: the
    /// message where it unpacks, else the raw payload.
    pub fn value_field(&self, registry: &TypeRegistry) -> (r: AnyValue)
        ensures
            value_field_outcome(registry@, self.type_url@, self.value@, r),
    {
        let u = self.unpack(registry);
        match u {
            Ok(m) => AnyValue::Message(m),
            Err(_) => AnyValue::Bytes(self.value.clone()),
        }
    }
}

/// What is wrong with the fields of an envelope's structured form.
#[derive(Clone, Copy, Debug, PartialEq, Eq, Structural)]
pub enum FieldProblem {
    /// A field appears twice.
    Duplicate,
    /// A field other than `@type` and `value`.
    Unknown,
    /// A required field is absent.
    Missing,
}

/// Why the fields of an envelope's structured form were refused, and which
/// field it concerns.
#[derive(Clone, Debug, PartialEq, Eq)]
pub struct AnyFieldError {
    pub problem: FieldProblem,
    pub field: String,
}

/// Reads the field names `keys[0..n]` in order: where the `@type` and
/// `value` fields stand so far, or the first refusal.
pub open spec fn scan_fields(keys: Seq<Seq<char>>, n: int) -> Result<
    (Option<int>, Option<int>),
    (FieldProblem, Seq<char>),
>
    decreases n,
{
    if n <= 0 {
        Ok((None, None))
    } else {
        match scan_fields(keys, n - 1) {
            Err(e) => Err(e),
            Ok((t, v)) => {
                let k = keys[n - 1];
                if k == "@type"@ {
                    if t is Some {
                        Err((FieldProblem::Duplicate, k))
                    } else {
                        Ok((Some(n - 1), v))
                    }
                } else if k == "value"@ {
                    if v is Some {
                        Err((FieldProblem::Duplicate, k))
                    } else {
                        Ok((t, Some(n - 1)))
                    }
                } else {
                    Err((FieldProblem::Unknown, k))
                }
            },
        }
    }
}

proof fn lemma_scan_error_stays(keys: Seq<Seq<char>>, i: int, n: int)
    requires
        i <= n,
        scan_fields(keys, i) is Err,
    ensures
        scan_fields(keys, n) == scan_fields(keys, i),
    decreases n - i,
{
    if i < n {
        lemma_scan_error_stays(keys, i, n - 1);
    }
}

/// The positions of the `@type` and `value` fields among the field names
/// of an envelope's structured form: each exactly once, and no other field.
pub open spec fn any_fields(keys: Seq<Seq<char>>) -> Result<(int, int), (FieldProblem, Seq<char>)> {
    match scan_fields(keys, keys.len() as int) {
        Err(e) => Err(e),
        Ok((None, _)) => Err((FieldProblem::Missing, "@type"@)),
        Ok((_, None)) => Err((FieldProblem::Missing, "value"@)),
        Ok((Some(t), Some(v))) => Ok((t, v)),
    }
}

/// Finds the `@type` and `value` fields among the field names of an
/// envelope's structured form, refusing a duplicate or unknown field (the
/// first one, in order) and then a missing one.
pub fn check_any_fields(keys: &Vec<String>) -> (r: Result<(usize, usize), AnyFieldError>)
    ensures
        r matches Ok((t, v)) ==> any_fields(keys@.map_values(|k: String| k@)) == Ok::<
            (int, int),
            (FieldProblem, Seq<char>),
        >((t as int, v as int)),
        r matches Err(e) ==> any_fields(keys@.map_values(|k: String| k@)) == Err::<
            (int, int),
            (FieldProblem, Seq<char>),
        >((e.problem, e.field@)),
{
    let ghost ks = keys@.map_values(|k: String| k@);
    let type_key = String::from_str("@type");
    let value_key = String::from_str("value");
    let mut type_index: Option<usize> = None;
    let mut value_index: Option<usize> = None;
    let mut i: usize = 0;
    while i < keys.len()
        invariant
            i <= keys@.len(),
            ks == keys@.map_values(|k: String| k@),
            type_key@ == "@type"@,
            value_key@ == "value"@,
            scan_fields(ks, i as int) == Ok::<
                (Option<int>, Option<int>),
                (FieldProblem, Seq<char>),
            >((
                match type_index {
                    Some(t) => Some(t as int),
                    None => None,
                },
                match value_index {
                    Some(v) => Some(v as int),
                    None => None,
                },
            )),
        decreases keys@.len() - i,
    {
        let key = &keys[i];
        if *key == type_key {
            if type_index.is_some() {
                proof {
                    lemma_scan_error_stays(ks, i + 1, ks.len() as int);
                }
                return Err(AnyFieldError { problem: FieldProblem::Duplicate, field: key.clone() });
            }
            type_index = Some(i);
        } else if *key == value_key {
            if value_index.is_some() {
                proof {
                    lemma_scan_error_stays(ks, i + 1, ks.len() as int);
                }
                return Err(AnyFieldError { problem: FieldProblem::Duplicate, field: key.clone() });
            }
            value_index = Some(i);
        } else {
            proof {
                lemma_scan_error_stays(ks, i + 1, ks.len() as int);
            }
            return Err(AnyFieldError { problem: FieldProblem::Unknown, field: key.clone() });
        }
        i = i + 1;
    }
    match (type_index, value_index) {
        (None, _) => Err(AnyFieldError { problem: FieldProblem::Missing, field: type_key }),
        (_, None) => Err(AnyFieldError { problem: FieldProblem::Missing, field: value_key }),
        (Some(t), Some(v)) => Ok((t, v)),
    }
}

/// The type URLs of the well known types are distinct.
proof fn lemma_well_known_urls_distinct()
    ensures
        TIMESTAMP_TYPE_URL@ != DURATION_TYPE_URL@,
        TIMESTAMP_TYPE_URL@ != EMPTY_TYPE_URL@,
        DURATION_TYPE_URL@ != EMPTY_TYPE_URL@,
{
    reveal_strlit("type.googleapis.com/google.protobuf.Timestamp");
    reveal_strlit("type.googleapis.com/google.protobuf.Duration");
    reveal_strlit("type.googleapis.com/google.protobuf.Empty");
    assert(TIMESTAMP_TYPE_URL@.len() == 45);
    assert(DURATION_TYPE_URL@.len() == 44);
    assert(EMPTY_TYPE_URL@.len() == 41);
}

/// In the registry of the well known types, each of their type URLs names
/// its own kind.
pub proof fn lemma_well_known_lookup(kind: MessageKind)
    ensures
        registry_lookup(
            seq![
                (TIMESTAMP_TYPE_URL@, MessageKind::Timestamp),
                (DURATION_TYPE_URL@, MessageKind::Duration),
                (EMPTY_TYPE_URL@, MessageKind::Empty),
            ],
            kind_type_url(kind),
        ) == Some(kind),
{
    lemma_well_known_urls_distinct();
    reveal_with_fuel(registry_lookup, 4);
    let e = seq![
        (TIMESTAMP_TYPE_URL@, MessageKind::Timestamp),
        (DURATION_TYPE_URL@, MessageKind::Duration),
        (EMPTY_TYPE_URL@, MessageKind::Empty),
    ];
    assert(e.drop_last() =~= seq![
        (TIMESTAMP_TYPE_URL@, MessageKind::Timestamp),
        (DURATION_TYPE_URL@, MessageKind::Duration),
    ]);
    assert(e.drop_last().drop_last() =~= seq![(TIMESTAMP_TYPE_URL@, MessageKind::Timestamp)]);
    assert(e.drop_last().drop_last().drop_last() =~= Seq::<(Seq<char>, MessageKind)>::empty());
}

/// Packing a message of a registered type and unpacking the envelope through
/// the registry gives the message back, and it casts back to its own type.
pub proof fn lemma_pack_unpack_round_trip<T: MessageSerde>(
    v: T,
    entries: Seq<(Seq<char>, MessageKind)>,
)
    requires
        registry_lookup(entries, T::spec_type_url()) == Some(v.spec_to_dynamic().kind()),
    ensures
        forall|u: Result<DynamicMessage, AnyError>|
            #[trigger] unpack_outcome(entries, T::spec_type_url(), v.spec_wire(), u) ==> u
                == Ok::<DynamicMessage, AnyError>(v.spec_to_dynamic()),
        forall|m: T| #[trigger] m.spec_to_dynamic() == v.spec_to_dynamic() ==> m == v,
{
    v.lemma_dynamic(v);
    assert forall|m: T| #[trigger] m.spec_to_dynamic() == v.spec_to_dynamic() implies m == v by {
        v.lemma_dynamic(m);
    }
}

/// An envelope of a `Timestamp` never decodes as a `Duration`: the type URLs
/// name different types.
pub proof fn lemma_timestamp_is_not_duration(t: Timestamp)
    ensures
        !same_type(Duration::spec_type_url(), Timestamp::spec_type_url()),
{
    reveal_strlit("type.googleapis.com/google.protobuf.Timestamp");
    reveal_strlit("type.googleapis.com/google.protobuf.Duration");
    reveal_with_fuel(last_slash, 30);
    let d = DURATION_TYPE_URL@;
    let ts = TIMESTAMP_TYPE_URL@;
    assert(last_slash(d, d.len() as int) == 19);
    assert(last_slash(ts, ts.len() as int) == 19);
    assert(d.subrange(20, d.len() as int).len() != ts.subrange(20, ts.len() as int).len());
}

/// An envelope whose type URL is not registered does not unpack: the error
/// says so, and the structured form falls back to the raw payload.
pub proof fn lemma_unregistered(
    entries: Seq<(Seq<char>, MessageKind)>,
    type_url: Seq<char>,
    value: Seq<u8>,
)
    requires
        registry_lookup(entries, type_url) is None,
    ensures
        forall|u: Result<DynamicMessage, AnyError>|
            #[trigger] unpack_outcome(entries, type_url, value, u) ==> (u matches Err(e) && e.kind
                == AnyErrorKind::Unregistered),
        forall|r: AnyValue|
            #[trigger] value_field_outcome(entries, type_url, value, r) ==> (r matches AnyValue::Bytes(
                b,
            ) && b@ == value),
{
}

} // verus!
