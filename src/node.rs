use vstd::prelude::*;

verus! {

/// The host part of a network endpoint.
#[derive(Clone, Copy, Debug, PartialEq, Eq, Hash, Structural)]
pub enum Host {
    /// An IPv4 address, its four octets in network order.
    V4(u32),
    /// An IPv6 address, its sixteen octets in network order.
    V6(u128),
}

/// A reachable network endpoint: a host and a port.
#[derive(Clone, Copy, Debug, PartialEq, Eq, Hash, Structural)]
pub struct Endpoint {
    pub host: Host,
    pub port: u16,
}

/// The logical identity of a cluster participant.
///
/// `prefix` partitions identities into clusters that do not talk to each
/// other, `id` is the unique key of the node, and `renew` yields a fresh
/// incarnation of the same logical node, or `None` where none can be made.
pub trait ID: Sized + Clone {
    spec fn prefix_view(&self) -> Seq<char>;

    spec fn key_view(&self) -> Seq<char>;

    spec fn renewal(&self) -> Option<Self>;

    /// A clone has the same unique key as the value it was cloned from.
    proof fn lemma_clone_keeps_key(a: Self, b: Self)
        requires
            vstd::pervasive::cloned(a, b),
        ensures
            a.key_view() == b.key_view(),
    ;

    fn prefix(&self) -> (r: &str)
        ensures
            r@ == self.prefix_view(),
    ;

    fn id(&self) -> (r: &str)
        ensures
            r@ == self.key_view(),
    ;

    fn renew(&self) -> (r: Option<Self>)
        ensures
            r == self.renewal(),
    ;
}

/// Whether two strings hold the same characters.
pub fn str_eq(a: &str, b: &str) -> (r: bool)
    ensures
        r == (a@ == b@),
{
    let x = a.to_owned();
    let y = b.to_owned();
    x == y
}

/// A cluster participant: a logical identity and the endpoint it is reached at.
///
/// Two identities are the same node when their unique keys agree, whatever
/// their endpoints.
#[derive(Debug)]
pub struct NodeIdentity<Id: ID> {
    pub id: Id,
    pub addr: Endpoint,
}

impl<Id: ID> NodeIdentity<Id> {
    /// The unique key of the node.
    pub open spec fn key(&self) -> Seq<char> {
        self.id.key_view()
    }

    pub fn new(id: Id, addr: Endpoint) -> (r: Self)
        ensures
            r.id == id,
            r.addr == addr,
    {
        NodeIdentity { id, addr }
    }

    pub fn id(&self) -> (r: &Id)
        ensures
            *r == self.id,
    {
        &self.id
    }

    pub fn addr(&self) -> (r: Endpoint)
        ensures
            r == self.addr,
    {
        self.addr
    }

    /// The unique key of the node, as an owned string.
    pub fn key_string(&self) -> (r: String)
        ensures
            r@ == self.key(),
    {
        self.id.id().to_owned()
    }

    /// Whether both identities name the same node, by unique key alone.
    pub fn same_node(&self, other: &Self) -> (r: bool)
        ensures
            r == (self.key() == other.key()),
    {
        str_eq(self.id.id(), other.id.id())
    }

    /// Whether both identities belong to the same cluster.
    pub fn has_same_prefix(&self, other: &Self) -> (r: bool)
        ensures
            r == (self.id.prefix_view() == other.id.prefix_view()),
    {
        str_eq(other.id.prefix(), self.id.prefix())
    }

    /// A fresh incarnation of this node at the same endpoint, where the
    /// logical identity can be renewed.
    pub fn renew(&self) -> (r: Option<Self>)
        ensures
            r == match self.id.renewal() {
                Some(id) => Some(NodeIdentity { id, addr: self.addr }),
                None => None,
            },
    {
        match self.id.renew() {
            Some(id) => Some(NodeIdentity::new(id, self.addr)),
            None => None,
        }
    }
}

impl<Id: ID> Clone for NodeIdentity<Id> {
    fn clone(&self) -> (r: Self)
        ensures
            vstd::pervasive::cloned(self.id, r.id),
            r.addr == self.addr,
            r.key() == self.key(),
    {
        let id = self.id.clone();
        proof {
            Id::lemma_clone_keeps_key(self.id, id);
        }
        NodeIdentity { id, addr: self.addr }
    }
}

impl<Id: ID> PartialEq for NodeIdentity<Id> {
    /// Two identities are equal when their unique keys are.
    fn eq(&self, other: &Self) -> (r: bool) {
        self.same_node(other)
    }
}

impl<Id: ID> vstd::std_specs::cmp::PartialEqSpecImpl for NodeIdentity<Id> {
    open spec fn obeys_eq_spec() -> bool {
        true
    }

    open spec fn eq_spec(&self, other: &Self) -> bool {
        self.key() == other.key()
    }
}

impl<Id: ID> Eq for NodeIdentity<Id> {
}

/// The cluster prefix of identities made by `NodeUUID::default`.
pub const DEFAULT_PREFIX: &'static str = "my-cluster";

/// The lowercase hexadecimal digit for `n`, where `0 <= n < 16`.
pub open spec fn hex_digit(n: int) -> char {
    seq!['0', '1', '2', '3', '4', '5', '6', '7', '8', '9', 'a', 'b', 'c', 'd', 'e', 'f'][n]
}

/// Hex digit `j` of a 128-bit value, counted from the most significant one.
pub open spec fn uuid_nibble(u: u128, j: int) -> int {
    (u as int / vstd::arithmetic::power::pow(16, (31 - j) as nat)) % 16
}

/// How many hyphens precede position `p` of the hyphenated form.
pub open spec fn hyphens_before(p: int) -> int {
    if p < 8 {
        0
    } else if p < 13 {
        1
    } else if p < 18 {
        2
    } else if p < 23 {
        3
    } else {
        4
    }
}

/// The hyphenated form of a UUID: its 32 lowercase hex digits, most
/// significant first, in groups of 8, 4, 4, 4 and 12 parted by hyphens.
pub open spec fn uuid_text_of(u: u128) -> Seq<char> {
    Seq::new(
        36,
        |p: int|
            if p == 8 || p == 13 || p == 18 || p == 23 {
                '-'
            } else {
                hex_digit(uuid_nibble(u, p - hyphens_before(p)))
            },
    )
}

/// Relies on `uuid::Uuid::from_u128` and `Uuid`'s `Display`, which writes the
/// hyphenated form in lowercase.
#[verifier::external_body]
fn uuid_text(u: u128) -> (r: String)
    ensures
        r@ == uuid_text_of(u),
{
    uuid::Uuid::from_u128(u).to_string()
}

/// Relies on `uuid::Uuid::new_v4`: a random version 4 UUID, as its 128-bit
/// value; its version field reads 4 and its variant bits read `10`.
#[verifier::external_body]
fn random_uuid() -> (r: u128)
    ensures
        (r >> 76u128) & 0xfu128 == 4u128,
        (r >> 62u128) & 3u128 == 2u128,
{
    uuid::Uuid::new_v4().as_u128()
}

/// A logical identity made of a cluster prefix and a UUID; its unique key is
/// `"{prefix}-{uuid}"`.
#[derive(Debug, Hash, PartialEq, Eq)]
pub struct NodeUUID {
    prefix: String,
    uuid: u128,
    id: String,
}

impl NodeUUID {
    pub closed spec fn uuid_view(&self) -> u128 {
        self.uuid
    }

    /// The identity with the given prefix and UUID.
    pub fn with_uuid(prefix: &str, uuid: u128) -> (r: Self)
        ensures
            r.prefix_view() == prefix@,
            r.uuid_view() == uuid,
            r.key_view() == prefix@ + "-"@ + uuid_text_of(uuid),
    {
        let text = uuid_text(uuid);
        let id = prefix.to_owned().concat("-").concat(text.as_str());
        NodeUUID { prefix: prefix.to_owned(), uuid, id }
    }

    /// An identity with the given prefix and a random UUID.
    pub fn with_prefix(prefix: &str) -> (r: Self)
        ensures
            r.prefix_view() == prefix@,
            (r.uuid_view() >> 76u128) & 0xfu128 == 4u128,
            (r.uuid_view() >> 62u128) & 3u128 == 2u128,
            r.key_view() == prefix@ + "-"@ + uuid_text_of(r.uuid_view()),
    {
        NodeUUID::with_uuid(prefix, random_uuid())
    }

    pub fn uuid(&self) -> (r: u128)
        ensures
            r == self.uuid_view(),
    {
        self.uuid
    }
}

impl Clone for NodeUUID {
    fn clone(&self) -> (r: Self)
        ensures
            r == *self,
    {
        NodeUUID { prefix: self.prefix.clone(), uuid: self.uuid, id: self.id.clone() }
    }
}

impl Default for NodeUUID {
    /// An identity in the default cluster with a random UUID.
    fn default() -> (r: Self)
        ensures
            r.prefix_view() == DEFAULT_PREFIX@,
            (r.uuid_view() >> 76u128) & 0xfu128 == 4u128,
            (r.uuid_view() >> 62u128) & 3u128 == 2u128,
            r.key_view() == DEFAULT_PREFIX@ + "-"@ + uuid_text_of(r.uuid_view()),
    {
        NodeUUID::with_prefix(DEFAULT_PREFIX)
    }
}

impl ID for NodeUUID {
    closed spec fn prefix_view(&self) -> Seq<char> {
        self.prefix@
    }

    closed spec fn key_view(&self) -> Seq<char> {
        self.id@
    }

    open spec fn renewal(&self) -> Option<Self> {
        None
    }

    proof fn lemma_clone_keeps_key(a: Self, b: Self) {
    }

    fn prefix(&self) -> (r: &str) {
        self.prefix.as_str()
    }

    fn id(&self) -> (r: &str) {
        self.id.as_str()
    }

    /// Identities of this kind are not renewed.
    fn renew(&self) -> (r: Option<Self>) {
        None
    }
}

} // verus!
