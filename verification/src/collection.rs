//! Document collections, each identified by a stable one-byte tag.

use vstd::prelude::*;
use vstd::string::StringExecFns;

verus! {

/// The kinds of document a mail account holds.
#[derive(Debug, Clone, Copy, Hash, PartialEq, Eq, Structural)]
pub enum Collection {
    Principal,
    PushSubscription,
    Email,
    Mailbox,
    Thread,
    Identity,
    EmailSubmission,
    SieveScript,
}

/// Number of collections; tags run from zero up to, not including, this.
pub const COLLECTION_COUNT: u8 = 8;

impl Collection {
    /// The one-byte tag of a collection.
    pub open spec fn tag(self) -> u8 {
        match self {
            Collection::Principal => 0,
            Collection::PushSubscription => 1,
            Collection::Email => 2,
            Collection::Mailbox => 3,
            Collection::Thread => 4,
            Collection::Identity => 5,
            Collection::EmailSubmission => 6,
            Collection::SieveScript => 7,
        }
    }

    /// The name of a collection as it is written in protocol messages.
    pub open spec fn name(self) -> Seq<char> {
        match self {
            Collection::Principal => "principal"@,
            Collection::PushSubscription => "pushSubscription"@,
            Collection::Email => "email"@,
            Collection::Mailbox => "mailbox"@,
            Collection::Thread => "thread"@,
            Collection::Identity => "identity"@,
            Collection::EmailSubmission => "emailSubmission"@,
            Collection::SieveScript => "sieveScript"@,
        }
    }

    /// The collection with tag `v`, or `None` where no collection has it.
    pub fn from_u8(v: u8) -> (r: Option<Collection>)
        ensures
            v < COLLECTION_COUNT ==> r is Some && r->0.tag() == v,
            v >= COLLECTION_COUNT ==> r is None,
    {
        match v {
            0 => Some(Collection::Principal),
            1 => Some(Collection::PushSubscription),
            2 => Some(Collection::Email),
            3 => Some(Collection::Mailbox),
            4 => Some(Collection::Thread),
            5 => Some(Collection::Identity),
            6 => Some(Collection::EmailSubmission),
            7 => Some(Collection::SieveScript),
            _ => None,
        }
    }

    /// The collection with tag `v`. Only the eight tags in use are accepted;
    /// for a tag that may be any byte, `from_u8` is the function to call.
    pub fn from(v: u8) -> (c: Collection)
        requires
            v < COLLECTION_COUNT,
        ensures
            c.tag() == v,
    {
        match v {
            0 => Collection::Principal,
            1 => Collection::PushSubscription,
            2 => Collection::Email,
            3 => Collection::Mailbox,
            4 => Collection::Thread,
            5 => Collection::Identity,
            6 => Collection::EmailSubmission,
            _ => Collection::SieveScript,
        }
    }

    /// The tag of this collection.
    pub fn to_u8(self) -> (v: u8)
        ensures
            v == self.tag(),
            v < COLLECTION_COUNT,
    {
        match self {
            Collection::Principal => 0,
            Collection::PushSubscription => 1,
            Collection::Email => 2,
            Collection::Mailbox => 3,
            Collection::Thread => 4,
            Collection::Identity => 5,
            Collection::EmailSubmission => 6,
            Collection::SieveScript => 7,
        }
    }

    /// The protocol name of this collection.
    pub fn as_str(&self) -> (s: &'static str)
        ensures
            s@ == self.name(),
    {
        match self {
            Collection::Principal => "principal",
            Collection::PushSubscription => "pushSubscription",
            Collection::Email => "email",
            Collection::Mailbox => "mailbox",
            Collection::Thread => "thread",
            Collection::Identity => "identity",
            Collection::EmailSubmission => "emailSubmission",
            Collection::SieveScript => "sieveScript",
        }
    }

    /// The protocol name of this collection, as an owned string.
    pub fn to_string(&self) -> (s: String)
        ensures
            s@ == self.name(),
    {
        String::from_str(self.as_str())
    }
}

impl From<Collection> for u8 {
    fn from(v: Collection) -> (r: u8) {
        v.to_u8()
    }
}

impl vstd::std_specs::convert::FromSpecImpl<Collection> for u8 {
    open spec fn obeys_from_spec() -> bool {
        true
    }

    open spec fn from_spec(v: Collection) -> u8 {
        v.tag()
    }
}

/// A tag determines its collection: two collections with one tag are the same.
pub proof fn lemma_tag_injective(a: Collection, b: Collection)
    requires
        a.tag() == b.tag(),
    ensures
        a == b,
{
}

} // verus!
