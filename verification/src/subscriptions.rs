//! Content-kind subscriptions: which kinds of traffic from a particular
//! publisher a session asks for.

use vstd::prelude::*;

use crate::messages::UserId;

verus! {

/// A particular kind of traffic transported over a connection, as a set of
/// flag bits.
#[derive(Debug, Copy, Clone, PartialEq, Eq, Structural, Hash)]
pub struct ContentKind {
    bits: u8,
}

impl ContentKind {
    pub closed spec fn spec_bits(self) -> u8 {
        self.bits
    }

    /// Audio traffic.
    pub fn audio() -> (r: Self)
        ensures
            r.spec_bits() == 1,
    {
        ContentKind { bits: 1 }
    }

    /// Video traffic.
    pub fn video() -> (r: Self)
        ensures
            r.spec_bits() == 2,
    {
        ContentKind { bits: 2 }
    }

    /// All traffic.
    pub fn all() -> (r: Self)
        ensures
            r.spec_bits() == 255,
    {
        ContentKind { bits: 255 }
    }

    /// Interprets raw bits as a content kind. Every bit pattern lies
    /// within the full set, so every pattern is meaningful.
    pub fn from_bits(bits: u8) -> (r: Option<ContentKind>)
        ensures
            r matches Some(c) && c.spec_bits() == bits,
    {
        Some(ContentKind { bits })
    }

    /// Whether every kind in `other` is included in this kind.
    pub fn contains(&self, other: ContentKind) -> (r: bool)
        ensures
            r == (self.spec_bits() & other.spec_bits() == other.spec_bits()),
    {
        self.bits & other.bits == other.bits
    }
}

/// A client's raw description of a content subscription.
#[derive(Debug, Clone, PartialEq, Eq)]
pub struct SubscriptionSpec {
    /// The publisher whose content is wanted.
    pub publisher_id: UserId,

    /// The kinds of content wanted, as raw bits.
    pub content_kind: u8,
}

/// A subscription to a particular kind of content from a particular
/// publisher.
#[derive(Debug, Clone, PartialEq, Eq, Hash)]
pub struct Subscription {
    /// The content publisher in question.
    pub publisher_id: UserId,

    /// The kind or kinds of content being subscribed to.
    pub kind: ContentKind,
}

/// The error returned for a specification whose bits name no content kind.
#[derive(Debug, Clone, Copy, PartialEq, Eq, Structural)]
pub struct InvalidContentKind;

impl Subscription {
    /// Reads a raw specification into a subscription.
    pub fn try_from(spec: &SubscriptionSpec) -> (r: Result<Self, InvalidContentKind>)
        ensures
            r matches Ok(s) && s.publisher_id@ == spec.publisher_id@ && s.kind.spec_bits()
                == spec.content_kind,
    {
        match ContentKind::from_bits(spec.content_kind) {
            Some(kind) => Ok(Self { publisher_id: spec.publisher_id.clone(), kind }),
            None => Err(InvalidContentKind),
        }
    }
}

} // verus!
