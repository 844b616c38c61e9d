//! Identifiers: UUID-based ids for workspaces, cards and annotations, and
//! string ids for repositories and columns.

use vstd::prelude::*;

use crate::text::{owned, push_char};

verus! {

/// The nibble at hexadecimal position `k` (0 is the most significant) of a 128-bit value.
pub open spec fn uuid_nibble(value: u128, k: int) -> nat {
    ((value as nat) / vstd::arithmetic::power::pow(16, (31 - k) as nat) as nat) % 16
}

/// A lower-case hexadecimal digit.
pub open spec fn hex_char(d: nat) -> char {
    if d < 10 {
        (48 + d) as char
    } else {
        (87 + d) as char
    }
}

/// The position among the 32 hexadecimal digits of character `i` of the hyphenated form.
pub open spec fn uuid_digit_index(i: int) -> int {
    if i < 8 {
        i
    } else if i < 13 {
        i - 1
    } else if i < 18 {
        i - 2
    } else if i < 23 {
        i - 3
    } else {
        i - 4
    }
}

/// The hyphenated lower-case form of a UUID: 8-4-4-4-12 hexadecimal digits.
pub open spec fn uuid_text(value: u128) -> Seq<char> {
    Seq::new(
        36,
        |i: int|
            if i == 8 || i == 13 || i == 18 || i == 23 {
                '-'
            } else {
                hex_char(uuid_nibble(value, uuid_digit_index(i)))
            },
    )
}

/// The bits that fix a random (version 4, RFC 4122 variant) UUID.
pub open spec fn is_random_uuid(value: u128) -> bool {
    value & 0xF000C000000000000000u128 == 0x40008000000000000000u128
}

/// Formats a UUID with `uuid::Uuid::hyphenated`.
#[verifier::external_body]
fn uuid_hyphenated(value: u128) -> (text: String)
    ensures
        text@ == uuid_text(value),
{
    uuid::Uuid::from_u128(value).hyphenated().to_string()
}

/// Draws a fresh UUID with `uuid::Uuid::new_v4`.
#[verifier::external_body]
fn random_uuid() -> (value: u128)
    ensures
        is_random_uuid(value),
{
    uuid::Uuid::new_v4().as_u128()
}

proof fn lemma_random_uuid_not_nil(value: u128)
    requires
        is_random_uuid(value),
    ensures
        value != 0,
{
    assert(value & 0xF000C000000000000000u128 == 0x40008000000000000000u128 ==> value != 0)
        by (bit_vector);
}

/// The identity of a workspace, a UUID held as its 128-bit value.
#[derive(Debug, Clone, Copy, PartialEq, Eq, Hash, PartialOrd, Ord, Structural)]
pub struct WorkspaceId(pub u128);

impl WorkspaceId {
    /// A fresh random identity.
    pub fn generate() -> (id: Self)
        ensures
            is_random_uuid(id.0),
            id.0 != 0,
    {
        let value = random_uuid();
        proof {
            lemma_random_uuid_not_nil(value);
        }
        WorkspaceId(value)
    }

    pub fn from_u128(value: u128) -> (id: Self)
        ensures
            id.0 == value,
    {
        WorkspaceId(value)
    }

    pub fn as_u128(&self) -> (value: u128)
        ensures
            value == self.0,
    {
        self.0
    }

    /// Whether this is the nil UUID.
    pub fn is_nil(&self) -> (nil: bool)
        ensures
            nil == (self.0 == 0),
    {
        self.0 == 0
    }

    /// The hyphenated text form.
    pub fn text(&self) -> (s: String)
        ensures
            s@ == uuid_text(self.0),
    {
        uuid_hyphenated(self.0)
    }
}

/// The identity of a local card.
#[derive(Debug, Clone, Copy, PartialEq, Eq, Hash, PartialOrd, Ord, Structural)]
pub struct CardId(pub u128);

impl CardId {
    /// A fresh random identity.
    pub fn generate() -> (id: Self)
        ensures
            is_random_uuid(id.0),
            id.0 != 0,
    {
        let value = random_uuid();
        proof {
            lemma_random_uuid_not_nil(value);
        }
        CardId(value)
    }

    pub fn from_u128(value: u128) -> (id: Self)
        ensures
            id.0 == value,
    {
        CardId(value)
    }

    pub fn as_u128(&self) -> (value: u128)
        ensures
            value == self.0,
    {
        self.0
    }

    pub fn is_nil(&self) -> (nil: bool)
        ensures
            nil == (self.0 == 0),
    {
        self.0 == 0
    }

    pub fn text(&self) -> (s: String)
        ensures
            s@ == uuid_text(self.0),
    {
        uuid_hyphenated(self.0)
    }
}

/// The identity of a code annotation found by a scan.
#[derive(Debug, Clone, Copy, PartialEq, Eq, Hash, PartialOrd, Ord, Structural)]
pub struct AnnotationId(pub u128);

impl AnnotationId {
    /// A fresh random identity.
    pub fn generate() -> (id: Self)
        ensures
            is_random_uuid(id.0),
            id.0 != 0,
    {
        let value = random_uuid();
        proof {
            lemma_random_uuid_not_nil(value);
        }
        AnnotationId(value)
    }

    pub fn from_u128(value: u128) -> (id: Self)
        ensures
            id.0 == value,
    {
        AnnotationId(value)
    }
}

/// The identifier of a repository of a workspace.
#[derive(Debug, PartialEq, Eq, Hash, PartialOrd, Ord)]
pub struct RepositoryId(pub String);

impl View for RepositoryId {
    type V = Seq<char>;

    open spec fn view(&self) -> Seq<char> {
        self.0@
    }
}

impl Clone for RepositoryId {
    fn clone(&self) -> (r: Self)
        ensures
            r == *self,
    {
        RepositoryId(self.0.clone())
    }
}

impl RepositoryId {
    pub fn new(value: &str) -> (id: Self)
        ensures
            id@ == value@,
    {
        RepositoryId(owned(value))
    }

    pub fn as_str(&self) -> (s: &str)
        ensures
            s@ == self@,
    {
        self.0.as_str()
    }
}

/// The identifier of a board column.
#[derive(Debug, PartialEq, Eq, Hash, PartialOrd, Ord)]
pub struct ColumnId(pub String);

impl View for ColumnId {
    type V = Seq<char>;

    open spec fn view(&self) -> Seq<char> {
        self.0@
    }
}

impl Clone for ColumnId {
    fn clone(&self) -> (r: Self)
        ensures
            r == *self,
    {
        ColumnId(self.0.clone())
    }
}

impl ColumnId {
    pub fn new(value: &str) -> (id: Self)
        ensures
            id@ == value@,
    {
        ColumnId(owned(value))
    }

    pub fn as_str(&self) -> (s: &str)
        ensures
            s@ == self@,
    {
        self.0.as_str()
    }

    /// Whether two column ids are the same.
    pub fn same(&self, other: &ColumnId) -> (r: bool)
        ensures
            r == (self@ == other@),
    {
        self.0 == other.0
    }
}

} // verus!
