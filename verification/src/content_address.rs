//! Content-based addressing: positions named by the hash of the content
//! they point into, so they survive concurrent edits.

use vstd::prelude::*;
use vstd::string::StringSliceAdditionalSpecFns;
use crate::assoc::str_eq;
use crate::digest::{sha256_hex, sha256_hex_of};
use crate::text::{decimal, push_decimal, string_push};

verus! {

/// A position-independent content address.
#[derive(Clone, Debug, PartialEq, Eq, Hash)]
pub struct ContentAddress {
    /// Hex SHA-256 of the referenced content.
    pub content_hash: String,
    /// Offset within that content.
    pub offset: usize,
    /// ID of the operation that created the content.
    pub creator_op_id: String,
}

/// The hash text an address stores for `content`.
pub open spec fn content_hash_of(content: &str) -> Seq<char> {
    sha256_hex_of(content.spec_bytes())
}

/// The stable identifier of an address: `hash@offset`.
pub open spec fn address_id(hash: Seq<char>, offset: usize) -> Seq<char> {
    hash.push('@') + decimal(offset as nat)
}

impl ContentAddress {
    fn hash_content(content: &str) -> (h: String)
        ensures
            h@ == content_hash_of(content),
            h@.len() == 64,
    {
        sha256_hex(content.as_bytes())
    }

    /// Address `offset` within `content`, created by `creator_op_id`.
    pub fn new(content: &str, offset: usize, creator_op_id: String) -> (a: Self)
        ensures
            a.content_hash@ == content_hash_of(content),
            a.content_hash@.len() == 64,
            a.offset == offset,
            a.creator_op_id == creator_op_id,
    {
        let h = Self::hash_content(content);
        ContentAddress { content_hash: h, offset, creator_op_id }
    }

    /// A field-for-field copy.
    pub fn copy(&self) -> (a: Self)
        ensures
            a == *self,
    {
        ContentAddress {
            content_hash: self.content_hash.clone(),
            offset: self.offset,
            creator_op_id: self.creator_op_id.clone(),
        }
    }

    /// Whether `content` hashes to this address's hash.
    pub fn verify(&self, content: &str) -> (b: bool)
        ensures
            b == (content_hash_of(content) == self.content_hash@),
    {
        let h = Self::hash_content(content);
        str_eq(h.as_str(), self.content_hash.as_str())
    }

    /// A stable identifier: the hash, `@`, and the offset in decimal.
    pub fn id(&self) -> (s: String)
        ensures
            s@ == address_id(self.content_hash@, self.offset),
    {
        let mut s = self.content_hash.clone();
        string_push(&mut s, '@');
        push_decimal(&mut s, self.offset as u64);
        s
    }

    /// The address of the start of a document: hash `START`, offset 0.
    pub fn document_start() -> (a: Self)
        ensures
            a.content_hash@ == "START"@,
            a.offset == 0,
            a.creator_op_id@ == "ROOT"@,
    {
        ContentAddress {
            content_hash: String::from_str("START"),
            offset: 0,
            creator_op_id: String::from_str("ROOT"),
        }
    }

    /// The address of the end of a document: hash `END`, offset 0.
    pub fn document_end() -> (a: Self)
        ensures
            a.content_hash@ == "END"@,
            a.offset == 0,
            a.creator_op_id@ == "ROOT"@,
    {
        ContentAddress {
            content_hash: String::from_str("END"),
            offset: 0,
            creator_op_id: String::from_str("ROOT"),
        }
    }
}

/// Equal content gives equal hashes, whoever created it and at whatever
/// offset; an address verifies the content it was made from.
pub proof fn lemma_same_content_same_hash(c1: &str, c2: &str)
    requires
        c1@ == c2@,
    ensures
        content_hash_of(c1) == content_hash_of(c2),
{
}

} // verus!
