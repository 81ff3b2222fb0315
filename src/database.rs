//! Keys of one identity in the metadata index.
//!
//! A composite key is the identity's bytes, a `|` byte, then the logical
//! key's bytes. An identity may not be empty nor hold `|`, so the first `|`
//! of a composite key marks where the identity ends and no two
//! `(identity, key)` pairs share a composite key.
use vstd::prelude::*;
use vstd::slice::slice_to_vec;
use vstd::string::StringSliceAdditionalSpecFns;

use crate::codec::{decode_records, decode_spec};
use crate::error::StoreError;
use crate::index::MetaIndex;

verus! {

/// The byte that separates identity and key.
pub const SEPARATOR: u8 = 0x7c;

/// Whether `user` can name an identity.
pub open spec fn valid_identity(user: Seq<u8>) -> bool {
    user.len() > 0 && !user.contains(SEPARATOR)
}

/// The index key for `key` under `user`.
pub open spec fn composite_spec(user: Seq<u8>, key: Seq<u8>) -> Seq<u8> {
    user + seq![SEPARATOR] + key
}

/// Distinct valid `(identity, key)` pairs have distinct composite keys.
pub proof fn lemma_composite_injective(u1: Seq<u8>, k1: Seq<u8>, u2: Seq<u8>, k2: Seq<u8>)
    requires
        valid_identity(u1),
        valid_identity(u2),
        composite_spec(u1, k1) == composite_spec(u2, k2),
    ensures
        u1 == u2,
        k1 == k2,
{
    let c = composite_spec(u1, k1);
    if u1.len() < u2.len() {
        assert(c[u1.len() as int] == SEPARATOR);
        assert(composite_spec(u2, k2)[u1.len() as int] == u2[u1.len() as int]);
        assert(u2.contains(SEPARATOR));
    } else if u2.len() < u1.len() {
        assert(c[u2.len() as int] == u1[u2.len() as int]);
        assert(composite_spec(u2, k2)[u2.len() as int] == SEPARATOR);
        assert(u1.contains(SEPARATOR));
    }
    assert(u1 =~= c.subrange(0, u1.len() as int));
    assert(u2 =~= composite_spec(u2, k2).subrange(0, u2.len() as int));
    assert(k1 =~= c.subrange(u1.len() as int + 1, c.len() as int));
    assert(k2 =~= composite_spec(u2, k2).subrange(u2.len() as int + 1, c.len() as int));
}

/// The keys of one identity.
pub struct Database {
    user: Vec<u8>,
}

impl Database {
    /// The identity's bytes.
    pub closed spec fn user(&self) -> Seq<u8> {
        self.user@
    }

    /// The index key for `key` under this identity.
    pub open spec fn key_of(&self, key: &str) -> Seq<u8> {
        composite_spec(self.user(), key.spec_bytes())
    }

    /// Opens the keys of `user`. Fails with `StoreError::BadRequest` where
    /// `user` is empty or holds `|`.
    pub fn new(user: &str) -> (r: Result<Database, StoreError>)
        ensures
            valid_identity(user.spec_bytes()) ==> r is Ok && r.unwrap().user()
                == user.spec_bytes(),
            !valid_identity(user.spec_bytes()) ==> r == Err::<Database, StoreError>(
                StoreError::BadRequest,
            ),
    {
        let bytes = user.as_bytes();
        if bytes.len() == 0 {
            return Err(StoreError::BadRequest);
        }
        let mut i: usize = 0;
        while i < bytes.len()
            invariant
                bytes@ == user.spec_bytes(),
                0 <= i <= bytes@.len(),
                forall|j: int| 0 <= j < i ==> bytes@[j] != SEPARATOR,
            decreases bytes@.len() - i,
        {
            if bytes[i] == SEPARATOR {
                assert(bytes@.contains(SEPARATOR));
                return Err(StoreError::BadRequest);
            }
            i = i + 1;
        }
        Ok(Database { user: slice_to_vec(bytes) })
    }

    /// The index key for `key` under this identity.
    pub fn composite_key(&self, key: &str) -> (r: Vec<u8>)
        ensures
            r@ == self.key_of(key),
    {
        let mut out = self.user.clone();
        out.push(SEPARATOR);
        let mut rest = slice_to_vec(key.as_bytes());
        out.append(&mut rest);
        out
    }

    /// Whether `key` exists for this identity.
    pub fn check_key(&self, index: &MetaIndex, key: &str) -> (r: bool)
        ensures
            r == index@.contains_key(self.key_of(key)),
    {
        let ck = self.composite_key(key);
        index.contains(ck.as_slice())
    }

    /// Fails with `StoreError::NotFound` exactly where `key` does not exist
    /// for this identity.
    pub fn check_key_nonexistance(&self, index: &MetaIndex, key: &str) -> (r: Result<
        (),
        StoreError,
    >)
        ensures
            index@.contains_key(self.key_of(key)) ==> r is Ok,
            !index@.contains_key(self.key_of(key)) ==> r == Err::<(), StoreError>(
                StoreError::NotFound,
            ),
    {
        if !self.check_key(index, key) {
            return Err(StoreError::NotFound);
        }
        Ok(())
    }

    /// Records the encoded record list of `key`, replacing any earlier one.
    pub fn upload_sql(&self, index: &mut MetaIndex, key: &str, offset_size_bytes: &[u8])
        ensures
            final(index)@ == old(index)@.insert(self.key_of(key), offset_size_bytes@),
    {
        let ck = self.composite_key(key);
        index.put(ck.as_slice(), offset_size_bytes);
    }

    /// The records of `key`. Fails with `StoreError::NotFound` where `key`
    /// does not exist, and with `StoreError::Decode` where its value is not
    /// a valid encoding.
    pub fn get_records(&self, index: &MetaIndex, key: &str) -> (r: Result<
        Vec<(u64, u64)>,
        StoreError,
    >)
        ensures
            !index@.contains_key(self.key_of(key)) ==> r == Err::<Vec<(u64, u64)>, StoreError>(
                StoreError::NotFound,
            ),
            index@.contains_key(self.key_of(key)) ==> match decode_spec(
                index@[self.key_of(key)],
            ) {
                Some(rs) => r is Ok && r.unwrap()@ == rs,
                None => r == Err::<Vec<(u64, u64)>, StoreError>(StoreError::Decode),
            },
    {
        let ck = self.composite_key(key);
        match index.get(ck.as_slice()) {
            Some(value) => decode_records(value.as_slice()),
            None => Err(StoreError::NotFound),
        }
    }

    /// Removes `key` from this identity. Removing an absent key changes
    /// nothing.
    pub fn delete_key(&self, index: &mut MetaIndex, key: &str)
        ensures
            final(index)@ == old(index)@.remove(self.key_of(key)),
    {
        let ck = self.composite_key(key);
        index.delete(ck.as_slice());
    }
}

} // verus!
