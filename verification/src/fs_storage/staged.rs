//! Hashing content while it passes through: what is staged is verified, and its
//! checksum recorded, without being held in memory.

use crate::digest::{digest_under, finish_sha256, finish_sha512, Digest};
use crate::error::StorageError;
use crate::fs_storage::blobs::checksum_of;
use crate::hashing::{
    checksum_goes_on, crc_append_call, crc_of, fed_to_sha256, fed_to_sha512, lemma_crc_of_nothing,
    sha256_feed, sha256_start, sha512_feed, sha512_start, RunningSha256, RunningSha512, SHA256_ROOM,
};
use crate::metadata::BlobChecksum;
use crate::text::{same, Text};
use vstd::prelude::*;

verus! {

/// The hash that is being fed.
#[derive(Debug)]
enum Running {
    Sha256(RunningSha256),
    Sha512(RunningSha512),
}

/// The hash and the checksum of everything that was fed so far.
#[derive(Debug)]
pub struct StagedHash {
    running: Running,
    crc32c: u32,
    len: u64,
}

/// How many bytes can be hashed.
pub open spec fn hash_room(wide: bool) -> u64 {
    if wide {
        u64::MAX
    } else {
        SHA256_ROOM
    }
}

/// The name of the algorithm.
pub open spec fn hash_name(wide: bool) -> Text {
    if wide {
        "sha512"@
    } else {
        "sha256"@
    }
}

impl StagedHash {
    /// Everything that was fed.
    pub closed spec fn content(&self) -> Seq<u8> {
        match self.running {
            Running::Sha256(h) => fed_to_sha256(h),
            Running::Sha512(h) => fed_to_sha512(h),
        }
    }

    /// Whether the algorithm is sha512, not sha256.
    pub closed spec fn wide(&self) -> bool {
        self.running is Sha512
    }

    /// The checksum and the length are those of the content, and there was room
    /// for it.
    pub closed spec fn wf(&self) -> bool {
        &&& self.crc32c == crc_of(self.content())
        &&& self.len == self.content().len()
        &&& self.len <= hash_room(self.wide())
    }

    /// What the content hashes to.
    pub open spec fn digest(&self) -> (Text, Text) {
        digest_under(self.content(), hash_name(self.wide()))
    }

    /// Starts hashing under an algorithm: sha512 by name, sha256 otherwise.
    pub fn new(algorithm: &str) -> (r: StagedHash)
        ensures
            r.wf(),
            r.content() == Seq::<u8>::empty(),
            r.wide() == (algorithm@ == "sha512"@),
    {
        proof {
            lemma_crc_of_nothing();
        }
        let running = if same(algorithm, "sha512") {
            Running::Sha512(sha512_start())
        } else {
            Running::Sha256(sha256_start())
        };
        StagedHash { running, crc32c: 0, len: 0 }
    }

    /// How many bytes were fed.
    pub fn len(&self) -> (r: u64)
        requires
            self.wf(),
        ensures
            r == self.content().len(),
    {
        self.len
    }

    /// Whether `n` bytes more can be fed.
    pub fn fits(&self, n: usize) -> (r: bool)
        requires
            self.wf(),
        ensures
            r == (self.content().len() + n <= hash_room(self.wide())),
    {
        let room: u64 = match &self.running {
            Running::Sha256(_) => SHA256_ROOM,
            Running::Sha512(_) => u64::MAX,
        };
        n as u64 <= room - self.len
    }

    /// Feeds the next piece.
    pub fn update(&mut self, data: &[u8])
        requires
            old(self).wf(),
            old(self).content().len() + data@.len() <= hash_room(old(self).wide()),
        ensures
            final(self).wf(),
            final(self).content() == old(self).content() + data@,
            final(self).wide() == old(self).wide(),
    {
        proof {
            checksum_goes_on(self.content(), data@);
        }
        self.crc32c = crc_append_call(self.crc32c, data);
        self.len = self.len + data.len() as u64;
        match &mut self.running {
            Running::Sha256(h) => sha256_feed(h, data),
            Running::Sha512(h) => sha512_feed(h, data),
        }
    }

    /// The digest and the checksum record of everything that was fed.
    pub fn finish(self) -> (r: (Digest, BlobChecksum))
        requires
            self.wf(),
        ensures
            r.0@ == self.digest(),
            r.1 == checksum_of(self.content()),
    {
        proof {
            reveal_strlit("sha256");
            reveal_strlit("sha512");
            assert("sha256"@[3] != "sha512"@[3]);
        }
        let checksum = BlobChecksum { crc32c: self.crc32c, size: self.len };
        let digest = match self.running {
            Running::Sha256(h) => finish_sha256(h),
            Running::Sha512(h) => finish_sha512(h),
        };
        (digest, checksum)
    }
}

/// The hash that an append goes on with: the one that is kept, or a new one where
/// hashing starts with it. What is written is hashed under sha256.
pub fn seed_hash(kept: Option<StagedHash>, starts: bool) -> (r: Option<StagedHash>)
    ensures
        (match kept {
            Some(h) => r == Some(h),
            None => if starts {
                r matches Some(h) && h.wf() && h.content() == Seq::<u8>::empty() && !h.wide()
            } else {
                r is None
            },
        }),
{
    match kept {
        Some(h) => Some(h),
        None => {
            if starts {
                proof {
                    reveal_strlit("sha256");
                    reveal_strlit("sha512");
                    assert("sha256"@[3] != "sha512"@[3]);
                }
                Some(StagedHash::new("sha256"))
            } else {
                None
            }
        },
    }
}

/// How much is staged once a piece is appended to `total` bytes; a piece that
/// passes the limit is refused before it is written.
pub fn staged_total(total: u64, piece: usize, limit: u64) -> (r: Result<u64, StorageError>)
    ensures
        ({
            let actual = if total + piece > u64::MAX {
                u64::MAX
            } else {
                (total + piece) as u64
            };
            r == (if actual > limit {
                Err::<u64, StorageError>(StorageError::TooLarge { limit, actual })
            } else {
                Ok::<u64, StorageError>(actual)
            })
        }),
{
    let actual: u64 = total.saturating_add(piece as u64);
    if actual > limit {
        Err(StorageError::TooLarge { limit, actual })
    } else {
        Ok(actual)
    }
}

} // verus!
