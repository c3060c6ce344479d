//! The resources archive streamed to clients.
//!
//! Resource files collected from plugins are packed into one stored
//! (uncompressed) zip archive; its content hash accompanies the resources
//! scheme so the client can detect a stale cache; the bytes are then
//! served in fixed-size parts.

use vstd::prelude::*;

use crate::hashing::{calculate_hash, spec_content_hash};
use crate::messages::ResourceScheme;
use crate::ziputil::{
    zip_archive_of, zip_entries, zip_finish, zip_finish_ok, zip_start_file_stored, zip_start_ok,
    zip_write_data, zip_write_ok, zip_writer_new,
};

verus! {

/// The wire stream slices the archive into parts of this many bytes.
pub const ARCHIVE_CHUNK_SIZE: usize = 1048576;

/// A list of named byte entries as the zip writer sees it: every entry
/// stored, none deflated.
pub open spec fn stored_entries(entries: Seq<(String, Vec<u8>)>) -> Seq<
    (Seq<char>, Seq<u8>, bool),
> {
    entries.map_values(|e: (String, Vec<u8>)| (e.0@, e.1@, false))
}

/// Whether the zip writer accepts packing these stored entries in order:
/// each is begun and written without refusal.
pub open spec fn pack_ok(entries: Seq<(String, Vec<u8>)>) -> bool
    decreases entries.len(),
{
    if entries.len() == 0 {
        true
    } else {
        let prev = entries.drop_last();
        &&& pack_ok(prev)
        &&& zip_start_ok(
            stored_entries(prev).push((entries.last().0@, Seq::<u8>::empty(), false)),
        )
        &&& zip_write_ok(stored_entries(entries))
    }
}

/// A packable list stays packable when cut to a prefix.
proof fn lemma_pack_ok_prefix(entries: Seq<(String, Vec<u8>)>, i: int)
    requires
        pack_ok(entries),
        0 <= i <= entries.len(),
    ensures
        pack_ok(entries.take(i)),
    decreases entries.len() - i,
{
    if i == entries.len() {
        assert(entries.take(i) =~= entries);
    } else {
        lemma_pack_ok_prefix(entries, i + 1);
        assert(entries.take(i + 1).drop_last() =~= entries.take(i));
        assert(pack_ok(entries.take(i + 1)));
    }
}

/// How many parts a byte string of length `len` splits into.
pub open spec fn spec_parts_count(len: int, chunk_size: int) -> int
    recommends
        chunk_size > 0,
{
    (len + chunk_size - 1) / chunk_size
}

/// The resource files of all plugins, packed for streaming.
pub struct ResourcesArchive {
    archive_data: Vec<u8>,
    archive_hash: Option<u64>,
    entries: Vec<(String, Vec<u8>)>,
    resources_scheme: Vec<ResourceScheme>,
}

impl ResourcesArchive {
    /// Whether `finalize` has packed the entries into archive bytes.
    pub closed spec fn is_finalized(self) -> bool {
        self.archive_hash is Some
    }

    /// The packed archive bytes.
    pub closed spec fn spec_archive_data(self) -> Seq<u8> {
        self.archive_data@
    }

    /// The hash stored at finalization.
    pub closed spec fn spec_archive_hash(self) -> u64 {
        self.archive_hash->0
    }

    /// The entries collected and not yet packed.
    pub closed spec fn spec_entries(self) -> Seq<(String, Vec<u8>)> {
        self.entries@
    }

    /// The resource schemes collected so far.
    pub closed spec fn spec_schemes(self) -> Seq<ResourceScheme> {
        self.resources_scheme@
    }

    /// Validity: the stored hash is the hash of the stored bytes, and no
    /// bytes exist before finalization.
    pub closed spec fn wf(self) -> bool {
        &&& (self.archive_hash matches Some(h) ==> h == spec_content_hash(self.archive_data@))
        &&& (self.archive_hash is None ==> self.archive_data@.len() == 0)
    }

    /// Queues one named byte entry for the next `finalize`.
    pub fn add_entry(&mut self, name: String, data: Vec<u8>)
        requires
            old(self).wf(),
        ensures
            final(self).wf(),
            final(self).spec_entries() == old(self).spec_entries().push((name, data)),
            final(self).spec_schemes() == old(self).spec_schemes(),
            final(self).is_finalized() == old(self).is_finalized(),
            final(self).spec_archive_data() == old(self).spec_archive_data(),
    {
        self.entries.push((name, data));
    }

    /// Records one plugin's resource scheme.
    pub fn add_resource_scheme(&mut self, scheme: ResourceScheme)
        requires
            old(self).wf(),
        ensures
            final(self).wf(),
            final(self).spec_schemes() == old(self).spec_schemes().push(scheme),
            final(self).spec_entries() == old(self).spec_entries(),
            final(self).is_finalized() == old(self).is_finalized(),
            final(self).spec_archive_data() == old(self).spec_archive_data(),
    {
        self.resources_scheme.push(scheme);
    }

    pub fn get_resources_scheme(&self) -> (r: &Vec<ResourceScheme>)
        ensures
            r@ == self.spec_schemes(),
    {
        &self.resources_scheme
    }

    /// Whether the packed archive holds anything at all.
    pub fn has_any(&self) -> (r: bool)
        requires
            self.is_finalized(),
        ensures
            r == (self.spec_archive_data().len() > 0),
    {
        self.archive_data.len() > 0
    }

    /// Packs the queued entries into the archive: the bytes are the zip
    /// crate's stored archive of exactly those entries, the hash is the
    /// content hash of those bytes, and the queue is drained. A zip error
    /// leaves the archive untouched.
    pub fn finalize(&mut self) -> (r: Result<(), String>)
        requires
            old(self).wf(),
        ensures
            final(self).wf(),
            r is Ok ==> {
                &&& final(self).is_finalized()
                &&& final(self).spec_archive_data() == zip_archive_of(
                    stored_entries(old(self).spec_entries()),
                )
                &&& final(self).spec_archive_hash() == spec_content_hash(
                    final(self).spec_archive_data(),
                )
                &&& final(self).spec_entries().len() == 0
                &&& final(self).spec_schemes() == old(self).spec_schemes()
            },
            r is Err ==> *final(self) == *old(self),
            r is Ok <==> pack_ok(old(self).spec_entries()) && zip_finish_ok(
                stored_entries(old(self).spec_entries()),
            ),
    {
        let mut writer = zip_writer_new();
        let n = self.entries.len();
        let mut i: usize = 0;
        while i < n
            invariant
                old(self).wf(),
                n == self.entries@.len(),
                i <= n,
                zip_entries(writer) == stored_entries(self.entries@.take(i as int)),
                pack_ok(self.entries@.take(i as int)),
                *self == *old(self),
            decreases n - i,
        {
            let ghost pre = self.entries@.take(i as int);
            let ghost cur = self.entries@.take(i as int + 1);
            proof {
                assert(cur.drop_last() =~= pre);
                assert(cur.last() == self.entries@[i as int]);
            }
            let name: &String = &self.entries[i].0;
            match zip_start_file_stored(&mut writer, name.as_str()) {
                Ok(()) => {},
                Err(e) => {
                    proof {
                        if pack_ok(self.entries@) && zip_finish_ok(
                            stored_entries(self.entries@),
                        ) {
                            lemma_pack_ok_prefix(self.entries@, i as int + 1);
                            assert(pack_ok(cur));
                        }
                    }
                    return Err(e);
                },
            }
            let ghost after_write = stored_entries(pre).push(
                (self.entries@[i as int].0@, self.entries@[i as int].1@, false),
            );
            proof {
                let prev = stored_entries(pre);
                let pushed = prev.push((self.entries@[i as int].0@, Seq::<u8>::empty(), false));
                assert(pushed.last().1 + self.entries@[i as int].1@ =~= self.entries@[
                    i as int
                ].1@);
                assert(pushed.update(
                    pushed.len() - 1,
                    (
                        pushed.last().0,
                        pushed.last().1 + self.entries@[i as int].1@,
                        pushed.last().2,
                    ),
                ) =~= after_write);
                assert(after_write =~= stored_entries(cur));
            }
            match zip_write_data(&mut writer, self.entries[i].1.as_slice()) {
                Ok(()) => {},
                Err(e) => {
                    proof {
                        if pack_ok(self.entries@) && zip_finish_ok(
                            stored_entries(self.entries@),
                        ) {
                            lemma_pack_ok_prefix(self.entries@, i as int + 1);
                            assert(pack_ok(cur));
                            assert(zip_write_ok(stored_entries(cur)));
                        }
                    }
                    return Err(e);
                },
            }
            proof {
                assert(zip_entries(writer) =~= stored_entries(cur));
                assert(pack_ok(cur));
            }
            i = i + 1;
        }
        proof {
            assert(self.entries@.take(n as int) =~= self.entries@);
        }
        match zip_finish(writer) {
            Ok(bytes) => {
                let hash = calculate_hash(&bytes);
                self.archive_hash = Some(hash);
                self.archive_data = bytes;
                self.entries.clear();
                Ok(())
            },
            Err(e) => Err(e),
        }
    }

    /// The content hash of the packed archive.
    pub fn get_archive_hash(&self) -> (r: u64)
        requires
            self.is_finalized(),
            self.wf(),
        ensures
            r == self.spec_archive_hash(),
            r == spec_content_hash(self.spec_archive_data()),
    {
        match self.archive_hash {
            Some(h) => h,
            None => unreached(),
        }
    }

    /// The packed archive's length in bytes.
    pub fn get_archive_len(&self) -> (r: usize)
        requires
            self.is_finalized(),
        ensures
            r == self.spec_archive_data().len(),
    {
        self.archive_data.len()
    }

    /// The packed archive's bytes.
    pub fn get_archive_data(&self) -> (r: &Vec<u8>)
        requires
            self.is_finalized(),
        ensures
            r@ == self.spec_archive_data(),
    {
        &self.archive_data
    }

    /// How many parts of `chunk_size` bytes the archive splits into.
    pub fn get_archive_parts_count(&self, chunk_size: usize) -> (r: usize)
        requires
            self.is_finalized(),
            chunk_size > 0,
        ensures
            r == spec_parts_count(self.spec_archive_data().len() as int, chunk_size as int),
    {
        let len = self.archive_data.len();
        if len == 0 {
            assert(spec_parts_count(0, chunk_size as int) == 0) by {
                vstd::arithmetic::div_mod::lemma_div_pos_is_pos(
                    chunk_size as int - 1,
                    chunk_size as int,
                );
                vstd::arithmetic::div_mod::lemma_basic_div(
                    chunk_size as int - 1,
                    chunk_size as int,
                );
            };
            0
        } else {
            let r = (len - 1) / chunk_size + 1;
            proof {
                vstd::arithmetic::div_mod::lemma_div_plus_one(len as int - 1, chunk_size as int);
            }
            r
        }
    }

    /// Part `index` of the archive: the bytes from `index * chunk_size` up
    /// to the next boundary or the end.
    pub fn get_archive_part(&self, index: usize, chunk_size: usize) -> (r: Vec<u8>)
        requires
            self.is_finalized(),
            chunk_size > 0,
            index < spec_parts_count(self.spec_archive_data().len() as int, chunk_size as int),
            index * chunk_size + chunk_size <= usize::MAX,
        ensures
            r@ == self.spec_archive_data().subrange(
                index as int * chunk_size as int,
                if (index as int + 1) * chunk_size as int <= self.spec_archive_data().len() {
                    (index as int + 1) * chunk_size as int
                } else {
                    self.spec_archive_data().len() as int
                },
            ),
    {
        let len = self.archive_data.len();
        let start = index * chunk_size;
        proof {
            lemma_part_start_in_range(len as int, chunk_size as int, index as int);
        }
        proof {
            assert((index as int + 1) * (chunk_size as int) == index as int * chunk_size as int
                + chunk_size as int) by (nonlinear_arith);
        }
        let mut end = start + chunk_size;
        if end > len {
            end = len;
        }
        let part = vstd::slice::slice_to_vec(
            vstd::slice::slice_subrange(self.archive_data.as_slice(), start, end),
        );
        proof {
            assert(part@ =~= self.spec_archive_data().subrange(start as int, end as int));
        }
        part
    }
}

impl Default for ResourcesArchive {
    /// An empty, not yet finalized archive.
    fn default() -> (r: Self)
        ensures
            r.wf(),
            !r.is_finalized(),
            r.spec_entries().len() == 0,
            r.spec_schemes().len() == 0,
    {
        ResourcesArchive {
            archive_data: Vec::new(),
            archive_hash: None,
            entries: Vec::new(),
            resources_scheme: Vec::new(),
        }
    }
}

/// A part index below the parts count starts strictly inside the bytes.
proof fn lemma_part_start_in_range(len: int, chunk_size: int, index: int)
    requires
        chunk_size > 0,
        len >= 0,
        0 <= index < spec_parts_count(len, chunk_size),
    ensures
        index * chunk_size < len,
{
    if index * chunk_size >= len {
        assert(index >= spec_parts_count(len, chunk_size)) by {
            vstd::arithmetic::div_mod::lemma_div_multiples_vanish_fancy(
                index,
                chunk_size - 1,
                chunk_size,
            );
            vstd::arithmetic::div_mod::lemma_div_is_ordered(
                len + chunk_size - 1,
                index * chunk_size + chunk_size - 1,
                chunk_size,
            );
        };
    }
}

} // verus!
