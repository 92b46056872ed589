//! The persistent state, modeled in memory: case rows, content-addressed
//! asset rows, case-to-asset links, and the set of uploaded storage objects.
//!
//! The invariant `wf` carries the store's uniqueness guarantees: one asset
//! row per fingerprint, one case per share code, no duplicated link pair,
//! and no asset row without its uploaded object.

use vstd::prelude::*;
use crate::errors::ShareError;
use crate::hashing::{content_hash, spec_content_hash, spec_storage_path, storage_path_of};
use crate::json::JsonValue;
use crate::mime::{is_allowed_mime, sniff_mime, spec_accepted_mime, spec_file_accepted};
use crate::strings::str_equal;

verus! {

/// One content-addressed asset row.
#[derive(Debug)]
pub struct AssetRow {
    pub id: u64,
    /// 64 lowercase hex characters; unique in the store.
    pub file_hash: String,
    /// The sharded path under which the bytes were uploaded.
    pub storage_path: String,
    pub mime_type: String,
    pub size_bytes: u64,
}

/// One shared case row.
#[derive(Debug)]
pub struct CaseRow {
    pub id: u64,
    /// Unique in the store.
    pub share_code: String,
    pub data: JsonValue,
    pub expires_at: i64,
}

/// One case-to-asset link; the pair is unique in the store.
#[derive(Clone, Copy, PartialEq, Eq, Structural, Debug)]
pub struct LinkRow {
    pub case_id: u64,
    pub asset_id: u64,
}

/// The relational store and the remote object store, modeled together.
#[derive(Debug)]
pub struct Store {
    pub assets: Vec<AssetRow>,
    pub cases: Vec<CaseRow>,
    pub links: Vec<LinkRow>,
    /// The storage paths of the objects uploaded so far.
    pub objects: Vec<String>,
    /// Strictly above every asset and case id.
    pub next_id: u64,
}

/// Whether some row of `assets` carries fingerprint `h`.
pub open spec fn hash_in_assets(assets: Seq<AssetRow>, h: Seq<char>) -> bool {
    exists|k: int| 0 <= k < assets.len() && (#[trigger] assets[k]).file_hash@ == h
}

/// Whether some row of `assets` has id `id`.
pub open spec fn id_in_assets(assets: Seq<AssetRow>, id: u64) -> bool {
    exists|k: int| 0 <= k < assets.len() && (#[trigger] assets[k]).id == id
}

/// Whether some row of `cases` has id `id`.
pub open spec fn id_in_cases(cases: Seq<CaseRow>, id: u64) -> bool {
    exists|k: int| 0 <= k < cases.len() && (#[trigger] cases[k]).id == id
}

/// Whether some row of `cases` carries share code `code`.
pub open spec fn code_in_cases(cases: Seq<CaseRow>, code: Seq<char>) -> bool {
    exists|k: int| 0 <= k < cases.len() && (#[trigger] cases[k]).share_code@ == code
}

/// Whether `objects` holds an object at path `path`.
pub open spec fn path_in_objects(objects: Seq<String>, path: Seq<char>) -> bool {
    exists|k: int| 0 <= k < objects.len() && (#[trigger] objects[k])@ == path
}

/// Whether the pair is linked.
pub open spec fn pair_in_links(links: Seq<LinkRow>, case_id: u64, asset_id: u64) -> bool {
    exists|k: int|
        0 <= k < links.len() && (#[trigger] links[k]).case_id == case_id && links[k].asset_id
            == asset_id
}

impl Store {
    pub open spec fn has_asset_hash(self, h: Seq<char>) -> bool {
        hash_in_assets(self.assets@, h)
    }

    pub open spec fn has_asset_id(self, id: u64) -> bool {
        id_in_assets(self.assets@, id)
    }

    pub open spec fn has_case_id(self, id: u64) -> bool {
        id_in_cases(self.cases@, id)
    }

    pub open spec fn spec_code_exists(self, code: Seq<char>) -> bool {
        code_in_cases(self.cases@, code)
    }

    pub open spec fn has_object(self, path: Seq<char>) -> bool {
        path_in_objects(self.objects@, path)
    }

    pub open spec fn has_link(self, case_id: u64, asset_id: u64) -> bool {
        pair_in_links(self.links@, case_id, asset_id)
    }

    /// The store's invariant: uniqueness of fingerprints, codes, ids and
    /// link pairs; links point at existing rows; every asset row has its
    /// uploaded object.
    pub open spec fn wf(self) -> bool {
        &&& forall|i: int, j: int|
            0 <= i < j < self.assets@.len() ==> (#[trigger] self.assets@[i]).file_hash@ != (
            #[trigger] self.assets@[j]).file_hash@
        &&& forall|i: int, j: int|
            0 <= i < j < self.assets@.len() ==> (#[trigger] self.assets@[i]).id != (
            #[trigger] self.assets@[j]).id
        &&& forall|i: int| 0 <= i < self.assets@.len() ==> (#[trigger] self.assets@[i]).id
            < self.next_id
        &&& forall|i: int, j: int|
            0 <= i < j < self.cases@.len() ==> (#[trigger] self.cases@[i]).share_code@ != (
            #[trigger] self.cases@[j]).share_code@
        &&& forall|i: int, j: int|
            0 <= i < j < self.cases@.len() ==> (#[trigger] self.cases@[i]).id != (
            #[trigger] self.cases@[j]).id
        &&& forall|i: int| 0 <= i < self.cases@.len() ==> (#[trigger] self.cases@[i]).id
            < self.next_id
        &&& forall|i: int, j: int|
            0 <= i < j < self.links@.len() ==> (#[trigger] self.links@[i]) != (
            #[trigger] self.links@[j])
        &&& forall|i: int|
            0 <= i < self.links@.len() ==> self.has_asset_id((#[trigger] self.links@[i]).asset_id)
        &&& forall|i: int|
            0 <= i < self.links@.len() ==> self.has_case_id((#[trigger] self.links@[i]).case_id)
        &&& forall|i: int|
            0 <= i < self.assets@.len() ==> self.has_object(
                (#[trigger] self.assets@[i]).storage_path@,
            )
    }

    /// An empty store.
    pub fn new() -> (r: Store)
        ensures
            r.wf(),
            r.assets@.len() == 0,
            r.cases@.len() == 0,
            r.links@.len() == 0,
            r.objects@.len() == 0,
            r.next_id == 0,
    {
        Store {
            assets: Vec::new(),
            cases: Vec::new(),
            links: Vec::new(),
            objects: Vec::new(),
            next_id: 0,
        }
    }

    /// Pure lookup of an asset by fingerprint; no side effect.
    pub fn find_by_hash(&self, hash: &str) -> (r: Option<u64>)
        ensures
            match r {
                Some(id) => exists|k: int|
                    0 <= k < self.assets@.len() && (#[trigger] self.assets@[k]).file_hash@ == hash@
                        && self.assets@[k].id == id,
                None => !self.has_asset_hash(hash@),
            },
    {
        let mut k: usize = 0;
        while k < self.assets.len()
            invariant
                k <= self.assets@.len(),
                forall|i: int| 0 <= i < k ==> (#[trigger] self.assets@[i]).file_hash@ != hash@,
            decreases self.assets@.len() - k,
        {
            if str_equal(self.assets[k].file_hash.as_str(), hash) {
                return Some(self.assets[k].id);
            }
            k = k + 1;
        }
        None
    }

    /// Whether a case already carries `code`.
    pub fn code_exists(&self, code: &str) -> (r: bool)
        ensures
            r == self.spec_code_exists(code@),
    {
        let mut k: usize = 0;
        while k < self.cases.len()
            invariant
                k <= self.cases@.len(),
                forall|i: int| 0 <= i < k ==> (#[trigger] self.cases@[i]).share_code@ != code@,
            decreases self.cases@.len() - k,
        {
            if str_equal(self.cases[k].share_code.as_str(), code) {
                return true;
            }
            k = k + 1;
        }
        false
    }

    /// The index of the case carrying `code`.
    pub fn find_case_index(&self, code: &str) -> (r: Option<usize>)
        ensures
            match r {
                Some(k) => 0 <= k < self.cases@.len() && self.cases@[k as int].share_code@ == code@,
                None => !self.spec_code_exists(code@),
            },
    {
        let mut k: usize = 0;
        while k < self.cases.len()
            invariant
                k <= self.cases@.len(),
                forall|i: int| 0 <= i < k ==> (#[trigger] self.cases@[i]).share_code@ != code@,
            decreases self.cases@.len() - k,
        {
            if str_equal(self.cases[k].share_code.as_str(), code) {
                return Some(k);
            }
            k = k + 1;
        }
        None
    }

    /// The index of the asset row with id `id`.
    pub fn find_asset_index_by_id(&self, id: u64) -> (r: Option<usize>)
        ensures
            match r {
                Some(k) => 0 <= k < self.assets@.len() && self.assets@[k as int].id == id,
                None => !self.has_asset_id(id),
            },
    {
        let mut k: usize = 0;
        while k < self.assets.len()
            invariant
                k <= self.assets@.len(),
                forall|i: int| 0 <= i < k ==> (#[trigger] self.assets@[i]).id != id,
            decreases self.assets@.len() - k,
        {
            if self.assets[k].id == id {
                return Some(k);
            }
            k = k + 1;
        }
        None
    }

    /// Registers a file's content: sniffs and checks the type, fingerprints
    /// the bytes, and either returns the existing asset row's id untouched,
    /// or uploads the object and inserts a new row. Identical bytes never
    /// produce two rows.
    pub fn resolve_or_create(&mut self, bytes: &Vec<u8>) -> (r: Result<u64, ShareError>)
        requires
            old(self).wf(),
            old(self).next_id < u64::MAX,
        ensures
            final(self).wf(),
            final(self).cases == old(self).cases,
            final(self).links == old(self).links,
            final(self).next_id >= old(self).next_id,
            !spec_file_accepted(bytes@) ==> r == Err::<u64, ShareError>(
                ShareError::UnsupportedContent,
            ) && *final(self) == *old(self),
            spec_file_accepted(bytes@) && old(self).has_asset_hash(spec_content_hash(bytes@))
                ==> *final(self) == *old(self),
            spec_file_accepted(bytes@) ==> r is Ok,
            spec_file_accepted(bytes@) ==> exists|k: int|
                0 <= k < final(self).assets@.len()
                    && (#[trigger] final(self).assets@[k]).file_hash@ == spec_content_hash(bytes@)
                    && final(self).assets@[k].id == r->Ok_0,
            spec_file_accepted(bytes@) && !old(self).has_asset_hash(spec_content_hash(bytes@))
                ==> {
                &&& final(self).assets@.len() == old(self).assets@.len() + 1
                &&& final(self).assets@.last().id == old(self).next_id
                &&& final(self).assets@.last().file_hash@ == spec_content_hash(bytes@)
                &&& final(self).assets@.last().storage_path@ == spec_storage_path(
                    spec_content_hash(bytes@),
                )
                &&& final(self).assets@.last().mime_type@ == spec_accepted_mime(bytes@)
                &&& final(self).assets@.last().size_bytes == bytes@.len()
                &&& final(self).objects@.len() == old(self).objects@.len() + 1
                &&& final(self).objects@.last()@ == spec_storage_path(spec_content_hash(bytes@))
                &&& final(self).next_id == old(self).next_id + 1
                &&& r == Ok::<u64, ShareError>(old(self).next_id)
            },
            final(self).assets@.len() >= old(self).assets@.len(),
            final(self).assets@.take(old(self).assets@.len() as int) == old(self).assets@,
            final(self).objects@.take(old(self).objects@.len() as int) == old(self).objects@,
            final(self).assets@.len() - old(self).assets@.len() <= 1,
            final(self).objects@.len() - old(self).objects@.len() == final(self).assets@.len()
                - old(self).assets@.len(),
    {
        let mime = match sniff_mime(bytes) {
            Some(m) => m,
            None => {
                assert(self.assets@.take(self.assets@.len() as int) =~= self.assets@);
                assert(self.objects@.take(self.objects@.len() as int) =~= self.objects@);
                return Err(ShareError::UnsupportedContent);
            },
        };
        if !is_allowed_mime(mime.as_str()) {
            assert(self.assets@.take(self.assets@.len() as int) =~= self.assets@);
            assert(self.objects@.take(self.objects@.len() as int) =~= self.objects@);
            return Err(ShareError::UnsupportedContent);
        }
        let hash = content_hash(bytes);
        match self.find_by_hash(hash.as_str()) {
            Some(id) => {
                proof {
                    assert(self.assets@.take(self.assets@.len() as int) =~= self.assets@);
                    assert(self.objects@.take(self.objects@.len() as int) =~= self.objects@);
                    let k = choose|k: int|
                        0 <= k < self.assets@.len() && (#[trigger] self.assets@[k]).file_hash@
                            == hash@ && self.assets@[k].id == id;
                    assert(self.assets@[k].file_hash@ == spec_content_hash(bytes@));
                }
                Ok(id)
            },
            None => {
                let path = storage_path_of(hash.as_str());
                let id = self.next_id;
                self.objects.push(path.clone());
                self.assets.push(
                    AssetRow {
                        id,
                        file_hash: hash,
                        storage_path: path,
                        mime_type: mime,
                        size_bytes: bytes.len() as u64,
                    },
                );
                self.next_id = id + 1;
                proof {
                    assert(self.assets@.take(old(self).assets@.len() as int) =~= old(self).assets@);
                    assert(self.objects@.take(old(self).objects@.len() as int) =~= old(self).objects@);
                    let n = self.assets@.len() - 1;
                    assert(self.assets@[n].file_hash@ == spec_content_hash(bytes@)
                        && self.assets@[n].id == id);
                    assert forall|i: int, j: int|
                        0 <= i < j < self.assets@.len() implies (
                    #[trigger] self.assets@[i]).file_hash@ != (
                    #[trigger] self.assets@[j]).file_hash@ by {
                        if j == n {
                            assert(!old(self).has_asset_hash(hash@));
                            assert(old(self).assets@[i].file_hash@ != hash@);
                        }
                    }
                    assert forall|i: int, j: int|
                        0 <= i < j < self.assets@.len() implies (#[trigger] self.assets@[i]).id
                        != (#[trigger] self.assets@[j]).id by {
                        if j == n {
                            assert(old(self).assets@[i].id < old(self).next_id);
                        }
                    }
                    assert forall|i: int|
                        0 <= i < self.links@.len() implies self.has_asset_id(
                        (#[trigger] self.links@[i]).asset_id,
                    ) by {
                        assert(old(self).has_asset_id(old(self).links@[i].asset_id));
                        let k = choose|k: int|
                            0 <= k < old(self).assets@.len()
                                && (#[trigger] old(self).assets@[k]).id
                                == old(self).links@[i].asset_id;
                        assert(self.assets@[k].id == self.links@[i].asset_id);
                    }
                    assert forall|i: int| 0 <= i < self.assets@.len() implies self.has_object(
                        (#[trigger] self.assets@[i]).storage_path@,
                    ) by {
                        if i < old(self).assets@.len() {
                            let k = choose|k: int|
                                0 <= k < old(self).objects@.len()
                                    && (#[trigger] old(self).objects@[k])@
                                    == old(self).assets@[i].storage_path@;
                            assert((self.objects@[k])@ == self.assets@[i].storage_path@);
                        } else {
                            let k = self.objects@.len() - 1;
                            assert((self.objects@[k])@ == self.assets@[i].storage_path@);
                        }
                    }
                }
                Ok(id)
            },
        }
    }

    /// Inserts the case row and returns its id. The code must be fresh.
    pub fn insert_case(&mut self, share_code: String, data: JsonValue, expires_at: i64) -> (r: u64)
        requires
            old(self).wf(),
            !old(self).spec_code_exists(share_code@),
            old(self).next_id < u64::MAX,
        ensures
            final(self).wf(),
            final(self).assets == old(self).assets,
            final(self).links == old(self).links,
            final(self).objects == old(self).objects,
            final(self).cases@.len() == old(self).cases@.len() + 1,
            final(self).cases@.take(old(self).cases@.len() as int) == old(self).cases@,
            final(self).cases@.last().id == r,
            r == old(self).next_id,
            final(self).cases@.last().share_code == share_code,
            final(self).cases@.last().data == data,
            final(self).cases@.last().expires_at == expires_at,
            final(self).next_id == old(self).next_id + 1,
            final(self).has_case_id(r),
    {
        let id = self.next_id;
        self.cases.push(CaseRow { id, share_code, data, expires_at });
        self.next_id = id + 1;
        proof {
            assert(self.cases@.take(old(self).cases@.len() as int) =~= old(self).cases@);
            let n = self.cases@.len() - 1;
            assert(0 <= n < self.cases@.len() && self.cases@[n].id == id);
            assert forall|i: int, j: int|
                0 <= i < j < self.cases@.len() implies (#[trigger] self.cases@[i]).share_code@
                != (#[trigger] self.cases@[j]).share_code@ by {
                if j == n {
                    assert(!(old(self).cases@[i].share_code@ == self.cases@[n].share_code@));
                }
            }
            assert forall|i: int, j: int|
                0 <= i < j < self.cases@.len() implies (#[trigger] self.cases@[i]).id != (
            #[trigger] self.cases@[j]).id by {
                if j == n {
                    assert(old(self).cases@[i].id < old(self).next_id);
                }
            }
            assert forall|i: int|
                0 <= i < self.links@.len() implies self.has_case_id(
                (#[trigger] self.links@[i]).case_id,
            ) by {
                assert(old(self).has_case_id(old(self).links@[i].case_id));
                let k = choose|k: int|
                    0 <= k < old(self).cases@.len() && (#[trigger] old(self).cases@[k]).id
                        == old(self).links@[i].case_id;
                assert(self.cases@[k].id == self.links@[i].case_id);
            }
            lemma_assets_facts_preserved(*old(self), *self);
            assert forall|i: int|
                0 <= i < self.links@.len() implies self.has_asset_id(
                (#[trigger] self.links@[i]).asset_id,
            ) by {
                assert(old(self).has_asset_id(old(self).links@[i].asset_id));
            }
            assert forall|i: int|
                0 <= i < self.assets@.len() implies self.has_object(
                (#[trigger] self.assets@[i]).storage_path@,
            ) by {
                assert(old(self).has_object(old(self).assets@[i].storage_path@));
            }
        }
        id
    }

    /// Whether the pair is already linked.
    pub fn link_present(&self, case_id: u64, asset_id: u64) -> (r: bool)
        ensures
            r == self.has_link(case_id, asset_id),
    {
        let mut k: usize = 0;
        while k < self.links.len()
            invariant
                k <= self.links@.len(),
                forall|i: int|
                    0 <= i < k ==> !((#[trigger] self.links@[i]).case_id == case_id
                        && self.links@[i].asset_id == asset_id),
            decreases self.links@.len() - k,
        {
            if self.links[k].case_id == case_id && self.links[k].asset_id == asset_id {
                return true;
            }
            k = k + 1;
        }
        false
    }

    /// Links an asset to a case; a duplicate pair is a no-op.
    pub fn insert_link(&mut self, case_id: u64, asset_id: u64)
        requires
            old(self).wf(),
            old(self).has_case_id(case_id),
            old(self).has_asset_id(asset_id),
        ensures
            final(self).wf(),
            final(self).assets == old(self).assets,
            final(self).cases == old(self).cases,
            final(self).objects == old(self).objects,
            final(self).next_id == old(self).next_id,
            old(self).has_link(case_id, asset_id) ==> final(self).links == old(self).links,
            !old(self).has_link(case_id, asset_id) ==> final(self).links@
                == old(self).links@.push(LinkRow { case_id, asset_id }),
            final(self).has_link(case_id, asset_id),
    {
        if self.link_present(case_id, asset_id) {
            return ;
        }
        self.links.push(LinkRow { case_id, asset_id });
        proof {
            let n = self.links@.len() - 1;
            assert(self.links@[n].case_id == case_id && self.links@[n].asset_id == asset_id);
            assert forall|i: int, j: int|
                0 <= i < j < self.links@.len() implies (#[trigger] self.links@[i]) != (
            #[trigger] self.links@[j]) by {
                if j == n {
                    assert(!(old(self).links@[i].case_id == case_id
                        && old(self).links@[i].asset_id == asset_id));
                }
            }
            lemma_assets_facts_preserved(*old(self), *self);
            lemma_case_ids_preserved(*old(self), *self);
            assert forall|i: int|
                0 <= i < self.links@.len() implies self.has_asset_id(
                (#[trigger] self.links@[i]).asset_id,
            ) by {
                if i < n {
                    assert(old(self).has_asset_id(old(self).links@[i].asset_id));
                } else {
                    assert(old(self).has_asset_id(asset_id));
                }
            }
            assert forall|i: int|
                0 <= i < self.links@.len() implies self.has_case_id(
                (#[trigger] self.links@[i]).case_id,
            ) by {
                if i < n {
                    assert(old(self).has_case_id(old(self).links@[i].case_id));
                } else {
                    assert(old(self).has_case_id(case_id));
                }
            }
        }
    }
}

/// When the asset and object columns are untouched, the facts that `wf`
/// states of them carry over to the new store value.
proof fn lemma_assets_facts_preserved(pre: Store, post: Store)
    requires
        post.assets == pre.assets,
        post.objects == pre.objects,
    ensures
        forall|id: u64| pre.has_asset_id(id) ==> post.has_asset_id(id),
        forall|p: Seq<char>| pre.has_object(p) ==> post.has_object(p),
        forall|i: int|
            0 <= i < pre.assets@.len() && pre.has_object((#[trigger] pre.assets@[i]).storage_path@)
                ==> post.has_object(post.assets@[i].storage_path@),
{
    assert forall|id: u64| pre.has_asset_id(id) implies post.has_asset_id(id) by {
        let k = choose|k: int|
            0 <= k < pre.assets@.len() && (#[trigger] pre.assets@[k]).id == id;
        assert(0 <= k < post.assets@.len() && post.assets@[k].id == id);
    }
    assert forall|p: Seq<char>| pre.has_object(p) implies post.has_object(p) by {
        let k = choose|k: int|
            0 <= k < pre.objects@.len() && (#[trigger] pre.objects@[k])@ == p;
        assert(0 <= k < post.objects@.len() && (post.objects@[k])@ == p);
    }
}

/// When the case column is untouched, `has_case_id` carries over.
proof fn lemma_case_ids_preserved(pre: Store, post: Store)
    requires
        post.cases == pre.cases,
    ensures
        forall|id: u64| pre.has_case_id(id) ==> post.has_case_id(id),
{
    assert forall|id: u64| pre.has_case_id(id) implies post.has_case_id(id) by {
        let k = choose|k: int| 0 <= k < pre.cases@.len() && (#[trigger] pre.cases@[k]).id == id;
        assert(0 <= k < post.cases@.len() && post.cases@[k].id == id);
    }
}

} // verus!
