//! Laws of the share and import services that relate several calls: content
//! addressing deduplicates, references link without re-upload, unknown
//! references and rejected files are ignored, and a missing document fails
//! the request while keeping the uploads.

use vstd::prelude::*;
use crate::errors::ShareError;
use crate::share::{
    has_case_data, last_case_data, share_post, some_candidate_fresh, spec_uploaded_hash, Part,
    ShareSuccess,
};
use crate::store::{hash_in_assets, Store};
use crate::json::extract_refs;

verus! {

/// Law: sharing the same bytes in two separate requests yields exactly one
/// asset row — the second request creates none for that fingerprint, and the
/// store never holds two rows with it — and both requests' cases link to it.
pub proof fn lemma_same_bytes_shared_twice(
    s0: Store,
    s1: Store,
    s2: Store,
    parts1: Seq<Part>,
    parts2: Seq<Part>,
    now1: i64,
    now2: i64,
    cands1: Seq<String>,
    cands2: Seq<String>,
    r1: ShareSuccess,
    r2: ShareSuccess,
    h: Seq<char>,
)
    requires
        share_post(s0, s1, parts1, now1, cands1, Ok(r1)),
        share_post(s1, s2, parts2, now2, cands2, Ok(r2)),
        spec_uploaded_hash(parts1, h),
        spec_uploaded_hash(parts2, h),
    ensures
        forall|j: int|
            s1.assets@.len() <= j < s2.assets@.len() ==> (#[trigger] s2.assets@[j]).file_hash@
                != h,
        forall|j1: int, j2: int|
            0 <= j1 < j2 < s2.assets@.len() ==> !((#[trigger] s2.assets@[j1]).file_hash@ == h && (
            #[trigger] s2.assets@[j2]).file_hash@ == h),
        exists|j: int|
            0 <= j < s2.assets@.len() && (#[trigger] s2.assets@[j]).file_hash@ == h && s2.has_link(
                r1.case_id,
                s2.assets@[j].id,
            ) && s2.has_link(r2.case_id, s2.assets@[j].id),
{
    assert(hash_in_assets(s1.assets@, h));
    let j1 = choose|j: int|
        0 <= j < s1.assets@.len() && (#[trigger] s1.assets@[j]).file_hash@ == h;
    let aid = s1.assets@[j1].id;
    assert(s2.assets@[j1] == s1.assets@[j1]);
    assert forall|j: int|
        s1.assets@.len() <= j < s2.assets@.len() implies (#[trigger] s2.assets@[j]).file_hash@
        != h by {
        if s2.assets@[j].file_hash@ == h {
            assert(!hash_in_assets(s1.assets@, h));
        }
    }
    assert(s1.has_link(r1.case_id, aid)) by {
        assert(crate::share::spec_resolved(
            s1.assets@,
            parts1,
            last_case_data(parts1)->Some_0,
            aid,
        )) by {
            assert(s1.assets@[j1].id == aid && spec_uploaded_hash(
                parts1,
                s1.assets@[j1].file_hash@,
            ));
        }
    }
    assert(s2.has_link(r1.case_id, aid)) by {
        let k = choose|k: int|
            0 <= k < s1.links@.len() && (#[trigger] s1.links@[k]).case_id == r1.case_id
                && s1.links@[k].asset_id == aid;
        assert(s2.links@[k].case_id == r1.case_id && s2.links@[k].asset_id == aid);
    }
    assert(s2.has_link(r2.case_id, aid)) by {
        assert(crate::share::spec_resolved(
            s2.assets@,
            parts2,
            last_case_data(parts2)->Some_0,
            aid,
        )) by {
            assert(s2.assets@[j1].id == aid && spec_uploaded_hash(
                parts2,
                s2.assets@[j1].file_hash@,
            ));
        }
    }
    assert(s2.assets@[j1].file_hash@ == h && s2.has_link(r1.case_id, s2.assets@[j1].id)
        && s2.has_link(r2.case_id, s2.assets@[j1].id));
}

/// Law: a document reference `asset://h` to an existing asset links that
/// asset to the new case; and when the request carries no accepted file at
/// all, no bytes are uploaded — the asset and object columns are untouched.
pub proof fn lemma_reference_links_existing(
    pre: Store,
    post: Store,
    parts: Seq<Part>,
    now: i64,
    cands: Seq<String>,
    s: ShareSuccess,
    j: int,
)
    requires
        share_post(pre, post, parts, now, cands, Ok(s)),
        0 <= j < pre.assets@.len(),
        extract_refs(last_case_data(parts)->Some_0).contains(pre.assets@[j].file_hash@),
        forall|i: int|
            0 <= i < parts.len() ==> !((#[trigger] parts[i]) matches Part::File(b)
                && crate::mime::spec_file_accepted(b@)),
    ensures
        post.has_link(s.case_id, pre.assets@[j].id),
        post.assets@ == pre.assets@,
        post.objects@ == pre.objects@,
{
    assert(post.assets@.len() == pre.assets@.len()) by {
        if post.assets@.len() > pre.assets@.len() {
            let w = pre.assets@.len() as int;
            assert(crate::share::new_asset_from_part(post.assets@[w], pre, parts));
        }
    }
    assert(post.assets@ =~= pre.assets@);
    assert(post.objects@ =~= pre.objects@);
    assert(post.has_link(s.case_id, pre.assets@[j].id)) by {
        assert(crate::share::spec_resolved(
            post.assets@,
            parts,
            last_case_data(parts)->Some_0,
            pre.assets@[j].id,
        )) by {
            assert(post.assets@[j].id == pre.assets@[j].id && extract_refs(
                last_case_data(parts)->Some_0,
            ).contains(post.assets@[j].file_hash@));
        }
    }
}

/// Law: a reference to a fingerprint without an asset row is ignored — the
/// request still succeeds whenever a document is present and some candidate
/// code is fresh, whatever the document references.
pub proof fn lemma_unknown_reference_ignored(
    pre: Store,
    post: Store,
    parts: Seq<Part>,
    now: i64,
    cands: Seq<String>,
    r: Result<ShareSuccess, ShareError>,
)
    requires
        share_post(pre, post, parts, now, cands, r),
        has_case_data(parts),
        some_candidate_fresh(pre.cases@, cands),
    ensures
        r is Ok,
{
}

/// Law: a fingerprint that no accepted file of the request carries gains no
/// asset row — a rejected file is skipped, not stored — and the request
/// still succeeds when a document is present and a candidate code is fresh.
pub proof fn lemma_rejected_file_skipped(
    pre: Store,
    post: Store,
    parts: Seq<Part>,
    now: i64,
    cands: Seq<String>,
    r: Result<ShareSuccess, ShareError>,
    h: Seq<char>,
)
    requires
        share_post(pre, post, parts, now, cands, r),
        !spec_uploaded_hash(parts, h),
        !hash_in_assets(pre.assets@, h),
        has_case_data(parts),
        some_candidate_fresh(pre.cases@, cands),
    ensures
        !hash_in_assets(post.assets@, h),
        r is Ok,
{
    assert forall|j: int|
        0 <= j < post.assets@.len() implies (#[trigger] post.assets@[j]).file_hash@ != h by {
        if j < pre.assets@.len() {
            assert(post.assets@[j] == pre.assets@[j]);
            if post.assets@[j].file_hash@ == h {
                assert(hash_in_assets(pre.assets@, h));
            }
        } else {
            assert(crate::share::new_asset_from_part(post.assets@[j], pre, parts));
            if post.assets@[j].file_hash@ == h {
                assert(spec_uploaded_hash(parts, h));
            }
        }
    }
    if hash_in_assets(post.assets@, h) {
        let w = choose|w: int|
            0 <= w < post.assets@.len() && (#[trigger] post.assets@[w]).file_hash@ == h;
    }
}

/// Law: without a `case_data` part the request fails with `MissingCaseData`
/// even when file parts were uploaded — and what they uploaded remains
/// registered, while no case and no link is created.
pub proof fn lemma_missing_case_data_keeps_uploads(
    pre: Store,
    post: Store,
    parts: Seq<Part>,
    now: i64,
    cands: Seq<String>,
    r: Result<ShareSuccess, ShareError>,
)
    requires
        share_post(pre, post, parts, now, cands, r),
        !has_case_data(parts),
    ensures
        r == Err::<ShareSuccess, ShareError>(ShareError::MissingCaseData),
        forall|h: Seq<char>| #[trigger]
            spec_uploaded_hash(parts, h) ==> hash_in_assets(post.assets@, h),
        post.cases == pre.cases,
        post.links == pre.links,
{
}

} // verus!
