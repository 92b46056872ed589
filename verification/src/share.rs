//! The share service: drains the parts of a share request, registers every
//! accepted file with the asset store, resolves the asset references inside
//! the case document, allocates a unique share code, persists the case and
//! links every resolved asset to it.

use vstd::prelude::*;
use crate::codes::{generate_code_candidates, spec_valid_code};
use crate::errors::ShareError;
use crate::hashing::{spec_content_hash, spec_storage_path};
use crate::json::{extract_existing_hashes, extract_refs, JsonValue};
use crate::mime::{spec_accepted_mime, spec_file_accepted};
use crate::store::{code_in_cases, hash_in_assets, id_in_assets, id_in_cases, AssetRow, CaseRow, Store};
use crate::SHARE_LIFETIME_SECONDS;

verus! {

/// One part of a share request's multipart body, in arrival order.
pub enum Part {
    /// The `case_data` document, already parsed; the last one wins.
    CaseData(JsonValue),
    /// One `files[]` binary part.
    File(Vec<u8>),
}

/// The success result of a share request.
pub struct ShareSuccess {
    pub share_code: String,
    pub expires_at: i64,
    pub case_id: u64,
}

/// The document of the request: the last `case_data` part, if any.
pub open spec fn last_case_data(parts: Seq<Part>) -> Option<JsonValue>
    decreases parts.len(),
{
    if parts.len() == 0 {
        None
    } else {
        match parts.last() {
            Part::CaseData(d) => Some(d),
            _ => last_case_data(parts.drop_last()),
        }
    }
}

pub open spec fn has_case_data(parts: Seq<Part>) -> bool {
    last_case_data(parts) is Some
}

/// Whether some accepted file part of the request has fingerprint `h`.
pub open spec fn spec_uploaded_hash(parts: Seq<Part>, h: Seq<char>) -> bool {
    exists|i: int|
        0 <= i < parts.len() && ((#[trigger] parts[i]) matches Part::File(b)
            && spec_file_accepted(b@) && spec_content_hash(b@) == h)
}

/// A new asset row answers an accepted file part whose fingerprint had no
/// row yet, and carries the path, type and size derived from that file.
pub open spec fn new_asset_from_part(row: AssetRow, pre: Store, parts: Seq<Part>) -> bool {
    &&& !hash_in_assets(pre.assets@, row.file_hash@)
    &&& row.storage_path@ == spec_storage_path(row.file_hash@)
    &&& exists|i: int|
        0 <= i < parts.len() && ((#[trigger] parts[i]) matches Part::File(b)
            && spec_file_accepted(b@) && spec_content_hash(b@) == row.file_hash@
            && row.mime_type@ == spec_accepted_mime(b@) && row.size_bytes == b@.len())
}

/// What the file parts of a request do to the asset and object columns:
/// rows and objects only grow, every accepted fingerprint has a row
/// afterwards, and every new row answers an accepted file and was uploaded.
pub open spec fn assets_effect(pre: Store, post: Store, parts: Seq<Part>) -> bool {
    &&& pre.assets@.len() <= post.assets@.len()
    &&& post.assets@.take(pre.assets@.len() as int) == pre.assets@
    &&& forall|h: Seq<char>| #[trigger]
        spec_uploaded_hash(parts, h) ==> hash_in_assets(post.assets@, h)
    &&& forall|j: int|
        pre.assets@.len() <= j < post.assets@.len() ==> new_asset_from_part(
            #[trigger] post.assets@[j],
            pre,
            parts,
        )
    &&& post.objects@.len() - pre.objects@.len() == post.assets@.len() - pre.assets@.len()
    &&& post.objects@.take(pre.objects@.len() as int) == pre.objects@
    &&& forall|k: int|
        0 <= k < post.assets@.len() - pre.assets@.len() ==> (#[trigger] post.objects@[
            pre.objects@.len() + k
        ])@ == post.assets@[pre.assets@.len() + k].storage_path@
}

/// Whether asset id `aid` was uploaded by an accepted file part.
pub open spec fn upload_resolved(assets: Seq<AssetRow>, parts: Seq<Part>, aid: u64) -> bool {
    exists|j: int|
        0 <= j < assets.len() && (#[trigger] assets[j]).id == aid && spec_uploaded_hash(
            parts,
            assets[j].file_hash@,
        )
}

/// Whether asset id `aid` is referenced from `refs` by fingerprint.
pub open spec fn ref_resolved(assets: Seq<AssetRow>, refs: Seq<Seq<char>>, aid: u64) -> bool {
    exists|j: int|
        0 <= j < assets.len() && (#[trigger] assets[j]).id == aid && refs.contains(
            assets[j].file_hash@,
        )
}

/// Whether asset id `aid` is resolved for the request: uploaded by a file
/// part, or referenced from the document and present in the store.
pub open spec fn spec_resolved(
    assets: Seq<AssetRow>,
    parts: Seq<Part>,
    data: JsonValue,
    aid: u64,
) -> bool {
    upload_resolved(assets, parts, aid) || ref_resolved(assets, extract_refs(data), aid)
}

/// The links created for the new case: links only grow, every new link
/// belongs to the new case and names a resolved asset, and every resolved
/// asset is linked.
pub open spec fn links_effect(
    pre: Store,
    post: Store,
    parts: Seq<Part>,
    data: JsonValue,
    case_id: u64,
) -> bool {
    &&& pre.links@.len() <= post.links@.len()
    &&& post.links@.take(pre.links@.len() as int) == pre.links@
    &&& forall|k: int|
        pre.links@.len() <= k < post.links@.len() ==> (#[trigger] post.links@[k]).case_id
            == case_id && spec_resolved(post.assets@, parts, data, post.links@[k].asset_id)
    &&& forall|aid: u64| #[trigger]
        spec_resolved(post.assets@, parts, data, aid) ==> post.has_link(case_id, aid)
}

/// The case row created for the request.
pub open spec fn case_created(
    pre: Store,
    post: Store,
    parts: Seq<Part>,
    now: i64,
    r: ShareSuccess,
) -> bool {
    &&& post.cases@.len() == pre.cases@.len() + 1
    &&& post.cases@.take(pre.cases@.len() as int) == pre.cases@
    &&& post.cases@.last().id == r.case_id
    &&& post.cases@.last().share_code@ == r.share_code@
    &&& Some(post.cases@.last().data) == last_case_data(parts)
    &&& post.cases@.last().expires_at == now + SHARE_LIFETIME_SECONDS
    &&& r.expires_at == now + SHARE_LIFETIME_SECONDS
}

/// All that one share call promises, gathered so that laws about several
/// calls can be stated and proved from it.
pub open spec fn share_post(
    pre: Store,
    post: Store,
    parts: Seq<Part>,
    now: i64,
    cands: Seq<String>,
    r: Result<ShareSuccess, ShareError>,
) -> bool {
    &&& post.wf()
    &&& assets_effect(pre, post, parts)
    &&& ((r == Err::<ShareSuccess, ShareError>(ShareError::MissingCaseData)) <==> !has_case_data(
        parts,
    ))
    &&& ((r is Ok) <==> (has_case_data(parts) && some_candidate_fresh(pre.cases@, cands)))
    &&& (r is Err ==> post.cases == pre.cases && post.links == pre.links)
    &&& (r matches Ok(s) ==> case_created(pre, post, parts, now, s) && links_effect(
        pre,
        post,
        parts,
        last_case_data(parts)->Some_0,
        s.case_id,
    ))
}

/// How many of the candidate codes one request may try.
pub open spec fn attempt_limit(cands: Seq<String>) -> int {
    if cands.len() < 10 {
        cands.len() as int
    } else {
        10
    }
}

/// Whether some candidate within the attempt limit is not taken.
pub open spec fn some_candidate_fresh(cases: Seq<CaseRow>, cands: Seq<String>) -> bool {
    exists|i: int|
        0 <= i < attempt_limit(cands) && !code_in_cases(cases, (#[trigger] cands[i])@)
}

/// Candidate `i` is the first within the attempt limit that is not taken.
pub open spec fn is_first_fresh(cases: Seq<CaseRow>, cands: Seq<String>, i: int) -> bool {
    &&& 0 <= i < attempt_limit(cands)
    &&& !code_in_cases(cases, cands[i]@)
    &&& forall|j: int| 0 <= j < i ==> code_in_cases(cases, (#[trigger] cands[j])@)
}

/// Tries the candidate codes in order, at most ten of them, against the
/// store, and returns the first that no case carries.
pub fn choose_unique_code(store: &Store, candidates: &Vec<String>) -> (r: Option<String>)
    ensures
        (r is Some) <==> some_candidate_fresh(store.cases@, candidates@),
        r matches Some(c) ==> exists|i: int|
            is_first_fresh(store.cases@, candidates@, i) && c@ == (#[trigger] candidates@[i])@,
{
    let limit: usize = if candidates.len() < 10 {
        candidates.len()
    } else {
        10
    };
    let mut i: usize = 0;
    while i < limit
        invariant
            limit as int == attempt_limit(candidates@),
            limit <= candidates@.len(),
            i <= limit,
            forall|j: int| 0 <= j < i ==> code_in_cases(store.cases@, (#[trigger] candidates@[j])@),
        decreases limit - i,
    {
        if !store.code_exists(candidates[i].as_str()) {
            let c = candidates[i].clone();
            proof {
                assert(is_first_fresh(store.cases@, candidates@, i as int));
            }
            return Some(c);
        }
        i = i + 1;
    }
    None
}

/// Generates a share code that no stored case carries: up to ten random
/// candidates, each checked against the store. With ten candidates drawn
/// from 36^6 combinations, exhaustion is astronomically unlikely, but it is
/// reported, never panicked on.
pub fn generate_unique_share_code(store: &Store) -> (r: Result<String, ShareError>)
    ensures
        r matches Ok(c) ==> spec_valid_code(c@) && !store.spec_code_exists(c@),
        r matches Err(e) ==> e == ShareError::CodeSpaceExhausted,
{
    let candidates = generate_code_candidates();
    match choose_unique_code(store, &candidates) {
        Some(c) => {
            proof {
                let i = choose|i: int|
                    is_first_fresh(store.cases@, candidates@, i) && c@ == (
                    #[trigger] candidates@[i])@;
                assert(spec_valid_code(candidates@[i]@));
            }
            Ok(c)
        },
        None => Err(ShareError::CodeSpaceExhausted),
    }
}

/// Taking one more part into view changes the uploaded fingerprints by that
/// part alone.
proof fn lemma_uploaded_take_step(parts: Seq<Part>, i: int)
    requires
        0 <= i < parts.len(),
    ensures
        forall|h: Seq<char>| #[trigger]
            spec_uploaded_hash(parts.take(i + 1), h) <==> (spec_uploaded_hash(parts.take(i), h) || (
            parts[i] matches Part::File(b) && spec_file_accepted(b@) && spec_content_hash(b@)
                == h)),
{
    assert forall|h: Seq<char>| #[trigger]
        spec_uploaded_hash(parts.take(i + 1), h) implies (spec_uploaded_hash(parts.take(i), h) || (
    parts[i] matches Part::File(b) && spec_file_accepted(b@) && spec_content_hash(b@) == h)) by {
        let j = choose|j: int|
            0 <= j < parts.take(i + 1).len() && ((#[trigger] parts.take(i + 1)[j]) matches Part::File(b)
                && spec_file_accepted(b@) && spec_content_hash(b@) == h);
        if j < i {
            assert(parts.take(i)[j] == parts.take(i + 1)[j]);
            assert(spec_uploaded_hash(parts.take(i), h));
        } else {
            assert(parts.take(i + 1)[j] == parts[i]);
        }
    }
    assert forall|h: Seq<char>|
        (spec_uploaded_hash(parts.take(i), h) || (parts[i] matches Part::File(b)
            && spec_file_accepted(b@) && spec_content_hash(b@) == h)) implies #[trigger]
        spec_uploaded_hash(parts.take(i + 1), h) by {
        if spec_uploaded_hash(parts.take(i), h) {
            let j = choose|j: int|
                0 <= j < parts.take(i).len() && ((#[trigger] parts.take(i)[j]) matches Part::File(b)
                    && spec_file_accepted(b@) && spec_content_hash(b@) == h);
            assert(parts.take(i + 1)[j] == parts.take(i)[j]);
        } else {
            assert(parts.take(i + 1)[i] == parts[i]);
        }
    }
}

fn contains_u64(v: &Vec<u64>, x: u64) -> (r: bool)
    ensures
        r == v@.contains(x),
{
    let mut k: usize = 0;
    while k < v.len()
        invariant
            k <= v@.len(),
            forall|i: int| 0 <= i < k ==> v@[i] != x,
        decreases v@.len() - k,
    {
        if v[k] == x {
            assert(v@[k as int] == x);
            return true;
        }
        k = k + 1;
    }
    false
}

/// Seeing one more part changes nothing when that part is not an accepted
/// file: the asset effect and the resolved ids carry over.
proof fn lemma_effect_extend_nofile(
    pre: Store,
    cur: Store,
    parts: Seq<Part>,
    i: int,
    ids: Seq<u64>,
)
    requires
        0 <= i < parts.len(),
        !(parts[i] matches Part::File(b) && spec_file_accepted(b@)),
        assets_effect(pre, cur, parts.take(i)),
        forall|aid: u64| #[trigger]
            ids.contains(aid) <==> upload_resolved(cur.assets@, parts.take(i), aid),
    ensures
        assets_effect(pre, cur, parts.take(i + 1)),
        forall|aid: u64| #[trigger]
            ids.contains(aid) <==> upload_resolved(cur.assets@, parts.take(i + 1), aid),
{
    lemma_uploaded_take_step(parts, i);
    assert forall|h: Seq<char>| #[trigger]
        spec_uploaded_hash(parts.take(i + 1), h) implies hash_in_assets(cur.assets@, h) by {
        assert(spec_uploaded_hash(parts.take(i), h));
    }
    assert forall|j: int|
        pre.assets@.len() <= j < cur.assets@.len() implies new_asset_from_part(
        #[trigger] cur.assets@[j],
        pre,
        parts.take(i + 1),
    ) by {
        assert(new_asset_from_part(cur.assets@[j], pre, parts.take(i)));
        let t = choose|t: int|
            0 <= t < parts.take(i).len() && ((#[trigger] parts.take(i)[t]) matches Part::File(b)
                && spec_file_accepted(b@) && spec_content_hash(b@) == cur.assets@[j].file_hash@
                && cur.assets@[j].mime_type@ == spec_accepted_mime(b@)
                && cur.assets@[j].size_bytes == b@.len());
        assert(parts.take(i + 1)[t] == parts.take(i)[t]);
    }
    assert forall|aid: u64| #[trigger]
        ids.contains(aid) <==> upload_resolved(cur.assets@, parts.take(i + 1), aid) by {
        if ids.contains(aid) {
            let j = choose|j: int|
                0 <= j < cur.assets@.len() && (#[trigger] cur.assets@[j]).id == aid
                    && spec_uploaded_hash(parts.take(i), cur.assets@[j].file_hash@);
            assert(spec_uploaded_hash(parts.take(i + 1), cur.assets@[j].file_hash@));
        }
        if upload_resolved(cur.assets@, parts.take(i + 1), aid) {
            let j = choose|j: int|
                0 <= j < cur.assets@.len() && (#[trigger] cur.assets@[j]).id == aid
                    && spec_uploaded_hash(parts.take(i + 1), cur.assets@[j].file_hash@);
            assert(spec_uploaded_hash(parts.take(i), cur.assets@[j].file_hash@));
            assert(upload_resolved(cur.assets@, parts.take(i), aid));
        }
    }
}

/// Shares a case: processes the parts in arrival order, registering every
/// accepted file with the store (a rejected file is skipped); fails with
/// `MissingCaseData` when no `case_data` part was given, the uploads kept;
/// otherwise resolves the document's references, picks the first fresh
/// candidate code (at most ten are tried), persists the case and links every
/// resolved asset to it.
#[verifier::rlimit(50)]
pub fn share_case(
    store: &mut Store,
    parts: Vec<Part>,
    now: i64,
    candidates: &Vec<String>,
) -> (r: Result<ShareSuccess, ShareError>)
    requires
        old(store).wf(),
        old(store).next_id + parts@.len() + 1 <= u64::MAX,
        now <= i64::MAX - SHARE_LIFETIME_SECONDS,
    ensures
        final(store).wf(),
        assets_effect(*old(store), *final(store), parts@),
        final(store).next_id >= old(store).next_id,
        (r == Err::<ShareSuccess, ShareError>(ShareError::MissingCaseData)) <==> !has_case_data(
            parts@,
        ),
        (r == Err::<ShareSuccess, ShareError>(ShareError::CodeSpaceExhausted)) <==> (has_case_data(
            parts@,
        ) && !some_candidate_fresh(old(store).cases@, candidates@)),
        (r is Ok) <==> (has_case_data(parts@) && some_candidate_fresh(
            old(store).cases@,
            candidates@,
        )),
        r matches Err(e) ==> (e == ShareError::MissingCaseData || e
            == ShareError::CodeSpaceExhausted),
        r is Err ==> final(store).cases == old(store).cases && final(store).links == old(
            store,
        ).links,
        r matches Ok(s) ==> case_created(*old(store), *final(store), parts@, now, s) && (
        exists|i: int|
            is_first_fresh(old(store).cases@, candidates@, i) && s.share_code@ == (
            #[trigger] candidates@[i])@) && links_effect(
            *old(store),
            *final(store),
            parts@,
            last_case_data(parts@)->Some_0,
            s.case_id,
        ),
        share_post(*old(store), *final(store), parts@, now, candidates@, r),
{
    let mut ps = parts;
    let mut asset_ids: Vec<u64> = Vec::new();
    let mut last_cd: Option<usize> = None;
    let mut i: usize = 0;
    proof {
        assert(parts@.take(0) =~= Seq::<Part>::empty());
        assert(store.assets@.take(store.assets@.len() as int) =~= store.assets@);
        assert(store.objects@.take(store.objects@.len() as int) =~= store.objects@);
    }
    while i < ps.len()
        invariant
            ps@ == parts@,
            i <= parts@.len(),
            store.wf(),
            old(store).wf(),
            old(store).next_id + parts@.len() + 1 <= u64::MAX,
            now <= i64::MAX - SHARE_LIFETIME_SECONDS,
            old(store).next_id <= store.next_id,
            store.next_id <= old(store).next_id + i,
            store.cases == old(store).cases,
            store.links == old(store).links,
            assets_effect(*old(store), *store, parts@.take(i as int)),
            forall|aid: u64| #[trigger]
                asset_ids@.contains(aid) <==> upload_resolved(
                    store.assets@,
                    parts@.take(i as int),
                    aid,
                ),
            match last_cd {
                Some(k) => k < i && last_case_data(parts@.take(i as int)) == Some(
                    parts@[k as int]->CaseData_0,
                ) && parts@[k as int] is CaseData,
                None => last_case_data(parts@.take(i as int)) is None,
            },
        decreases parts@.len() - i,
    {
        proof {
            assert(parts@.take(i + 1).drop_last() =~= parts@.take(i as int));
            assert(parts@.take(i + 1).last() == parts@[i as int]);
        }
        match &ps[i] {
            Part::CaseData(_) => {
                last_cd = Some(i);
                proof {
                    lemma_effect_extend_nofile(
                        *old(store),
                        *store,
                        parts@,
                        i as int,
                        asset_ids@,
                    );
                }
            },
            Part::File(b) => {
                let ghost cur = *store;
                let res = store.resolve_or_create(b);
                proof {
                    lemma_uploaded_take_step(parts@, i as int);
                    assert(store.assets@.take(old(store).assets@.len() as int) =~= old(
                        store,
                    ).assets@);
                    assert(store.objects@.take(old(store).objects@.len() as int) =~= old(
                        store,
                    ).objects@);
                }
                match res {
                    Ok(id) => {
                        let ghost prev_ids = asset_ids@;
                        asset_ids.push(id);
                        proof {
                            let ghost h = spec_content_hash(b@);
                            assert(asset_ids@ == prev_ids.push(id));
                            assert(store.assets@.take(old(store).assets@.len() as int) =~= old(
                                store,
                            ).assets@);
                            assert(store.objects@.take(old(store).objects@.len() as int) =~= old(
                                store,
                            ).objects@);
                            assert forall|k: int|
                                0 <= k < store.assets@.len() - old(store).assets@.len() implies (
                            #[trigger] store.objects@[old(store).objects@.len() + k])@
                                == store.assets@[old(store).assets@.len() + k].storage_path@ by {
                                if old(store).assets@.len() + k < cur.assets@.len() {
                                    assert(cur.objects@[old(store).objects@.len() + k]@
                                        == cur.assets@[old(store).assets@.len()
                                        + k].storage_path@);
                                    assert(store.objects@[old(store).objects@.len() + k]
                                        == cur.objects@[old(store).objects@.len() + k]);
                                    assert(store.assets@[old(store).assets@.len() + k]
                                        == cur.assets@[old(store).assets@.len() + k]);
                                } else {
                                    assert(store.assets@[old(store).assets@.len() + k]
                                        == store.assets@.last());
                                    assert(store.objects@[old(store).objects@.len() + k]
                                        == store.objects@.last());
                                    assert(store.objects@.last()@ == spec_storage_path(h));
                                    assert(store.assets@.last().storage_path@
                                        == spec_storage_path(h));
                                }
                            }
                            let rowk = choose|k: int|
                                0 <= k < store.assets@.len() && (
                                #[trigger] store.assets@[k]).file_hash@ == h
                                    && store.assets@[k].id == id;
                            assert forall|hh: Seq<char>| #[trigger]
                                spec_uploaded_hash(
                                    parts@.take(i + 1),
                                    hh,
                                ) implies hash_in_assets(store.assets@, hh) by {
                                if spec_uploaded_hash(parts@.take(i as int), hh) {
                                    let j = choose|j: int|
                                        0 <= j < cur.assets@.len() && (
                                        #[trigger] cur.assets@[j]).file_hash@ == hh;
                                    assert(store.assets@[j].file_hash@ == hh);
                                } else {
                                    assert(store.assets@[rowk].file_hash@ == hh);
                                }
                            }
                            assert forall|j: int|
                                old(store).assets@.len() <= j
                                    < store.assets@.len() implies new_asset_from_part(
                                #[trigger] store.assets@[j],
                                *old(store),
                                parts@.take(i + 1),
                            ) by {
                                if j < cur.assets@.len() {
                                    assert(cur.assets@[j] == store.assets@[j]);
                                    assert(new_asset_from_part(
                                        cur.assets@[j],
                                        *old(store),
                                        parts@.take(i as int),
                                    ));
                                    let t = choose|t: int|
                                        0 <= t < parts@.take(i as int).len() && ((
                                        #[trigger] parts@.take(i as int)[t]) matches Part::File(bb)
                                            && spec_file_accepted(bb@) && spec_content_hash(bb@)
                                            == cur.assets@[j].file_hash@
                                            && cur.assets@[j].mime_type@ == spec_accepted_mime(bb@)
                                            && cur.assets@[j].size_bytes == bb@.len());
                                    assert(parts@.take(i + 1)[t] == parts@.take(i as int)[t]);
                                } else {
                                    assert(store.assets@[j] == store.assets@.last());
                                    assert(!cur.has_asset_hash(h));
                                    assert(!hash_in_assets(old(store).assets@, h)) by {
                                        if hash_in_assets(old(store).assets@, h) {
                                            let w = choose|w: int|
                                                0 <= w < old(store).assets@.len() && (
                                                #[trigger] old(store).assets@[w]).file_hash@ == h;
                                            assert(cur.assets@[w].file_hash@ == h);
                                        }
                                    }
                                    assert(parts@.take(i + 1)[i as int] == parts@[i as int]);
                                }
                            }
                            assert forall|aid: u64| #[trigger]
                                asset_ids@.contains(aid) implies upload_resolved(
                                store.assets@,
                                parts@.take(i + 1),
                                aid,
                            ) by {
                                if aid == id {
                                    assert(spec_uploaded_hash(parts@.take(i + 1), h));
                                    assert(store.assets@[rowk].id == aid);
                                } else {
                                    assert(prev_ids.contains(aid)) by {
                                        let w = choose|w: int|
                                            0 <= w < asset_ids@.len() && asset_ids@[w] == aid;
                                        assert(w < prev_ids.len());
                                        assert(prev_ids[w] == aid);
                                    }
                                    assert(upload_resolved(
                                        cur.assets@,
                                        parts@.take(i as int),
                                        aid,
                                    ));
                                    let j = choose|j: int|
                                        0 <= j < cur.assets@.len() && (
                                        #[trigger] cur.assets@[j]).id == aid
                                            && spec_uploaded_hash(
                                            parts@.take(i as int),
                                            cur.assets@[j].file_hash@,
                                        );
                                    assert(store.assets@[j].id == aid);
                                    assert(spec_uploaded_hash(
                                        parts@.take(i + 1),
                                        store.assets@[j].file_hash@,
                                    ));
                                }
                            }
                            assert forall|aid: u64|
                                upload_resolved(
                                    store.assets@,
                                    parts@.take(i + 1),
                                    aid,
                                ) implies #[trigger] asset_ids@.contains(aid) by {
                                let j = choose|j: int|
                                    0 <= j < store.assets@.len() && (
                                    #[trigger] store.assets@[j]).id == aid && spec_uploaded_hash(
                                        parts@.take(i + 1),
                                        store.assets@[j].file_hash@,
                                    );
                                let hj = store.assets@[j].file_hash@;
                                if hj == h {
                                    assert(store.assets@[j].id == store.assets@[rowk].id);
                                    assert(aid == id);
                                    assert(asset_ids@.last() == id);
                                } else {
                                    assert(spec_uploaded_hash(parts@.take(i as int), hj));
                                    assert(j < cur.assets@.len()) by {
                                        if j >= cur.assets@.len() {
                                            assert(store.assets@[j].file_hash@ == h);
                                        }
                                    }
                                    assert(cur.assets@[j] == store.assets@[j]);
                                    assert(upload_resolved(
                                        cur.assets@,
                                        parts@.take(i as int),
                                        aid,
                                    ));
                                    assert(prev_ids.contains(aid));
                                    let w = choose|w: int|
                                        0 <= w < prev_ids.len() && prev_ids[w] == aid;
                                    assert(asset_ids@[w] == aid);
                                }
                            }
                        }
                    },
                    Err(_) => {
                        proof {
                            lemma_effect_extend_nofile(
                                *old(store),
                                *store,
                                parts@,
                                i as int,
                                asset_ids@,
                            );
                        }
                    },
                }
            },
        }
        i = i + 1;
    }
    proof {
        assert(parts@.take(parts@.len() as int) =~= parts@);
    }
    let idx = match last_cd {
        Some(k) => k,
        None => {
            return Err(ShareError::MissingCaseData);
        },
    };
    let part = ps.remove(idx);
    let data = match part {
        Part::CaseData(d) => d,
        _ => vstd::pervasive::unreached(),
    };
    let ghost mid = *store;
    let refs = extract_existing_hashes(&data);
    proof {
        assert(refs.deep_view().take(0) =~= Seq::<Seq<char>>::empty());
    }
    let mut m: usize = 0;
    while m < refs.len()
        invariant
            m <= refs@.len(),
            *store == mid,
            store.wf(),
            refs.deep_view() == extract_refs(data),
            forall|aid: u64| #[trigger]
                asset_ids@.contains(aid) <==> (upload_resolved(store.assets@, parts@, aid)
                    || ref_resolved(store.assets@, refs.deep_view().take(m as int), aid)),
        decreases refs@.len() - m,
    {
        let ghost rv = refs.deep_view();
        let ghost h_m = refs.deep_view()[m as int];
        proof {
            assert(refs@[m as int]@ == h_m);
            assert(rv.take(m + 1) =~= rv.take(m as int).push(h_m));
        }
        match store.find_by_hash(refs[m].as_str()) {
            Some(id) => {
                let already = contains_u64(&asset_ids, id);
                let ghost prev_ids = asset_ids@;
                if !already {
                    asset_ids.push(id);
                }
                proof {
                    let rowk = choose|k: int|
                        0 <= k < store.assets@.len() && (#[trigger] store.assets@[k]).file_hash@
                            == h_m && store.assets@[k].id == id;
                    assert forall|aid: u64| #[trigger]
                        asset_ids@.contains(aid) implies (upload_resolved(
                        store.assets@,
                        parts@,
                        aid,
                    ) || ref_resolved(store.assets@, rv.take(m + 1), aid)) by {
                        if prev_ids.contains(aid) {
                            if ref_resolved(store.assets@, rv.take(m as int), aid) {
                                let j = choose|j: int|
                                    0 <= j < store.assets@.len() && (
                                    #[trigger] store.assets@[j]).id == aid && rv.take(
                                        m as int,
                                    ).contains(store.assets@[j].file_hash@);
                                let w = choose|w: int|
                                    0 <= w < rv.take(m as int).len() && (#[trigger] rv.take(
                                        m as int,
                                    )[w]) == store.assets@[j].file_hash@;
                                assert(rv.take(m + 1)[w] == store.assets@[j].file_hash@);
                                assert(rv.take(m + 1).contains(store.assets@[j].file_hash@));
                            }
                        } else {
                            assert(aid == id) by {
                                if !already {
                                    assert(asset_ids@ == prev_ids.push(id));
                                    let w = choose|w: int|
                                        0 <= w < asset_ids@.len() && asset_ids@[w] == aid;
                                    if w < prev_ids.len() {
                                        assert(prev_ids[w] == aid);
                                    }
                                }
                            }
                            assert(rv.take(m + 1)[m as int] == h_m);
                            assert(rv.take(m + 1).contains(store.assets@[rowk].file_hash@));
                        }
                    }
                    assert forall|aid: u64|
                        (upload_resolved(store.assets@, parts@, aid) || ref_resolved(
                            store.assets@,
                            rv.take(m + 1),
                            aid,
                        )) implies #[trigger] asset_ids@.contains(aid) by {
                        let was = upload_resolved(store.assets@, parts@, aid) || ref_resolved(
                            store.assets@,
                            rv.take(m as int),
                            aid,
                        );
                        if was {
                            assert(prev_ids.contains(aid));
                            if !already {
                                let w = choose|w: int|
                                    0 <= w < prev_ids.len() && prev_ids[w] == aid;
                                assert(asset_ids@[w] == aid);
                            }
                        } else {
                            assert(ref_resolved(store.assets@, rv.take(m + 1), aid));
                            let j = choose|j: int|
                                0 <= j < store.assets@.len() && (#[trigger] store.assets@[j]).id
                                    == aid && rv.take(m + 1).contains(store.assets@[j].file_hash@);
                            let w = choose|w: int|
                                0 <= w < rv.take(m + 1).len() && (#[trigger] rv.take(m + 1)[w])
                                    == store.assets@[j].file_hash@;
                            if w < m {
                                assert(rv.take(m as int)[w] == store.assets@[j].file_hash@);
                                assert(ref_resolved(store.assets@, rv.take(m as int), aid));
                            } else {
                                assert(store.assets@[j].file_hash@ == h_m);
                                assert(store.assets@[j].id == store.assets@[rowk].id);
                                assert(aid == id);
                                if already {
                                    assert(prev_ids.contains(aid));
                                } else {
                                    assert(asset_ids@.last() == id);
                                }
                            }
                        }
                    }
                }
            },
            None => {
                proof {
                    assert forall|aid: u64| #[trigger]
                        asset_ids@.contains(aid) <==> (upload_resolved(
                        store.assets@,
                        parts@,
                        aid,
                    ) || ref_resolved(store.assets@, rv.take(m + 1), aid)) by {
                        if ref_resolved(store.assets@, rv.take(m + 1), aid) && !ref_resolved(
                            store.assets@,
                            rv.take(m as int),
                            aid,
                        ) {
                            let j = choose|j: int|
                                0 <= j < store.assets@.len() && (#[trigger] store.assets@[j]).id
                                    == aid && rv.take(m + 1).contains(store.assets@[j].file_hash@);
                            let w = choose|w: int|
                                0 <= w < rv.take(m + 1).len() && (#[trigger] rv.take(m + 1)[w])
                                    == store.assets@[j].file_hash@;
                            if w < m {
                                assert(rv.take(m as int)[w] == store.assets@[j].file_hash@);
                            } else {
                                assert(store.assets@[j].file_hash@ == h_m);
                                assert(!store.has_asset_hash(h_m));
                            }
                        }
                        if ref_resolved(store.assets@, rv.take(m as int), aid) {
                            let j = choose|j: int|
                                0 <= j < store.assets@.len() && (#[trigger] store.assets@[j]).id
                                    == aid && rv.take(m as int).contains(
                                    store.assets@[j].file_hash@,
                                );
                            let w = choose|w: int|
                                0 <= w < rv.take(m as int).len() && rv.take(m as int)[w]
                                    == store.assets@[j].file_hash@;
                            assert(rv.take(m + 1)[w] == store.assets@[j].file_hash@);
                            assert(rv.take(m + 1).contains(store.assets@[j].file_hash@));
                        }
                    }
                }
            },
        }
        m = m + 1;
    }
    proof {
        assert(refs.deep_view().take(refs.deep_view().len() as int) =~= refs.deep_view());
    }
    let code = match choose_unique_code(store, candidates) {
        Some(c) => c,
        None => {
            return Err(ShareError::CodeSpaceExhausted);
        },
    };
    let code_for_result = code.clone();
    let expires_at = now + SHARE_LIFETIME_SECONDS;
    let ghost first_i = choose|fi: int|
        is_first_fresh(store.cases@, candidates@, fi) && code@ == (#[trigger] candidates@[fi])@;
    let case_id = store.insert_case(code, data, expires_at);
    let ghost mid2 = *store;
    let mut t: usize = 0;
    while t < asset_ids.len()
        invariant
            t <= asset_ids@.len(),
            store.wf(),
            mid2.wf(),
            store.assets == mid2.assets,
            store.cases == mid2.cases,
            store.objects == mid2.objects,
            store.next_id == mid2.next_id,
            id_in_cases(store.cases@, case_id),
            forall|aid: u64| #[trigger]
                asset_ids@.contains(aid) <==> (upload_resolved(mid2.assets@, parts@, aid)
                    || ref_resolved(mid2.assets@, extract_refs(data), aid)),
            mid2.links@.len() <= store.links@.len(),
            store.links@.take(mid2.links@.len() as int) == mid2.links@,
            forall|k: int|
                mid2.links@.len() <= k < store.links@.len() ==> (#[trigger] store.links@[k]).case_id
                    == case_id && asset_ids@.contains(store.links@[k].asset_id),
            forall|u: int| 0 <= u < t ==> store.has_link(case_id, #[trigger] asset_ids@[u]),
        decreases asset_ids@.len() - t,
    {
        let ghost before = *store;
        proof {
            assert(asset_ids@.contains(asset_ids@[t as int]));
            assert(id_in_assets(store.assets@, asset_ids@[t as int])) by {
                let aid = asset_ids@[t as int];
                if upload_resolved(mid2.assets@, parts@, aid) {
                    let j = choose|j: int|
                        0 <= j < mid2.assets@.len() && (#[trigger] mid2.assets@[j]).id == aid
                            && spec_uploaded_hash(parts@, mid2.assets@[j].file_hash@);
                    assert(store.assets@[j].id == aid);
                } else {
                    let j = choose|j: int|
                        0 <= j < mid2.assets@.len() && (#[trigger] mid2.assets@[j]).id == aid
                            && extract_refs(data).contains(mid2.assets@[j].file_hash@);
                    assert(store.assets@[j].id == aid);
                }
            }
        }
        store.insert_link(case_id, asset_ids[t]);
        proof {
            if !before.has_link(case_id, asset_ids@[t as int]) {
                assert(store.links@.take(mid2.links@.len() as int) =~= mid2.links@);
            }
            assert forall|u: int| 0 <= u < t + 1 implies store.has_link(
                case_id,
                #[trigger] asset_ids@[u],
            ) by {
                if u < t {
                    assert(before.has_link(case_id, asset_ids@[u]));
                    let k = choose|k: int|
                        0 <= k < before.links@.len() && (#[trigger] before.links@[k]).case_id
                            == case_id && before.links@[k].asset_id == asset_ids@[u];
                    assert(store.links@[k].case_id == case_id && store.links@[k].asset_id
                        == asset_ids@[u]);
                }
            }
        }
        t = t + 1;
    }
    let result = ShareSuccess { share_code: code_for_result, expires_at, case_id };
    proof {
        assert(is_first_fresh(old(store).cases@, candidates@, first_i) && result.share_code@ == (
        candidates@[first_i])@);
        assert(store.links@.take(old(store).links@.len() as int) == mid2.links@);
        assert forall|k: int|
            old(store).links@.len() <= k < store.links@.len() implies (
        #[trigger] store.links@[k]).case_id == case_id && spec_resolved(
            store.assets@,
            parts@,
            last_case_data(parts@)->Some_0,
            store.links@[k].asset_id,
        ) by {
            assert(asset_ids@.contains(store.links@[k].asset_id));
        }
        assert forall|aid: u64| #[trigger]
            spec_resolved(
                store.assets@,
                parts@,
                last_case_data(parts@)->Some_0,
                aid,
            ) implies store.has_link(case_id, aid) by {
            assert(asset_ids@.contains(aid));
            let u = choose|u: int| 0 <= u < asset_ids@.len() && asset_ids@[u] == aid;
            assert(store.has_link(case_id, asset_ids@[u]));
        }
    }
    Ok(result)
}

/// Shares a case with ten freshly generated candidate codes.
pub fn share_case_with_generated_code(store: &mut Store, parts: Vec<Part>, now: i64) -> (r: Result<
    ShareSuccess,
    ShareError,
>)
    requires
        old(store).wf(),
        old(store).next_id + parts@.len() + 1 <= u64::MAX,
        now <= i64::MAX - SHARE_LIFETIME_SECONDS,
    ensures
        final(store).wf(),
        assets_effect(*old(store), *final(store), parts@),
        (r == Err::<ShareSuccess, ShareError>(ShareError::MissingCaseData)) <==> !has_case_data(
            parts@,
        ),
        r matches Err(e) ==> (e == ShareError::MissingCaseData || e
            == ShareError::CodeSpaceExhausted),
        r is Err ==> final(store).cases == old(store).cases && final(store).links == old(
            store,
        ).links,
        r matches Ok(s) ==> case_created(*old(store), *final(store), parts@, now, s)
            && spec_valid_code(s.share_code@) && links_effect(
            *old(store),
            *final(store),
            parts@,
            last_case_data(parts@)->Some_0,
            s.case_id,
        ),
{
    let candidates = generate_code_candidates();
    let r = share_case(store, parts, now, &candidates);
    proof {
        match &r {
            Ok(s) => {
                let i = choose|i: int|
                    is_first_fresh(old(store).cases@, candidates@, i) && s.share_code@ == (
                    #[trigger] candidates@[i])@;
                assert(spec_valid_code(candidates@[i]@));
            },
            Err(_) => {},
        }
    }
    r
}

} // verus!
