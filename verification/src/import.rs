//! The import service: resolves a share code to the stored case, checks its
//! expiry lazily, and returns the document with one entry per linked asset,
//! each storage path rewritten to the caller-facing proxy URL.

use vstd::prelude::*;
use vstd::string::StringExecFns;
use crate::errors::ImportError;
use crate::json::{clone_value, json_model, JsonValue};
use crate::store::{AssetRow, LinkRow, Store};

verus! {

/// One asset entry of an import response.
pub struct AssetResponse {
    pub hash: String,
    pub url: String,
    pub mime: String,
}

/// The import response: the stored document and one entry per linked asset,
/// in link-insertion order.
pub struct ImportResponse {
    pub case_data: JsonValue,
    pub assets: Vec<AssetResponse>,
}

/// The local proxy route under which a stored object is served, so that a
/// caller never talks to the storage provider directly.
pub open spec fn spec_proxy_url(path: Seq<char>) -> Seq<char> {
    "/storage/"@ + path
}

/// Rewrites a storage path into the caller-facing proxy URL.
pub fn proxy_url_for(path: &str) -> (r: String)
    ensures
        r@ == spec_proxy_url(path@),
{
    let mut r = String::from_str("/storage/");
    r.append(path);
    r
}

/// The links of case `id`, in insertion order.
pub open spec fn case_links(links: Seq<LinkRow>, id: u64) -> Seq<LinkRow> {
    links.filter(|l: LinkRow| l.case_id == id)
}

/// An import entry answers link `l`: it carries the linked asset row's
/// fingerprint and type, and the proxied URL of its object.
pub open spec fn entry_matches(assets: Seq<AssetRow>, l: LinkRow, e: AssetResponse) -> bool {
    exists|j: int|
        0 <= j < assets.len() && (#[trigger] assets[j]).id == l.asset_id && e.hash@ == assets[
            j
        ].file_hash@ && e.mime@ == assets[j].mime_type@ && e.url@ == spec_proxy_url(
            assets[j].storage_path@,
        )
}

/// Imports a case by share code at time `now`. An unknown code is
/// `NotFound`; a known code whose expiry lies in the past is `Expired`,
/// distinct from `NotFound`; otherwise the response holds the stored
/// document exactly and one entry per linked asset, in link order.
pub fn import_case(store: &Store, code: &str, now: i64) -> (r: Result<ImportResponse, ImportError>)
    requires
        store.wf(),
    ensures
        (r == Err::<ImportResponse, ImportError>(ImportError::NotFound))
            <==> !store.spec_code_exists(code@),
        (r == Err::<ImportResponse, ImportError>(ImportError::Expired)) <==> exists|ci: int|
            0 <= ci < store.cases@.len() && (#[trigger] store.cases@[ci]).share_code@ == code@
                && store.cases@[ci].expires_at < now,
        (r is Ok) <==> exists|ci: int|
            0 <= ci < store.cases@.len() && (#[trigger] store.cases@[ci]).share_code@ == code@
                && store.cases@[ci].expires_at >= now,
        r matches Ok(resp) ==> exists|ci: int|
            0 <= ci < store.cases@.len() && (#[trigger] store.cases@[ci]).share_code@ == code@
                && store.cases@[ci].expires_at >= now && json_model(resp.case_data) == json_model(
                store.cases@[ci].data,
            ) && resp.assets@.len() == case_links(store.links@, store.cases@[ci].id).len() && (
            forall|k: int|
                0 <= k < resp.assets@.len() ==> entry_matches(
                    store.assets@,
                    case_links(store.links@, store.cases@[ci].id)[k],
                    #[trigger] resp.assets@[k],
                )),
{
    let ci = match store.find_case_index(code) {
        Some(ci) => ci,
        None => {
            return Err(ImportError::NotFound);
        },
    };
    proof {
        assert forall|cj: int|
            0 <= cj < store.cases@.len() && (#[trigger] store.cases@[cj]).share_code@
                == code@ implies cj == ci as int by {
            if cj != ci as int {
                assert(store.cases@[cj].share_code@ != store.cases@[ci as int].share_code@);
            }
        }
    }
    if store.cases[ci].expires_at < now {
        return Err(ImportError::Expired);
    }
    let case_id = store.cases[ci].id;
    let data = clone_value(&store.cases[ci].data);
    let mut entries: Vec<AssetResponse> = Vec::new();
    let mut k: usize = 0;
    proof {
        assert(store.links@.take(0) =~= Seq::<LinkRow>::empty());
        reveal_with_fuel(Seq::<_>::filter, 2);
        assert(case_links(store.links@.take(0), case_id).len() == 0);
    }
    while k < store.links.len()
        invariant
            k <= store.links@.len(),
            store.wf(),
            0 <= (ci as int) < store.cases@.len(),
            case_id == store.cases@[ci as int].id,
            entries@.len() == case_links(store.links@.take(k as int), case_id).len(),
            forall|t: int|
                0 <= t < entries@.len() ==> entry_matches(
                    store.assets@,
                    case_links(store.links@.take(k as int), case_id)[t],
                    #[trigger] entries@[t],
                ),
        decreases store.links@.len() - k,
    {
        proof {
            reveal_with_fuel(Seq::<_>::filter, 2);
            assert(store.links@.take(k + 1).drop_last() =~= store.links@.take(k as int));
            assert(store.links@.take(k + 1).last() == store.links@[k as int]);
        }
        if store.links[k].case_id == case_id {
            let aid = store.links[k].asset_id;
            let aj = match store.find_asset_index_by_id(aid) {
                Some(aj) => aj,
                None => {
                    proof {
                        assert(store.has_asset_id(store.links@[k as int].asset_id));
                    }
                    vstd::pervasive::unreached()
                },
            };
            let entry = AssetResponse {
                hash: store.assets[aj].file_hash.clone(),
                url: proxy_url_for(store.assets[aj].storage_path.as_str()),
                mime: store.assets[aj].mime_type.clone(),
            };
            entries.push(entry);
            proof {
                let links_now = case_links(store.links@.take(k + 1), case_id);
                assert(links_now == case_links(store.links@.take(k as int), case_id).push(
                    store.links@[k as int],
                ));
                assert(entry_matches(store.assets@, store.links@[k as int], entries@.last())) by {
                    assert(store.assets@[aj as int].id == store.links@[k as int].asset_id);
                }
            }
        }
        k = k + 1;
    }
    proof {
        assert(store.links@.take(store.links@.len() as int) =~= store.links@);
    }
    Ok(ImportResponse { case_data: data, assets: entries })
}

} // verus!
