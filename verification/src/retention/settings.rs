//! The object store that archives and snapshots go to, as the environment names it.

use crate::text::{self, ends_with, starts_with};
use vstd::prelude::*;

verus! {

/// What the environment says of an object store. A value is absent where the variable
/// is not set.
pub struct StoreEnv {
    pub endpoint: Option<String>,
    pub bucket: Option<String>,
    pub access_key: Option<String>,
    pub secret_key: Option<String>,
    pub region: Option<String>,
}

/// A configured object store.
#[derive(Clone, Debug, PartialEq, Eq)]
pub struct StoreSettings {
    pub endpoint: String,
    pub bucket: String,
    pub access_key: String,
    pub secret_key: String,
    pub region: String,
    /// The endpoint is reached without encryption.
    pub allow_http: bool,
}

/// The settings that the environment gives, where the endpoint, the bucket and both
/// keys are named and the endpoint may be reached. Otherwise there is no object
/// store.
pub fn store_settings(env: StoreEnv, reachable: bool) -> (r: Option<StoreSettings>)
    ensures
        r is Some <==> env.endpoint is Some && env.bucket is Some && env.access_key is Some
            && env.secret_key is Some && reachable,
        r is Some ==> {
            let s = r->0;
            &&& s.endpoint == env.endpoint->0
            &&& s.bucket == env.bucket->0
            &&& s.access_key == env.access_key->0
            &&& s.secret_key == env.secret_key->0
            &&& s.region@ == match env.region {
                Some(g) => g@,
                None => "us-east-1"@,
            }
            &&& s.allow_http == text::starts(s.endpoint@, "http://"@)
        },
{
    match (env.endpoint, env.bucket, env.access_key, env.secret_key) {
        (Some(endpoint), Some(bucket), Some(access_key), Some(secret_key)) => {
            if !reachable {
                return None;
            }
            let allow_http = starts_with(endpoint.as_str(), "http://");
            let region = match env.region {
                Some(g) => g,
                None => String::from_str("us-east-1"),
            };
            Some(StoreSettings { endpoint, bucket, access_key, secret_key, region, allow_http })
        },
        _ => None,
    }
}

/// A prefix below which snapshots are kept: the configured one, with a slash behind
/// it.
pub open spec fn snapshot_prefix(configured: Option<Seq<char>>) -> Seq<char> {
    let p = match configured {
        Some(p) => p,
        None => "ha/"@,
    };
    if text::ends(p, "/"@) {
        p
    } else {
        p + "/"@
    }
}

/// The prefix below which snapshots are kept.
pub fn prefix_of(configured: Option<String>) -> (r: String)
    ensures
        r@ == snapshot_prefix(text::opt_text(configured)),
        text::ends(r@, "/"@),
{
    let mut p = match configured {
        Some(p) => p,
        None => String::from_str("ha/"),
    };
    if !ends_with(p.as_str(), "/") {
        let ghost was = p@;
        p.append("/");
        assert(p@.skip(p@.len() - "/"@.len()) =~= "/"@);
    }
    p
}

/// How the deletion of an object went.
pub enum DeleteOutcome {
    Deleted,
    /// There was no such object.
    Missing,
    Failed(String),
}

/// What is reported of a deletion. That the object is not there is what was asked
/// for.
pub fn deletion(key: &str, outcome: DeleteOutcome) -> (r: Result<(), String>)
    ensures
        match outcome {
            DeleteOutcome::Failed(e) => r is Err && r->Err_0@ == "S3 delete "@ + key@ + ": "@ + e@,
            _ => r == Ok::<(), String>(()),
        },
{
    match outcome {
        DeleteOutcome::Failed(e) => {
            let mut m = String::from_str("S3 delete ");
            m.append(key);
            m.append(": ");
            m.append(e.as_str());
            Err(m)
        },
        _ => Ok(()),
    }
}

/// A prefix ends in a slash: one that does is used as it is, and one that does not with a
/// slash behind it.
pub proof fn a_prefix_ends_in_one_more_slash_at_most(p: Seq<char>)
    ensures
        snapshot_prefix(Some(p)) == if p.len() > 0 && p.last() == '/' {
            p
        } else {
            p.push('/')
        },
        snapshot_prefix(Some(snapshot_prefix(Some(p)))) == snapshot_prefix(Some(p)),
        snapshot_prefix(None) == snapshot_prefix(Some("ha"@)),
        snapshot_prefix(None) == "ha/"@,
{
    reveal_strlit("/");
    reveal_strlit("ha/");
    reveal_strlit("ha");
    assert("/"@ =~= seq!['/']);
    assert forall|s: Seq<char>| #[trigger] text::ends(s, "/"@) <==> s.len() > 0 && s.last()
        == '/' by {
        if s.len() > 0 {
            assert(s.skip(s.len() - 1) =~= seq![s.last()]);
            if s.last() != '/' {
                assert(seq![s.last()][0] != seq!['/'][0]);
            }
        }
    }
    assert(p + "/"@ =~= p.push('/'));
    assert("ha/"@.last() == '/');
    assert("ha"@.last() == 'a');
    assert("ha"@ + "/"@ =~= "ha/"@);
}

} // verus!
