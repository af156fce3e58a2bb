//! Who may write. One process at a time opens the databases, and a node that was
//! restored from a backup writes nothing until it is promoted.

use vstd::prelude::*;

verus! {

/// The marker of a node that was restored and not promoted yet: the state database's
/// path with a suffix.
pub fn restored_marker_path(state_db: &str) -> (r: String)
    ensures
        r@ == state_db@ + ".restored"@,
{
    let mut r = String::from_str(state_db);
    r.append(".restored");
    r
}

/// What is reported of a restored node.
pub open spec fn restored_message(marker: Seq<char>) -> Seq<char> {
    "this node was restored from a backup and has NOT been promoted (marker "@ + marker
        + ") — run `garmr backup promote` before any writable open"@
}

/// Whether a writable open may go on: not where the marker stands. It is asked before
/// the locks are taken and again while they are held.
pub fn check_promoted(marker: &str, stands: bool) -> (r: Result<(), String>)
    ensures
        match r {
            Ok(()) => !stands,
            Err(e) => stands && e@ == restored_message(marker@),
        },
{
    if !stands {
        return Ok(());
    }
    let mut m = String::from_str(
        "this node was restored from a backup and has NOT been promoted (marker ",
    );
    m.append(marker);
    m.append(") — run `garmr backup promote` before any writable open");
    Err(m)
}

/// What came of opening a database to hold it.
pub enum Probe {
    /// There is no such file, and nothing to hold.
    Missing,
    /// It is held now.
    Held,
    /// Another process has it open.
    Busy,
    Failed(String),
}

/// The first of the probes that is neither missing nor held decides.
pub open spec fn first_obstacle(probes: Seq<Probe>) -> Option<Probe>
    decreases probes.len(),
{
    if probes.len() == 0 {
        None
    } else if probes[0] is Missing || probes[0] is Held {
        first_obstacle(probes.drop_first())
    } else {
        Some(probes[0])
    }
}

/// Whether exclusion is had over all databases that exist. A database that another
/// process has open means that it is not; any other trouble is reported.
pub fn exclusion(probes: &Vec<Probe>) -> (r: Result<bool, String>)
    ensures
        match first_obstacle(probes@) {
            None => r == Ok::<bool, String>(true),
            Some(Probe::Failed(e)) => r is Err && r->Err_0@ == e@,
            Some(_) => r == Ok::<bool, String>(false),
        },
{
    let mut i: usize = 0;
    assert(probes@.skip(0) =~= probes@);
    while i < probes.len()
        invariant
            i <= probes.len(),
            first_obstacle(probes@) == first_obstacle(probes@.skip(i as int)),
        decreases probes.len() - i,
    {
        assert(probes@.skip(i as int)[0] == probes@[i as int]);
        assert(probes@.skip(i as int).drop_first() =~= probes@.skip(i + 1));
        match &probes[i] {
            Probe::Missing => {},
            Probe::Held => {},
            Probe::Busy => {
                return Ok(false);
            },
            Probe::Failed(e) => {
                return Err(e.clone());
            },
        }
        i += 1;
    }
    Ok(true)
}

/// Exclusion is had just where no probe met an obstacle.
pub proof fn exclusion_holds_everything(probes: Seq<Probe>)
    ensures
        first_obstacle(probes) is None <==> forall|i: int|
            0 <= i < probes.len() ==> (#[trigger] probes[i]) is Missing || probes[i] is Held,
    decreases probes.len(),
{
    if probes.len() > 0 {
        exclusion_holds_everything(probes.drop_first());
        let rest = probes.drop_first();
        assert(forall|i: int| 0 <= i < rest.len() ==> rest[i] == probes[i + 1]);
        if first_obstacle(probes) is None {
            assert forall|i: int| 0 <= i < probes.len() implies (#[trigger] probes[i]) is Missing
                || probes[i] is Held by {
                if i > 0 {
                    assert(rest[i - 1] == probes[i]);
                }
            }
        }
    }
}

/// What decides is a probe that met an obstacle, and every one before it met none.
pub proof fn the_first_obstacle_decides(probes: Seq<Probe>)
    ensures
        first_obstacle(probes) matches Some(p) ==> exists|i: int|
            {
                &&& 0 <= i < probes.len()
                &&& #[trigger] probes[i] == p
                &&& p is Busy || p is Failed
                &&& forall|j: int|
                    0 <= j < i ==> (#[trigger] probes[j]) is Missing || probes[j] is Held
            },
    decreases probes.len(),
{
    if probes.len() > 0 {
        if probes[0] is Missing || probes[0] is Held {
            let rest = probes.drop_first();
            the_first_obstacle_decides(rest);
            if let Some(p) = first_obstacle(rest) {
                let k = choose|k: int|
                    {
                        &&& 0 <= k < rest.len()
                        &&& #[trigger] rest[k] == p
                        &&& p is Busy || p is Failed
                        &&& forall|j: int|
                            0 <= j < k ==> (#[trigger] rest[j]) is Missing || rest[j] is Held
                    };
                assert(probes[k + 1] == p);
                assert forall|j: int| 0 <= j < k + 1 implies (#[trigger] probes[j]) is Missing
                    || probes[j] is Held by {
                    if j > 0 {
                        assert(rest[j - 1] == probes[j]);
                    }
                }
            }
        } else {
            assert(probes[0] == first_obstacle(probes)->0);
        }
    }
}

} // verus!
