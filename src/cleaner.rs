use vstd::prelude::*;

verus! {

/// The instant an RFC 3339 timestamp denotes, in milliseconds since the Unix
/// epoch, or `None` when the text is not such a timestamp.
pub uninterp spec fn rfc3339_millis(s: Seq<char>) -> Option<i64>;

/// Relies on `chrono::DateTime::parse_from_rfc3339` and `timestamp_millis`:
/// the parsed instant, which depends on the text alone.
#[verifier::external_body]
fn parse_rfc3339_millis(s: &str) -> (r: Option<i64>)
    ensures
        r == rfc3339_millis(s@),
{
    match chrono::DateTime::parse_from_rfc3339(s) {
        Ok(t) => Some(t.timestamp_millis()),
        Err(_) => None,
    }
}

/// How long stored archives are kept: three hours, in milliseconds.
pub const RETENTION_MILLIS: i64 = 10_800_000;

/// An object of a storage bucket, as its listing shows it.
pub struct BucketObject {
    pub key: String,
    /// Last modification time, as RFC 3339 text.
    pub last_modified: String,
}

/// Why a sweep of a bucket stopped before deciding anything.
#[derive(Clone, Copy, Debug, PartialEq, Eq, Structural)]
pub enum SweepError {
    /// The object at this position of the listing has a last-modified time
    /// that is not an RFC 3339 timestamp.
    BadTimestamp(usize),
}

/// An object last modified at `modified` is older than the retention window
/// at `now` (both in milliseconds since the epoch); one exactly as old as
/// the window is kept.
pub open spec fn is_expired_at(modified: int, now: int) -> bool {
    modified < now - RETENTION_MILLIS
}

/// Whether an object last modified at `modified_millis` is older than the
/// retention window at `now_millis`.
pub fn is_expired(modified_millis: i64, now_millis: i64) -> (r: bool)
    ensures
        r == is_expired_at(modified_millis as int, now_millis as int),
{
    if now_millis < i64::MIN + RETENTION_MILLIS {
        false
    } else {
        modified_millis < now_millis - RETENTION_MILLIS
    }
}

/// The keys that a sweep at `now` deletes from a listing, in listing order,
/// or the first position whose timestamp cannot be read.
pub open spec fn sweep(objects: Seq<BucketObject>, now: i64) -> Result<Seq<Seq<char>>, SweepError>
    decreases objects.len(),
{
    if objects.len() == 0 {
        Ok(Seq::empty())
    } else {
        match sweep(objects.drop_last(), now) {
            Err(e) => Err(e),
            Ok(keys) => match rfc3339_millis(objects.last().last_modified@) {
                None => Err(SweepError::BadTimestamp((objects.len() - 1) as usize)),
                Some(t) => Ok(
                    if is_expired_at(t as int, now as int) {
                        keys.push(objects.last().key@)
                    } else {
                        keys
                    },
                ),
            },
        }
    }
}

/// A sweep over a listing whose timestamps all read selects exactly the
/// keys of the objects older than the retention window: every such object's key,
/// and no key of an object that is still recent unless an expired object
/// shares it.
pub proof fn lemma_sweep_selects_expired(objects: Seq<BucketObject>, now: i64)
    requires
        sweep(objects, now) is Ok,
    ensures
        forall|i: int|
            0 <= i < objects.len() ==> rfc3339_millis(#[trigger] objects[i].last_modified@) is Some,
        forall|i: int|
            0 <= i < objects.len() && is_expired_at(
                rfc3339_millis(#[trigger] objects[i].last_modified@)->0 as int,
                now as int,
            ) ==> sweep(objects, now)->Ok_0.contains(objects[i].key@),
        forall|k: Seq<char>| #[trigger]
            sweep(objects, now)->Ok_0.contains(k) ==> exists|i: int|
                0 <= i < objects.len() && objects[i].key@ == k && is_expired_at(
                    rfc3339_millis(#[trigger] objects[i].last_modified@)->0 as int,
                    now as int,
                ),
    decreases objects.len(),
{
    if objects.len() > 0 {
        let prev = objects.drop_last();
        let n = objects.len() - 1;
        lemma_sweep_selects_expired(prev, now);
        let before = sweep(prev, now)->Ok_0;
        let all = sweep(objects, now)->Ok_0;
        assert(objects.last() == objects[n]);
        assert forall|i: int| 0 <= i < objects.len() implies rfc3339_millis(
            #[trigger] objects[i].last_modified@,
        ) is Some by {
            if i < n {
                assert(prev[i] == objects[i]);
            }
        }
        assert forall|i: int|
            0 <= i < objects.len() && is_expired_at(
                rfc3339_millis(#[trigger] objects[i].last_modified@)->0 as int,
                now as int,
            ) implies all.contains(objects[i].key@) by {
            if i < n {
                assert(prev[i] == objects[i]);
                let j = choose|j: int| 0 <= j < before.len() && before[j] == objects[i].key@;
                assert(all[j] == before[j]);
            } else {
                assert(all[all.len() - 1] == objects[i].key@);
            }
        }
        assert forall|k: Seq<char>| #[trigger] all.contains(k) implies exists|i: int|
            0 <= i < objects.len() && objects[i].key@ == k && is_expired_at(
                rfc3339_millis(#[trigger] objects[i].last_modified@)->0 as int,
                now as int,
            ) by {
            let j = choose|j: int| 0 <= j < all.len() && all[j] == k;
            if j < before.len() {
                assert(before[j] == k);
                assert(before.contains(k));
                let i = choose|i: int|
                    0 <= i < prev.len() && prev[i].key@ == k && is_expired_at(
                        rfc3339_millis(#[trigger] prev[i].last_modified@)->0 as int,
                        now as int,
                    );
                assert(objects[i] == prev[i]);
            } else {
                assert(objects[n].key@ == k);
            }
        }
    }
}

/// Once a prefix of a listing stops the sweep, the whole listing stops it
/// the same way.
proof fn lemma_sweep_error_persists(objects: Seq<BucketObject>, k: int, now: i64)
    requires
        0 <= k <= objects.len(),
        sweep(objects.take(k), now) is Err,
    ensures
        sweep(objects, now) == sweep(objects.take(k), now),
    decreases objects.len() - k,
{
    if k < objects.len() {
        assert(objects.take(k + 1).drop_last() =~= objects.take(k));
        lemma_sweep_error_persists(objects, k + 1, now);
    } else {
        assert(objects.take(k) =~= objects);
    }
}

/// The keys of the listed objects that a retention sweep at `now_millis`
/// deletes: those last modified longer ago than the retention window, in
/// listing order. A timestamp that cannot be read stops the sweep.
pub fn clean_files(objects: &Vec<BucketObject>, now_millis: i64) -> (r: Result<
    Vec<String>,
    SweepError,
>)
    ensures
        match (r, sweep(objects@, now_millis)) {
            (Ok(keys), Ok(expected)) => keys.deep_view() == expected,
            (Err(e), Err(expected)) => e == expected,
            _ => false,
        },
{
    let mut keys: Vec<String> = Vec::new();
    let ghost all = objects@;
    for i in 0..objects.len()
        invariant
            all == objects@,
            sweep(all.take(i as int), now_millis) matches Ok(expected) && keys.deep_view()
                == expected,
    {
        assert(all.take(i + 1).drop_last() =~= all.take(i as int));
        let o = &objects[i];
        match parse_rfc3339_millis(o.last_modified.as_str()) {
            None => {
                proof {
                    lemma_sweep_error_persists(all, i + 1, now_millis);
                }
                return Err(SweepError::BadTimestamp(i));
            },
            Some(t) => {
                if is_expired(t, now_millis) {
                    let ghost before = keys.deep_view();
                    keys.push(o.key.clone());
                    assert(keys.deep_view() =~= before.push(o.key@));
                }
            },
        }
    }
    assert(all.take(objects.len() as int) =~= all);
    Ok(keys)
}

} // verus!
