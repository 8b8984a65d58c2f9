use vstd::prelude::*;

use crate::fingerprint::{decimal, push_decimal};

verus! {

/// The entries an archive gets from the downloads of its books, in order:
/// each download gives the entry name the service chose, or `None` when it
/// failed. A failed download adds nothing, nor does a name already taken.
pub open spec fn planned_entries(outcomes: Seq<Option<Seq<char>>>) -> Seq<Seq<char>>
    decreases outcomes.len(),
{
    if outcomes.len() == 0 {
        Seq::empty()
    } else {
        let before = planned_entries(outcomes.drop_last());
        match outcomes.last() {
            Some(name) => if before.contains(name) {
                before
            } else {
                before.push(name)
            },
            None => before,
        }
    }
}

/// The entry name a download came with, as characters.
pub open spec fn name_view(filename: Option<String>) -> Option<Seq<char>> {
    match filename {
        Some(f) => Some(f@),
        None => None,
    }
}

/// The download at position `j` of `outcomes` becomes an archive entry.
pub open spec fn adds_entry(outcomes: Seq<Option<Seq<char>>>, j: int) -> bool {
    match outcomes[j] {
        Some(name) => !planned_entries(outcomes.take(j)).contains(name),
        None => false,
    }
}

/// Status text shown while books are downloaded: how many of how many.
pub open spec fn download_progress_text(done: nat, total: nat) -> Seq<char> {
    "Загрузка книг: "@ + decimal(done) + "/"@ + decimal(total)
}

/// Decisions of an archive build over its books, taken one download at a
/// time: which downloads become entries, and how many bytes went in.
pub struct ArchivePlan {
    total: usize,
    processed: usize,
    filenames: Vec<String>,
    bytes_count: u64,
    outcomes: Ghost<Seq<Option<Seq<char>>>>,
}

impl ArchivePlan {
    /// The downloads seen so far, in order.
    pub closed spec fn outcomes(self) -> Seq<Option<Seq<char>>> {
        self.outcomes@
    }

    pub closed spec fn total(self) -> nat {
        self.total as nat
    }

    pub closed spec fn bytes(self) -> u64 {
        self.bytes_count
    }

    pub closed spec fn wf(self) -> bool {
        &&& self.processed == self.outcomes@.len()
        &&& self.processed <= self.total
        &&& self.filenames.deep_view() == planned_entries(self.outcomes@)
    }

    /// A plan for `total` books, none downloaded yet.
    pub fn new(total: usize) -> (r: ArchivePlan)
        ensures
            r.wf(),
            r.total() == total,
            r.outcomes() == Seq::<Option<Seq<char>>>::empty(),
            r.bytes() == 0,
    {
        let filenames: Vec<String> = Vec::new();
        assert(filenames.deep_view() =~= planned_entries(Seq::empty()));
        ArchivePlan {
            total,
            processed: 0,
            filenames,
            bytes_count: 0,
            outcomes: Ghost(Seq::empty()),
        }
    }

    /// Number of books whose download has been handled.
    pub fn processed(&self) -> (r: usize)
        requires
            self.wf(),
        ensures
            r == self.outcomes().len(),
    {
        self.processed
    }

    /// Number of entries added so far.
    pub fn entry_count(&self) -> (r: usize)
        requires
            self.wf(),
        ensures
            r == planned_entries(self.outcomes()).len(),
    {
        self.filenames.len()
    }

    /// Uncompressed bytes written into entries so far.
    pub fn bytes_count(&self) -> (r: u64)
        ensures
            r == self.bytes(),
    {
        self.bytes_count
    }

    /// Takes the outcome of the next book's download: the entry name it came
    /// with, or `None` when it failed. Returns the name to add an entry
    /// under, or `None` when the book is skipped: its download failed, or an
    /// entry of that name was already added.
    pub fn on_download(&mut self, filename: Option<String>) -> (r: Option<String>)
        requires
            old(self).wf(),
            old(self).outcomes().len() < old(self).total(),
        ensures
            final(self).wf(),
            final(self).total() == old(self).total(),
            final(self).bytes() == old(self).bytes(),
            final(self).outcomes() == old(self).outcomes().push(name_view(filename)),
            r is Some <==> adds_entry(final(self).outcomes(), old(self).outcomes().len() as int),
            r matches Some(n) ==> filename matches Some(f) && n@ == f@,
    {
        let ghost prev = self.outcomes@;
        let ghost o = name_view(filename);
        self.outcomes = Ghost(prev.push(o));
        self.processed = self.processed + 1;
        assert(self.outcomes@.drop_last() =~= prev);
        assert(self.outcomes@.take(prev.len() as int) =~= prev);
        match filename {
            None => None,
            Some(name) => {
                let mut seen = false;
                let mut i: usize = 0;
                while i < self.filenames.len()
                    invariant
                        i <= self.filenames.len(),
                        self.filenames.deep_view() == planned_entries(prev),
                        !seen ==> forall|k: int| 0 <= k < i ==> self.filenames.deep_view()[k] != name@,
                        seen ==> self.filenames.deep_view().contains(name@),
                    decreases self.filenames.len() - i,
                {
                    if self.filenames[i] == name {
                        assert(self.filenames.deep_view()[i as int] == name@);
                        seen = true;
                    }
                    i = i + 1;
                }
                if seen {
                    None
                } else {
                    assert(!self.filenames.deep_view().contains(name@));
                    let ghost before = self.filenames.deep_view();
                    self.filenames.push(name.clone());
                    assert(self.filenames.deep_view() =~= before.push(name@));
                    Some(name)
                }
            },
        }
    }

    /// Records `n` more uncompressed bytes written into the current entry;
    /// the count stops at the largest `u64`.
    pub fn on_entry_written(&mut self, n: u64)
        requires
            old(self).wf(),
        ensures
            final(self).wf(),
            final(self).outcomes() == old(self).outcomes(),
            final(self).total() == old(self).total(),
            final(self).bytes() == (if old(self).bytes() + n <= u64::MAX {
                (old(self).bytes() + n) as u64
            } else {
                u64::MAX
            }),
    {
        self.bytes_count = self.bytes_count.saturating_add(n);
    }

    /// Status text for pollers: books handled so far out of all books.
    pub fn progress_description(&self) -> (r: String)
        requires
            self.wf(),
        ensures
            r@ == download_progress_text(self.outcomes().len(), self.total()),
    {
        let mut r = String::from_str("Загрузка книг: ");
        push_decimal(&mut r, self.processed as u64);
        r.append("/");
        push_decimal(&mut r, self.total as u64);
        r
    }
}

/// A name taken by an earlier entry is never added again, and every
/// name in the archive was given by a successful download.
pub proof fn lemma_entries_distinct(outcomes: Seq<Option<Seq<char>>>)
    ensures
        planned_entries(outcomes).no_duplicates(),
        forall|name: Seq<char>| #[trigger]
            planned_entries(outcomes).contains(name) <==> outcomes.contains(Some(name)),
    decreases outcomes.len(),
{
    if outcomes.len() > 0 {
        let prev = outcomes.drop_last();
        lemma_entries_distinct(prev);
        let before = planned_entries(prev);
        let all = planned_entries(outcomes);
        let last = outcomes.last();
        assert forall|name: Seq<char>|
            outcomes.contains(Some(name)) <==> (prev.contains(Some(name)) || last == Some(
                name,
            )) by {
            if outcomes.contains(Some(name)) {
                let k = choose|k: int| 0 <= k < outcomes.len() && outcomes[k] == Some(name);
                if k < prev.len() {
                    assert(prev[k] == Some(name));
                }
            }
            if prev.contains(Some(name)) {
                let k = choose|k: int| 0 <= k < prev.len() && prev[k] == Some(name);
                assert(outcomes[k] == Some(name));
            }
            if last == Some(name) {
                assert(outcomes[outcomes.len() - 1] == Some(name));
            }
        }
        match last {
            Some(n) => {
                if !before.contains(n) {
                    assert(all == before.push(n));
                    assert forall|name: Seq<char>|
                        all.contains(name) <==> (before.contains(name) || name == n) by {
                        if all.contains(name) {
                            let k = choose|k: int| 0 <= k < all.len() && all[k] == name;
                            if k < before.len() {
                                assert(before[k] == name);
                            }
                        }
                        if before.contains(name) {
                            let k = choose|k: int| 0 <= k < before.len() && before[k] == name;
                            assert(all[k] == name);
                        }
                        if name == n {
                            assert(all[all.len() - 1] == name);
                        }
                    }
                    assert forall|a: int, b: int|
                        0 <= a < all.len() && 0 <= b < all.len() && a != b implies all[a]
                        != all[b] by {
                        if a < before.len() && b < before.len() {
                        } else if a < before.len() {
                            assert(before.contains(all[a]));
                        } else if b < before.len() {
                            assert(before.contains(all[b]));
                        }
                    }
                } else {
                    assert(all == before);
                }
            },
            None => {
                assert(all == before);
            },
        }
    }
}

/// The names the successful downloads came with, in order.
pub open spec fn successes(outcomes: Seq<Option<Seq<char>>>) -> Seq<Seq<char>>
    decreases outcomes.len(),
{
    if outcomes.len() == 0 {
        Seq::empty()
    } else {
        match outcomes.last() {
            Some(name) => successes(outcomes.drop_last()).push(name),
            None => successes(outcomes.drop_last()),
        }
    }
}

/// When the successful downloads all have different names, every one of
/// them becomes an entry, in book order, and the failed ones add nothing.
pub proof fn lemma_distinct_downloads_all_kept(outcomes: Seq<Option<Seq<char>>>)
    requires
        successes(outcomes).no_duplicates(),
    ensures
        planned_entries(outcomes) == successes(outcomes),
    decreases outcomes.len(),
{
    if outcomes.len() > 0 {
        let prev = outcomes.drop_last();
        let sp = successes(prev);
        let so = successes(outcomes);
        assert(sp.no_duplicates()) by {
            assert forall|a: int, b: int| 0 <= a < sp.len() && 0 <= b < sp.len() && a != b implies sp[a]
                != sp[b] by {
                assert(so[a] == sp[a] && so[b] == sp[b]);
            }
        }
        lemma_distinct_downloads_all_kept(prev);
        match outcomes.last() {
            Some(name) => {
                if sp.contains(name) {
                    let k = choose|k: int| 0 <= k < sp.len() && sp[k] == name;
                    assert(so[k] == so[so.len() - 1]);
                }
            },
            None => {},
        }
    }
}

/// Of two downloads that give the same entry name, the later one is
/// skipped: only the first occurrence goes into the archive.
pub proof fn lemma_first_occurrence_wins(outcomes: Seq<Option<Seq<char>>>, i: int, j: int)
    requires
        0 <= i < j < outcomes.len(),
        outcomes[i] is Some,
        outcomes[i] == outcomes[j],
    ensures
        !adds_entry(outcomes, j),
{
    let prefix = outcomes.take(j);
    lemma_entries_distinct(prefix);
    assert(prefix[i] == outcomes[i]);
    assert(prefix.contains(outcomes[i]));
}

} // verus!
