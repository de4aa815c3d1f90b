//! The work distributor: which content hashes wait, which are being worked
//! on, and what became of the others.
//!
//! Workers take the distributor in turns. A worker asks for the next hash with
//! [`WorkDistributor::next_task`], processes it, and hands the outcome back
//! with [`WorkDistributor::complete`]. A worker that is given no hash has seen
//! the queue empty and stops. The distributor itself starts no worker and
//! waits for none: it is the book that the workers keep, and every method
//! takes it by `&mut`. However many workers there are and in whatever order
//! they come, each hash is handed out once and ends as exactly one payload or
//! one failure.

use crate::hashes::first_occurrences;
use crate::hashes::lemma_first_occurrences;
use crate::hashes::lemma_push_contains;
use crate::hashes::lemma_push_no_duplicates;
use crate::hashes::lemma_remove_contains;
use crate::hashes::position;
use crate::hashes::texts;
use crate::hashes::unique_hashes;
use crate::processor::ItemFailure;
use crate::processor::ProcessError;
use crate::queue::queue_bounded;
use crate::queue::queue_capacity;
use crate::queue::queue_closed;
use crate::queue::queue_items;
use crate::queue::queue_len;
use crate::queue::queue_pop;
use crate::queue::queue_push;
use crate::queue::MAX_QUEUE_CAPACITY;
use crate::results::result_entries;
use crate::results::results_get;
use crate::results::results_insert;
use crate::results::results_len;
use crate::results::results_new;
use crate::results::Payloads;
use concurrent_queue::ConcurrentQueue;
use dashmap::DashMap;
use vstd::prelude::*;

verus! {

/// A failure as a mathematical value: the content hash and the error.
pub type FailureRecord = (Seq<char>, ProcessError);

/// The failures that a list of records holds, in order.
pub open spec fn failure_records(list: Seq<ItemFailure>) -> Seq<FailureRecord> {
    Seq::new(list.len(), |i: int| (list[i].hash@, list[i].error))
}

/// The content hashes of a sequence of failures, in order.
pub open spec fn failed_hashes(records: Seq<FailureRecord>) -> Seq<Seq<char>> {
    Seq::new(records.len(), |i: int| records[i].0)
}

/// The book of one batch.
pub struct WorkDistributor {
    queue: ConcurrentQueue<String>,
    in_flight: Vec<String>,
    results: DashMap<String, Vec<u8>>,
    failures: Vec<ItemFailure>,
}

impl WorkDistributor {
    /// The hashes that wait for a worker, the next one first.
    pub closed spec fn pending(&self) -> Seq<Seq<char>> {
        queue_items(self.queue)
    }

    /// The hashes that were handed to a worker and have no outcome yet.
    pub closed spec fn in_flight(&self) -> Seq<Seq<char>> {
        texts(self.in_flight@)
    }

    /// The processed payloads, by content hash.
    pub closed spec fn results(&self) -> Payloads {
        result_entries(self.results)
    }

    /// The failures, in the order in which they were handed in.
    pub closed spec fn failures(&self) -> Seq<FailureRecord> {
        failure_records(self.failures@)
    }

    /// The hashes that failed.
    pub open spec fn failed(&self) -> Seq<Seq<char>> {
        failed_hashes(self.failures())
    }

    /// In how many of the four places `hash` stands: waiting, in flight,
    /// processed, failed.
    pub open spec fn places(&self, hash: Seq<char>) -> nat {
        let waiting: nat = if self.pending().contains(hash) {
            1
        } else {
            0
        };
        let flying: nat = if self.in_flight().contains(hash) {
            1
        } else {
            0
        };
        let processed: nat = if self.results().contains_key(hash) {
            1
        } else {
            0
        };
        let failed: nat = if self.failed().contains(hash) {
            1
        } else {
            0
        };
        waiting + flying + processed + failed
    }

    /// The book is in order: no hash stands in two places, none stands twice
    /// in one, and the processed payloads are finitely many.
    pub open spec fn wf(&self) -> bool {
        &&& self.pending().no_duplicates()
        &&& self.in_flight().no_duplicates()
        &&& self.failed().no_duplicates()
        &&& self.results().dom().finite()
        &&& forall|hash: Seq<char>| #[trigger] self.places(hash) <= 1
    }

    /// The hashes of the batch: all that stand anywhere in the book.
    pub open spec fn work_set(&self) -> Set<Seq<char>> {
        Set::new(|hash: Seq<char>| self.places(hash) >= 1)
    }

    /// No hash waits and none is in flight: every worker that asks is sent
    /// away, and every outcome is in.
    pub open spec fn finished(&self) -> bool {
        self.pending().len() == 0 && self.in_flight().len() == 0
    }

    /// Every outcome in the book is the one that `succeeds` tells for its
    /// hash: a payload where it says yes, a failure where it says no.
    pub open spec fn outcomes_follow(&self, succeeds: spec_fn(Seq<char>) -> bool) -> bool {
        &&& forall|hash: Seq<char>| #[trigger]
            self.results().contains_key(hash) ==> succeeds(hash)
        &&& forall|hash: Seq<char>| #[trigger] self.failed().contains(hash) ==> !succeeds(hash)
    }

    /// Opens the book for a batch: the hashes of `hashes` wait, each once, in
    /// the order in which they occur first. Nothing is in flight, processed or
    /// failed.
    ///
    /// The queue has room for [`MAX_QUEUE_CAPACITY`] hashes. A batch of more
    /// distinct hashes is refused.
    pub fn new(hashes: &Vec<String>) -> (book: Option<WorkDistributor>)
        ensures
            match book {
                Some(book) => {
                    &&& book.wf()
                    &&& book.pending() == first_occurrences(texts(hashes@))
                    &&& book.in_flight().len() == 0
                    &&& book.results() == Payloads::empty()
                    &&& book.failures().len() == 0
                    &&& book.work_set() == texts(hashes@).to_set()
                    &&& first_occurrences(texts(hashes@)).len() <= MAX_QUEUE_CAPACITY
                },
                None => first_occurrences(texts(hashes@)).len() > MAX_QUEUE_CAPACITY,
            },
    {
        let unique = unique_hashes(hashes);
        if unique.len() > MAX_QUEUE_CAPACITY {
            return None;
        }
        let capacity: usize = if unique.len() == 0 {
            1
        } else {
            unique.len()
        };
        let mut queue = queue_bounded(capacity);
        let mut i: usize = 0;
        while i < unique.len()
            invariant
                i <= unique.len() <= capacity,
                queue_capacity(queue) == Some(capacity as nat),
                !queue_closed(queue),
                queue_items(queue) == texts(unique@).take(i as int),
            decreases unique.len() - i,
        {
            let pushed = queue_push(&mut queue, unique[i].clone());
            assert(pushed);
            assert(texts(unique@).take(i as int).push(unique[i as int]@) == texts(unique@).take(
                i + 1,
            ));
            i += 1;
        }
        assert(texts(unique@).take(i as int) == texts(unique@));
        let book = WorkDistributor {
            queue,
            in_flight: Vec::new(),
            results: results_new(),
            failures: Vec::new(),
        };
        proof {
            lemma_first_occurrences(texts(hashes@));
            assert(book.in_flight() == Seq::<Seq<char>>::empty());
            assert(book.failed() == Seq::<Seq<char>>::empty());
            assert forall|hash: Seq<char>|
                book.places(hash) >= 1 <==> texts(hashes@).contains(hash) by {}
            assert(book.work_set() == texts(hashes@).to_set());
        }
        Some(book)
    }

    /// Hands the next waiting hash to a worker. The hash leaves the queue and
    /// is in flight until its outcome is handed in. `None` means that the
    /// queue is empty: the worker stops.
    pub fn next_task(&mut self) -> (task: Option<String>)
        requires
            old(self).wf(),
        ensures
            final(self).wf(),
            final(self).work_set() == old(self).work_set(),
            final(self).results() == old(self).results(),
            final(self).failures() == old(self).failures(),
            match task {
                Some(hash) => {
                    &&& old(self).pending().len() > 0
                    &&& hash@ == old(self).pending().first()
                    &&& final(self).pending() == old(self).pending().drop_first()
                    &&& final(self).in_flight() == old(self).in_flight().push(hash@)
                    &&& final(self).in_flight().contains(hash@)
                },
                None => {
                    &&& old(self).pending().len() == 0
                    &&& final(self).pending() == old(self).pending()
                    &&& final(self).in_flight() == old(self).in_flight()
                },
            },
    {
        let ghost before = *self;
        match queue_pop(&mut self.queue) {
            Some(hash) => {
                self.in_flight.push(hash.clone());
                proof {
                    let waiting = before.pending();
                    assert(self.in_flight() == before.in_flight().push(hash@));
                    assert(waiting.drop_first() == waiting.remove(0));
                    assert forall|other: Seq<char>| #[trigger]
                        self.places(other) == before.places(other) by {
                        lemma_remove_contains(waiting, 0, other);
                        lemma_push_contains(before.in_flight(), hash@, other);
                        assert(waiting.contains(hash@));
                        assert(before.places(hash@) <= 1);
                    }
                    lemma_remove_contains(waiting, 0, hash@);
                    assert(!before.in_flight().contains(hash@)) by {
                        assert(waiting.contains(hash@));
                        assert(before.places(hash@) <= 1);
                    }
                    lemma_push_no_duplicates(before.in_flight(), hash@);
                    lemma_push_contains(before.in_flight(), hash@, hash@);
                    assert(self.work_set() == before.work_set());
                }
                Some(hash)
            },
            None => {
                proof {
                    assert forall|other: Seq<char>| #[trigger]
                        self.places(other) == before.places(other) by {}
                    assert(self.work_set() == before.work_set());
                }
                None
            },
        }
    }

    /// Hands in the outcome of a hash that is in flight: its payload is
    /// stored, or its failure is put on record. The hash is then no longer in
    /// flight. An outcome for a hash that is not in flight is not taken, and
    /// the call returns `false`.
    pub fn complete(&mut self, hash: String, outcome: Result<Vec<u8>, ProcessError>) -> (taken:
        bool)
        requires
            old(self).wf(),
        ensures
            final(self).wf(),
            final(self).work_set() == old(self).work_set(),
            final(self).pending() == old(self).pending(),
            taken == old(self).in_flight().contains(hash@),
            taken ==> exists|i: int|
                0 <= i < old(self).in_flight().len() && #[trigger] old(self).in_flight()[i]
                    == hash@ && final(self).in_flight() == old(self).in_flight().remove(i),
            taken ==> match outcome {
                Ok(payload) => {
                    &&& final(self).results() == old(self).results().insert(hash@, payload@)
                    &&& final(self).results().dom().len() == old(self).results().dom().len() + 1
                    &&& final(self).failures() == old(self).failures()
                },
                Err(error) => {
                    &&& final(self).results() == old(self).results()
                    &&& final(self).failures() == old(self).failures().push((hash@, error))
                },
            },
            !taken ==> {
                &&& final(self).in_flight() == old(self).in_flight()
                &&& final(self).results() == old(self).results()
                &&& final(self).failures() == old(self).failures()
            },
            forall|succeeds: spec_fn(Seq<char>) -> bool|
                old(self).outcomes_follow(succeeds) && (outcome is Ok == succeeds(hash@))
                    ==> #[trigger] final(self).outcomes_follow(succeeds),
    {
        let ghost before = *self;
        let place = match position(&self.in_flight, &hash) {
            Some(place) => place,
            None => {
                return false;
            },
        };
        let ghost flying = before.in_flight();
        let _ = self.in_flight.remove(place);
        proof {
            assert(self.in_flight() == flying.remove(place as int));
            assert(flying.contains(hash@));
            assert(before.places(hash@) <= 1);
        }
        match outcome {
            Ok(payload) => {
                results_insert(&mut self.results, hash, payload);
                proof {
                    assert forall|other: Seq<char>| #[trigger]
                        self.places(other) == before.places(other) by {
                        lemma_remove_contains(flying, place as int, other);
                    }
                    lemma_remove_contains(flying, place as int, hash@);
                    assert(self.work_set() == before.work_set());
                    assert forall|succeeds: spec_fn(Seq<char>) -> bool|
                        before.outcomes_follow(succeeds) && succeeds(
                            hash@,
                        ) implies #[trigger] self.outcomes_follow(succeeds) by {
                        assert forall|other: Seq<char>| #[trigger]
                            self.results().contains_key(other) implies succeeds(other) by {
                            if other != hash@ {
                                assert(before.results().contains_key(other));
                            }
                        }
                        assert(self.failed() == before.failed());
                    }
                }
            },
            Err(error) => {
                self.failures.push(ItemFailure { hash, error });
                proof {
                    assert(self.failures() == before.failures().push((hash@, error)));
                    assert(self.failed() == before.failed().push(hash@));
                    assert forall|other: Seq<char>| #[trigger]
                        self.places(other) == before.places(other) by {
                        lemma_remove_contains(flying, place as int, other);
                        lemma_push_contains(before.failed(), hash@, other);
                    }
                    lemma_remove_contains(flying, place as int, hash@);
                    lemma_push_no_duplicates(before.failed(), hash@);
                    assert(self.work_set() == before.work_set());
                    assert forall|succeeds: spec_fn(Seq<char>) -> bool|
                        before.outcomes_follow(succeeds) && !succeeds(
                            hash@,
                        ) implies #[trigger] self.outcomes_follow(succeeds) by {
                        assert forall|other: Seq<char>| #[trigger]
                            self.failed().contains(other) implies !succeeds(other) by {
                            lemma_push_contains(before.failed(), hash@, other);
                        }
                        assert(self.results() == before.results());
                    }
                }
            },
        }
        true
    }

    /// Whether the batch is done: no hash waits and none is in flight.
    pub fn is_finished(&self) -> (done: bool)
        ensures
            done == self.finished(),
    {
        queue_len(&self.queue) == 0 && self.in_flight.len() == 0
    }

    /// The number of items that were processed with success. It never goes
    /// down, and goes up by one with each payload that is handed in.
    pub fn progress(&self) -> (count: usize)
        ensures
            count == self.results().dom().len(),
    {
        results_len(&self.results)
    }

    /// What became of `hash`: its payload, its failure, or `None` where the
    /// book holds neither, because the hash still waits, is in flight, or is
    /// not of this batch.
    pub fn outcome_of(&self, hash: &String) -> (outcome: Option<Result<Vec<u8>, ProcessError>>)
        ensures
            match outcome {
                Some(Ok(payload)) => {
                    &&& self.results().contains_key(hash@)
                    &&& payload@ == self.results()[hash@]
                },
                Some(Err(error)) => {
                    &&& !self.results().contains_key(hash@)
                    &&& self.failures().contains((hash@, error))
                },
                None => {
                    &&& !self.results().contains_key(hash@)
                    &&& !self.failed().contains(hash@)
                },
            },
    {
        match results_get(&self.results, hash) {
            Some(payload) => {
                return Some(Ok(payload));
            },
            None => {},
        }
        let mut i: usize = 0;
        while i < self.failures.len()
            invariant
                i <= self.failures.len(),
                !self.results().contains_key(hash@),
                forall|j: int| 0 <= j < i ==> self.failed()[j] != hash@,
            decreases self.failures.len() - i,
        {
            if self.failures[i].hash == *hash {
                let error = self.failures[i].error;
                assert(self.failures()[i as int] == (hash@, error));
                return Some(Err(error));
            }
            i += 1;
        }
        None
    }

    /// The processed payloads.
    ///
    /// The map can be changed through the reference that is handed out, and
    /// the book does not see it: what the book states of itself holds as long
    /// as the map is only read through it.
    pub fn results_map(&self) -> (map: &DashMap<String, Vec<u8>>)
        ensures
            result_entries(*map) == self.results(),
    {
        &self.results
    }

    /// The failures, in the order in which they were handed in.
    pub fn failure_list(&self) -> (list: &Vec<ItemFailure>)
        ensures
            failure_records(list@) == self.failures(),
    {
        &self.failures
    }
}

/// Whether `process` succeeds depends on the hash alone: it gives a payload
/// for the hashes of which `succeeds` says yes, and fails on the others.
pub open spec fn decides_by_hash<F: Fn(&String) -> Result<Vec<u8>, ProcessError>>(
    process: F,
    succeeds: spec_fn(Seq<char>) -> bool,
) -> bool {
    forall|input: &String, outcome: Result<Vec<u8>, ProcessError>| #[trigger]
        call_ensures(process, (input,), outcome) ==> (outcome is Ok == succeeds(input@))
}

/// The number of workers for a machine that can run `available` threads at
/// once: that number, and one where it is unknown or zero.
pub fn worker_count(available: Option<usize>) -> (workers: usize)
    ensures
        workers >= 1,
        workers == match available {
            Some(threads) if threads >= 1 => threads,
            _ => 1usize,
        },
{
    match available {
        Some(threads) => if threads >= 1 {
            threads
        } else {
            1
        },
        None => 1,
    }
}

/// The loop of one worker: takes hash after hash from the book, has each
/// processed by `process`, and hands the outcome in, until no hash waits.
///
/// A failure ends the work on its own item only: it is put on record and the
/// loop goes on. When the worker stops, no hash waits, every hash that waited
/// has a payload or a failure, and each of these is what `process` returned
/// for that hash. What was in flight with other workers still is; payloads and
/// failures that were in the book before are as they were.
pub fn process_chunk<F: Fn(&String) -> Result<Vec<u8>, ProcessError>>(
    book: &mut WorkDistributor,
    process: F,
)
    requires
        old(book).wf(),
        forall|hash: &String| call_requires(process, (hash,)),
    ensures
        final(book).wf(),
        final(book).work_set() == old(book).work_set(),
        final(book).pending().len() == 0,
        final(book).in_flight() == old(book).in_flight(),
        forall|hash: Seq<char>| #[trigger]
            old(book).pending().contains(hash) ==> (final(book).results().contains_key(hash)
                != final(book).failed().contains(hash)),
        forall|hash: Seq<char>|
            old(book).results().contains_key(hash) ==> #[trigger] final(book).results().contains_key(
                hash,
            ) && final(book).results()[hash] == old(book).results()[hash],
        forall|hash: Seq<char>|
            old(book).pending().contains(hash) && #[trigger] final(book).results().contains_key(
                hash,
            ) ==> exists|input: String, payload: Vec<u8>|
                input@ == hash && payload@ == final(book).results()[hash] && call_ensures(
                    process,
                    (&input,),
                    Ok(payload),
                ),
        old(book).failures().is_prefix_of(final(book).failures()),
        forall|i: int|
            old(book).failures().len() <= i < final(book).failures().len() ==> old(
                book,
            ).pending().contains((#[trigger] final(book).failures()[i]).0) && exists|input: String|
                input@ == final(book).failures()[i].0 && call_ensures(
                    process,
                    (&input,),
                    Err::<Vec<u8>, ProcessError>(final(book).failures()[i].1),
                ),
        forall|succeeds: spec_fn(Seq<char>) -> bool|
            old(book).outcomes_follow(succeeds) && decides_by_hash(process, succeeds)
                ==> #[trigger] final(book).outcomes_follow(succeeds),
{
    let ghost start = *book;
    proof {
        assert forall|hash: Seq<char>| start.pending().contains(hash) implies !(
        #[trigger] start.results().contains_key(hash)) by {
            assert(start.places(hash) <= 1);
        }
    }
    loop
        invariant
            book.wf(),
            book.work_set() == start.work_set(),
            book.in_flight() == start.in_flight(),
            start.wf(),
            forall|hash: &String| call_requires(process, (hash,)),
            forall|hash: Seq<char>| #[trigger]
                book.pending().contains(hash) ==> start.pending().contains(hash),
            forall|hash: Seq<char>|
                start.results().contains_key(hash) ==> #[trigger] book.results().contains_key(hash)
                    && book.results()[hash] == start.results()[hash],
            forall|hash: Seq<char>|
                start.pending().contains(hash) && #[trigger] book.results().contains_key(hash)
                    ==> exists|input: String, payload: Vec<u8>|
                    input@ == hash && payload@ == book.results()[hash] && call_ensures(
                        process,
                        (&input,),
                        Ok(payload),
                    ),
            start.failures().is_prefix_of(book.failures()),
            forall|i: int|
                start.failures().len() <= i < book.failures().len() ==> start.pending().contains(
                    (#[trigger] book.failures()[i]).0,
                ) && exists|input: String|
                    input@ == book.failures()[i].0 && call_ensures(
                        process,
                        (&input,),
                        Err::<Vec<u8>, ProcessError>(book.failures()[i].1),
                    ),
            forall|succeeds: spec_fn(Seq<char>) -> bool|
                start.outcomes_follow(succeeds) && decides_by_hash(process, succeeds)
                    ==> #[trigger] book.outcomes_follow(succeeds),
        ensures
            book.pending().len() == 0,
        decreases book.pending().len(),
    {
        let ghost before = *book;
        let hash = match book.next_task() {
            Some(hash) => hash,
            None => {
                proof {
                    assert forall|succeeds: spec_fn(Seq<char>) -> bool|
                        start.outcomes_follow(succeeds) && decides_by_hash(
                            process,
                            succeeds,
                        ) implies #[trigger] book.outcomes_follow(succeeds) by {
                        assert(before.outcomes_follow(succeeds));
                        assert(book.failed() == before.failed());
                    }
                }
                break;
            },
        };
        let ghost waiting = before.pending();
        let ghost flying = book.in_flight();
        proof {
            assert(waiting.contains(hash@));
            assert(waiting.drop_first() == waiting.remove(0));
            assert forall|other: Seq<char>| #[trigger]
                book.pending().contains(other) implies before.pending().contains(other) by {
                lemma_remove_contains(waiting, 0, other);
            }
            assert(before.places(hash@) <= 1);
            assert(flying[flying.len() - 1] == hash@);
            assert(flying.contains(hash@));
        }
        let outcome = process(&hash);
        let ghost input = hash;
        let ghost answer = outcome;
        let ghost middle = *book;
        let taken = book.complete(hash, outcome);
        proof {
            assert forall|succeeds: spec_fn(Seq<char>) -> bool|
                start.outcomes_follow(succeeds) && decides_by_hash(
                    process,
                    succeeds,
                ) implies #[trigger] book.outcomes_follow(succeeds) by {
                assert(before.outcomes_follow(succeeds));
                assert(middle.outcomes_follow(succeeds));
                assert(call_ensures(process, (&input,), answer));
            }
            assert(taken);
            let i = choose|i: int|
                0 <= i < flying.len() && #[trigger] flying[i] == input@ && book.in_flight()
                    == flying.remove(i);
            assert(flying.no_duplicates());
            assert(i == flying.len() - 1);
            assert(flying.remove(i) == before.in_flight());
            assert(!start.results().contains_key(input@)) by {
                assert(start.places(input@) <= 1);
            }
            match answer {
                Ok(payload) => {
                    assert(book.results() == middle.results().insert(input@, payload@));
                    assert forall|other: Seq<char>|
                        start.results().contains_key(other) implies #[trigger] book.results().contains_key(
                        other,
                    ) && book.results()[other] == start.results()[other] by {
                        assert(middle.results().contains_key(other));
                        assert(other != input@);
                    }
                    assert forall|other: Seq<char>|
                        start.pending().contains(other) && #[trigger] book.results().contains_key(
                            other,
                        ) implies exists|text: String, bytes: Vec<u8>|
                        text@ == other && bytes@ == book.results()[other] && call_ensures(
                            process,
                            (&text,),
                            Ok(bytes),
                        ) by {
                        if other == input@ {
                            assert(call_ensures(process, (&input,), Ok(payload)));
                        } else {
                            assert(middle.results().contains_key(other));
                        }
                    }
                },
                Err(error) => {
                    assert forall|k: int|
                        start.failures().len() <= k < book.failures().len() implies start.pending().contains(
                        (#[trigger] book.failures()[k]).0,
                    ) && exists|text: String|
                        text@ == book.failures()[k].0 && call_ensures(
                            process,
                            (&text,),
                            Err::<Vec<u8>, ProcessError>(book.failures()[k].1),
                        ) by {
                        if k == book.failures().len() - 1 {
                            assert(call_ensures(
                                process,
                                (&input,),
                                Err::<Vec<u8>, ProcessError>(error),
                            ));
                        } else {
                            assert(book.failures()[k] == middle.failures()[k]);
                        }
                    }
                },
            }
        }
    }
    proof {
        assert forall|hash: Seq<char>| #[trigger]
            start.pending().contains(hash) implies (book.results().contains_key(hash)
            != book.failed().contains(hash)) by {
            assert(start.places(hash) <= 1);
            assert(start.work_set().contains(hash));
            assert(book.work_set().contains(hash));
            assert(book.places(hash) <= 1);
            assert(book.pending() == Seq::<Seq<char>>::empty());
            assert(!book.in_flight().contains(hash));
        }
    }
}

/// Runs a batch from beginning to end with a single worker.
///
/// Every hash of `hashes` is processed once, however often it is listed. The
/// book that is returned is finished: it holds a payload or a failure for each
/// hash, as many of them as there are distinct hashes, and each is what
/// `process` returned for its hash. A batch of more than
/// [`MAX_QUEUE_CAPACITY`] distinct hashes is refused.
pub fn run_pipeline<F: Fn(&String) -> Result<Vec<u8>, ProcessError>>(
    hashes: &Vec<String>,
    process: F,
) -> (book: Option<WorkDistributor>)
    requires
        forall|hash: &String| call_requires(process, (hash,)),
    ensures
        match book {
            Some(book) => {
                &&& book.wf()
                &&& book.finished()
                &&& book.work_set() == texts(hashes@).to_set()
                &&& book.results().dom().len() + book.failures().len() == first_occurrences(
                    texts(hashes@),
                ).len()
                &&& forall|hash: Seq<char>| #[trigger]
                    texts(hashes@).contains(hash) ==> (book.results().contains_key(hash)
                        != book.failed().contains(hash))
                &&& forall|hash: Seq<char>| #[trigger]
                    book.results().contains_key(hash) ==> exists|input: String, payload: Vec<u8>|
                        input@ == hash && payload@ == book.results()[hash] && call_ensures(
                            process,
                            (&input,),
                            Ok(payload),
                        )
                &&& forall|i: int|
                    0 <= i < book.failures().len() ==> exists|input: String|
                        input@ == (#[trigger] book.failures()[i]).0 && call_ensures(
                            process,
                            (&input,),
                            Err::<Vec<u8>, ProcessError>(book.failures()[i].1),
                        )
                &&& forall|succeeds: spec_fn(Seq<char>) -> bool|
                    decides_by_hash(process, succeeds) ==> #[trigger] book.outcomes_follow(
                        succeeds,
                    )
                &&& first_occurrences(texts(hashes@)).len() <= MAX_QUEUE_CAPACITY
            },
            None => first_occurrences(texts(hashes@)).len() > MAX_QUEUE_CAPACITY,
        },
{
    let mut book = match WorkDistributor::new(hashes) {
        Some(book) => book,
        None => {
            return None;
        },
    };
    let ghost start = book;
    process_chunk(&mut book, process);
    proof {
        assert forall|succeeds: spec_fn(Seq<char>) -> bool|
            decides_by_hash(process, succeeds) implies #[trigger] book.outcomes_follow(
            succeeds,
        ) by {
            assert(start.failed() == Seq::<Seq<char>>::empty());
            assert(start.outcomes_follow(succeeds));
        }
        let listed = texts(hashes@);
        let unique = first_occurrences(listed);
        lemma_first_occurrences(listed);
        assert(book.finished());
        lemma_finished_batch_is_accounted_for(book);
        unique.unique_seq_to_set();
        assert(unique.to_set() == listed.to_set());
        assert forall|hash: Seq<char>| #[trigger] book.results().contains_key(hash) implies exists|
            input: String,
            payload: Vec<u8>,
        |
            input@ == hash && payload@ == book.results()[hash] && call_ensures(
                process,
                (&input,),
                Ok(payload),
            ) by {
            assert(book.places(hash) >= 1);
            assert(book.work_set().contains(hash));
            assert(listed.contains(hash));
            assert(start.pending().contains(hash));
        }
        assert forall|hash: Seq<char>| #[trigger] listed.contains(hash) implies (
        book.results().contains_key(hash) != book.failed().contains(hash)) by {
            assert(start.pending().contains(hash));
        }
    }
    Some(book)
}

/// When every worker has stopped, each hash of the batch has exactly one
/// outcome: the hashes with a payload and the hashes with a failure are
/// disjoint, together they are the batch, no hash failed twice, and there are
/// as many payloads and failures as the batch has hashes.
pub proof fn lemma_finished_batch_is_accounted_for(book: WorkDistributor)
    requires
        book.wf(),
        book.finished(),
    ensures
        book.results().dom().disjoint(book.failed().to_set()),
        book.results().dom().union(book.failed().to_set()) == book.work_set(),
        book.failed().no_duplicates(),
        book.work_set().finite(),
        book.results().dom().len() + book.failures().len() == book.work_set().len(),
{
    let processed = book.results().dom();
    let failed = book.failed().to_set();
    assert(book.pending() == Seq::<Seq<char>>::empty());
    assert(book.in_flight() == Seq::<Seq<char>>::empty());
    assert forall|hash: Seq<char>| !(processed.contains(hash) && failed.contains(hash)) by {
        assert(book.places(hash) <= 1);
    }
    assert(processed.union(failed) == book.work_set());
    book.failed().unique_seq_to_set();
    vstd::seq_lib::seq_to_set_is_finite(book.failed());
    vstd::set_lib::lemma_set_disjoint_lens(processed, failed);
}

/// A finished batch of `k` distinct hashes ends with `k` outcomes, one for
/// each hash: every hash has a payload or a failure and not both, no hash has
/// two failures, and payloads and failures together number `k`. This holds of
/// every finished book, however many workers have kept it and in whatever
/// order they came.
pub proof fn lemma_every_hash_has_one_outcome(book: WorkDistributor, hashes: Seq<Seq<char>>)
    requires
        book.wf(),
        book.finished(),
        hashes.no_duplicates(),
        book.work_set() == hashes.to_set(),
    ensures
        book.results().dom().len() + book.failures().len() == hashes.len(),
        book.failed().no_duplicates(),
        forall|i: int|
            0 <= i < hashes.len() ==> (book.results().contains_key(#[trigger] hashes[i])
                != book.failed().contains(hashes[i])),
        forall|hash: Seq<char>|
            book.results().contains_key(hash) || book.failed().contains(hash)
                ==> #[trigger] hashes.contains(hash),
{
    lemma_finished_batch_is_accounted_for(book);
    hashes.unique_seq_to_set();
    assert forall|i: int| 0 <= i < hashes.len() implies (book.results().contains_key(
        #[trigger] hashes[i],
    ) != book.failed().contains(hashes[i])) by {
        assert(hashes.contains(hashes[i]));
        assert(book.work_set().contains(hashes[i]));
        assert(book.places(hashes[i]) <= 1);
        assert(book.pending() == Seq::<Seq<char>>::empty());
        assert(book.in_flight() == Seq::<Seq<char>>::empty());
    }
    assert forall|hash: Seq<char>|
        book.results().contains_key(hash) || book.failed().contains(
            hash,
        ) implies #[trigger] hashes.contains(hash) by {
        assert(book.places(hash) >= 1);
        assert(book.work_set().contains(hash));
    }
}

/// In a finished batch a failure stays with its own item. Where the outcome
/// of an item depends on its hash alone, the hashes that succeed have their
/// payload and no failure, and the hashes that fail have one failure and no
/// payload, whatever became of the others.
pub proof fn lemma_failures_stay_with_their_items(
    book: WorkDistributor,
    succeeds: spec_fn(Seq<char>) -> bool,
)
    requires
        book.wf(),
        book.finished(),
        book.outcomes_follow(succeeds),
    ensures
        book.failed().no_duplicates(),
        forall|hash: Seq<char>| #[trigger]
            book.work_set().contains(hash) ==> {
                &&& book.results().contains_key(hash) == succeeds(hash)
                &&& book.failed().contains(hash) == !succeeds(hash)
            },
{
    assert(book.pending() == Seq::<Seq<char>>::empty());
    assert(book.in_flight() == Seq::<Seq<char>>::empty());
    assert forall|hash: Seq<char>| #[trigger] book.work_set().contains(hash) implies {
        &&& book.results().contains_key(hash) == succeeds(hash)
        &&& book.failed().contains(hash) == !succeeds(hash)
    } by {
        assert(book.places(hash) >= 1);
        assert(book.places(hash) <= 1);
    }
}

/// The outcome of a batch does not depend on its workers. Two finished books
/// of the same batch, kept by any number of workers in any order, hold
/// payloads for the same hashes and failures for the same hashes, as long as
/// the outcome of an item depends on its hash alone.
pub proof fn lemma_outcome_does_not_depend_on_the_workers(
    first: WorkDistributor,
    second: WorkDistributor,
    succeeds: spec_fn(Seq<char>) -> bool,
)
    requires
        first.wf(),
        first.finished(),
        first.outcomes_follow(succeeds),
        second.wf(),
        second.finished(),
        second.outcomes_follow(succeeds),
        first.work_set() == second.work_set(),
    ensures
        first.results().dom() == second.results().dom(),
        first.failed().to_set() == second.failed().to_set(),
{
    lemma_failures_stay_with_their_items(first, succeeds);
    lemma_failures_stay_with_their_items(second, succeeds);
    assert forall|hash: Seq<char>|
        first.results().contains_key(hash) == second.results().contains_key(hash) by {
        if first.results().contains_key(hash) {
            assert(first.places(hash) >= 1);
            assert(first.work_set().contains(hash));
            assert(second.work_set().contains(hash));
        }
        if second.results().contains_key(hash) {
            assert(second.places(hash) >= 1);
            assert(second.work_set().contains(hash));
            assert(first.work_set().contains(hash));
        }
    }
    assert(first.results().dom() =~= second.results().dom());
    assert forall|hash: Seq<char>|
        first.failed().contains(hash) == second.failed().contains(hash) by {
        if first.failed().contains(hash) {
            assert(first.places(hash) >= 1);
            assert(first.work_set().contains(hash));
            assert(second.work_set().contains(hash));
        }
        if second.failed().contains(hash) {
            assert(second.places(hash) >= 1);
            assert(second.work_set().contains(hash));
            assert(first.work_set().contains(hash));
        }
    }
    assert(first.failed().to_set() =~= second.failed().to_set());
}

} // verus!
