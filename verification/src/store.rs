//! The jobs that are kept, and the state that applies to all of them.
use crate::job::{Job, JobView};
use crate::moment::{is_now, utc_now, Timestamp};
use crate::path::{join_path, path_join};
use crate::text::same;
use vstd::prelude::*;

verus! {

/// A job and the key that it is kept under.
#[derive(Debug)]
pub struct Entry {
    pub key: String,
    pub job: Job,
}

/// The jobs, each under a key of its own.
#[derive(Debug)]
pub struct JobStore {
    pub jobs: Vec<Entry>,
}

/// The position of a key among the entries.
pub open spec fn position(entries: Seq<Entry>, key: Seq<char>) -> Option<int>
    decreases entries.len(),
{
    if entries.len() == 0 {
        None
    } else if entries.last().key@ == key {
        Some(entries.len() - 1)
    } else {
        position(entries.drop_last(), key)
    }
}

/// A key is found where it stands, and nowhere where it does not.
proof fn lemma_position(entries: Seq<Entry>, key: Seq<char>)
    ensures
        position(entries, key) matches Some(i) ==> 0 <= i < entries.len() && entries[i].key@ == key,
        position(entries, key) is None ==> forall|i: int|
            0 <= i < entries.len() ==> (#[trigger] entries[i]).key@ != key,
    decreases entries.len(),
{
    if entries.len() > 0 {
        lemma_position(entries.drop_last(), key);
        if position(entries, key) is None {
            assert forall|i: int| 0 <= i < entries.len() implies (#[trigger] entries[i]).key@
                != key by {
                if i < entries.len() - 1 {
                    assert(entries.drop_last()[i].key@ != key);
                }
            }
        }
    }
}

/// Where no key stands twice, a key is found at the one place where it stands.
proof fn lemma_position_is(entries: Seq<Entry>, key: Seq<char>, i: int)
    requires
        distinct_keys(entries),
        0 <= i < entries.len(),
        entries[i].key@ == key,
    ensures
        position(entries, key) == Some(i),
{
    lemma_position(entries, key);
}

/// No key stands twice.
pub open spec fn distinct_keys(entries: Seq<Entry>) -> bool {
    forall|i: int, j: int|
        0 <= i < j < entries.len() ==> (#[trigger] entries[i]).key@ != (#[trigger] entries[j]).key@
}

impl View for JobStore {
    type V = Map<Seq<char>, JobView>;

    open spec fn view(&self) -> Map<Seq<char>, JobView> {
        jobs_by_key(self.jobs@)
    }
}

/// The jobs of the entries, by their keys.
pub open spec fn jobs_by_key(entries: Seq<Entry>) -> Map<Seq<char>, JobView> {
    Map::new(
        |k: Seq<char>| position(entries, k) is Some,
        |k: Seq<char>| entries[position(entries, k)->0].job@,
    )
}

/// A change of an entry that leaves its key alone changes the job under that key.
proof fn lemma_changed_entry(entries: Seq<Entry>, i: int, e: Entry)
    requires
        distinct_keys(entries),
        0 <= i < entries.len(),
        e.key@ == entries[i].key@,
    ensures
        distinct_keys(entries.update(i, e)),
        jobs_by_key(entries.update(i, e)) == jobs_by_key(entries).insert(e.key@, e.job@),
{
    let after = entries.update(i, e);
    lemma_position_is(entries, e.key@, i);
    assert forall|k: Seq<char>| #[trigger] position(after, k) == position(entries, k) by {
        lemma_same_positions(entries, after, k);
        lemma_position(entries, k);
    }
    assert forall|k: Seq<char>| k != e.key@ && position(entries, k) is Some implies after[(
    #[trigger] position(entries, k))->0] == entries[position(entries, k)->0] by {
        lemma_position(entries, k);
    }
    assert(jobs_by_key(after) =~= jobs_by_key(entries).insert(e.key@, e.job@));
}

/// A sequence of jobs in order of age, with one more put in its place: after those that are
/// as old or older.
pub open spec fn placed(s: Seq<JobView>, j: JobView) -> Seq<JobView>
    decreases s.len(),
{
    if s.len() == 0 || s.last().created_at.spec_le(j.created_at) {
        s.push(j)
    } else {
        placed(s.drop_last(), j).push(s.last())
    }
}

/// The jobs of a sequence, the oldest first. Those of the same age keep their order.
pub open spec fn by_age(s: Seq<JobView>) -> Seq<JobView>
    decreases s.len(),
{
    if s.len() == 0 {
        Seq::empty()
    } else {
        placed(by_age(s.drop_last()), s.last())
    }
}

/// What is seen of a list of jobs.
pub open spec fn job_views(jobs: Seq<&Job>) -> Seq<JobView> {
    jobs.map_values(|j: &Job| j@)
}

pub open spec fn is_by_age(s: Seq<JobView>) -> bool {
    forall|i: int, j: int|
        0 <= i <= j < s.len() ==> (#[trigger] s[i]).created_at.spec_le(
            (#[trigger] s[j]).created_at,
        )
}

/// A job that is put in its place leaves the sequence in order, and adds itself only.
proof fn lemma_placed(s: Seq<JobView>, j: JobView)
    requires
        is_by_age(s),
    ensures
        is_by_age(placed(s, j)),
        placed(s, j).to_multiset() == s.to_multiset().insert(j),
        placed(s, j).len() == s.len() + 1,
        forall|t: Timestamp|
            s.len() > 0 && s.last().created_at.spec_le(t) && j.created_at.spec_le(t)
                ==> #[trigger] placed(s, j).last().created_at.spec_le(t),
        s.len() == 0 ==> placed(s, j) == seq![j],
    decreases s.len(),
{
    broadcast use vstd::seq_lib::group_to_multiset_ensures;

    if s.len() == 0 || s.last().created_at.spec_le(j.created_at) {
        let p = s.push(j);
        assert forall|a: int, b: int| 0 <= a <= b < p.len() implies (
        #[trigger] p[a]).created_at.spec_le((#[trigger] p[b]).created_at) by {
            if b == s.len() && a < b {
                assert(s[a].created_at.spec_le(s[s.len() - 1].created_at));
            } else if b < s.len() {
                assert(s[a].created_at.spec_le(s[b].created_at));
            }
        }
        assert(s.len() == 0 ==> p == seq![j]);
    } else {
        let front = s.drop_last();
        assert(is_by_age(front)) by {
            assert forall|a: int, b: int| 0 <= a <= b < front.len() implies (
            #[trigger] front[a]).created_at.spec_le((#[trigger] front[b]).created_at) by {
                assert(s[a].created_at.spec_le(s[b].created_at));
            }
        }
        lemma_placed(front, j);
        let q = placed(front, j);
        let p = q.push(s.last());
        if front.len() > 0 {
            assert(s[front.len() - 1].created_at.spec_le(s[s.len() - 1].created_at));
        }
        assert(q.last().created_at.spec_le(s.last().created_at));
        assert forall|a: int, b: int| 0 <= a <= b < p.len() implies (
        #[trigger] p[a]).created_at.spec_le((#[trigger] p[b]).created_at) by {
            if b == q.len() && a < b {
                assert(q[a].created_at.spec_le(q[q.len() - 1].created_at));
            } else if b < q.len() {
                assert(q[a].created_at.spec_le(q[b].created_at));
            }
        }
        assert(s == front.push(s.last()));
        assert(p.to_multiset() =~= s.to_multiset().insert(j));
    }
}

/// Sorting by age keeps exactly the jobs that there are, and puts the oldest first.
pub proof fn law_listing_is_sorted(s: Seq<JobView>)
    ensures
        is_by_age(by_age(s)),
        by_age(s).to_multiset() == s.to_multiset(),
        by_age(s).len() == s.len(),
    decreases s.len(),
{
    broadcast use vstd::seq_lib::group_to_multiset_ensures;

    if s.len() > 0 {
        law_listing_is_sorted(s.drop_last());
        lemma_placed(by_age(s.drop_last()), s.last());
        assert(s == s.drop_last().push(s.last()));
    }
}

impl JobStore {
    pub open spec fn wf(self) -> bool {
        distinct_keys(self.jobs@)
    }

    /// The jobs in the order in which they are kept.
    pub open spec fn kept(self) -> Seq<JobView> {
        self.jobs@.map_values(|e: Entry| e.job@)
    }

    /// The jobs, the oldest first.
    pub open spec fn listed(self) -> Seq<JobView> {
        by_age(self.kept())
    }

    /// Each job stands under its own ID.
    pub open spec fn keyed_by_id(self) -> bool {
        forall|i: int| 0 <= i < self.jobs@.len() ==> (#[trigger] self.jobs@[i]).key@
            == self.jobs@[i].job.id@
    }

    /// The instants and times of all jobs are ones that a date or a clock can show.
    pub open spec fn jobs_wf(self) -> bool {
        forall|i: int| 0 <= i < self.jobs@.len() ==> (#[trigger] self.jobs@[i]).job@.wf()
    }

    fn find(&self, id: &str) -> (r: Option<usize>)
        ensures
            r is Some <==> position(self.jobs@, id@) is Some,
            r matches Some(i) ==> i < self.jobs@.len() && position(self.jobs@, id@) == Some(
                i as int,
            ),
    {
        let mut i: usize = self.jobs.len();
        assert(self.jobs@.take(i as int) == self.jobs@);
        while i > 0
            invariant
                i <= self.jobs@.len(),
                position(self.jobs@.take(i as int), id@) == position(self.jobs@, id@),
            decreases i,
        {
            assert(self.jobs@.take(i as int).last() == self.jobs@[i - 1]);
            assert(self.jobs@.take(i as int).drop_last() == self.jobs@.take(i - 1));
            if same(self.jobs[i - 1].key.as_str(), id) {
                return Some(i - 1);
            }
            i -= 1;
        }
        None
    }

    /// Keep a job under its ID, in place of the one that is kept under it.
    pub fn add(&mut self, job: Job)
        requires
            old(self).wf(),
        ensures
            final(self).wf(),
            final(self)@ == old(self)@.insert(job@.id, job@),
            old(self).keyed_by_id() ==> final(self).keyed_by_id(),
            old(self).jobs_wf() && job@.wf() ==> final(self).jobs_wf(),
    {
        let found = self.find(job.id.as_str());
        let key = job.id.clone();
        let ghost before = self.jobs@;
        let ghost id = job@.id;
        let ghost new = job@;
        match found {
            Some(i) => {
                let entry = Entry { key, job };
                proof {
                    lemma_position(before, id);
                    lemma_changed_entry(before, i as int, entry);
                }
                self.jobs.set(i, entry);
            },
            None => {
                proof {
                    lemma_position(before, id);
                }
                self.jobs.push(Entry { key, job });
                proof {
                    let after = self.jobs@;
                    assert(after.drop_last() == before);
                    assert forall|k: Seq<char>| k != id implies #[trigger] position(after, k)
                        == position(before, k) by {}
                    assert forall|k: Seq<char>| k != id && position(before, k) is Some implies
                        after[(#[trigger] position(before, k))->0] == before[position(
                        before,
                        k,
                    )->0] by {
                        lemma_position(before, k);
                    }
                    assert(self@ =~= old(self)@.insert(id, new));
                }
            },
        }
    }

    /// Take a job out, where one is kept under this ID.
    pub fn remove(&mut self, id: &str) -> (r: Option<Job>)
        requires
            old(self).wf(),
        ensures
            final(self).wf(),
            final(self)@ == old(self)@.remove(id@),
            r is Some <==> old(self)@.contains_key(id@),
            r matches Some(job) ==> job@ == old(self)@[id@],
            old(self).keyed_by_id() ==> final(self).keyed_by_id(),
            old(self).jobs_wf() ==> final(self).jobs_wf(),
    {
        let ghost before = self.jobs@;
        match self.find(id) {
            Some(i) => {
                proof {
                    lemma_position(before, id@);
                }
                let entry = self.jobs.remove(i);
                proof {
                    let after = self.jobs@;
                    assert(after == before.remove(i as int));
                    assert(distinct_keys(after));
                    assert forall|k: Seq<char>| true implies (#[trigger] position(after, k) is Some
                        <==> k != id@ && position(before, k) is Some) && (position(after, k) is Some
                        ==> after[position(after, k)->0] == before[position(before, k)->0]) by {
                        lemma_position(after, k);
                        lemma_position(before, k);
                        if let Some(j) = position(after, k) {
                            let b = if j < i {
                                j
                            } else {
                                j + 1
                            };
                            assert(before[b] == after[j]);
                            lemma_position_is(before, k, b);
                        } else if let Some(b) = position(before, k) {
                            if b != i {
                                let j = if b < i {
                                    b
                                } else {
                                    b - 1
                                };
                                assert(after[j] == before[b]);
                            }
                        }
                    }
                    assert(self@ =~= old(self)@.remove(id@));
                }
                Some(entry.job)
            },
            None => {
                assert(self@ =~= old(self)@.remove(id@));
                None
            },
        }
    }

    /// The job that is kept under an ID.
    pub fn get(&self, id: &str) -> (r: Option<&Job>)
        ensures
            r is Some <==> self@.contains_key(id@),
            r matches Some(job) ==> job@ == self@[id@],
    {
        match self.find(id) {
            Some(i) => Some(&self.jobs[i].job),
            None => None,
        }
    }

    /// The job that is kept under an ID, to be changed.
    pub fn get_mut(&mut self, id: &str) -> (r: Option<&mut Job>)
        requires
            old(self).wf(),
        ensures
            r is Some <==> old(self)@.contains_key(id@),
            r is None ==> *final(self) == *old(self),
            r matches Some(job) ==> {
                &&& (*job)@ == old(self)@[id@]
                &&& final(self).wf()
                &&& final(self)@ == old(self)@.insert(id@, (*final(job))@)
                &&& old(self).keyed_by_id() && (*final(job))@.id == id@ ==> final(self).keyed_by_id()
                &&& old(self).jobs_wf() && (*final(job))@.wf() ==> final(self).jobs_wf()
            },
    {
        match self.find(id) {
            Some(i) => {
                proof {
                    let entries = self.jobs@;
                    lemma_position(entries, id@);
                    assert forall|e: Entry| e.key@ == id@ implies distinct_keys(
                        #[trigger] entries.update(i as int, e),
                    ) && jobs_by_key(entries.update(i as int, e)) == jobs_by_key(entries).insert(
                        id@,
                        e.job@,
                    ) by {
                        lemma_changed_entry(entries, i as int, e);
                    }
                }
                Some(&mut self.jobs[i].job)
            },
            None => None,
        }
    }

    /// The jobs, the oldest first.
    pub fn list(&self) -> (r: Vec<&Job>)
        ensures
            job_views(r@) == self.listed(),
            self.jobs_wf() ==> forall|i: int| 0 <= i < r@.len() ==> (#[trigger] r@[i])@.wf(),
    {
        let mut r: Vec<&Job> = Vec::new();
        let mut i: usize = 0;
        let ghost kept = self.kept();
        assert(job_views(r@) == by_age(kept.take(0)));
        while i < self.jobs.len()
            invariant
                i <= self.jobs@.len(),
                kept == self.kept(),
                job_views(r@) == by_age(kept.take(i as int)),
                self.jobs_wf() ==> forall|i: int| 0 <= i < r@.len() ==> (#[trigger] r@[i])@.wf(),
            decreases self.jobs.len() - i,
        {
            let job = &self.jobs[i].job;
            let ghost sorted = job_views(r@);
            let mut p: usize = r.len();
            assert(sorted.take(p as int) == sorted);
            assert(sorted.skip(p as int) == Seq::<JobView>::empty());
            assert(placed(sorted, job@) == placed(sorted.take(p as int), job@) + sorted.skip(
                p as int,
            ));
            while p > 0 && !r[p - 1].created_at.le(&job.created_at)
                invariant
                    p <= r@.len(),
                    sorted == job_views(r@),
                    placed(sorted, job@) == placed(sorted.take(p as int), job@) + sorted.skip(
                        p as int,
                    ),
                decreases p,
            {
                proof {
                    let t = sorted.take(p as int);
                    assert(t.last() == r@[p - 1]@);
                    assert(t.drop_last() == sorted.take(p - 1));
                    assert(sorted.skip(p - 1) == seq![t.last()] + sorted.skip(p as int));
                    assert(placed(sorted.take(p - 1), job@).push(t.last()) + sorted.skip(p as int)
                        == placed(sorted.take(p - 1), job@) + sorted.skip(p - 1));
                }
                p -= 1;
            }
            proof {
                let t = sorted.take(p as int);
                if p > 0 {
                    assert(t.last() == r@[p - 1]@);
                }
                assert(placed(t, job@) == t.push(job@));
                assert(kept.take(i + 1).drop_last() == kept.take(i as int));
                assert(kept.take(i + 1).last() == job@);
            }
            let ghost listed = r@;
            r.insert(p, job);
            proof {
                assert(job_views(r@) == sorted.take(p as int).push(job@) + sorted.skip(p as int));
                assert forall|k: int| self.jobs_wf() && 0 <= k < r@.len() implies (
                #[trigger] r@[k])@.wf() by {
                    if k == p {
                        assert(self.jobs@[i as int].job@.wf());
                    } else if k < p {
                        assert(r@[k] == listed[k]);
                    } else {
                        assert(r@[k] == listed[k - 1]);
                    }
                }
            }
            i += 1;
        }
        assert(kept.take(i as int) == kept);
        r
    }
}

/// A job that is found under a key is one of those that are kept.
pub proof fn lemma_stored_job(store: JobStore, key: Seq<char>)
    requires
        store@.contains_key(key),
    ensures
        store.jobs_wf() ==> store@[key].wf(),
        store.keyed_by_id() ==> store@[key].id == key,
{
    lemma_position(store.jobs@, key);
}

/// The IDs of a list of jobs.
pub open spec fn ids(s: Seq<JobView>) -> Seq<Seq<char>> {
    s.map_values(|j: JobView| j.id)
}

/// Where each job stands under its own ID, the listing names every job that is kept, each
/// of them once.
pub proof fn law_listing_names_each_job_once(store: JobStore)
    requires
        store.wf(),
        store.keyed_by_id(),
    ensures
        ids(store.listed()).no_duplicates(),
        forall|i: int|
            0 <= i < store.listed().len() ==> store@.contains_key(
                (#[trigger] store.listed()[i]).id,
            ) && store@[store.listed()[i].id] == store.listed()[i],
        forall|k: Seq<char>| #[trigger]
            store@.contains_key(k) ==> store@[k].id == k && store.listed().contains(store@[k]),
{
    broadcast use vstd::seq_lib::group_to_multiset_ensures;

    let kept = store.kept();
    let listed = store.listed();
    law_listing_is_sorted(kept);
    assert forall|i: int| 0 <= i < listed.len() implies store@.contains_key(
        (#[trigger] listed[i]).id,
    ) && store@[listed[i].id] == listed[i] by {
        assert(listed.contains(listed[i]));
        assert(kept.to_multiset().count(listed[i]) > 0);
        assert(kept.contains(listed[i]));
        let k = choose|k: int| 0 <= k < kept.len() && kept[k] == listed[i];
        assert(store.jobs@[k].job@ == kept[k]);
        lemma_position_is(store.jobs@, listed[i].id, k);
    }
    assert forall|k: Seq<char>| #[trigger] store@.contains_key(k) implies store@[k].id == k
        && listed.contains(store@[k]) by {
        lemma_position(store.jobs@, k);
        let i = position(store.jobs@, k)->0;
        assert(kept[i] == store@[k]);
        assert(kept.contains(kept[i]));
        assert(listed.to_multiset().count(kept[i]) > 0);
    }
    assert(kept.no_duplicates()) by {
        assert forall|i: int, j: int| 0 <= i < kept.len() && 0 <= j < kept.len() && i
            != j implies kept[i] != kept[j] by {
            assert(store.jobs@[i].key@ != store.jobs@[j].key@);
            assert(kept[i].id == store.jobs@[i].key@);
            assert(kept[j].id == store.jobs@[j].key@);
        }
    }
    kept.lemma_multiset_has_no_duplicates();
    listed.lemma_multiset_has_no_duplicates_conv();
    assert forall|i: int, j: int| 0 <= i < listed.len() && 0 <= j < listed.len() && i
        != j implies ids(listed)[i] != ids(listed)[j] by {
        if listed[i].id == listed[j].id {
            assert(store@[listed[i].id] == listed[i]);
            assert(store@[listed[j].id] == listed[j]);
        }
    }
}

/// Entries with the same keys have their keys at the same positions.
proof fn lemma_same_positions(a: Seq<Entry>, b: Seq<Entry>, key: Seq<char>)
    requires
        a.len() == b.len(),
        forall|i: int| 0 <= i < a.len() ==> (#[trigger] a[i]).key@ == (#[trigger] b[i]).key@,
    ensures
        position(a, key) == position(b, key),
    decreases a.len(),
{
    if a.len() > 0 {
        assert(a[a.len() - 1].key@ == b[b.len() - 1].key@);
        assert forall|i: int| 0 <= i < a.len() - 1 implies (#[trigger] a.drop_last()[i]).key@ == (
        #[trigger] b.drop_last()[i]).key@ by {
            assert(a[i].key@ == b[i].key@);
        }
        lemma_same_positions(a.drop_last(), b.drop_last(), key);
    }
}

impl Default for JobStore {
    fn default() -> (r: JobStore)
        ensures
            r.wf(),
            r@ == Map::<Seq<char>, JobView>::empty(),
            r.keyed_by_id(),
            r.jobs_wf(),
            r.kept().len() == 0,
    {
        let r = JobStore { jobs: Vec::new() };
        assert(r@ =~= Map::<Seq<char>, JobView>::empty());
        r
    }
}

/// State that applies to all jobs.
#[derive(Clone, Copy, Debug, PartialEq, Eq, Structural)]
pub struct State {
    /// When Do Not Disturb ends.
    pub dnd_until: Option<Timestamp>,
}

impl Default for State {
    fn default() -> (r: State)
        ensures
            r.dnd_until is None,
    {
        State { dnd_until: None }
    }
}

impl State {
    pub open spec fn wf(self) -> bool {
        self.dnd_until matches Some(t) ==> t.wf()
    }

    /// Whether Do Not Disturb is on at an instant.
    pub open spec fn dnd_at(self, now: Timestamp) -> bool {
        self.dnd_until matches Some(until) && now.spec_lt(until)
    }

    /// Whether Do Not Disturb is on at an instant.
    pub fn is_dnd_active_at(&self, now: Timestamp) -> (r: bool)
        ensures
            r == self.dnd_at(now),
    {
        match self.dnd_until {
            Some(until) => now.lt(&until),
            None => false,
        }
    }

    /// Whether Do Not Disturb is on now.
    pub fn is_dnd_active(&self) -> (r: bool)
        ensures
            exists|now: Timestamp| #[trigger] is_now(now) && r == self.dnd_at(now),
    {
        let now = utc_now();
        let r = self.is_dnd_active_at(now);
        assert(is_now(now));
        r
    }

    /// Turn Do Not Disturb on, up to an instant.
    pub fn set_dnd(&mut self, until: Timestamp)
        ensures
            final(self).dnd_until == Some(until),
    {
        self.dnd_until = Some(until);
    }

    /// Turn Do Not Disturb off.
    pub fn clear_dnd(&mut self)
        ensures
            final(self).dnd_until is None,
    {
        self.dnd_until = None;
    }
}

/// Do Not Disturb is on before the instant that it was set up to, and off from then on and
/// once it is cleared.
pub proof fn law_dnd_ends(until: Timestamp, now: Timestamp)
    ensures
        (State { dnd_until: Some(until) }).dnd_at(now) <==> now.spec_lt(until),
        !(State { dnd_until: Some(until) }).dnd_at(until),
        !(State { dnd_until: None }).dnd_at(now),
{
}

/// The directory that everything is kept in.
pub open spec fn data_dir(base: Option<Seq<char>>) -> Seq<char> {
    path_join(
        match base {
            Some(b) => b,
            None => "."@,
        },
        "usched"@,
    )
}

/// The directory that everything is kept in, within the user's directory for local data, or
/// in the current one where there is none.
pub fn get_data_dir(base: Option<&str>) -> (r: String)
    ensures
        r@ == data_dir(
            match base {
                Some(b) => Some(b@),
                None => None,
            },
        ),
{
    match base {
        Some(b) => join_path(b, "usched"),
        None => join_path(".", "usched"),
    }
}

/// The file that jobs are kept in.
pub fn jobs_path(data_dir: &str) -> (r: String)
    ensures
        r@ == path_join(data_dir@, "jobs.json"@),
{
    join_path(data_dir, "jobs.json")
}

/// The file that the state is kept in.
pub fn state_path(data_dir: &str) -> (r: String)
    ensures
        r@ == path_join(data_dir@, "state.json"@),
{
    join_path(data_dir, "state.json")
}

/// The job that is found under a key is that of the entry with the key, and there is none where
/// no entry has it.
pub proof fn law_store_is_its_entries(store: JobStore, key: Seq<char>, i: int)
    requires
        store.wf(),
    ensures
        0 <= i < store.jobs@.len() && store.jobs@[i].key@ == key ==> store@.contains_key(key)
            && store@[key] == store.jobs@[i].job@,
        store@.contains_key(key) ==> exists|k: int|
            0 <= k < store.jobs@.len() && (#[trigger] store.jobs@[k]).key@ == key,
{
    lemma_position(store.jobs@, key);
    if 0 <= i < store.jobs@.len() && store.jobs@[i].key@ == key {
        lemma_position_is(store.jobs@, key, i);
    }
}

/// A job that is younger than those before it comes last in a listing, and one that is older
/// than all comes first.
pub proof fn law_listing_is_by_age(s: Seq<JobView>, i: int, j: int)
    requires
        0 <= i < j < s.len(),
    ensures
        by_age(s).len() == s.len(),
        by_age(s)[i].created_at.secs < by_age(s)[j].created_at.secs || (
        by_age(s)[i].created_at.secs == by_age(s)[j].created_at.secs
            && by_age(s)[i].created_at.nanos <= by_age(s)[j].created_at.nanos),
{
    law_listing_is_sorted(s);
    assert(by_age(s)[i].created_at.spec_le(by_age(s)[j].created_at));
}

/// Do Not Disturb is on before its end, by the second and the nanosecond, and off from then on.
pub proof fn law_dnd_is_on_before_its_end(state: State, now: Timestamp)
    ensures
        state.dnd_until is None ==> !state.dnd_at(now),
        state.dnd_until matches Some(until) ==> (state.dnd_at(now) <==> now.secs < until.secs || (
        now.secs == until.secs && now.nanos < until.nanos)),
{
}

/// Everything is kept in a directory of its own.
pub proof fn law_data_is_kept_apart(base: Seq<char>)
    ensures
        data_dir(None) == path_join("."@, "usched"@),
        data_dir(Some(base)) == path_join(base, "usched"@),
{
}

/// A listing has the jobs that are kept, each as often as it is kept, and the oldest first.
pub proof fn law_listing_is_oldest_first(store: JobStore, i: int, j: int)
    requires
        0 <= i < j < store.jobs@.len(),
    ensures
        store.listed().to_multiset() == store.jobs@.map_values(|e: Entry| e.job@).to_multiset(),
        store.listed().len() == store.jobs@.len(),
        store.listed()[i].created_at.secs < store.listed()[j].created_at.secs || (
        store.listed()[i].created_at.secs == store.listed()[j].created_at.secs
            && store.listed()[i].created_at.nanos <= store.listed()[j].created_at.nanos),
{
    law_listing_is_sorted(store.kept());
    law_listing_is_by_age(store.kept(), i, j);
}

/// The jobs and the state are kept in files of their own.
pub proof fn law_kept_files(dir: &str, jobs: String, state: String)
    requires
        call_ensures(jobs_path, (dir,), jobs),
        call_ensures(state_path, (dir,), state),
    ensures
        jobs@ == path_join(dir@, "jobs.json"@),
        state@ == path_join(dir@, "state.json"@),
{
}

/// A job is got by the ID that it is kept under, and none is where none is kept.
pub proof fn law_job_is_got_by_its_id(store: &JobStore, id: &str, r: Option<&Job>, i: int)
    requires
        store.wf(),
        call_ensures(JobStore::get, (store, id), r),
    ensures
        0 <= i < store.jobs@.len() && store.jobs@[i].key@ == id@ ==> (r matches Some(job) && job@
            == store.jobs@[i].job@),
        (forall|k: int| 0 <= k < store.jobs@.len() ==> (#[trigger] store.jobs@[k]).key@ != id@)
            ==> r is None,
{
    law_store_is_its_entries(*store, id@, i);
}

} // verus!
