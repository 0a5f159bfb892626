//! The durable topic queue: an ordered sequence of unique, non-empty topic
//! lines, FIFO by time of first insertion. The queue owns its persisted form
//! ([`TopicQueue::encode`] / [`TopicQueue::load`]); the caller moves that text
//! to and from storage and serializes access, so that every `append` and `pop`
//! acts on the latest committed contents.

use crate::codec;
use crate::is_topic;
use vstd::prelude::*;

verus! {

/// Well-formed queue contents: every entry is a topic, and no two entries are
/// equal.
pub open spec fn queue_wf(q: Seq<Seq<char>>) -> bool {
    &&& forall|i: int| 0 <= i < q.len() ==> is_topic(#[trigger] q[i])
    &&& forall|i: int, j: int| 0 <= i < j < q.len() ==> q[i] != q[j]
}

/// One candidate merged at the tail: dropped when it is not a topic or is
/// already present, appended otherwise.
pub open spec fn merge_one(q: Seq<Seq<char>>, t: Seq<char>) -> Seq<Seq<char>> {
    if is_topic(t) && !q.contains(t) {
        q.push(t)
    } else {
        q
    }
}

/// A batch of candidates merged in order, each against the queue that the
/// previous ones produced: first-seen order is preserved.
pub open spec fn merge(q: Seq<Seq<char>>, batch: Seq<Seq<char>>) -> Seq<Seq<char>>
    decreases batch.len(),
{
    if batch.len() == 0 {
        q
    } else {
        merge_one(merge(q, batch.drop_last()), batch.last())
    }
}

/// Absence of a witness, element by element.
proof fn lemma_not_contains(q: Seq<Seq<char>>, t: Seq<char>)
    requires
        !q.contains(t),
    ensures
        forall|i: int| 0 <= i < q.len() ==> q[i] != t,
{
    assert forall|i: int| 0 <= i < q.len() implies q[i] != t by {
        if q[i] == t {
            assert(q.contains(t));
        }
    }
}

/// Whether a string is a single topic: non-empty and free of line breaks.
pub fn topic_ok(t: &String) -> (r: bool)
    ensures
        r == is_topic(t@),
{
    let s = t.as_str();
    let n = s.unicode_len();
    if n == 0 {
        return false;
    }
    let mut i: usize = 0;
    while i < n
        invariant
            0 <= i <= n,
            n == s@.len(),
            s@ == t@,
            forall|k: int| 0 <= k < i ==> t@[k] != '\n',
        decreases n - i,
    {
        if s.get_char(i) == '\n' {
            proof {
                assert(t@[i as int] == '\n');
            }
            return false;
        }
        i = i + 1;
    }
    true
}

/// The queue of pending topics. The head is the topic that has waited
/// longest; new topics join at the tail, and only if they are not already
/// queued.
pub struct TopicQueue {
    topics: Vec<String>,
}

impl View for TopicQueue {
    type V = Seq<Seq<char>>;

    closed spec fn view(&self) -> Seq<Seq<char>> {
        self.topics.deep_view()
    }
}

impl TopicQueue {
    /// The queue invariant: contents are well-formed ([`queue_wf`]).
    pub open spec fn wf(&self) -> bool {
        queue_wf(self@)
    }

    /// A new, empty queue: the valid first-run state.
    pub fn new() -> (q: TopicQueue)
        ensures
            q@ == Seq::<Seq<char>>::empty(),
            q.wf(),
    {
        let q = TopicQueue { topics: Vec::new() };
        proof {
            assert(q@ =~= Seq::<Seq<char>>::empty());
        }
        q
    }

    /// Decode persisted text into a queue: its lines, in order, with anything
    /// that is not a topic or repeats an earlier line dropped. Text written by
    /// [`TopicQueue::encode`] decodes to the queue it came from
    /// ([`lemma_store_round_trip`]). Absent state is passed as empty text.
    pub fn load(text: &str) -> (q: TopicQueue)
        ensures
            q.wf(),
            q@ == merge(Seq::empty(), codec::lines_of(text@)),
    {
        let lines = codec::split_into_lines(text);
        let mut q = TopicQueue::new();
        q.append(&lines);
        q
    }

    /// The persisted form of the queue: one topic per line.
    pub fn encode(&self) -> (text: String)
        ensures
            text@ == codec::join_lines(self@),
    {
        codec::join_into_text(&self.topics)
    }

    /// The pending topics, oldest first.
    pub fn topics(&self) -> (ts: Vec<String>)
        ensures
            ts.deep_view() == self@,
    {
        let ts = self.topics.clone();
        proof {
            assert forall|i: int|
                0 <= i < ts.deep_view().len() implies ts.deep_view()[i]
                == self.topics.deep_view()[i] by {
                assert(cloned::<String>(self.topics@[i], ts@[i]));
            }
            assert(ts.deep_view() =~= self.topics.deep_view());
        }
        ts
    }

    /// The number of pending topics, as of the latest committed contents.
    pub fn size(&self) -> (n: usize)
        ensures
            n == self@.len(),
    {
        self.topics.len()
    }

    /// Whether `t` is already queued.
    fn contains(&self, t: &String) -> (r: bool)
        ensures
            r == self@.contains(t@),
    {
        let mut i: usize = 0;
        while i < self.topics.len()
            invariant
                0 <= i <= self.topics@.len(),
                self@.len() == self.topics@.len(),
                forall|j: int| 0 <= j < i ==> self@[j] != t@,
            decreases self.topics@.len() - i,
        {
            if self.topics[i] == *t {
                proof {
                    assert(self@[i as int] == t@);
                    assert(self@.contains(t@));
                }
                return true;
            }
            i = i + 1;
        }
        proof {
            if self@.contains(t@) {
                let j = choose|j: int| 0 <= j < self@.len() && self@[j] == t@;
                assert(self@[j] != t@);
            }
        }
        false
    }

    /// Merge a batch of candidates at the tail, in batch order, silently
    /// dropping any that is empty, spans lines, or is already queued; the
    /// count actually added is returned. What was queued before keeps its
    /// place ([`lemma_merge_keeps_prefix`]).
    pub fn append(&mut self, batch: &Vec<String>) -> (added: usize)
        requires
            old(self).wf(),
        ensures
            final(self).wf(),
            final(self)@ == merge(old(self)@, batch.deep_view()),
            final(self)@.len() == old(self)@.len() + added,
    {
        let mut added: usize = 0;
        let mut k: usize = 0;
        proof {
            assert(batch.deep_view().take(0) =~= Seq::<Seq<char>>::empty());
        }
        while k < batch.len()
            invariant
                0 <= k <= batch@.len(),
                added <= k,
                batch.deep_view().len() == batch@.len(),
                self@ == merge(old(self)@, batch.deep_view().take(k as int)),
                self.wf(),
                self@.len() == old(self)@.len() + added,
            decreases batch@.len() - k,
        {
            let t = &batch[k];
            let ghost pre = self@;
            let ghost prefix = batch.deep_view().take(k as int);
            let ghost next = batch.deep_view().take(k as int + 1);
            proof {
                assert(next.drop_last() =~= prefix);
                assert(next.last() == batch.deep_view()[k as int]);
                assert(batch.deep_view()[k as int] == t@);
                assert(merge(old(self)@, next) == merge_one(pre, t@));
            }
            if topic_ok(t) && !self.contains(t) {
                proof {
                    lemma_not_contains(pre, t@);
                }
                self.topics.push(t.clone());
                added = added + 1;
                proof {
                    assert(self@ =~= pre.push(t@));
                    assert(merge_one(pre, t@) == pre.push(t@));
                }
            } else {
                proof {
                    assert(merge_one(pre, t@) == pre);
                }
            }
            k = k + 1;
        }
        proof {
            assert(batch.deep_view().take(batch@.len() as int) =~= batch.deep_view());
        }
        added
    }

    /// Remove and return the head: the topic that has waited longest among
    /// those queued. The rest moves up one place; an empty queue stays empty
    /// and yields nothing.
    pub fn pop(&mut self) -> (head: Option<String>)
        requires
            old(self).wf(),
        ensures
            final(self).wf(),
            old(self)@.len() == 0 ==> head is None && final(self)@ == old(self)@,
            old(self)@.len() > 0 ==> {
                &&& head matches Some(t) && t@ == old(self)@[0]
                &&& final(self)@ == old(self)@.drop_first()
            },
    {
        if self.topics.len() == 0 {
            proof {
                assert(self@.len() == self.topics@.len());
            }
            None
        } else {
            let t = self.topics.remove(0);
            proof {
                assert(self@ =~= old(self)@.drop_first());
                assert(t@ == old(self)@[0]);
                assert forall|i: int| 0 <= i < self@.len() implies is_topic(#[trigger] self@[i]) by {
                    assert(self@[i] == old(self)@[i + 1]);
                }
                assert forall|i: int, j: int| 0 <= i < j < self@.len() implies self@[i] != self@[j] by {
                    assert(self@[i] == old(self)@[i + 1]);
                    assert(self@[j] == old(self)@[j + 1]);
                }
            }
            Some(t)
        }
    }
}

/// Uniqueness and no-empty, under any batch: merging keeps the queue
/// well-formed, so no duplicate and nothing empty or spanning lines is ever
/// stored, whatever `append` is given.
pub proof fn lemma_merge_wf(q: Seq<Seq<char>>, batch: Seq<Seq<char>>)
    requires
        queue_wf(q),
    ensures
        queue_wf(merge(q, batch)),
    decreases batch.len(),
{
    if batch.len() > 0 {
        lemma_merge_wf(q, batch.drop_last());
        let m = merge(q, batch.drop_last());
        let t = batch.last();
        if is_topic(t) && !m.contains(t) {
            lemma_not_contains(m, t);
        }
    }
}

/// Merging never disturbs what is already queued: the old contents stay, in
/// order, as a prefix of the result. FIFO dispatch order survives every
/// replenishment.
pub proof fn lemma_merge_keeps_prefix(q: Seq<Seq<char>>, batch: Seq<Seq<char>>)
    ensures
        merge(q, batch).len() >= q.len(),
        merge(q, batch).take(q.len() as int) == q,
    decreases batch.len(),
{
    if batch.len() == 0 {
        assert(q.take(q.len() as int) =~= q);
    } else {
        lemma_merge_keeps_prefix(q, batch.drop_last());
        let m = merge(q, batch.drop_last());
        let t = batch.last();
        if is_topic(t) && !m.contains(t) {
            assert(m.push(t).take(q.len() as int) =~= m.take(q.len() as int));
        }
    }
}

/// Merging can only grow the queue, and by at most the batch size.
pub proof fn lemma_merge_grows(q: Seq<Seq<char>>, batch: Seq<Seq<char>>)
    ensures
        q.len() <= merge(q, batch).len() <= q.len() + batch.len(),
    decreases batch.len(),
{
    if batch.len() > 0 {
        lemma_merge_grows(q, batch.drop_last());
    }
}

/// A well-formed queue passes the merge filter untouched: merged into the
/// empty queue, it comes back unchanged.
pub proof fn lemma_merge_into_empty(q: Seq<Seq<char>>)
    requires
        queue_wf(q),
    ensures
        merge(Seq::empty(), q) == q,
    decreases q.len(),
{
    if q.len() > 0 {
        let front = q.drop_last();
        assert(queue_wf(front)) by {
            assert(forall|i: int| 0 <= i < front.len() ==> front[i] == q[i]);
        }
        lemma_merge_into_empty(front);
        let t = q.last();
        assert(is_topic(t));
        assert(!front.contains(t)) by {
            if front.contains(t) {
                let i = choose|i: int| 0 <= i < front.len() && front[i] == t;
                assert(q[i] == q[q.len() - 1]);
            }
        }
        assert(front.push(t) =~= q);
    }
}

/// Reload round trip: decoding the encoded form of a well-formed queue yields
/// exactly that queue, so a load right after a completed append or pop sees
/// the sequence that was just persisted.
pub proof fn lemma_store_round_trip(q: Seq<Seq<char>>)
    requires
        queue_wf(q),
    ensures
        merge(Seq::empty(), codec::lines_of(codec::join_lines(q))) == q,
{
    codec::lemma_lines_of_join(q);
    lemma_merge_into_empty(q);
}

/// The queue after `n` head removals, each as [`TopicQueue::pop`] performs
/// them: removals beyond the length find the queue empty and change nothing.
pub open spec fn after_pops(q: Seq<Seq<char>>, n: nat) -> Seq<Seq<char>>
    decreases n,
{
    if n == 0 || q.len() == 0 {
        q
    } else {
        after_pops(q.drop_first(), (n - 1) as nat)
    }
}

/// Serialized pops: when `n` pop calls run one critical section after
/// another, they return the first `n` topics — pairwise distinct on a
/// well-formed queue — and leave `len - n` topics behind, or none when the
/// queue is shorter than `n`.
pub proof fn lemma_serialized_pops(q: Seq<Seq<char>>, n: nat)
    requires
        queue_wf(q),
    ensures
        n <= q.len() ==> after_pops(q, n) == q.skip(n as int),
        n >= q.len() ==> after_pops(q, n) == Seq::<Seq<char>>::empty(),
        after_pops(q, n).len() == if n <= q.len() {
            q.len() - n
        } else {
            0
        },
        forall|i: int, j: int| 0 <= i < j < n && j < q.len() ==> q[i] != q[j],
    decreases n,
{
    if n == 0 {
        assert(q.skip(0) =~= q);
    } else if q.len() == 0 {
        assert(q =~= Seq::<Seq<char>>::empty());
    } else {
        let rest = q.drop_first();
        assert(queue_wf(rest)) by {
            assert(forall|i: int| 0 <= i < rest.len() ==> rest[i] == q[i + 1]);
        }
        lemma_serialized_pops(rest, (n - 1) as nat);
        if n <= q.len() {
            assert(rest.skip(n - 1) =~= q.skip(n as int));
        }
    }
}

} // verus!
