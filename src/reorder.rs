use crate::quote::QuoteMessage;
use vstd::multiset::Multiset;
use vstd::prelude::*;

verus! {

/// How far, in nanoseconds, an accept time may lag the latest capture time
/// before its message leaves the buffer.
pub const WINDOW_NANOS: i128 = 3_000_000_000;

/// The order of the buffer: accept time in nanoseconds.
pub open spec fn key(m: QuoteMessage) -> int {
    m.accept.total_nanos()
}

pub open spec fn sorted_desc(s: Seq<QuoteMessage>) -> bool {
    forall|i: int, j: int| 0 <= i < j < s.len() ==> key(#[trigger] s[i]) >= key(#[trigger] s[j])
}

pub open spec fn sorted_asc(s: Seq<QuoteMessage>) -> bool {
    forall|i: int, j: int| 0 <= i < j < s.len() ==> key(#[trigger] s[i]) <= key(#[trigger] s[j])
}

/// `m` was accepted at most three seconds before the capture moment `t`.
pub open spec fn in_window(t: int, m: QuoteMessage) -> bool {
    t - key(m) <= 3_000_000_000
}

/// Of the sequence `s` (latest accept time first), all but the last `n`.
pub open spec fn kept(s: Seq<QuoteMessage>, n: int) -> Seq<QuoteMessage> {
    s.subrange(0, s.len() - n)
}

/// The messages of `s` accepted at most three seconds before the moment `t`.
pub open spec fn window(s: Seq<QuoteMessage>, t: int) -> Multiset<QuoteMessage> {
    s.to_multiset().filter(|x: QuoteMessage| in_window(t, x))
}

/// The buffer stays within the window of the latest capture time. By the
/// contract of `push`, the buffer after a push holds the new message `m` and
/// the kept earlier ones, all accepted within three seconds of `m`'s capture
/// time. Where those come from the stream seen so far, and `m` too lies in
/// that window, the buffer holds no more than the number of messages of the
/// stream, `m` included, in the window: at most `k` where that is at most `k`.
pub proof fn lemma_buffer_bound(seen: Seq<QuoteMessage>, kept: Seq<QuoteMessage>, m: QuoteMessage, k: nat)
    requires
        kept.to_multiset().subset_of(seen.to_multiset()),
        forall|i: int| 0 <= i < kept.len() ==> in_window(m.capture.total_nanos(), #[trigger] kept[i]),
        in_window(m.capture.total_nanos(), m),
        window(seen.push(m), m.capture.total_nanos()).len() <= k,
    ensures
        kept.to_multiset().insert(m).len() <= k,
{
    broadcast use vstd::seq_lib::group_to_multiset_ensures;
    broadcast use vstd::multiset::group_multiset_axioms;

    let t = m.capture.total_nanos();
    let w = window(seen.push(m), t);
    let a = kept.to_multiset().insert(m);
    assert forall|x: QuoteMessage| #[trigger] a.count(x) <= w.count(x) by {
        if kept.to_multiset().count(x) > 0 {
            assert(kept.contains(x));
            let i = choose|i: int| 0 <= i < kept.len() && kept[i] == x;
            assert(in_window(t, kept[i]));
        }
        assert(seen.push(m).to_multiset() == seen.to_multiset().insert(m));
    }
    assert(a.subset_of(w));
    assert(w.sub(a).len() == w.len() - a.len());
}

/// Quote messages waiting for their turn, released in order of accept time.
pub struct ReorderBuffer {
    queue: Vec<QuoteMessage>,
}

impl ReorderBuffer {
    /// The waiting messages, latest accept time first.
    pub closed spec fn contents(&self) -> Seq<QuoteMessage> {
        self.queue@
    }

    pub open spec fn wf(&self) -> bool {
        &&& sorted_desc(self.contents())
        &&& forall|i: int| 0 <= i < self.contents().len() ==> (#[trigger] self.contents()[i]).wf()
    }

    pub fn new() -> (r: Self)
        ensures
            r.wf(),
            r.contents() == Seq::<QuoteMessage>::empty(),
    {
        ReorderBuffer { queue: Vec::new() }
    }

    /// Number of waiting messages.
    pub fn len(&self) -> (r: usize)
        ensures
            r == self.contents().len(),
    {
        self.queue.len()
    }

    /// Takes a new message: first releases, earliest first, every waiting
    /// message accepted more than three seconds before the new capture time,
    /// then keeps the new one.
    pub fn push(&mut self, m: QuoteMessage) -> (out: Vec<QuoteMessage>)
        requires
            old(self).wf(),
            m.wf(),
        ensures
            final(self).wf(),
            out@.len() <= old(self).contents().len(),
            out@ == old(self).contents().subrange(
                old(self).contents().len() - out@.len(),
                old(self).contents().len() as int,
            ).reverse(),
            forall|i: int|
                0 <= i < old(self).contents().len() - out@.len() ==> in_window(
                    m.capture.total_nanos(),
                    #[trigger] old(self).contents()[i],
                ),
            forall|i: int|
                old(self).contents().len() - out@.len() <= i < old(self).contents().len()
                    ==> !in_window(m.capture.total_nanos(), #[trigger] old(self).contents()[i]),
            final(self).contents().to_multiset() == kept(
                old(self).contents(),
                out@.len() as int,
            ).to_multiset().insert(m),
    {
        let t = m.capture.nanos_since_epoch();
        let ghost b = self.queue@;
        let mut out: Vec<QuoteMessage> = Vec::new();
        loop
            invariant
                sorted_desc(b),
                forall|i: int| 0 <= i < b.len() ==> (#[trigger] b[i]).wf(),
                t == m.capture.total_nanos(),
                self.queue@.len() <= b.len(),
                self.queue@ == b.subrange(0, self.queue@.len() as int),
                out@ == b.subrange(self.queue@.len() as int, b.len() as int).reverse(),
                forall|i: int|
                    self.queue@.len() <= i < b.len() ==> !in_window(t as int, #[trigger] b[i]),
            ensures
                self.queue@.len() <= b.len(),
                self.queue@ == b.subrange(0, self.queue@.len() as int),
                out@ == b.subrange(self.queue@.len() as int, b.len() as int).reverse(),
                forall|i: int|
                    self.queue@.len() <= i < b.len() ==> !in_window(t as int, #[trigger] b[i]),
                self.queue@.len() > 0 ==> in_window(t as int, b[self.queue@.len() - 1]),
            decreases self.queue@.len(),
        {
            let n = self.queue.len();
            if n == 0 {
                break;
            }
            let top = self.queue[n - 1].accept.nanos_since_epoch();
            if t - top <= WINDOW_NANOS {
                break;
            }
            let x = self.queue.pop().unwrap();
            out.push(x);
            assert(out@ =~= b.subrange(self.queue@.len() as int, b.len() as int).reverse());
        }
        let ghost k = self.queue@;
        assert(forall|i: int| 0 <= i < k.len() ==> in_window(t as int, #[trigger] b[i])) by {
            assert forall|i: int| 0 <= i < k.len() implies in_window(t as int, #[trigger] b[i]) by {
                assert(key(b[i]) >= key(b[k.len() - 1]));
            }
        }
        assert(k =~= kept(b, out@.len() as int));
        let km = m.accept.nanos_since_epoch();
        let mut p: usize = 0;
        while p < self.queue.len()
            invariant
                self.queue@ == k,
                p <= k.len(),
                km == key(m),
                forall|i: int| 0 <= i < p ==> key(#[trigger] k[i]) >= key(m),
            ensures
                p <= k.len(),
                forall|i: int| 0 <= i < p ==> key(#[trigger] k[i]) >= key(m),
                p < k.len() ==> key(k[p as int]) < key(m),
            decreases k.len() - p,
        {
            if self.queue[p].accept.nanos_since_epoch() < km {
                break;
            }
            p = p + 1;
        }
        self.queue.insert(p, m);
        proof {
            let q = self.queue@;
            assert(q == k.insert(p as int, m));
            assert forall|i: int, j: int| 0 <= i < j < q.len() implies key(#[trigger] q[i]) >= key(
                #[trigger] q[j],
            ) by {
                if j < p {
                } else if j == p {
                } else if i < p {
                    assert(key(k[i]) >= key(m));
                    assert(key(m) > key(k[p as int]) || p == k.len());
                } else if i == p {
                    assert(key(k[p as int]) >= key(k[j - 1]));
                } else {
                }
            }
            assert(forall|i: int| 0 <= i < q.len() ==> (#[trigger] q[i]).wf()) by {
                assert forall|i: int| 0 <= i < q.len() implies (#[trigger] q[i]).wf() by {
                    if i < p {
                        assert(q[i] == b[i]);
                    } else if i > p {
                        assert(q[i] == b[i - 1]);
                    }
                }
            }
            vstd::seq_lib::to_multiset_insert(k, p as int, m);
        }
        out
    }

    /// Releases every waiting message, earliest accept time first.
    pub fn finish(self) -> (out: Vec<QuoteMessage>)
        requires
            self.wf(),
        ensures
            out@ == self.contents().reverse(),
            sorted_asc(out@),
            forall|i: int| 0 <= i < out@.len() ==> (#[trigger] out@[i]).wf(),
    {
        let ghost b = self.queue@;
        let mut queue = self.queue;
        let mut out: Vec<QuoteMessage> = Vec::new();
        while queue.len() > 0
            invariant
                queue@.len() <= b.len(),
                queue@ == b.subrange(0, queue@.len() as int),
                out@ == b.subrange(queue@.len() as int, b.len() as int).reverse(),
            decreases queue@.len(),
        {
            let x = queue.pop().unwrap();
            out.push(x);
            assert(out@ =~= b.subrange(queue@.len() as int, b.len() as int).reverse());
        }
        assert(b.subrange(0, b.len() as int) =~= b);
        assert(forall|i: int| 0 <= i < out@.len() ==> out@[i] == b[b.len() - 1 - i]);
        out
    }
}

} // verus!
