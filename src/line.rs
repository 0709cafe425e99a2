use crate::quote::QuoteMessage;
use vstd::prelude::*;

verus! {

/// Decimal digits of `n`, without leading zeros.
pub open spec fn decimal_spec(n: nat) -> Seq<u8>
    decreases n,
{
    if n < 10 {
        seq![(48 + n) as u8]
    } else {
        decimal_spec(n / 10).push((48 + n % 10) as u8)
    }
}

/// " price@quantity"
pub open spec fn pair_text(p: (u32, u32)) -> Seq<u8> {
    seq![32u8] + decimal_spec(p.0 as nat) + seq![64u8] + decimal_spec(p.1 as nat)
}

pub open spec fn pairs_text(s: Seq<(u32, u32)>) -> Seq<u8>
    decreases s.len(),
{
    if s.len() == 0 {
        Seq::empty()
    } else {
        pairs_text(s.drop_last()) + pair_text(s.last())
    }
}

/// The line of a message: capture time, accept time, issue code, the bids
/// best first, then the asks best first.
pub open spec fn line_text(m: QuoteMessage) -> Seq<u8> {
    m.capture.text() + seq![32u8] + m.accept.text() + seq![32u8] + m.issue_code@ + pairs_text(
        m.bids@.reverse(),
    ) + pairs_text(m.asks@)
}

/// Decimal digits of `n`, without leading zeros.
pub fn decimal_bytes(n: u32) -> (r: Vec<u8>)
    ensures
        r@ == decimal_spec(n as nat),
    decreases n,
{
    if n < 10 {
        let mut v: Vec<u8> = Vec::new();
        v.push((48 + n) as u8);
        v
    } else {
        let mut v = decimal_bytes(n / 10);
        v.push((48 + n % 10) as u8);
        v
    }
}

fn push_pair(out: &mut Vec<u8>, p: (u32, u32))
    ensures
        final(out)@ == old(out)@ + pair_text(p),
{
    out.push(32);
    let mut a = decimal_bytes(p.0);
    out.append(&mut a);
    out.push(64);
    let mut b = decimal_bytes(p.1);
    out.append(&mut b);
    assert(final(out)@ =~= old(out)@ + pair_text(p));
}

impl QuoteMessage {
    /// The message as one line of text, without the line end.
    pub fn to_line(&self) -> (r: Vec<u8>)
        requires
            self.wf(),
        ensures
            r@ == line_text(*self),
    {
        let mut out = self.capture.text_bytes();
        out.push(32);
        let mut accept = self.accept.text_bytes();
        out.append(&mut accept);
        out.push(32);
        let mut i: usize = 0;
        while i < self.issue_code.len()
            invariant
                i <= self.issue_code@.len(),
                out@ == self.capture.text() + seq![32u8] + self.accept.text() + seq![32u8]
                    + self.issue_code@.subrange(0, i as int),
            decreases self.issue_code@.len() - i,
        {
            out.push(self.issue_code[i]);
            i = i + 1;
        }
        let ghost head = out@;
        assert(self.issue_code@.subrange(0, i as int) =~= self.issue_code@);
        let ghost bids = self.bids@.reverse();
        let mut j: usize = 0;
        while j < self.bids.len()
            invariant
                j <= self.bids@.len(),
                bids == self.bids@.reverse(),
                out@ == head + pairs_text(bids.take(j as int)),
            decreases self.bids@.len() - j,
        {
            let p = self.bids[self.bids.len() - 1 - j];
            assert(bids.take(j + 1).drop_last() =~= bids.take(j as int));
            push_pair(&mut out, p);
            j = j + 1;
        }
        assert(bids.take(j as int) =~= bids);
        let ghost mid = out@;
        let mut j: usize = 0;
        while j < self.asks.len()
            invariant
                j <= self.asks@.len(),
                out@ == mid + pairs_text(self.asks@.take(j as int)),
            decreases self.asks@.len() - j,
        {
            let p = self.asks[j];
            assert(self.asks@.take(j + 1).drop_last() =~= self.asks@.take(j as int));
            push_pair(&mut out, p);
            j = j + 1;
        }
        assert(self.asks@.take(j as int) =~= self.asks@);
        out
    }
}

} // verus!
