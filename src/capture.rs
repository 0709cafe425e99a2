use crate::container::{header_spec, parse_header, ContainerContext, ParseError, FILE_HEADER_SIZE};
use crate::quote::{parse_record, record_kind, record_next, QuoteMessage, Record, RecordKind};
use crate::reorder::{key, sorted_asc, ReorderBuffer};
use vstd::prelude::*;

verus! {

broadcast use vstd::seq_lib::group_to_multiset_ensures;

/// Positions of the quote records from `pos` on, and the error that stops
/// decoding there, if any.
pub open spec fn scan(data: Seq<u8>, pos: int, ctx: ContainerContext) -> (Seq<int>, Option<
    ParseError,
>)
    decreases data.len() - pos,
{
    if !(0 <= pos <= data.len()) || record_next(data, pos, ctx) <= pos {
        (Seq::empty(), None)
    } else {
        match record_kind(data, pos, ctx) {
            RecordKind::End => (Seq::empty(), None),
            RecordKind::Fail(e) => (Seq::empty(), Some(e)),
            RecordKind::Skip => scan(data, record_next(data, pos, ctx), ctx),
            RecordKind::Quote => {
                let rest = scan(data, record_next(data, pos, ctx), ctx);
                (seq![pos] + rest.0, rest.1)
            },
        }
    }
}

/// Where the first record starts.
pub open spec fn first_record(data: Seq<u8>) -> int {
    if data.len() < 24 {
        data.len() as int
    } else {
        24
    }
}

/// The messages of a capture file are the quote records that `scan` finds
/// from the first record on, in file order.
pub open spec fn capture_matches(
    data: Seq<u8>,
    msgs: Seq<QuoteMessage>,
    err: Option<ParseError>,
) -> bool {
    match header_spec(data) {
        Err(e) => msgs.len() == 0 && err == Some(e),
        Ok(ctx) => {
            let s = scan(data, first_record(data), ctx);
            &&& msgs.len() == s.0.len()
            &&& forall|i: int|
                0 <= i < msgs.len() ==> (#[trigger] msgs[i]).decoded_from(data, s.0[i], ctx)
            &&& err == s.1
        },
    }
}

/// Decoding depends on the bytes alone: two results that both meet the
/// contract of `parse_capture` on the same bytes hold the same messages, in the
/// same order, and the same error.
pub proof fn lemma_decoding_deterministic(
    data: Seq<u8>,
    msgs1: Seq<QuoteMessage>,
    err1: Option<ParseError>,
    msgs2: Seq<QuoteMessage>,
    err2: Option<ParseError>,
)
    requires
        capture_matches(data, msgs1, err1),
        capture_matches(data, msgs2, err2),
    ensures
        err1 == err2,
        msgs1.len() == msgs2.len(),
        forall|i: int| 0 <= i < msgs1.len() ==> (#[trigger] msgs1[i]).same_content(&msgs2[i]),
{
    match header_spec(data) {
        Err(_) => {},
        Ok(ctx) => {
            let s = scan(data, first_record(data), ctx);
            assert forall|i: int| 0 <= i < msgs1.len() implies (#[trigger] msgs1[i]).same_content(
                &msgs2[i],
            ) by {
                assert(msgs1[i].decoded_from(data, s.0[i], ctx));
                assert(msgs2[i].decoded_from(data, s.0[i], ctx));
            }
        },
    }
}

/// Decodes a whole capture file: the quote messages in file order, and the
/// error that stopped decoding, if one did. Messages before the error are kept.
pub fn parse_capture(data: &[u8]) -> (r: (Vec<QuoteMessage>, Option<ParseError>))
    ensures
        capture_matches(data@, r.0@, r.1),
        forall|i: int| 0 <= i < r.0@.len() ==> (#[trigger] r.0@[i]).wf(),
{
    let mut msgs: Vec<QuoteMessage> = Vec::new();
    let ctx = match parse_header(data) {
        Ok(c) => c,
        Err(e) => return (msgs, Some(e)),
    };
    let len = data.len();
    let mut pos: usize = if len < FILE_HEADER_SIZE {
        len
    } else {
        FILE_HEADER_SIZE
    };
    let ghost start = pos as int;
    let ghost mut ps: Seq<int> = Seq::empty();
    loop
        invariant
            len == data@.len(),
            pos <= len,
            ctx.wf(),
            header_spec(data@) == Ok::<ContainerContext, ParseError>(ctx),
            start == first_record(data@),
            msgs@.len() == ps.len(),
            forall|i: int|
                0 <= i < msgs@.len() ==> (#[trigger] msgs@[i]).decoded_from(data@, ps[i], ctx),
            scan(data@, start, ctx) == (ps + scan(data@, pos as int, ctx).0, scan(
                data@,
                pos as int,
                ctx,
            ).1),
        decreases len - pos,
    {
        let ghost old_pos = pos as int;
        match parse_record(data, pos, &ctx) {
            Err(e) => {
                assert(ps + Seq::<int>::empty() =~= ps);
                return (msgs, Some(e));
            },
            Ok((Record::EndOfStream, _)) => {
                assert(ps + Seq::<int>::empty() =~= ps);
                return (msgs, None);
            },
            Ok((Record::Skipped, next)) => {
                pos = next;
            },
            Ok((Record::Valid(m), next)) => {
                msgs.push(m);
                proof {
                    let rest = scan(data@, next as int, ctx);
                    assert(ps + (seq![old_pos] + rest.0) =~= ps.push(old_pos) + rest.0);
                    ps = ps.push(old_pos);
                }
                pos = next;
            },
        }
    }
}

/// Every message was accepted at most three seconds before it was captured.
pub open spec fn lag_bounded(ms: Seq<QuoteMessage>) -> bool {
    forall|i: int|
        0 <= i < ms.len() ==> (#[trigger] ms[i]).capture.total_nanos() - key(ms[i])
            <= 3_000_000_000
}

/// Capture times never decrease.
pub open spec fn captures_ordered(ms: Seq<QuoteMessage>) -> bool {
    forall|i: int, j: int|
        0 <= i < j < ms.len() ==> (#[trigger] ms[i]).capture.total_nanos() <= (
        #[trigger] ms[j]).capture.total_nanos()
}

/// Sends a stream of messages through a `ReorderBuffer` and collects what it
/// releases, the rest at the end. The result is a permutation of the input;
/// where capture times never decrease and no accept time lags its capture
/// time by more than three seconds, it is sorted by accept time.
pub fn reorder_messages(ms: Vec<QuoteMessage>) -> (out: Vec<QuoteMessage>)
    requires
        forall|i: int| 0 <= i < ms@.len() ==> (#[trigger] ms@[i]).wf(),
    ensures
        out@.to_multiset() == ms@.to_multiset(),
        captures_ordered(ms@) && lag_bounded(ms@) ==> sorted_asc(out@),
{
    let ghost input = ms@;
    let ghost good = captures_ordered(ms@) && lag_bounded(ms@);
    let total = ms.len();
    let mut rest = ms;
    let mut pending: Vec<QuoteMessage> = Vec::new();
    while rest.len() > 0
        invariant
            rest@ + pending@.reverse() == input,
        decreases rest@.len(),
    {
        let x = rest.pop().unwrap();
        pending.push(x);
        assert(rest@ + pending@.reverse() =~= input);
    }
    assert(pending@ =~= input.reverse()) by {
        assert(Seq::<QuoteMessage>::empty() + pending@.reverse() =~= pending@.reverse());
        assert(pending@.reverse().reverse() =~= pending@);
    }
    let mut buffer = ReorderBuffer::new();
    let mut out: Vec<QuoteMessage> = Vec::new();
    let mut i: usize = 0;
    while pending.len() > 0
        invariant
            i <= input.len(),
            total == input.len(),
            i == 0 ==> out@.len() == 0,
            pending@ == input.subrange(i as int, input.len() as int).reverse(),
            forall|j: int| 0 <= j < input.len() ==> (#[trigger] input[j]).wf(),
            good == (captures_ordered(input) && lag_bounded(input)),
            buffer.wf(),
            out@.to_multiset().add(buffer.contents().to_multiset()) == input.take(
                i as int,
            ).to_multiset(),
            good ==> sorted_asc(out@),
            good ==> forall|a: int, b: int|
                0 <= a < out@.len() && 0 <= b < buffer.contents().len() ==> key(
                    #[trigger] out@[a],
                ) <= key(#[trigger] buffer.contents()[b]),
            good && i > 0 ==> forall|a: int|
                0 <= a < out@.len() ==> key(#[trigger] out@[a]) < input[i - 1].capture.total_nanos()
                    - 3_000_000_000,
        decreases pending@.len(),
    {
        let m = pending.pop().unwrap();
        proof {
            assert(pending@.len() + 1 == input.len() - i);
            assert(m == input[i as int]);
        }
        let ghost old_buf = buffer.contents();
        let ghost old_out = out@;
        let mut released = buffer.push(m);
        let ghost cut = old_buf.len() - released@.len();
        let ghost popped = released@;
        proof {
            let kept_part = old_buf.subrange(0, cut);
            let tail = old_buf.subrange(cut, old_buf.len() as int);
            assert(old_buf =~= kept_part + tail);
            vstd::seq_lib::lemma_multiset_commutative(kept_part, tail);
            tail.lemma_reverse_to_multiset();
            vstd::seq_lib::lemma_multiset_commutative(old_out, popped);
            assert(input.take(i + 1) =~= input.take(i as int).push(m));
            assert((old_out + popped).to_multiset().add(buffer.contents().to_multiset())
                =~= input.take(i + 1).to_multiset());
        }
        out.append(&mut released);
        proof {
            assert(out@ == old_out + popped);
            let t = m.capture.total_nanos();
            if good {
                assert(key(m) >= t - 3_000_000_000);
                if i > 0 {
                    assert(input[i - 1].capture.total_nanos() <= t);
                }
                assert forall|a: int| 0 <= a < popped.len() implies key(#[trigger] popped[a]) < t
                    - 3_000_000_000 by {
                    assert(popped[a] == old_buf[old_buf.len() - 1 - a]);
                }
                assert forall|a: int| 0 <= a < out@.len() implies key(#[trigger] out@[a]) < t
                    - 3_000_000_000 by {
                    if a >= old_out.len() {
                        assert(out@[a] == popped[a - old_out.len()]);
                    }
                }
                assert forall|a: int, b: int| 0 <= a < b < out@.len() implies key(
                    #[trigger] out@[a],
                ) <= key(#[trigger] out@[b]) by {
                    if b < old_out.len() {
                    } else if a < old_out.len() {
                        assert(popped[b - old_out.len()] == old_buf[old_buf.len() - 1 - (b
                            - old_out.len())]);
                    } else {
                        let a2 = old_buf.len() - 1 - (a - old_out.len());
                        let b2 = old_buf.len() - 1 - (b - old_out.len());
                        assert(popped[a - old_out.len()] == old_buf[a2]);
                        assert(popped[b - old_out.len()] == old_buf[b2]);
                    }
                }
                assert forall|a: int, b: int|
                    0 <= a < out@.len() && 0 <= b < buffer.contents().len() implies key(
                    #[trigger] out@[a],
                ) <= key(#[trigger] buffer.contents()[b]) by {
                    let y = buffer.contents()[b];
                    assert(buffer.contents().to_multiset().contains(y));
                    assert(old_buf.subrange(0, cut).to_multiset().insert(m).contains(y));
                    if y != m {
                        assert(old_buf.subrange(0, cut).to_multiset().contains(y));
                        assert(old_buf.subrange(0, cut).contains(y));
                        let c = choose|c: int| 0 <= c < cut && old_buf.subrange(0, cut)[c] == y;
                        assert(old_buf[c] == y);
                    }
                }
            }
        }
        i = i + 1;
    }
    let ghost before = out@;
    let ghost rem = buffer.contents();
    let mut tail = buffer.finish();
    let ghost fin = tail@;
    proof {
        assert(input.take(i as int) =~= input);
        rem.lemma_reverse_to_multiset();
        vstd::seq_lib::lemma_multiset_commutative(before, tail@);
    }
    out.append(&mut tail);
    proof {
        if good {
            assert forall|a: int, b: int| 0 <= a < b < out@.len() implies key(
                #[trigger] out@[a],
            ) <= key(#[trigger] out@[b]) by {
                if b < before.len() {
                } else if a < before.len() {
                    assert(out@[b] == rem[rem.len() - 1 - (b - before.len())]);
                } else {
                    assert(out@[a] == fin[a - before.len()]);
                    assert(out@[b] == fin[b - before.len()]);
                }
            }
        }
    }
    out
}

} // verus!
