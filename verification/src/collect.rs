//! Quote Collection: accumulates the decoded quotes of a whole trace in
//! frame-encounter order, optionally stable-sorts them by accept time, and
//! renders them as plain or delimited text lines.

use vstd::prelude::*;
use crate::frame::is_valid_quote;
use crate::frame::valid_quote_frame;
use crate::quote::Quote;
use crate::quote::QuoteView;
use crate::quote::build_quote;
use crate::quote::decode_spec;
use crate::quote::line_text;
use crate::quote::quote_wf;

verus! {

broadcast use vstd::seq_lib::group_to_multiset_ensures;

/// Ascending by accept time.
pub open spec fn sorted_by_accept(s: Seq<Quote>) -> bool {
    forall|i: int, j: int| 0 <= i < j < s.len() ==> s[i].accept_time <= s[j].accept_time
}

/// The subsequence of quotes whose accept time is `t`, in order: the shape
/// in which a stable sort keeps its ties.
pub open spec fn with_accept(s: Seq<Quote>, t: i64) -> Seq<Quote>
    decreases s.len(),
{
    if s.len() == 0 {
        Seq::empty()
    } else if s.last().accept_time == t {
        with_accept(s.drop_last(), t).push(s.last())
    } else {
        with_accept(s.drop_last(), t)
    }
}

/// Selecting a given accept time distributes over concatenation.
proof fn lemma_with_accept_add(a: Seq<Quote>, b: Seq<Quote>, t: i64)
    ensures
        with_accept(a + b, t) == with_accept(a, t) + with_accept(b, t),
    decreases b.len(),
{
    if b.len() == 0 {
        assert(a + b =~= a);
        assert(with_accept(a, t) + with_accept(b, t) =~= with_accept(a, t));
    } else {
        assert((a + b).drop_last() =~= a + b.drop_last());
        assert((a + b).last() == b.last());
        lemma_with_accept_add(a, b.drop_last(), t);
        if b.last().accept_time == t {
            assert(with_accept(a, t) + with_accept(b.drop_last(), t).push(b.last()) =~= (
            with_accept(a, t) + with_accept(b.drop_last(), t)).push(b.last()));
        }
    }
}

/// A run with no quote at accept time `t` contributes nothing to the
/// selection.
proof fn lemma_with_accept_none(s: Seq<Quote>, t: i64)
    requires
        forall|j: int| 0 <= j < s.len() ==> s[j].accept_time != t,
    ensures
        with_accept(s, t) == Seq::<Quote>::empty(),
    decreases s.len(),
{
    if s.len() > 0 {
        assert(forall|j: int|
            0 <= j < s.drop_last().len() ==> s.drop_last()[j] == s[j]);
        lemma_with_accept_none(s.drop_last(), t);
    }
}

/// Moving one element left past a run of strictly greater elements keeps the
/// multiset, keeps every per-accept-time subsequence (so ties keep their
/// order), and shifts elements the obvious way.
proof fn lemma_stable_insert(s: Seq<Quote>, i: int, k: int)
    requires
        0 <= k <= i < s.len(),
        forall|j: int| k <= j < i ==> s[j].accept_time > s[i].accept_time,
    ensures
        ({
            let s2 = s.remove(i).insert(k, s[i]);
            &&& s2.len() == s.len()
            &&& s2.to_multiset() == s.to_multiset()
            &&& forall|t: i64| with_accept(s2, t) == with_accept(s, t)
            &&& forall|m: int| 0 <= m < k ==> s2[m] == s[m]
            &&& s2[k] == s[i]
            &&& forall|m: int| k < m <= i ==> s2[m] == s[m - 1]
            &&& forall|m: int| i < m < s.len() ==> s2[m] == s[m]
        }),
{
    let x = s[i];
    let a = s.subrange(0, k);
    let b = s.subrange(k, i);
    let c = s.subrange(i + 1, s.len() as int);
    let s2 = s.remove(i).insert(k, x);
    assert(s =~= (a + b) + (seq![x] + c));
    assert(s.remove(i) =~= (a + b) + c);
    assert(s2 =~= (a + seq![x]) + (b + c));
    // The multiset: both orders concatenate the same four blocks.
    vstd::seq_lib::lemma_multiset_commutative(a + b, seq![x] + c);
    vstd::seq_lib::lemma_multiset_commutative(a, b);
    vstd::seq_lib::lemma_multiset_commutative(seq![x], c);
    vstd::seq_lib::lemma_multiset_commutative(a + seq![x], b + c);
    vstd::seq_lib::lemma_multiset_commutative(a, seq![x]);
    vstd::seq_lib::lemma_multiset_commutative(b, c);
    assert(s2.to_multiset() =~= s.to_multiset());
    // The per-accept-time subsequences.
    assert forall|t: i64| with_accept(s2, t) == with_accept(s, t) by {
        lemma_with_accept_add(a + b, seq![x] + c, t);
        lemma_with_accept_add(a, b, t);
        lemma_with_accept_add(seq![x], c, t);
        lemma_with_accept_add(a + seq![x], b + c, t);
        lemma_with_accept_add(a, seq![x], t);
        lemma_with_accept_add(b, c, t);
        if x.accept_time == t {
            assert(forall|j: int| 0 <= j < b.len() ==> b[j].accept_time != t);
            lemma_with_accept_none(b, t);
        } else {
            lemma_with_accept_none(seq![x], t);
        }
        assert(with_accept(s2, t) =~= with_accept(s, t));
    }
}

/// Stable sort by accept time, ascending: insertion sort that moves each
/// quote left only past strictly later quotes, so equal accept times keep
/// their encounter order.
pub fn sort_by_accept_time(qs: &mut Vec<Quote>)
    ensures
        sorted_by_accept(final(qs)@),
        final(qs)@.len() == old(qs)@.len(),
        final(qs)@.to_multiset() == old(qs)@.to_multiset(),
        forall|t: i64| with_accept(final(qs)@, t) == with_accept(old(qs)@, t),
        forall|m: int| 0 <= m < final(qs)@.len() ==> old(qs)@.contains(final(qs)@[m]),
{
    let len: usize = qs.len();
    let mut i: usize = 0;
    while i < len
        invariant
            i <= len,
            qs@.len() == len,
            sorted_by_accept(qs@.subrange(0, i as int)),
            qs@.to_multiset() == old(qs)@.to_multiset(),
            forall|t: i64| with_accept(qs@, t) == with_accept(old(qs)@, t),
            forall|m: int| 0 <= m < qs@.len() ==> old(qs)@.contains(qs@[m]),
        decreases len - i,
    {
        let key: i64 = qs[i].accept_time;
        let mut k: usize = 0;
        while k < i && qs[k].accept_time <= key
            invariant
                k <= i < qs@.len(),
                key == qs@[i as int].accept_time,
                forall|j: int| 0 <= j < k ==> qs@[j].accept_time <= key,
            decreases i - k,
        {
            k = k + 1;
        }
        proof {
            let pre = qs@.subrange(0, i as int);
            assert(forall|j: int| 0 <= j < i ==> pre[j] == qs@[j]);
            assert forall|j: int| k <= j < i implies qs@[j].accept_time > key by {
                assert(pre[j] == qs@[j]);
                assert(pre[k as int] == qs@[k as int]);
                assert(qs@[k as int].accept_time > key);
                if j > k {
                    assert(pre[k as int].accept_time <= pre[j].accept_time);
                }
            }
            lemma_stable_insert(qs@, i as int, k as int);
        }
        let ghost s_before = qs@;
        let x: Quote = qs.remove(i);
        qs.insert(k, x);
        proof {
            assert(qs@ == s_before.remove(i as int).insert(k as int, s_before[i as int]));
            assert(sorted_by_accept(qs@.subrange(0, i + 1))) by {
                let p = qs@.subrange(0, i + 1);
                assert(forall|m: int| 0 <= m < k ==> p[m] == s_before[m]);
                assert(p[k as int] == s_before[i as int]);
                assert(forall|m: int| k < m <= i ==> p[m] == s_before[m - 1]);
            }
        }
        i = i + 1;
    }
    proof {
        assert(qs@.subrange(0, len as int) =~= qs@);
    }
}

/// The payload window a valid frame hands to the decoder: everything from
/// the payload offset up to byte 256, or to the end of a shorter frame.
pub open spec fn frame_window(f: Seq<u8>) -> Seq<u8>
    recommends
        f.len() > 225,
{
    f.subrange(
        42,
        if f.len() < 256 {
            f.len() as int
        } else {
            256
        },
    )
}

/// The quotes a whole trace yields, in frame-encounter order: every frame
/// that passes the Frame Filter and decodes contributes exactly one quote;
/// every other frame contributes nothing.
pub open spec fn process_spec(fs: Seq<(u32, Seq<u8>)>) -> Seq<QuoteView>
    decreases fs.len(),
{
    if fs.len() == 0 {
        Seq::empty()
    } else {
        let prev = process_spec(fs.drop_last());
        let t = fs.last().0;
        let data = fs.last().1;
        if valid_quote_frame(data) {
            match decode_spec(t, frame_window(data)) {
                Ok(qv) => prev.push(qv),
                Err(_) => prev,
            }
        } else {
            prev
        }
    }
}

/// Decodes a whole captured trace: filters each frame, slices the payload
/// window out of the accepted ones, decodes, and keeps the quotes of the
/// frames that decode, in encounter order. A frame that fails the filter or
/// the decoder is skipped, never aborting the run.
pub fn process_frames(frames: &Vec<(u32, Vec<u8>)>) -> (qs: Vec<Quote>)
    ensures
        qs.deep_view() == process_spec(frames.deep_view()),
        forall|i: int|
            0 <= i < qs@.len() ==> quote_wf(qs@[i]) && qs@[i].bids@.len() == 5
                && qs@[i].asks@.len() == 5,
{
    let mut qs: Vec<Quote> = Vec::new();
    let n: usize = frames.len();
    let mut i: usize = 0;
    while i < n
        invariant
            i <= n,
            n == frames@.len(),
            qs.deep_view() == process_spec(frames.deep_view().subrange(0, i as int)),
            forall|m: int|
                0 <= m < qs@.len() ==> quote_wf(qs@[m]) && qs@[m].bids@.len() == 5
                    && qs@[m].asks@.len() == 5,
        decreases n - i,
    {
        let t: u32 = frames[i].0;
        let data: &Vec<u8> = &frames[i].1;
        let ghost fv = frames.deep_view()[i as int];
        proof {
            assert(fv == (t, data@));
            assert(frames.deep_view().subrange(0, i + 1).drop_last() =~= frames.deep_view()
                .subrange(0, i as int));
            assert(frames.deep_view().subrange(0, i + 1).last() == fv);
        }
        if is_valid_quote(data.as_slice()) {
            let end: usize = if data.len() < 256 {
                data.len()
            } else {
                256
            };
            let win: &[u8] = vstd::slice::slice_subrange(
                data.as_slice(),
                crate::frame::PAYLOAD_OFFSET,
                end,
            );
            proof {
                assert(win@ == frame_window(data@));
            }
            match build_quote(t, win) {
                Ok(q) => {
                    let ghost prev = qs.deep_view();
                    qs.push(q);
                    proof {
                        assert(qs.deep_view() =~= prev.push(q@));
                    }
                },
                Err(_) => {},
            }
        }
        i = i + 1;
    }
    proof {
        assert(frames.deep_view().subrange(0, n as int) =~= frames.deep_view());
    }
    qs
}

/// A frame that fails the Frame Filter — wrong marker or too short — or
/// whose payload window fails to decode contributes no quote to the run.
pub proof fn lemma_skipped_frame(fs: Seq<(u32, Seq<u8>)>, t: u32, f: Seq<u8>)
    requires
        !valid_quote_frame(f) || decode_spec(t, frame_window(f)) is Err,
    ensures
        process_spec(fs.push((t, f))) == process_spec(fs),
{
    assert(fs.push((t, f)).drop_last() =~= fs);
    assert(fs.push((t, f)).last() == (t, f));
}

/// A frame that passes the Frame Filter and decodes contributes exactly its
/// quote, at the end of the run so far.
pub proof fn lemma_decoded_frame(fs: Seq<(u32, Seq<u8>)>, t: u32, f: Seq<u8>)
    requires
        valid_quote_frame(f),
        decode_spec(t, frame_window(f)) is Ok,
    ensures
        process_spec(fs.push((t, f))) == process_spec(fs).push(
            decode_spec(t, frame_window(f))->Ok_0,
        ),
{
    assert(fs.push((t, f)).drop_last() =~= fs);
    assert(fs.push((t, f)).last() == (t, f));
}

/// The header row of delimited output, naming each column from the farthest
/// bid level through the farthest ask level.
pub open spec fn csv_header_text() -> Seq<char> {
    "Packet Time,Accept Time,Issue Code,BidQuantity@BidPrice 5th,BidQuantity@BidPrice 4th,BidQuantity@BidPrice 3rd,BidQuantity@BidPrice 2nd,BidQuantity@BidPrice 1st,AskQuantity@AskPrice 1st,AskQuantity@AskPrice 2nd,AskQuantity@AskPrice 3rd,AskQuantity@AskPrice 4th,AskQuantity@AskPrice 5th"@
}

/// The one header line that precedes delimited output.
pub fn csv_header() -> (r: String)
    ensures
        r@ == csv_header_text(),
{
    String::from_str(
        "Packet Time,Accept Time,Issue Code,BidQuantity@BidPrice 5th,BidQuantity@BidPrice 4th,BidQuantity@BidPrice 3rd,BidQuantity@BidPrice 2nd,BidQuantity@BidPrice 1st,AskQuantity@AskPrice 1st,AskQuantity@AskPrice 2nd,AskQuantity@AskPrice 3rd,AskQuantity@AskPrice 4th,AskQuantity@AskPrice 5th",
    )
}

/// Renders the collection: one line per quote in collection order, fields
/// space-separated in plain mode; in delimited mode the same fields joined
/// by commas, preceded by exactly one header line.
pub fn render_quotes(qs: &Vec<Quote>, csv: bool) -> (lines: Vec<String>)
    requires
        forall|i: int| 0 <= i < qs@.len() ==> quote_wf(qs@[i]),
    ensures
        lines@.len() == qs@.len() + if csv {
            1int
        } else {
            0int
        },
        csv ==> lines@[0]@ == csv_header_text(),
        forall|i: int|
            0 <= i < qs@.len() ==> lines@[i + if csv {
                1int
            } else {
                0int
            }]@ == line_text(
                qs@[i]@,
                if csv {
                    ','
                } else {
                    ' '
                },
            ),
{
    let mut lines: Vec<String> = Vec::new();
    if csv {
        lines.push(csv_header());
    }
    let ghost h: int = if csv {
        1int
    } else {
        0int
    };
    let n: usize = qs.len();
    let mut i: usize = 0;
    while i < n
        invariant
            i <= n,
            n == qs@.len(),
            forall|m: int| 0 <= m < qs@.len() ==> quote_wf(qs@[m]),
            h == if csv {
                1int
            } else {
                0int
            },
            lines@.len() == i + h,
            csv ==> lines@[0]@ == csv_header_text(),
            forall|m: int|
                0 <= m < i ==> lines@[m + h]@ == line_text(
                    qs@[m]@,
                    if csv {
                        ','
                    } else {
                        ' '
                    },
                ),
        decreases n - i,
    {
        let line: String = qs[i].to_string(csv);
        lines.push(line);
        i = i + 1;
    }
    lines
}

} // verus!
