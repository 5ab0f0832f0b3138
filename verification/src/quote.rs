//! Quote Decoder: interprets a validated frame's payload window as a
//! structured quote with five bid and five ask levels.

use vstd::prelude::*;
use crate::extract::extract_from;
use crate::extract::extract_spec;
use crate::extract::digest;
use crate::numtext::digits_val;
use crate::numtext::scaled_field_ok;
use crate::numtext::two_dec;
use crate::numtext::two_dec_text;
use crate::numtext::fmt_two_dec;
use crate::timefmt::accept_in_range;
use crate::timefmt::accept_spec;
use crate::timefmt::accept_dt;
use crate::timefmt::accept_fmt_of;
use crate::timefmt::capture_fmt_of;
use crate::timefmt::fmt_accept_time;
use crate::timefmt::fmt_capture_time;

verus! {

/// Why a single frame failed to decode; the frame is dropped and the run
/// continues.
#[derive(Clone, Copy, Debug, PartialEq, Eq, Structural)]
pub enum DecodeError {
    /// The payload window is shorter than the 214 characters the layout reads.
    TooShort,
    /// The payload window holds bytes that are not ASCII text.
    NotText,
    /// A price or quantity field is not a decodable scaled-integer.
    BadNumber,
    /// The accept-time field does not carry eight leading digits.
    BadTime,
}

/// The decoded record: capture time in whole seconds since the epoch, the
/// sortable accept-time offset, the instrument code, and the two price
/// ladders. Bids are stored farthest-from-market first (level 5 down to
/// level 1); asks are stored best first (level 1 up to level 5). Prices and
/// quantities are the feed's integers scaled by 100.
#[derive(Debug)]
pub struct Quote {
    pub pkt_time: u32,
    pub accept_time: i64,
    pub issue_code: String,
    pub bids: Vec<(u64, u64)>,
    pub asks: Vec<(u64, u64)>,
}

/// The mathematical shape of a quote.
pub ghost struct QuoteView {
    pub pkt_time: u32,
    pub accept_time: int,
    pub issue_code: Seq<char>,
    pub bids: Seq<(u64, u64)>,
    pub asks: Seq<(u64, u64)>,
}

impl View for Quote {
    type V = QuoteView;

    open spec fn view(&self) -> QuoteView {
        QuoteView {
            pkt_time: self.pkt_time,
            accept_time: self.accept_time as int,
            issue_code: self.issue_code@,
            bids: self.bids@,
            asks: self.asks@,
        }
    }
}

impl DeepView for Quote {
    type V = QuoteView;

    open spec fn deep_view(&self) -> QuoteView {
        self.view()
    }
}

/// A quote the decoder can have produced: its accept time lies in the band
/// an 8-digit field can encode, so it can always be rendered.
pub open spec fn quote_wf(q: Quote) -> bool {
    accept_in_range(q.accept_time as int)
}

/// The canonical skip/take layout of the feed: instrument code, five bid
/// (price, quantity) pairs, five ask pairs, and the accept-time field, with
/// the padding in between skipped. A fixed contract of the feed format.
pub open spec fn canonical_layout_spec() -> Seq<i32> {
    seq![
        -5i32,
        12i32,
        -12i32,
        5i32,
        7i32,
        5i32,
        7i32,
        5i32,
        7i32,
        5i32,
        7i32,
        5i32,
        7i32,
        -7i32,
        5i32,
        7i32,
        5i32,
        7i32,
        5i32,
        7i32,
        5i32,
        7i32,
        5i32,
        7i32,
        -50i32,
        8i32,
    ]
}

/// The number of characters the canonical layout reads in all.
pub const CANONICAL_WIDTH: usize = 214;

/// Builds the canonical layout as a vector for the extractor.
pub fn canonical_layout() -> (v: Vec<i32>)
    ensures
        v@ == canonical_layout_spec(),
{
    let v: Vec<i32> = vec![
        -5, 12, -12, 5, 7, 5, 7, 5, 7, 5, 7, 5, 7, -7, 5, 7, 5, 7, 5, 7, 5, 7, 5, 7, -50, 8,
    ];
    proof {
        assert(v@ =~= canonical_layout_spec());
    }
    v
}

/// Field Extractor invariant for this feed: whenever the text is at least
/// 214 characters long, extraction under the canonical layout succeeds and
/// yields exactly 22 fields.
pub proof fn lemma_canonical_extract(s: Seq<char>)
    requires
        s.len() >= 214,
    ensures
        extract_spec(s, canonical_layout_spec()) is Some,
        extract_spec(s, canonical_layout_spec())->Some_0.len() == 22,
{
    reveal_with_fuel(extract_from, 28);
}

/// The scaled (price, quantity) pair standing in fields `j` and `j + 1`.
pub open spec fn pair_at(fields: Seq<Seq<char>>, j: int) -> (u64, u64) {
    (digits_val(fields[j]) as u64, digits_val(fields[j + 1]) as u64)
}

/// Whether `count` consecutive (price, quantity) pairs starting at field
/// `offset` all hold decodable scaled-integer text.
pub open spec fn pairs_ok(fields: Seq<Seq<char>>, offset: int, count: int) -> bool {
    forall|j: int| offset <= j < offset + 2 * count ==> scaled_field_ok(fields[j])
}

/// Walks `2 * n` consecutive (price, quantity) pairs of text fields starting
/// at `offset`: the first `n` are the bid levels in encounter order (level 1,
/// the best, first), the next `n` the ask levels. The returned bid sequence
/// is reversed — level 5 first, level 1 last — while asks keep encounter
/// order. `None` exactly when some walked field is not a scaled integer.
pub fn build_bidasks(v: &Vec<&str>, n: u32, offset: usize) -> (r: Option<
    (Vec<(u64, u64)>, Vec<(u64, u64)>),
>)
    requires
        offset + 4 * (n as int) <= v@.len(),
    ensures
        match r {
            Some(p) => {
                &&& pairs_ok(v.deep_view(), offset as int, 2 * (n as int))
                &&& p.0@.len() == n as int
                &&& p.1@.len() == n as int
                &&& forall|i: int|
                    0 <= i < n as int ==> p.0@[i] == pair_at(
                        v.deep_view(),
                        offset + 2 * ((n as int - 1) - i),
                    )
                &&& forall|i: int|
                    0 <= i < n as int ==> p.1@[i] == pair_at(
                        v.deep_view(),
                        offset + 2 * (n as int) + 2 * i,
                    )
            },
            None => !pairs_ok(v.deep_view(), offset as int, 2 * (n as int)),
        },
{
    let vl: usize = v.len();
    let two_n: u64 = 2 * (n as u64);
    let mut enc: Vec<(u64, u64)> = Vec::new();
    let mut k: u64 = 0;
    while k < two_n
        invariant
            two_n == 2 * (n as int),
            offset + 4 * (n as int) <= vl as int,
            vl as int == v@.len(),
            k <= two_n,
            enc@.len() == k as int,
            forall|jj: int|
                offset <= jj < offset + 2 * (k as int) ==> scaled_field_ok(v.deep_view()[jj]),
            forall|i: int|
                0 <= i < k as int ==> enc@[i] == pair_at(v.deep_view(), offset + 2 * i),
        decreases two_n - k,
    {
        let ptr: usize = offset + 2 * (k as usize);
        let price: u64 = match two_dec(v[ptr]) {
            Some(x) => x,
            None => {
                proof {
                    assert(!scaled_field_ok(v.deep_view()[ptr as int]));
                }
                return None;
            },
        };
        let qty: u64 = match two_dec(v[ptr + 1]) {
            Some(x) => x,
            None => {
                proof {
                    assert(!scaled_field_ok(v.deep_view()[ptr + 1]));
                }
                return None;
            },
        };
        enc.push((price, qty));
        k = k + 1;
        proof {
            assert(v.deep_view()[ptr as int] == v@[ptr as int]@);
            assert(v.deep_view()[ptr + 1] == v@[ptr + 1]@);
            assert(forall|jj: int|
                offset <= jj < offset + 2 * (k as int) ==> scaled_field_ok(v.deep_view()[jj]));
            assert(enc@[k - 1] == pair_at(v.deep_view(), offset + 2 * (k - 1)));
        }
    }
    proof {
        assert(pairs_ok(v.deep_view(), offset as int, 2 * (n as int)));
    }
    let mut bids: Vec<(u64, u64)> = Vec::new();
    let mut i: u64 = n as u64;
    while i > 0
        invariant
            n as u64 <= two_n == 2 * (n as int),
            enc@.len() == two_n,
            i <= n as u64,
            bids@.len() == n as u64 - i,
            forall|j: int|
                0 <= j < enc@.len() ==> enc@[j] == pair_at(v.deep_view(), offset + 2 * j),
            forall|j: int| 0 <= j < bids@.len() ==> bids@[j] == enc@[(n as int - 1) - j],
        decreases i,
    {
        i = i - 1;
        bids.push(enc[i as usize]);
    }
    let mut asks: Vec<(u64, u64)> = Vec::new();
    let mut m: u64 = n as u64;
    while m < two_n
        invariant
            n as u64 <= two_n == 2 * (n as int),
            enc@.len() == two_n,
            n as u64 <= m <= two_n,
            asks@.len() == m - n as u64,
            forall|j: int|
                0 <= j < enc@.len() ==> enc@[j] == pair_at(v.deep_view(), offset + 2 * j),
            forall|j: int| 0 <= j < asks@.len() ==> asks@[j] == enc@[n as int + j],
        decreases two_n - m,
    {
        asks.push(enc[m as usize]);
        m = m + 1;
    }
    Some((bids, asks))
}

/// Whether every byte of the window is ASCII, so the payload is text.
pub open spec fn ascii_window(w: Seq<u8>) -> bool {
    forall|i: int| 0 <= i < w.len() ==> w[i] < 128
}

/// The characters of an ASCII byte window.
pub open spec fn window_chars(w: Seq<u8>) -> Seq<char> {
    w.map_values(|b: u8| b as char)
}

/// What decoding a payload window yields, for every window and capture time:
/// the full model of the Quote Decoder. The window's first 214 bytes must be
/// ASCII text; the canonical layout slices them into 22 fields; fields 1
/// through 20 are the five bid then five ask (price, quantity) pairs, with
/// the bid levels reversed on storage; field 0 is the instrument code and
/// field 21 the accept time.
pub open spec fn decode_spec(t: u32, w: Seq<u8>) -> Result<QuoteView, DecodeError> {
    if w.len() < 214 {
        Err(DecodeError::TooShort)
    } else {
        let text = w.subrange(0, 214);
        if !ascii_window(text) {
            Err(DecodeError::NotText)
        } else {
            match extract_spec(window_chars(text), canonical_layout_spec()) {
                None => Err(DecodeError::TooShort),
                Some(fields) => {
                    if !pairs_ok(fields, 1, 10) {
                        Err(DecodeError::BadNumber)
                    } else {
                        match accept_spec(fields[21]) {
                            None => Err(DecodeError::BadTime),
                            Some(at) => Ok(
                                QuoteView {
                                    pkt_time: t,
                                    accept_time: at,
                                    issue_code: fields[0],
                                    bids: Seq::new(5, |i: int| pair_at(fields, 1 + 2 * (4 - i))),
                                    asks: Seq::new(5, |i: int| pair_at(fields, 11 + 2 * i)),
                                },
                            ),
                        }
                    }
                },
            }
        }
    }
}

/// Relies on `core::str::from_utf8`: ASCII bytes are valid UTF-8 and decode
/// to exactly one character per byte, each the byte's own value.
#[verifier::external_body]
fn ascii_to_str<'a>(b: &'a [u8]) -> (r: &'a str)
    requires
        ascii_window(b@),
    ensures
        r@ == window_chars(b@),
{
    core::str::from_utf8(b).unwrap()
}

/// Quote Decoder: turns a capture time and a payload window into a Quote,
/// exactly as `decode_spec` says, with one error per way a frame can be
/// undecodable. Every quote produced has exactly five bid and five ask
/// levels and a renderable accept time.
pub fn build_quote(t: u32, b: &[u8]) -> (r: Result<Quote, DecodeError>)
    ensures
        match decode_spec(t, b@) {
            Ok(qv) => r matches Ok(q) && q@ == qv,
            Err(e) => r matches Err(e2) && e2 == e,
        },
        r matches Ok(q) ==> q.bids@.len() == 5 && q.asks@.len() == 5 && quote_wf(q),
{
    if b.len() < CANONICAL_WIDTH {
        return Err(DecodeError::TooShort);
    }
    let mut i: usize = 0;
    while i < CANONICAL_WIDTH
        invariant
            b@.len() >= 214,
            i <= 214,
            forall|j: int| 0 <= j < i ==> b@[j] < 128,
        decreases 214 - i,
    {
        if b[i] >= 128 {
            proof {
                assert(b@.subrange(0, 214)[i as int] == b@[i as int]);
                assert(!ascii_window(b@.subrange(0, 214)));
            }
            return Err(DecodeError::NotText);
        }
        i = i + 1;
    }
    let win: &[u8] = vstd::slice::slice_subrange(b, 0, CANONICAL_WIDTH);
    proof {
        assert(forall|j: int| 0 <= j < win@.len() ==> win@[j] == b@.subrange(0, 214)[j]);
    }
    let s: &str = ascii_to_str(win);
    proof {
        lemma_canonical_extract(s@);
    }
    let fields: Vec<&str> = match digest(s, canonical_layout()) {
        Some(f) => f,
        None => {
            proof {
                assert(false);
            }
            return Err(DecodeError::TooShort);
        },
    };
    let ghost gfields = extract_spec(s@, canonical_layout_spec())->Some_0;
    proof {
        assert(fields.deep_view() == gfields);
        assert(fields@.len() == fields.deep_view().len());
    }
    let issue: &str = fields[0];
    let (bids, asks) = match build_bidasks(&fields, 5, 1) {
        Some(p) => p,
        None => { return Err(DecodeError::BadNumber) },
    };
    let at: i64 = match accept_dt(fields[21]) {
        Some(v) => v,
        None => { return Err(DecodeError::BadTime) },
    };
    let q = Quote {
        pkt_time: t,
        accept_time: at,
        issue_code: String::from_str(issue),
        bids,
        asks,
    };
    proof {
        let qv = decode_spec(t, b@)->Ok_0;
        assert(q@.bids =~= qv.bids);
        assert(q@.asks =~= qv.asks);
        assert(q@ == qv);
    }
    Ok(q)
}

/// Every quote the decoder produces carries exactly five bid and five ask
/// levels; a window that cannot yield five of each never becomes a quote.
pub proof fn lemma_decode_level_counts(t: u32, w: Seq<u8>)
    ensures
        decode_spec(t, w) matches Ok(qv) ==> qv.bids.len() == 5 && qv.asks.len() == 5,
{
}

/// One level rendered as `quantity@price`, both with two decimal places.
pub open spec fn qp_text(p: (u64, u64)) -> Seq<char> {
    two_dec_text(p.1 as int) + seq!['@'] + two_dec_text(p.0 as int)
}

/// A run of levels, each preceded by the separator.
pub open spec fn pairs_text(ps: Seq<(u64, u64)>, sep: char) -> Seq<char>
    decreases ps.len(),
{
    if ps.len() == 0 {
        Seq::empty()
    } else {
        pairs_text(ps.drop_last(), sep) + seq![sep] + qp_text(ps.last())
    }
}

/// One output line for a quote: capture time, accept time, instrument code,
/// then the ten levels in stored order — bids from the farthest level down
/// to the best, asks from the best up to the farthest — every field joined
/// by the separator.
pub open spec fn line_text(qv: QuoteView, sep: char) -> Seq<char> {
    capture_fmt_of(qv.pkt_time) + seq![sep] + accept_fmt_of(qv.accept_time as i64) + seq![sep]
        + qv.issue_code + pairs_text(qv.bids + qv.asks, sep)
}

/// Renders one level as `quantity@price`.
fn qp_fmt(p: &(u64, u64)) -> (r: String)
    ensures
        r@ == qp_text(*p),
{
    let mut out: String = fmt_two_dec(p.1);
    out.append("@");
    let price: String = fmt_two_dec(p.0);
    out.append(price.as_str());
    proof {
        reveal_strlit("@");
        assert(out@ =~= qp_text(*p));
    }
    out
}

impl Quote {
    /// Renders the quote as one output line, space-separated in plain mode
    /// and comma-separated in delimited mode.
    pub fn to_string(&self, csv: bool) -> (r: String)
        requires
            quote_wf(*self),
        ensures
            r@ == line_text(self@, if csv { ',' } else { ' ' }),
    {
        let sep: &str = if csv {
            ","
        } else {
            " "
        };
        let ghost c: char = if csv {
            ','
        } else {
            ' '
        };
        proof {
            reveal_strlit(",");
            reveal_strlit(" ");
            assert(sep@ =~= seq![c]);
        }
        let mut out: String = fmt_capture_time(self.pkt_time);
        out.append(sep);
        let acc: String = fmt_accept_time(self.accept_time);
        out.append(acc.as_str());
        out.append(sep);
        out.append(self.issue_code.as_str());
        let ghost head = capture_fmt_of(self@.pkt_time) + seq![c] + accept_fmt_of(
            self@.accept_time as i64,
        ) + seq![c] + self@.issue_code;
        let ghost allp = self@.bids + self@.asks;
        proof {
            assert(out@ =~= head);
            assert(allp.subrange(0, 0) =~= Seq::<(u64, u64)>::empty());
            assert(out@ =~= head + pairs_text(allp.subrange(0, 0), c));
        }
        let nb: usize = self.bids.len();
        let mut i: usize = 0;
        while i < nb
            invariant
                quote_wf(*self),
                nb == self@.bids.len(),
                i <= nb,
                sep@ == seq![c],
                allp == self@.bids + self@.asks,
                out@ == head + pairs_text(allp.subrange(0, i as int), c),
            decreases nb - i,
        {
            out.append(sep);
            let piece: String = qp_fmt(&self.bids[i]);
            out.append(piece.as_str());
            i = i + 1;
            proof {
                let pre = allp.subrange(0, i as int);
                assert(pre.drop_last() =~= allp.subrange(0, i - 1));
                assert(pre.last() == self@.bids[i - 1]);
                assert(out@ =~= head + pairs_text(pre, c));
            }
        }
        let na: usize = self.asks.len();
        let mut j: usize = 0;
        while j < na
            invariant
                quote_wf(*self),
                nb == self@.bids.len(),
                na == self@.asks.len(),
                j <= na,
                sep@ == seq![c],
                allp == self@.bids + self@.asks,
                out@ == head + pairs_text(allp.subrange(0, nb + j), c),
            decreases na - j,
        {
            out.append(sep);
            let piece: String = qp_fmt(&self.asks[j]);
            out.append(piece.as_str());
            j = j + 1;
            proof {
                let pre = allp.subrange(0, nb + j);
                assert(pre.drop_last() =~= allp.subrange(0, nb + j - 1));
                assert(pre.last() == self@.asks[j - 1]);
                assert(out@ =~= head + pairs_text(pre, c));
            }
        }
        proof {
            assert(allp.subrange(0, nb + na) =~= allp);
            assert(out@ =~= line_text(self@, c));
        }
        out
    }
}

} // verus!
