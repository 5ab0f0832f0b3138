//! Field Extractor: slices a fixed-format text payload into an ordered
//! sequence of fields, following a declarative skip/take layout.
//!
//! A layout is an ordered sequence of signed integers: a positive entry `n`
//! means "extract the next `n` characters as a field", a negative entry `n`
//! means "skip the next `|n|` characters without extracting".

use vstd::prelude::*;

verus! {

/// The number of characters one layout entry consumes.
pub open spec fn entry_len(n: int) -> int {
    if n < 0 {
        -n
    } else {
        n
    }
}

/// The fields that the layout suffix `layout[i..]` extracts from `s`, with
/// the cursor standing at `ptr`; `None` when some extracted slice would fall
/// outside the text (a skip may run past the end without failing, as long as
/// no later entry extracts).
pub open spec fn extract_from(s: Seq<char>, layout: Seq<i32>, i: int, ptr: int) -> Option<
    Seq<Seq<char>>,
>
    decreases layout.len() - i,
{
    if i < 0 || i >= layout.len() {
        Some(Seq::empty())
    } else {
        let n = layout[i] as int;
        let len = entry_len(n);
        if n >= 0 && ptr + len > s.len() {
            None
        } else {
            match extract_from(s, layout, i + 1, ptr + len) {
                None => None,
                Some(rest) => if n >= 0 {
                    Some(seq![s.subrange(ptr, ptr + len)] + rest)
                } else {
                    Some(rest)
                },
            }
        }
    }
}

/// The fields that a whole layout extracts from `s`.
pub open spec fn extract_spec(s: Seq<char>, layout: Seq<i32>) -> Option<Seq<Seq<char>>> {
    extract_from(s, layout, 0, 0)
}

/// Field Extractor: walks the layout with a single cursor and emits one field
/// per positive entry, in order. Returns `None` exactly when some field would
/// reach past the end of the text.
pub fn digest<'a>(s: &'a str, slices: Vec<i32>) -> (r: Option<Vec<&'a str>>)
    ensures
        match r {
            Some(fields) => extract_spec(s@, slices@) == Some(fields.deep_view()),
            None => extract_spec(s@, slices@) is None,
        },
{
    let s_len: usize = s.unicode_len();
    let mut out: Vec<&'a str> = Vec::new();
    let mut ptr: usize = 0;
    // True once a skip has pushed the cursor past the end of the text.
    let mut over: bool = false;
    let ghost mut gptr: int = 0int;
    let mut i: usize = 0;
    while i < slices.len()
        invariant
            i <= slices@.len(),
            s_len == s@.len(),
            gptr >= 0,
            over <==> gptr > s@.len(),
            !over ==> ptr == gptr,
            extract_spec(s@, slices@) == match extract_from(s@, slices@, i as int, gptr) {
                None => None::<Seq<Seq<char>>>,
                Some(rest) => Some(out.deep_view() + rest),
            },
        decreases slices@.len() - i,
    {
        let n: i32 = slices[i];
        let m: i64 = n as i64;
        let len64: i64 = if m < 0 {
            -m
        } else {
            m
        };
        let len: usize = len64 as usize;
        proof {
            assert(len == entry_len(n as int));
        }
        if n >= 0 {
            // An extracting entry: the slice must lie inside the text.
            if over || len > s_len - ptr {
                proof {
                    assert(gptr + entry_len(n as int) > s@.len());
                    assert(extract_from(s@, slices@, i as int, gptr) is None);
                }
                return None;
            }
            let field: &'a str = s.substring_char(ptr, ptr + len);
            let ghost prev_out = out.deep_view();
            out.push(field);
            proof {
                assert(out.deep_view() =~= prev_out.push(field@));
                let rest_next = extract_from(s@, slices@, i + 1, gptr + len);
                if rest_next is Some {
                    let fs2 = rest_next->Some_0;
                    assert(extract_from(s@, slices@, i as int, gptr) == Some(
                        seq![s@.subrange(gptr, gptr + len)] + fs2,
                    ));
                    assert(prev_out + (seq![field@] + fs2) =~= out.deep_view() + fs2);
                } else {
                    assert(extract_from(s@, slices@, i as int, gptr) is None);
                }
                gptr = gptr + len;
            }
            ptr = ptr + len;
        } else {
            // A skipping entry: advance the cursor, possibly past the end.
            if !over {
                if len <= s_len - ptr {
                    ptr = ptr + len;
                } else {
                    over = true;
                }
            }
            proof {
                assert(extract_from(s@, slices@, i as int, gptr) == extract_from(
                    s@,
                    slices@,
                    i + 1,
                    gptr + entry_len(n as int),
                ));
                gptr = gptr + entry_len(n as int);
            }
        }
        i = i + 1;
    }
    proof {
        assert(extract_from(s@, slices@, i as int, gptr) == Some(Seq::<Seq<char>>::empty()));
        assert(out.deep_view() + Seq::<Seq<char>>::empty() =~= out.deep_view());
    }
    Some(out)
}

} // verus!
