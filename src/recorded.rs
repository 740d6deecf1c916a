//! Recorded stream events, as some capture tools save them: several events run
//! together on one line, each introduced by `event: `, with the closing quote of
//! their keys lost. This module cuts such a line into one JSON text per event.

use vstd::prelude::*;
use vstd::std_specs::iter::IteratorSpec;
use vstd::string::*;

use crate::text::{requote_keys, requoted_keys};

verus! {

/// What introduces each event on a recorded line.
pub const EVENT_SEPARATOR: &'static str = "event: ";

/// What each recovered event text starts with: the brace and the quote that the cut removed.
pub const OBJECT_OPENING: &'static str = "{\"";

/// Whether `sep` occurs in `s` at position `i`.
pub open spec fn occurs_at(s: Seq<char>, sep: Seq<char>, i: int) -> bool {
    0 <= i && i + sep.len() <= s.len() && s.subrange(i, i + sep.len()) == sep
}

/// The pieces of `s` from `start` on, scanning from `i`: each occurrence of `sep`, taken
/// from left to right without overlap, ends a piece.
pub open spec fn split_scan(s: Seq<char>, sep: Seq<char>, i: int, start: int) -> Seq<Seq<char>>
    decreases s.len() - i,
{
    if sep.len() == 0 || i >= s.len() {
        seq![s.subrange(start, s.len() as int)]
    } else if occurs_at(s, sep, i) {
        seq![s.subrange(start, i)] + split_scan(s, sep, i + sep.len(), i + sep.len())
    } else {
        split_scan(s, sep, i + 1, start)
    }
}

/// The pieces of `s` between the occurrences of `sep`.
pub open spec fn pieces(s: Seq<char>, sep: Seq<char>) -> Seq<Seq<char>> {
    split_scan(s, sep, 0, 0)
}

/// One JSON text per non-empty piece: the opening restored and the keys repaired.
pub open spec fn objects_of(pieces: Seq<Seq<char>>) -> Seq<Seq<char>>
    decreases pieces.len(),
{
    if pieces.len() == 0 {
        Seq::empty()
    } else {
        let earlier = objects_of(pieces.drop_last());
        let p = pieces.last();
        if p.len() > 0 {
            earlier.push(OBJECT_OPENING@ + requoted_keys(p))
        } else {
            earlier
        }
    }
}

pub open spec fn strings_view(v: Seq<String>) -> Seq<Seq<char>> {
    v.map_values(|s: String| s@)
}

/// The characters of `s`, in order.
pub fn chars_of(s: &str) -> (r: Vec<char>)
    ensures
        r@ == s@,
{
    let mut it = s.chars();
    let mut out: Vec<char> = Vec::new();
    loop
        invariant
            out@ + it.remaining() == s@,
            it.decrease() is Some,
        ensures
            out@ == s@,
        decreases it.decrease()->0,
    {
        match it.next() {
            Some(c) => {
                out.push(c);
            },
            None => {
                assert(out@ + it.remaining() =~= out@);
                break;
            },
        }
    }
    out
}

fn occurs_in(s: &Vec<char>, sep: &Vec<char>, i: usize) -> (r: bool)
    requires
        i <= s@.len(),
    ensures
        r == occurs_at(s@, sep@, i as int),
{
    let m = sep.len();
    if m > s.len() - i {
        return false;
    }
    let mut k: usize = 0;
    while k < m
        invariant
            m == sep@.len(),
            i + m <= s@.len(),
            s@.len() <= usize::MAX,
            k <= m,
            forall|j: int| 0 <= j < k ==> s@[i + j] == sep@[j],
        decreases m - k,
    {
        if s[i + k] != sep[k] {
            assert(s@.subrange(i as int, i + m)[k as int] != sep@[k as int]);
            return false;
        }
        k = k + 1;
    }
    assert(s@.subrange(i as int, i + m) =~= sep@);
    true
}

/// The pieces of `s` between the occurrences of a non-empty `sep`, as `str::split` cuts them.
pub fn split_on(s: &str, sep: &str) -> (r: Vec<String>)
    requires
        sep@.len() > 0,
    ensures
        strings_view(r@) == pieces(s@, sep@),
{
    let cs = chars_of(s);
    let sep_cs = chars_of(sep);
    let n = cs.len();
    let m = sep_cs.len();
    let mut out: Vec<String> = Vec::new();
    let mut i: usize = 0;
    let mut start: usize = 0;
    while i < n
        invariant
            n == s@.len(),
            m == sep@.len(),
            m > 0,
            cs@ == s@,
            sep_cs@ == sep@,
            start <= i <= n,
            strings_view(out@) + split_scan(s@, sep@, i as int, start as int) == pieces(s@, sep@),
        decreases n - i,
    {
        if occurs_in(&cs, &sep_cs, i) {
            let ghost before = out@;
            let piece = s.substring_char(start, i).to_owned();
            out.push(piece);
            proof {
                assert(strings_view(out@) =~= strings_view(before).push(piece@));
                let rest = split_scan(s@, sep@, (i + m) as int, (i + m) as int);
                assert(strings_view(before) + (seq![piece@] + rest) =~= strings_view(out@) + rest);
            }
            i = i + m;
            start = i;
        } else {
            i = i + 1;
        }
    }
    let ghost before = out@;
    let last = s.substring_char(start, n).to_owned();
    out.push(last);
    assert(strings_view(out@) =~= strings_view(before) + seq![last@]);
    out
}

/// Repairs a recorded event text whose keys lost their closing quote.
pub fn correct_malformed_json(sanitised_line: &str) -> (r: String)
    ensures
        r@ == requoted_keys(sanitised_line@),
{
    requote_keys(sanitised_line)
}

/// The JSON text of each event on a recorded line, in order.
pub fn event_objects(line: &str) -> (r: Vec<String>)
    ensures
        strings_view(r@) == objects_of(pieces(line@, EVENT_SEPARATOR@)),
{
    proof {
        reveal_strlit("event: ");
    }
    let parts = split_on(line, EVENT_SEPARATOR);
    let mut out: Vec<String> = Vec::new();
    let mut k: usize = 0;
    while k < parts.len()
        invariant
            k <= parts@.len(),
            strings_view(out@) == objects_of(strings_view(parts@).subrange(0, k as int)),
        decreases parts@.len() - k,
    {
        let part = &parts[k];
        let ghost before = out@;
        let ghost prefix = strings_view(parts@).subrange(0, k + 1);
        assert(prefix.drop_last() =~= strings_view(parts@).subrange(0, k as int));
        assert(prefix.last() == part@);
        if !part.as_str().is_empty() {
            let mut object = OBJECT_OPENING.to_owned();
            let fixed = correct_malformed_json(part.as_str());
            object.append(fixed.as_str());
            out.push(object);
            assert(strings_view(out@) =~= strings_view(before).push(object@));
        }
        k = k + 1;
    }
    assert(strings_view(parts@).subrange(0, parts@.len() as int) =~= strings_view(parts@));
    out
}

} // verus!
