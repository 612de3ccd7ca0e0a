//! The frame codec: the wire carries UTF-8 JSON documents, each terminated
//! by the delimiter character, and one socket message may batch several.
//!
//! Encoding appends the single delimiter after the document's text, with no
//! other framing. Decoding splits on the delimiter, trims whitespace from
//! each piece, discards empty pieces, and parses each remaining piece as an
//! independent JSON document; a parse failure on any piece fails the whole
//! message.

use vstd::prelude::*;
use crate::json::{JVal, JsonValue, spec_ser, sp_parse_text};

verus! {

/// The frame delimiter, code 0x1E.
pub const FRAME_DELIMITER: char = '\u{1e}';

/// The whitespace characters stripped from a piece's ends.
pub open spec fn spec_is_ws(c: char) -> bool {
    c == ' ' || c == '\t' || c == '\n' || c == '\r'
}

/// The index of the first delimiter in `s`, or its length if there is none.
pub open spec fn first_delim(s: Seq<char>) -> nat
    decreases s.len(),
{
    if s.len() == 0 {
        0
    } else if s[0] == FRAME_DELIMITER {
        0
    } else {
        1 + first_delim(s.drop_first())
    }
}

/// Where the first delimiter is known, `first_delim` names it.
pub proof fn lemma_first_delim_at(s: Seq<char>, d: int)
    requires
        0 <= d <= s.len(),
        forall|k: int| 0 <= k < d ==> s[k] != FRAME_DELIMITER,
        d == s.len() || s[d] == FRAME_DELIMITER,
    ensures
        first_delim(s) == d,
    decreases s.len(),
{
    if s.len() > 0 && s[0] != FRAME_DELIMITER {
        let t = s.drop_first();
        assert forall|k: int| 0 <= k < d - 1 implies t[k] != FRAME_DELIMITER by {
            assert(s[k + 1] != FRAME_DELIMITER);
        }
        assert(d >= 1);
        lemma_first_delim_at(t, d - 1);
    } else {
        assert(d == 0);
    }
}

/// The pieces of `s` between delimiters, in order. A trailing delimiter
/// yields a final empty piece.
pub open spec fn spec_split(s: Seq<char>) -> Seq<Seq<char>>
    decreases s.len(),
{
    let i = first_delim(s);
    if i >= s.len() {
        seq![s]
    } else {
        seq![s.subrange(0, i as int)] + spec_split(s.subrange(i + 1int, s.len() as int))
    }
}

/// `s` with leading whitespace removed.
pub open spec fn trim_front(s: Seq<char>) -> Seq<char>
    decreases s.len(),
{
    if s.len() > 0 && spec_is_ws(s[0]) {
        trim_front(s.drop_first())
    } else {
        s
    }
}

/// `s` with trailing whitespace removed.
pub open spec fn trim_back(s: Seq<char>) -> Seq<char>
    decreases s.len(),
{
    if s.len() > 0 && spec_is_ws(s[s.len() - 1]) {
        trim_back(s.drop_last())
    } else {
        s
    }
}

/// `s` with whitespace removed from both ends.
pub open spec fn spec_trim(s: Seq<char>) -> Seq<char> {
    trim_back(trim_front(s))
}

pub proof fn lemma_trim_front_at(s: Seq<char>, k: int)
    requires
        0 <= k <= s.len(),
        forall|q: int| 0 <= q < k ==> spec_is_ws(s[q]),
        k == s.len() || !spec_is_ws(s[k]),
    ensures
        trim_front(s) == s.subrange(k, s.len() as int),
    decreases k,
{
    if k == 0 {
        if s.len() > 0 && spec_is_ws(s[0]) {
            assert(false);
        }
        assert(s.subrange(0, s.len() as int) =~= s);
    } else {
        let t = s.drop_first();
        lemma_trim_front_at(t, k - 1);
        assert(t.subrange(k - 1, t.len() as int) =~= s.subrange(k, s.len() as int));
    }
}

pub proof fn lemma_trim_back_at(s: Seq<char>, k: int)
    requires
        0 <= k <= s.len(),
        forall|q: int| k <= q < s.len() ==> spec_is_ws(s[q]),
        k == 0 || !spec_is_ws(s[k - 1]),
    ensures
        trim_back(s) == s.subrange(0, k),
    decreases s.len(),
{
    if k == s.len() {
        if s.len() > 0 && spec_is_ws(s[s.len() - 1]) {
            assert(false);
        }
        assert(s.subrange(0, s.len() as int) =~= s);
    } else {
        let t = s.drop_last();
        assert(spec_is_ws(s[s.len() - 1]));
        lemma_trim_back_at(t, k);
        assert(t.subrange(0, k) =~= s.subrange(0, k));
    }
}

/// Parses each trimmed, non-empty piece; fails if any piece fails.
pub open spec fn spec_parse_pieces(ps: Seq<Seq<char>>) -> Option<Seq<JVal>>
    decreases ps.len(),
{
    if ps.len() == 0 {
        Some(Seq::empty())
    } else {
        let t = spec_trim(ps[0]);
        if t.len() == 0 {
            spec_parse_pieces(ps.drop_first())
        } else {
            match (sp_parse_text(t), spec_parse_pieces(ps.drop_first())) {
                (Some(v), Some(rest)) => Some(seq![v] + rest),
                _ => None,
            }
        }
    }
}

/// The logical frames carried by one socket message, in order; `None` when
/// any piece fails to parse.
pub open spec fn spec_decode(s: Seq<char>) -> Option<Seq<JVal>> {
    spec_parse_pieces(spec_split(s))
}

/// The wire form of one frame: the document's text, then the delimiter.
pub open spec fn spec_encode_frame(j: JVal) -> Seq<char> {
    spec_ser(j) + seq![FRAME_DELIMITER]
}

/// Encodes one frame: the value's text followed by the delimiter.
pub fn encode_frame(v: &JsonValue) -> (r: String)
    ensures
        r@ == spec_encode_frame(v@),
{
    let mut chars = crate::json::json_chars(v);
    chars.push(FRAME_DELIMITER);
    proof {
        assert(chars@ =~= spec_encode_frame(v@));
    }
    crate::text::string_of_chars(&chars)
}

/// Splits a message into its delimiter-separated pieces.
fn split_pieces(s: &Vec<char>) -> (r: Vec<Vec<char>>)
    ensures
        r.deep_view() == spec_split(s@),
    decreases s@.len(),
{
    let mut pieces: Vec<Vec<char>> = Vec::new();
    let mut piece: Vec<char> = Vec::new();
    let mut i: usize = 0;
    proof {
        assert(piece@ =~= s@.subrange(0, 0));
        assert(pieces.deep_view() =~= Seq::<Seq<char>>::empty());
        assert(s@.subrange(0, s@.len() as int) =~= s@);
        assert(pieces.deep_view() + spec_split(s@) =~= spec_split(s@));
    }
    while i < s.len()
        invariant
            i <= s@.len(),
            piece@.len() <= i,
            piece@ == s@.subrange(i - piece@.len(), i as int),
            forall|k: int| 0 <= k < piece@.len() ==> piece@[k] != FRAME_DELIMITER,
            spec_split(s@) == pieces.deep_view() + spec_split(s@.subrange(
                i - piece@.len(), s@.len() as int)),
        decreases s@.len() - i,
    {
        let c = s[i];
        if c == FRAME_DELIMITER {
            let ghost rest = s@.subrange(i - piece@.len(), s@.len() as int);
            proof {
                lemma_first_delim_at(rest, piece@.len() as int);
                assert(rest.subrange(0, piece@.len() as int) =~= piece@);
                assert(rest.subrange(piece@.len() + 1int, rest.len() as int)
                    =~= s@.subrange(i + 1, s@.len() as int));
            }
            let ghost pieces0 = pieces.deep_view();
            let ghost pv = piece@;
            pieces.push(piece);
            proof {
                assert(pieces.deep_view() =~~= pieces0.push(pv));
                assert(pieces0 + (seq![pv] + spec_split(s@.subrange(i + 1, s@.len() as int)))
                    =~= pieces0.push(pv) + spec_split(s@.subrange(i + 1, s@.len() as int)));
            }
            piece = Vec::new();
            proof {
                assert(piece@ =~= s@.subrange(i + 1 - 0, i + 1int));
            }
        } else {
            piece.push(c);
            proof {
                assert(piece@ =~= s@.subrange(i + 1 - piece@.len(), i + 1int));
            }
        }
        i += 1;
    }
    let ghost rest = s@.subrange(i - piece@.len(), s@.len() as int);
    proof {
        lemma_first_delim_at(rest, piece@.len() as int);
        assert(rest =~= piece@);
    }
    let ghost pieces0 = pieces.deep_view();
    let ghost pv = piece@;
    pieces.push(piece);
    proof {
        assert(pieces.deep_view() =~~= pieces0.push(pv));
        assert(pieces0 + seq![pv] =~= pieces0.push(pv));
    }
    pieces
}

/// Trims whitespace from both ends of a piece.
fn trim_piece(p: &Vec<char>) -> (r: Vec<char>)
    ensures
        r@ == spec_trim(p@),
{
    let mut lo: usize = 0;
    loop
        invariant
            lo <= p@.len(),
            forall|q: int| 0 <= q < lo ==> spec_is_ws(p@[q]),
        ensures
            lo <= p@.len(),
            forall|q: int| 0 <= q < lo ==> spec_is_ws(p@[q]),
            lo == p@.len() || !spec_is_ws(p@[lo as int]),
        decreases p@.len() - lo,
    {
        if lo >= p.len() {
            break;
        }
        let c = p[lo];
        if !(c == ' ' || c == '\t' || c == '\n' || c == '\r') {
            break;
        }
        lo += 1;
    }
    let mut hi: usize = p.len();
    loop
        invariant
            lo <= hi <= p@.len(),
            forall|q: int| hi <= q < p@.len() ==> spec_is_ws(p@[q]),
        ensures
            lo <= hi <= p@.len(),
            forall|q: int| hi <= q < p@.len() ==> spec_is_ws(p@[q]),
            hi == lo || !spec_is_ws(p@[hi - 1]),
        decreases hi,
    {
        if hi <= lo {
            break;
        }
        let c = p[hi - 1];
        if !(c == ' ' || c == '\t' || c == '\n' || c == '\r') {
            break;
        }
        hi -= 1;
    }
    let mut r: Vec<char> = Vec::new();
    let mut k: usize = lo;
    while k < hi
        invariant
            lo <= k <= hi <= p@.len(),
            r@ == p@.subrange(lo as int, k as int),
        decreases hi - k,
    {
        r.push(p[k]);
        proof {
            assert(p@.subrange(lo as int, k + 1int)
                =~= p@.subrange(lo as int, k as int).push(p@[k as int]));
        }
        k += 1;
    }
    proof {
        lemma_trim_front_at(p@, lo as int);
        let f = p@.subrange(lo as int, p@.len() as int);
        if hi == lo {
            lemma_trim_back_at(f, 0);
        } else {
            lemma_trim_back_at(f, hi - lo);
        }
        assert(f.subrange(0, hi - lo) =~= p@.subrange(lo as int, hi as int));
    }
    r
}

/// Decodes one socket message into its logical frames, in order. `None`
/// when any piece is not valid JSON.
pub fn decode_frames(s: &str) -> (r: Option<Vec<JsonValue>>)
    ensures
        (r is Some) == (spec_decode(s@) is Some),
        r matches Some(vs) ==> spec_decode(s@) == Some(vs.deep_view()),
{
    let chars = crate::text::chars_of_str(s);
    let pieces = split_pieces(&chars);
    let ghost all = pieces.deep_view();
    let mut out: Vec<JsonValue> = Vec::new();
    let mut idx: usize = 0;
    proof {
        assert(all.skip(0) =~= all);
        assert(out.deep_view() =~= Seq::<JVal>::empty());
        match spec_parse_pieces(all) {
            Some(rest) => {
                assert(out.deep_view() + rest =~= rest);
            },
            None => {},
        }
    }
    while idx < pieces.len()
        invariant
            idx <= pieces.len(),
            all == pieces.deep_view(),
            all.len() == pieces.len(),
            spec_decode(s@) == spec_parse_pieces(all),
            forall|k: int| 0 <= k < pieces.len() ==> all[k] == pieces[k].deep_view(),
            spec_parse_pieces(all.skip(idx as int)) matches Some(rest) ==>
                spec_parse_pieces(all) == Some(out.deep_view() + rest),
            (spec_parse_pieces(all.skip(idx as int)) is None) ==>
                (spec_parse_pieces(all) is None),
        decreases pieces.len() - idx,
    {
        let trimmed = trim_piece(&pieces[idx]);
        proof {
            assert(all.skip(idx as int)[0] == pieces[idx as int]@);
            assert(all.skip(idx as int).drop_first() =~= all.skip(idx + 1));
        }
        if trimmed.len() == 0 {
            proof {
                assert(spec_trim(all.skip(idx as int)[0]).len() == 0);
            }
        } else {
            match crate::json::parse_json_chars(&trimmed) {
                Some(v) => {
                    let ghost out0 = out.deep_view();
                    out.push(v);
                    proof {
                        assert(out.deep_view() =~= out0.push(v@));
                        match spec_parse_pieces(all.skip(idx + 1)) {
                            Some(rest) => {
                                assert(out0.push(v@) + rest =~= out0 + (seq![v@] + rest));
                            },
                            None => {},
                        }
                    }
                },
                None => {
                    return None;
                },
            }
        }
        idx += 1;
    }
    proof {
        assert(all.skip(pieces.len() as int) =~= Seq::<Seq<char>>::empty());
        match spec_parse_pieces(all) {
            Some(total) => {
                assert(out.deep_view() + Seq::<JVal>::empty() =~= out.deep_view());
            },
            None => {},
        }
    }
    Some(out)
}

} // verus!
