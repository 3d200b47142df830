//! The engine's laws: what holds of the header store, and that parsing
//! inverts construction for messages without chunked payload.
use vstd::prelude::*;
use crate::bytes::{spec_lower, spec_find, lemma_find_props, lemma_find_unique, spec_parse_dec, spec_dec_of, lemma_dec_round_trip, lemma_dec_of_digits, spec_all_digits};
use crate::tokens::{Method, Version, Status, ParsingError, ToHeader};
use crate::wire::{HeaderPair, spec_crlf, spec_read_line, spec_split_headline, spec_construct_headline, spec_parse_header_line, spec_construct_header, spec_trim_start, spec_find_name, lemma_find_name_props, lemma_find_name_unique, spec_store_add, spec_store_get, spec_store_wf};

verus! {

/// What adding does to lookups: the added header is found under its
/// lower-cased name, every other key sees the store unchanged.
pub proof fn lemma_store_add_get(hs: Seq<HeaderPair>, h: HeaderPair, k: Seq<u8>)
    requires
        spec_store_wf(hs),
    ensures
        spec_store_get(spec_store_add(hs, h), k) == (if k == spec_lower(h.0) {
            Some(h.1)
        } else {
            spec_store_get(hs, k)
        }),
{
    let l = spec_lower(h.0);
    let i = spec_find_name(hs, l, 0);
    lemma_find_name_props(hs, l, 0);
    let hs2 = spec_store_add(hs, h);
    if 0 <= i < hs.len() {
        assert(hs2 =~= hs.update(i, h));
        if k == l {
            lemma_find_name_unique(hs2, k, i);
        } else {
            let j = spec_find_name(hs, k, 0);
            lemma_find_name_props(hs, k, 0);
            if 0 <= j < hs.len() {
                assert(j != i);
                assert forall|m: int| 0 <= m < j implies spec_lower(hs2[m].0) != k by {
                    if m == i {
                        assert(spec_lower(hs2[m].0) == l);
                    }
                }
                lemma_find_name_unique(hs2, k, j);
            } else {
                lemma_find_name_props(hs2, k, 0);
                let f = spec_find_name(hs2, k, 0);
                if f != -1 {
                    assert(spec_lower(hs2[f].0) == k);
                    if f == i {
                        assert(spec_lower(hs2[f].0) == l);
                    } else {
                        assert(hs2[f] == hs[f]);
                    }
                }
            }
        }
    } else {
        assert(hs2 =~= hs.push(h));
        if k == l {
            assert forall|m: int| 0 <= m < hs.len() implies spec_lower(hs2[m].0) != k by {
                assert(hs2[m] == hs[m]);
            }
            lemma_find_name_unique(hs2, k, hs.len() as int);
        } else {
            let j = spec_find_name(hs, k, 0);
            lemma_find_name_props(hs, k, 0);
            if 0 <= j < hs.len() {
                assert forall|m: int| 0 <= m < j implies spec_lower(hs2[m].0) != k by {
                    assert(hs2[m] == hs[m]);
                }
                lemma_find_name_unique(hs2, k, j);
            } else {
                lemma_find_name_props(hs2, k, 0);
                let f = spec_find_name(hs2, k, 0);
                if f != -1 {
                    assert(spec_lower(hs2[f].0) == k);
                    if f < hs.len() {
                        assert(hs2[f] == hs[f]);
                    } else {
                        assert(hs2[f] == h);
                    }
                }
            }
        }
    }
}

/// Adding keeps the store well-formed.
pub proof fn lemma_store_add_wf(hs: Seq<HeaderPair>, h: HeaderPair)
    requires
        spec_store_wf(hs),
    ensures
        spec_store_wf(spec_store_add(hs, h)),
{
    let l = spec_lower(h.0);
    let i = spec_find_name(hs, l, 0);
    lemma_find_name_props(hs, l, 0);
    let hs2 = spec_store_add(hs, h);
    if 0 <= i < hs.len() {
        assert(hs2 =~= hs.update(i, h));
        assert forall|a: int, b: int| 0 <= a < b < hs2.len() implies spec_lower(hs2[a].0)
            != spec_lower(hs2[b].0) by {
            assert(spec_lower(hs[i].0) == l);
            if a != i && b != i {
                assert(hs2[a] == hs[a] && hs2[b] == hs[b]);
            } else if a == i {
                assert(hs2[b] == hs[b]);
            } else {
                assert(hs2[a] == hs[a]);
            }
        }
    } else {
        assert(hs2 =~= hs.push(h));
        assert forall|a: int, b: int| 0 <= a < b < hs2.len() implies spec_lower(hs2[a].0)
            != spec_lower(hs2[b].0) by {
            if b < hs.len() {
                assert(hs2[a] == hs[a] && hs2[b] == hs[b]);
            } else {
                assert(hs2[a] == hs[a] && hs2[b] == h);
            }
        }
    }
}

/// Header lookup is case-insensitive: whatever the spelling a header
/// was stored under, its value is retrievable under the lower-cased
/// name.
pub proof fn lemma_header_lookup_case_insensitive(hs: Seq<HeaderPair>, h: HeaderPair)
    requires
        spec_store_wf(hs),
    ensures
        spec_store_get(spec_store_add(hs, h), spec_lower(h.0)) == Some(h.1),
{
    lemma_store_add_get(hs, h, spec_lower(h.0));
}

/// Reading a line finds exactly the terminated content laid down
/// before the rest, as long as the content holds no line feed.
pub proof fn lemma_read_line_at(a: Seq<u8>, content: Seq<u8>, z: Seq<u8>)
    requires
        forall|k: int| 0 <= k < content.len() ==> content[k] != 10,
    ensures
        spec_read_line(a + content + spec_crlf() + z, a.len() as int)
            == Some((content, a.len() + content.len() + 2int)),
{
    let s = a + content + spec_crlf() + z;
    let pos = a.len() as int;
    let j = pos + content.len() + 1;
    assert(s[j] == 10);
    assert forall|k: int| pos <= k < j implies s[k] != 10 by {
        if k < pos + content.len() {
            assert(s[k] == content[k - pos]);
        } else {
            assert(s[k] == 13);
        }
    }
    lemma_find_unique(s, pos, 10, j);
    assert(s.subrange(pos, j - 1) =~= content);
}

/// Splitting a constructed headline gives back its three fields, as
/// long as the first two hold no space and the third is non-empty.
pub proof fn lemma_split_headline_round(a: Seq<u8>, b: Seq<u8>, c: Seq<u8>)
    requires
        forall|k: int| 0 <= k < a.len() ==> a[k] != 32,
        forall|k: int| 0 <= k < b.len() ==> b[k] != 32,
        c.len() > 0,
    ensures
        spec_split_headline(a + seq![32u8] + b + seq![32u8] + c) == Some((a, b, c)),
{
    let s = a + seq![32u8] + b + seq![32u8] + c;
    let i = a.len() as int;
    let j = i + 1 + b.len();
    assert(s[i] == 32);
    assert forall|k: int| 0 <= k < i implies s[k] != 32 by {
        assert(s[k] == a[k]);
    }
    lemma_find_unique(s, 0, 32, i);
    assert(s[j] == 32);
    assert forall|k: int| i + 1 <= k < j implies s[k] != 32 by {
        assert(s[k] == b[k - i - 1]);
    }
    lemma_find_unique(s, i + 1, 32, j);
    assert(s.subrange(0, i) =~= a);
    assert(s.subrange(i + 1, j) =~= b);
    assert(s.subrange(j + 1, s.len() as int) =~= c);
}

/// Trimming drops one leading space.
pub proof fn lemma_trim_of_space(v: Seq<u8>)
    ensures
        spec_trim_start(seq![32u8] + v) == spec_trim_start(v),
{
    let s = seq![32u8] + v;
    assert(s.first() == 32);
    assert(s.drop_first() =~= v);
}

/// Trimming leaves text alone that does not start with whitespace.
pub proof fn lemma_trim_noop(v: Seq<u8>)
    requires
        v.len() == 0 || (v[0] != 32 && v[0] != 9),
    ensures
        spec_trim_start(v) == v,
{
}

/// Parsing a constructed header line gives back the header, as long as
/// the name holds no colon, neither side holds a line feed, and the
/// value does not begin with whitespace.
pub proof fn lemma_header_line_round(h: HeaderPair)
    requires
        forall|k: int| 0 <= k < h.0.len() ==> h.0[k] != 58,
        h.1.len() == 0 || (h.1[0] != 32 && h.1[0] != 9),
    ensures
        spec_parse_header_line(spec_construct_header(h)) == Some(h),
{
    let s = spec_construct_header(h);
    let c = h.0.len() as int;
    assert(s[c] == 58);
    assert forall|k: int| 0 <= k < c implies s[k] != 58 by {
        assert(s[k] == h.0[k]);
    }
    lemma_find_unique(s, 0, 58, c);
    assert(s.len() == h.0.len() + 2 + h.1.len());
    assert(s.subrange(0, c) =~= h.0);
    assert(s.subrange(c + 1, s.len() as int) =~= seq![32u8] + h.1);
    lemma_trim_of_space(h.1);
    lemma_trim_noop(h.1);
}

/// Searching past a prefix is searching the suffix.
pub proof fn lemma_find_shift(pre: Seq<u8>, t: Seq<u8>, j: int, d: u8)
    requires
        0 <= j <= t.len(),
    ensures
        spec_find(pre + t, pre.len() + j, d) == (if spec_find(t, j, d) == -1 {
            -1
        } else {
            pre.len() + spec_find(t, j, d)
        }),
    decreases t.len() - j,
{
    let s = pre + t;
    if j < t.len() {
        assert(s[pre.len() + j] == t[j]);
        if t[j] != d {
            lemma_find_shift(pre, t, j + 1, d);
        }
    }
}

/// Splitting past a prefix is splitting the suffix.
pub proof fn lemma_split_from_shift(pre: Seq<u8>, t: Seq<u8>, j: int, d: u8)
    requires
        0 <= j <= t.len(),
    ensures
        crate::bytes::spec_split_from(pre + t, pre.len() + j, d) == crate::bytes::spec_split_from(t, j, d),
    decreases t.len() - j,
{
    let s = pre + t;
    lemma_find_shift(pre, t, j, d);
    lemma_find_props(t, j, d);
    let i = spec_find(t, j, d);
    if i == -1 || i < j || i >= t.len() {
        assert(s.subrange(pre.len() + j, s.len() as int) =~= t.subrange(j, t.len() as int));
    } else {
        assert(s.subrange(pre.len() + j, pre.len() + i) =~= t.subrange(j, i));
        lemma_split_from_shift(pre, t, i + 1, d);
    }
}

/// Splitting text led by a delimiter-free piece peels that piece off.
pub proof fn lemma_split_cons(piece: Seq<u8>, rest: Seq<u8>, d: u8)
    requires
        forall|k: int| 0 <= k < piece.len() ==> piece[k] != d,
    ensures
        crate::bytes::spec_split(piece + seq![d] + rest, d) == seq![piece] + crate::bytes::spec_split(rest, d),
{
    let s = piece + seq![d] + rest;
    let i = piece.len() as int;
    assert(s[i] == d);
    assert forall|k: int| 0 <= k < i implies s[k] != d by {
        assert(s[k] == piece[k]);
    }
    lemma_find_unique(s, 0, d, i);
    assert(s.subrange(0, i) =~= piece);
    assert(s =~= (piece + seq![d]) + rest);
    lemma_split_from_shift(piece + seq![d], rest, 0, d);
}

/// Splitting delimiter-free text yields that one piece.
pub proof fn lemma_split_single(piece: Seq<u8>, d: u8)
    requires
        forall|k: int| 0 <= k < piece.len() ==> piece[k] != d,
    ensures
        crate::bytes::spec_split(piece, d) == seq![piece],
{
    lemma_find_props(piece, 0, d);
    let i = spec_find(piece, 0, d);
    if i != -1 {
        assert(piece[i] != d);
    }
    assert(piece.subrange(0, piece.len() as int) =~= piece);
}

/// A parameter fit for query text: no separator bytes, no space, no
/// line feed in its name or value.
pub open spec fn spec_param_ok(p: crate::uri::ParamPair) -> bool {
    &&& (forall|k: int| 0 <= k < p.0.len() ==> p.0[k] != 38 && p.0[k] != 61 && p.0[k] != 32 && p.0[k] != 10)
    &&& match p.1 {
        Some(v) => forall|k: int| 0 <= k < v.len() ==> v[k] != 38 && v[k] != 61 && v[k] != 32 && v[k] != 10,
        None => true,
    }
}

/// Every parameter of the list is fit for query text.
pub open spec fn spec_params_ok(ps: Seq<crate::uri::ParamPair>) -> bool {
    forall|i: int| 0 <= i < ps.len() ==> spec_param_ok(#[trigger] ps[i])
}

/// A fit parameter's text holds no query separator, space or line
/// feed.
pub proof fn lemma_param_chars(p: crate::uri::ParamPair)
    requires
        spec_param_ok(p),
    ensures
        forall|k: int| 0 <= k < crate::uri::spec_construct_parameter(p).len()
            ==> crate::uri::spec_construct_parameter(p)[k] != 38
                && crate::uri::spec_construct_parameter(p)[k] != 32
                && crate::uri::spec_construct_parameter(p)[k] != 10,
{
    let s = crate::uri::spec_construct_parameter(p);
    match p.1 {
        Some(v) => {
            assert forall|k: int| 0 <= k < s.len() implies s[k] != 38 && s[k] != 32 && s[k] != 10 by {
                if k < p.0.len() {
                    assert(s[k] == p.0[k]);
                } else if k == p.0.len() {
                    assert(s[k] == 61);
                } else {
                    assert(s[k] == v[k - p.0.len() - 1]);
                }
            }
        },
        None => {},
    }
}

/// Parsing a constructed parameter gives it back.
pub proof fn lemma_param_round(p: crate::uri::ParamPair)
    requires
        spec_param_ok(p),
    ensures
        crate::uri::spec_parse_parameter(crate::uri::spec_construct_parameter(p)) == Some(p),
{
    let s = crate::uri::spec_construct_parameter(p);
    match p.1 {
        Some(v) => {
            lemma_split_cons(p.0, v, 61);
            lemma_split_single(v, 61);
            assert(crate::bytes::spec_split(s, 61) =~= seq![p.0, v]);
        },
        None => {
            lemma_split_single(p.0, 61);
        },
    }
}

/// Joined parameters read head-first: the first parameter's text, the
/// delimiter, then the rest joined.
pub proof fn lemma_join_params_cons(ps: Seq<crate::uri::ParamPair>)
    requires
        ps.len() >= 2,
    ensures
        crate::uri::spec_join_params(ps) == crate::uri::spec_construct_parameter(ps.first())
            + seq![38u8] + crate::uri::spec_join_params(ps.drop_first()),
    decreases ps.len(),
{
    if ps.len() == 2 {
        assert(ps.drop_last() =~= seq![ps.first()]);
        assert(ps.drop_first() =~= seq![ps.last()]);
        assert(crate::uri::spec_join_params(seq![ps.first()]) == crate::uri::spec_construct_parameter(ps.first()));
        assert(crate::uri::spec_join_params(seq![ps.last()]) == crate::uri::spec_construct_parameter(ps.last()));
    } else {
        lemma_join_params_cons(ps.drop_last());
        assert(ps.drop_last().first() == ps.first());
        assert(ps.drop_last().drop_first() =~= ps.drop_first().drop_last());
        assert(ps.drop_first().last() == ps.last());
        assert(ps.drop_first().len() >= 2);
        assert(crate::uri::spec_join_params(ps.drop_first())
            == crate::uri::spec_join_params(ps.drop_first().drop_last()) + seq![38u8]
                + crate::uri::spec_construct_parameter(ps.last()));
        assert(crate::uri::spec_join_params(ps)
            =~= crate::uri::spec_construct_parameter(ps.first()) + seq![38u8]
                + crate::uri::spec_join_params(ps.drop_first()));
    }
}

/// Joined parameters hold no `&` outside the separators themselves,
/// and never a space or line feed.
pub proof fn lemma_join_params_chars(ps: Seq<crate::uri::ParamPair>)
    requires
        spec_params_ok(ps),
    ensures
        forall|k: int| 0 <= k < crate::uri::spec_join_params(ps).len()
            ==> crate::uri::spec_join_params(ps)[k] != 32 && crate::uri::spec_join_params(ps)[k] != 10,
    decreases ps.len(),
{
    if ps.len() == 1 {
        lemma_param_chars(ps.last());
    } else if ps.len() >= 2 {
        assert(spec_params_ok(ps.drop_last()));
        lemma_join_params_chars(ps.drop_last());
        lemma_param_chars(ps.last());
        let j = crate::uri::spec_join_params(ps);
        let a = crate::uri::spec_join_params(ps.drop_last());
        let c = crate::uri::spec_construct_parameter(ps.last());
        assert forall|k: int| 0 <= k < j.len() implies j[k] != 32 && j[k] != 10 by {
            if k < a.len() {
                assert(j[k] == a[k]);
            } else if k == a.len() {
                assert(j[k] == 38);
            } else {
                assert(j[k] == c[k - a.len() - 1]);
            }
        }
    }
}

/// Parsing a joined non-empty parameter list gives it back.
pub proof fn lemma_query_round(ps: Seq<crate::uri::ParamPair>)
    requires
        spec_params_ok(ps),
        ps.len() >= 1,
    ensures
        crate::uri::spec_parse_query(crate::uri::spec_join_params(ps)) == ps,
    decreases ps.len(),
{
    if ps.len() == 1 {
        assert(crate::uri::spec_join_params(ps) == crate::uri::spec_construct_parameter(ps.last()));
        lemma_param_chars(ps.last());
        assert forall|k: int| 0 <= k < crate::uri::spec_construct_parameter(ps.last()).len()
            implies crate::uri::spec_construct_parameter(ps.last())[k] != 38 by {}
        lemma_split_single(crate::uri::spec_construct_parameter(ps.last()), 38);
        lemma_param_round(ps.last());
        assert(ps.first() == ps.last());
        let parts = crate::bytes::spec_split(crate::uri::spec_join_params(ps), 38);
        assert(parts =~= seq![crate::uri::spec_construct_parameter(ps.last())]);
        assert(parts.first() == crate::uri::spec_construct_parameter(ps.last()));
        assert(parts.drop_first() =~= Seq::<Seq<u8>>::empty());
        assert(crate::uri::spec_parse_parameters(parts.drop_first()) =~= Seq::<crate::uri::ParamPair>::empty());
        assert(crate::uri::spec_parse_query(crate::uri::spec_join_params(ps)) =~= ps);
    } else {
        lemma_join_params_cons(ps);
        lemma_param_chars(ps.first());
        lemma_split_cons(crate::uri::spec_construct_parameter(ps.first()),
            crate::uri::spec_join_params(ps.drop_first()), 38);
        lemma_param_round(ps.first());
        assert(spec_params_ok(ps.drop_first()));
        lemma_query_round(ps.drop_first());
        let parts = crate::bytes::spec_split(crate::uri::spec_join_params(ps), 38);
        assert(parts.first() == crate::uri::spec_construct_parameter(ps.first()));
        assert(parts.drop_first() =~= crate::bytes::spec_split(
            crate::uri::spec_join_params(ps.drop_first()), 38));
        assert(crate::uri::spec_parse_query(crate::uri::spec_join_params(ps)) =~= ps);
    }
}

/// A target fit for a headline: its location holds no space, line feed
/// or question mark, and its parameters are fit for query text.
pub open spec fn spec_target_ok(location: Seq<u8>, ps: Seq<crate::uri::ParamPair>) -> bool {
    &&& (forall|k: int| 0 <= k < location.len() ==> location[k] != 32 && location[k] != 10
        && location[k] != 63)
    &&& spec_params_ok(ps)
}

/// Parsing a constructed target gives back its location and
/// parameters.
pub proof fn lemma_target_round(location: Seq<u8>, ps: Seq<crate::uri::ParamPair>)
    requires
        spec_target_ok(location, ps),
    ensures
        crate::uri::spec_parse_target(crate::uri::spec_construct_target(location, ps))
            == (location, ps),
{
    let t = crate::uri::spec_construct_target(location, ps);
    if ps.len() == 0 {
        lemma_find_props(t, 0, 63);
        let i = spec_find(t, 0, 63);
        if i != -1 {
            assert(t[i] != 63);
        }
    } else {
        let q = location.len() as int;
        assert(t[q] == 63);
        assert forall|k: int| 0 <= k < q implies t[k] != 63 by {
            assert(t[k] == location[k]);
        }
        lemma_find_unique(t, 0, 63, q);
        assert(t.subrange(0, q) =~= location);
        assert(t.subrange(q + 1, t.len() as int) =~= crate::uri::spec_join_params(ps));
        lemma_query_round(ps);
    }
}

/// The constructed target text holds no space or line feed.
pub proof fn lemma_target_chars(location: Seq<u8>, ps: Seq<crate::uri::ParamPair>)
    requires
        spec_target_ok(location, ps),
    ensures
        forall|k: int| 0 <= k < crate::uri::spec_construct_target(location, ps).len()
            ==> crate::uri::spec_construct_target(location, ps)[k] != 32
                && crate::uri::spec_construct_target(location, ps)[k] != 10,
{
    let t = crate::uri::spec_construct_target(location, ps);
    if ps.len() > 0 {
        lemma_join_params_chars(ps);
        let j = crate::uri::spec_join_params(ps);
        assert forall|k: int| 0 <= k < t.len() implies t[k] != 32 && t[k] != 10 by {
            if k < location.len() {
                assert(t[k] == location[k]);
            } else if k == location.len() {
                assert(t[k] == 63);
            } else {
                assert(t[k] == j[k - location.len() - 1]);
            }
        }
    }
}

/// A header fit for the wire: its name holds no colon or line feed,
/// its value no line feed, and the value does not begin with
/// whitespace.
pub open spec fn spec_header_ok(h: HeaderPair) -> bool {
    &&& (forall|k: int| 0 <= k < h.0.len() ==> h.0[k] != 58 && h.0[k] != 10)
    &&& (forall|k: int| 0 <= k < h.1.len() ==> h.1[k] != 10)
    &&& (h.1.len() == 0 || (h.1[0] != 32 && h.1[0] != 9))
}

/// Every header of the store is fit for the wire.
pub open spec fn spec_headers_ok(hs: Seq<HeaderPair>) -> bool {
    forall|i: int| 0 <= i < hs.len() ==> spec_header_ok(#[trigger] hs[i])
}

/// How much header text the store renders to, terminators included.
pub open spec fn spec_headers_text_len(hs: Seq<HeaderPair>) -> int
    decreases hs.len(),
{
    if hs.len() == 0 {
        0
    } else {
        spec_headers_text_len(hs.drop_last()) + hs.last().0.len() + hs.last().1.len() + 4
    }
}

/// Header text length is never negative.
pub proof fn lemma_headers_text_len_nonneg(hs: Seq<HeaderPair>)
    ensures
        spec_headers_text_len(hs) >= 0,
    decreases hs.len(),
{
    if hs.len() > 0 {
        lemma_headers_text_len_nonneg(hs.drop_last());
    }
}

/// The rendered block read head-first: the first header's line, then
/// the rest of the block.
pub proof fn lemma_construct_headers_cons(hs: Seq<HeaderPair>)
    requires
        hs.len() >= 1,
    ensures
        crate::wire::spec_construct_headers(hs) == spec_construct_header(hs.first()) + spec_crlf()
            + crate::wire::spec_construct_headers(hs.drop_first()),
        spec_headers_text_len(hs) == hs.first().0.len() + hs.first().1.len() + 4
            + spec_headers_text_len(hs.drop_first()),
    decreases hs.len(),
{
    if hs.len() == 1 {
        assert(hs.drop_last() =~= Seq::<HeaderPair>::empty());
        assert(hs.drop_first() =~= Seq::<HeaderPair>::empty());
        assert(crate::wire::spec_construct_headers(hs)
            =~= spec_construct_header(hs.first()) + spec_crlf()
                + crate::wire::spec_construct_headers(hs.drop_first()));
    } else {
        lemma_construct_headers_cons(hs.drop_last());
        assert(hs.drop_last().first() == hs.first());
        assert(hs.drop_last().drop_first() =~= hs.drop_first().drop_last());
        assert(hs.drop_first().last() == hs.last());
        assert(crate::wire::spec_construct_headers(hs.drop_first())
            == crate::wire::spec_construct_headers(hs.drop_first().drop_last())
                + spec_construct_header(hs.drop_first().last()) + spec_crlf());
        assert(crate::wire::spec_construct_headers(hs)
            =~= spec_construct_header(hs.first()) + spec_crlf()
                + crate::wire::spec_construct_headers(hs.drop_first()));
    }
}

/// The rendered block is as long as the text-length count says.
pub proof fn lemma_construct_headers_len(hs: Seq<HeaderPair>)
    ensures
        crate::wire::spec_construct_headers(hs).len() == spec_headers_text_len(hs),
    decreases hs.len(),
{
    if hs.len() > 0 {
        lemma_construct_headers_len(hs.drop_last());
    }
}

/// Parsing a rendered header block appends exactly its headers to the
/// store and stops at the blank line, as long as the combined names
/// are distinct, each header is fit for the wire, and the text stays
/// under the cap.
pub proof fn lemma_headers_block(a: Seq<u8>, done: Seq<HeaderPair>, pending: Seq<HeaderPair>, rest: Seq<u8>, tlen: int)
    requires
        spec_store_wf(done + pending),
        spec_headers_ok(pending),
        tlen + spec_headers_text_len(pending) + 2 <= 10000,
    ensures
        crate::wire::spec_parse_headers(a + crate::wire::spec_construct_headers(pending) + spec_crlf() + rest,
            a.len() as int, tlen, done)
            == Ok::<_, ParsingError>((done + pending,
                a.len() + spec_headers_text_len(pending) + 2,
                tlen + spec_headers_text_len(pending) + 2)),
    decreases pending.len(),
{
    let input = a + crate::wire::spec_construct_headers(pending) + spec_crlf() + rest;
    if pending.len() == 0 {
        assert(crate::wire::spec_construct_headers(pending) =~= Seq::<u8>::empty());
        assert(input =~= a + Seq::<u8>::empty() + spec_crlf() + rest);
        lemma_read_line_at(a, Seq::empty(), rest);
        assert(input =~= a + Seq::<u8>::empty() + spec_crlf() + rest);
        assert(spec_read_line(input, a.len() as int) == Some((Seq::<u8>::empty(), a.len() + 2int)));
        assert(done + pending =~= done);
    } else {
        let h = pending.first();
        let t2 = pending.drop_first();
        let row = spec_construct_header(h);
        lemma_construct_headers_cons(pending);
        lemma_headers_text_len_nonneg(t2);
        assert(spec_header_ok(h));
        assert forall|k: int| 0 <= k < row.len() implies row[k] != 10 by {
            if k < h.0.len() {
                assert(row[k] == h.0[k]);
            } else if k == h.0.len() {
                assert(row[k] == 58);
            } else if k == h.0.len() + 1 {
                assert(row[k] == 32);
            } else {
                assert(row[k] == h.1[k - h.0.len() - 2]);
            }
        }
        let tail = crate::wire::spec_construct_headers(t2) + spec_crlf() + rest;
        assert(input =~= a + row + spec_crlf() + tail);
        lemma_read_line_at(a, row, tail);
        assert(spec_read_line(input, a.len() as int) == Some((row, a.len() + row.len() + 2int)));
        let tl2 = tlen + row.len() + 2;
        assert(row.len() == h.0.len() + h.1.len() + 2);
        assert(tl2 + spec_headers_text_len(t2) + 2 == tlen + spec_headers_text_len(pending) + 2);
        assert(tl2 <= 10000 - 2 - spec_headers_text_len(t2));
        assert(!(row.len() == 0 || tl2 > 10000));
        assert forall|k: int| 0 <= k < h.0.len() implies h.0[k] != 58 by {}
        lemma_header_line_round(h);
        assert(spec_parse_header_line(row) == Some(h));
        let l = spec_lower(h.0);
        lemma_find_name_props(done, l, 0);
        let f = spec_find_name(done, l, 0);
        if f != -1 {
            assert(spec_lower(done[f].0) == l);
            assert((done + pending)[f] == done[f]);
            assert((done + pending)[done.len() as int] == h);
            assert(spec_lower((done + pending)[f].0) != spec_lower((done + pending)[done.len() as int].0));
        }
        assert(spec_store_add(done, h) =~= done.push(h));
        assert(done.push(h) + t2 =~= done + pending);
        assert(spec_headers_ok(t2)) by {
            assert forall|i: int| 0 <= i < t2.len() implies spec_header_ok(#[trigger] t2[i]) by {
                assert(t2[i] == pending[i + 1]);
            }
        }
        lemma_headers_block(a + row + spec_crlf(), done.push(h), t2, rest, tl2);
        assert((a + row + spec_crlf()) + crate::wire::spec_construct_headers(t2) + spec_crlf() + rest
            =~= input);
    }
}

/// The headers a message carries once constructed: the store as it
/// stands, with a `Content-Length` header added exactly when the
/// payload is non-empty.
pub open spec fn spec_constructed_headers(hs: Seq<HeaderPair>, pl: Seq<u8>) -> Seq<HeaderPair> {
    if pl.len() > 0 {
        spec_store_add(hs, (crate::message::spec_content_length_name(), spec_dec_of(pl.len() as int)))
    } else {
        hs
    }
}

/// The canonical `Content-Length` spelling lowers to the lookup key.
pub proof fn lemma_content_length_name_lower()
    ensures
        spec_lower(crate::message::spec_content_length_name())
            == crate::message::spec_content_length_key(),
{
    assert(spec_lower(crate::message::spec_content_length_name())
        =~= crate::message::spec_content_length_key());
}

/// The injected `Content-Length` header is fit for the wire.
pub proof fn lemma_content_length_header_ok(pl: Seq<u8>)
    requires
        pl.len() > 0,
    ensures
        spec_header_ok((crate::message::spec_content_length_name(), spec_dec_of(pl.len() as int))),
{
    lemma_dec_of_digits(pl.len() as int);
    let v = spec_dec_of(pl.len() as int);
    assert(spec_all_digits(v));
    assert forall|k: int| 0 <= k < v.len() implies v[k] != 10 by {
        assert(48 <= v[k] <= 57);
    }
    assert(48 <= v[0] <= 57);
}

/// Constructing keeps every header fit for the wire.
pub proof fn lemma_constructed_headers_ok(hs: Seq<HeaderPair>, pl: Seq<u8>)
    requires
        spec_headers_ok(hs),
    ensures
        spec_headers_ok(spec_constructed_headers(hs, pl)),
{
    if pl.len() > 0 {
        let h = (crate::message::spec_content_length_name(), spec_dec_of(pl.len() as int));
        lemma_content_length_header_ok(pl);
        let hs2 = spec_constructed_headers(hs, pl);
        let i = spec_find_name(hs, spec_lower(h.0), 0);
        lemma_find_name_props(hs, spec_lower(h.0), 0);
        if 0 <= i < hs.len() {
            assert(hs2 =~= hs.update(i, h));
            assert forall|m: int| 0 <= m < hs2.len() implies spec_header_ok(#[trigger] hs2[m]) by {
                if m != i {
                    assert(hs2[m] == hs[m]);
                }
            }
        } else {
            assert(hs2 =~= hs.push(h));
            assert forall|m: int| 0 <= m < hs2.len() implies spec_header_ok(#[trigger] hs2[m]) by {
                if m < hs.len() {
                    assert(hs2[m] == hs[m]);
                }
            }
        }
    }
}

/// Parsing a constructed message gives back its headers (with the
/// injected `Content-Length` when the payload is non-empty) and its
/// exact payload bytes, consuming nothing past them.
pub proof fn lemma_message_round_trip(a: Seq<u8>, hs: Seq<HeaderPair>, pl: Seq<u8>, z: Seq<u8>, tlen: int)
    requires
        spec_store_wf(hs),
        spec_headers_ok(hs),
        spec_store_get(hs, crate::tokens::Encoding::spec_normalized()) is None,
        pl.len() == 0 ==> spec_store_get(hs, crate::message::spec_content_length_key()) is None
            && !crate::message::spec_has_chunked(hs),
        pl.len() <= usize::MAX,
        tlen + spec_headers_text_len(spec_constructed_headers(hs, pl)) + 2 <= 10000,
    ensures
        ({
            let hs2 = spec_constructed_headers(hs, pl);
            let hb = crate::wire::spec_construct_headers(hs2);
            let input = a + hb + spec_crlf() + pl + z;
            let hend = a.len() + hb.len() + 2;
            crate::message::spec_parse_message(input, a.len() as int, tlen)
                == Ok::<_, ParsingError>((hs2, crate::message::PayloadModel::Identity(pl),
                    hend as int, hend + pl.len() as int))
        }),
{
    let clh = (crate::message::spec_content_length_name(), spec_dec_of(pl.len() as int));
    let hs2 = spec_constructed_headers(hs, pl);
    let hb = crate::wire::spec_construct_headers(hs2);
    let input = a + hb + spec_crlf() + pl + z;
    let hend = a.len() + hb.len() + 2;
    if pl.len() > 0 {
        lemma_store_add_wf(hs, clh);
    }
    lemma_constructed_headers_ok(hs, pl);
    assert(Seq::<HeaderPair>::empty() + hs2 =~= hs2);
    lemma_headers_block(a, Seq::empty(), hs2, pl + z, tlen);
    assert(a + crate::wire::spec_construct_headers(hs2) + spec_crlf() + (pl + z) =~= input);
    lemma_construct_headers_len(hs2);
    assert(crate::wire::spec_parse_headers(input, a.len() as int, tlen, Seq::empty())
        == Ok::<_, ParsingError>((hs2, hend as int, tlen + hb.len() + 2)));
    lemma_content_length_name_lower();
    assert(crate::message::spec_content_length_key().len() == 14);
    assert(crate::tokens::Encoding::spec_normalized().len() == 16);
    if pl.len() > 0 {
        lemma_store_add_get(hs, clh, crate::message::spec_content_length_key());
        assert(spec_store_get(hs2, crate::message::spec_content_length_key())
            == Some(spec_dec_of(pl.len() as int)));
        lemma_dec_round_trip(pl.len() as usize);
        assert(spec_parse_dec(spec_dec_of(pl.len() as int)) == Some(pl.len() as int));
        assert(hend + pl.len() <= input.len());
        assert(input.subrange(hend as int, hend + pl.len() as int) =~= pl);
        assert(crate::wire::spec_read_exact(input, hend as int, pl.len() as int)
            == Some((pl, hend + pl.len() as int)));
        lemma_store_add_get(hs, clh, crate::tokens::Encoding::spec_normalized());
        assert(spec_store_get(hs2, crate::tokens::Encoding::spec_normalized())
            == spec_store_get(hs, crate::tokens::Encoding::spec_normalized()));
    } else {
        assert(hs2 == hs);
        assert(pl =~= Seq::<u8>::empty());
    }
}

/// The method tokens hold neither space nor line feed.
pub proof fn lemma_method_token_chars(m: Method)
    ensures
        forall|k: int| 0 <= k < m.spec_token().len() ==> m.spec_token()[k] != 32
            && m.spec_token()[k] != 10,
{
}

/// The version tokens hold neither space nor line feed.
pub proof fn lemma_version_token_chars(v: Version)
    ensures
        forall|k: int| 0 <= k < v.spec_token().len() ==> v.spec_token()[k] != 32
            && v.spec_token()[k] != 10,
{
}

/// The status codes hold neither space nor line feed; the reason
/// phrases are non-empty and hold no line feed.
pub proof fn lemma_status_token_chars(s: Status)
    ensures
        forall|k: int| 0 <= k < s.spec_code().len() ==> s.spec_code()[k] != 32
            && s.spec_code()[k] != 10,
        s.spec_reason().len() > 0,
        forall|k: int| 0 <= k < s.spec_reason().len() ==> s.spec_reason()[k] != 10,
{
}

/// Round trip: parsing a constructed request yields the same method,
/// target, version, header set (with the injected `Content-Length`
/// when the payload is non-empty) and payload, and consumes exactly
/// the constructed bytes, whatever follows them.
pub proof fn lemma_request_round_trip(m: Method, location: Seq<u8>, ps: Seq<crate::uri::ParamPair>, v: Version, hs: Seq<HeaderPair>, pl: Seq<u8>, z: Seq<u8>)
    requires
        spec_store_wf(hs),
        spec_headers_ok(hs),
        spec_target_ok(location, ps),
        spec_store_get(hs, crate::tokens::Encoding::spec_normalized()) is None,
        pl.len() == 0 ==> spec_store_get(hs, crate::message::spec_content_length_key()) is None
            && !crate::message::spec_has_chunked(hs),
        pl.len() <= usize::MAX,
        spec_construct_headline(m.spec_token(), crate::uri::spec_construct_target(location, ps),
            v.spec_token()).len()
            + spec_headers_text_len(spec_constructed_headers(hs, pl)) + 2 <= 10000,
    ensures
        ({
            let hs2 = spec_constructed_headers(hs, pl);
            let head = spec_construct_headline(m.spec_token(),
                crate::uri::spec_construct_target(location, ps), v.spec_token());
            let hb = crate::wire::spec_construct_headers(hs2);
            let input = head + hb + spec_crlf() + pl + z;
            let hend = head.len() + hb.len() + 2;
            crate::message::spec_parse_request(input, 0) == Ok::<_, ParsingError>(
                crate::message::RequestModel {
                    method: m,
                    location: location,
                    parameters: ps,
                    version: v,
                    headers: hs2,
                    payload: crate::message::PayloadModel::Identity(pl),
                    text: input.subrange(0, hend as int),
                    end: hend + pl.len() as int,
                })
        }),
{
    let tt = crate::uri::spec_construct_target(location, ps);
    let hs2 = spec_constructed_headers(hs, pl);
    let head = spec_construct_headline(m.spec_token(), tt, v.spec_token());
    let hb = crate::wire::spec_construct_headers(hs2);
    let input = head + hb + spec_crlf() + pl + z;
    let hend = head.len() + hb.len() + 2;
    let content = m.spec_token() + seq![32u8] + tt + seq![32u8] + v.spec_token();
    lemma_method_token_chars(m);
    lemma_version_token_chars(v);
    lemma_target_chars(location, ps);
    assert forall|k: int| 0 <= k < content.len() implies content[k] != 10 by {
        if k < m.spec_token().len() {
            assert(content[k] == m.spec_token()[k]);
        } else if k == m.spec_token().len() {
            assert(content[k] == 32);
        } else if k < m.spec_token().len() + 1 + tt.len() {
            assert(content[k] == tt[k - m.spec_token().len() - 1]);
        } else if k == m.spec_token().len() + 1 + tt.len() {
            assert(content[k] == 32);
        } else {
            assert(content[k] == v.spec_token()[k - m.spec_token().len() - tt.len() - 2]);
        }
    }
    assert(head =~= content + spec_crlf());
    assert(input =~= Seq::<u8>::empty() + content + spec_crlf() + (hb + spec_crlf() + pl + z));
    lemma_read_line_at(Seq::empty(), content, hb + spec_crlf() + pl + z);
    assert(spec_read_line(input, 0) == Some((content, content.len() + 2int)));
    assert(v.spec_token().len() > 0);
    lemma_split_headline_round(m.spec_token(), tt, v.spec_token());
    crate::tokens::lemma_method_round_trip(m);
    crate::tokens::lemma_version_round_trip(v);
    lemma_target_round(location, ps);
    let p1 = content.len() + 2;
    assert(p1 == head.len());
    lemma_message_round_trip(head, hs, pl, z, p1 as int);
    assert(head + hb + spec_crlf() + pl + z =~= input);
    assert(crate::message::spec_parse_message(input, p1 as int, p1 as int)
        == Ok::<_, ParsingError>((hs2, crate::message::PayloadModel::Identity(pl),
            hend as int, hend + pl.len() as int)));
}

/// Round trip: parsing a constructed response yields the same version,
/// status, header set (with the injected `Content-Length` when the
/// payload is non-empty) and payload, and consumes exactly the
/// constructed bytes, whatever follows them.
pub proof fn lemma_response_round_trip(v: Version, st: Status, hs: Seq<HeaderPair>, pl: Seq<u8>, z: Seq<u8>)
    requires
        spec_store_wf(hs),
        spec_headers_ok(hs),
        spec_store_get(hs, crate::tokens::Encoding::spec_normalized()) is None,
        pl.len() == 0 ==> spec_store_get(hs, crate::message::spec_content_length_key()) is None
            && !crate::message::spec_has_chunked(hs),
        pl.len() <= usize::MAX,
        spec_construct_headline(v.spec_token(), st.spec_code(), st.spec_reason()).len()
            + spec_headers_text_len(spec_constructed_headers(hs, pl)) + 2 <= 10000,
    ensures
        ({
            let hs2 = spec_constructed_headers(hs, pl);
            let head = spec_construct_headline(v.spec_token(), st.spec_code(), st.spec_reason());
            let hb = crate::wire::spec_construct_headers(hs2);
            let input = head + hb + spec_crlf() + pl + z;
            let hend = head.len() + hb.len() + 2;
            crate::message::spec_parse_response(input, 0) == Ok::<_, ParsingError>(
                crate::message::ResponseModel {
                    version: v,
                    status: st,
                    headers: hs2,
                    payload: crate::message::PayloadModel::Identity(pl),
                    text: input.subrange(0, hend as int),
                    end: hend + pl.len() as int,
                })
        }),
{
    let hs2 = spec_constructed_headers(hs, pl);
    let head = spec_construct_headline(v.spec_token(), st.spec_code(), st.spec_reason());
    let hb = crate::wire::spec_construct_headers(hs2);
    let input = head + hb + spec_crlf() + pl + z;
    let hend = head.len() + hb.len() + 2;
    let content = v.spec_token() + seq![32u8] + st.spec_code() + seq![32u8] + st.spec_reason();
    lemma_version_token_chars(v);
    lemma_status_token_chars(st);
    assert forall|k: int| 0 <= k < content.len() implies content[k] != 10 by {
        if k < v.spec_token().len() {
            assert(content[k] == v.spec_token()[k]);
        } else if k == v.spec_token().len() {
            assert(content[k] == 32);
        } else if k < v.spec_token().len() + 1 + st.spec_code().len() {
            assert(content[k] == st.spec_code()[k - v.spec_token().len() - 1]);
        } else if k == v.spec_token().len() + 1 + st.spec_code().len() {
            assert(content[k] == 32);
        } else {
            assert(content[k] == st.spec_reason()[k - v.spec_token().len() - st.spec_code().len() - 2]);
        }
    }
    assert(head =~= content + spec_crlf());
    assert(input =~= Seq::<u8>::empty() + content + spec_crlf() + (hb + spec_crlf() + pl + z));
    lemma_read_line_at(Seq::empty(), content, hb + spec_crlf() + pl + z);
    assert(spec_read_line(input, 0) == Some((content, content.len() + 2int)));
    lemma_split_headline_round(v.spec_token(), st.spec_code(), st.spec_reason());
    crate::tokens::lemma_version_round_trip(v);
    crate::tokens::lemma_status_round_trip(st);
    let p1 = content.len() + 2;
    assert(p1 == head.len());
    lemma_message_round_trip(head, hs, pl, z, p1 as int);
    assert(head + hb + spec_crlf() + pl + z =~= input);
    assert(crate::message::spec_parse_message(input, p1 as int, p1 as int)
        == Ok::<_, ParsingError>((hs2, crate::message::PayloadModel::Identity(pl),
            hend as int, hend + pl.len() as int)));
}

/// Content-length framing is exact: when a message parses under a
/// `content-length` of `n`, its body ends exactly `n` bytes past the
/// headers, and what lies beyond stays unconsumed.
pub proof fn lemma_content_length_reads_exactly(input: Seq<u8>, pos: int, tlen: int, n: int)
    requires
        crate::message::spec_parse_message(input, pos, tlen) is Ok,
        ({
            let hs = crate::message::spec_parse_message(input, pos, tlen).unwrap().0;
            &&& spec_store_get(hs, crate::message::spec_content_length_key()) is Some
            &&& spec_parse_dec(spec_store_get(hs, crate::message::spec_content_length_key()).unwrap())
                == Some(n)
        }),
    ensures
        ({
            let r = crate::message::spec_parse_message(input, pos, tlen).unwrap();
            r.3 == r.2 + n
        }),
{
}

} // verus!
