//! Query strings: ordered keys with one or several values each.
use vstd::prelude::*;
use crate::form::texts_view;
use crate::outside::{form_text, pairs_view, serialize_form_pairs};
use crate::media::{position, position_of};
use vstd::string::StringExecFns;
use vstd::utf8::{decode_utf8, encode_utf8};

verus! {

/// One key of a query string with its value, or with several values that
/// each make a pair of their own.
#[derive(Debug)]
pub enum HttpQueryStringItem {
    Value(String, String),
    Array(String, Vec<String>),
}

/// A query string.
#[derive(Debug)]
pub struct HttpQueryString {
    pub fields: Vec<HttpQueryStringItem>,
}

/// The key and value pairs of the first `n` items, in order.
pub open spec fn query_pairs(items: Seq<HttpQueryStringItem>, n: nat) -> Seq<(Seq<char>, Seq<char>)>
    decreases n,
{
    if n == 0 || n > items.len() {
        seq![]
    } else {
        query_pairs(items, (n - 1) as nat) + match items[n - 1] {
            HttpQueryStringItem::Value(k, v) => seq![(k@, v@)],
            HttpQueryStringItem::Array(k, vs) => texts_view(vs@).map_values(|v: Seq<char>| (k@, v)),
        }
    }
}

impl HttpQueryString {
    /// A query string of the given items.
    pub fn new(fields: Vec<HttpQueryStringItem>) -> (r: HttpQueryString)
        ensures
            r.fields@ == fields@,
    {
        HttpQueryString { fields }
    }

    /// The query string in URL-encoded form: every pair percent-encoded,
    /// joined by `&`.
    pub fn to_string(&self) -> (r: String)
        ensures
            r@ == form_text(query_pairs(self.fields@, self.fields@.len())),
    {
        let mut pairs: Vec<(String, String)> = Vec::new();
        let mut i: usize = 0;
        assert(pairs_view(pairs@) =~= seq![]);
        while i < self.fields.len()
            invariant
                i <= self.fields@.len(),
                pairs_view(pairs@) == query_pairs(self.fields@, i as nat),
            decreases self.fields.len() - i,
        {
            let ghost before = pairs_view(pairs@);
            match &self.fields[i] {
                HttpQueryStringItem::Value(k, v) => {
                    let ghost o = pairs@;
                    let p = (k.clone(), v.clone());
                    pairs.push(p);
                    assert(pairs_view(pairs@) =~= pairs_view(o).push((p.0@, p.1@)));
                },
                HttpQueryStringItem::Array(k, vs) => {
                    let ghost tv = texts_view(vs@);
                    let mut j: usize = 0;
                    assert(tv.take(0).map_values(|v: Seq<char>| (k@, v)) =~= seq![]);
                    while j < vs.len()
                        invariant
                            j <= vs@.len(),
                            tv == texts_view(vs@),
                            pairs_view(pairs@) == before + tv.take(j as int).map_values(
                                |v: Seq<char>| (k@, v),
                            ),
                        decreases vs.len() - j,
                    {
                        let ghost o = pairs@;
                        let p = (k.clone(), vs[j].clone());
                        pairs.push(p);
                        assert(pairs_view(pairs@) =~= pairs_view(o).push((p.0@, p.1@)));
                        assert(tv.take(j + 1).map_values(|v: Seq<char>| (k@, v)) =~= tv.take(
                            j as int,
                        ).map_values(|v: Seq<char>| (k@, v)).push((k@, vs@[j as int]@)));
                        j = j + 1;
                    }
                    assert(tv.take(j as int) =~= tv);
                },
            }
            assert(pairs_view(pairs@) =~= query_pairs(self.fields@, (i + 1) as nat));
            i = i + 1;
        }
        serialize_form_pairs(&pairs)
    }
}


/// The bytes of `b` before the first `c`, or all of them.
pub open spec fn before_byte(b: Seq<u8>, c: u8) -> Seq<u8> {
    b.take(position_of(b, c, 0) as int)
}

/// A path without its fragment and its query: cut at the first `#`, then
/// at the first `?`.
pub open spec fn bare_path(path: Seq<char>) -> Seq<char> {
    decode_utf8(before_byte(before_byte(encode_utf8(path), 35), 63))
}

/// A path with the given query string in place of its own: `?` and the
/// query follow the bare path where the query is not empty.
pub open spec fn path_and_query(path: Seq<char>, query: Seq<char>) -> Seq<char> {
    if query.len() == 0 {
        bare_path(path)
    } else {
        bare_path(path) + "?"@ + query
    }
}

proof fn lemma_position_hit(b: Seq<u8>, c: u8, i: nat)
    requires
        i <= b.len(),
    ensures
        position_of(b, c, i) < b.len() ==> b[position_of(b, c, i) as int] == c,
    decreases b.len() - i,
{
    if i < b.len() && b[i as int] != c {
        lemma_position_hit(b, c, i + 1);
    }
}

/// The part of `s` before the first byte `c`, or all of `s`.
fn cut_at(s: &str, c: u8) -> (r: &str)
    requires
        c < 128,
    ensures
        encode_utf8(r@) == before_byte(encode_utf8(s@), c),
{
    let b = s.as_bytes();
    let k = position(b, c, 0);
    proof {
        vstd::utf8::encode_utf8_valid_utf8(s@);
        lemma_position_hit(b@, c, 0);
        if k < b@.len() {
            vstd::utf8::is_char_boundary_iff_not_is_continuation_byte(b@, k as int);
        } else {
            vstd::utf8::is_char_boundary_start_end_of_seq(b@);
        }
    }
    let (head, _) = s.split_at(k);
    assert(encode_utf8(head@) =~= before_byte(encode_utf8(s@), c));
    head
}

/// `path` with `query` in place of its own query and fragment.
pub fn path_with_query(path: &str, query: &HttpQueryString) -> (r: String)
    ensures
        r@ == path_and_query(path@, form_text(query_pairs(query.fields@, query.fields@.len()))),
{
    let no_fragment = cut_at(path, 35);
    let bare = cut_at(no_fragment, 63);
    proof {
        vstd::utf8::encode_utf8_decode_utf8(bare@);
    }
    let mut r = String::from_str(bare);
    let q = query.to_string();
    if !q.as_str().is_empty() {
        r.append("?");
        r.append(q.as_str());
    }
    r
}

} // verus!
