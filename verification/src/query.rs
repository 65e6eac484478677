use vstd::prelude::*;
use vstd::string::StrSliceExecFns;
use vstd::string::StringExecFns;
use vstd::utf8::encode_utf8;
use crate::params::RequestParameters;

verus! {

/// Bytes that stay as they are under form-urlencoding: ASCII letters and
/// digits, and `*`, `-`, `.`, `_`.
pub open spec fn is_unreserved(b: u8) -> bool {
    (48 <= b <= 57) || (65 <= b <= 90) || (97 <= b <= 122)
        || b == 42 || b == 45 || b == 46 || b == 95
}

/// The ASCII digit for one hex nibble, upper case.
pub open spec fn spec_hex_byte(n: u8) -> u8 {
    if n < 10 {
        (n + 48) as u8
    } else {
        (n + 55) as u8
    }
}

/// One byte under form-urlencoding: space becomes `+`, unreserved bytes stay,
/// everything else becomes a `%`-escape.
pub open spec fn encode_byte(b: u8) -> Seq<u8> {
    if b == 32 {
        seq![43]
    } else if is_unreserved(b) {
        seq![b]
    } else {
        seq![37, spec_hex_byte(b / 16), spec_hex_byte(b % 16)]
    }
}

/// A byte string under form-urlencoding.
pub open spec fn encode_bytes(s: Seq<u8>) -> Seq<u8>
    decreases s.len(),
{
    if s.len() == 0 {
        Seq::empty()
    } else {
        encode_bytes(s.drop_last()) + encode_byte(s.last())
    }
}

/// A character string under form-urlencoding: its UTF-8 bytes, encoded.
pub open spec fn encode_component(s: Seq<char>) -> Seq<u8> {
    encode_bytes(encode_utf8(s))
}

/// One `key=value` piece of a query string.
pub open spec fn encode_pair(p: (Seq<char>, Seq<char>)) -> Seq<u8> {
    encode_component(p.0) + seq![61u8] + encode_component(p.1)
}

/// A whole query string: the pairs' pieces joined with `&`.
pub open spec fn query_of(ps: Seq<(Seq<char>, Seq<char>)>) -> Seq<u8>
    decreases ps.len(),
{
    if ps.len() == 0 {
        Seq::empty()
    } else if ps.len() == 1 {
        encode_pair(ps[0])
    } else {
        query_of(ps.drop_last()) + seq![38u8] + encode_pair(ps.last())
    }
}

/// ASCII bytes read as characters.
pub open spec fn ascii_chars_of(s: Seq<u8>) -> Seq<char> {
    Seq::new(s.len(), |i: int| s[i] as char)
}

proof fn lemma_encode_byte_ascii(b: u8)
    ensures
        forall|i: int| 0 <= i < encode_byte(b).len() ==> encode_byte(b)[i] < 128,
{
    assert forall|i: int| 0 <= i < encode_byte(b).len() implies encode_byte(b)[i] < 128 by {
        if b == 32 {
            assert(encode_byte(b)[i] == 43);
        } else if is_unreserved(b) {
            assert(encode_byte(b)[i] == b);
        } else if i == 0 {
            assert(encode_byte(b)[i] == 37);
        } else if i == 1 {
            assert(encode_byte(b)[i] == spec_hex_byte(b / 16));
        } else {
            assert(encode_byte(b)[i] == spec_hex_byte(b % 16));
        }
    }
}

proof fn lemma_encode_bytes_ascii(s: Seq<u8>)
    ensures
        forall|i: int| 0 <= i < encode_bytes(s).len() ==> encode_bytes(s)[i] < 128,
    decreases s.len(),
{
    if s.len() > 0 {
        lemma_encode_bytes_ascii(s.drop_last());
        lemma_encode_byte_ascii(s.last());
        assert forall|i: int| 0 <= i < encode_bytes(s).len()
            implies encode_bytes(s)[i] < 128 by {
            let pre = encode_bytes(s.drop_last());
            if i < pre.len() {
                assert(encode_bytes(s)[i] == pre[i]);
            } else {
                assert(encode_bytes(s)[i] == encode_byte(s.last())[i - pre.len()]);
            }
        }
    }
}

proof fn lemma_encode_pair_ascii(p: (Seq<char>, Seq<char>))
    ensures
        forall|i: int| 0 <= i < encode_pair(p).len() ==> encode_pair(p)[i] < 128,
{
    lemma_encode_bytes_ascii(encode_utf8(p.0));
    lemma_encode_bytes_ascii(encode_utf8(p.1));
    assert forall|i: int| 0 <= i < encode_pair(p).len()
        implies encode_pair(p)[i] < 128 by {
        let a = encode_component(p.0);
        let c = encode_component(p.1);
        if i < a.len() {
            assert(encode_pair(p)[i] == a[i]);
        } else if i == a.len() {
            assert(encode_pair(p)[i] == 61u8);
        } else {
            assert(encode_pair(p)[i] == c[i - a.len() - 1]);
        }
    }
}

proof fn lemma_query_ascii(ps: Seq<(Seq<char>, Seq<char>)>)
    ensures
        forall|i: int| 0 <= i < query_of(ps).len() ==> query_of(ps)[i] < 128,
    decreases ps.len(),
{
    if ps.len() == 1 {
        lemma_encode_pair_ascii(ps[0]);
    } else if ps.len() > 1 {
        lemma_query_ascii(ps.drop_last());
        lemma_encode_pair_ascii(ps.last());
        assert forall|i: int| 0 <= i < query_of(ps).len()
            implies query_of(ps)[i] < 128 by {
            let pre = query_of(ps.drop_last());
            if i < pre.len() {
                assert(query_of(ps)[i] == pre[i]);
            } else if i == pre.len() {
                assert(query_of(ps)[i] == 38u8);
            } else {
                assert(query_of(ps)[i] == encode_pair(ps.last())[i - pre.len() - 1]);
            }
        }
    }
}

/// The ASCII digit for one hex nibble, upper case.
fn hex_byte(n: u8) -> (r: u8)
    requires
        n < 16,
    ensures
        r == spec_hex_byte(n),
{
    if n < 10 {
        n + 48
    } else {
        n + 55
    }
}

/// Appends the form-urlencoding of `s` to `out`.
fn encode_component_into(out: &mut Vec<u8>, s: &String)
    ensures
        final(out)@ == old(out)@ + encode_component(s@),
{
    let bytes = s.as_str().as_bytes_vec();
    let n = bytes.len();
    let mut i: usize = 0;
    while i < n
        invariant
            bytes@ == encode_utf8(s@),
            n == bytes@.len(),
            i <= n,
            out@ == old(out)@ + encode_bytes(bytes@.subrange(0, i as int)),
        decreases n - i,
    {
        let b = bytes[i];
        if b == 32 {
            out.push(43);
        } else if (48 <= b && b <= 57) || (65 <= b && b <= 90)
            || (97 <= b && b <= 122) || b == 42 || b == 45 || b == 46
            || b == 95 {
            out.push(b);
        } else {
            out.push(37);
            out.push(hex_byte(b / 16));
            out.push(hex_byte(b % 16));
        }
        proof {
            assert(bytes@.subrange(0, i as int + 1).drop_last() =~= bytes@.subrange(0, i as int));
            assert(bytes@.subrange(0, i as int + 1).last() == bytes@[i as int]);
            assert(out@ =~= old(out)@ + encode_bytes(bytes@.subrange(0, i as int + 1)));
        }
        i = i + 1;
    }
    proof {
        assert(bytes@.subrange(0, n as int) =~= bytes@);
    }
}

/// The query string for a parameter set, as ASCII bytes, pairs in their
/// insertion order.
fn query_string_bytes(params: &RequestParameters) -> (r: Vec<u8>)
    ensures
        r@ == query_of(params.pairs_view()),
{
    let n = params.len();
    let mut out: Vec<u8> = Vec::new();
    let mut i: usize = 0;
    while i < n
        invariant
            n == params.pairs_view().len(),
            i <= n,
            out@ == query_of(params.pairs_view().subrange(0, i as int)),
        decreases n - i,
    {
        if i > 0 {
            out.push(38u8);
        }
        let pair = params.pair_at(i);
        encode_component_into(&mut out, pair.0);
        out.push(61u8);
        encode_component_into(&mut out, pair.1);
        proof {
            let pv = params.pairs_view();
            let sub = pv.subrange(0, i as int + 1);
            assert(sub.drop_last() =~= pv.subrange(0, i as int));
            assert(sub.last() == pv[i as int]);
            assert(sub[0] == pv[0]);
            assert(out@ =~= query_of(sub));
        }
        i = i + 1;
    }
    proof {
        assert(params.pairs_view().subrange(0, n as int) =~= params.pairs_view());
    }
    out
}

/// Relies on String::from_utf8: bytes below 128 are valid UTF-8 and decode to
/// the characters with the same values.
#[verifier::external_body]
fn ascii_to_string(bytes: Vec<u8>) -> (r: String)
    requires
        forall|i: int| 0 <= i < bytes@.len() ==> bytes@[i] < 128,
    ensures
        r@ == ascii_chars_of(bytes@),
{
    String::from_utf8(bytes).unwrap()
}

/// The fully-qualified GET URL for one call: the provider's fixed endpoint
/// with the parameters serialized as a form-urlencoded query string.
pub fn request_url(params: &RequestParameters) -> (r: String)
    ensures
        r@ == ("https://www.cloudflare.com/api_json.html?")@
            + ascii_chars_of(query_of(params.pairs_view())),
{
    let q = query_string_bytes(params);
    proof {
        lemma_query_ascii(params.pairs_view());
    }
    let qs = ascii_to_string(q);
    let base = "https://www.cloudflare.com/api_json.html?".to_owned();
    base.concat(qs.as_str())
}

} // verus!
