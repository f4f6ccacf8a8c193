//! The payload codec: a deterministic, self-describing binary encoding of
//! [`Request`] and [`Response`] values, proved to round-trip losslessly.
//!
//! Layout. A string is its UTF-8 bytes behind a 4-byte big-endian length.
//! A request is one tag byte (`0` get, `1` scan, `2` put, `3` remove)
//! followed by its string fields. A response is one tag byte (`0` get,
//! `1` scan, `2` put, `3` remove, `4` error); a get carries a presence byte
//! (`0` absent, `1` present) and then the value if present; a scan carries
//! a 4-byte big-endian element count and then that many strings.
//!
//! Decoding accepts exactly the encodings and nothing else: a payload
//! decodes to a value if and only if it is that value's encoding, with no
//! trailing bytes.

use vstd::prelude::*;

use crate::protocol::{Request, RequestView, Response, ResponseView};
use crate::wire::{be32, be32_value, lemma_be32_of_be32_value, lemma_be32_value_of_be32};
use vstd::utf8::{
    decode_utf8, decode_utf8_encode_utf8, encode_utf8, encode_utf8_decode_utf8,
    encode_utf8_valid_utf8, valid_utf8,
};

verus! {

/// Whether a string's UTF-8 form is short enough for a 4-byte length prefix.
pub open spec fn str_fits(s: Seq<char>) -> bool {
    encode_utf8(s).len() <= u32::MAX
}

/// The encoding of one string: length prefix, then UTF-8 bytes.
pub open spec fn enc_str(s: Seq<char>) -> Seq<u8>
    recommends
        str_fits(s),
{
    be32(encode_utf8(s).len() as u32) + encode_utf8(s)
}

/// Reads one string off the front of `b`: `None` on a short buffer or
/// malformed UTF-8, otherwise the string and the bytes after it.
pub open spec fn dec_str(b: Seq<u8>) -> Option<(Seq<char>, Seq<u8>)> {
    if b.len() < 4 {
        None
    } else {
        let n = be32_value(b.take(4)) as int;
        if b.len() < 4 + n {
            None
        } else {
            let payload = b.subrange(4, 4 + n);
            if valid_utf8(payload) {
                Some((decode_utf8(payload), b.skip(4 + n)))
            } else {
                None
            }
        }
    }
}

/// Decoding undoes encoding for strings, leaving the trailing bytes intact.
pub proof fn lemma_dec_str_of_enc_str(s: Seq<char>, rest: Seq<u8>)
    requires
        str_fits(s),
    ensures
        dec_str(enc_str(s) + rest) == Some((s, rest)),
{
    let n = encode_utf8(s).len() as int;
    let b = enc_str(s) + rest;
    assert(b.take(4) =~= be32(n as u32));
    lemma_be32_value_of_be32(n as u32);
    assert(b.subrange(4, 4 + n) =~= encode_utf8(s));
    encode_utf8_valid_utf8(s);
    encode_utf8_decode_utf8(s);
    assert(b.skip(4 + n) =~= rest);
}

/// A string decode succeeds only on an exact encoding: whatever it returns,
/// re-encoding it and appending the remainder gives the input back.
pub proof fn lemma_dec_str_sound(b: Seq<u8>, s: Seq<char>, rest: Seq<u8>)
    requires
        dec_str(b) == Some((s, rest)),
    ensures
        str_fits(s),
        b == enc_str(s) + rest,
{
    let n = be32_value(b.take(4)) as int;
    let payload = b.subrange(4, 4 + n);
    decode_utf8_encode_utf8(payload);
    lemma_be32_of_be32_value(b.take(4));
    assert(enc_str(s) + rest =~= b);
}

/// Whether every string field of a request fits its length prefix.
pub open spec fn request_fits(r: RequestView) -> bool {
    match r {
        RequestView::Get { key } => str_fits(key),
        RequestView::Scan { key } => str_fits(key),
        RequestView::Put { key, value } => str_fits(key) && str_fits(value),
        RequestView::Remove { key } => str_fits(key),
    }
}

/// The encoding of a request: tag byte, then its fields.
pub open spec fn enc_request(r: RequestView) -> Seq<u8>
    recommends
        request_fits(r),
{
    match r {
        RequestView::Get { key } => seq![0u8] + enc_str(key),
        RequestView::Scan { key } => seq![1u8] + enc_str(key),
        RequestView::Put { key, value } => seq![2u8] + enc_str(key) + enc_str(value),
        RequestView::Remove { key } => seq![3u8] + enc_str(key),
    }
}

/// Decodes a whole payload as a request; `None` unless the payload is
/// exactly one request encoding.
pub open spec fn dec_request(b: Seq<u8>) -> Option<RequestView> {
    if b.len() < 1 {
        None
    } else {
        let tag = b[0];
        let body = b.skip(1);
        if tag == 0u8 {
            match dec_str(body) {
                Some((key, r)) => if r.len() == 0 {
                    Some(RequestView::Get { key })
                } else {
                    None
                },
                None => None,
            }
        } else if tag == 1u8 {
            match dec_str(body) {
                Some((key, r)) => if r.len() == 0 {
                    Some(RequestView::Scan { key })
                } else {
                    None
                },
                None => None,
            }
        } else if tag == 2u8 {
            match dec_str(body) {
                Some((key, r)) => match dec_str(r) {
                    Some((value, r2)) => if r2.len() == 0 {
                        Some(RequestView::Put { key, value })
                    } else {
                        None
                    },
                    None => None,
                },
                None => None,
            }
        } else if tag == 3u8 {
            match dec_str(body) {
                Some((key, r)) => if r.len() == 0 {
                    Some(RequestView::Remove { key })
                } else {
                    None
                },
                None => None,
            }
        } else {
            None
        }
    }
}

/// Round trip for requests: every request whose fields fit decodes from its
/// own encoding, unchanged.
pub proof fn lemma_request_round_trip(r: RequestView)
    requires
        request_fits(r),
    ensures
        dec_request(enc_request(r)) == Some(r),
{
    let b = enc_request(r);
    match r {
        RequestView::Get { key } => {
            assert(b.skip(1) =~= enc_str(key) + Seq::<u8>::empty());
            lemma_dec_str_of_enc_str(key, Seq::<u8>::empty());
        },
        RequestView::Scan { key } => {
            assert(b.skip(1) =~= enc_str(key) + Seq::<u8>::empty());
            lemma_dec_str_of_enc_str(key, Seq::<u8>::empty());
        },
        RequestView::Put { key, value } => {
            assert(b.skip(1) =~= enc_str(key) + (enc_str(value) + Seq::<u8>::empty()));
            lemma_dec_str_of_enc_str(key, enc_str(value) + Seq::<u8>::empty());
            assert(enc_str(value) + Seq::<u8>::empty() =~= enc_str(value) + Seq::<u8>::empty());
            lemma_dec_str_of_enc_str(value, Seq::<u8>::empty());
        },
        RequestView::Remove { key } => {
            assert(b.skip(1) =~= enc_str(key) + Seq::<u8>::empty());
            lemma_dec_str_of_enc_str(key, Seq::<u8>::empty());
        },
    }
}

/// A request decode succeeds only on an exact encoding.
pub proof fn lemma_dec_request_sound(b: Seq<u8>, r: RequestView)
    requires
        dec_request(b) == Some(r),
    ensures
        request_fits(r),
        b == enc_request(r),
{
    let body = b.skip(1);
    match r {
        RequestView::Get { key } => {
            let (s, rest) = dec_str(body).unwrap();
            lemma_dec_str_sound(body, s, rest);
            assert(rest =~= Seq::<u8>::empty());
            assert(b =~= seq![0u8] + (enc_str(key) + rest));
            assert(b =~= enc_request(r));
        },
        RequestView::Scan { key } => {
            let (s, rest) = dec_str(body).unwrap();
            lemma_dec_str_sound(body, s, rest);
            assert(rest =~= Seq::<u8>::empty());
            assert(b =~= seq![1u8] + (enc_str(key) + rest));
            assert(b =~= enc_request(r));
        },
        RequestView::Put { key, value } => {
            let (s, rest) = dec_str(body).unwrap();
            lemma_dec_str_sound(body, s, rest);
            let (s2, rest2) = dec_str(rest).unwrap();
            lemma_dec_str_sound(rest, s2, rest2);
            assert(rest2 =~= Seq::<u8>::empty());
            assert(rest =~= enc_str(value) + rest2);
            assert(b =~= seq![2u8] + (enc_str(key) + (enc_str(value) + rest2)));
            assert(b =~= enc_request(r));
        },
        RequestView::Remove { key } => {
            let (s, rest) = dec_str(body).unwrap();
            lemma_dec_str_sound(body, s, rest);
            assert(rest =~= Seq::<u8>::empty());
            assert(b =~= seq![3u8] + (enc_str(key) + rest));
            assert(b =~= enc_request(r));
        },
    }
}

/// Whether every string in a list fits its length prefix.
pub open spec fn strs_fit(l: Seq<Seq<char>>) -> bool {
    forall|i: int| 0 <= i < l.len() ==> str_fits(#[trigger] l[i])
}

/// The encodings of a list of strings, one after another.
pub open spec fn enc_str_seq(l: Seq<Seq<char>>) -> Seq<u8>
    recommends
        strs_fit(l),
    decreases l.len(),
{
    if l.len() == 0 {
        Seq::<u8>::empty()
    } else {
        enc_str(l[0]) + enc_str_seq(l.drop_first())
    }
}

/// Reads `n` strings off the front of `b`.
pub open spec fn dec_str_seq(b: Seq<u8>, n: nat) -> Option<(Seq<Seq<char>>, Seq<u8>)>
    decreases n,
{
    if n == 0 {
        Some((Seq::<Seq<char>>::empty(), b))
    } else {
        match dec_str(b) {
            Some((s, r)) => match dec_str_seq(r, (n - 1) as nat) {
                Some((l, r2)) => Some((seq![s] + l, r2)),
                None => None,
            },
            None => None,
        }
    }
}

/// Decoding undoes encoding for string lists.
pub proof fn lemma_dec_str_seq_of_enc_str_seq(l: Seq<Seq<char>>, rest: Seq<u8>)
    requires
        strs_fit(l),
    ensures
        dec_str_seq(enc_str_seq(l) + rest, l.len()) == Some((l, rest)),
    decreases l.len(),
{
    if l.len() == 0 {
        assert(enc_str_seq(l) + rest =~= rest);
        assert(dec_str_seq(rest, 0) == Some((Seq::<Seq<char>>::empty(), rest)));
        assert(l =~= Seq::<Seq<char>>::empty());
    } else {
        let tail = l.drop_first();
        assert(enc_str_seq(l) + rest =~= enc_str(l[0]) + (enc_str_seq(tail) + rest));
        lemma_dec_str_of_enc_str(l[0], enc_str_seq(tail) + rest);
        lemma_dec_str_seq_of_enc_str_seq(tail, rest);
        assert(seq![l[0]] + tail =~= l);
    }
}

/// A string-list decode succeeds only on an exact encoding of `n` strings.
pub proof fn lemma_dec_str_seq_sound(b: Seq<u8>, n: nat, l: Seq<Seq<char>>, rest: Seq<u8>)
    requires
        dec_str_seq(b, n) == Some((l, rest)),
    ensures
        l.len() == n,
        strs_fit(l),
        b == enc_str_seq(l) + rest,
    decreases n,
{
    if n == 0 {
        assert(b =~= enc_str_seq(l) + rest);
    } else {
        let (s, r) = dec_str(b).unwrap();
        lemma_dec_str_sound(b, s, r);
        let (l2, r2) = dec_str_seq(r, (n - 1) as nat).unwrap();
        lemma_dec_str_seq_sound(r, (n - 1) as nat, l2, r2);
        assert(l == seq![s] + l2);
        assert(l.drop_first() =~= l2);
        assert(l[0] == s);
        assert(b =~= enc_str(l[0]) + (enc_str_seq(l.drop_first()) + rest));
        assert(b =~= enc_str_seq(l) + rest);
    }
}

/// Whether every string field of a response fits, and a scan's element
/// count fits its prefix.
pub open spec fn response_fits(r: ResponseView) -> bool {
    match r {
        ResponseView::Get { value } => match value {
            Some(v) => str_fits(v),
            None => true,
        },
        ResponseView::Scan { values } => values.len() <= u32::MAX && strs_fit(values),
        ResponseView::Put => true,
        ResponseView::Remove => true,
        ResponseView::Error { msg } => str_fits(msg),
    }
}

/// The encoding of a response: tag byte, then its fields.
pub open spec fn enc_response(r: ResponseView) -> Seq<u8>
    recommends
        response_fits(r),
{
    match r {
        ResponseView::Get { value } => match value {
            Some(v) => seq![0u8, 1u8] + enc_str(v),
            None => seq![0u8, 0u8],
        },
        ResponseView::Scan { values } => seq![1u8] + be32(values.len() as u32) + enc_str_seq(
            values,
        ),
        ResponseView::Put => seq![2u8],
        ResponseView::Remove => seq![3u8],
        ResponseView::Error { msg } => seq![4u8] + enc_str(msg),
    }
}

/// Decodes a whole payload as a response; `None` unless the payload is
/// exactly one response encoding.
pub open spec fn dec_response(b: Seq<u8>) -> Option<ResponseView> {
    if b.len() < 1 {
        None
    } else {
        let tag = b[0];
        let body = b.skip(1);
        if tag == 0u8 {
            if body.len() < 1 {
                None
            } else if body[0] == 0u8 {
                if body.len() == 1 {
                    Some(ResponseView::Get { value: None })
                } else {
                    None
                }
            } else if body[0] == 1u8 {
                match dec_str(body.skip(1)) {
                    Some((v, r)) => if r.len() == 0 {
                        Some(ResponseView::Get { value: Some(v) })
                    } else {
                        None
                    },
                    None => None,
                }
            } else {
                None
            }
        } else if tag == 1u8 {
            if body.len() < 4 {
                None
            } else {
                let n = be32_value(body.take(4));
                match dec_str_seq(body.skip(4), n as nat) {
                    Some((values, r)) => if r.len() == 0 {
                        Some(ResponseView::Scan { values })
                    } else {
                        None
                    },
                    None => None,
                }
            }
        } else if tag == 2u8 {
            if body.len() == 0 {
                Some(ResponseView::Put)
            } else {
                None
            }
        } else if tag == 3u8 {
            if body.len() == 0 {
                Some(ResponseView::Remove)
            } else {
                None
            }
        } else if tag == 4u8 {
            match dec_str(body) {
                Some((msg, r)) => if r.len() == 0 {
                    Some(ResponseView::Error { msg })
                } else {
                    None
                },
                None => None,
            }
        } else {
            None
        }
    }
}

/// Round trip for responses: every response whose fields fit decodes from
/// its own encoding, unchanged.
pub proof fn lemma_response_round_trip(r: ResponseView)
    requires
        response_fits(r),
    ensures
        dec_response(enc_response(r)) == Some(r),
{
    let b = enc_response(r);
    match r {
        ResponseView::Get { value } => match value {
            Some(v) => {
                assert(b.skip(1).skip(1) =~= enc_str(v) + Seq::<u8>::empty());
                lemma_dec_str_of_enc_str(v, Seq::<u8>::empty());
            },
            None => {
                assert(b.skip(1) =~= seq![0u8]);
            },
        },
        ResponseView::Scan { values } => {
            let body = b.skip(1);
            assert(body.take(4) =~= be32(values.len() as u32));
            lemma_be32_value_of_be32(values.len() as u32);
            assert(body.skip(4) =~= enc_str_seq(values) + Seq::<u8>::empty());
            lemma_dec_str_seq_of_enc_str_seq(values, Seq::<u8>::empty());
        },
        ResponseView::Put => {
            assert(b.skip(1).len() == 0);
        },
        ResponseView::Remove => {
            assert(b.skip(1).len() == 0);
        },
        ResponseView::Error { msg } => {
            assert(b.skip(1) =~= enc_str(msg) + Seq::<u8>::empty());
            lemma_dec_str_of_enc_str(msg, Seq::<u8>::empty());
        },
    }
}

/// A response decode succeeds only on an exact encoding.
pub proof fn lemma_dec_response_sound(b: Seq<u8>, r: ResponseView)
    requires
        dec_response(b) == Some(r),
    ensures
        response_fits(r),
        b == enc_response(r),
{
    let body = b.skip(1);
    match r {
        ResponseView::Get { value } => match value {
            Some(v) => {
                let (s, rest) = dec_str(body.skip(1)).unwrap();
                lemma_dec_str_sound(body.skip(1), s, rest);
                assert(rest =~= Seq::<u8>::empty());
                assert(b =~= seq![0u8, 1u8] + (enc_str(v) + rest));
                assert(b =~= enc_response(r));
            },
            None => {
                assert(b =~= seq![0u8, 0u8]);
            },
        },
        ResponseView::Scan { values } => {
            let n = be32_value(body.take(4));
            let (l, rest) = dec_str_seq(body.skip(4), n as nat).unwrap();
            lemma_dec_str_seq_sound(body.skip(4), n as nat, l, rest);
            lemma_be32_of_be32_value(body.take(4));
            assert(rest =~= Seq::<u8>::empty());
            assert(b =~= seq![1u8] + body.take(4) + (enc_str_seq(values) + rest));
            assert(b =~= enc_response(r));
        },
        ResponseView::Put => {
            assert(b =~= seq![2u8]);
        },
        ResponseView::Remove => {
            assert(b =~= seq![3u8]);
        },
        ResponseView::Error { msg } => {
            let (s, rest) = dec_str(body).unwrap();
            lemma_dec_str_sound(body, s, rest);
            assert(rest =~= Seq::<u8>::empty());
            assert(b =~= seq![4u8] + (enc_str(msg) + rest));
            assert(b =~= enc_response(r));
        },
    }
}

/// Encoding a list grows by one encoded string when the list grows by one.
pub proof fn lemma_enc_str_seq_push(l: Seq<Seq<char>>, x: Seq<char>)
    ensures
        enc_str_seq(l.push(x)) == enc_str_seq(l) + enc_str(x),
    decreases l.len(),
{
    if l.len() == 0 {
        reveal_with_fuel(enc_str_seq, 3);
        assert(l.push(x)[0] == x);
        assert(l.push(x).drop_first() =~= Seq::<Seq<char>>::empty());
        assert(enc_str_seq(l.push(x)) =~= enc_str_seq(l) + enc_str(x));
    } else {
        assert(l.push(x).drop_first() =~= l.drop_first().push(x));
        lemma_enc_str_seq_push(l.drop_first(), x);
        assert(l.push(x)[0] == l[0]);
        assert(enc_str_seq(l.push(x)) =~= enc_str_seq(l) + enc_str(x));
    }
}

/// Relies on `String::from_utf8`: it succeeds exactly on valid UTF-8 input,
/// and the resulting string's characters are the decoding of those bytes.
#[verifier::external_body]
fn string_from_utf8(bytes: Vec<u8>) -> (r: Option<String>)
    ensures
        r is Some <==> valid_utf8(bytes@),
        r matches Some(s) ==> s@ == decode_utf8(bytes@),
{
    String::from_utf8(bytes).ok()
}

/// Appends the encoding of one string, or appends nothing and reports
/// `false` when the string is too long for a 4-byte length prefix.
fn write_str(out: &mut Vec<u8>, s: &String) -> (ok: bool)
    ensures
        ok ==> str_fits(s@) && final(out)@ == old(out)@ + enc_str(s@),
        !ok ==> !str_fits(s@) && final(out)@ == old(out)@,
{
    let bytes = s.as_str().as_bytes_vec();
    if bytes.len() > u32::MAX as usize {
        return false;
    }
    let mut header = crate::wire::encode_header(bytes.len() as u32);
    let mut body = bytes;
    out.append(&mut header);
    out.append(&mut body);
    proof {
        assert(out@ =~= old(out)@ + enc_str(s@));
    }
    true
}

/// Reads one string out of `b` starting at `pos`, returning it with the
/// position just past it; `None` exactly where the spec-level string
/// decoder fails on the bytes from `pos` on.
fn read_str(b: &Vec<u8>, pos: usize) -> (r: Option<(String, usize)>)
    requires
        pos <= b@.len(),
    ensures
        match r {
            Some(sp) => {
                &&& pos <= sp.1 <= b@.len()
                &&& dec_str(b@.skip(pos as int)) == Some((sp.0@, b@.skip(sp.1 as int)))
            },
            None => dec_str(b@.skip(pos as int)) is None,
        },
{
    let ghost tail = b@.skip(pos as int);
    if b.len() - pos < 4 {
        return None;
    }
    let b0 = b[pos];
    let b1 = b[pos + 1];
    let b2 = b[pos + 2];
    let b3 = b[pos + 3];
    let n = ((b0 as u32) << 24) | ((b1 as u32) << 16) | ((b2 as u32) << 8) | (b3 as u32);
    proof {
        assert(tail.take(4) =~= seq![b0, b1, b2, b3]);
        assert(be32_value(tail.take(4)) == n);
    }
    let remaining = b.len() - pos - 4;
    if (n as usize) > remaining {
        return None;
    }
    let mut payload: Vec<u8> = Vec::new();
    let mut i: usize = 0;
    while i < n as usize
        invariant
            0 <= i <= n as usize,
            pos + 4 + n as usize <= b@.len() <= usize::MAX,
            payload@ =~= b@.subrange(pos + 4, pos + 4 + i as int),
        decreases n as usize - i,
    {
        payload.push(b[pos + 4 + i]);
        i = i + 1;
    }
    proof {
        assert(payload@ =~= tail.subrange(4, 4 + n as int));
    }
    match string_from_utf8(payload) {
        Some(s) => {
            let newpos = pos + 4 + n as usize;
            proof {
                assert(b@.skip(newpos as int) =~= tail.skip(4 + n as int));
            }
            Some((s, newpos))
        },
        None => None,
    }
}

/// Serializes a request, or `None` when a field is too long for its length
/// prefix.
pub fn encode_request(req: &Request) -> (r: Option<Vec<u8>>)
    ensures
        r matches Some(v) ==> request_fits(req@) && v@ == enc_request(req@),
        r is None ==> !request_fits(req@),
{
    let mut out: Vec<u8> = Vec::new();
    match req {
        Request::Get { key } => {
            out.push(0u8);
            if !write_str(&mut out, key) {
                return None;
            }
            proof {
                assert(out@ =~= enc_request(req@));
            }
            Some(out)
        },
        Request::Scan { key } => {
            out.push(1u8);
            if !write_str(&mut out, key) {
                return None;
            }
            proof {
                assert(out@ =~= enc_request(req@));
            }
            Some(out)
        },
        Request::Put { key, value } => {
            out.push(2u8);
            if !write_str(&mut out, key) {
                return None;
            }
            if !write_str(&mut out, value) {
                return None;
            }
            proof {
                assert(out@ =~= enc_request(req@));
            }
            Some(out)
        },
        Request::Remove { key } => {
            out.push(3u8);
            if !write_str(&mut out, key) {
                return None;
            }
            proof {
                assert(out@ =~= enc_request(req@));
            }
            Some(out)
        },
    }
}

/// Deserializes a payload as a request; `None` exactly where the payload is
/// not one complete request encoding.
pub fn decode_request(b: &Vec<u8>) -> (r: Option<Request>)
    ensures
        match r {
            Some(q) => dec_request(b@) == Some(q@),
            None => dec_request(b@) is None,
        },
{
    if b.len() < 1 {
        return None;
    }
    let tag = b[0];
    if tag == 0u8 {
        match read_str(b, 1) {
            Some((key, pos)) => if pos == b.len() {
                Some(Request::Get { key })
            } else {
                None
            },
            None => None,
        }
    } else if tag == 1u8 {
        match read_str(b, 1) {
            Some((key, pos)) => if pos == b.len() {
                Some(Request::Scan { key })
            } else {
                None
            },
            None => None,
        }
    } else if tag == 2u8 {
        match read_str(b, 1) {
            Some((key, pos)) => match read_str(b, pos) {
                Some((value, pos2)) => if pos2 == b.len() {
                    Some(Request::Put { key, value })
                } else {
                    None
                },
                None => None,
            },
            None => None,
        }
    } else if tag == 3u8 {
        match read_str(b, 1) {
            Some((key, pos)) => if pos == b.len() {
                Some(Request::Remove { key })
            } else {
                None
            },
            None => None,
        }
    } else {
        None
    }
}

/// Serializes a response, or `None` when a field is too long for its
/// length prefix or a scan result has too many elements for its count
/// prefix.
pub fn encode_response(resp: &Response) -> (r: Option<Vec<u8>>)
    ensures
        r matches Some(v) ==> response_fits(resp@) && v@ == enc_response(resp@),
        r is None ==> !response_fits(resp@),
{
    let mut out: Vec<u8> = Vec::new();
    match resp {
        Response::Get(value) => {
            out.push(0u8);
            match value {
                Some(v) => {
                    out.push(1u8);
                    if !write_str(&mut out, v) {
                        return None;
                    }
                    proof {
                        assert(out@ =~= enc_response(resp@));
                    }
                    Some(out)
                },
                None => {
                    out.push(0u8);
                    proof {
                        assert(out@ =~= enc_response(resp@));
                    }
                    Some(out)
                },
            }
        },
        Response::Scan(values) => {
            out.push(1u8);
            if values.len() > u32::MAX as usize {
                return None;
            }
            let mut header = crate::wire::encode_header(values.len() as u32);
            out.append(&mut header);
            let ghost all = values.deep_view();
            let mut i: usize = 0;
            while i < values.len()
                invariant
                    0 <= i <= values@.len(),
                    values@.len() <= u32::MAX,
                    all == values.deep_view(),
                    all.len() == values@.len(),
                    resp@ == (ResponseView::Scan { values: all }),
                    strs_fit(all.take(i as int)),
                    out@ == seq![1u8] + be32(values@.len() as u32) + enc_str_seq(
                        all.take(i as int),
                    ),
                decreases values@.len() - i,
            {
                if !write_str(&mut out, &values[i]) {
                    proof {
                        assert(all[i as int] == values@[i as int]@);
                    }
                    return None;
                }
                proof {
                    assert(all.take(i + 1) =~= all.take(i as int).push(all[i as int]));
                    lemma_enc_str_seq_push(all.take(i as int), all[i as int]);
                    assert(seq![1u8] + be32(values@.len() as u32) + enc_str_seq(
                        all.take(i as int),
                    ) + enc_str(all[i as int]) =~= seq![1u8] + be32(values@.len() as u32)
                        + enc_str_seq(all.take(i + 1)));
                }
                i = i + 1;
            }
            proof {
                assert(all.take(values@.len() as int) =~= all);
                assert(out@ =~= enc_response(resp@));
            }
            Some(out)
        },
        Response::Put => {
            out.push(2u8);
            proof {
                assert(out@ =~= enc_response(resp@));
            }
            Some(out)
        },
        Response::Remove => {
            out.push(3u8);
            proof {
                assert(out@ =~= enc_response(resp@));
            }
            Some(out)
        },
        Response::Error(msg) => {
            out.push(4u8);
            if !write_str(&mut out, msg) {
                return None;
            }
            proof {
                assert(out@ =~= enc_response(resp@));
            }
            Some(out)
        },
    }
}

/// Deserializes a payload as a response; `None` exactly where the payload
/// is not one complete response encoding.
pub fn decode_response(b: &Vec<u8>) -> (r: Option<Response>)
    ensures
        match r {
            Some(resp) => dec_response(b@) == Some(resp@),
            None => dec_response(b@) is None,
        },
{
    if b.len() < 1 {
        return None;
    }
    let tag = b[0];
    if tag == 0u8 {
        if b.len() < 2 {
            return None;
        }
        let presence = b[1];
        proof {
            assert(b@.skip(1)[0] == b@[1]);
        }
        if presence == 0u8 {
            if b.len() == 2 {
                Some(Response::Get(None))
            } else {
                None
            }
        } else if presence == 1u8 {
            proof {
                assert(b@.skip(1).skip(1) =~= b@.skip(2));
            }
            match read_str(b, 2) {
                Some((v, pos)) => if pos == b.len() {
                    Some(Response::Get(Some(v)))
                } else {
                    None
                },
                None => None,
            }
        } else {
            None
        }
    } else if tag == 1u8 {
        if b.len() - 1 < 4 {
            return None;
        }
        let b0 = b[1];
        let b1 = b[2];
        let b2 = b[3];
        let b3 = b[4];
        let n = ((b0 as u32) << 24) | ((b1 as u32) << 16) | ((b2 as u32) << 8) | (b3 as u32);
        proof {
            assert(b@.skip(1).take(4) =~= seq![b0, b1, b2, b3]);
            assert(be32_value(b@.skip(1).take(4)) == n);
            assert(b@.skip(1).skip(4) =~= b@.skip(5));
        }
        let mut values: Vec<String> = Vec::new();
        let mut pos: usize = 5;
        let mut cnt: u32 = 0;
        while cnt < n
            invariant
                0 <= cnt <= n,
                5 <= pos <= b@.len(),
                b@[0] == 1u8,
                n == be32_value(b@.skip(1).take(4)),
                values.deep_view().len() == cnt,
                dec_str_seq(b@.skip(5), n as nat) == match dec_str_seq(
                    b@.skip(pos as int),
                    (n - cnt) as nat,
                ) {
                    Some(lr) => Some((values.deep_view() + lr.0, lr.1)),
                    None => None::<(Seq<Seq<char>>, Seq<u8>)>,
                },
            decreases n - cnt,
        {
            let ghost values_before = values.deep_view();
            let ghost rest_before = b@.skip(pos as int);
            match read_str(b, pos) {
                Some((s, pos2)) => {
                    proof {
                        assert(dec_str(rest_before) == Some((s@, b@.skip(pos2 as int))));
                    }
                    values.push(s);
                    proof {
                        assert(values.deep_view() =~= values_before.push(s@));
                    }
                    let ghost rest_after = b@.skip(pos2 as int);
                    proof {
                        match dec_str_seq(rest_after, (n - cnt - 1) as nat) {
                            Some(lr) => {
                                assert(dec_str_seq(rest_before, (n - cnt) as nat) == Some(
                                    (seq![s@] + lr.0, lr.1),
                                ));
                                assert(values_before + (seq![s@] + lr.0) =~= values.deep_view()
                                    + lr.0);
                            },
                            None => {
                                assert(dec_str_seq(rest_before, (n - cnt) as nat) is None);
                            },
                        }
                    }
                    pos = pos2;
                    cnt = cnt + 1;
                },
                None => {
                    proof {
                        assert(dec_str_seq(rest_before, (n - cnt) as nat) is None);
                        assert(b@.skip(1).skip(4) =~= b@.skip(5));
                        assert(b@.skip(1).len() >= 4);
                        assert(dec_response(b@) is None);
                    }
                    return None;
                },
            }
        }
        proof {
            assert(dec_str_seq(b@.skip(pos as int), 0) == Some(
                (Seq::<Seq<char>>::empty(), b@.skip(pos as int)),
            ));
            assert(values.deep_view() + Seq::<Seq<char>>::empty() =~= values.deep_view());
        }
        if pos == b.len() {
            proof {
                assert(b@.skip(pos as int).len() == 0);
            }
            Some(Response::Scan(values))
        } else {
            proof {
                assert(b@.skip(pos as int).len() != 0);
            }
            None
        }
    } else if tag == 2u8 {
        if b.len() == 1 {
            Some(Response::Put)
        } else {
            None
        }
    } else if tag == 3u8 {
        if b.len() == 1 {
            Some(Response::Remove)
        } else {
            None
        }
    } else if tag == 4u8 {
        match read_str(b, 1) {
            Some((msg, pos)) => if pos == b.len() {
                Some(Response::Error(msg))
            } else {
                None
            },
            None => None,
        }
    } else {
        None
    }
}

} // verus!
