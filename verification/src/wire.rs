//! The two wire formats the proxy speaks: the inbound chat request and the
//! provider's reply, and the bodies the proxy emits: the outbound
//! generation request, the response to the caller, and the error bodies.

use vstd::prelude::*;
use vstd::slice::slice_to_vec;
use crate::scan::{
    ws_end, str_end, value_end, key_eq, obj_scan, skip_ws, scan_string, scan_value,
    key_matches, scan_obj, NEST_LIMIT, QUOTE, COMMA, LBRACE, RBRACE, LBRACK, RBRACK, COLON,
};

verus! {

/// The bytes of `message`, the member of the chat request that holds the prompt.
pub open spec fn message_key() -> Seq<u8> {
    seq![109, 101, 115, 115, 97, 103, 101]
}

/// The bytes of `data`, the member of the provider reply that holds the entries.
pub open spec fn data_key() -> Seq<u8> {
    seq![100, 97, 116, 97]
}

/// The bytes of `url`, the member of a reply entry that holds the image url.
pub open spec fn url_key() -> Seq<u8> {
    seq![117, 114, 108]
}

/// The raw content of the string `message` member of the request object, if
/// the body is one well-formed object with such a member and nothing but
/// whitespace around it; `None` otherwise.
pub open spec fn message_of(s: Seq<u8>) -> Option<Seq<u8>> {
    let i = ws_end(s, 0);
    if !(0 <= i < s.len() && s[i] == LBRACE) {
        None
    } else {
        match obj_scan(s, i + 1, message_key(), None, true) {
            None => None,
            Some((m, e)) => if 0 <= e <= s.len() && ws_end(s, e) == s.len() {
                m
            } else {
                None
            },
        }
    }
}

/// The bytes of `prompt`, the member of the generation request that holds
/// the text handed to the provider.
pub open spec fn prompt_key() -> Seq<u8> {
    seq![112, 114, 111, 109, 112, 116]
}

/// The raw content of the string `prompt` member of a generation request
/// body, read back the same way a request's `message` is; the language for
/// stating that the body the proxy sends out carries the message verbatim.
pub open spec fn prompt_of(s: Seq<u8>) -> Option<Seq<u8>> {
    let i = ws_end(s, 0);
    if !(0 <= i < s.len() && s[i] == LBRACE) {
        None
    } else {
        match obj_scan(s, i + 1, prompt_key(), None, true) {
            None => None,
            Some((m, e)) => if 0 <= e <= s.len() && ws_end(s, e) == s.len() {
                m
            } else {
                None
            },
        }
    }
}

/// A chat request is valid when its `message` member is present and non-empty.
pub open spec fn valid_message(s: Seq<u8>) -> bool {
    match message_of(s) {
        Some(m) => m.len() > 0,
        None => false,
    }
}

/// Scanning the entries of the `data` array from `i` (just past `[` when
/// `first` holds, just past a comma otherwise): the url contents of the
/// entries scanned so far appended to `acc`, in array order, together with
/// the index just past the closing `]`. `None` when an entry is not an
/// object, lacks a string `url` member, or the array is malformed.
pub open spec fn url_list(
    s: Seq<u8>,
    i: int,
    acc: Seq<Seq<u8>>,
    first: bool,
) -> Option<(Seq<Seq<u8>>, int)>
    decreases s.len() - i when 0 <= i <= s.len()
{
    let j = ws_end(s, i);
    if !(i <= j < s.len()) {
        None
    } else if first && s[j] == RBRACK {
        Some((acc, j + 1))
    } else if s[j] != LBRACE {
        None
    } else {
        match obj_scan(s, j + 1, url_key(), None, true) {
            None => None,
            Some((u, e)) => match u {
                None => None,
                Some(url) => if !(j < e <= s.len()) {
                    None
                } else {
                    let t = ws_end(s, e);
                    if !(e <= t < s.len()) {
                        None
                    } else if s[t] == COMMA {
                        url_list(s, t + 1, acc.push(url), false)
                    } else if s[t] == RBRACK {
                        Some((acc.push(url), t + 1))
                    } else {
                        None
                    }
                },
            },
        }
    }
}

/// Scanning the members of the reply object from `i` (as in `obj_scan`):
/// the url contents of the `data` array — the last `data` member wins —
/// together with the index just past the closing `}`. `None` on a malformed
/// object and when `data` is present but is not an array of url entries.
pub open spec fn reply_scan(
    s: Seq<u8>,
    i: int,
    acc: Option<Seq<Seq<u8>>>,
    first: bool,
) -> Option<(Option<Seq<Seq<u8>>>, int)>
    decreases s.len() - i when 0 <= i <= s.len()
{
    let j = ws_end(s, i);
    if !(i <= j < s.len()) {
        None
    } else if first && s[j] == RBRACE {
        Some((acc, j + 1))
    } else if s[j] != QUOTE {
        None
    } else {
        match str_end(s, j + 1) {
            None => None,
            Some(k) => if !(j + 2 <= k <= s.len()) {
                None
            } else {
                let name = s.subrange(j + 1, k - 1);
                let c = ws_end(s, k);
                if !(k <= c < s.len() && s[c] == COLON) {
                    None
                } else {
                    let v = ws_end(s, c + 1);
                    if !(c + 1 <= v < s.len()) {
                        None
                    } else {
                        let step = if key_eq(name, data_key()) {
                            if s[v] != LBRACK {
                                None
                            } else {
                                match url_list(s, v + 1, Seq::empty(), true) {
                                    None => None,
                                    Some((us, e)) => Some((Some(us), e)),
                                }
                            }
                        } else {
                            match value_end(s, v, NEST_LIMIT as int) {
                                None => None,
                                Some(e) => Some((acc, e)),
                            }
                        };
                        match step {
                            None => None,
                            Some((acc2, e)) => if !(v < e <= s.len()) {
                                None
                            } else {
                                let t = ws_end(s, e);
                                if !(e <= t < s.len()) {
                                    None
                                } else if s[t] == COMMA {
                                    reply_scan(s, t + 1, acc2, false)
                                } else if s[t] == RBRACE {
                                    Some((acc2, t + 1))
                                } else {
                                    None
                                }
                            },
                        }
                    }
                }
            },
        }
    }
}

/// The url contents of the `data` entries of the provider reply, in array
/// order, if the reply is one well-formed object carrying a `data` array of
/// url entries; `None` otherwise — the shape errors the proxy must surface.
pub open spec fn reply_urls(s: Seq<u8>) -> Option<Seq<Seq<u8>>> {
    let i = ws_end(s, 0);
    if !(0 <= i < s.len() && s[i] == LBRACE) {
        None
    } else {
        match reply_scan(s, i + 1, None, true) {
            None => None,
            Some((us, e)) => if 0 <= e <= s.len() && ws_end(s, e) == s.len() {
                us
            } else {
                None
            },
        }
    }
}

/// The key `message` as bytes.
pub fn message_key_vec() -> (r: Vec<u8>)
    ensures
        r@ == message_key(),
{
    let mut v: Vec<u8> = Vec::new();
    v.push(109);
    v.push(101);
    v.push(115);
    v.push(115);
    v.push(97);
    v.push(103);
    v.push(101);
    proof {
        assert(v@ =~= message_key());
    }
    v
}

/// The key `data` as bytes.
pub fn data_key_vec() -> (r: Vec<u8>)
    ensures
        r@ == data_key(),
{
    let mut v: Vec<u8> = Vec::new();
    v.push(100);
    v.push(97);
    v.push(116);
    v.push(97);
    proof {
        assert(v@ =~= data_key());
    }
    v
}

/// The key `url` as bytes.
pub fn url_key_vec() -> (r: Vec<u8>)
    ensures
        r@ == url_key(),
{
    let mut v: Vec<u8> = Vec::new();
    v.push(117);
    v.push(114);
    v.push(108);
    proof {
        assert(v@ =~= url_key());
    }
    v
}

/// Scan the entries of the `data` array, collecting the url contents; exec
/// mirror of `url_list` started with no entries, just past the opening
/// bracket.
pub fn scan_urls(s: &[u8], i: usize) -> (r: Option<(Vec<Vec<u8>>, usize)>)
    requires
        i <= s@.len(),
    ensures
        match r {
            Some((us, e)) => i < e <= s@.len() && url_list(s@, i as int, Seq::empty(), true)
                == Some((us@.map_values(|u: Vec<u8>| u@), e as int)),
            None => url_list(s@, i as int, Seq::empty(), true) is None,
        },
{
    let n: usize = s.len();
    let ukey = url_key_vec();
    let mut j: usize = i;
    let mut us: Vec<Vec<u8>> = Vec::new();
    let mut first: bool = true;
    proof {
        assert(us@.map_values(|u: Vec<u8>| u@) =~= Seq::<Seq<u8>>::empty());
    }
    loop
        invariant
            i <= j <= n,
            n == s@.len(),
            ukey@ == url_key(),
            url_list(s@, i as int, Seq::empty(), true) == url_list(
                s@,
                j as int,
                us@.map_values(|u: Vec<u8>| u@),
                first,
            ),
        decreases n - j,
    {
        let j2 = skip_ws(s, j);
        if j2 >= n {
            return None;
        }
        let c = s[j2];
        if first && c == RBRACK {
            return Some((us, j2 + 1));
        }
        if c != LBRACE {
            return None;
        }
        match scan_obj(s, j2 + 1, ukey.as_slice()) {
            None => {
                return None;
            },
            Some((cap, e)) => match cap {
                None => {
                    return None;
                },
                Some((a, b)) => {
                    let url = slice_to_vec(&s[a..b]);
                    let t = skip_ws(s, e);
                    if t >= n {
                        return None;
                    }
                    let ct = s[t];
                    if ct == COMMA {
                        let ghost prev = us@.map_values(|u: Vec<u8>| u@);
                        us.push(url);
                        proof {
                            assert(us@.map_values(|u: Vec<u8>| u@) =~= prev.push(
                                s@.subrange(a as int, b as int),
                            ));
                        }
                        j = t + 1;
                        first = false;
                    } else if ct == RBRACK {
                        let ghost prev = us@.map_values(|u: Vec<u8>| u@);
                        us.push(url);
                        proof {
                            assert(us@.map_values(|u: Vec<u8>| u@) =~= prev.push(
                                s@.subrange(a as int, b as int),
                            ));
                        }
                        return Some((us, t + 1));
                    } else {
                        return None;
                    }
                },
            },
        }
    }
}

/// Scan the members of the reply object, collecting the urls of its `data`
/// array; exec mirror of `reply_scan` started with no capture, just past
/// the opening brace.
pub fn scan_reply(s: &[u8], i: usize) -> (r: Option<(Option<Vec<Vec<u8>>>, usize)>)
    requires
        i <= s@.len(),
    ensures
        match r {
            Some((cap, e)) => i < e <= s@.len() && match cap {
                Some(us) => reply_scan(s@, i as int, None, true) == Some(
                    (Some(us@.map_values(|u: Vec<u8>| u@)), e as int),
                ),
                None => reply_scan(s@, i as int, None, true) == Some(
                    (None::<Seq<Seq<u8>>>, e as int),
                ),
            },
            None => reply_scan(s@, i as int, None, true) is None,
        },
{
    let n: usize = s.len();
    let dkey = data_key_vec();
    let mut j: usize = i;
    let mut cap: Option<Vec<Vec<u8>>> = None;
    let mut first: bool = true;
    loop
        invariant
            i <= j <= n,
            n == s@.len(),
            dkey@ == data_key(),
            reply_scan(s@, i as int, None, true) == reply_scan(
                s@,
                j as int,
                (match cap {
                    Some(us) => Some(us@.map_values(|u: Vec<u8>| u@)),
                    None => None,
                }),
                first,
            ),
        decreases n - j,
    {
        let j2 = skip_ws(s, j);
        if j2 >= n {
            return None;
        }
        let c = s[j2];
        if first && c == RBRACE {
            return Some((cap, j2 + 1));
        }
        if c != QUOTE {
            return None;
        }
        let k = match scan_string(s, j2 + 1) {
            None => {
                return None;
            },
            Some(k) => k,
        };
        let c2 = skip_ws(s, k);
        if c2 >= n {
            return None;
        }
        if s[c2] != COLON {
            return None;
        }
        let v = skip_ws(s, c2 + 1);
        if v >= n {
            return None;
        }
        let name_match = key_matches(s, j2 + 1, k - 1, dkey.as_slice());
        let (cap2, e): (Option<Vec<Vec<u8>>>, usize) = if name_match {
            if s[v] != LBRACK {
                return None;
            }
            match scan_urls(s, v + 1) {
                None => {
                    return None;
                },
                Some((us, e)) => (Some(us), e),
            }
        } else {
            match scan_value(s, v, NEST_LIMIT) {
                None => {
                    return None;
                },
                Some(e) => (cap, e),
            }
        };
        let t = skip_ws(s, e);
        if t >= n {
            return None;
        }
        let ct = s[t];
        if ct == COMMA {
            j = t + 1;
            cap = cap2;
            first = false;
        } else if ct == RBRACE {
            return Some((cap2, t + 1));
        } else {
            return None;
        }
    }
}

/// The opening of the outbound generation request, up to the prompt:
/// `{"model":"dall-e-3","prompt":"`.
pub open spec fn gen_prefix() -> Seq<u8> {
    seq![123, 34, 109, 111, 100, 101, 108, 34, 58, 34, 100, 97, 108, 108, 45, 101, 45, 51,
        34, 44, 34, 112, 114, 111, 109, 112, 116, 34, 58, 34]
}

/// The rest of the outbound generation request, after the prompt:
/// `","n":1,"size":"1024x1024"}`.
pub open spec fn gen_suffix() -> Seq<u8> {
    seq![34, 44, 34, 110, 34, 58, 49, 44, 34, 115, 105, 122, 101, 34, 58, 34, 49, 48, 50,
        52, 120, 49, 48, 50, 52, 34, 125]
}

/// The outbound generation request body: the fixed model, count and size,
/// with the raw message content embedded as the prompt.
pub open spec fn generation_body(msg: Seq<u8>) -> Seq<u8> {
    gen_prefix() + msg + gen_suffix()
}

/// One entry of the response to the caller: `{"url":"` + the url + `"}`.
pub open spec fn resp_item(url: Seq<u8>) -> Seq<u8> {
    seq![123, 34, 117, 114, 108, 34, 58, 34] + url + seq![34, 125]
}

/// The entries of the response to the caller, in order, separated by commas.
pub open spec fn resp_items(urls: Seq<Seq<u8>>) -> Seq<u8>
    decreases urls.len()
{
    if urls.len() == 0 {
        Seq::empty()
    } else if urls.len() == 1 {
        resp_item(urls[0])
    } else {
        resp_item(urls[0]) + seq![44] + resp_items(urls.drop_first())
    }
}

/// The response to the caller: `{"data":[` + the entries + `]}`.
pub open spec fn response_body(urls: Seq<Seq<u8>>) -> Seq<u8> {
    seq![123, 34, 100, 97, 116, 97, 34, 58, 91] + resp_items(urls) + seq![93, 125]
}

/// The body of the client-error response:
/// `{"error":"missing or empty message"}`.
pub open spec fn bad_request_body() -> Seq<u8> {
    seq![123, 34, 101, 114, 114, 111, 114, 34, 58, 34, 109, 105, 115, 115, 105, 110, 103,
        32, 111, 114, 32, 101, 109, 112, 116, 121, 32, 109, 101, 115, 115, 97, 103, 101,
        34, 125]
}

/// The body of the upstream-error response:
/// `{"error":"image generation failed"}`.
pub open spec fn upstream_error_body() -> Seq<u8> {
    seq![123, 34, 101, 114, 114, 111, 114, 34, 58, 34, 105, 109, 97, 103, 101, 32, 103,
        101, 110, 101, 114, 97, 116, 105, 111, 110, 32, 102, 97, 105, 108, 101, 100, 34,
        125]
}

/// Append the bytes of `s` to `v`.
pub fn append_bytes(v: &mut Vec<u8>, s: &[u8])
    ensures
        final(v)@ == old(v)@ + s@,
{
    let ghost orig = v@;
    let n: usize = s.len();
    let mut k: usize = 0;
    while k < n
        invariant
            k <= n,
            n == s@.len(),
            v@ == orig + s@.subrange(0, k as int),
        decreases n - k,
    {
        v.push(s[k]);
        proof {
            assert(v@ =~= orig + s@.subrange(0, k as int + 1));
        }
        k = k + 1;
    }
    proof {
        assert(s@.subrange(0, n as int) =~= s@);
    }
}

/// The fixed opening of the generation request as bytes.
fn gen_prefix_vec() -> (r: Vec<u8>)
    ensures
        r@ == gen_prefix(),
{
    let mut v: Vec<u8> = Vec::new();
    v.push(123);
    v.push(34);
    v.push(109);
    v.push(111);
    v.push(100);
    v.push(101);
    v.push(108);
    v.push(34);
    v.push(58);
    v.push(34);
    v.push(100);
    v.push(97);
    v.push(108);
    v.push(108);
    v.push(45);
    v.push(101);
    v.push(45);
    v.push(51);
    v.push(34);
    v.push(44);
    v.push(34);
    v.push(112);
    v.push(114);
    v.push(111);
    v.push(109);
    v.push(112);
    v.push(116);
    v.push(34);
    v.push(58);
    v.push(34);
    proof {
        assert(v@ =~= gen_prefix());
    }
    v
}

/// The fixed rest of the generation request as bytes.
fn gen_suffix_vec() -> (r: Vec<u8>)
    ensures
        r@ == gen_suffix(),
{
    let mut v: Vec<u8> = Vec::new();
    v.push(34);
    v.push(44);
    v.push(34);
    v.push(110);
    v.push(34);
    v.push(58);
    v.push(49);
    v.push(44);
    v.push(34);
    v.push(115);
    v.push(105);
    v.push(122);
    v.push(101);
    v.push(34);
    v.push(58);
    v.push(34);
    v.push(49);
    v.push(48);
    v.push(50);
    v.push(52);
    v.push(120);
    v.push(49);
    v.push(48);
    v.push(50);
    v.push(52);
    v.push(34);
    v.push(125);
    proof {
        assert(v@ =~= gen_suffix());
    }
    v
}

/// The outbound generation request for the given raw message content: the
/// fixed model, count of one and size, with the message as the prompt.
pub fn build_generation_body(msg: &[u8]) -> (r: Vec<u8>)
    ensures
        r@ == generation_body(msg@),
{
    let mut v = gen_prefix_vec();
    append_bytes(&mut v, msg);
    let suf = gen_suffix_vec();
    append_bytes(&mut v, suf.as_slice());
    proof {
        assert(v@ =~= generation_body(msg@));
    }
    v
}

/// Appending one url to the entries keeps the earlier entries and adds the
/// entry of that url at the end, after a comma when it is not the first.
proof fn lemma_resp_items_push(us: Seq<Seq<u8>>, u: Seq<u8>)
    ensures
        us.len() == 0 ==> resp_items(us.push(u)) == resp_item(u),
        us.len() > 0 ==> resp_items(us.push(u)) == resp_items(us) + seq![44u8] + resp_item(u),
    decreases us.len(),
{
    let p = us.push(u);
    if us.len() == 0 {
        assert(p.len() == 1);
        assert(p[0] == u);
    } else {
        assert(p[0] == us[0]);
        lemma_resp_items_push(us.drop_first(), u);
        assert(p.drop_first() =~= us.drop_first().push(u));
        if us.len() == 1 {
            assert(resp_items(us) == resp_item(us[0]));
        }
    }
}

/// The response to the caller for the given url contents, entries in order.
pub fn build_response_body(urls: &Vec<Vec<u8>>) -> (r: Vec<u8>)
    ensures
        r@ == response_body(urls@.map_values(|u: Vec<u8>| u@)),
{
    let ghost uspec = urls@.map_values(|u: Vec<u8>| u@);
    let mut v: Vec<u8> = Vec::new();
    v.push(123);
    v.push(34);
    v.push(100);
    v.push(97);
    v.push(116);
    v.push(97);
    v.push(34);
    v.push(58);
    v.push(91);
    let ghost opened = v@;
    proof {
        assert(uspec.take(0) =~= Seq::<Seq<u8>>::empty());
        assert(v@ =~= opened + resp_items(uspec.take(0)));
    }
    let n: usize = urls.len();
    let mut k: usize = 0;
    while k < n
        invariant
            k <= n,
            n == urls@.len(),
            uspec == urls@.map_values(|u: Vec<u8>| u@),
            v@ == opened + resp_items(uspec.take(k as int)),
        decreases n - k,
    {
        if k > 0 {
            v.push(44);
        }
        v.push(123);
        v.push(34);
        v.push(117);
        v.push(114);
        v.push(108);
        v.push(34);
        v.push(58);
        v.push(34);
        append_bytes(&mut v, urls[k].as_slice());
        v.push(34);
        v.push(125);
        proof {
            lemma_resp_items_push(uspec.take(k as int), uspec[k as int]);
            assert(uspec.take(k as int + 1) =~= uspec.take(k as int).push(uspec[k as int]));
            assert(resp_item(uspec[k as int]) == seq![123u8, 34, 117, 114, 108, 34, 58, 34]
                + urls@[k as int]@ + seq![34u8, 125]);
            assert(v@ =~= opened + resp_items(uspec.take(k as int + 1)));
        }
        k = k + 1;
    }
    v.push(93);
    v.push(125);
    proof {
        assert(uspec.take(n as int) =~= uspec);
        assert(v@ =~= response_body(uspec));
    }
    v
}

/// The body of the client-error response as bytes.
pub fn bad_request_body_vec() -> (r: Vec<u8>)
    ensures
        r@ == bad_request_body(),
{
    let mut v: Vec<u8> = Vec::new();
    v.push(123);
    v.push(34);
    v.push(101);
    v.push(114);
    v.push(114);
    v.push(111);
    v.push(114);
    v.push(34);
    v.push(58);
    v.push(34);
    v.push(109);
    v.push(105);
    v.push(115);
    v.push(115);
    v.push(105);
    v.push(110);
    v.push(103);
    v.push(32);
    v.push(111);
    v.push(114);
    v.push(32);
    v.push(101);
    v.push(109);
    v.push(112);
    v.push(116);
    v.push(121);
    v.push(32);
    v.push(109);
    v.push(101);
    v.push(115);
    v.push(115);
    v.push(97);
    v.push(103);
    v.push(101);
    v.push(34);
    v.push(125);
    proof {
        assert(v@ =~= bad_request_body());
    }
    v
}

/// The body of the upstream-error response as bytes.
pub fn upstream_error_body_vec() -> (r: Vec<u8>)
    ensures
        r@ == upstream_error_body(),
{
    let mut v: Vec<u8> = Vec::new();
    v.push(123);
    v.push(34);
    v.push(101);
    v.push(114);
    v.push(114);
    v.push(111);
    v.push(114);
    v.push(34);
    v.push(58);
    v.push(34);
    v.push(105);
    v.push(109);
    v.push(97);
    v.push(103);
    v.push(101);
    v.push(32);
    v.push(103);
    v.push(101);
    v.push(110);
    v.push(101);
    v.push(114);
    v.push(97);
    v.push(116);
    v.push(105);
    v.push(111);
    v.push(110);
    v.push(32);
    v.push(102);
    v.push(97);
    v.push(105);
    v.push(108);
    v.push(101);
    v.push(100);
    v.push(34);
    v.push(125);
    proof {
        assert(v@ =~= upstream_error_body());
    }
    v
}

} // verus!
