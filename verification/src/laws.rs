//! Laws of the wire formats: the response the proxy emits for a set of urls
//! parses back to exactly those urls, in order, so a well-shaped provider
//! reply with N entries yields a response with the same N entries; and the
//! generation request it emits carries the message verbatim as its prompt.

use vstd::prelude::*;
use crate::scan::{
    ws_end, str_end, digits_end, num_end, frac_end, exp_end, value_end, key_eq, obj_scan,
    NEST_LIMIT, QUOTE, BACKSLASH, RBRACE, RBRACK,
};
use crate::wire::{
    url_key, data_key, url_list, reply_scan, reply_urls, resp_item, resp_items, response_body,
    prompt_key, prompt_of, gen_prefix, gen_suffix, generation_body,
};

verus! {

/// Bytes that sit in a string body unchanged: no quote, no backslash, no
/// control byte.
pub open spec fn plain_bytes(u: Seq<u8>) -> bool {
    forall|k: int| 0 <= k < u.len() ==> u[k] != QUOTE && u[k] != BACKSLASH && u[k] >= 32
}

/// A string body of plain bytes ends at its closing quote.
proof fn lemma_str_end_clean(s: Seq<u8>, i: int, e: int)
    requires
        0 <= i <= e < s.len(),
        forall|k: int| i <= k < e ==> s[k] != QUOTE && s[k] != BACKSLASH && s[k] >= 32,
        s[e] == QUOTE,
    ensures
        str_end(s, i) == Some(e + 1),
    decreases e - i,
{
    if i < e {
        lemma_str_end_clean(s, i + 1, e);
    }
}

/// For a name without escape sequences, decoded equality to a key is plain
/// byte equality.
proof fn lemma_key_eq_plain(s: Seq<u8>, key: Seq<u8>)
    requires
        forall|k: int| 0 <= k < s.len() ==> s[k] != BACKSLASH,
    ensures
        key_eq(s, key) == (s == key),
    decreases s.len(),
{
    if s.len() == 0 {
        if key.len() == 0 {
            assert(s =~= key);
        }
    } else {
        assert(s[0] != BACKSLASH);
        if key.len() > 0 {
            assert forall|k: int| 0 <= k < s.skip(1).len() implies s.skip(1)[k]
                != BACKSLASH by {
                assert(s.skip(1)[k] == s[k + 1]);
            }
            lemma_key_eq_plain(s.skip(1), key.skip(1));
            if s[0] == key[0] && s.skip(1) == key.skip(1) {
                assert forall|m: int| 0 <= m < s.len() implies s[m] == key[m] by {
                    if m > 0 {
                        assert(s.skip(1)[m - 1] == key.skip(1)[m - 1]);
                    }
                }
                assert(s =~= key);
            }
            if s == key {
                assert(s.skip(1) =~= key.skip(1));
            }
        }
    }
}

/// Scanning an emitted response entry recovers its url.
proof fn lemma_url_obj_round(s: Seq<u8>, i: int, u: Seq<u8>)
    requires
        plain_bytes(u),
        0 <= i,
        i + 10 + u.len() <= s.len(),
        s.subrange(i, i + 10 + u.len()) == resp_item(u),
    ensures
        obj_scan(s, i + 1, url_key(), None, true) == Some((Some(u), i + 10 + u.len())),
{
    assert forall|k: int| i <= k < i + 10 + u.len() implies #[trigger] s[k] == resp_item(
        u,
    )[k - i] by {
        assert(s.subrange(i, i + 10 + u.len())[k - i] == s[k]);
    }
    assert(s[i + 1] == QUOTE);
    assert(ws_end(s, i + 1) == i + 1);
    assert(s[i + 2] == 117 && s[i + 3] == 114 && s[i + 4] == 108 && s[i + 5] == QUOTE);
    lemma_str_end_clean(s, i + 2, i + 5);
    assert(s.subrange(i + 2, i + 5) =~= url_key());
    let uk = url_key();
    assert forall|k: int| 0 <= k < uk.len() implies uk[k] != BACKSLASH by {}
    lemma_key_eq_plain(uk, url_key());
    assert(s[i + 6] == 58);
    assert(ws_end(s, i + 6) == i + 6);
    assert(s[i + 7] == QUOTE);
    assert(ws_end(s, i + 7) == i + 7);
    assert forall|k: int| i + 8 <= k < i + 8 + u.len() implies s[k] != QUOTE && s[k]
        != BACKSLASH && s[k] >= 32 by {
        assert(s[k] == resp_item(u)[k - i]);
        assert(resp_item(u)[k - i] == u[k - i - 8]);
    }
    assert(s[i + 8 + u.len()] == QUOTE);
    lemma_str_end_clean(s, i + 8, i + 8 + u.len());
    assert(s.subrange(i + 8, i + 8 + u.len()) =~= u);
    assert(s[i + 9 + u.len()] == RBRACE);
    assert(ws_end(s, i + 9 + u.len()) == i + 9 + u.len());
    assert(obj_scan(s, i + 1, url_key(), None, true) == Some((Some(u), i + 10 + u.len())));
}

/// Scanning the emitted entries from the opening of the array recovers all
/// the urls, in order, ending just past the closing bracket.
#[verifier::rlimit(80)]
proof fn lemma_url_list_round(
    s: Seq<u8>,
    i: int,
    urls: Seq<Seq<u8>>,
    acc: Seq<Seq<u8>>,
    first: bool,
)
    requires
        forall|k: int| 0 <= k < urls.len() ==> plain_bytes(#[trigger] urls[k]),
        0 <= i <= s.len(),
        s.subrange(i, s.len() as int) == resp_items(urls) + seq![RBRACK, RBRACE],
        urls.len() == 0 ==> first,
    ensures
        url_list(s, i, acc, first) == Some((acc + urls, s.len() - 1)),
    decreases urls.len(),
{
    let tail = resp_items(urls) + seq![RBRACK, RBRACE];
    assert forall|k: int| i <= k < s.len() implies #[trigger] s[k] == tail[k - i] by {
        assert(s.subrange(i, s.len() as int)[k - i] == s[k]);
    }
    assert(s.len() - i == tail.len());
    if urls.len() == 0 {
        assert(resp_items(urls) == Seq::<u8>::empty());
        assert(s[i] == tail[0]);
        assert(s[i] == RBRACK);
        assert(ws_end(s, i) == i);
        assert(i == s.len() - 2);
        assert(acc + urls =~= acc);
    } else {
        let u0 = urls[0];
        let itemlen = 10 + u0.len();
        assert(resp_item(u0).len() == itemlen);
        if urls.len() == 1 {
            assert(resp_items(urls) == resp_item(u0));
        } else {
            assert(resp_items(urls) == resp_item(u0) + seq![44u8] + resp_items(
                urls.drop_first(),
            ));
        }
        assert(s[i] == tail[0]);
        assert(s[i] == 123);
        assert(ws_end(s, i) == i);
        assert(s.subrange(i, i + itemlen) =~= resp_item(u0)) by {
            assert forall|m: int| 0 <= m < itemlen implies s.subrange(i, i + itemlen)[m]
                == resp_item(u0)[m] by {
                assert(s[i + m] == tail[i + m - i]);
            }
        }
        lemma_url_obj_round(s, i, u0);
        let e0 = i + itemlen;
        if urls.len() == 1 {
            assert(s[e0] == tail[e0 - i]);
            assert(s[e0] == RBRACK);
            assert(ws_end(s, e0) == e0);
            assert(e0 == s.len() - 2);
            assert(acc.push(u0) =~= acc + urls);
        } else {
            let rest = urls.drop_first();
            assert(s[e0] == tail[e0 - i]);
            assert(s[e0] == 44);
            assert(ws_end(s, e0) == e0);
            assert(s.subrange(e0 + 1, s.len() as int) =~= resp_items(rest) + seq![
                RBRACK,
                RBRACE,
            ]) by {
                assert forall|m: int| 0 <= m < s.len() - e0 - 1 implies s.subrange(
                    e0 + 1,
                    s.len() as int,
                )[m] == (resp_items(rest) + seq![RBRACK, RBRACE])[m] by {
                    assert(s[e0 + 1 + m] == tail[e0 + 1 + m - i]);
                }
            }
            assert forall|k: int| 0 <= k < rest.len() implies plain_bytes(
                #[trigger] rest[k],
            ) by {
                assert(rest[k] == urls[k + 1]);
            }
            lemma_url_list_round(s, e0 + 1, rest, acc.push(u0), false);
            assert(acc.push(u0) + rest =~= acc + urls);
        }
    }
}

/// The entries of the response the proxy emits are exactly the urls it was
/// given, in the same order: parsing the emitted response as a reply
/// recovers them. So a well-shaped provider reply with N entries yields a
/// response with N entries, in the reply's order.
pub proof fn lemma_response_round_trip(urls: Seq<Seq<u8>>)
    requires
        forall|k: int| 0 <= k < urls.len() ==> plain_bytes(#[trigger] urls[k]),
    ensures
        reply_urls(response_body(urls)) == Some(urls),
{
    let s = response_body(urls);
    let items = resp_items(urls);
    assert(s.len() == 11 + items.len());
    assert forall|m: int| 0 <= m < 9 implies s[m] == seq![123u8, 34, 100, 97, 116, 97, 34,
        58, 91][m] by {}
    assert(s[0] == 123);
    assert(ws_end(s, 0) == 0);
    assert(s[1] == QUOTE);
    assert(ws_end(s, 1) == 1);
    assert(s[2] == 100 && s[3] == 97 && s[4] == 116 && s[5] == 97 && s[6] == QUOTE);
    lemma_str_end_clean(s, 2, 6);
    assert(s.subrange(2, 6) =~= data_key());
    let dk = data_key();
    assert forall|k: int| 0 <= k < dk.len() implies dk[k] != BACKSLASH by {}
    lemma_key_eq_plain(dk, data_key());
    assert(s[7] == 58);
    assert(ws_end(s, 7) == 7);
    assert(s[8] == 91);
    assert(ws_end(s, 8) == 8);
    assert(s.subrange(9, s.len() as int) =~= items + seq![RBRACK, RBRACE]);
    lemma_url_list_round(s, 9, urls, Seq::empty(), true);
    assert(Seq::empty() + urls =~= urls);
    assert(s[s.len() - 1] == RBRACE);
    assert(ws_end(s, s.len() - 1) == s.len() - 1);
    assert(reply_scan(s, 1, None, true) == Some((Some(urls), s.len() as int)));
    assert(ws_end(s, s.len() as int) == s.len() as int);
    assert(reply_urls(s) == Some(urls));
}

/// The generation request the proxy emits for a message carries the message
/// verbatim: it is one well-formed object whose `prompt` member reads back
/// as exactly the message bytes.
#[verifier::rlimit(80)]
pub proof fn lemma_generation_round_trip(m: Seq<u8>)
    requires
        plain_bytes(m),
    ensures
        prompt_of(generation_body(m)) == Some(m),
{
    let s = generation_body(m);
    let l = m.len() as int;
    assert(gen_prefix().len() == 30);
    assert(gen_suffix().len() == 27);
    assert(s.len() == 57 + l);
    assert forall|k: int| 0 <= k < 30 implies #[trigger] s[k] == gen_prefix()[k] by {}
    assert forall|k: int| 30 <= k < 30 + l implies #[trigger] s[k] == m[k - 30] by {}
    assert forall|k: int| 30 + l <= k < 57 + l implies #[trigger] s[k] == gen_suffix()[k - 30
        - l] by {}
    assert(ws_end(s, 0) == 0);
    // the member `"model":"dall-e-3"`, skipped
    assert(s[1] == QUOTE);
    assert(ws_end(s, 1) == 1);
    assert(s[7] == QUOTE);
    lemma_str_end_clean(s, 2, 7);
    let name_model = seq![109u8, 111, 100, 101, 108];
    assert(s.subrange(2, 7) =~= name_model);
    assert forall|k: int| 0 <= k < name_model.len() implies name_model[k] != BACKSLASH by {}
    lemma_key_eq_plain(name_model, prompt_key());
    assert(prompt_key().len() == 6);
    assert(s[8] == 58);
    assert(ws_end(s, 8) == 8);
    assert(s[9] == QUOTE);
    assert(ws_end(s, 9) == 9);
    assert(s[18] == QUOTE);
    lemma_str_end_clean(s, 10, 18);
    assert(value_end(s, 9, NEST_LIMIT as int) == Some(19int));
    assert(s[19] == 44);
    assert(ws_end(s, 19) == 19);
    // the member `"prompt":"<message>"`, captured
    assert(s[20] == QUOTE);
    assert(ws_end(s, 20) == 20);
    assert(s[27] == QUOTE);
    lemma_str_end_clean(s, 21, 27);
    assert(s.subrange(21, 27) =~= prompt_key());
    let pk = prompt_key();
    assert forall|k: int| 0 <= k < pk.len() implies pk[k] != BACKSLASH by {}
    lemma_key_eq_plain(pk, prompt_key());
    assert(s[28] == 58);
    assert(ws_end(s, 28) == 28);
    assert(s[29] == QUOTE);
    assert(ws_end(s, 29) == 29);
    assert forall|k: int| 30 <= k < 30 + l implies s[k] != QUOTE && s[k] != BACKSLASH && s[k]
        >= 32 by {
        assert(s[k] == m[k - 30]);
    }
    assert(s[30 + l] == QUOTE);
    lemma_str_end_clean(s, 30, 30 + l);
    assert(s.subrange(30, 30 + l) =~= m);
    assert(s[31 + l] == 44);
    assert(ws_end(s, 31 + l) == 31 + l);
    // the member `"n":1`, skipped
    assert(s[32 + l] == QUOTE);
    assert(ws_end(s, 32 + l) == 32 + l);
    assert(s[33 + l] == 110);
    assert(s[34 + l] == QUOTE);
    lemma_str_end_clean(s, 33 + l, 34 + l);
    let name_n = seq![110u8];
    assert(s.subrange(33 + l, 34 + l) =~= name_n);
    assert forall|k: int| 0 <= k < name_n.len() implies name_n[k] != BACKSLASH by {}
    lemma_key_eq_plain(name_n, prompt_key());
    assert(s[35 + l] == 58);
    assert(ws_end(s, 35 + l) == 35 + l);
    assert(s[36 + l] == 49);
    assert(ws_end(s, 36 + l) == 36 + l);
    assert(s[37 + l] == 44);
    assert(digits_end(s, 37 + l) == 37 + l);
    assert(digits_end(s, 36 + l) == 37 + l);
    assert(exp_end(s, 37 + l) == Some(37 + l));
    assert(frac_end(s, 37 + l) == Some(37 + l));
    assert(num_end(s, 36 + l) == Some(37 + l));
    assert(value_end(s, 36 + l, NEST_LIMIT as int) == Some(37 + l));
    assert(ws_end(s, 37 + l) == 37 + l);
    // the member `"size":"1024x1024"`, skipped
    assert(s[38 + l] == QUOTE);
    assert(ws_end(s, 38 + l) == 38 + l);
    assert(s[43 + l] == QUOTE);
    lemma_str_end_clean(s, 39 + l, 43 + l);
    let name_size = seq![115u8, 105, 122, 101];
    assert(s.subrange(39 + l, 43 + l) =~= name_size);
    assert forall|k: int| 0 <= k < name_size.len() implies name_size[k] != BACKSLASH by {}
    lemma_key_eq_plain(name_size, prompt_key());
    assert(s[44 + l] == 58);
    assert(ws_end(s, 44 + l) == 44 + l);
    assert(s[45 + l] == QUOTE);
    assert(ws_end(s, 45 + l) == 45 + l);
    assert(s[55 + l] == QUOTE);
    lemma_str_end_clean(s, 46 + l, 55 + l);
    assert(value_end(s, 45 + l, NEST_LIMIT as int) == Some(56 + l));
    assert(s[56 + l] == RBRACE);
    assert(ws_end(s, 56 + l) == 56 + l);
    // roll the members up, last first
    assert(obj_scan(s, 38 + l, prompt_key(), Some(m), false) == Some((Some(m), 57 + l)));
    assert(obj_scan(s, 32 + l, prompt_key(), Some(m), false) == Some((Some(m), 57 + l)));
    assert(obj_scan(s, 20, prompt_key(), None, false) == Some((Some(m), 57 + l)));
    assert(obj_scan(s, 1, prompt_key(), None, true) == Some((Some(m), 57 + l)));
    assert(ws_end(s, 57 + l) == 57 + l);
    assert(prompt_of(s) == Some(m));
}

/// A reply with no entries yields exactly the empty-data response — an
/// empty array, not an error.
pub proof fn lemma_empty_response()
    ensures
        response_body(Seq::<Seq<u8>>::empty()) == seq![123u8, 34, 100, 97, 116, 97, 34, 58,
            91, 93, 125],
{
    assert(resp_items(Seq::<Seq<u8>>::empty()) == Seq::<u8>::empty());
    assert(response_body(Seq::<Seq<u8>>::empty()) =~= seq![123u8, 34, 100, 97, 116, 97, 34,
        58, 91, 93, 125]);
}

} // verus!
