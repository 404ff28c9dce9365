//! The signed demo cookie: `cct_demo=<tenant>.<signature>`, where the
//! signature is the unpadded URL-safe base64 of HMAC-SHA256 (from `hmac` and
//! `sha2`) over the tenant id.
use vstd::prelude::*;
use vstd::utf8::encode_utf8;
use vstd::string::StringExecFns;
use crate::codec::{base64url_decode, base64url_decoded, base64url_encode, base64url_encoded, is_base64url_char};
use crate::ids::{fresh_id, is_hyphenated_uuid_text, uuid_parses, uuid_text_accepted};
use crate::seqs::{first_match, lemma_first_match, lemma_first_match_at, lemma_first_match_none};
use crate::text::{chars_of, free_of, is_white, lemma_split_concat, lemma_split_free, split_char, split_on, string_of, trim_chars, trim_end_ws, trim_start_ws, trim_ws};

verus! {

/// The HMAC-SHA256 tag of `msg` under `key`.
pub uninterp spec fn hmac_sha256_tag(key: Seq<u8>, msg: Seq<u8>) -> Seq<u8>;

/// Calls `Hmac::<Sha256>::new_from_slice`, `Mac::update` and
/// `Mac::finalize`. The tag is named `hmac_sha256_tag`; HMAC takes keys of
/// any length, so the key is always accepted.
#[verifier::external_body]
fn hmac_sha256(key: &[u8], msg: &[u8]) -> (tag: Vec<u8>)
    ensures
        tag@ == hmac_sha256_tag(key@, msg@),
{
    let mut mac = <hmac::Hmac<sha2::Sha256> as hmac::Mac>::new_from_slice(key).expect("HMAC accepts any key length");
    hmac::Mac::update(&mut mac, msg);
    hmac::Mac::finalize(mac).into_bytes().to_vec()
}

/// Calls `Mac::verify_slice` on an HMAC-SHA256 of `msg` under `key`: claims,
/// as the source shows, success exactly when `tag` is the whole tag.
#[verifier::external_body]
fn hmac_sha256_verify(key: &[u8], msg: &[u8], tag: &[u8]) -> (ok: bool)
    ensures
        ok == (tag@ == hmac_sha256_tag(key@, msg@)),
{
    match <hmac::Hmac<sha2::Sha256> as hmac::Mac>::new_from_slice(key) {
        Ok(mut mac) => {
            hmac::Mac::update(&mut mac, msg);
            hmac::Mac::verify_slice(mac, tag).is_ok()
        },
        Err(_) => false,
    }
}

/// The signed value for `tenant_id`: the id, a dot and the signature.
pub open spec fn signed_value(tenant_id: Seq<char>, key: Seq<u8>) -> Seq<char> {
    tenant_id + "."@ + base64url_encoded(hmac_sha256_tag(key, encode_utf8(tenant_id)))
}

/// Position of the last `c` in `s`.
pub open spec fn last_index_of(s: Seq<char>, c: char) -> Option<int>
    decreases s.len(),
{
    if s.len() == 0 {
        None
    } else if s.last() == c {
        Some(s.len() - 1)
    } else {
        last_index_of(s.drop_last(), c)
    }
}

/// The tenant id that signed value `value` carries under `key`: split at the
/// last dot, the id must parse as a UUID and the signature must decode to
/// its HMAC.
pub open spec fn verified_value(value: Seq<char>, key: Seq<u8>) -> Option<Seq<char>> {
    match last_index_of(value, '.') {
        None => None,
        Some(d) => {
            let tenant = value.take(d);
            if !uuid_text_accepted(tenant) {
                None
            } else {
                match base64url_decoded(value.skip(d + 1)) {
                    None => None,
                    Some(tag) => if tag == hmac_sha256_tag(key, encode_utf8(tenant)) { Some(tenant) } else { None },
                }
            }
        },
    }
}

pub proof fn lemma_last_index_of(s: Seq<char>, c: char)
    ensures
        match last_index_of(s, c) {
            Some(d) => 0 <= d < s.len() && s[d] == c && forall|j: int| d < j < s.len() ==> s[j] != c,
            None => forall|j: int| 0 <= j < s.len() ==> s[j] != c,
        },
    decreases s.len(),
{
    if s.len() > 0 && s.last() != c {
        let t = s.drop_last();
        lemma_last_index_of(t, c);
        match last_index_of(t, c) {
            Some(d) => {
                assert(s[d] == t[d]);
                assert forall|j: int| d < j < s.len() implies s[j] != c by {
                    if j < s.len() - 1 {
                        assert(s[j] == t[j]);
                    }
                }
            },
            None => {
                assert forall|j: int| 0 <= j < s.len() implies s[j] != c by {
                    if j < s.len() - 1 {
                        assert(s[j] == t[j]);
                    }
                }
            },
        }
    }
}

/// Position of the last `c` in `cs`.
fn find_last(cs: &Vec<char>, c: char) -> (r: Option<usize>)
    ensures
        match r {
            Some(d) => last_index_of(cs@, c) == Some(d as int),
            None => last_index_of(cs@, c) is None,
        },
{
    let mut n: usize = cs.len();
    proof {
        assert(cs@.take(n as int) =~= cs@);
    }
    while n > 0
        invariant
            n <= cs@.len(),
            last_index_of(cs@.take(n as int), c) == last_index_of(cs@, c),
        decreases n,
    {
        proof {
            assert(cs@.take(n as int).drop_last() =~= cs@.take(n - 1));
        }
        if cs[n - 1] == c {
            return Some(n - 1);
        }
        n = n - 1;
    }
    None
}

/// The characters of `cs` from `a` up to `b`.
fn slice_chars(cs: &Vec<char>, a: usize, b: usize) -> (r: Vec<char>)
    requires
        a <= b <= cs@.len(),
    ensures
        r@ == cs@.subrange(a as int, b as int),
{
    let mut r: Vec<char> = Vec::new();
    let mut k: usize = a;
    while k < b
        invariant
            a <= k <= b <= cs@.len(),
            r@ == cs@.subrange(a as int, k as int),
        decreases b - k,
    {
        r.push(cs[k]);
        proof {
            assert(cs@.subrange(a as int, k + 1) =~= cs@.subrange(a as int, k as int).push(cs@[k as int]));
        }
        k = k + 1;
    }
    r
}

/// The signed value for `tenant_id` under `key`. Whenever `Uuid::parse_str`
/// accepts `tenant_id`, `verify` gives it back from this value.
pub fn sign(tenant_id: &str, key: &[u8]) -> (s: String)
    ensures
        s@ == signed_value(tenant_id@, key@),
        uuid_text_accepted(tenant_id@) ==> verified_value(s@, key@) == Some(tenant_id@),
        free_of(tenant_id@, ';') ==> free_of(s@, ';'),
        s@.len() > 0 && !is_white(s@.last()),
{
    let tag = hmac_sha256(key, tenant_id.as_bytes());
    let signature = base64url_encode(tag.as_slice());
    let mut s = tenant_id.to_owned();
    s.append(".");
    s.append(signature.as_str());
    proof {
        reveal_strlit(".");
        let t = tenant_id@;
        let sv = s@;
        assert(sv =~= t + "."@ + signature@);
        let d = t.len() as int;
        assert forall|j: int| d < j < sv.len() implies sv[j] != '.' by {
            assert(sv[j] == signature@[j - d - 1]);
            assert(is_base64url_char(signature@[j - d - 1]));
        }
        assert(sv[d] == '.');
        lemma_last_index_of(sv, '.');
        match last_index_of(sv, '.') {
            Some(e) => {
                if e < d {
                    assert(sv[d] != '.');
                } else if e > d {
                    assert(sv[e] != '.');
                }
            },
            None => {
                assert(sv[d] != '.');
            },
        }
        assert(sv.take(d) =~= t);
        assert(sv.skip(d + 1) =~= signature@);
        if free_of(t, ';') {
            assert forall|j: int| 0 <= j < sv.len() implies sv[j] != ';' by {
                if j < d {
                    assert(sv[j] == t[j]);
                } else if j > d {
                    assert(sv[j] == signature@[j - d - 1]);
                    assert(is_base64url_char(signature@[j - d - 1]));
                }
            }
        }
        if sv.len() - 1 > d {
            assert(is_base64url_char(signature@[sv.len() - 1 - d - 1]));
        }
    }
    s
}

/// The tenant id that signed value `value` carries under `key`, if the
/// signature is valid.
pub fn verify(value: &str, key: &[u8]) -> (r: Option<String>)
    ensures
        match r {
            Some(t) => verified_value(value@, key@) == Some(t@),
            None => verified_value(value@, key@) is None,
        },
{
    let cs = chars_of(value);
    let d = match find_last(&cs, '.') {
        Some(d) => d,
        None => return None,
    };
    proof {
        lemma_last_index_of(cs@, '.');
    }
    let tenant_chars = slice_chars(&cs, 0, d);
    let signature_chars = slice_chars(&cs, d + 1, cs.len());
    let tenant = string_of(tenant_chars.as_slice());
    let signature = string_of(signature_chars.as_slice());
    proof {
        assert(tenant@ =~= value@.take(d as int));
        assert(signature@ =~= value@.skip(d + 1));
    }
    if !uuid_parses(tenant.as_str()) {
        return None;
    }
    let tag = match base64url_decode(signature.as_str()) {
        Some(t) => t,
        None => return None,
    };
    if hmac_sha256_verify(key, tenant.as_str().as_bytes(), tag.as_slice()) {
        Some(tenant)
    } else {
        None
    }
}

/// An equals sign.
pub open spec fn equals_sign() -> spec_fn(char) -> bool {
    |c: char| c == '='
}

/// Cookie pieces that name the demo cookie.
pub open spec fn demo_piece_pred() -> spec_fn(Seq<char>) -> bool {
    |p: Seq<char>| names_demo_cookie(p)
}

/// Whether trimmed cookie piece `part` is `name=value` with name `cct_demo`.
pub open spec fn names_demo_cookie(part: Seq<char>) -> bool {
    let t = trim_ws(part);
    match first_match(t, equals_sign()) {
        Some(e) => t.take(e) == "cct_demo"@,
        None => false,
    }
}

/// The value of a `cct_demo` cookie piece.
pub open spec fn demo_cookie_value(part: Seq<char>) -> Seq<char> {
    let t = trim_ws(part);
    match first_match(t, equals_sign()) {
        Some(e) => t.skip(e + 1),
        None => t,
    }
}

/// The value of the first `cct_demo` cookie in `Cookie` header text `cookies`.
pub open spec fn demo_cookie(cookies: Seq<char>) -> Option<Seq<char>> {
    let parts = split_char(cookies, ';');
    match first_match(parts, demo_piece_pred()) {
        Some(i) => Some(demo_cookie_value(parts[i])),
        None => None,
    }
}

/// The tenant that a `Cookie` header proves, if any.
pub open spec fn verified_tenant_spec(cookie_header: Option<Seq<char>>, key: Seq<u8>) -> Option<Seq<char>> {
    match cookie_header {
        None => None,
        Some(h) => match demo_cookie(h) {
            None => None,
            Some(v) => verified_value(v, key),
        },
    }
}

/// The text of an optional header value.
pub open spec fn header_text(h: Option<&str>) -> Option<Seq<char>> {
    match h {
        Some(t) => Some(t@),
        None => None,
    }
}

/// The `cct_demo` piece of a cookie header: whether `part` names it, and the value.
fn demo_piece(part: &str) -> (r: Option<String>)
    ensures
        match r {
            Some(v) => names_demo_cookie(part@) && v@ == demo_cookie_value(part@),
            None => !names_demo_cookie(part@),
        },
{
    let t = trim_chars(part);
    let ghost is_eq = equals_sign();
    let mut e: usize = 0;
    while e < t.len() && t[e] != '='
        invariant
            e <= t@.len(),
            forall|j: int| 0 <= j < e ==> !is_eq(#[trigger] t@[j]),
            is_eq == equals_sign(),
        decreases t@.len() - e,
    {
        e = e + 1;
    }
    if e == t.len() {
        proof {
            lemma_first_match_none(t@, is_eq);
        }
        return None;
    }
    proof {
        lemma_first_match_at(t@, is_eq, e as int);
        reveal_strlit("cct_demo");
    }
    let name = slice_chars(&t, 0, e);
    let expected = chars_of("cct_demo");
    proof {
        assert(name@ =~= t@.take(e as int));
    }
    if !crate::text::same_chars(&name, &expected) {
        return None;
    }
    let value = slice_chars(&t, e + 1, t.len());
    proof {
        assert(value@ =~= t@.skip(e + 1));
    }
    Some(string_of(value.as_slice()))
}

/// A first piece free of `;`, followed by nothing or by `;` and more, is
/// the first piece of the split.
proof fn lemma_leading_piece(x: Seq<char>, after: Seq<char>)
    requires
        free_of(x, ';'),
        after.len() == 0 || after[0] == ';',
    ensures
        split_char(x + after, ';').len() >= 1,
        split_char(x + after, ';')[0] == x,
{
    lemma_split_free(x, ';');
    if after.len() == 0 {
        assert(x + after =~= x);
    } else {
        assert(x + after =~= x + seq![';'] + after.skip(1));
        lemma_split_concat(x, after.skip(1), ';');
        crate::text::lemma_split_nonempty(after.skip(1), ';');
        assert((seq![x] + split_char(after.skip(1), ';'))[0] == x);
    }
}

/// `cct_demo=<v>`, after at most one space, names the demo cookie and
/// carries `v`, when `v` ends in a character that is not white space.
proof fn lemma_names_pair(lead: Seq<char>, v: Seq<char>)
    requires
        lead.len() == 0 || lead == seq![' '],
        v.len() > 0,
        !is_white(v.last()),
    ensures
        names_demo_cookie(lead + "cct_demo="@ + v),
        demo_cookie_value(lead + "cct_demo="@ + v) == v,
{
    reveal_strlit("cct_demo=");
    reveal_strlit("cct_demo");
    let y = "cct_demo="@ + v;
    let x = lead + y;
    assert(lead + "cct_demo="@ + v =~= x);
    assert(y[0] == 'c');
    assert(!is_white(y[0]));
    assert(trim_start_ws(y) == y);
    if lead.len() > 0 {
        assert(x.skip(1) =~= y);
        assert(is_white(x[0]));
        assert(trim_start_ws(x) == trim_start_ws(x.skip(1)));
    } else {
        assert(x =~= y);
    }
    assert(y.last() == v.last());
    assert(trim_end_ws(y) == y);
    assert(trim_ws(x) == y);
    assert forall|j: int| 0 <= j < 8 implies !(equals_sign())(#[trigger] y[j]) by {
        assert(y[j] == "cct_demo="@[j]);
    }
    assert((equals_sign())(y[8]));
    lemma_first_match_at(y, equals_sign(), 8);
    assert(y.take(8) =~= "cct_demo"@);
    assert(y.skip(9) =~= v);
    assert(names_demo_cookie(x));
    assert(demo_cookie_value(x) == v);
}

/// The demo cookie reads back from a `Cookie` header: a header that carries
/// `cct_demo=<v>` first, or after other `name=value` pairs (none named
/// `cct_demo`) and `; `, followed by nothing or by `;` and more pairs,
/// proves what `v` proves. The value that `sign` makes for a tenant id
/// without `;` meets every condition on `v`, and for a UUID tenant id it
/// proves that tenant (both as `sign` ensures), so the cookie that
/// `set_cookie_value` sets reads back as its tenant.
pub proof fn lemma_cookie_header_round_trip(before: Seq<char>, v: Seq<char>, after: Seq<char>, key: Seq<u8>)
    requires
        v.len() > 0,
        free_of(v, ';'),
        !is_white(v.last()),
        forall|j: int| 0 <= j < split_char(before, ';').len() ==> !names_demo_cookie(#[trigger] split_char(before, ';')[j]),
        after.len() == 0 || after[0] == ';',
    ensures
        verified_tenant_spec(Some("cct_demo="@ + v + after), key) == verified_value(v, key),
        verified_tenant_spec(Some(before + "; cct_demo="@ + v + after), key) == verified_value(v, key),
{
    reveal_strlit("cct_demo=");
    reveal_strlit("; cct_demo=");
    let pair = "cct_demo="@ + v;
    let spaced = seq![' '] + pair;
    assert(free_of(pair, ';')) by {
        assert forall|i: int| 0 <= i < pair.len() implies pair[i] != ';' by {
            if i >= 9 {
                assert(pair[i] == v[i - 9]);
            }
        }
    }
    assert(free_of(spaced, ';')) by {
        assert forall|i: int| 0 <= i < spaced.len() implies spaced[i] != ';' by {
            if i >= 1 {
                assert(spaced[i] == pair[i - 1]);
            }
        }
    }
    lemma_names_pair(Seq::<char>::empty(), v);
    assert(Seq::<char>::empty() + "cct_demo="@ + v =~= pair);
    lemma_names_pair(seq![' '], v);
    assert(seq![' '] + "cct_demo="@ + v =~= spaced);
    let p = demo_piece_pred();

    let h1 = "cct_demo="@ + v + after;
    assert(h1 =~= pair + after);
    lemma_leading_piece(pair, after);
    lemma_first_match_at(split_char(h1, ';'), p, 0);

    let h2 = before + "; cct_demo="@ + v + after;
    let tail = spaced + after;
    assert(h2 =~= before + seq![';'] + tail);
    lemma_split_concat(before, tail, ';');
    lemma_leading_piece(spaced, after);
    let sb = split_char(before, ';');
    let pieces = split_char(h2, ';');
    assert(pieces == sb + split_char(tail, ';'));
    assert(pieces[sb.len() as int] == spaced);
    assert forall|j: int| 0 <= j < sb.len() implies !p(#[trigger] pieces[j]) by {
        assert(pieces[j] == sb[j]);
    }
    lemma_first_match_at(pieces, p, sb.len() as int);
}

/// The tenant that the `Cookie` header text `cookie_header` proves under
/// `key`, if any: the first `cct_demo` cookie, checked by `verify`.
pub fn verified_tenant(cookie_header: Option<&str>, key: &[u8]) -> (r: Option<String>)
    ensures
        match r {
            Some(t) => verified_tenant_spec(header_text(cookie_header), key@) == Some(t@),
            None => verified_tenant_spec(header_text(cookie_header), key@) is None,
        },
{
    let cookies = match cookie_header {
        Some(h) => h,
        None => return None,
    };
    let parts = split_on(cookies, ';');
    let ghost pieces = split_char(cookies@, ';');
    let ghost p = demo_piece_pred();
    let mut i: usize = 0;
    while i < parts.len()
        invariant
            pieces == split_char(cookies@, ';'),
            header_text(cookie_header) == Some(cookies@),
            p == demo_piece_pred(),
            parts@.len() == pieces.len(),
            forall|k: int| 0 <= k < parts@.len() ==> #[trigger] parts@[k]@ == pieces[k],
            i <= parts@.len(),
            forall|k: int| 0 <= k < i ==> !p(#[trigger] pieces[k]),
        decreases parts@.len() - i,
    {
        match demo_piece(parts[i].as_str()) {
            Some(v) => {
                proof {
                    lemma_first_match_at(pieces, p, i as int);
                    assert(demo_cookie(cookies@) == Some(demo_cookie_value(pieces[i as int])));
                }
                let r = verify(v.as_str(), key);
                return r;
            },
            None => {},
        }
        i = i + 1;
    }
    proof {
        lemma_first_match_none(pieces, p);
    }
    None
}

/// The proven tenant and `false`, or a fresh random tenant id and `true`
/// (a new cookie is then owed).
pub fn tenant_from_headers_or_new(cookie_header: Option<&str>, key: &[u8]) -> (r: (String, bool))
    ensures
        match verified_tenant_spec(header_text(cookie_header), key@) {
            Some(t) => r.0@ == t && !r.1,
            None => r.1 && is_hyphenated_uuid_text(r.0@) && uuid_text_accepted(r.0@),
        },
{
    match verified_tenant(cookie_header, key) {
        Some(id) => (id, false),
        None => (fresh_id(), true),
    }
}

/// The `Set-Cookie` value for a demo tenant: a day-long, HTTP-only,
/// same-site cookie, marked secure when served over HTTPS.
pub open spec fn set_cookie_text(tenant_id: Seq<char>, key: Seq<u8>, secure: bool) -> Seq<char> {
    "cct_demo="@ + signed_value(tenant_id, key) + "; Path=/; HttpOnly; SameSite=Strict; Max-Age=86400"@
        + (if secure { "; Secure"@ } else { Seq::<char>::empty() })
}

/// The `Set-Cookie` value that stores the signed `tenant_id`.
pub fn set_cookie_value(tenant_id: &str, key: &[u8], secure: bool) -> (s: String)
    ensures
        s@ == set_cookie_text(tenant_id@, key@, secure),
{
    let mut s = "cct_demo=".to_owned();
    let signed = sign(tenant_id, key);
    s.append(signed.as_str());
    s.append("; Path=/; HttpOnly; SameSite=Strict; Max-Age=86400");
    if secure {
        s.append("; Secure");
    }
    proof {
        assert(s@ =~= set_cookie_text(tenant_id@, key@, secure));
    }
    s
}

} // verus!
