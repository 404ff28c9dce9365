//! Random identifiers, drawn from `uuid`.
use vstd::prelude::*;

verus! {

#[verifier::external_type_specification]
#[verifier::external_body]
pub struct ExUuid(uuid::Uuid);

/// Whether `Uuid::parse_str` accepts `text`.
pub uninterp spec fn uuid_text_accepted(text: Seq<char>) -> bool;

pub open spec fn is_lower_hex_digit(c: char) -> bool {
    ('0' <= c && c <= '9') || ('a' <= c && c <= 'f')
}

/// The hyphenated lowercase form `xxxxxxxx-xxxx-xxxx-xxxx-xxxxxxxxxxxx`.
pub open spec fn is_hyphenated_uuid_text(s: Seq<char>) -> bool {
    &&& s.len() == 36
    &&& forall|i: int|
        0 <= i < 36 ==> if i == 8 || i == 13 || i == 18 || i == 23 {
            s[i] == '-'
        } else {
            is_lower_hex_digit(#[trigger] s[i])
        }
}

/// The simple lowercase form: 32 hexadecimal digits.
pub open spec fn is_simple_uuid_text(s: Seq<char>) -> bool {
    &&& s.len() == 32
    &&& forall|i: int| 0 <= i < 32 ==> is_lower_hex_digit(#[trigger] s[i])
}

/// Calls `uuid::Uuid::new_v4`. The UUID is random: nothing is claimed of it.
#[verifier::external_body]
fn new_v4() -> uuid::Uuid {
    uuid::Uuid::new_v4()
}

/// Renders a UUID through its `Display` impl (`to_string`). Claims, as the
/// crate documents, the hyphenated lowercase form, and that
/// `Uuid::parse_str` accepts that form back.
#[verifier::external_body]
fn hyphenated(u: &uuid::Uuid) -> (s: String)
    ensures
        is_hyphenated_uuid_text(s@),
        uuid_text_accepted(s@),
{
    u.to_string()
}

/// Renders a UUID through `Uuid::simple`: claims 32 lowercase hex digits.
#[verifier::external_body]
fn simple(u: &uuid::Uuid) -> (s: String)
    ensures
        is_simple_uuid_text(s@),
{
    u.simple().to_string()
}

/// Calls `uuid::Uuid::parse_str` and reports whether it succeeded; the
/// verdict is named `uuid_text_accepted`.
#[verifier::external_body]
pub(crate) fn uuid_parses(text: &str) -> (ok: bool)
    ensures
        ok == uuid_text_accepted(text@),
{
    uuid::Uuid::parse_str(text).is_ok()
}

/// A fresh random identifier in hyphenated UUID form.
pub fn fresh_id() -> (s: String)
    ensures
        is_hyphenated_uuid_text(s@),
        uuid_text_accepted(s@),
{
    let u = new_v4();
    hyphenated(&u)
}

/// `prefix` followed by a fresh random UUID in simple form.
pub fn opaque_id(prefix: &str) -> (s: String)
    ensures
        s@.len() == prefix@.len() + 32,
        s@.subrange(0, prefix@.len() as int) == prefix@,
        is_simple_uuid_text(s@.subrange(prefix@.len() as int, s@.len() as int)),
{
    let u = new_v4();
    let tail = simple(&u);
    let mut out = prefix.to_owned();
    out.append(tail.as_str());
    proof {
        assert(out@.subrange(0, prefix@.len() as int) =~= prefix@);
        assert(out@.subrange(prefix@.len() as int, out@.len() as int) =~= tail@);
    }
    out
}

} // verus!
