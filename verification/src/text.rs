//! Character-level text helpers.
use vstd::prelude::*;
use vstd::std_specs::iter::IteratorSpec;

verus! {

broadcast use vstd::string::group_string_axioms;

/// The characters of `s`.
pub fn chars_of(s: &str) -> (r: Vec<char>)
    ensures
        r@ == s@,
{
    let mut it = s.chars();
    let mut r: Vec<char> = Vec::new();
    loop
        invariant
            r@ + it.remaining() == s@,
            it.obeys_prophetic_iter_laws(),
            it.decrease() is Some,
        decreases it.decrease()->0,
    {
        let ghost before = it.remaining();
        match it.next() {
            Some(c) => {
                r.push(c);
                proof {
                    assert(r@ + it.remaining() =~= s@);
                }
            },
            None => {
                proof {
                    assert(r@ =~= s@);
                }
                return r;
            },
        }
    }
}


/// Calls `String::push`: appends `c` to `s`.
#[verifier::external_body]
pub(crate) fn push_char(s: &mut String, c: char)
    ensures
        final(s)@ == old(s)@.push(c),
{
    s.push(c)
}

/// The string made of `cs`.
pub fn string_of(cs: &[char]) -> (r: String)
    ensures
        r@ == cs@,
{
    let mut r = String::new();
    let mut i: usize = 0;
    while i < cs.len()
        invariant
            i <= cs@.len(),
            r@ == cs@.take(i as int),
        decreases cs@.len() - i,
    {
        push_char(&mut r, cs[i]);
        proof {
            assert(cs@.take(i + 1) =~= cs@.take(i as int).push(cs@[i as int]));
        }
        i = i + 1;
    }
    proof {
        assert(cs@.take(i as int) =~= cs@);
    }
    r
}

/// The pieces of `s` between occurrences of `sep` (as `str::split` gives them).
pub open spec fn split_char(s: Seq<char>, sep: char) -> Seq<Seq<char>>
    decreases s.len(),
{
    if s.len() == 0 {
        seq![Seq::<char>::empty()]
    } else {
        let prev = split_char(s.drop_last(), sep);
        if s.last() == sep {
            prev.push(Seq::<char>::empty())
        } else {
            prev.update(prev.len() - 1, prev.last().push(s.last()))
        }
    }
}

pub open spec fn free_of(s: Seq<char>, c: char) -> bool {
    forall|i: int| 0 <= i < s.len() ==> s[i] != c
}

/// There is always at least one piece.
pub proof fn lemma_split_nonempty(s: Seq<char>, sep: char)
    ensures
        split_char(s, sep).len() >= 1,
    decreases s.len(),
{
    if s.len() > 0 {
        lemma_split_nonempty(s.drop_last(), sep);
    }
}

/// Appending text free of `sep` extends the last piece.
pub proof fn lemma_split_append_free(a: Seq<char>, b: Seq<char>, sep: char)
    requires
        free_of(b, sep),
    ensures
        split_char(a + b, sep) == split_char(a, sep).update(
            split_char(a, sep).len() - 1,
            split_char(a, sep).last() + b,
        ),
    decreases b.len(),
{
    lemma_split_nonempty(a, sep);
    if b.len() == 0 {
        assert(a + b =~= a);
        assert(split_char(a, sep).last() + b =~= split_char(a, sep).last());
        assert(split_char(a, sep).update(split_char(a, sep).len() - 1, split_char(a, sep).last()) =~= split_char(a, sep));
    } else {
        let b1 = b.drop_last();
        lemma_split_append_free(a, b1, sep);
        assert((a + b).drop_last() =~= a + b1);
        assert((a + b).last() == b.last());
        lemma_split_nonempty(a + b1, sep);
        let sa = split_char(a, sep);
        assert(split_char(a + b, sep) =~= sa.update(sa.len() - 1, sa.last() + b1).update(sa.len() - 1, (sa.last() + b1).push(b.last())));
        assert((sa.last() + b1).push(b.last()) =~= sa.last() + b);
    }
}

/// Appending `sep` and then text free of it adds that text as a new piece.
pub proof fn lemma_split_append_piece(a: Seq<char>, b: Seq<char>, sep: char)
    requires
        free_of(b, sep),
    ensures
        split_char(a + seq![sep] + b, sep) == split_char(a, sep).push(b),
{
    let a1 = a + seq![sep];
    assert(a1.drop_last() =~= a);
    assert(split_char(a1, sep) =~= split_char(a, sep).push(Seq::<char>::empty()));
    lemma_split_append_free(a1, b, sep);
    assert(Seq::<char>::empty() + b =~= b);
    assert(split_char(a, sep).push(Seq::<char>::empty()).update(split_char(a, sep).len() as int, b) =~= split_char(a, sep).push(b));
}

/// Joining two texts with `sep` joins their pieces.
pub proof fn lemma_split_concat(a: Seq<char>, b: Seq<char>, sep: char)
    ensures
        split_char(a + seq![sep] + b, sep) == split_char(a, sep) + split_char(b, sep),
    decreases b.len(),
{
    let a1 = a + seq![sep];
    let sa = split_char(a, sep);
    assert(a1.drop_last() =~= a);
    if b.len() == 0 {
        assert(a1 + b =~= a1);
        assert(split_char(b, sep) =~= seq![Seq::<char>::empty()]);
        assert(sa.push(Seq::<char>::empty()) =~= sa + seq![Seq::<char>::empty()]);
    } else {
        let b1 = b.drop_last();
        lemma_split_concat(a, b1, sep);
        assert((a1 + b).drop_last() =~= a1 + b1);
        assert((a1 + b).last() == b.last());
        lemma_split_nonempty(b1, sep);
        let sb1 = split_char(b1, sep);
        let c = b.last();
        if c == sep {
            assert((sa + sb1).push(Seq::<char>::empty()) =~= sa + sb1.push(Seq::<char>::empty()));
        } else {
            assert((sa + sb1).update((sa + sb1).len() - 1, (sa + sb1).last().push(c))
                =~= sa + sb1.update(sb1.len() - 1, sb1.last().push(c)));
        }
    }
}

/// Text free of `sep` is a single piece.
pub proof fn lemma_split_free(b: Seq<char>, sep: char)
    requires
        free_of(b, sep),
    ensures
        split_char(b, sep) == seq![b],
{
    lemma_split_append_free(Seq::<char>::empty(), b, sep);
    assert(Seq::<char>::empty() + b =~= b);
    assert(split_char(Seq::<char>::empty(), sep) =~= seq![Seq::<char>::empty()]);
    assert(seq![Seq::<char>::empty()].update(0, Seq::<char>::empty() + b) =~= seq![b]);
}

/// The pieces of `cs` between occurrences of `sep`.
pub fn split_chars(cs: &Vec<char>, sep: char) -> (r: Vec<Vec<char>>)
    ensures
        r@.len() == split_char(cs@, sep).len(),
        forall|i: int| 0 <= i < r@.len() ==> #[trigger] r@[i]@ == split_char(cs@, sep)[i],
{
    let mut parts: Vec<Vec<char>> = Vec::new();
    let mut cur: Vec<char> = Vec::new();
    let mut i: usize = 0;
    while i < cs.len()
        invariant
            i <= cs@.len(),
            parts@.len() + 1 == split_char(cs@.take(i as int), sep).len(),
            forall|k: int| 0 <= k < parts@.len() ==> #[trigger] parts@[k]@ == split_char(cs@.take(i as int), sep)[k],
            cur@ == split_char(cs@.take(i as int), sep).last(),
        decreases cs@.len() - i,
    {
        proof {
            assert(cs@.take(i + 1).drop_last() =~= cs@.take(i as int));
            lemma_split_nonempty(cs@.take(i as int), sep);
        }
        let c = cs[i];
        if c == sep {
            parts.push(cur);
            cur = Vec::new();
        } else {
            cur.push(c);
        }
        i = i + 1;
    }
    proof {
        assert(cs@.take(i as int) =~= cs@);
        lemma_split_nonempty(cs@, sep);
    }
    parts.push(cur);
    proof {
        assert forall|k: int| 0 <= k < parts@.len() implies #[trigger] parts@[k]@ == split_char(cs@, sep)[k] by {}
    }
    parts
}

/// The pieces of `s` between occurrences of `sep`.
pub fn split_on(s: &str, sep: char) -> (r: Vec<String>)
    ensures
        r@.len() == split_char(s@, sep).len(),
        forall|i: int| 0 <= i < r@.len() ==> #[trigger] r@[i]@ == split_char(s@, sep)[i],
{
    let cs = chars_of(s);
    let pieces = split_chars(&cs, sep);
    let mut r: Vec<String> = Vec::new();
    let mut i: usize = 0;
    while i < pieces.len()
        invariant
            cs@ == s@,
            pieces@.len() == split_char(s@, sep).len(),
            forall|k: int| 0 <= k < pieces@.len() ==> #[trigger] pieces@[k]@ == split_char(s@, sep)[k],
            i <= pieces@.len(),
            r@.len() == i,
            forall|k: int| 0 <= k < i ==> #[trigger] r@[k]@ == split_char(s@, sep)[k],
        decreases pieces@.len() - i,
    {
        r.push(string_of(pieces[i].as_slice()));
        i = i + 1;
    }
    r
}

} // verus!

verus! {

/// `s` without its trailing `c` characters (as `str::trim_end_matches`).
pub open spec fn trim_end_char(s: Seq<char>, c: char) -> Seq<char>
    decreases s.len(),
{
    if s.len() > 0 && s.last() == c {
        trim_end_char(s.drop_last(), c)
    } else {
        s
    }
}

/// `s` without its trailing `c` characters.
pub fn trim_end_matches_char(s: &str, c: char) -> (r: String)
    ensures
        r@ == trim_end_char(s@, c),
{
    let mut cs = chars_of(s);
    while cs.len() > 0 && cs[cs.len() - 1] == c
        invariant
            trim_end_char(cs@, c) == trim_end_char(s@, c),
        decreases cs@.len(),
    {
        proof {
            assert(cs@.drop_last() == cs@.subrange(0, cs@.len() - 1));
        }
        cs.pop();
    }
    string_of(cs.as_slice())
}

} // verus!

verus! {

/// Whether `s` begins with `p`.
pub open spec fn has_prefix(s: Seq<char>, p: Seq<char>) -> bool {
    p.len() <= s.len() && s.take(p.len() as int) == p
}

/// Whether `pat` occurs in `cs` at position `i`.
pub fn occurs_at(cs: &Vec<char>, i: usize, pat: &Vec<char>) -> (b: bool)
    requires
        i <= cs@.len(),
    ensures
        b == (pat@.len() <= cs@.len() - i && cs@.subrange(i as int, i + pat@.len()) == pat@),
{
    if pat.len() > cs.len() - i {
        return false;
    }
    let mut k: usize = 0;
    while k < pat.len()
        invariant
            k <= pat@.len(),
            i <= cs@.len(),
            cs@.len() <= usize::MAX,
            pat@.len() <= cs@.len() - i,
            forall|j: int| 0 <= j < k ==> cs@[i + j] == pat@[j],
        decreases pat@.len() - k,
    {
        if cs[i + k] != pat[k] {
            proof {
                assert(cs@.subrange(i as int, i + pat@.len())[k as int] != pat@[k as int]);
            }
            return false;
        }
        k = k + 1;
    }
    proof {
        assert(cs@.subrange(i as int, i + pat@.len()) =~= pat@);
    }
    true
}

/// Whether `cs` is exactly `pat`.
pub fn same_chars(cs: &Vec<char>, pat: &Vec<char>) -> (b: bool)
    ensures
        b == (cs@ == pat@),
{
    let r = cs.len() == pat.len() && occurs_at(cs, 0, pat);
    proof {
        if cs@.len() == pat@.len() {
            assert(cs@.subrange(0, pat@.len() as int) =~= cs@);
        }
    }
    r
}

/// Whether `s` begins with `p`.
pub fn str_has_prefix(s: &str, p: &str) -> (b: bool)
    ensures
        b == has_prefix(s@, p@),
{
    let cs = chars_of(s);
    let ps = chars_of(p);
    let r = occurs_at(&cs, 0, &ps);
    proof {
        if ps@.len() <= cs@.len() {
            assert(cs@.subrange(0, ps@.len() as int) =~= cs@.take(ps@.len() as int));
        }
    }
    r
}

/// Whether `a` and `b` hold the same text.
pub fn str_eq(a: &str, b: &str) -> (r: bool)
    ensures
        r == (a@ == b@),
{
    let ac = chars_of(a);
    let bc = chars_of(b);
    same_chars(&ac, &bc)
}

} // verus!

verus! {

/// Whether `c` has the Unicode White_Space property (as `char::is_whitespace`).
pub open spec fn is_white(c: char) -> bool {
    ('\u{9}' <= c && c <= '\u{d}') || c == ' ' || c == '\u{85}' || c == '\u{a0}' || c == '\u{1680}'
        || ('\u{2000}' <= c && c <= '\u{200a}') || c == '\u{2028}' || c == '\u{2029}' || c == '\u{202f}'
        || c == '\u{205f}' || c == '\u{3000}'
}

/// Whether `c` is white space.
pub fn char_is_white(c: char) -> (b: bool)
    ensures
        b == is_white(c),
{
    ('\u{9}' <= c && c <= '\u{d}') || c == ' ' || c == '\u{85}' || c == '\u{a0}' || c == '\u{1680}'
        || ('\u{2000}' <= c && c <= '\u{200a}') || c == '\u{2028}' || c == '\u{2029}' || c == '\u{202f}'
        || c == '\u{205f}' || c == '\u{3000}'
}

/// `s` without its leading white space.
pub open spec fn trim_start_ws(s: Seq<char>) -> Seq<char>
    decreases s.len(),
{
    if s.len() > 0 && is_white(s[0]) {
        trim_start_ws(s.skip(1))
    } else {
        s
    }
}

/// `s` without its trailing white space.
pub open spec fn trim_end_ws(s: Seq<char>) -> Seq<char>
    decreases s.len(),
{
    if s.len() > 0 && is_white(s.last()) {
        trim_end_ws(s.drop_last())
    } else {
        s
    }
}

/// `s` without leading and trailing white space (as `str::trim`).
pub open spec fn trim_ws(s: Seq<char>) -> Seq<char> {
    trim_end_ws(trim_start_ws(s))
}

/// The characters of `s` without leading and trailing white space.
pub fn trim_chars(s: &str) -> (r: Vec<char>)
    ensures
        r@ == trim_ws(s@),
{
    let cs = chars_of(s);
    let mut i: usize = 0;
    proof {
        assert(cs@.skip(0) =~= cs@);
    }
    while i < cs.len() && char_is_white(cs[i])
        invariant
            i <= cs@.len(),
            trim_start_ws(cs@.skip(i as int)) == trim_start_ws(s@),
            cs@ == s@,
        decreases cs@.len() - i,
    {
        proof {
            assert(cs@.skip(i as int).skip(1) =~= cs@.skip(i + 1));
        }
        i = i + 1;
    }
    let mut r: Vec<char> = Vec::new();
    let mut k: usize = i;
    while k < cs.len()
        invariant
            i <= k <= cs@.len(),
            r@ == cs@.subrange(i as int, k as int),
        decreases cs@.len() - k,
    {
        r.push(cs[k]);
        proof {
            assert(cs@.subrange(i as int, k + 1) =~= cs@.subrange(i as int, k as int).push(cs@[k as int]));
        }
        k = k + 1;
    }
    proof {
        assert(r@ =~= cs@.skip(i as int));
        assert(trim_start_ws(s@) == r@);
    }
    while r.len() > 0 && char_is_white(r[r.len() - 1])
        invariant
            trim_end_ws(r@) == trim_ws(s@),
        decreases r@.len(),
    {
        proof {
            assert(r@.drop_last() == r@.subrange(0, r@.len() - 1));
        }
        r.pop();
    }
    r
}

/// `s` without leading and trailing white space.
pub fn trim_str(s: &str) -> (r: String)
    ensures
        r@ == trim_ws(s@),
{
    let cs = trim_chars(s);
    string_of(cs.as_slice())
}

} // verus!

verus! {

/// A text takes between one and four UTF-8 bytes per character.
pub proof fn lemma_utf8_len_bounds(s: Seq<char>)
    ensures
        s.len() <= vstd::utf8::encode_utf8(s).len() <= 4 * s.len(),
    decreases s.len(),
{
    if s.len() > 0 {
        lemma_utf8_len_bounds(s.drop_first());
    }
}

/// Whether the UTF-8 encoding of `s` takes at most `limit` bytes.
pub fn utf8_len_at_most(s: &str, limit: usize) -> (b: bool)
    requires
        limit <= 0x1000_0000,
    ensures
        b == (vstd::utf8::encode_utf8(s@).len() <= limit),
{
    let n = chars_of(s).len();
    proof {
        lemma_utf8_len_bounds(s@);
    }
    if n > limit {
        return false;
    }
    s.len() <= limit
}

} // verus!
