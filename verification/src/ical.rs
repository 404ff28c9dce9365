//! Counting the events of an iCalendar feed by their summary.
use vstd::prelude::*;
use crate::text::{chars_of, has_prefix, occurs_at, same_chars, split_char, split_chars, string_of, trim_end_char};

verus! {

/// `s` with every occurrence of `pat` replaced by `rep`, scanning left to
/// right without overlaps (as `str::replace`).
pub open spec fn replace_all(s: Seq<char>, pat: Seq<char>, rep: Seq<char>) -> Seq<char>
    decreases s.len(),
{
    if s.len() == 0 {
        s
    } else if 0 < pat.len() <= s.len() && s.take(pat.len() as int) == pat {
        rep + replace_all(s.skip(pat.len() as int), pat, rep)
    } else {
        seq![s[0]] + replace_all(s.skip(1), pat, rep)
    }
}

/// The feed with folded lines joined: CRLF-space, then LF-space, removed.
pub open spec fn unfolded(input: Seq<char>) -> Seq<char> {
    replace_all(replace_all(input, "\r\n "@, Seq::<char>::empty()), "\n "@, Seq::<char>::empty())
}

/// The lines of the unfolded feed, each without its trailing carriage returns.
pub open spec fn feed_lines(input: Seq<char>) -> Seq<Seq<char>> {
    split_char(unfolded(input), '\n').map_values(|l: Seq<char>| trim_end_char(l, '\r'))
}

/// Whether the first `n` lines leave the reader inside an event: the last of
/// them that opens or closes an event opened one.
pub open spec fn inside_event(lines: Seq<Seq<char>>, n: int) -> bool
    decreases n,
{
    if n <= 0 {
        false
    } else if lines[n - 1] == "END:VEVENT"@ {
        false
    } else if lines[n - 1] == "BEGIN:VEVENT"@ {
        true
    } else {
        inside_event(lines, n - 1)
    }
}

/// The summary text of a `SUMMARY:` line, with `\,` read as a comma.
pub open spec fn summary_text(line: Seq<char>) -> Seq<char> {
    replace_all(line.skip(8), "\\,"@, ","@)
}

/// The summaries of the events among the first `n` lines, in order.
pub open spec fn event_summaries(lines: Seq<Seq<char>>, n: int) -> Seq<Seq<char>>
    decreases n,
{
    if n <= 0 {
        Seq::<Seq<char>>::empty()
    } else if inside_event(lines, n) && has_prefix(lines[n - 1], "SUMMARY:"@) {
        event_summaries(lines, n - 1).push(summary_text(lines[n - 1]))
    } else {
        event_summaries(lines, n - 1)
    }
}

/// The summaries of all events of `input`, in order.
pub open spec fn feed_summaries(input: Seq<char>) -> Seq<Seq<char>> {
    let lines = feed_lines(input);
    event_summaries(lines, lines.len() as int)
}

/// How many times `name` occurs in `s`.
pub open spec fn occurrences(s: Seq<Seq<char>>, name: Seq<char>) -> nat {
    s.filter(|x: Seq<char>| x == name).len()
}

/// The texts of `v`.
pub open spec fn texts(v: Seq<String>) -> Seq<Seq<char>> {
    v.map_values(|s: String| s@)
}

/// Event counts by summary.
pub struct SummaryCounts {
    summaries: Vec<String>,
}

impl View for SummaryCounts {
    type V = Seq<Seq<char>>;

    /// The summaries of the counted events, in feed order.
    closed spec fn view(&self) -> Seq<Seq<char>> {
        texts(self.summaries@)
    }
}

impl SummaryCounts {
    /// How many events carry summary `name` (saturated at `i64::MAX`).
    pub fn count(&self, name: &str) -> (n: i64)
        ensures
            n == (if occurrences(self@, name@) <= i64::MAX { occurrences(self@, name@) as int } else { i64::MAX as int }),
    {
        let ghost p = |x: Seq<char>| x == name@;
        let ghost all = self@;
        let target = name.to_owned();
        let mut n: usize = 0;
        let mut i: usize = 0;
        proof {
            reveal_with_fuel(Seq::<_>::filter, 1);
            assert(all.take(0) =~= Seq::<Seq<char>>::empty());
        }
        while i < self.summaries.len()
            invariant
                all == self@,
                all.len() == self.summaries@.len(),
                target@ == name@,
                p == (|x: Seq<char>| x == name@),
                i <= self.summaries@.len(),
                n == all.take(i as int).filter(p).len(),
                n <= i,
            decreases self.summaries@.len() - i,
        {
            proof {
                reveal_with_fuel(Seq::<_>::filter, 1);
                assert(all.take(i + 1).drop_last() =~= all.take(i as int));
                assert(all.take(i + 1).last() == self.summaries@[i as int]@);
                all.take(i as int).lemma_filter_len(p);
            }
            if self.summaries[i] == target {
                n = n + 1;
            }
            i = i + 1;
        }
        proof {
            assert(all.take(i as int) =~= all);
        }
        if (n as u64) > (i64::MAX as u64) {
            i64::MAX
        } else {
            n as i64
        }
    }

    /// The count for `name`, or `None` when no event carries it.
    pub fn get(&self, name: &str) -> (r: Option<i64>)
        ensures
            match r {
                None => occurrences(self@, name@) == 0,
                Some(n) => occurrences(self@, name@) > 0 && n == (if occurrences(self@, name@) <= i64::MAX { occurrences(self@, name@) as int } else { i64::MAX as int }),
            },
    {
        let n = self.count(name);
        if n == 0 {
            None
        } else {
            Some(n)
        }
    }
}

/// Appends `xs` to `out`.
fn push_all(out: &mut Vec<char>, xs: &Vec<char>)
    ensures
        final(out)@ == old(out)@ + xs@,
{
    let mut k: usize = 0;
    while k < xs.len()
        invariant
            k <= xs@.len(),
            out@ == old(out)@ + xs@.take(k as int),
        decreases xs@.len() - k,
    {
        out.push(xs[k]);
        proof {
            assert(xs@.take(k + 1) =~= xs@.take(k as int).push(xs@[k as int]));
        }
        k = k + 1;
    }
    proof {
        assert(xs@.take(k as int) =~= xs@);
    }
}

/// `cs` with every occurrence of `pat` replaced by `rep`, left to right.
pub fn replace_chars(cs: &Vec<char>, pat: &Vec<char>, rep: &Vec<char>) -> (r: Vec<char>)
    requires
        pat@.len() > 0,
    ensures
        r@ == replace_all(cs@, pat@, rep@),
{
    let mut out: Vec<char> = Vec::new();
    let mut i: usize = 0;
    proof {
        assert(cs@.skip(0) =~= cs@);
        assert(out@ + cs@ =~= cs@);
    }
    while i < cs.len()
        invariant
            i <= cs@.len(),
            pat@.len() > 0,
            out@ + replace_all(cs@.skip(i as int), pat@, rep@) == replace_all(cs@, pat@, rep@),
        decreases cs@.len() - i,
    {
        let ghost rest = cs@.skip(i as int);
        let ghost before = out@;
        if occurs_at(cs, i, pat) {
            proof {
                assert(rest.take(pat@.len() as int) =~= cs@.subrange(i as int, i + pat@.len()));
                assert(rest.skip(pat@.len() as int) =~= cs@.skip(i + pat@.len()));
                assert(before + (rep@ + replace_all(rest.skip(pat@.len() as int), pat@, rep@))
                    =~= (before + rep@) + replace_all(rest.skip(pat@.len() as int), pat@, rep@));
            }
            push_all(&mut out, rep);
            i = i + pat.len();
        } else {
            proof {
                if 0 < pat@.len() <= rest.len() {
                    assert(rest.take(pat@.len() as int) =~= cs@.subrange(i as int, i + pat@.len()));
                }
                assert(rest.skip(1) =~= cs@.skip(i + 1));
                assert(before + (seq![rest[0]] + replace_all(rest.skip(1), pat@, rep@))
                    =~= before.push(cs@[i as int]) + replace_all(rest.skip(1), pat@, rep@));
            }
            out.push(cs[i]);
            i = i + 1;
        }
    }
    proof {
        assert(cs@.skip(i as int).len() == 0);
        assert(out@ + cs@.skip(i as int) =~= out@);
    }
    out
}

/// `cs` without its trailing carriage returns.
fn trim_carriage_returns(cs: &Vec<char>) -> (r: Vec<char>)
    ensures
        r@ == trim_end_char(cs@, '\r'),
{
    let mut r = cs.clone();
    proof {
        assert(r@ =~= cs@);
    }
    while r.len() > 0 && r[r.len() - 1] == '\r'
        invariant
            trim_end_char(r@, '\r') == trim_end_char(cs@, '\r'),
        decreases r@.len(),
    {
        proof {
            assert(r@.drop_last() == r@.subrange(0, r@.len() - 1));
        }
        r.pop();
    }
    r
}

/// Counts the events of iCalendar text `input` by summary. Folded lines are
/// joined first; only `SUMMARY:` lines between `BEGIN:VEVENT` and
/// `END:VEVENT` count, so calendar metadata is never counted.
pub fn count_ical_events_by_summary(input: &str) -> (r: SummaryCounts)
    ensures
        r@ == feed_summaries(input@),
{
    proof {
        reveal_strlit("\r\n ");
        reveal_strlit("\n ");
        reveal_strlit("BEGIN:VEVENT");
        reveal_strlit("END:VEVENT");
        reveal_strlit("SUMMARY:");
        reveal_strlit("\\,");
        reveal_strlit(",");
    }
    let cs = chars_of(input);
    let empty: Vec<char> = Vec::new();
    let fold_crlf = chars_of("\r\n ");
    let fold_lf = chars_of("\n ");
    let once = replace_chars(&cs, &fold_crlf, &empty);
    let joined = replace_chars(&once, &fold_lf, &empty);
    proof {
        assert(empty@ =~= Seq::<char>::empty());
    }
    let pieces = split_chars(&joined, '\n');
    let begin = chars_of("BEGIN:VEVENT");
    let end = chars_of("END:VEVENT");
    let summary = chars_of("SUMMARY:");
    let escaped_comma = chars_of("\\,");
    let comma = chars_of(",");
    let ghost lines = feed_lines(input@);
    let mut summaries: Vec<String> = Vec::new();
    let mut in_event = false;
    let mut i: usize = 0;
    while i < pieces.len()
        invariant
            joined@ == unfolded(input@),
            lines == feed_lines(input@),
            lines.len() == pieces@.len(),
            forall|k: int| 0 <= k < pieces@.len() ==> #[trigger] pieces@[k]@ == split_char(joined@, '\n')[k],
            begin@ == "BEGIN:VEVENT"@,
            end@ == "END:VEVENT"@,
            summary@ == "SUMMARY:"@,
            summary@.len() == 8,
            escaped_comma@ == "\\,"@,
            escaped_comma@.len() == 2,
            comma@ == ","@,
            i <= pieces@.len(),
            in_event == inside_event(lines, i as int),
            texts(summaries@) == event_summaries(lines, i as int),
        decreases pieces@.len() - i,
    {
        let line = trim_carriage_returns(&pieces[i]);
        proof {
            assert(line@ == lines[i as int]);
        }
        if same_chars(&line, &begin) {
            in_event = true;
        }
        if same_chars(&line, &end) {
            in_event = false;
        }
        proof {
            assert(in_event == inside_event(lines, i + 1));
        }
        let ghost before = summaries@;
        if in_event && occurs_at(&line, 0, &summary) {
            proof {
                assert(line@.subrange(0, 8) =~= line@.take(8));
            }
            let mut rest: Vec<char> = Vec::new();
            let mut k: usize = 8;
            while k < line.len()
                invariant
                    8 <= k <= line@.len(),
                    rest@ == line@.subrange(8, k as int),
                decreases line@.len() - k,
            {
                rest.push(line[k]);
                proof {
                    assert(line@.subrange(8, k + 1) =~= line@.subrange(8, k as int).push(line@[k as int]));
                }
                k = k + 1;
            }
            proof {
                assert(rest@ =~= line@.skip(8));
            }
            let text = replace_chars(&rest, &escaped_comma, &comma);
            summaries.push(string_of(text.as_slice()));
            proof {
                assert(texts(summaries@) =~= texts(before).push(summary_text(lines[i as int])));
            }
        } else {
            proof {
                if in_event {
                    assert(!has_prefix(lines[i as int], "SUMMARY:"@)) by {
                        if has_prefix(lines[i as int], "SUMMARY:"@) {
                            assert(line@.subrange(0, 8) =~= line@.take(8));
                        }
                    }
                }
            }
        }
        i = i + 1;
    }
    SummaryCounts { summaries }
}

} // verus!
