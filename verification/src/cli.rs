//! Command-line model: the subcommands and the page-range language
//! (`"1-3,5,7-9"`) used by `split` and `delete`.
use vstd::prelude::*;
use crate::text::{
    is_ws, trim_end_seq, trim_start_seq,
    chars_of, decimal, decimal_string, parse_usize, parse_usize_spec, push_str, string_from_range,
    trim_bounds, trim_seq,
};

verus! {

/// The command line of the tool.
pub struct Cli {
    pub command: Option<Command>,
    /// PDF file to open in interactive mode.
    pub file: Option<String>,
}

/// The subcommands.
pub enum Command {
    /// View a PDF interactively, from the given 1-indexed page, in text mode if asked.
    View { file: String, page: Option<usize>, text: bool },
    /// Merge multiple PDFs into one.
    Merge { files: Vec<String>, output: String },
    /// Extract page ranges into a new PDF.
    Split { file: String, pages: Vec<Vec<PageRange>>, output: String },
    /// Delete pages from a PDF (the output defaults to the input).
    Delete { file: String, pages: Vec<Vec<PageRange>>, output: Option<String> },
    /// Print PDF metadata and page count.
    Info { file: String },
    /// Extract text from a PDF page (1-indexed) and print it on a grid of the given size.
    Text { file: String, page: usize, width: u16, height: u16 },
}

/// A range of pages (1-indexed, inclusive on both ends).
#[derive(Debug, Clone, Copy, PartialEq, Eq, Structural)]
pub struct PageRange {
    pub start: usize,
    pub end: usize,
}

impl PageRange {
    /// Expand into 0-indexed page numbers.
    pub fn to_indices(&self) -> (r: std::ops::Range<usize>)
        requires
            self.start >= 1,
        ensures
            r.start == self.start - 1,
            r.end == self.end,
    {
        (self.start - 1)..self.end
    }
}

/// Index of the first occurrence of `c` in `s`, if any.
pub open spec fn first_index_of(s: Seq<char>, c: char) -> Option<int>
    decreases s.len(),
{
    if s.len() == 0 {
        None
    } else {
        match first_index_of(s.drop_last(), c) {
            Some(i) => Some(i),
            None => if s.last() == c {
                Some(s.len() - 1)
            } else {
                None
            },
        }
    }
}

/// `str::split`: the pieces of `s` between occurrences of `sep`.
pub open spec fn split_on(s: Seq<char>, sep: char) -> Seq<Seq<char>>
    decreases s.len(),
{
    if s.len() == 0 {
        seq![Seq::empty()]
    } else {
        let r = split_on(s.drop_last(), sep);
        if s.last() == sep {
            r.push(Seq::empty())
        } else {
            r.update(r.len() - 1, r.last().push(s.last()))
        }
    }
}

/// Error text for a part that is not a page number.
pub open spec fn invalid_number_message(text: Seq<char>) -> Seq<char> {
    "invalid page number: "@ + text
}

/// Error text for page number 0.
pub open spec fn one_indexed_message() -> Seq<char> {
    "page numbers are 1-indexed"@
}

/// Error text for a range whose start exceeds its end.
pub open spec fn invalid_range_message(start: nat, end: nat) -> Seq<char> {
    "invalid range: "@ + decimal(start) + "-"@ + decimal(end)
}

/// Error text when nothing was given.
pub open spec fn no_ranges_message() -> Seq<char> {
    "no page ranges specified"@
}

/// Meaning of one comma-separated part: `None` for an empty part (skipped),
/// otherwise the range it denotes or the error it raises.
pub open spec fn parse_part(raw: Seq<char>) -> Option<Result<(usize, usize), Seq<char>>> {
    let part = trim_seq(raw);
    if part.len() == 0 {
        None
    } else {
        match first_index_of(part, '-') {
            Some(d) => {
                let a = part.take(d);
                let b = part.skip(d + 1);
                match parse_usize_spec(trim_seq(a)) {
                    None => Some(Err(invalid_number_message(a))),
                    Some(start) => match parse_usize_spec(trim_seq(b)) {
                        None => Some(Err(invalid_number_message(b))),
                        Some(end) => if start == 0 || end == 0 {
                            Some(Err(one_indexed_message()))
                        } else if start > end {
                            Some(Err(invalid_range_message(start as nat, end as nat)))
                        } else {
                            Some(Ok((start, end)))
                        },
                    },
                }
            },
            None => match parse_usize_spec(part) {
                None => Some(Err(invalid_number_message(part))),
                Some(n) => if n == 0 {
                    Some(Err(one_indexed_message()))
                } else {
                    Some(Ok((n, n)))
                },
            },
        }
    }
}

/// Meaning of a list of parts: the ranges in order, or the error of the first bad part.
pub open spec fn parse_parts(parts: Seq<Seq<char>>) -> Result<Seq<(usize, usize)>, Seq<char>>
    decreases parts.len(),
{
    if parts.len() == 0 {
        Ok(Seq::empty())
    } else {
        match parse_parts(parts.drop_last()) {
            Err(e) => Err(e),
            Ok(r) => match parse_part(parts.last()) {
                None => Ok(r),
                Some(Err(e)) => Err(e),
                Some(Ok(p)) => Ok(r.push(p)),
            },
        }
    }
}

/// Meaning of a page-range list such as `"1-3,5,7-9"`.
pub open spec fn page_ranges_spec(s: Seq<char>) -> Result<Seq<(usize, usize)>, Seq<char>> {
    match parse_parts(split_on(s, ',')) {
        Err(e) => Err(e),
        Ok(r) => if r.len() == 0 {
            Err(no_ranges_message())
        } else {
            Ok(r)
        },
    }
}

/// The pair of bounds of a range.
pub open spec fn range_bounds(r: PageRange) -> (usize, usize) {
    (r.start, r.end)
}

proof fn lemma_split_on_nonempty(s: Seq<char>, sep: char)
    ensures
        split_on(s, sep).len() >= 1,
    decreases s.len(),
{
    if s.len() > 0 {
        lemma_split_on_nonempty(s.drop_last(), sep);
    }
}

proof fn lemma_first_index_of(s: Seq<char>, c: char, k: int)
    requires
        0 <= k <= s.len(),
        forall|i: int| 0 <= i < k ==> s[i] != c,
        k == s.len() || s[k] == c,
    ensures
        first_index_of(s, c) == if k == s.len() {
            None::<int>
        } else {
            Some(k)
        },
    decreases s.len(),
{
    if s.len() > 0 {
        if k == s.len() {
            lemma_first_index_of(s.drop_last(), c, k - 1);
        } else if k < s.len() - 1 {
            lemma_first_index_of(s.drop_last(), c, k);
        } else {
            lemma_first_index_of(s.drop_last(), c, k);
        }
    }
}

/// Parse one trimmed, nonempty part.
fn parse_one_part(p: &[char]) -> (r: Result<PageRange, String>)
    requires
        p@.len() > 0,
        trim_seq(p@) == p@,
    ensures
        parse_part(p@) == Some(
            match r {
                Ok(pr) => Ok::<(usize, usize), Seq<char>>(range_bounds(pr)),
                Err(e) => Err(e@),
            },
        ),
{
    let mut d: usize = 0;
    while d < p.len() && p[d] != '-'
        invariant
            d <= p@.len(),
            forall|i: int| 0 <= i < d ==> p@[i] != '-',
        decreases p@.len() - d,
    {
        d = d + 1;
    }
    proof {
        lemma_first_index_of(p@, '-', d as int);
    }
    if d < p.len() {
        let a = &p[0..d];
        let b = &p[d + 1..p.len()];
        assert(a@ =~= p@.take(d as int));
        assert(b@ =~= p@.skip(d + 1));
        let (a0, a1) = trim_bounds(a);
        let start = match parse_usize(&a[a0..a1]) {
            Some(v) => v,
            None => {
                let mut e = String::from_str("invalid page number: ");
                let t = string_from_range(p, 0, d);
                push_str(&mut e, t.as_str());
                assert(p@.subrange(0, d as int) =~= a@);
                return Err(e);
            },
        };
        let (b0, b1) = trim_bounds(b);
        let end = match parse_usize(&b[b0..b1]) {
            Some(v) => v,
            None => {
                let mut e = String::from_str("invalid page number: ");
                let t = string_from_range(p, d + 1, p.len());
                push_str(&mut e, t.as_str());
                assert(p@.subrange(d + 1, p@.len() as int) =~= b@);
                return Err(e);
            },
        };
        if start == 0 || end == 0 {
            return Err(String::from_str("page numbers are 1-indexed"));
        }
        if start > end {
            let mut e = String::from_str("invalid range: ");
            let s1 = decimal_string(start);
            push_str(&mut e, s1.as_str());
            push_str(&mut e, "-");
            let s2 = decimal_string(end);
            push_str(&mut e, s2.as_str());
            return Err(e);
        }
        Ok(PageRange { start, end })
    } else {
        match parse_usize(p) {
            Some(n) => {
                if n == 0 {
                    Err(String::from_str("page numbers are 1-indexed"))
                } else {
                    Ok(PageRange { start: n, end: n })
                }
            },
            None => {
                let mut e = String::from_str("invalid page number: ");
                let t = string_from_range(p, 0, p.len());
                push_str(&mut e, t.as_str());
                assert(p@.subrange(0, p@.len() as int) =~= p@);
                Err(e)
            },
        }
    }
}

/// Parse the part `cs[a..b]`, appending its range (if it is not blank) to `ranges`.
fn parse_raw_part(cs: &[char], a: usize, b: usize, ranges: &mut Vec<PageRange>) -> (r: Result<
    (),
    String,
>)
    requires
        a <= b <= cs@.len(),
    ensures
        match parse_part(cs@.subrange(a as int, b as int)) {
            None => r is Ok && final(ranges)@ == old(ranges)@,
            Some(Ok(bounds)) => r is Ok && final(ranges)@.len() == old(ranges)@.len() + 1
                && final(ranges)@.drop_last() == old(ranges)@ && range_bounds(final(ranges)@.last())
                == bounds,
            Some(Err(e)) => r is Err && r->Err_0@ == e,
        },
{
    let part = &cs[a..b];
    let ghost raw = cs@.subrange(a as int, b as int);
    assert(part@ =~= raw);
    let (t0, t1) = trim_bounds(part);
    if t0 < t1 {
        let tp = &part[t0..t1];
        assert(tp@ =~= trim_seq(raw));
        proof {
            lemma_trim_idempotent(raw);
        }
        match parse_one_part(tp) {
            Ok(pr) => {
                ranges.push(pr);
                assert(ranges@.drop_last() =~= old(ranges)@);
                Ok(())
            },
            Err(e) => Err(e),
        }
    } else {
        Ok(())
    }
}

/// Parse a comma-separated list of page ranges like `"1-3,5,7-9"`.
/// On success every range satisfies `1 <= start <= end`, and at least one range is given.
pub fn parse_page_ranges(s: &str) -> (r: Result<Vec<PageRange>, String>)
    ensures
        page_ranges_spec(s@) == match r {
            Ok(v) => Ok::<Seq<(usize, usize)>, Seq<char>>(v@.map_values(|pr: PageRange| range_bounds(pr))),
            Err(e) => Err(e@),
        },
        r is Ok ==> r->Ok_0@.len() > 0 && forall|k: int|
            0 <= k < r->Ok_0@.len() ==> 1 <= (#[trigger] r->Ok_0@[k]).start <= r->Ok_0@[k].end,
{
    let cs = chars_of(s);
    let mut ranges: Vec<PageRange> = Vec::new();
    // The current part is cs[part_start..i].
    let mut part_start: usize = 0;
    let mut i: usize = 0;
    let ghost mut done: Seq<Seq<char>> = Seq::empty();
    assert(cs@.take(0) =~= Seq::<char>::empty());
    assert(cs@.subrange(0, 0) =~= Seq::<char>::empty());
    assert(ranges@.map_values(|pr: PageRange| range_bounds(pr)) =~= Seq::<(usize, usize)>::empty());
    while i < cs.len()
        invariant
            cs@ == s@,
            part_start <= i <= cs@.len(),
            split_on(cs@.take(i as int), ',') == done.push(cs@.subrange(part_start as int, i as int)),
            parse_parts(done) == Ok::<Seq<(usize, usize)>, Seq<char>>(
                ranges@.map_values(|pr: PageRange| range_bounds(pr)),
            ),
            forall|k: int| 0 <= k < ranges@.len() ==> 1 <= (#[trigger] ranges@[k]).start <= ranges@[k].end,
        decreases cs@.len() - i,
    {
        if cs[i] == ',' {
            let ghost raw = cs@.subrange(part_start as int, i as int);
            let ghost old_ranges = ranges@;
            match parse_raw_part(&cs, part_start, i, &mut ranges) {
                Ok(()) => {},
                Err(e) => {
                    proof {
                        lemma_parse_parts_error_sticks(cs@, done, raw, e@, i as int);
                    }
                    return Err(e);
                },
            }
            proof {
                lemma_part_bounds(raw);
                assert(ranges@.map_values(|pr: PageRange| range_bounds(pr)) =~= match parse_part(
                    raw,
                ) {
                    Some(Ok(b)) => old_ranges.map_values(|pr: PageRange| range_bounds(pr)).push(b),
                    _ => old_ranges.map_values(|pr: PageRange| range_bounds(pr)),
                });
                assert(cs@.take(i + 1).drop_last() =~= cs@.take(i as int));
                assert(cs@.subrange(i + 1, i + 1) =~= Seq::<char>::empty());
                assert(done.push(raw).drop_last() =~= done);
                assert forall|k: int| 0 <= k < ranges@.len() implies 1 <= (
                #[trigger] ranges@[k]).start <= ranges@[k].end by {
                    if k < old_ranges.len() && ranges@.len() == old_ranges.len() + 1 {
                        assert(ranges@[k] == ranges@.drop_last()[k]);
                    }
                }
                done = done.push(raw);
            }
            part_start = i + 1;
        } else {
            proof {
                assert(cs@.take(i + 1).drop_last() =~= cs@.take(i as int));
                assert(cs@.subrange(part_start as int, i + 1) =~= cs@.subrange(
                    part_start as int,
                    i as int,
                ).push(cs@[i as int]));
                lemma_split_on_nonempty(cs@.take(i as int), ',');
            }
        }
        i = i + 1;
    }
    let ghost raw = cs@.subrange(part_start as int, i as int);
    let ghost old_ranges = ranges@;
    match parse_raw_part(&cs, part_start, i, &mut ranges) {
        Ok(()) => {},
        Err(e) => {
            proof {
                lemma_parse_parts_error_sticks(cs@, done, raw, e@, i as int);
            }
            return Err(e);
        },
    }
    proof {
        lemma_part_bounds(raw);
        assert(cs@.take(i as int) =~= cs@);
        assert(done.push(raw).drop_last() =~= done);
        assert(ranges@.map_values(|pr: PageRange| range_bounds(pr)) =~= match parse_part(raw) {
            Some(Ok(b)) => old_ranges.map_values(|pr: PageRange| range_bounds(pr)).push(b),
            _ => old_ranges.map_values(|pr: PageRange| range_bounds(pr)),
        });
        assert forall|k: int| 0 <= k < ranges@.len() implies 1 <= (#[trigger] ranges@[k]).start
            <= ranges@[k].end by {
            if k < old_ranges.len() && ranges@.len() == old_ranges.len() + 1 {
                assert(ranges@[k] == ranges@.drop_last()[k]);
            }
        }
    }
    if ranges.len() == 0 {
        return Err(String::from_str("no page ranges specified"));
    }
    Ok(ranges)
}

/// A part that parses gives a range with `1 <= start <= end`.
proof fn lemma_part_bounds(raw: Seq<char>)
    ensures
        parse_part(raw) matches Some(Ok((a, b))) ==> 1 <= a <= b,
{
}

proof fn lemma_trim_start_first(s: Seq<char>)
    ensures
        trim_start_seq(s).len() > 0 ==> !is_ws(trim_start_seq(s)[0]),
    decreases s.len(),
{
    if s.len() > 0 && is_ws(s[0]) {
        lemma_trim_start_first(s.drop_first());
    }
}

proof fn lemma_trim_end_prefix(u: Seq<char>)
    ensures
        trim_end_seq(u).len() <= u.len(),
        trim_end_seq(u) == u.take(trim_end_seq(u).len() as int),
        trim_end_seq(u).len() > 0 ==> !is_ws(trim_end_seq(u).last()),
    decreases u.len(),
{
    if u.len() > 0 && is_ws(u.last()) {
        lemma_trim_end_prefix(u.drop_last());
        let t = trim_end_seq(u.drop_last());
        assert(u.drop_last().take(t.len() as int) =~= u.take(t.len() as int));
    } else {
        assert(u.take(u.len() as int) =~= u);
    }
}

/// Trimming twice is trimming once.
proof fn lemma_trim_idempotent(s: Seq<char>)
    ensures
        trim_seq(trim_seq(s)) == trim_seq(s),
{
    let u = trim_start_seq(s);
    let t = trim_end_seq(u);
    lemma_trim_start_first(s);
    lemma_trim_end_prefix(u);
    if t.len() > 0 {
        assert(t[0] == u[0]);
        assert(trim_start_seq(t) == t);
        assert(trim_end_seq(t) == t);
    } else {
        assert(trim_start_seq(t) == t);
        assert(trim_end_seq(t) == t);
    }
}

/// Later characters never change the parts before the last separator.
proof fn lemma_split_prefix_stable(cs: Seq<char>, i: int, j: int)
    requires
        0 <= i < j <= cs.len(),
        cs[i] == ',',
    ensures
        split_on(cs.take(j), ',').len() > split_on(cs.take(i), ',').len(),
        split_on(cs.take(j), ',').take(split_on(cs.take(i), ',').len() as int) == split_on(
            cs.take(i),
            ',',
        ),
    decreases j - i,
{
    let a = split_on(cs.take(i), ',');
    lemma_split_on_nonempty(cs.take(i), ',');
    assert(cs.take(i + 1).drop_last() =~= cs.take(i));
    if j == i + 1 {
        assert(a.push(Seq::empty()).take(a.len() as int) =~= a);
    } else {
        lemma_split_prefix_stable(cs, i, j - 1);
        assert(cs.take(j).drop_last() =~= cs.take(j - 1));
        let r = split_on(cs.take(j - 1), ',');
        lemma_split_on_nonempty(cs.take(j - 1), ',');
        if cs[j - 1] == ',' {
            assert(r.push(Seq::empty()).take(a.len() as int) =~= r.take(a.len() as int));
        } else {
            assert(r.update(r.len() - 1, r.last().push(cs[j - 1])).take(a.len() as int) =~= r.take(
                a.len() as int,
            ));
        }
    }
}

/// An error in a prefix of the parts is the error of the whole list.
proof fn lemma_parse_parts_prefix_error(p: Seq<Seq<char>>, m: int, e: Seq<char>)
    requires
        0 <= m <= p.len(),
        parse_parts(p.take(m)) == Err::<Seq<(usize, usize)>, Seq<char>>(e),
    ensures
        parse_parts(p) == Err::<Seq<(usize, usize)>, Seq<char>>(e),
    decreases p.len() - m,
{
    if m == p.len() {
        assert(p.take(m) =~= p);
    } else {
        assert(p.drop_last().take(m) =~= p.take(m));
        lemma_parse_parts_prefix_error(p.drop_last(), m, e);
    }
}

proof fn lemma_parse_parts_error_sticks(
    cs: Seq<char>,
    done: Seq<Seq<char>>,
    raw: Seq<char>,
    e: Seq<char>,
    i: int,
)
    requires
        0 <= i <= cs.len(),
        i == cs.len() || cs[i] == ',',
        split_on(cs.take(i), ',') == done.push(raw),
        parse_parts(done) is Ok,
        parse_part(raw) == Some(Err::<(usize, usize), Seq<char>>(e)),
    ensures
        page_ranges_spec(cs) == Err::<Seq<(usize, usize)>, Seq<char>>(e),
{
    let pre = done.push(raw);
    assert(pre.drop_last() =~= done);
    assert(parse_parts(pre) == Err::<Seq<(usize, usize)>, Seq<char>>(e));
    if i == cs.len() {
        assert(cs.take(i) =~= cs);
    } else {
        lemma_split_prefix_stable(cs, i, cs.len() as int);
        assert(cs.take(cs.len() as int) =~= cs);
        lemma_parse_parts_prefix_error(split_on(cs, ','), pre.len() as int, e);
    }
}

/// Whether `x` lies in one of the 0-indexed spans `start - 1 .. end` of the ranges.
pub open spec fn covered(ranges: Seq<PageRange>, x: int) -> bool {
    exists|k: int| 0 <= k < ranges.len() && (#[trigger] ranges[k]).start - 1 <= x < ranges[k].end
}

/// Whether a sequence is strictly increasing.
pub open spec fn strictly_increasing(s: Seq<usize>) -> bool {
    forall|i: int, j: int| 0 <= i < j < s.len() ==> s[i] < s[j]
}

/// Insert `x` into a strictly increasing vector, keeping it strictly increasing.
fn insert_sorted(v: &mut Vec<usize>, x: usize)
    requires
        strictly_increasing(old(v)@),
    ensures
        strictly_increasing(final(v)@),
        forall|y: usize| final(v)@.contains(y) <==> (old(v)@.contains(y) || y == x),
{
    let mut p: usize = v.len();
    while p > 0 && v[p - 1] >= x
        invariant
            p <= v@.len(),
            forall|q: int| p <= q < v@.len() ==> v@[q] >= x,
        decreases p,
    {
        p = p - 1;
    }
    if p < v.len() && v[p] == x {
        assert(v@[p as int] == x);
        return;
    }
    let ghost before = v@;
    assert(p > 0 ==> before[p - 1] < x);
    assert(p < before.len() ==> before[p as int] > x);
    v.insert(p, x);
    proof {
        assert(v@ == before.insert(p as int, x));
        before.insert_ensures(p as int, x);
        assert forall|i: int, j: int| 0 <= i < j < v@.len() implies v@[i] < v@[j] by {
            if j < p {
            } else if j == p {
            } else if i < p {
                assert(before[j - 1] > x);
            } else if i == p {
            } else {
            }
        }
        assert forall|y: usize| v@.contains(y) <==> (before.contains(y) || y == x) by {
            if v@.contains(y) {
                let q = choose|q: int| 0 <= q < v@.len() && v@[q] == y;
                if q < p {
                    assert(before[q] == y);
                } else if q > p {
                    assert(before[q - 1] == y);
                }
            }
            if before.contains(y) {
                let q = choose|q: int| 0 <= q < before.len() && before[q] == y;
                if q < p {
                    assert(v@[q] == y);
                } else {
                    assert(v@[q + 1] == y);
                }
            }
            if y == x {
                assert(v@[p as int] == y);
            }
        }
    }
}

/// Collect all page ranges into a sorted, deduplicated list of 0-indexed page indices.
pub fn collect_page_indices(ranges: &[PageRange]) -> (indices: Vec<usize>)
    requires
        forall|k: int| 0 <= k < ranges@.len() ==> (#[trigger] ranges@[k]).start >= 1,
    ensures
        strictly_increasing(indices@),
        forall|x: usize| indices@.contains(x) <==> covered(ranges@, x as int),
{
    let mut indices: Vec<usize> = Vec::new();
    let mut k: usize = 0;
    while k < ranges.len()
        invariant
            k <= ranges@.len(),
            forall|q: int| 0 <= q < ranges@.len() ==> (#[trigger] ranges@[q]).start >= 1,
            strictly_increasing(indices@),
            forall|x: usize| indices@.contains(x) <==> covered(ranges@.take(k as int), x as int),
        decreases ranges@.len() - k,
    {
        let r = ranges[k].to_indices();
        let mut x = r.start;
        while x < r.end
            invariant
                r.start <= x,
                r.start <= r.end ==> x <= r.end,
                r.start > r.end ==> x == r.start,
                r.start == ranges@[k as int].start - 1,
                r.end == ranges@[k as int].end,
                k < ranges@.len(),
                strictly_increasing(indices@),
                forall|y: usize|
                    indices@.contains(y) <==> (covered(ranges@.take(k as int), y as int) || (r.start
                        <= y < x)),
            decreases r.end - x,
        {
            insert_sorted(&mut indices, x);
            x = x + 1;
        }
        proof {
            assert forall|y: usize| indices@.contains(y) <==> covered(ranges@.take(k + 1), y as int) by {
                let t1 = ranges@.take(k + 1);
                let t0 = ranges@.take(k as int);
                if covered(t1, y as int) {
                    let q = choose|q: int| 0 <= q < t1.len() && (#[trigger] t1[q]).start - 1 <= y < t1[q].end;
                    if q < k {
                        assert(t0[q] == t1[q]);
                    }
                }
                if covered(t0, y as int) {
                    let q = choose|q: int| 0 <= q < t0.len() && (#[trigger] t0[q]).start - 1 <= y < t0[q].end;
                    assert(t1[q] == t0[q]);
                }
                if r.start <= y < r.end {
                    assert(t1[k as int] == ranges@[k as int]);
                }
            }
        }
        k = k + 1;
    }
    assert(ranges@.take(ranges@.len() as int) =~= ranges@);
    indices
}

} // verus!
